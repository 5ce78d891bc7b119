use nsfw_triage::{
    destination_for, filter_candidates, from_pairs, is_candidate, is_image_extension, render_report, summarize,
    DestinationResolver, FileResult, HashableMetric, RunSummary, TriageOptions,
};

fn result(path: &str, pairs: &[(HashableMetric, u32)]) -> FileResult {
    FileResult { path: path.to_string(), classifications: from_pairs(&pairs.to_vec()) }
}

fn two_images() -> Vec<FileResult> {
    vec![
        result("src/a.png", &[(HashableMetric::Hentai, 900_000), (HashableMetric::Neutral, 100_000)]),
        result("src/b.jpg", &[(HashableMetric::Hentai, 200_000), (HashableMetric::Neutral, 800_000)]),
    ]
}

fn options(flatten: bool) -> TriageOptions {
    TriageOptions {
        threshold: 500_000,
        flatten,
        source_folder: "src".to_string(),
        destination: "destination".to_string(),
    }
}

#[test]
fn recognised_extensions() {
    for e in ["png", "jpeg", "jpg", "webp", "jpe", "gif"] {
        assert!(is_image_extension(&e.to_string()));
    }
    assert!(!is_image_extension(&"PNG".to_string()));
    assert!(!is_image_extension(&"bmp".to_string()));
    assert!(!is_image_extension(&"".to_string()));
}

#[test]
fn candidates_by_extension_of_file_name() {
    assert!(is_candidate("dir/photo.png"));
    assert!(is_candidate("dir/archive.tar.gif"));
    assert!(!is_candidate("dir/photo.PNG"));
    assert!(!is_candidate("dir/.png"));
    assert!(!is_candidate("dir/png"));
    assert!(!is_candidate("dir.png/notes.txt"));
}

#[test]
fn filter_keeps_candidates_in_order() {
    let found = vec![
        "s/b.jpg".to_string(),
        "s/readme.md".to_string(),
        "s/sub".to_string(),
        "s/sub/a.webp".to_string(),
        "s/c.jpe".to_string(),
    ];
    assert_eq!(filter_candidates(&found), vec!["s/b.jpg", "s/sub/a.webp", "s/c.jpe"]);
    assert_eq!(filter_candidates(&vec![]), Vec::<String>::new());
}

#[test]
fn report_of_nothing_has_no_table() {
    assert_eq!(render_report("src", &vec![]), "# NSFW Report\n\n## Source Folder: src\n\n");
}

#[test]
fn report_has_one_row_per_result() {
    let text = render_report("src", &two_images());
    assert_eq!(
        text,
        "# NSFW Report\n\n## Source Folder: src\n\n\
         | File | Drawings | Hentai | Neutral | Porn | Sexy |\n\
         | --- | --- | --- | --- | --- | --- |\n\
         | src/a.png | - | 90.00% | 10.00% | - | - |\n\
         | src/b.jpg | - | 20.00% | 80.00% | - | - |\n"
    );
}

#[test]
fn percentages_round_half_up() {
    let rows = vec![result(
        "x.png",
        &[
            (HashableMetric::Drawings, 123_456),
            (HashableMetric::Hentai, 1_000_000),
            (HashableMetric::Neutral, 0),
            (HashableMetric::Porn, 49),
            (HashableMetric::Sexy, 50),
        ],
    )];
    let text = render_report("d", &rows);
    assert!(text.ends_with("| x.png | 12.35% | 100.00% | 0.00% | 0.00% | 0.01% |\n"));
}

#[test]
fn report_is_the_same_when_rendered_twice() {
    let rows = two_images();
    assert_eq!(render_report("src", &rows), render_report("src", &rows));
}

#[test]
fn mirror_scenario_copies_only_flagged_image() {
    let rows = two_images();
    let mut resolver = DestinationResolver::new(vec![]);
    let opts = options(false);
    assert_eq!(destination_for(&rows[0], &opts, &mut resolver), Some("destination/a.png".to_string()));
    assert_eq!(destination_for(&rows[1], &opts, &mut resolver), None);
    assert_eq!(summarize(2, &rows, opts.threshold), RunSummary { scanned: 2, classified: 2, flagged: 1 });
}

#[test]
fn flatten_scenario_two_same_names() {
    let rows = vec![
        result("src/one/x.png", &[(HashableMetric::Porn, 700_000)]),
        result("src/two/x.png", &[(HashableMetric::Sexy, 900_000)]),
    ];
    let mut resolver = DestinationResolver::new(vec![]);
    let opts = options(true);
    assert_eq!(destination_for(&rows[0], &opts, &mut resolver), Some("destination/x.png".to_string()));
    assert_eq!(destination_for(&rows[1], &opts, &mut resolver), Some("destination/x (1).png".to_string()));
}

#[test]
fn unflagged_image_claims_no_name() {
    let calm = result("src/x.png", &[(HashableMetric::Neutral, 990_000)]);
    let hot = result("src/y/x.png", &[(HashableMetric::Hentai, 990_000)]);
    let mut resolver = DestinationResolver::new(vec![]);
    let opts = options(true);
    assert_eq!(destination_for(&calm, &opts, &mut resolver), None);
    assert_eq!(destination_for(&hot, &opts, &mut resolver), Some("destination/x.png".to_string()));
}

#[test]
fn failed_images_are_not_in_report_or_counts() {
    // Three candidates were found; one could not be read, so two were classified.
    let rows = two_images();
    let summary = summarize(3, &rows, 500_000);
    assert_eq!(summary, RunSummary { scanned: 3, classified: 2, flagged: 1 });
    assert_eq!(render_report("src", &rows).matches("\n| src/").count(), 2);
}
