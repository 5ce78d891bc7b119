use nsfw_triage::{from_pairs, markdown_report, path_le, sort_by_path, FileResult, HashableMetric};

fn result(path: &str, hentai: u32) -> FileResult {
    FileResult { path: path.to_string(), classifications: from_pairs(&vec![(HashableMetric::Hentai, hentai)]) }
}

#[test]
fn path_order_is_lexicographic() {
    assert!(path_le(&"a/b.png".to_string(), &"a/c.png".to_string()));
    assert!(!path_le(&"b.png".to_string(), &"a.png".to_string()));
    assert!(path_le(&"a".to_string(), &"a/b".to_string()));
    assert!(!path_le(&"a/b".to_string(), &"a".to_string()));
    assert!(path_le(&"same".to_string(), &"same".to_string()));
    assert!(path_le(&"".to_string(), &"".to_string()));
    assert!(path_le(&"Z".to_string(), &"a".to_string()));
}

#[test]
fn sort_orders_by_path_and_keeps_equal_paths_in_order() {
    let rows = vec![result("c.png", 1), result("a.png", 2), result("b.png", 3), result("a.png", 4)];
    let sorted = sort_by_path(&rows);
    let seen: Vec<(String, Option<u32>)> =
        sorted.iter().map(|r| (r.path.clone(), r.classifications.get(HashableMetric::Hentai))).collect();
    assert_eq!(
        seen,
        vec![
            ("a.png".to_string(), Some(2)),
            ("a.png".to_string(), Some(4)),
            ("b.png".to_string(), Some(3)),
            ("c.png".to_string(), Some(1)),
        ]
    );
    assert!(sort_by_path(&vec![]).is_empty());
}

#[test]
fn markdown_report_lists_rows_by_path() {
    let rows = vec![result("s/b.png", 100_000), result("s/a.png", 900_000)];
    assert_eq!(
        markdown_report("s", &rows),
        "# NSFW Report\n\n## Source Folder: s\n\n\
         | File | Drawings | Hentai | Neutral | Porn | Sexy |\n\
         | --- | --- | --- | --- | --- | --- |\n\
         | s/a.png | - | 90.00% | - | - | - |\n\
         | s/b.png | - | 10.00% | - | - | - |\n"
    );
}

#[test]
fn markdown_report_of_the_same_rows_is_the_same() {
    let first = vec![result("s/b.png", 1), result("s/a.png", 2)];
    let again = vec![result("s/b.png", 1), result("s/a.png", 2)];
    assert_eq!(markdown_report("s", &first), markdown_report("s", &again));
}
