use nsfw_triage::{decide, from_pairs, Classifications, FileResult, HashableMetric, SCORE_ONE};

fn scores(pairs: &[(HashableMetric, u32)]) -> Classifications {
    from_pairs(&pairs.to_vec())
}

fn result(path: &str, pairs: &[(HashableMetric, u32)]) -> FileResult {
    FileResult { path: path.to_string(), classifications: scores(pairs) }
}

#[test]
fn flagged_when_unsafe_score_above_threshold() {
    let r = result("a.png", &[(HashableMetric::Hentai, 900_000), (HashableMetric::Neutral, 100_000)]);
    assert!(r.is_nsfw(500_000));
}

#[test]
fn not_flagged_when_unsafe_scores_low() {
    let r = result("b.jpg", &[(HashableMetric::Hentai, 200_000), (HashableMetric::Neutral, 800_000)]);
    assert!(!r.is_nsfw(500_000));
}

#[test]
fn score_equal_to_threshold_is_not_flagged() {
    let r = result("c.png", &[(HashableMetric::Porn, 500_000)]);
    assert!(!r.is_nsfw(500_000));
    assert!(r.is_nsfw(499_999));
}

#[test]
fn safe_labels_do_not_count() {
    let r = result("d.png", &[(HashableMetric::Drawings, SCORE_ONE), (HashableMetric::Neutral, SCORE_ONE)]);
    assert!(!r.is_nsfw(0));
}

#[test]
fn no_unsafe_label_counts_as_zero() {
    let r = result("e.png", &[]);
    assert!(!r.is_nsfw(0));
    assert!(r.is_nsfw(-1));
}

#[test]
fn full_threshold_flags_nothing() {
    let r = result("f.png", &[(HashableMetric::Hentai, SCORE_ONE), (HashableMetric::Porn, SCORE_ONE), (HashableMetric::Sexy, SCORE_ONE)]);
    assert!(!r.is_nsfw(SCORE_ONE as i64));
}

#[test]
fn maximum_of_unsafe_labels_decides() {
    let r = result("g.png", &[(HashableMetric::Hentai, 100_000), (HashableMetric::Porn, 300_000), (HashableMetric::Sexy, 700_000)]);
    assert!(r.is_nsfw(600_000));
    assert!(!r.is_nsfw(700_000));
}

#[test]
fn decide_over_a_chosen_label_set() {
    let c = scores(&[(HashableMetric::Neutral, 800_000), (HashableMetric::Sexy, 100_000)]);
    assert!(decide(&c, 500_000, &vec![HashableMetric::Neutral]));
    assert!(!decide(&c, 500_000, &vec![HashableMetric::Sexy]));
    assert!(!decide(&c, 0, &vec![]));
}

#[test]
fn later_pair_of_a_label_wins() {
    let c = scores(&[(HashableMetric::Porn, 100_000), (HashableMetric::Porn, 600_000)]);
    assert_eq!(c.get(HashableMetric::Porn), Some(600_000));
    assert_eq!(c.get(HashableMetric::Hentai), None);
}

#[test]
fn label_names() {
    let names: Vec<String> = HashableMetric::all().iter().map(|l| l.name()).collect();
    assert_eq!(names, vec!["Drawings", "Hentai", "Neutral", "Porn", "Sexy"]);
    assert_eq!(HashableMetric::unsafe_set(), vec![HashableMetric::Hentai, HashableMetric::Porn, HashableMetric::Sexy]);
}
