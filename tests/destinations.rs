use nsfw_triage::{flat_destination, mirror_destination, DestinationResolver};

#[test]
fn same_name_claims_get_suffixes_in_order() {
    let mut r = DestinationResolver::new(vec![]);
    assert_eq!(r.claim_flat("src/a/x.png"), Some("x.png".to_string()));
    assert_eq!(r.claim_flat("src/b/x.png"), Some("x (1).png".to_string()));
    assert_eq!(r.claim_flat("src/c/x.png"), Some("x (2).png".to_string()));
}

#[test]
fn existing_files_are_not_overwritten() {
    let mut r = DestinationResolver::new(vec!["x.png".to_string(), "x (1).png".to_string()]);
    assert_eq!(r.claim_flat("x.png"), Some("x (2).png".to_string()));
    assert_eq!(r.claim_flat("y.png"), Some("y.png".to_string()));
}

#[test]
fn counter_restarts_for_each_name() {
    let mut r = DestinationResolver::new(vec![]);
    assert_eq!(r.claim_flat("a/x.png"), Some("x.png".to_string()));
    assert_eq!(r.claim_flat("a/y.png"), Some("y.png".to_string()));
    assert_eq!(r.claim_flat("b/y.png"), Some("y (1).png".to_string()));
    assert_eq!(r.claim_flat("b/x.png"), Some("x (1).png".to_string()));
}

#[test]
fn suffix_goes_before_final_extension() {
    let mut r = DestinationResolver::new(vec![]);
    assert_eq!(r.claim_flat("a/photo.tar.gif"), Some("photo.tar.gif".to_string()));
    assert_eq!(r.claim_flat("b/photo.tar.gif"), Some("photo.tar (1).gif".to_string()));
}

#[test]
fn name_without_extension_gets_plain_suffix() {
    let mut r = DestinationResolver::new(vec![]);
    assert_eq!(r.claim_flat("a/README"), Some("README".to_string()));
    assert_eq!(r.claim_flat("b/README"), Some("README (1)".to_string()));
    assert_eq!(r.claim_flat("a/.hidden"), Some(".hidden".to_string()));
    assert_eq!(r.claim_flat("b/.hidden"), Some(".hidden (1)".to_string()));
}

#[test]
fn path_without_file_name_claims_nothing() {
    let mut r = DestinationResolver::new(vec![]);
    assert_eq!(r.claim_flat("a/.."), None);
    assert_eq!(r.claim_flat("/"), None);
}

#[test]
fn two_digit_counters() {
    let mut r = DestinationResolver::new(vec![]);
    for _ in 0..11 {
        r.claim_flat("x.png");
    }
    assert_eq!(r.claim_flat("x.png"), Some("x (11).png".to_string()));
}

#[test]
fn flatten_places_same_names_side_by_side() {
    let mut r = DestinationResolver::new(vec![]);
    assert_eq!(flat_destination(&mut r, "dest", "src/one/x.png"), Some("dest/x.png".to_string()));
    assert_eq!(flat_destination(&mut r, "dest", "src/two/x.png"), Some("dest/x (1).png".to_string()));
}

#[test]
fn mirror_keeps_subtree() {
    assert_eq!(mirror_destination("dest", "src", "src/sub/a.png"), Some("dest/sub/a.png".to_string()));
    assert_eq!(mirror_destination("/out/", "/in", "/in/a.png"), Some("/out/a.png".to_string()));
}

#[test]
fn mirror_outside_source_is_none() {
    assert_eq!(mirror_destination("dest", "src", "other/a.png"), None);
    assert_eq!(mirror_destination("dest", "src", "srcx/a.png"), None);
}
