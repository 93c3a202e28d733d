use thumbcache::cleanup::{artifact_stem_of, plan_orphan_cleanup};

fn strings(xs: &[&str]) -> Vec<String> {
    xs.iter().map(|s| s.to_string()).collect()
}

#[test]
fn removes_exactly_the_orphan() {
    let entries = strings(&["a.jpg", "b.jpg", "c.jpg"]);
    let valid = strings(&["a", "c"]);
    let plan = plan_orphan_cleanup(&entries, &valid, 10);
    assert_eq!(plan, strings(&["b.jpg"]));
    assert_eq!(plan.len(), 1);
}

#[test]
fn never_removes_a_valid_stem() {
    let entries = strings(&["a.jpg", "c.jpg"]);
    let valid = strings(&["a", "c"]);
    let plan = plan_orphan_cleanup(&entries, &valid, 10);
    assert!(plan.is_empty());
}

#[test]
fn limit_bounds_the_entries_scanned_not_the_orphans_found() {
    let entries = strings(&["x.jpg", "y.jpg", "z.jpg"]);
    let valid = strings(&[]);
    let plan = plan_orphan_cleanup(&entries, &valid, 2);
    assert_eq!(plan, strings(&["x.jpg", "y.jpg"]));
    // non-artifact entries still consume the scan budget
    let entries2 = strings(&["notes.txt", "y.jpg", "z.jpg"]);
    let plan2 = plan_orphan_cleanup(&entries2, &valid, 2);
    assert_eq!(plan2, strings(&["y.jpg"]));
}

#[test]
fn only_artifact_files_are_considered() {
    let entries = strings(&["b.txt", "b.jpeg", "b", "metadata.json"]);
    let valid = strings(&[]);
    let plan = plan_orphan_cleanup(&entries, &valid, 10);
    assert!(plan.is_empty());
}

#[test]
fn zero_limit_scans_nothing() {
    let entries = strings(&["b.jpg"]);
    let valid = strings(&[]);
    assert!(plan_orphan_cleanup(&entries, &valid, 0).is_empty());
}

#[test]
fn stems_are_derived_from_artifact_names_only() {
    assert_eq!(artifact_stem_of("uuid-1234.jpg"), Some("uuid-1234".to_string()));
    assert_eq!(artifact_stem_of("archive.tar.jpg"), Some("archive.tar".to_string()));
    assert_eq!(artifact_stem_of(".jpg"), None);
    assert_eq!(artifact_stem_of("photo.png"), None);
    assert_eq!(artifact_stem_of("jpg"), None);
}

#[test]
fn hidden_artifact_without_stem_is_skipped() {
    let entries = strings(&[".jpg", "real.jpg"]);
    let valid = strings(&[]);
    let plan = plan_orphan_cleanup(&entries, &valid, 10);
    assert_eq!(plan, strings(&["real.jpg"]));
}
