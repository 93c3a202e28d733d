use thumbcache::cache::ThumbnailCache;

#[test]
fn fresh_cache_is_empty_and_keeps_dir() {
    let c = ThumbnailCache::new(String::from("/tmp/thumbs"));
    assert!(!c.is_valid_with_artifact("id1", "/a", 1, 2, true));
    assert_eq!(c.artifact_path("id1"), "/tmp/thumbs/id1.jpg");
}

#[test]
fn cache_key_is_the_identity() {
    assert_eq!(ThumbnailCache::get_cache_key("abc-123"), "abc-123");
}

#[test]
fn update_then_valid_with_identical_tuple() {
    let mut c = ThumbnailCache::new(String::from("/tmp/thumbs"));
    c.update_metadata("id1", "/data/report.pdf", 1024, 777);
    assert!(c.is_valid_with_artifact("id1", "/data/report.pdf", 1024, 777, true));
    assert!(c.signature_matches("id1", "/data/report.pdf", 1024, 777));
}

#[test]
fn any_single_field_drift_invalidates() {
    let mut c = ThumbnailCache::new(String::from("/tmp/thumbs"));
    c.update_metadata("id1", "/data/report.pdf", 1024, 777);
    assert!(!c.is_valid_with_artifact("id1", "/data/other.pdf", 1024, 777, true));
    assert!(!c.is_valid_with_artifact("id1", "/data/report.pdf", 1025, 777, true));
    assert!(!c.is_valid_with_artifact("id1", "/data/report.pdf", 1024, 778, true));
}

#[test]
fn missing_artifact_invalidates_matching_signature() {
    let mut c = ThumbnailCache::new(String::from("/tmp/thumbs"));
    c.update_metadata("id1", "/data/report.pdf", 1024, 777);
    assert!(!c.is_valid_with_artifact("id1", "/data/report.pdf", 1024, 777, false));
}

#[test]
fn is_valid_probes_the_disk_and_fails_without_artifact() {
    let mut c = ThumbnailCache::new(String::from("/nonexistent-cache-dir-for-tests"));
    c.update_metadata("id1", "/data/report.pdf", 1024, 777);
    // exact signature, but no artifact file was ever written
    assert!(!c.is_valid("id1", "/data/report.pdf", 1024, 777));
}

#[test]
fn last_writer_wins_on_update() {
    let mut c = ThumbnailCache::new(String::from("/tmp/thumbs"));
    c.update_metadata("id1", "/old", 1, 1);
    c.update_metadata("id1", "/new", 2, 2);
    assert!(!c.is_valid_with_artifact("id1", "/old", 1, 1, true));
    assert!(c.is_valid_with_artifact("id1", "/new", 2, 2, true));
}

#[test]
fn remove_metadata_deletes_and_tolerates_absence() {
    let mut c = ThumbnailCache::new(String::from("/tmp/thumbs"));
    c.update_metadata("id1", "/a", 1, 1);
    c.remove_metadata("id1");
    assert!(!c.is_valid_with_artifact("id1", "/a", 1, 1, true));
    c.remove_metadata("never-there");
    assert!(!c.is_valid_with_artifact("never-there", "/a", 1, 1, true));
}

#[test]
fn identities_are_independent() {
    let mut c = ThumbnailCache::new(String::from("/tmp/thumbs"));
    c.update_metadata("id1", "/a", 1, 1);
    c.update_metadata("id2", "/b", 2, 2);
    c.remove_metadata("id1");
    assert!(c.is_valid_with_artifact("id2", "/b", 2, 2, true));
}
