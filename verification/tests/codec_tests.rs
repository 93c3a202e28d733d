use thumbcache::cache::ThumbnailCache;
use thumbcache::errors::EngineError;

#[test]
fn save_then_load_reproduces_the_index() {
    let mut c = ThumbnailCache::new(String::from("/tmp/thumbs"));
    c.update_metadata("id-a", "/files/a one.png", 10, -5);
    c.update_metadata("id-b", "/files/ünïcödé/b.pdf", u64::MAX, i64::MIN);
    c.update_metadata("id-c", "colons:and:digits:123:", 0, i64::MAX);
    let snapshot = c.save_content();

    let mut fresh = ThumbnailCache::new(String::from("/elsewhere"));
    assert!(fresh.load_from_content(Some(snapshot.as_str())).is_ok());
    assert!(fresh.is_valid_with_artifact("id-a", "/files/a one.png", 10, -5, true));
    assert!(fresh.is_valid_with_artifact("id-b", "/files/ünïcödé/b.pdf", u64::MAX, i64::MIN, true));
    assert!(fresh.is_valid_with_artifact("id-c", "colons:and:digits:123:", 0, i64::MAX, true));
    assert!(!fresh.is_valid_with_artifact("id-a", "/files/a one.png", 11, -5, true));
}

#[test]
fn absent_index_file_loads_as_empty_index() {
    let mut c = ThumbnailCache::new(String::from("/tmp/thumbs"));
    c.update_metadata("id-a", "/a", 1, 1);
    assert!(c.load_from_content(None).is_ok());
    assert!(!c.is_valid_with_artifact("id-a", "/a", 1, 1, true));
}

#[test]
fn empty_and_whitespace_content_load_as_empty_index() {
    let mut c = ThumbnailCache::new(String::from("/tmp/thumbs"));
    assert!(c.load_from_content(Some("")).is_ok());
    assert!(c.load_from_content(Some("  \t\r\n ")).is_ok());
    assert!(!c.is_valid_with_artifact("x", "/a", 1, 1, true));
}

#[test]
fn malformed_content_is_a_reported_nonfatal_failure() {
    let mut c = ThumbnailCache::new(String::from("/tmp/thumbs"));
    c.update_metadata("id-a", "/a", 1, 1);
    let r = c.load_from_content(Some("this is not a snapshot"));
    assert_eq!(r, Err(EngineError::IndexIOFailure));
    // the index starts cold after a failed load
    assert!(!c.is_valid_with_artifact("id-a", "/a", 1, 1, true));
    // and the instance keeps working
    c.update_metadata("id-b", "/b", 2, 2);
    assert!(c.is_valid_with_artifact("id-b", "/b", 2, 2, true));
}

#[test]
fn truncated_snapshot_is_malformed() {
    let mut c = ThumbnailCache::new(String::from("/tmp/thumbs"));
    c.update_metadata("id-a", "/a", 1, 1);
    let snapshot = c.save_content();
    let cut = &snapshot[..snapshot.len() - 1];
    let mut fresh = ThumbnailCache::new(String::from("/tmp/thumbs"));
    assert_eq!(fresh.load_from_content(Some(cut)), Err(EngineError::IndexIOFailure));
}

#[test]
fn empty_index_round_trips() {
    let c = ThumbnailCache::new(String::from("/tmp/thumbs"));
    let snapshot = c.save_content();
    assert_eq!(snapshot, "");
    let mut fresh = ThumbnailCache::new(String::from("/tmp/thumbs"));
    assert!(fresh.load_from_content(Some(snapshot.as_str())).is_ok());
}

#[test]
fn empty_string_fields_round_trip() {
    let mut c = ThumbnailCache::new(String::from("/tmp/thumbs"));
    c.update_metadata("", "", 0, 0);
    let snapshot = c.save_content();
    let mut fresh = ThumbnailCache::new(String::from("/tmp/thumbs"));
    assert!(fresh.load_from_content(Some(snapshot.as_str())).is_ok());
    assert!(fresh.is_valid_with_artifact("", "", 0, 0, true));
}

#[test]
fn trailing_garbage_after_records_is_malformed() {
    let mut c = ThumbnailCache::new(String::from("/tmp/thumbs"));
    c.update_metadata("id-a", "/a", 1, 1);
    let mut snapshot = c.save_content();
    snapshot.push('x');
    let mut fresh = ThumbnailCache::new(String::from("/tmp/thumbs"));
    assert_eq!(fresh.load_from_content(Some(snapshot.as_str())), Err(EngineError::IndexIOFailure));
}

#[test]
fn duplicate_identities_in_a_snapshot_are_malformed() {
    let mut c = ThumbnailCache::new(String::from("/tmp/thumbs"));
    c.update_metadata("id-a", "/a", 1, 1);
    let one = c.save_content();
    let twice = format!("{}{}", one, one);
    let mut fresh = ThumbnailCache::new(String::from("/tmp/thumbs"));
    assert_eq!(fresh.load_from_content(Some(twice.as_str())), Err(EngineError::IndexIOFailure));
}
