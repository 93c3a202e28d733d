use thumbcache::catalog::{allowed_extension, build_file_item, decide_add, AddDecision};
use thumbcache::default_version;
use thumbcache::models::{AppData, AppDataV1};

fn strings(xs: &[&str]) -> Vec<String> {
    xs.iter().map(|s| s.to_string()).collect()
}

#[test]
fn duplicates_are_skipped_before_anything_else() {
    let existing = strings(&["/a/b.png"]);
    assert_eq!(decide_add(&existing, "/a/b.png", true, false), AddDecision::SkipDuplicate);
    // even a path that no longer exists is reported as the duplicate it is
    assert_eq!(decide_add(&existing, "/a/b.png", false, false), AddDecision::SkipDuplicate);
}

#[test]
fn missing_paths_are_skipped() {
    let existing = strings(&[]);
    assert_eq!(decide_add(&existing, "/gone.png", false, false), AddDecision::SkipMissing);
}

#[test]
fn unsupported_extensions_are_skipped_but_directories_pass() {
    let existing = strings(&[]);
    assert_eq!(decide_add(&existing, "/a/tool.exe", true, false), AddDecision::SkipUnsupported);
    assert_eq!(decide_add(&existing, "/a/tool.exe", true, true), AddDecision::Add);
    assert_eq!(decide_add(&existing, "/a/song.Mp3", true, false), AddDecision::Add);
}

#[test]
fn the_whitelist_covers_documents_images_videos_audio() {
    for ext in ["pdf", "docx", "md", "csv", "png", "webp", "mp4", "mov", "flac", "wma"] {
        assert!(allowed_extension(ext), "{ext} should be allowed");
    }
    for ext in ["exe", "rs", "iso", ""] {
        assert!(!allowed_extension(ext), "{ext} should be refused");
    }
}

#[test]
fn a_file_record_carries_probe_results_and_guessed_mime() {
    let f = build_file_item(
        "id-1".to_string(),
        "photo.PNG".to_string(),
        "/pics/photo.PNG",
        false,
        2048,
        123456,
    );
    assert_eq!(f.id, "id-1");
    assert_eq!(f.extension, "png");
    assert_eq!(f.size, 2048);
    assert_eq!(f.mime_type, "image/png");
    assert_eq!(f.added_at, 123456);
    assert!(f.tag_ids.is_empty());
}

#[test]
fn a_directory_record_uses_the_directory_pseudo_type() {
    let f = build_file_item(
        "id-2".to_string(),
        "stuff".to_string(),
        "/home/u/stuff",
        true,
        999,
        1,
    );
    assert_eq!(f.extension, "folder");
    assert_eq!(f.size, 0);
    assert_eq!(f.mime_type, "inode/directory");
}

#[test]
fn defaults_carry_the_schema_versions() {
    assert_eq!(default_version(), 2);
    let d = AppData::default();
    assert_eq!(d.version, 2);
    assert!(d.files.is_empty() && d.tags.is_empty() && d.groups.is_empty());
    let v1 = AppDataV1::default();
    assert_eq!(v1.version, 1);
    assert!(v1.files.is_empty());
}
