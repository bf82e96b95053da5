use import_videos::source::gopro::{is_gopro_dir_name, parse_chapter_name, session_group_name, GoproSource};
use import_videos::source::Verdict;

#[test]
fn parses_hero8_chapter_names() {
    assert_eq!(parse_chapter_name("GX010123.MP4"), Some((1, "0123".to_string())));
    assert_eq!(parse_chapter_name("GH020123.mp4"), Some((2, "0123".to_string())));
}

#[test]
fn rejects_non_chapter_names() {
    assert_eq!(parse_chapter_name("GOPR0042.JPG"), None);
    assert_eq!(parse_chapter_name("GX010123.LRV"), None);
    assert_eq!(parse_chapter_name("GX0101234.MP4"), None);
    assert_eq!(parse_chapter_name("random.txt"), None);
}

#[test]
fn gopro_dir_name_matches_1_star_gopro() {
    assert!(is_gopro_dir_name("100GOPRO"));
    assert!(is_gopro_dir_name("101GOPRO"));
    assert!(!is_gopro_dir_name("MISC"));
    assert!(!is_gopro_dir_name("200GOPRO"));
}

#[test]
fn require_marker_false_keeps_unmarked_session() {
    assert_eq!(GoproSource { require_marker: false }.session_verdict(0), Verdict::Keep);
    assert_eq!(GoproSource { require_marker: true }.session_verdict(0), Verdict::Quarantine);
    assert_eq!(GoproSource { require_marker: true }.session_verdict(2), Verdict::Keep);
    assert_eq!(session_group_name("0123"), "session-0123");
}
