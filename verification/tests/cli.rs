use import_videos::cli::{override_pair, OverrideFlags};

#[test]
fn override_pair_neither_flag_is_none() {
    assert_eq!(override_pair(false, false), None);
}

#[test]
fn override_pair_each_direction() {
    assert_eq!(override_pair(true, false), Some(true));
    assert_eq!(override_pair(false, true), Some(false));
}

#[test]
fn to_overrides_sets_only_the_marker_pair() {
    let flags = OverrideFlags { gopro_require_marker: false, no_gopro_require_marker: true };
    let o = flags.to_overrides();
    assert_eq!(o.gopro_require_marker, Some(false));
    assert_eq!(o.delete_source, None);
    assert_eq!(o.quarantine, None);
}
