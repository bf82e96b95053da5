use import_videos::cleanup::{cleanup_entry, cleanup_report_of, order_entries, purge_needs_confirmation, CleanupEntry};
use import_videos::cli::{import_overrides, OverrideFlags};
use import_videos::clock::{add_millis, CivilTime, UtcInstant};
use import_videos::config::layout::LayoutTemplate;
use import_videos::config::{check_profile_fields, explicit_source, unignored, validate_profile, Profile, RawProfile, SourceKind, SourceLocation};
use import_videos::error::{Error, ExitCode};
use import_videos::inspect::{
    classify, marker_dumps, marker_dumps_json, render_mp4_dump_stamped, render_tesla_dump, tesla_event_dump, GpsSummary, InspectTarget,
    MarkerDump, Mp4Dump, PathFacts,
};
use import_videos::plan::{ImportPlan, MediaFile, MediaGroup, PlannedAction, Sidecar};
use import_videos::source::gopro::{group_chapters, ChapterFacts, GoproSource};
use import_videos::source::tesla::{
    cluster_recent, default_events, event_wall_clock, parse_event_fields, parse_stem_exact, parse_stem_prefix, recent_group,
    resolve_instant,
    EventCategory, TeslaSource,
};
use import_videos::source::Verdict;
use import_videos::transfer::{planned_bytes, progress_advance, quick_match_hit, Confirmation, TransferOutcome};
use import_videos::{drive_header, no_sources_text, progress_enabled};

fn sidecar() -> Sidecar {
    Sidecar { filename: "import.json".to_string(), content: "{}".to_string(), time_source: None }
}

fn context_value<'a>(ctx: &'a [(String, String)], key: &str) -> &'a str {
    ctx.iter().find(|(k, _)| k == key).map(|(_, v)| v.as_str()).unwrap()
}

fn event_json(reason: &str) -> String {
    format!(
        r#"{{"timestamp":"2026-07-04T18:23:51","city":"London","est_lat":"51.5012","est_lon":"-0.1246","reason":"{reason}","camera":"0"}}"#
    )
}

fn tesla(events: Vec<EventCategory>) -> TeslaSource {
    TeslaSource { events, reasons: None }
}

fn files(paths: &[&str]) -> Vec<(String, u64)> {
    paths.iter().map(|p| (p.to_string(), 5)).collect()
}

#[test]
fn event_folder_becomes_one_group_with_all_files() {
    let dir = "/card/TeslaCam/SavedClips/2026-07-04_18-23-51";
    let fields = parse_event_fields(&event_json("user_interaction_honk"));
    let listing = files(&[
        &format!("{dir}/event.json"),
        &format!("{dir}/thumb.png"),
        &format!("{dir}/2026-07-04_18-18-32-front.mp4"),
        &format!("{dir}/2026-07-04_18-18-32-back.mp4"),
    ]);
    let (group, verdict) = tesla(default_events()).event_group(
        EventCategory::Saved,
        "2026-07-04_18-23-51",
        fields.timestamp,
        fields.reason.as_deref(),
        &listing,
        sidecar(),
    );

    assert_eq!(verdict, Verdict::Keep);
    assert_eq!(group.files.len(), 4);
    assert_eq!(context_value(&group.context, "event_type"), "saved");
    assert_eq!(context_value(&group.context, "event_date"), "2026-07-04");
    assert_eq!(context_value(&group.context, "event_time"), "18-23-51");
    assert_eq!(group.name, "saved-2026-07-04_18-23-51");
    assert!(group.sidecar.is_some());
    let names: Vec<&str> = group.files.iter().map(|f| f.path.rsplit('/').next().unwrap()).collect();
    assert_eq!(names, vec!["2026-07-04_18-18-32-back.mp4", "2026-07-04_18-18-32-front.mp4", "event.json", "thumb.png"]);
    let event_json_file = group.files.iter().find(|f| f.path.ends_with("event.json")).unwrap();
    assert_eq!(event_json_file.recorded_at, Some(group.timestamp));
}

#[test]
fn corrupt_event_json_falls_back_to_folder_name() {
    let fields = parse_event_fields("{not valid json");
    assert!(fields.timestamp.is_none());
    assert!(fields.reason.is_none());
    let (wall, source) = event_wall_clock(fields.timestamp, "2026-07-04_18-23-51").unwrap();
    assert_eq!(source, "folder_name");
    assert_eq!(wall, CivilTime { year: 2026, month: 7, day: 4, hour: 18, minute: 23, second: 51 });
    let (group, verdict) =
        tesla(default_events()).event_group(EventCategory::Saved, "2026-07-04_18-23-51", None, None, &vec![], sidecar());
    assert_eq!(verdict, Verdict::Keep);
    assert_eq!(context_value(&group.context, "event_date"), "2026-07-04");
}

#[test]
fn event_json_timestamp_wins_over_the_folder_name() {
    let fields = parse_event_fields(&event_json("user_interaction_honk"));
    let (_, source) = event_wall_clock(fields.timestamp, "2026-07-04_18-23-51").unwrap();
    assert_eq!(source, "event_json");
    assert_eq!(fields.city.as_deref(), Some("London"));
    assert_eq!(fields.reason.as_deref(), Some("user_interaction_honk"));
}

#[test]
fn unparseable_folder_yields_an_ignored_group_at_the_epoch() {
    let listing = files(&["/card/TeslaCam/SavedClips/not-a-timestamp/clip.mp4"]);
    let (group, verdict) =
        tesla(default_events()).event_group(EventCategory::Saved, "not-a-timestamp", None, None, &listing, sidecar());
    assert_eq!(verdict, Verdict::Ignore("unparseable event folder".to_string()));
    assert_eq!(group.timestamp, UtcInstant { secs: 0, nanos: 0 });
    assert!(group.sidecar.is_none());
    assert!(group.context.is_empty());
    assert_eq!(group.files[0].recorded_at, Some(UtcInstant { secs: 0, nanos: 0 }));
}

#[test]
fn unrecognized_file_inside_event_folder_travels_with_it() {
    let dir = "/card/TeslaCam/SavedClips/2026-07-04_18-23-51";
    let fields = parse_event_fields(&event_json("user_interaction_honk"));
    let listing = files(&[&format!("{dir}/event.json"), &format!("{dir}/notes.txt")]);
    let (group, verdict) = tesla(default_events()).event_group(
        EventCategory::Saved,
        "2026-07-04_18-23-51",
        fields.timestamp,
        fields.reason.as_deref(),
        &listing,
        sidecar(),
    );
    assert_eq!(verdict, Verdict::Keep);
    assert!(group.files.iter().any(|f| f.path.ends_with("/notes.txt")));
}

#[test]
fn recent_clips_cluster_by_minute_when_enabled() {
    let mut paths = Vec::new();
    for angle in ["front", "back", "left_repeater", "right_repeater"] {
        paths.push(format!("/card/TeslaCam/RecentClips/2026-07-04_18-40-00-{angle}.mp4"));
        paths.push(format!("/card/TeslaCam/RecentClips/2026-07-04_18-41-00-{angle}.mp4"));
    }
    let (clusters, stray) = cluster_recent(&paths);
    assert!(stray.is_empty());
    assert_eq!(clusters.len(), 2);
    assert_eq!(clusters[0].stem, "2026-07-04_18-40-00");
    assert_eq!(clusters[1].stem, "2026-07-04_18-41-00");
    for cluster in &clusters {
        let listing: Vec<(String, u64)> = cluster.paths.iter().map(|p| (p.clone(), 1)).collect();
        let (group, verdict) = recent_group(&cluster.stem, &listing, sidecar());
        assert_eq!(verdict, Verdict::Keep);
        assert_eq!(group.files.len(), 4);
        assert_eq!(context_value(&group.context, "event_type"), "recent");
        assert_eq!(group.name, format!("recent-{}", cluster.stem));
        assert!(group.files.iter().all(|f| f.recorded_at == Some(group.timestamp)));
    }
    let mut sorted = clusters[0].paths.clone();
    sorted.sort();
    assert_eq!(clusters[0].paths, sorted);
}

#[test]
fn recent_clips_without_a_stem_are_strays_in_order() {
    let paths = vec![
        "/r/zeta.txt".to_string(),
        "/r/2026-07-04_18-40-00-front.mp4".to_string(),
        "/r/alpha.txt".to_string(),
        "/r/2026-13-04_18-40-00-front.mp4".to_string(),
    ];
    let (clusters, stray) = cluster_recent(&paths);
    assert_eq!(clusters.len(), 1);
    assert_eq!(stray, vec!["/r/zeta.txt", "/r/alpha.txt", "/r/2026-13-04_18-40-00-front.mp4"]);
}

#[test]
fn stems_read_whole_names_and_name_prefixes() {
    assert!(parse_stem_exact("2026-07-04_18-23-51").is_some());
    assert!(parse_stem_exact("2026-07-04_18-23-51-front").is_none());
    assert!(parse_stem_exact("not-a-timestamp").is_none());
    assert_eq!(
        parse_stem_prefix("2026-07-04_18-18-32-front.mp4"),
        Some(CivilTime { year: 2026, month: 7, day: 4, hour: 18, minute: 18, second: 32 })
    );
    assert!(parse_stem_prefix("2026-07-04").is_none());
    assert!(parse_stem_prefix("2026-07-04_18-18-3é.mp4").is_none());
}

#[test]
fn chapters_group_by_session_across_gopro_dirs() {
    let paths = vec![
        "/card/DCIM/100GOPRO/GX010200.MP4".to_string(),
        "/card/DCIM/101GOPRO/GX020200.MP4".to_string(),
    ];
    let (sessions, unrecognized) = group_chapters(&paths);
    assert!(unrecognized.is_empty());
    assert_eq!(sessions.len(), 1, "both chapters share one session");
    assert_eq!(sessions[0].id, "0200");
    let chapters = &sessions[0].chapters;
    assert_eq!(chapters.len(), 2);
    let names: Vec<&str> = chapters.iter().map(|(_, p)| p.rsplit('/').next().unwrap()).collect();
    assert!(names.contains(&"GX010200.MP4"));
    assert!(names.contains(&"GX020200.MP4"));
}

#[test]
fn sessions_and_chapters_come_out_in_order() {
    let paths = vec![
        "/c/GX020124.MP4".to_string(),
        "/c/notes.txt".to_string(),
        "/c/GX010200.MP4".to_string(),
        "/c/GH010124.mp4".to_string(),
    ];
    let (sessions, unrecognized) = group_chapters(&paths);
    assert_eq!(unrecognized, vec!["/c/notes.txt"]);
    let ids: Vec<&str> = sessions.iter().map(|s| s.id.as_str()).collect();
    assert_eq!(ids, vec!["0124", "0200"]);
    assert_eq!(
        sessions[0].chapters,
        vec![(1, "/c/GH010124.mp4".to_string()), (2, "/c/GX020124.MP4".to_string())]
    );
}

fn chapter(path: &str, secs: i64, markers: Vec<u32>) -> ChapterFacts {
    ChapterFacts { path: path.to_string(), size: 100, camera_time: UtcInstant { secs, nanos: 0 }, markers }
}

#[test]
fn session_times_follow_the_clock_offset() {
    let source = GoproSource { require_marker: true };
    let chapters = vec![chapter("/c/GX010124.MP4", 1_000, vec![500, 1_500]), chapter("/c/GX020124.MP4", 2_000, vec![])];
    let (group, verdict) = source.assemble_session("0124", &chapters, Some(-2_000), sidecar());
    assert_eq!(verdict, Verdict::Keep);
    assert_eq!(group.name, "session-0124");
    assert_eq!(group.timestamp, UtcInstant { secs: 998, nanos: 0 });
    assert_eq!(group.files[1].recorded_at, Some(UtcInstant { secs: 1_998, nanos: 0 }));
    assert_eq!(group.markers.len(), 2);
    assert_eq!(group.markers[0].timestamp, UtcInstant { secs: 998, nanos: 500_000_000 });
    assert_eq!(group.markers[1].timestamp, UtcInstant { secs: 999, nanos: 500_000_000 });
    assert_eq!(group.context, vec![("session".to_string(), "0124".to_string())]);
    assert!(group.sidecar.is_some());
}

#[test]
fn unmarked_session_is_quarantined_without_a_sidecar() {
    let source = GoproSource { require_marker: true };
    let chapters = vec![chapter("/c/GX010124.MP4", 1_000, vec![])];
    let (group, verdict) = source.assemble_session("0124", &chapters, None, sidecar());
    assert_eq!(verdict, Verdict::Quarantine);
    assert!(group.sidecar.is_none());
    assert_eq!(group.timestamp, UtcInstant { secs: 1_000, nanos: 0 });
}

#[test]
fn millisecond_shifts_cross_second_and_epoch_boundaries() {
    assert_eq!(add_millis(UtcInstant { secs: 0, nanos: 0 }, -1), UtcInstant { secs: -1, nanos: 999_000_000 });
    assert_eq!(add_millis(UtcInstant { secs: 5, nanos: 999_500_000 }, 1), UtcInstant { secs: 6, nanos: 500_000 });
}

fn raw(layout: &str, quarantine: Option<&str>) -> RawProfile {
    RawProfile {
        kind: SourceKind::Generic,
        source: "auto".to_string(),
        destination: "/data/dest".to_string(),
        layout: layout.to_string(),
        ignore: vec!["*.tmp".to_string()],
        quarantine: quarantine.map(str::to_string),
        delete_source: true,
        copy_quarantine: true,
        reflink: true,
    }
}

#[test]
fn relative_quarantine_resolves_against_destination() {
    let profile = validate_profile("cam", raw("{date}", Some("./_quarantine")), None).unwrap();
    assert_eq!(profile.quarantine.as_deref(), Some("/data/dest/./_quarantine"));
    assert_eq!(profile.source, SourceLocation::Auto);
    assert!(profile.delete_source);
}

#[test]
fn absolute_quarantine_is_left_unchanged() {
    let profile = validate_profile("cam", raw("{date}", Some("/elsewhere/_quarantine")), None).unwrap();
    assert_eq!(profile.quarantine.as_deref(), Some("/elsewhere/_quarantine"));
}

#[test]
fn malformed_layout_fails_at_load() {
    let err = validate_profile("cam", raw("{date:%Y", None), None).unwrap_err();
    assert!(err.message().contains("layout"));
    assert!(matches!(err, Error::Config(_)));
    assert_eq!(err.exit_code(), ExitCode::UsageOrConfig);
}

#[test]
fn invalid_ignore_glob_names_the_field() {
    let mut r = raw("{date}", None);
    r.ignore = vec!["a[".to_string()];
    let err = validate_profile("cam", r, None).unwrap_err();
    assert!(err.message().contains("profile 'cam': ignore: "), "{}", err.message());
}

#[test]
fn tilde_paths_expand_against_home() {
    let mut r = raw("{date}", None);
    r.source = "~/card".to_string();
    r.destination = "~/Videos/cam".to_string();
    let profile = validate_profile("cam", r, Some("/home/me")).unwrap();
    assert_eq!(profile.source, SourceLocation::Path("/home/me/card".to_string()));
    assert_eq!(profile.destination, "/home/me/Videos/cam");
}

#[test]
fn require_marker_rejected_on_non_gopro_profile() {
    let err = check_profile_fields("cam", &SourceKind::Generic, true, false).unwrap_err();
    assert!(matches!(err, Error::Config(_)));
    assert!(err.message().contains("cam"));
    assert!(err.message().contains("require_marker"));
    assert_eq!(err.exit_code(), ExitCode::UsageOrConfig);
}

#[test]
fn tesla_fields_rejected_on_non_tesla_profile() {
    let kind = SourceKind::Gopro { require_marker: true, gps_lookup: true };
    let err = check_profile_fields("cam", &kind, false, true).unwrap_err();
    assert!(err.message().contains("events/reasons are only valid for profiles of type tesla"));
    assert!(check_profile_fields("cam", &kind, true, false).is_ok());
}

fn profile_with_source(source: SourceLocation) -> Profile {
    Profile {
        kind: SourceKind::Generic,
        source,
        destination: "/dest".to_string(),
        layout: LayoutTemplate::parse("{date}").unwrap(),
        ignore: vec![],
        quarantine: None,
        delete_source: false,
        copy_quarantine: true,
        reflink: true,
    }
}

#[test]
fn explicit_source_prefers_the_command_line() {
    let p = profile_with_source(SourceLocation::Path("/mnt/card".to_string()));
    assert_eq!(explicit_source(&p, Some("/other")).as_deref(), Some("/other"));
    assert_eq!(explicit_source(&p, None).as_deref(), Some("/mnt/card"));
    let auto = profile_with_source(SourceLocation::Auto);
    assert_eq!(explicit_source(&auto, None), None);
}

#[test]
fn classifies_mp4_file() {
    let facts = PathFacts { is_file: true, is_dir: false, holds_event_json: false };
    assert!(matches!(classify("/tmp/x/GX010123.MP4", facts), Ok(InspectTarget::Mp4(_))));
}

#[test]
fn classifies_tesla_event_folder() {
    let facts = PathFacts { is_file: false, is_dir: true, holds_event_json: true };
    assert!(matches!(classify("/tmp/x/2026-07-09_08-15-30", facts), Ok(InspectTarget::TeslaEvent(_))));
}

#[test]
fn classifies_bare_event_json_by_its_parent_folder() {
    let facts = PathFacts { is_file: true, is_dir: false, holds_event_json: false };
    match classify("/tmp/x/2026-07-09_08-15-30/event.json", facts) {
        Ok(InspectTarget::TeslaEvent(dir)) => assert_eq!(dir, "/tmp/x/2026-07-09_08-15-30"),
        _ => panic!("expected a Tesla event folder"),
    }
}

#[test]
fn unsupported_input_is_an_error() {
    let facts = PathFacts { is_file: true, is_dir: false, holds_event_json: false };
    let err = match classify("/tmp/x/notes.txt", facts) {
        Err(e) => e,
        Ok(_) => panic!("expected an error"),
    };
    assert!(err.contains("unsupported input"));
    assert!(err.contains("/tmp/x/notes.txt"));
}

#[test]
fn tesla_dump_parses_event_json_and_lists_clips() {
    let names = vec!["b-front.mp4".to_string(), "event.json".to_string(), "a-back.mp4".to_string()];
    let dump = tesla_event_dump(
        "/tmp/ev",
        &event_json("user_interaction_honk"),
        &names,
        Some(("51.5012".to_string(), "-0.1246".to_string())),
    );
    assert_eq!(dump.timestamp.as_deref(), Some("2026-07-04T18:23:51"));
    assert_eq!(dump.reason.as_deref(), Some("user_interaction_honk"));
    assert_eq!(dump.city.as_deref(), Some("London"));
    assert_eq!(dump.clip_files, vec!["a-back.mp4", "b-front.mp4"]);
    let out = render_tesla_dump(&dump);
    assert_eq!(
        out,
        "Event: /tmp/ev\nTimestamp: 2026-07-04T18:23:51\nReason: user_interaction_honk\nCity: London\nCoordinates: 51.5012, -0.1246\nFiles:\n  a-back.mp4\n  b-front.mp4\n"
    );
}

#[test]
fn tesla_dump_tolerates_corrupt_event_json() {
    let dump = tesla_event_dump("/tmp/ev", "{not json", &vec![], None);
    assert!(dump.timestamp.is_none() && dump.reason.is_none() && dump.city.is_none());
    let out = render_tesla_dump(&dump);
    assert!(out.contains("Timestamp: (unknown)"));
    assert!(out.contains("Coordinates: (unknown)"));
}

#[test]
fn mp4_dump_reports_each_section_and_its_failures() {
    let markers = marker_dumps(&vec![1_000, 2_500], &Ok(UtcInstant { secs: 10, nanos: 0 }));
    assert_eq!(markers[1].timestamp, Some(UtcInstant { secs: 12, nanos: 500_000_000 }));
    let dump = Mp4Dump {
        path: "/c/GX010001.MP4".to_string(),
        creation_time: Ok(UtcInstant { secs: 10, nanos: 0 }),
        markers: Ok(markers),
        gps: Err("bad klv".to_string()),
    };
    assert!(dump.has_errors());
    let out = render_mp4_dump_stamped(&dump, "T0", &vec!["T1".to_string(), "T2".to_string()]);
    assert_eq!(
        out,
        "File: /c/GX010001.MP4\nCreation time: T0\nHiLight markers: 2\n  1000 ms -> T1\n  2500 ms -> T2\nGPS: FAILED (bad klv)\n"
    );
    let no_time = marker_dumps(&vec![7], &Err("no mvhd".to_string()));
    assert_eq!(no_time[0].timestamp, None);
    let dump = Mp4Dump {
        path: "/c/x.MP4".to_string(),
        creation_time: Err("no mvhd".to_string()),
        markers: Ok(vec![MarkerDump { offset_ms: 7, timestamp: None }]),
        gps: Ok(Some(GpsSummary { sample_count: 3, first_fix: None, clock_offset: None })),
    };
    let out = render_mp4_dump_stamped(&dump, "", &vec![String::new()]);
    assert_eq!(
        out,
        "File: /c/x.MP4\nCreation time: FAILED (no mvhd)\nHiLight markers: 1\n  7 ms\nGPS: 3 sample(s)\n  no usable fix found\n"
    );
}

#[test]
fn cleanup_entries_age_and_sort_by_name() {
    let now = UtcInstant { secs: 100, nanos: 0 };
    let cutoff = Some(UtcInstant { secs: 50, nanos: 0 });
    let young = cleanup_entry("b".to_string(), "/q/b".to_string(), true, UtcInstant { secs: 60, nanos: 0 }, 7, now, cutoff);
    let old = cleanup_entry("a".to_string(), "/q/a".to_string(), false, UtcInstant { secs: 40, nanos: 0 }, 9, now, cutoff);
    assert_eq!(young.age_seconds, 40);
    assert!(!young.purge);
    assert!(old.purge);
    let ordered: Vec<CleanupEntry> = order_entries(&vec![young, old]);
    let names: Vec<&str> = ordered.iter().map(|e| e.name.as_str()).collect();
    assert_eq!(names, vec!["a", "b"]);
}

#[test]
fn quick_match_needs_equal_size_and_a_tenth_of_a_second() {
    let at = UtcInstant { secs: 1_000, nanos: 0 };
    assert!(quick_match_hit(10, 10, UtcInstant { secs: 1_000, nanos: 100_000_000 }, at));
    assert!(!quick_match_hit(10, 10, UtcInstant { secs: 1_000, nanos: 100_000_001 }, at));
    assert!(!quick_match_hit(10, 11, at, at));
    assert!(!quick_match_hit(10, 10, UtcInstant { secs: 1_005, nanos: 50_000_000 }, at));
}

#[test]
fn progress_counts_only_transferring_actions() {
    let group = |size: u64| MediaGroup {
        name: "g".to_string(),
        files: vec![MediaFile { path: "/c/a".to_string(), size, recorded_at: None }],
        timestamp: UtcInstant { secs: 0, nanos: 0 },
        markers: vec![],
        context: vec![],
        sidecar: None,
    };
    let plan = ImportPlan {
        actions: vec![
            PlannedAction { group: group(1), verdict: Verdict::Keep, destination: Some("/d".to_string()), quarantine_path: None },
            PlannedAction { group: group(10), verdict: Verdict::Quarantine, destination: None, quarantine_path: None },
            PlannedAction { group: group(100), verdict: Verdict::Quarantine, destination: None, quarantine_path: Some("/q".to_string()) },
            PlannedAction { group: group(1000), verdict: Verdict::Ignore("x".to_string()), destination: None, quarantine_path: None },
        ],
    };
    assert_eq!(planned_bytes(&plan), 101);
    assert_eq!(progress_advance(&TransferOutcome::SkippedIdentical, 5), 5);
    assert_eq!(progress_advance(&TransferOutcome::Transferred, 5), 0);
}

#[test]
fn import_flags_fold_into_overrides() {
    let shared = OverrideFlags { gopro_require_marker: false, no_gopro_require_marker: true };
    let o = import_overrides(&shared, true, false, false, true, Some("q".to_string()), false, false, true, false);
    assert_eq!(o.gopro_require_marker, Some(false));
    assert_eq!(o.delete_source, Some(true));
    assert_eq!(o.reflink, Some(false));
    assert_eq!(o.quarantine.as_deref(), Some("q"));
    assert_eq!(o.copy_quarantine, None);
    assert_eq!(o.gps_lookup, Some(true));
}

#[test]
fn run_messages_name_drives_and_profiles() {
    assert_eq!(drive_header("CARD", "/media/CARD"), "== CARD (/media/CARD) ==");
    assert_eq!(no_sources_text("cam"), "no sources found for profile 'cam'");
    assert!(progress_enabled(true, false));
    assert!(!progress_enabled(true, true));
}

#[test]
fn marker_json_entries_carry_offsets_and_rendered_instants() {
    let ms = vec![
        MarkerDump { offset_ms: 1500, timestamp: Some(UtcInstant { secs: 1_704_164_646, nanos: 500_000_000 }) },
        MarkerDump { offset_ms: 20, timestamp: None },
    ];
    let j = marker_dumps_json(&ms, &jiff::tz::TimeZone::UTC);
    assert_eq!(j.len(), 2);
    assert_eq!(j[0].offset_ms, 1500);
    assert_eq!(j[0].timestamp.as_deref(), Some("2024-01-02T03:04:06+00:00"));
    assert_eq!(j[1].offset_ms, 20);
    assert_eq!(j[1].timestamp, None);
}

#[test]
fn event_json_coordinates_are_read_as_written() {
    let fields = parse_event_fields(&event_json("user_interaction_honk"));
    assert_eq!(fields.est_lat.as_deref(), Some("51.5012"));
    assert_eq!(fields.est_lon.as_deref(), Some("-0.1246"));
    let bare = parse_event_fields(r#"{"reason":"sentry_aware_object_detection"}"#);
    assert_eq!((bare.est_lat, bare.est_lon), (None, None));
}

#[test]
fn wall_clock_resolves_to_a_whole_second_near_its_utc_reading() {
    let wall = CivilTime { year: 2026, month: 7, day: 4, hour: 18, minute: 23, second: 51 };
    let t = resolve_instant(wall);
    let utc_reading: i64 = 1_783_189_431;
    assert_eq!(t.nanos, 0);
    assert!((t.secs - utc_reading).abs() <= 26 * 3600, "{} vs {}", t.secs, utc_reading);
}

#[test]
fn confirmed_purge_pairs_each_candidate_with_its_deletion() {
    let now = UtcInstant { secs: 1_000_000, nanos: 0 };
    let landed = UtcInstant { secs: 0, nanos: 0 };
    let a = cleanup_entry("a".to_string(), "/q/a".to_string(), true, landed, 10, now, None);
    let b = cleanup_entry("b".to_string(), "/q/b".to_string(), false, landed, 5, now, None);
    let candidates = vec![&a, &b];
    let report = cleanup_report_of(&candidates, Some(Confirmation::Confirmed), vec![None, Some("busy".to_string())]).unwrap();
    assert_eq!(report.results.len(), 2);
    assert!(report.results[0].deleted);
    assert_eq!(report.results[0].path, "/q/a");
    assert!(!report.results[1].deleted);
    assert_eq!(report.results[1].error.as_deref(), Some("busy"));
    assert_eq!(report.results[1].size, 5);
    assert_eq!(report.aborted_reason, None);

    let declined = cleanup_report_of(&candidates, Some(Confirmation::DeclinedInteractive), vec![]).unwrap();
    assert!(declined.results.is_empty());
    assert_eq!(declined.aborted_reason.as_deref(), Some("deletion declined; quarantine entries were not deleted"));
    assert!(matches!(
        cleanup_report_of(&candidates, Some(Confirmation::SkippedNonInteractive), vec![]),
        Err(Error::Config(m)) if m == "stdin is not a terminal; pass --yes to confirm non-interactively"
    ));
    let none: Vec<&CleanupEntry> = vec![];
    assert!(!purge_needs_confirmation(&none));
    assert!(purge_needs_confirmation(&candidates));
    let empty = cleanup_report_of(&none, None, vec![]).unwrap();
    assert!(empty.results.is_empty() && empty.aborted_reason.is_none());
}

#[test]
fn ignore_patterns_skip_matching_files_in_order() {
    let patterns = vec!["*.THM".to_string(), "*.LRV".to_string()];
    let paths = vec![
        "/card/DCIM/100GOPRO/GX010001.MP4".to_string(),
        "/card/DCIM/100GOPRO/GX010001.THM".to_string(),
        "/card/DCIM/100GOPRO/GL010001.LRV".to_string(),
        "/card/DCIM/100GOPRO/GX020001.MP4".to_string(),
    ];
    let kept = unignored(&patterns, &paths).unwrap();
    assert_eq!(kept, vec!["/card/DCIM/100GOPRO/GX010001.MP4".to_string(), "/card/DCIM/100GOPRO/GX020001.MP4".to_string()]);
    assert_eq!(unignored(&vec![], &paths).unwrap(), paths);
    assert!(matches!(unignored(&vec!["[".to_string()], &paths), Err(Error::Config(m)) if m.starts_with("ignore: ")));
}
