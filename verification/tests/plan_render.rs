use import_videos::clock::UtcInstant;
use import_videos::plan::{ImportPlan, Marker, MediaFile, MediaGroup, PlannedAction, ScanEntry, ScanSummary, Sidecar};
use import_videos::report::{plan_to_json, render_plan, render_scan_summary, scan_summary_to_json, Detail};
use import_videos::source::Verdict;

fn ts(secs: i64) -> UtcInstant {
    UtcInstant { secs, nanos: 0 }
}

fn parsed(text: &str) -> UtcInstant {
    let t: jiff::Timestamp = text.parse().unwrap();
    UtcInstant { secs: t.as_second(), nanos: 0 }
}

fn utc() -> jiff::tz::TimeZone {
    jiff::tz::TimeZone::UTC
}

fn group(name: &str, markers: Vec<Marker>) -> MediaGroup {
    MediaGroup {
        name: name.to_string(),
        files: vec![],
        timestamp: ts(0),
        markers,
        context: vec![],
        sidecar: None,
    }
}

fn plan_with_one_keep_one_quarantine(markers: Vec<Marker>) -> ImportPlan {
    ImportPlan {
        actions: vec![
            PlannedAction {
                group: group("kept", markers),
                verdict: Verdict::Keep,
                destination: Some("/dest/kept".to_string()),
                quarantine_path: None,
            },
            PlannedAction {
                group: group("unmarked", vec![]),
                verdict: Verdict::Quarantine,
                destination: None,
                quarantine_path: Some("/quarantine/unmarked".to_string()),
            },
        ],
    }
}

#[test]
fn non_verbose_hides_quarantine_and_markers_but_shows_summary() {
    let markers = vec![Marker { timestamp: ts(1_000), label: None }];
    let plan = plan_with_one_keep_one_quarantine(markers);

    let out = render_plan(&plan, Detail::Normal, &utc());

    assert!(out.contains("[KEEP] kept"));
    assert!(!out.contains("QUARANTINE"));
    assert!(!out.contains("marker at"));
    assert!(!out.contains("recorded at:"));
    assert!(
        out.contains("Quarantine: 1 group, 0 B -> /quarantine  (-v to list)"),
        "quarantine collapses to one rollup line naming the shared root: {out}"
    );
    assert!(out.contains(
        "Summary: 1 kept (0 files, 0 B), 1 quarantined (0 files, 0 B), 0 ignored (0 files, 0 B) (2 total)"
    ));
}

#[test]
fn non_verbose_quarantine_rollup_shows_disabled_note_without_a_path() {
    let plan = ImportPlan {
        actions: vec![PlannedAction {
            group: group("unmarked", vec![]),
            verdict: Verdict::Quarantine,
            destination: None,
            quarantine_path: None,
        }],
    };

    let out = render_plan(&plan, Detail::Normal, &utc());

    assert!(!out.contains("[QUARANTINE]"), "individual entry suppressed by default");
    assert!(out.contains("Quarantine: 1 group, 0 B (quarantine copy disabled)  (-v to list)"));
}

#[test]
fn verbose_shows_quarantine_and_marker_details() {
    let markers = vec![Marker { timestamp: ts(1_000), label: None }];
    let plan = plan_with_one_keep_one_quarantine(markers);

    let out = render_plan(&plan, Detail::Verbose, &utc());

    assert!(out.contains("[KEEP] kept"));
    assert!(out.contains("[QUARANTINE] unmarked"));
    assert!(out.contains("marker at 1970-01-01T00:16:40+00:00"));
    assert!(
        out.contains("recorded at: 1970-01-01T00:00:00+00:00"),
        "verbose mode should show the group's recorded time"
    );
    assert!(!out.contains("Quarantine:"), "verbose mode lists quarantine entries individually, no rollup line");
    assert!(out.contains(
        "Summary: 1 kept (0 files, 0 B), 1 quarantined (0 files, 0 B), 0 ignored (0 files, 0 B) (2 total)"
    ));
}

#[test]
fn recorded_at_has_no_source_annotation_without_a_sidecar() {
    let plan = plan_with_one_keep_one_quarantine(vec![]);
    let out = render_plan(&plan, Detail::Verbose, &utc());
    assert!(!out.contains("(source:"));
}

#[test]
fn recorded_at_shows_time_source_from_sidecar() {
    let mut kept = group("kept", vec![]);
    kept.sidecar = Some(Sidecar {
        filename: "import.json".to_string(),
        content: "{\"time_source\":\"gps\"}".to_string(),
        time_source: Some("gps".to_string()),
    });
    let plan = ImportPlan {
        actions: vec![PlannedAction {
            group: kept,
            verdict: Verdict::Keep,
            destination: Some("/dest/kept".to_string()),
            quarantine_path: None,
        }],
    };

    let out = render_plan(&plan, Detail::Verbose, &utc());

    assert!(out.contains("recorded at: 1970-01-01T00:00:00+00:00 (source: gps)"));
}

#[test]
fn verbose_quarantine_with_disabled_copy_shows_note_not_path() {
    let plan = ImportPlan {
        actions: vec![PlannedAction {
            group: group("unmarked", vec![]),
            verdict: Verdict::Quarantine,
            destination: None,
            quarantine_path: None,
        }],
    };

    let out_verbose = render_plan(&plan, Detail::Verbose, &utc());
    assert!(out_verbose.contains("[QUARANTINE] unmarked"), "verbose must show the quarantine entry");
    assert!(out_verbose.contains("quarantine copy disabled"), "verbose must show disabled note");
    assert!(!out_verbose.contains("->"), "must not show a path when copy is disabled");
    assert!(out_verbose.contains(
        "Summary: 0 kept (0 files, 0 B), 1 quarantined (0 files, 0 B), 0 ignored (0 files, 0 B) (1 total)"
    ));
}

#[test]
fn plan_json_includes_quarantine_entries_unlike_human_render() {
    let plan = plan_with_one_keep_one_quarantine(vec![]);
    let json = plan_to_json(&plan, &utc());

    assert_eq!(json.actions.len(), 2);
    assert_eq!(json.summary.kept, 1);
    assert_eq!(json.summary.quarantined, 1);
    assert_eq!(json.summary.ignored, 0);
    assert_eq!(json.summary.total, 2);

    let quarantine_action = json.actions.iter().find(|a| a.verdict == "quarantine").unwrap();
    assert_eq!(quarantine_action.group, "unmarked");
    assert_eq!(quarantine_action.path.as_deref(), Some("/quarantine/unmarked"));
    assert!(!quarantine_action.quarantine_copy_disabled);
}

#[test]
fn plan_json_marks_disabled_quarantine_copy() {
    let plan = ImportPlan {
        actions: vec![PlannedAction {
            group: group("unmarked", vec![]),
            verdict: Verdict::Quarantine,
            destination: None,
            quarantine_path: None,
        }],
    };
    let json = plan_to_json(&plan, &utc());
    assert!(json.actions[0].quarantine_copy_disabled);
    assert_eq!(json.actions[0].path, None);
}

#[test]
fn plan_json_recorded_at_is_rfc3339() {
    let plan = plan_with_one_keep_one_quarantine(vec![]);
    let json = plan_to_json(&plan, &utc());
    let kept = json.actions.iter().find(|a| a.verdict == "keep").unwrap();
    assert_eq!(kept.recorded_at, "1970-01-01T00:00:00+00:00");
}

fn media_file(path: &str, size: u64) -> MediaFile {
    MediaFile { path: path.to_string(), size, recorded_at: None }
}

#[test]
fn keep_entry_shows_short_time_file_count_and_size_no_boilerplate_reason() {
    let mut kept = group("kept", vec![]);
    kept.timestamp = parsed("2026-07-09T07:41:03Z");
    kept.files = vec![media_file("/card/a.mp4", 1024), media_file("/card/b.mp4", 1024)];
    let plan = ImportPlan {
        actions: vec![PlannedAction {
            group: kept,
            verdict: Verdict::Keep,
            destination: Some("/dest/kept".to_string()),
            quarantine_path: None,
        }],
    };

    let out = render_plan(&plan, Detail::Normal, &utc());

    assert!(out.contains("[KEEP] kept  2026-07-09 07:41  2 files, 2.0 KiB -> /dest/kept"), "got: {out}");
    assert!(!out.contains("matches profile criteria"), "fixed boilerplate reason text must be gone");
}

fn unrecognized_plan(n: usize) -> ImportPlan {
    let files: Vec<MediaFile> = (0..n).map(|i| media_file(&format!("/card/stray{i:02}.dat"), 10)).collect();
    let group = MediaGroup {
        name: "unrecognized".to_string(),
        files,
        timestamp: ts(0),
        markers: vec![],
        context: vec![],
        sidecar: None,
    };
    ImportPlan {
        actions: vec![PlannedAction {
            group,
            verdict: Verdict::Ignore("unrecognized file(s)".to_string()),
            destination: None,
            quarantine_path: None,
        }],
    }
}

#[test]
fn unrecognized_files_capped_at_five_by_default() {
    let plan = unrecognized_plan(8);
    let out = render_plan(&plan, Detail::Normal, &utc());

    assert!(out.contains("[IGNORE] unrecognized — unrecognized file(s) (8 files)"));
    for i in 0..5 {
        assert!(out.contains(&format!("stray{i:02}.dat")), "{out}");
    }
    for i in 5..8 {
        assert!(!out.contains(&format!("stray{i:02}.dat")), "{out}");
    }
    assert!(out.contains("… and 3 more (-v to list all)"));
}

#[test]
fn unrecognized_files_all_listed_with_verbose() {
    let plan = unrecognized_plan(8);
    let out = render_plan(&plan, Detail::Verbose, &utc());

    for i in 0..8 {
        assert!(out.contains(&format!("stray{i:02}.dat")), "{out}");
    }
    assert!(!out.contains("more (-v to list all)"));
}

#[test]
fn unrecognized_files_at_cap_render_identically_default_and_verbose() {
    let plan = unrecognized_plan(5);
    let default_out = render_plan(&plan, Detail::Normal, &utc());
    let verbose_out = render_plan(&plan, Detail::Verbose, &utc());

    assert!(!default_out.contains("more (-v to list all)"));
    for i in 0..5 {
        assert!(default_out.contains(&format!("stray{i:02}.dat")));
    }
    let verbose_files: String = verbose_out
        .lines()
        .filter(|l| !l.trim_start().starts_with("recorded at:"))
        .collect::<Vec<_>>()
        .join("\n");
    assert_eq!(default_out.trim_end(), verbose_files.trim_end());
}

#[test]
fn plan_json_files_array_is_never_truncated() {
    let plan = unrecognized_plan(8);
    let json = plan_to_json(&plan, &utc());

    assert_eq!(json.actions.len(), 1);
    assert_eq!(json.actions[0].files.len(), 8, "JSON must name every file even though the human render caps at 5");
}

fn scan_entry(name: &str, verdict: Verdict, file_count: usize, total_size: u64) -> ScanEntry {
    ScanEntry {
        name: name.to_string(),
        verdict,
        file_count,
        total_size,
        recorded_at: parsed("2026-07-09T07:41:03Z"),
        files: vec![],
    }
}

#[test]
fn scan_summary_shows_time_file_count_and_size_no_destination_path() {
    let summary = ScanSummary { entries: vec![scan_entry("session-0123", Verdict::Keep, 2, 2048)] };

    let out = render_scan_summary(&summary, Detail::Normal, &utc());

    assert!(out.contains("[KEEP] session-0123  2026-07-09 07:41  2 files, 2.0 KiB"), "got: {out}");
    assert!(!out.contains("->"), "scan must never show a destination path: {out}");
}

#[test]
fn scan_quarantine_rollup_shows_count_and_size_no_quarantine_path() {
    let summary = ScanSummary {
        entries: vec![
            scan_entry("session-a", Verdict::Quarantine, 1, 1024),
            scan_entry("session-b", Verdict::Quarantine, 1, 1024),
        ],
    };

    let out = render_scan_summary(&summary, Detail::Normal, &utc());

    assert!(!out.contains("[QUARANTINE]"), "individual entries stay collapsed by default: {out}");
    assert!(out.contains("Quarantine: 2 groups, 2.0 KiB  (-v to list)"), "got: {out}");
    assert!(!out.contains("->"), "scan must never show a quarantine path: {out}");
}

#[test]
fn scan_unrecognized_files_capped_at_five_by_default() {
    let files: Vec<String> = (0..8).map(|i| format!("/card/stray{i:02}.dat")).collect();
    let summary = ScanSummary {
        entries: vec![ScanEntry {
            name: "unrecognized".to_string(),
            verdict: Verdict::Ignore("unrecognized file(s)".to_string()),
            file_count: 8,
            total_size: 80,
            recorded_at: ts(0),
            files,
        }],
    };

    let default_out = render_scan_summary(&summary, Detail::Normal, &utc());
    assert!(default_out.contains("[IGNORE] unrecognized — unrecognized file(s) (8 files)"));
    for i in 0..5 {
        assert!(default_out.contains(&format!("stray{i:02}.dat")), "{default_out}");
    }
    for i in 5..8 {
        assert!(!default_out.contains(&format!("stray{i:02}.dat")), "{default_out}");
    }
    assert!(default_out.contains("… and 3 more (-v to list all)"));

    let verbose_out = render_scan_summary(&summary, Detail::Verbose, &utc());
    for i in 0..8 {
        assert!(verbose_out.contains(&format!("stray{i:02}.dat")), "{verbose_out}");
    }
    assert!(!verbose_out.contains("more (-v to list all)"));
}

#[test]
fn scan_summary_json_has_no_path_field_anywhere() {
    let summary = ScanSummary {
        entries: vec![
            scan_entry("session-a", Verdict::Keep, 1, 1024),
            scan_entry("session-b", Verdict::Quarantine, 1, 1024),
        ],
    };

    let json = scan_summary_to_json(&summary, &utc());
    let dumped = format!("{json:?}");
    assert!(!dumped.contains("path"), "scan JSON must never carry a path field: {dumped}");
    assert_eq!(json.summary.kept, 1);
    assert_eq!(json.summary.quarantined, 1);
    assert_eq!(json.summary.total, 2);
}

#[test]
fn scan_summary_json_files_array_is_never_truncated() {
    let files: Vec<String> = (0..8).map(|i| format!("/card/stray{i:02}.dat")).collect();
    let summary = ScanSummary {
        entries: vec![ScanEntry {
            name: "unrecognized".to_string(),
            verdict: Verdict::Ignore("unrecognized file(s)".to_string()),
            file_count: 8,
            total_size: 80,
            recorded_at: ts(0),
            files,
        }],
    };

    let json = scan_summary_to_json(&summary, &utc());
    assert_eq!(json.entries[0].files.len(), 8, "JSON must name every file even though the human render caps at 5");
}

#[test]
fn quarantine_rollup_names_the_first_quarantine_root() {
    let mut plan = plan_with_one_keep_one_quarantine(vec![]);
    plan.actions.push(PlannedAction {
        group: group("second", vec![]),
        verdict: Verdict::Quarantine,
        destination: None,
        quarantine_path: Some("/other/second".to_string()),
    });
    let out = render_plan(&plan, Detail::Normal, &utc());
    assert!(out.contains("Quarantine: 2 groups, 0 B -> /quarantine  (-v to list)"), "{out}");
}

#[test]
fn empty_plan_says_nothing_to_import() {
    let plan = ImportPlan { actions: vec![] };
    assert_eq!(render_plan(&plan, Detail::Verbose, &utc()), "No media found; nothing to import.\n");
    let summary = ScanSummary { entries: vec![] };
    assert_eq!(render_scan_summary(&summary, Detail::Normal, &utc()), "No media found; nothing to import.\n");
}

#[test]
fn summary_detail_lists_no_entries() {
    let plan = plan_with_one_keep_one_quarantine(vec![]);
    let out = render_plan(&plan, Detail::Summary, &utc());
    assert_eq!(
        out,
        "Summary: 1 kept (0 files, 0 B), 1 quarantined (0 files, 0 B), 0 ignored (0 files, 0 B) (2 total)\n"
    );
}

#[test]
fn plan_json_joins_the_sidecar_onto_the_group_path() {
    let mut kept = group("kept", vec![]);
    kept.sidecar = Some(Sidecar { filename: "import.json".to_string(), content: "{}".to_string(), time_source: None });
    let plan = ImportPlan {
        actions: vec![PlannedAction {
            group: kept,
            verdict: Verdict::Keep,
            destination: Some("/dest/kept".to_string()),
            quarantine_path: None,
        }],
    };
    let json = plan_to_json(&plan, &utc());
    assert_eq!(json.actions[0].sidecar_path.as_deref(), Some("/dest/kept/import.json"));
    assert_eq!(json.actions[0].reason, "matches profile criteria");
}
