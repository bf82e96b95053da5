use import_videos::report::{
    format_age_days, format_size, plural, render_results, results_to_json, Detail,
};
use import_videos::source::Verdict;
use import_videos::transfer::{ExecuteReport, FileResult, GroupResult, TransferOutcome};

fn file_result(src: &str, outcome: TransferOutcome) -> FileResult {
    FileResult { src: src.to_string(), outcome }
}

fn group_result(name: &str, files: Vec<FileResult>, deleted_from_source: bool, destination: Option<&str>) -> GroupResult {
    GroupResult {
        group_name: name.to_string(),
        verdict: Verdict::Keep,
        files,
        sidecar_outcome: None,
        deleted_from_source,
        destination: destination.map(str::to_string),
    }
}

#[test]
fn results_render_left_on_source_outcome() {
    let report = ExecuteReport {
        groups: vec![group_result(
            "unmarked",
            vec![file_result("/card/clip.mp4", TransferOutcome::SkippedQuarantineDisabled)],
            false,
            None,
        )],
        deletion_skipped_reason: None,
        delete_source: false,
    };
    let out = render_results(&report, Detail::Normal);
    assert!(out.contains("left on source (quarantine copy disabled): /card/clip.mp4"));
}

#[test]
fn clean_run_renders_only_the_summary_line() {
    let report = ExecuteReport {
        groups: vec![
            group_result("a", vec![file_result("/card/a.mp4", TransferOutcome::Transferred)], true, Some("/dest/a")),
            group_result("b", vec![file_result("/card/b.mp4", TransferOutcome::SkippedIdentical)], true, Some("/dest/b")),
        ],
        deletion_skipped_reason: None,
        delete_source: true,
    };
    let out = render_results(&report, Detail::Normal);
    assert_eq!(
        out.trim_end(),
        "Summary: 1 transferred, 0 reflinked, 1 skipped (already imported), 0 quick-matched, 0 FAILED, 2 groups deleted from source"
    );
}

#[test]
fn failure_is_visible_without_verbosity_and_names_why_its_group_stayed() {
    let report = ExecuteReport {
        groups: vec![
            group_result("ok", vec![file_result("/card/ok.mp4", TransferOutcome::Transferred)], true, Some("/dest/ok")),
            group_result(
                "broken",
                vec![file_result("/card/broken.mp4", TransferOutcome::Failed("hash mismatch".to_string()))],
                false,
                Some("/dest/broken"),
            ),
        ],
        deletion_skipped_reason: None,
        delete_source: true,
    };
    let out = render_results(&report, Detail::Normal);
    assert!(out.contains("FAILED: /card/broken.mp4 (hash mismatch)"));
    assert!(out.contains("broken: not deleted from source (broken.mp4 failed to transfer)"), "got: {out}");
    assert!(!out.contains("ok: not deleted"), "a successfully deleted group must not get a not-deleted line");
    assert!(out.contains("1 transferred"));
    assert!(out.contains("1 FAILED"));
    assert!(out.contains("1 group deleted from source"));
}

#[test]
fn no_undeleted_line_when_deletion_was_never_requested() {
    let report = ExecuteReport {
        groups: vec![group_result(
            "a",
            vec![file_result("/card/a.mp4", TransferOutcome::Failed("disk full".to_string()))],
            false,
            Some("/dest/a"),
        )],
        deletion_skipped_reason: None,
        delete_source: false,
    };
    let out = render_results(&report, Detail::Normal);
    assert!(out.contains("FAILED: /card/a.mp4"));
    assert!(
        !out.contains("not deleted from source"),
        "delete_source was never requested, so no group should claim it wasn't deleted"
    );
    assert!(!out.contains("deleted from source"));
}

#[test]
fn verbose_groups_files_under_a_destination_header() {
    let report = ExecuteReport {
        groups: vec![group_result(
            "session-a",
            vec![
                file_result("/card/clip1.mp4", TransferOutcome::Transferred),
                file_result("/card/clip2.mp4", TransferOutcome::SkippedIdentical),
            ],
            true,
            Some("/dest/2026/2026-07-09"),
        )],
        deletion_skipped_reason: None,
        delete_source: true,
    };
    let out = render_results(&report, Detail::Verbose);
    let lines: Vec<&str> = out.lines().collect();
    assert_eq!(lines[0], "session-a -> /dest/2026/2026-07-09");
    assert_eq!(lines[1], "  transferred: clip1.mp4");
    assert_eq!(lines[2], "  skipped (already imported): clip2.mp4");
    assert_eq!(lines[3], "  deleted from source");
    assert!(out.contains("Summary: 1 transferred, 0 reflinked, 1 skipped"));
}

#[test]
fn reflinked_files_counted_distinctly_and_not_listed_by_default() {
    let report = ExecuteReport {
        groups: vec![group_result(
            "a",
            vec![
                file_result("/card/a1.mp4", TransferOutcome::Transferred),
                file_result("/card/a2.mp4", TransferOutcome::Reflinked),
            ],
            false,
            Some("/dest/a"),
        )],
        deletion_skipped_reason: None,
        delete_source: false,
    };
    let out = render_results(&report, Detail::Normal);
    assert_eq!(
        out.trim_end(),
        "Summary: 1 transferred, 1 reflinked, 0 skipped (already imported), 0 quick-matched, 0 FAILED"
    );
    let json = results_to_json(&report);
    assert_eq!(json.summary.transferred, 1);
    assert_eq!(json.summary.reflinked, 1);
}

#[test]
fn reflinked_file_renders_instant_line_with_verbose() {
    let report = ExecuteReport {
        groups: vec![group_result("a", vec![file_result("/card/a1.mp4", TransferOutcome::Reflinked)], true, Some("/dest/a"))],
        deletion_skipped_reason: None,
        delete_source: true,
    };
    let out = render_results(&report, Detail::Verbose);
    assert!(out.contains("reflinked (instant): a1.mp4"));
}

#[test]
fn reflinked_outcome_json_status_is_reflinked() {
    let report = ExecuteReport {
        groups: vec![group_result("a", vec![file_result("/card/a1.mp4", TransferOutcome::Reflinked)], true, Some("/dest/a"))],
        deletion_skipped_reason: None,
        delete_source: true,
    };
    let json = results_to_json(&report);
    assert_eq!(json.groups[0].files[0].outcome, "reflinked");
}

#[test]
fn human_summary_counts_equal_json_summary_counts() {
    let report = ExecuteReport {
        groups: vec![
            group_result(
                "a",
                vec![
                    file_result("/card/a1.mp4", TransferOutcome::Transferred),
                    file_result("/card/a2.mp4", TransferOutcome::SkippedIdentical),
                ],
                true,
                Some("/dest/a"),
            ),
            group_result(
                "b",
                vec![
                    file_result("/card/b1.mp4", TransferOutcome::SkippedQuickMatch),
                    file_result("/card/b2.mp4", TransferOutcome::Suffixed("/dest/b/b2-1.mp4".to_string())),
                    file_result("/card/b3.mp4", TransferOutcome::Failed("nope".to_string())),
                ],
                false,
                Some("/dest/b"),
            ),
        ],
        deletion_skipped_reason: None,
        delete_source: true,
    };
    let human = render_results(&report, Detail::Normal);
    let json = results_to_json(&report);
    assert!(human.contains(&format!("{} transferred", json.summary.transferred)));
    assert!(human.contains(&format!("{} skipped (already imported)", json.summary.skipped_identical)));
    assert!(human.contains(&format!("{} quick-matched", json.summary.skipped_quick_match)));
    assert!(human.contains(&format!("{} FAILED", json.summary.failed)));
    assert!(human.contains(&format!("{} deleted from source", plural(json.summary.deleted_groups, "group"))));
}

#[test]
fn results_json_reports_outcomes_and_summary() {
    let report = ExecuteReport {
        groups: vec![
            GroupResult {
                group_name: "kept".to_string(),
                verdict: Verdict::Keep,
                files: vec![FileResult { src: "/card/clip.mp4".to_string(), outcome: TransferOutcome::Transferred }],
                sidecar_outcome: Some(TransferOutcome::Transferred),
                deleted_from_source: true,
                destination: Some("/dest/kept".to_string()),
            },
            GroupResult {
                group_name: "broken".to_string(),
                verdict: Verdict::Keep,
                files: vec![FileResult {
                    src: "/card/bad.mp4".to_string(),
                    outcome: TransferOutcome::Failed("disk full".to_string()),
                }],
                sidecar_outcome: None,
                deleted_from_source: false,
                destination: Some("/dest/broken".to_string()),
            },
        ],
        deletion_skipped_reason: None,
        delete_source: true,
    };
    let json = results_to_json(&report);
    assert_eq!(json.summary.transferred, 1);
    assert_eq!(json.summary.failed, 1);
    assert_eq!(json.summary.deleted_groups, 1);
    assert_eq!(json.groups[0].files[0].outcome, "transferred");
    assert_eq!(json.groups[1].files[0].outcome, "failed");
    assert_eq!(json.groups[1].files[0].error.as_deref(), Some("disk full"));
    assert_eq!(json.groups[0].sidecar_outcome.as_deref(), Some("transferred"));
}

#[test]
fn summary_detail_folds_renames_and_left_on_source_into_the_line() {
    let report = ExecuteReport {
        groups: vec![group_result(
            "b",
            vec![
                file_result("/card/b2.mp4", TransferOutcome::Suffixed("/dest/b/b2-1.mp4".to_string())),
                file_result("/card/b3.mp4", TransferOutcome::SkippedQuarantineDisabled),
            ],
            false,
            Some("/dest/b"),
        )],
        deletion_skipped_reason: Some("deletion declined; source files were not deleted".to_string()),
        delete_source: true,
    };
    let out = render_results(&report, Detail::Summary);
    assert_eq!(
        out,
        "deletion declined; source files were not deleted\nSummary: 0 transferred, 0 reflinked, 0 skipped (already imported), 0 quick-matched, 0 FAILED, 0 groups deleted from source, 1 renamed (collision), 1 left on source (quarantine copying disabled)\n"
    );
    let normal = render_results(&report, Detail::Normal);
    assert!(normal.contains("stored as /dest/b/b2-1.mp4 (destination name collision): /card/b2.mp4"));
}

#[test]
fn sizes_and_ages_render_with_one_decimal() {
    assert_eq!(format_size(512), "512 B");
    assert_eq!(format_size(2048), "2.0 KiB");
    assert_eq!(format_size(1280), "1.2 KiB");
    assert_eq!(format_size(1331), "1.3 KiB");
    assert_eq!(format_size(5 * 1024 * 1024), "5.0 MiB");
    assert_eq!(format_size(3 * 1024 * 1024 * 1024 / 2), "1.5 GiB");
    assert_eq!(format_age_days(3 * 86_400), "3.0d");
    assert_eq!(format_age_days(129_600), "1.5d");
    assert_eq!(format_age_days(-1), "-0.0d");
    assert_eq!(plural(1, "file"), "1 file");
    assert_eq!(plural(0, "file"), "0 files");
}

#[test]
fn age_text_rounds_the_float_quotient_as_one_decimal_formatting_does() {
    assert_eq!(format_age_days(4320), "0.1d");
    assert_eq!(format_age_days(12_960), "0.1d");
    assert_eq!(format_age_days(21_600), "0.2d");
    assert_eq!(format_age_days(-4320), "-0.1d");
    let mut ages: Vec<i64> = vec![0, 1, -1, 86_399, 86_400, i64::MAX, i64::MIN, i64::MIN + 1, 1 << 53, (1 << 53) + 1];
    for k in 0..2000i64 {
        ages.push(4320 * (2 * k + 1));
        ages.push(-4320 * (2 * k + 1));
        ages.push(4320 * (2 * k + 1) + 1);
        ages.push(4320 * (2 * k + 1) - 1);
        ages.push(k * 7919 * 104_729);
        ages.push(i64::MAX - k * 999_983);
        ages.push(i64::MIN + k * 999_983);
        ages.push((1i64 << 40) * (2 * k + 1) + 4320 * k);
    }
    for a in ages {
        assert_eq!(format_age_days(a), format!("{:.1}d", a as f64 / 86_400.0), "age {a}");
    }
}

#[test]
fn size_text_rounds_as_one_decimal_formatting_does() {
    let mut sizes: Vec<u64> = vec![0, 1023, 1024, u64::MAX, u64::MAX - 1, 1 << 53, (1 << 53) + 1, 1 << 63];
    for k in 0..2000u64 {
        sizes.push(k * 104_729);
        sizes.push((1 << 30) / 20 * (2 * k + 1));
        sizes.push((1 << 20) / 20 * (2 * k + 1) + k);
        sizes.push(u64::MAX - k * 1_000_003);
        sizes.push((1u64 << 54) + (1 << 27) * (2 * k + 1));
        sizes.push((1u64 << 60) + k * 2047);
    }
    for b in sizes {
        let expected = if b >= 1 << 30 {
            format!("{:.1} GiB", b as f64 / (1u64 << 30) as f64)
        } else if b >= 1 << 20 {
            format!("{:.1} MiB", b as f64 / (1u64 << 20) as f64)
        } else if b >= 1 << 10 {
            format!("{:.1} KiB", b as f64 / (1u64 << 10) as f64)
        } else {
            format!("{b} B")
        };
        assert_eq!(format_size(b), expected, "size {b}");
    }
}
