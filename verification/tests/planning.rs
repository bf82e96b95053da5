use std::path::{Path, PathBuf};

use import_videos::cli::Overrides;
use import_videos::clock::UtcInstant;
use import_videos::config::layout::LayoutTemplate;
use import_videos::config::{apply_overrides, Profile, SourceKind, SourceLocation};
use import_videos::error::Error;
use import_videos::plan::{build_plan, build_scan_summary, MediaFile, MediaGroup, PlannedAction, ScanEntry, ScanSummary, Sidecar};
use import_videos::report::{scan_drive_json, MultiScanJson};
use import_videos::source::{unrecognized_group, Verdict};
use import_videos::transfer::{action_files, group_result, TransferOutcome};
use import_videos::ScanDriveOutcome;

fn ts(secs: i64) -> UtcInstant {
    UtcInstant { secs, nanos: 0 }
}

fn profile_with_copy_quarantine(dest: &str, copy_quarantine: bool) -> Profile {
    Profile {
        kind: SourceKind::Generic,
        source: SourceLocation::Auto,
        destination: dest.to_string(),
        layout: LayoutTemplate::parse("{date:%Y}/{date:%Y-%m-%d}").unwrap(),
        ignore: vec![],
        quarantine: None,
        delete_source: false,
        copy_quarantine,
        reflink: true,
    }
}

fn generic_profile(reflink: bool) -> Profile {
    Profile {
        kind: SourceKind::Generic,
        source: SourceLocation::Auto,
        destination: "/dest".to_string(),
        layout: LayoutTemplate::parse("{date}").unwrap(),
        ignore: vec![],
        quarantine: None,
        delete_source: false,
        copy_quarantine: true,
        reflink,
    }
}

fn quarantine_group() -> MediaGroup {
    MediaGroup {
        name: "unmarked".to_string(),
        files: vec![MediaFile { path: "/src/unmarked/clip.mp4".to_string(), size: 10, recorded_at: None }],
        timestamp: ts(0),
        markers: vec![],
        context: vec![],
        sidecar: None,
    }
}

fn empty_group(name: &str) -> MediaGroup {
    MediaGroup { name: name.to_string(), files: vec![], timestamp: ts(0), markers: vec![], context: vec![], sidecar: None }
}

#[test]
fn reflink_override_forces_cloning_off() {
    let overrides = Overrides { reflink: Some(false), ..Default::default() };
    let resolved = apply_overrides(generic_profile(true), &overrides, "cam").unwrap();
    assert!(!resolved.reflink);
}

#[test]
fn reflink_override_forces_cloning_on() {
    let overrides = Overrides { reflink: Some(true), ..Default::default() };
    let resolved = apply_overrides(generic_profile(false), &overrides, "cam").unwrap();
    assert!(resolved.reflink);
}

#[test]
fn unset_reflink_override_keeps_the_profile_value() {
    let resolved = apply_overrides(generic_profile(true), &Overrides::default(), "cam").unwrap();
    assert!(resolved.reflink);
}

#[test]
fn quarantine_group_resolves_path_when_copy_quarantine_enabled() {
    let prof = profile_with_copy_quarantine("/dest", true);
    let plan = build_plan(&prof, vec![(quarantine_group(), Verdict::Quarantine)], &jiff::tz::TimeZone::UTC).unwrap();
    let action = &plan.actions[0];
    assert!(action.quarantine_path.is_some(), "copy_quarantine: true should resolve a quarantine path");
    assert_eq!(action.quarantine_path.as_deref(), Some("/dest/_quarantine/unmarked"));
}

#[test]
fn quarantine_group_has_no_path_when_copy_quarantine_disabled() {
    let prof = profile_with_copy_quarantine("/dest", false);
    let plan = build_plan(&prof, vec![(quarantine_group(), Verdict::Quarantine)], &jiff::tz::TimeZone::UTC).unwrap();
    let action = &plan.actions[0];
    assert_eq!(action.quarantine_path, None, "copy_quarantine: false must resolve quarantine_path to None");
    assert_eq!(action.verdict, Verdict::Quarantine, "verdict must still be Quarantine");
}

#[test]
fn zero_file_group_excluded_from_build_plan() {
    let prof = profile_with_copy_quarantine("/dest", true);
    let groups = vec![(empty_group("leftover"), Verdict::Keep), (quarantine_group(), Verdict::Quarantine)];
    let plan = build_plan(&prof, groups, &jiff::tz::TimeZone::UTC).unwrap();
    assert_eq!(plan.actions.len(), 1, "the zero-file group must be dropped");
    assert_eq!(plan.actions[0].group.name, "unmarked");
}

#[test]
fn zero_file_group_excluded_from_build_scan_summary() {
    let groups = vec![(empty_group("leftover"), Verdict::Keep), (quarantine_group(), Verdict::Quarantine)];
    let summary = build_scan_summary(groups);
    assert_eq!(summary.entries.len(), 1, "the zero-file group must be dropped");
    assert_eq!(summary.entries[0].name, "unmarked");
}

#[test]
fn build_scan_summary_never_populates_a_destination_or_quarantine_path() {
    let summary = build_scan_summary(vec![(quarantine_group(), Verdict::Quarantine)]);
    let entry = &summary.entries[0];
    assert_eq!(entry.verdict, Verdict::Quarantine);
    assert_eq!(entry.file_count, 1);
    assert_eq!(entry.total_size, 10);
    assert_eq!(entry.files, vec!["/src/unmarked/clip.mp4".to_string()]);
}

#[test]
fn keep_group_lands_under_its_rendered_layout() {
    let prof = profile_with_copy_quarantine("/dest", true);
    let mut group = quarantine_group();
    group.name = "session".to_string();
    group.timestamp = ts(1_704_164_645);
    let plan = build_plan(&prof, vec![(group, Verdict::Keep)], &jiff::tz::TimeZone::UTC).unwrap();
    assert_eq!(plan.actions[0].destination.as_deref(), Some("/dest/2024/2024-01-02"));
    assert_eq!(plan.actions[0].quarantine_path, None);
}

#[test]
fn keep_group_missing_a_layout_field_fails_naming_it() {
    let mut prof = profile_with_copy_quarantine("/dest", true);
    prof.layout = LayoutTemplate::parse("{date:%Y}/{event_type}").unwrap();
    let err = build_plan(&prof, vec![(quarantine_group(), Verdict::Keep)], &jiff::tz::TimeZone::UTC).unwrap_err();
    assert!(matches!(&err, Error::Template(m) if m.contains("event_type")), "{err:?}");
}

// --- plan building touches nothing on disk ---

fn scratch(name: &str) -> PathBuf {
    Path::new("/nonexistent/import_videos").join(name)
}

fn media_file(path: &Path) -> MediaFile {
    MediaFile { path: path.display().to_string(), size: 7, recorded_at: None }
}

fn group(name: &str, files: Vec<MediaFile>) -> MediaGroup {
    MediaGroup { name: name.to_string(), files, timestamp: ts(0), markers: vec![], context: vec![], sidecar: None }
}

fn tree_snapshot(root: &Path) -> Vec<PathBuf> {
    if root.exists() {
        vec![root.to_path_buf()]
    } else {
        vec![]
    }
}

#[test]
fn dry_run_plan_building_performs_no_filesystem_changes() {
    let dir = scratch("dry_run_plan");
    let src = dir.join("source/clip.mp4");
    let dest = dir.join("dest");

    let source_before = tree_snapshot(&dir.join("source"));

    let prof = profile_with_copy_quarantine(&dest.display().to_string(), true);
    let import_plan =
        build_plan(&prof, vec![(group("session", vec![media_file(&src)]), Verdict::Keep)], &jiff::tz::TimeZone::UTC)
            .unwrap();

    assert_eq!(import_plan.actions.len(), 1);
    assert_eq!(tree_snapshot(&dir.join("source")), source_before);
    assert!(!dest.exists(), "building a plan must not create the destination");
}

#[test]
fn scan_summary_building_performs_no_filesystem_changes() {
    let dir = scratch("scan_summary");
    let src = dir.join("source/clip.mp4");
    let dest = dir.join("dest");

    let source_before = tree_snapshot(&dir.join("source"));

    let summary = build_scan_summary(vec![(group("session", vec![media_file(&src)]), Verdict::Keep)]);

    assert_eq!(summary.entries.len(), 1);
    assert_eq!(tree_snapshot(&dir.join("source")), source_before);
    assert!(!dest.exists(), "building a scan summary must never create the destination");
}

#[test]
fn scan_drive_json_lists_every_drive_with_correct_shape() {
    let tz = jiff::tz::TimeZone::UTC;
    let summary = ScanSummary {
        entries: vec![ScanEntry {
            name: "session".to_string(),
            verdict: Verdict::Keep,
            file_count: 1,
            total_size: 10,
            recorded_at: ts(0),
            files: vec!["/drive/session/clip.mp4".to_string()],
        }],
    };
    let ok_result: Result<ScanDriveOutcome, Error> = Ok(ScanDriveOutcome::Found(summary));
    let err_result: Result<ScanDriveOutcome, Error> = Err(Error::Config("boom".to_string()));

    let doc = MultiScanJson {
        drives: vec![
            scan_drive_json("DRIVE1", "/mnt/DRIVE1", &ok_result, &tz),
            scan_drive_json("DRIVE2", "/mnt/DRIVE2", &err_result, &tz),
        ],
    };
    let drives = &doc.drives;
    assert_eq!(drives.len(), 2, "drives array must have one entry per drive");

    assert_eq!(drives[0].name, "DRIVE1");
    assert_eq!(drives[0].path, "/mnt/DRIVE1");
    assert_eq!(drives[0].status, "completed");
    assert!(drives[0].summary.is_some());
    assert!(drives[0].error.is_none(), "a completed drive's entry must carry no error key");

    assert_eq!(drives[1].name, "DRIVE2");
    assert_eq!(drives[1].status, "error");
    assert!(drives[1].error.as_deref().unwrap().contains("boom"));
    assert!(drives[1].summary.is_none(), "an error-status drive's entry must carry no summary key");
}

#[test]
fn stray_files_form_one_ignored_unrecognized_group() {
    let files = vec![MediaFile { path: "/card/DCIM/100GOPRO/notes.txt".to_string(), size: 3, recorded_at: None }];
    let (group, verdict) = unrecognized_group(files);
    assert_eq!(group.name, "unrecognized");
    assert_eq!(group.files.len(), 1);
    assert_eq!(group.files[0].path, "/card/DCIM/100GOPRO/notes.txt");
    assert_eq!((group.timestamp.secs, group.timestamp.nanos), (0, 0));
    assert!(group.markers.is_empty() && group.context.is_empty() && group.sidecar.is_none());
    assert_eq!(verdict, Verdict::Ignore("unrecognized file(s)".to_string()));
}

fn action(verdict: Verdict, destination: Option<&str>, quarantine_path: Option<&str>, with_sidecar: bool) -> PlannedAction {
    let mut group = quarantine_group();
    group.files.push(MediaFile { path: "/src/unmarked/clip2.mp4".to_string(), size: 5, recorded_at: None });
    if with_sidecar {
        group.sidecar = Some(Sidecar { filename: "import.json".to_string(), content: "{}".to_string(), time_source: None });
    }
    PlannedAction {
        group,
        verdict,
        destination: destination.map(str::to_string),
        quarantine_path: quarantine_path.map(str::to_string),
    }
}

#[test]
fn executed_files_follow_the_plan_in_order() {
    let a = action(Verdict::Keep, Some("/dest/2024"), None, true);
    let outcomes = vec![TransferOutcome::Transferred, TransferOutcome::Failed("disk full".to_string())];
    let files = action_files(&a, &outcomes);
    assert_eq!(files.len(), 2);
    assert_eq!(files[0].src, "/src/unmarked/clip.mp4");
    assert_eq!(files[0].outcome, TransferOutcome::Transferred);
    assert_eq!(files[1].src, "/src/unmarked/clip2.mp4");
    assert_eq!(files[1].outcome, TransferOutcome::Failed("disk full".to_string()));

    let g = group_result(&a, files, Some(TransferOutcome::Transferred));
    assert_eq!(g.group_name, "unmarked");
    assert_eq!(g.destination.as_deref(), Some("/dest/2024"));
    assert_eq!(g.sidecar_outcome, None, "a sidecar is not due while a file failed");
    assert!(!g.deleted_from_source);
}

#[test]
fn sidecar_outcome_is_kept_once_every_file_is_in_place() {
    let a = action(Verdict::Keep, Some("/dest/2024"), None, true);
    let outcomes = vec![TransferOutcome::Transferred, TransferOutcome::SkippedIdentical];
    let g = group_result(&a, action_files(&a, &outcomes), Some(TransferOutcome::Transferred));
    assert_eq!(g.sidecar_outcome, Some(TransferOutcome::Transferred));
}

#[test]
fn uncopied_quarantine_leaves_every_file_in_place_and_ignored_records_none() {
    let q = action(Verdict::Quarantine, None, None, false);
    let files = action_files(&q, &vec![]);
    assert_eq!(files.len(), 2);
    assert!(files.iter().all(|f| f.outcome == TransferOutcome::SkippedQuarantineDisabled));
    let g = group_result(&q, files, None);
    assert_eq!(g.destination, None);
    assert_eq!(g.verdict, Verdict::Quarantine);

    let ignored = action(Verdict::Ignore("filtered".to_string()), None, None, false);
    assert!(action_files(&ignored, &vec![]).is_empty());
}
