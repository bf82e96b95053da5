use import_videos::error::Error;
use import_videos::transfer::ExecuteReport;
use import_videos::{any_import_drive_failed, DriveResult, ImportDriveOutcome};

#[test]
fn import_multi_drive_any_failed_is_true_only_when_a_drive_failed() {
    let ok_report = ExecuteReport { groups: vec![], deletion_skipped_reason: None, delete_source: false };

    let all_succeeded = vec![
        DriveResult {
            name: "d1".to_string(),
            path: "/mnt/d1".to_string(),
            result: Ok(ImportDriveOutcome::Executed { report: ok_report.clone(), any_failed: false }),
        },
        DriveResult {
            name: "d2".to_string(),
            path: "/mnt/d2".to_string(),
            result: Ok(ImportDriveOutcome::Executed { report: ok_report.clone(), any_failed: false }),
        },
    ];
    assert!(!any_import_drive_failed(&all_succeeded), "any_failed must be false when every drive succeeded");

    let one_failed = vec![
        DriveResult {
            name: "d1".to_string(),
            path: "/mnt/d1".to_string(),
            result: Ok(ImportDriveOutcome::Executed { report: ok_report.clone(), any_failed: false }),
        },
        DriveResult {
            name: "d2".to_string(),
            path: "/mnt/d2".to_string(),
            result: Err(Error::Config("boom".to_string())),
        },
    ];
    assert!(any_import_drive_failed(&one_failed), "any_failed must be true when any drive failed");
}

#[test]
fn dry_run_and_empty_drives_never_count_as_failures() {
    let results = vec![
        DriveResult { name: "d1".to_string(), path: "/mnt/d1".to_string(), result: Ok(ImportDriveOutcome::Empty) },
        DriveResult {
            name: "d2".to_string(),
            path: "/mnt/d2".to_string(),
            result: Ok(ImportDriveOutcome::Executed {
                report: ExecuteReport { groups: vec![], deletion_skipped_reason: None, delete_source: true },
                any_failed: true,
            }),
        },
    ];
    assert!(any_import_drive_failed(&results));
    assert!(!ImportDriveOutcome::Empty.is_failure());
    assert_eq!(import_videos::outcome_exit_code(true).code(), 1);
    assert_eq!(import_videos::outcome_exit_code(false).code(), 0);
    assert_eq!(Error::Config("x".into()).exit_code().code(), 2);
    assert_eq!(Error::Config("x".into()).message(), "config error: x");
}
