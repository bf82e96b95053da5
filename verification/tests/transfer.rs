use import_videos::paths::{file_display_name, suffixed_name};
use import_videos::source::Verdict;
use import_videos::transfer::{
    confirmation_without_prompt, parse_confirmation, settle_deletion, Confirmation, FileResult, GroupResult,
    TransferOutcome,
};

#[test]
fn confirmation_accepts_only_yes_variants() {
    for input in ["y", "Y", "yes", "YES", " yes \n", "y\n"] {
        assert!(matches!(parse_confirmation(input), Confirmation::Confirmed), "{input:?} should confirm");
    }
}

#[test]
fn confirmation_declines_everything_else() {
    for input in ["n", "no", "", "\n", "  ", "nope", "yeah"] {
        assert!(
            matches!(parse_confirmation(input), Confirmation::DeclinedInteractive),
            "{input:?} should decline"
        );
    }
}

fn group(name: &str, outcomes: Vec<TransferOutcome>, sidecar: Option<TransferOutcome>) -> GroupResult {
    GroupResult {
        group_name: name.to_string(),
        verdict: Verdict::Keep,
        files: outcomes
            .into_iter()
            .enumerate()
            .map(|(i, outcome)| FileResult { src: format!("/card/{name}{i}.mp4"), outcome })
            .collect(),
        sidecar_outcome: sidecar,
        deleted_from_source: false,
        destination: Some(format!("/dest/{name}")),
    }
}

#[test]
fn non_interactive_without_yes_skips_deletion() {
    let answer = confirmation_without_prompt(false, false);
    assert_eq!(answer, Some(Confirmation::SkippedNonInteractive));
    let report = settle_deletion(vec![group("a", vec![TransferOutcome::Transferred], None)], true, answer);
    assert!(!report.groups[0].deleted_from_source);
    assert!(report.deletion_skipped_reason.is_some());
}

#[test]
fn only_verified_groups_are_deleted_once_confirmed() {
    let groups = vec![
        group("ok", vec![TransferOutcome::Transferred, TransferOutcome::SkippedIdentical], None),
        group("quick", vec![TransferOutcome::SkippedQuickMatch], None),
        group("left", vec![TransferOutcome::SkippedQuarantineDisabled], None),
        group("sidecar", vec![TransferOutcome::Transferred], Some(TransferOutcome::Failed("disk full".into()))),
        group("empty", vec![], None),
    ];
    let report = settle_deletion(groups, true, confirmation_without_prompt(true, false));
    let deleted: Vec<bool> = report.groups.iter().map(|g| g.deleted_from_source).collect();
    assert_eq!(deleted, vec![true, false, false, false, false]);
    assert!(report.deletion_skipped_reason.is_none());
}

#[test]
fn declined_prompt_deletes_nothing_and_says_so() {
    let report = settle_deletion(
        vec![group("a", vec![TransferOutcome::Transferred], None)],
        true,
        Some(parse_confirmation("n\n")),
    );
    assert!(!report.groups[0].deleted_from_source);
    assert_eq!(report.deletion_skipped_reason.as_deref(), Some("deletion declined; source files were not deleted"));
}

#[test]
fn deletion_not_requested_never_deletes() {
    let report = settle_deletion(
        vec![group("a", vec![TransferOutcome::Transferred], None)],
        false,
        Some(Confirmation::Confirmed),
    );
    assert!(!report.groups[0].deleted_from_source);
    assert!(report.deletion_skipped_reason.is_none());
    assert!(!report.delete_source);
}

#[test]
fn interactive_without_yes_must_prompt() {
    assert_eq!(confirmation_without_prompt(false, true), None);
}

#[test]
fn suffixed_names_keep_the_extension() {
    assert_eq!(suffixed_name("clip.mp4", 1), "clip-1.mp4");
    assert_eq!(suffixed_name("archive.tar.gz", 2), "archive.tar-2.gz");
    assert_eq!(suffixed_name(".hidden", 3), ".hidden-3");
    assert_eq!(suffixed_name("noext", 4), "noext-4");
    assert_eq!(suffixed_name("trailing.", 5), "trailing-5.");
    assert_eq!(file_display_name("/card/DCIM/clip.mp4"), "clip.mp4");
    assert_eq!(file_display_name("/card/DCIM/"), "DCIM");
    assert_eq!(file_display_name("/card/.."), "/card/..");
    assert_eq!(file_display_name("a/."), "a");
}
