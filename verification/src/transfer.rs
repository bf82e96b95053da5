//! The decisions of a verified import: which outcomes count as "in
//! place" or "content verified", when a group may be deleted from its
//! source, what a confirmation answer means, and the report an import
//! run produces. Copying, hashing and deleting files is the caller's
//! I/O; every destructive step it takes is decided here.

use vstd::prelude::*;
use crate::source::Verdict;
use crate::text::{chars_of, owned, string_of};
use crate::plan::{action_for, files_size, group_size, instant_ok, quarantine_path_of, ImportPlan, MediaGroup, PlannedAction};
use crate::config::{join_of, quarantine_root_of, Profile};
use crate::clock::{instant_nanos, UtcInstant};

verus! {

/// What happened to one source file.
#[derive(Debug, Clone, PartialEq, Eq)]
pub enum TransferOutcome {
    /// Stream-copied, hashed on both sides, renamed into place.
    Transferred,
    /// Cloned into place by the filesystem (a reflink).
    Reflinked,
    /// A file with identical content already sat at the destination.
    SkippedIdentical,
    /// Stored under a numeric-suffixed name (the plain name held
    /// different content); carries the path it was stored at.
    Suffixed(String),
    /// Belongs to a quarantined group whose profile does not copy
    /// quarantined footage: left on the source, no copy made. Never a
    /// success and never a deletion candidate.
    SkippedQuarantineDisabled,
    /// The destination matched by name, size and mtime only: accepted
    /// as already imported without hashing, so never a deletion
    /// candidate.
    SkippedQuickMatch,
    /// The transfer failed, with the reason.
    Failed(String),
}

#[derive(Debug, Clone)]
pub struct FileResult {
    pub src: String,
    pub outcome: TransferOutcome,
}

#[derive(Debug, Clone)]
pub struct GroupResult {
    pub group_name: String,
    pub verdict: Verdict,
    pub files: Vec<FileResult>,
    /// Outcome of writing the group's sidecar, if it had one. Kept apart
    /// from `files`: a sidecar is never a source file, so never a
    /// deletion candidate.
    pub sidecar_outcome: Option<TransferOutcome>,
    pub deleted_from_source: bool,
    /// The directory the group was transferred into, if any.
    pub destination: Option<String>,
}

#[derive(Debug, Clone)]
pub struct ExecuteReport {
    pub groups: Vec<GroupResult>,
    pub deletion_skipped_reason: Option<String>,
    /// Whether source deletion was in effect for this run.
    pub delete_source: bool,
}

/// The file is in place at the destination: transferred, cloned,
/// already there, stored under a suffixed name, or quick-matched.
pub open spec fn spec_in_place(o: TransferOutcome) -> bool {
    match o {
        TransferOutcome::Transferred | TransferOutcome::Reflinked | TransferOutcome::SkippedIdentical
        | TransferOutcome::Suffixed(_) | TransferOutcome::SkippedQuickMatch => true,
        TransferOutcome::SkippedQuarantineDisabled | TransferOutcome::Failed(_) => false,
    }
}

/// The file's content was actually verified at the destination: not a
/// quick match (heuristic only), not left in place, not failed.
pub open spec fn spec_content_verified(o: TransferOutcome) -> bool {
    match o {
        TransferOutcome::Transferred | TransferOutcome::Reflinked | TransferOutcome::SkippedIdentical
        | TransferOutcome::Suffixed(_) => true,
        TransferOutcome::SkippedQuickMatch | TransferOutcome::SkippedQuarantineDisabled
        | TransferOutcome::Failed(_) => false,
    }
}

/// Only an explicit sidecar write failure blocks deletion.
pub open spec fn spec_sidecar_ok(o: Option<TransferOutcome>) -> bool {
    !(o matches Some(TransferOutcome::Failed(_)))
}

/// A group may be deleted from its source: it has files, every one of
/// them was content-verified at the destination, and its sidecar (if
/// any) did not fail.
pub open spec fn spec_deletion_eligible(g: GroupResult) -> bool {
    &&& g.files@.len() > 0
    &&& forall|i: int| 0 <= i < g.files@.len() ==> spec_content_verified(#[trigger] g.files@[i].outcome)
    &&& spec_sidecar_ok(g.sidecar_outcome)
}

/// Gates sidecar writing and "handled" reporting.
pub fn in_place_at_destination(outcome: &TransferOutcome) -> (b: bool)
    ensures
        b == spec_in_place(*outcome),
{
    match outcome {
        TransferOutcome::Transferred | TransferOutcome::Reflinked | TransferOutcome::SkippedIdentical
        | TransferOutcome::Suffixed(_) | TransferOutcome::SkippedQuickMatch => true,
        TransferOutcome::SkippedQuarantineDisabled | TransferOutcome::Failed(_) => false,
    }
}

/// Gates source deletion.
pub fn content_verified(outcome: &TransferOutcome) -> (b: bool)
    ensures
        b == spec_content_verified(*outcome),
{
    match outcome {
        TransferOutcome::Transferred | TransferOutcome::Reflinked | TransferOutcome::SkippedIdentical
        | TransferOutcome::Suffixed(_) => true,
        TransferOutcome::SkippedQuickMatch | TransferOutcome::SkippedQuarantineDisabled
        | TransferOutcome::Failed(_) => false,
    }
}

/// A group with no sidecar has nothing to fail; only an explicit write
/// failure blocks deletion.
pub fn sidecar_ok(outcome: &Option<TransferOutcome>) -> (b: bool)
    ensures
        b == spec_sidecar_ok(*outcome),
{
    match outcome {
        Some(TransferOutcome::Failed(_)) => false,
        _ => true,
    }
}

/// Whether `group` may be deleted from its source.
pub fn deletion_eligible(group: &GroupResult) -> (b: bool)
    ensures
        b == spec_deletion_eligible(*group),
{
    if group.files.len() == 0 {
        return false;
    }
    let mut i: usize = 0;
    while i < group.files.len()
        invariant
            i <= group.files@.len(),
            forall|j: int| 0 <= j < i ==> spec_content_verified(#[trigger] group.files@[j].outcome),
        decreases group.files@.len() - i,
    {
        if !content_verified(&group.files[i].outcome) {
            return false;
        }
        i += 1;
    }
    sidecar_ok(&group.sidecar_outcome)
}

/// Whether every file of a group is in place, so its sidecar is due.
pub open spec fn spec_all_in_place(files: Seq<FileResult>) -> bool {
    files.len() > 0 && forall|i: int| 0 <= i < files.len() ==> spec_in_place(#[trigger] files[i].outcome)
}

/// The sidecar is written only into a target directory, only for a
/// group that has one, and only once every file of the group is in
/// place there.
pub fn sidecar_due(has_target: bool, has_sidecar: bool, files: &Vec<FileResult>) -> (b: bool)
    ensures
        b == (has_target && has_sidecar && spec_all_in_place(files@)),
{
    if !has_target || !has_sidecar || files.len() == 0 {
        return false;
    }
    let mut i: usize = 0;
    while i < files.len()
        invariant
            i <= files@.len(),
            forall|j: int| 0 <= j < i ==> spec_in_place(#[trigger] files@[j].outcome),
        decreases files@.len() - i,
    {
        if !in_place_at_destination(&files[i].outcome) {
            return false;
        }
        i += 1;
    }
    true
}

/// Where a group's files go: its destination when kept, its quarantine
/// directory when quarantined (absent when quarantined footage is not
/// copied), nowhere when ignored.
pub open spec fn spec_target(verdict: Verdict, destination: Option<String>, quarantine_path: Option<String>) -> Option<String> {
    match verdict {
        Verdict::Keep => destination,
        Verdict::Quarantine => quarantine_path,
        Verdict::Ignore(_) => None,
    }
}

pub fn transfer_target(verdict: &Verdict, destination: &Option<String>, quarantine_path: &Option<String>) -> (t: Option<String>)
    ensures
        t == spec_target(*verdict, *destination, *quarantine_path),
        *verdict == Verdict::Keep ==> t == *destination,
        *verdict == Verdict::Quarantine ==> t == *quarantine_path,
        verdict is Ignore ==> t is None,
{
    match verdict {
        Verdict::Keep => destination.clone(),
        Verdict::Quarantine => quarantine_path.clone(),
        Verdict::Ignore(_) => None,
    }
}

fn copy_outcome(o: &TransferOutcome) -> (c: TransferOutcome)
    ensures
        c == *o,
{
    match o {
        TransferOutcome::Transferred => TransferOutcome::Transferred,
        TransferOutcome::Reflinked => TransferOutcome::Reflinked,
        TransferOutcome::SkippedIdentical => TransferOutcome::SkippedIdentical,
        TransferOutcome::Suffixed(p) => TransferOutcome::Suffixed(p.clone()),
        TransferOutcome::SkippedQuarantineDisabled => TransferOutcome::SkippedQuarantineDisabled,
        TransferOutcome::SkippedQuickMatch => TransferOutcome::SkippedQuickMatch,
        TransferOutcome::Failed(m) => TransferOutcome::Failed(m.clone()),
    }
}

fn copy_verdict(v: &Verdict) -> (c: Verdict)
    ensures
        c == *v,
{
    match v {
        Verdict::Keep => Verdict::Keep,
        Verdict::Quarantine => Verdict::Quarantine,
        Verdict::Ignore(r) => Verdict::Ignore(r.clone()),
    }
}

/// What executing a planned action records for its files, given the
/// outcome of each file sent to the action's target: with a target,
/// every file of the group with its own outcome, in plan order;
/// quarantined without a target (quarantined footage not copied), every
/// file left on the source; ignored, nothing.
pub open spec fn files_follow_plan(a: PlannedAction, outcomes: Seq<TransferOutcome>, r: Seq<FileResult>) -> bool {
    let files = a.group.files@;
    match spec_target(a.verdict, a.destination, a.quarantine_path) {
        Some(_) => r.len() == files.len() && forall|i: int| 0 <= i < files.len() ==>
            (#[trigger] r[i]).src@ == files[i].path@ && r[i].outcome == outcomes[i],
        None => if a.verdict is Quarantine {
            r.len() == files.len() && forall|i: int| 0 <= i < files.len() ==>
                (#[trigger] r[i]).src@ == files[i].path@ && r[i].outcome == TransferOutcome::SkippedQuarantineDisabled
        } else {
            r.len() == 0
        },
    }
}

/// The file results of one planned action, from the outcome of each file
/// sent to its target (none when it has no target).
pub fn action_files(action: &PlannedAction, outcomes: &Vec<TransferOutcome>) -> (r: Vec<FileResult>)
    requires
        spec_target(action.verdict, action.destination, action.quarantine_path) is Some
            ==> outcomes@.len() == action.group.files@.len(),
    ensures
        files_follow_plan(*action, outcomes@, r@),
{
    let files = &action.group.files;
    let has_target = transfer_target(&action.verdict, &action.destination, &action.quarantine_path).is_some();
    let left = match action.verdict {
        Verdict::Quarantine => !has_target,
        _ => false,
    };
    let mut r: Vec<FileResult> = Vec::new();
    if has_target || left {
        let mut i: usize = 0;
        while i < files.len()
            invariant
                i <= files@.len(),
                r@.len() == i,
                files == &action.group.files,
                has_target ==> outcomes@.len() == files@.len(),
                forall|j: int| 0 <= j < i ==> (#[trigger] r@[j]).src@ == files@[j].path@
                    && r@[j].outcome == (if has_target { outcomes@[j] } else { TransferOutcome::SkippedQuarantineDisabled }),
            decreases files@.len() - i,
        {
            let outcome = if has_target { copy_outcome(&outcomes[i]) } else { TransferOutcome::SkippedQuarantineDisabled };
            r.push(FileResult { src: string_of(&chars_of(files[i].path.as_str())), outcome });
            i += 1;
        }
    }
    r
}

/// The result of one planned action: its name, verdict and target, its
/// files' results, and its sidecar's outcome, kept only when the sidecar
/// was due (a target, a sidecar, every file in place). Nothing is deleted
/// yet.
pub fn group_result(action: &PlannedAction, files: Vec<FileResult>, sidecar_outcome: Option<TransferOutcome>) -> (g: GroupResult)
    ensures
        g.group_name == action.group.name,
        g.verdict == action.verdict,
        g.files == files,
        g.destination == spec_target(action.verdict, action.destination, action.quarantine_path),
        g.sidecar_outcome == (if spec_target(action.verdict, action.destination, action.quarantine_path) is Some
            && action.group.sidecar is Some && spec_all_in_place(files@) { sidecar_outcome } else { None }),
        !g.deleted_from_source,
{
    let destination = transfer_target(&action.verdict, &action.destination, &action.quarantine_path);
    let due = sidecar_due(destination.is_some(), action.group.sidecar.is_some(), &files);
    GroupResult {
        group_name: action.group.name.clone(),
        verdict: copy_verdict(&action.verdict),
        files,
        sidecar_outcome: if due { sidecar_outcome } else { None },
        deleted_from_source: false,
        destination,
    }
}

/// The answer to a destructive step's confirmation.
#[derive(Debug, Clone, Copy, PartialEq, Eq)]
pub enum Confirmation {
    Confirmed,
    DeclinedInteractive,
    SkippedNonInteractive,
}

/// Whether the answer is settled without asking: `--yes` confirms, a
/// non-interactive stdin skips; otherwise the user must be prompted
/// (`None`).
pub fn confirmation_without_prompt(assume_yes: bool, stdin_is_terminal: bool) -> (c: Option<Confirmation>)
    ensures
        assume_yes ==> c == Some(Confirmation::Confirmed),
        !assume_yes && !stdin_is_terminal ==> c == Some(Confirmation::SkippedNonInteractive),
        !assume_yes && stdin_is_terminal ==> c is None,
{
    if assume_yes {
        Some(Confirmation::Confirmed)
    } else if !stdin_is_terminal {
        Some(Confirmation::SkippedNonInteractive)
    } else {
        None
    }
}

/// The characters `str::trim` strips: Unicode `White_Space`.
pub open spec fn is_white_space(c: char) -> bool {
    ||| '\u{9}' <= c <= '\u{d}'
    ||| c == ' ' || c == '\u{85}' || c == '\u{a0}' || c == '\u{1680}'
    ||| '\u{2000}' <= c <= '\u{200a}'
    ||| c == '\u{2028}' || c == '\u{2029}' || c == '\u{202f}' || c == '\u{205f}' || c == '\u{3000}'
}

/// `s` with leading and trailing white space removed.
pub open spec fn trimmed(s: Seq<char>) -> Seq<char>
    decreases s.len(),
{
    if s.len() > 0 && is_white_space(s[0]) {
        trimmed(s.drop_first())
    } else if s.len() > 0 && is_white_space(s.last()) {
        trimmed(s.drop_last())
    } else {
        s
    }
}

/// Whether `a` and `b` agree up to ASCII letter case.
pub open spec fn eq_ignore_case(a: Seq<char>, b: Seq<char>) -> bool {
    a.len() == b.len() && forall|i: int| 0 <= i < a.len() ==> lower(#[trigger] a[i]) == lower(b[i])
}

/// The lower case of an ASCII letter; any other character unchanged.
pub open spec fn lower(c: char) -> char {
    if 'A' <= c <= 'Z' { ((c as int) + 32) as char } else { c }
}

/// What a y/N answer means: only `y`/`yes`, in any letter case and
/// surrounded by any white space, confirm.
pub open spec fn spec_parse_confirmation(line: Seq<char>) -> Confirmation {
    let t = trimmed(line);
    if eq_ignore_case(t, seq!['y']) || eq_ignore_case(t, seq!['y', 'e', 's']) {
        Confirmation::Confirmed
    } else {
        Confirmation::DeclinedInteractive
    }
}

fn white_space(c: char) -> (b: bool)
    ensures
        b == is_white_space(c),
{
    ('\u{9}' <= c && c <= '\u{d}') || c == ' ' || c == '\u{85}' || c == '\u{a0}' || c == '\u{1680}'
        || ('\u{2000}' <= c && c <= '\u{200a}') || c == '\u{2028}' || c == '\u{2029}' || c == '\u{202f}'
        || c == '\u{205f}' || c == '\u{3000}'
}

pub(crate) fn is_letter(c: char, lower_c: char) -> (b: bool)
    requires
        'a' <= lower_c <= 'z',
    ensures
        b == (lower(c) == lower_c),
{
    c == lower_c || c == (((lower_c as u32) - 32) as u8) as char
}

/// Interprets a y/N answer: only `y`/`yes` (case- and white-space-
/// insensitive) confirm; anything else, an empty line included,
/// declines.
pub fn parse_confirmation(line: &str) -> (c: Confirmation)
    ensures
        c == spec_parse_confirmation(line@),
{
    let cs = chars_of(line);
    let mut lo: usize = 0;
    let mut hi: usize = cs.len();
    assert(cs@.subrange(0, hi as int) =~= cs@);
    loop
        invariant
            lo <= hi <= cs@.len(),
            cs@ == line@,
            trimmed(line@) == trimmed(cs@.subrange(lo as int, hi as int)),
        ensures
            lo <= hi <= cs@.len(),
            trimmed(line@) == trimmed(cs@.subrange(lo as int, hi as int)),
            lo < hi ==> !is_white_space(cs@[lo as int]) && !is_white_space(cs@[hi - 1]),
        decreases hi - lo,
    {
        let ghost s = cs@.subrange(lo as int, hi as int);
        if lo < hi && white_space(cs[lo]) {
            assert(s.drop_first() =~= cs@.subrange(lo + 1, hi as int));
            lo += 1;
        } else if lo < hi && white_space(cs[hi - 1]) {
            assert(s.drop_last() =~= cs@.subrange(lo as int, hi - 1));
            hi -= 1;
        } else {
            break;
        }
    }
    let ghost t = cs@.subrange(lo as int, hi as int);
    assert(trimmed(t) == t);
    let n = hi - lo;
    if n == 1 && is_letter(cs[lo], 'y') {
        assert(eq_ignore_case(t, seq!['y']));
        Confirmation::Confirmed
    } else if n == 3 && is_letter(cs[lo], 'y') && is_letter(cs[lo + 1], 'e') && is_letter(cs[lo + 2], 's') {
        assert(eq_ignore_case(t, seq!['y', 'e', 's']));
        Confirmation::Confirmed
    } else {
        proof {
            if eq_ignore_case(t, seq!['y']) {
                assert(lower(t[0]) == lower('y'));
            }
            if eq_ignore_case(t, seq!['y', 'e', 's']) {
                assert(lower(t[0]) == lower('y'));
                assert(lower(t[1]) == lower('e'));
                assert(lower(t[2]) == lower('s'));
            }
        }
        Confirmation::DeclinedInteractive
    }
}

/// A group holding a file left on the source (quarantined footage not
/// copied), a quick-matched file or a failed one is never deleted from
/// its source.
pub proof fn lemma_unverified_file_blocks_deletion(g: GroupResult, i: int)
    requires
        0 <= i < g.files@.len(),
        g.files@[i].outcome matches TransferOutcome::SkippedQuarantineDisabled
            || g.files@[i].outcome matches TransferOutcome::SkippedQuickMatch
            || g.files@[i].outcome matches TransferOutcome::Failed(_),
    ensures
        !spec_deletion_eligible(g),
{
    assert(!spec_content_verified(g.files@[i].outcome));
}

/// Whether any group may be deleted from its source.
pub open spec fn spec_any_eligible(groups: Seq<GroupResult>) -> bool {
    exists|i: int| 0 <= i < groups.len() && spec_deletion_eligible(#[trigger] groups[i])
}

pub fn any_deletion_eligible(groups: &Vec<GroupResult>) -> (b: bool)
    ensures
        b == spec_any_eligible(groups@),
{
    let mut i: usize = 0;
    while i < groups.len()
        invariant
            i <= groups@.len(),
            forall|j: int| 0 <= j < i ==> !spec_deletion_eligible(#[trigger] groups@[j]),
        decreases groups@.len() - i,
    {
        if deletion_eligible(&groups[i]) {
            return true;
        }
        i += 1;
    }
    false
}

/// Whether the run must ask for confirmation before deleting: deletion
/// is in effect and some group is eligible.
pub fn deletion_needs_confirmation(delete_source: bool, groups: &Vec<GroupResult>) -> (b: bool)
    ensures
        b == (delete_source && spec_any_eligible(groups@)),
{
    delete_source && any_deletion_eligible(groups)
}

/// Why nothing was deleted after the user declined the prompt.
pub open spec fn declined_reason() -> Seq<char> {
    "deletion declined; source files were not deleted"@
}

/// Why nothing was deleted when no prompt could be shown.
pub open spec fn non_interactive_reason() -> Seq<char> {
    "stdin is not a terminal; skipping source deletion (pass --yes to confirm non-interactively)"@
}

pub open spec fn opt_view(o: Option<String>) -> Option<Seq<char>> {
    match o {
        Some(s) => Some(s@),
        None => None,
    }
}

/// The report of a run, once deletion is settled. When deletion was in
/// effect and some group was eligible, `answer` is the confirmation:
/// confirmed, every eligible group (and only those) is marked deleted —
/// the caller then removes exactly their files; declined or skipped, no
/// group is, and the report says why. Otherwise `answer` is not
/// consulted and nothing is deleted. So, over groups none of which was
/// deleted yet (as `group_result` builds them), a group ends marked
/// deleted only when deletion was in effect, no reason to skip it was
/// recorded, it has files, every one of them content-verified at the
/// destination, and its sidecar did not fail.
pub fn settle_deletion(groups: Vec<GroupResult>, delete_source: bool, answer: Option<Confirmation>) -> (r: ExecuteReport)
    ensures
        r.delete_source == delete_source,
        r.groups@.len() == groups@.len(),
        forall|i: int| 0 <= i < groups@.len() ==> {
            let (g, h) = (#[trigger] r.groups@[i], groups@[i]);
            &&& g.group_name == h.group_name
            &&& g.verdict == h.verdict
            &&& g.files == h.files
            &&& g.sidecar_outcome == h.sidecar_outcome
            &&& g.destination == h.destination
            &&& g.deleted_from_source == (h.deleted_from_source || (delete_source && spec_any_eligible(groups@)
                && answer == Some(Confirmation::Confirmed) && spec_deletion_eligible(h)))
        },
        forall|i: int| 0 <= i < groups@.len() && (#[trigger] r.groups@[i]).deleted_from_source
            && !groups@[i].deleted_from_source ==> delete_source && answer == Some(Confirmation::Confirmed)
            && spec_deletion_eligible(groups@[i]),
        (forall|i: int| 0 <= i < groups@.len() ==> !(#[trigger] groups@[i]).deleted_from_source) ==>
            forall|i: int| 0 <= i < r.groups@.len() && (#[trigger] r.groups@[i]).deleted_from_source ==>
                delete_source && r.deletion_skipped_reason is None && spec_deletion_eligible(r.groups@[i]),
        opt_view(r.deletion_skipped_reason) == (if delete_source && spec_any_eligible(groups@) {
            match answer {
                Some(Confirmation::DeclinedInteractive) => Some(declined_reason()),
                Some(Confirmation::SkippedNonInteractive) => Some(non_interactive_reason()),
                _ => None,
            }
        } else {
            None::<Seq<char>>
        }),
{
    let needed = deletion_needs_confirmation(delete_source, &groups);
    let confirmed = needed && match answer { Some(Confirmation::Confirmed) => true, _ => false };
    let ghost old_groups = groups@;
    let mut groups = groups;
    let mut i: usize = 0;
    while i < groups.len()
        invariant
            i <= groups@.len(),
            groups@.len() == old_groups.len(),
            forall|j: int| 0 <= j < old_groups.len() ==> {
                let (g, h) = (#[trigger] groups@[j], old_groups[j]);
                &&& g.group_name == h.group_name
                &&& g.verdict == h.verdict
                &&& g.files == h.files
                &&& g.sidecar_outcome == h.sidecar_outcome
                &&& g.destination == h.destination
                &&& g.deleted_from_source == (h.deleted_from_source || (j < i && confirmed && spec_deletion_eligible(h)))
            },
        decreases groups@.len() - i,
    {
        if confirmed && deletion_eligible(&groups[i]) {
            let mut g = groups.remove(i);
            g.deleted_from_source = true;
            groups.insert(i, g);
        }
        i += 1;
    }
    let reason = if !needed {
        None
    } else {
        match answer {
            Some(Confirmation::DeclinedInteractive) => Some(owned("deletion declined; source files were not deleted")),
            Some(Confirmation::SkippedNonInteractive) => Some(owned(
                "stdin is not a terminal; skipping source deletion (pass --yes to confirm non-interactively)",
            )),
            _ => None,
        }
    };
    ExecuteReport { groups, deletion_skipped_reason: reason, delete_source }
}


/// Whether an action's files get transferred: kept, or quarantined with
/// a quarantine path to copy into.
pub open spec fn transfers(a: PlannedAction) -> bool {
    (a.verdict matches Verdict::Keep) || ((a.verdict matches Verdict::Quarantine) && a.quarantine_path is Some)
}

/// The bytes an import run will move: every file of every transferring
/// action.
pub open spec fn transfer_bytes(a: Seq<PlannedAction>) -> nat
    decreases a.len(),
{
    if a.len() == 0 {
        0
    } else {
        transfer_bytes(a.drop_last()) + if transfers(a.last()) { files_size(a.last().group.files@) } else { 0nat }
    }
}

proof fn lemma_transfer_bytes_prefix(a: Seq<PlannedAction>, i: int)
    requires
        0 <= i <= a.len(),
    ensures
        transfer_bytes(a.subrange(0, i)) <= transfer_bytes(a),
    decreases a.len() - i,
{
    if i < a.len() {
        lemma_transfer_bytes_prefix(a, i + 1);
        assert(a.subrange(0, i + 1).drop_last() =~= a.subrange(0, i));
    } else {
        assert(a.subrange(0, i) =~= a);
    }
}

/// The progress total of an import run.
pub fn planned_bytes(plan: &ImportPlan) -> (n: u64)
    requires
        transfer_bytes(plan.actions@) <= u64::MAX,
    ensures
        n == transfer_bytes(plan.actions@),
{
    let ghost a = plan.actions@;
    let mut n: u64 = 0;
    let mut i: usize = 0;
    while i < plan.actions.len()
        invariant
            i <= a.len(),
            a == plan.actions@,
            transfer_bytes(a) <= u64::MAX,
            n == transfer_bytes(a.subrange(0, i as int)),
        decreases a.len() - i,
    {
        assert(a.subrange(0, i + 1).drop_last() =~= a.subrange(0, i as int));
        proof {
            lemma_transfer_bytes_prefix(a, i + 1);
        }
        let action = &plan.actions[i];
        let moves = match &action.verdict {
            Verdict::Keep => true,
            Verdict::Quarantine => action.quarantine_path.is_some(),
            Verdict::Ignore(_) => false,
        };
        if moves {
            n = n + group_size(&action.group.files);
        }
        i += 1;
    }
    assert(a.subrange(0, a.len() as int) =~= a);
    n
}

/// How far a finished file advances the progress total: a skipped file
/// counts in full, since no copy streamed its bytes.
pub fn progress_advance(outcome: &TransferOutcome, size: u64) -> (n: u64)
    ensures
        n == if (*outcome matches TransferOutcome::SkippedQuickMatch) || (*outcome matches TransferOutcome::SkippedIdentical) { size } else { 0 },
{
    match outcome {
        TransferOutcome::SkippedQuickMatch | TransferOutcome::SkippedIdentical => size,
        _ => 0,
    }
}

/// Whether a destination file already holds an import of the source:
/// the same size, and a modification time within a tenth of a second of
/// the recorded time.
pub open spec fn spec_quick_match(dest_len: u64, src_len: u64, dest_mtime: UtcInstant, recorded_at: UtcInstant) -> bool {
    &&& dest_len == src_len
    &&& -100_000_000 <= instant_nanos(dest_mtime) - instant_nanos(recorded_at) <= 100_000_000
}

pub fn quick_match_hit(dest_len: u64, src_len: u64, dest_mtime: UtcInstant, recorded_at: UtcInstant) -> (b: bool)
    requires
        instant_ok(dest_mtime),
        instant_ok(recorded_at),
    ensures
        b == spec_quick_match(dest_len, src_len, dest_mtime, recorded_at),
{
    if dest_len != src_len {
        return false;
    }
    let d: i128 = dest_mtime.secs as i128 * 1_000_000_000 + dest_mtime.nanos as i128;
    let r: i128 = recorded_at.secs as i128 * 1_000_000_000 + recorded_at.nanos as i128;
    let diff: i128 = d - r;
    -100_000_000 <= diff && diff <= 100_000_000
}

/// Where each verdict's files go: a kept group to its destination, a
/// quarantined group to its quarantine path, an ignored group nowhere.
/// So for an action planned under a profile that copies quarantined
/// footage, a quarantined group's files go to its own directory under
/// the quarantine root; under one that does not, they go nowhere.
pub proof fn lemma_quarantined_files_go_to_quarantine(p: Profile, gv: (MediaGroup, Verdict), a: PlannedAction)
    requires
        action_for(p, gv, a),
    ensures
        spec_target(Verdict::Keep, a.destination, a.quarantine_path) == a.destination,
        spec_target(Verdict::Quarantine, a.destination, a.quarantine_path) == a.quarantine_path,
        gv.1 == Verdict::Quarantine && p.copy_quarantine ==> (spec_target(a.verdict, a.destination, a.quarantine_path)
            matches Some(x) && x@ == join_of(quarantine_root_of(p), gv.0.name@)),
        gv.1 == Verdict::Quarantine && !p.copy_quarantine ==> spec_target(a.verdict, a.destination,
            a.quarantine_path) is None,
        gv.1 is Ignore ==> spec_target(a.verdict, a.destination, a.quarantine_path) is None,
{
}

} // verus!
