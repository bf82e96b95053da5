//! Rendering of execution and cleanup reports, as human-readable text
//! and as JSON view models. The JSON shape is a public contract, so it
//! is built from dedicated view-model types rather than the domain
//! types; serialising them is the caller's job.

use vstd::prelude::*;
use crate::paths::{display_name_of, file_display_name, parent, parent_of};
use crate::config::{join_of, join_path};
use crate::plan::{files_size, group_size, instant_ok, ImportPlan, MediaFile, PlannedAction, ScanEntry, ScanSummary};
use crate::order::{sort_texts, text_order, views};
use crate::clock::UtcInstant;
use crate::zoned::{full_in_some_zone, full_in_zone, full_text, offset_ok, render_full, render_short, short_text, zone_offset};
use crate::source::Verdict;
use crate::{ImportDriveOutcome, ScanDriveOutcome};
use crate::error::{error_text, Error};
use crate::text::{dec, owned, push_dec, push_str};
use crate::rounding::{f64_of_nat, f64_of_u64, quotient_tenths, quotient_tenths_exec};
use crate::cleanup::{CleanupEntry, CleanupPlan, CleanupReport, CleanupResult};
use crate::transfer::{opt_view, ExecuteReport, FileResult, GroupResult, TransferOutcome};

verus! {

/// How much of a plan, result or cleanup report to render.
#[derive(Copy, Clone, Debug, PartialEq, Eq, Structural)]
pub enum Detail {
    /// The closing summary line only — no per-group or per-entry
    /// listing.
    Summary,
    Normal,
    Verbose,
}

/// `"1 file"`, `"3 files"`.
pub open spec fn plural_of(n: nat, word: Seq<char>) -> Seq<char> {
    if n == 1 {
        "1 "@ + word
    } else {
        dec(n) + " "@ + word + "s"@
    }
}

/// Formats `n` with `word` pluralized the plain way.
pub fn plural(n: usize, word: &str) -> (s: String)
    ensures
        s@ == plural_of(n as nat, word@),
{
    let mut s = String::new();
    if n == 1 {
        push_str(&mut s, "1 ");
        push_str(&mut s, word);
    } else {
        push_dec(&mut s, n as u128);
        push_str(&mut s, " ");
        push_str(&mut s, word);
        push_str(&mut s, "s");
    }
    s
}

/// `num / den` in tenths, rounded half to even: the digits `{:.1}`
/// prints for that exact value.
pub open spec fn tenths_half_even(num: nat, den: nat) -> nat
    recommends
        den > 0,
{
    let q = (num * 10) / den;
    let r = (num * 10) % den;
    if 2 * r > den {
        q + 1
    } else if 2 * r < den {
        q
    } else if q % 2 == 0 {
        q
    } else {
        q + 1
    }
}

/// A count of tenths written with one decimal: `12` is `"1.2"`.
pub open spec fn one_decimal(t: nat) -> Seq<char> {
    dec(t / 10) + "."@ + dec(t % 10)
}

/// A size in bytes, KiB, MiB or GiB — the largest unit it reaches —
/// with one decimal for the binary units: the tenths `{:.1}` prints for
/// `b as f64` over the unit, a quotient the float holds exactly since the
/// unit is a power of two (`b` itself is exact below 2^53, else rounded
/// to the nearest float).
pub open spec fn size_text(b: nat) -> Seq<char> {
    if b >= 1073741824 {
        one_decimal(tenths_half_even(f64_of_nat(b), 1073741824)) + " GiB"@
    } else if b >= 1048576 {
        one_decimal(tenths_half_even(b, 1048576)) + " MiB"@
    } else if b >= 1024 {
        one_decimal(tenths_half_even(b, 1024)) + " KiB"@
    } else {
        dec(b) + " B"@
    }
}

fn tenths(num: u128, den: u128) -> (t: u128)
    requires
        0 < den <= 1073741824,
        num <= 0x1_0000_0000_0000_0800,
    ensures
        t == tenths_half_even(num as nat, den as nat),
{
    let n = num * 10;
    let q = n / den;
    let r = n % den;
    if 2 * r > den {
        q + 1
    } else if 2 * r < den {
        q
    } else if q % 2 == 0 {
        q
    } else {
        q + 1
    }
}

fn push_one_decimal(out: &mut String, t: u128)
    ensures
        final(out)@ == old(out)@ + one_decimal(t as nat),
{
    push_dec(out, t / 10);
    push_str(out, ".");
    push_dec(out, t % 10);
}

/// Renders a human-readable size.
pub fn format_size(bytes: u64) -> (s: String)
    ensures
        s@ == size_text(bytes as nat),
{
    let mut s = String::new();
    if bytes >= 1073741824 {
        push_one_decimal(&mut s, tenths(f64_of_u64(bytes), 1073741824));
        push_str(&mut s, " GiB");
    } else if bytes >= 1048576 {
        push_one_decimal(&mut s, tenths(bytes as u128, 1048576));
        push_str(&mut s, " MiB");
    } else if bytes >= 1024 {
        push_one_decimal(&mut s, tenths(bytes as u128, 1024));
        push_str(&mut s, " KiB");
    } else {
        push_dec(&mut s, bytes as u128);
        push_str(&mut s, " B");
    }
    s
}

/// An age in days with one decimal and a `d` suffix, as `{:.1}` prints
/// `age_seconds as f64 / 86400.0`: the seconds taken to the nearest
/// float, the quotient to the nearest float, that value to tenths, ties
/// to even; a negative age keeps its sign.
pub open spec fn age_text(age_seconds: int) -> Seq<char> {
    if age_seconds < 0 {
        "-"@ + one_decimal(quotient_tenths(f64_of_nat((-age_seconds) as nat), 86400)) + "d"@
    } else {
        one_decimal(quotient_tenths(f64_of_nat(age_seconds as nat), 86400)) + "d"@
    }
}

pub fn format_age_days(age_seconds: i64) -> (s: String)
    ensures
        s@ == age_text(age_seconds as int),
{
    let mut s = String::new();
    if age_seconds < 0 {
        let magnitude: u64 = if age_seconds == i64::MIN { 9223372036854775808 } else { (-age_seconds) as u64 };
        push_str(&mut s, "-");
        push_one_decimal(&mut s, quotient_tenths_exec(f64_of_u64(magnitude), 86400));
    } else {
        push_one_decimal(&mut s, quotient_tenths_exec(f64_of_u64(age_seconds as u64), 86400));
    }
    push_str(&mut s, "d");
    s
}

/// The per-outcome tally slot an outcome counts in.
pub open spec fn outcome_kind(o: TransferOutcome) -> int {
    match o {
        TransferOutcome::Transferred => 0,
        TransferOutcome::Reflinked => 1,
        TransferOutcome::SkippedIdentical => 2,
        TransferOutcome::SkippedQuickMatch => 3,
        TransferOutcome::Suffixed(_) => 4,
        TransferOutcome::SkippedQuarantineDisabled => 5,
        TransferOutcome::Failed(_) => 6,
    }
}

/// How many of `files` ended with an outcome of kind `k`.
pub open spec fn kind_count(files: Seq<FileResult>, k: int) -> nat
    decreases files.len(),
{
    if files.len() == 0 {
        0
    } else {
        kind_count(files.drop_last(), k) + if outcome_kind(files.last().outcome) == k { 1nat } else { 0nat }
    }
}

/// How many files across `groups` ended with an outcome of kind `k`.
pub open spec fn report_kind_count(groups: Seq<GroupResult>, k: int) -> nat
    decreases groups.len(),
{
    if groups.len() == 0 {
        0
    } else {
        report_kind_count(groups.drop_last(), k) + kind_count(groups.last().files@, k)
    }
}

/// How many of `groups` were deleted from their source.
pub open spec fn deleted_count(groups: Seq<GroupResult>) -> nat
    decreases groups.len(),
{
    if groups.len() == 0 {
        0
    } else {
        deleted_count(groups.drop_last()) + if groups.last().deleted_from_source { 1nat } else { 0nat }
    }
}

/// How many files `groups` hold in all.
pub open spec fn total_files(groups: Seq<GroupResult>) -> nat
    decreases groups.len(),
{
    if groups.len() == 0 {
        0
    } else {
        total_files(groups.drop_last()) + groups.last().files@.len()
    }
}

proof fn lemma_kind_count_bound(files: Seq<FileResult>, k: int)
    ensures
        kind_count(files, k) <= files.len(),
    decreases files.len(),
{
    if files.len() > 0 {
        lemma_kind_count_bound(files.drop_last(), k);
    }
}

proof fn lemma_report_count_bound(groups: Seq<GroupResult>, k: int)
    ensures
        report_kind_count(groups, k) <= total_files(groups),
        deleted_count(groups) <= groups.len(),
    decreases groups.len(),
{
    if groups.len() > 0 {
        lemma_report_count_bound(groups.drop_last(), k);
        lemma_kind_count_bound(groups.last().files@, k);
    }
}

proof fn lemma_total_files_prefix(groups: Seq<GroupResult>, i: int)
    requires
        0 <= i <= groups.len(),
    ensures
        total_files(groups.subrange(0, i)) <= total_files(groups),
    decreases groups.len() - i,
{
    if i < groups.len() {
        lemma_total_files_prefix(groups, i + 1);
        assert(groups.subrange(0, i + 1).drop_last() =~= groups.subrange(0, i));
    } else {
        assert(groups.subrange(0, i) =~= groups);
    }
}

/// Per-outcome totals over an execution report: the one tally both the
/// human summary line and the JSON summary are built from. Sidecar
/// outcomes are not source files and are not counted.
#[derive(Debug, Clone, Copy, PartialEq, Eq, Structural)]
pub struct ResultsTally {
    pub transferred: usize,
    pub reflinked: usize,
    pub skipped_identical: usize,
    pub skipped_quick_match: usize,
    pub suffixed: usize,
    pub skipped_quarantine_disabled: usize,
    pub failed: usize,
    pub deleted_groups: usize,
}

impl ResultsTally {
    /// The tally `groups` make.
    pub open spec fn of(groups: Seq<GroupResult>) -> ResultsTally {
        ResultsTally {
            transferred: report_kind_count(groups, 0) as usize,
            reflinked: report_kind_count(groups, 1) as usize,
            skipped_identical: report_kind_count(groups, 2) as usize,
            skipped_quick_match: report_kind_count(groups, 3) as usize,
            suffixed: report_kind_count(groups, 4) as usize,
            skipped_quarantine_disabled: report_kind_count(groups, 5) as usize,
            failed: report_kind_count(groups, 6) as usize,
            deleted_groups: deleted_count(groups) as usize,
        }
    }

    fn count(&mut self, o: &TransferOutcome)
        requires
            old(self).transferred < usize::MAX,
            old(self).reflinked < usize::MAX,
            old(self).skipped_identical < usize::MAX,
            old(self).skipped_quick_match < usize::MAX,
            old(self).suffixed < usize::MAX,
            old(self).skipped_quarantine_disabled < usize::MAX,
            old(self).failed < usize::MAX,
        ensures
            final(self).transferred == old(self).transferred + if outcome_kind(*o) == 0 { 1int } else { 0 },
            final(self).reflinked == old(self).reflinked + if outcome_kind(*o) == 1 { 1int } else { 0 },
            final(self).skipped_identical == old(self).skipped_identical + if outcome_kind(*o) == 2 { 1int } else { 0 },
            final(self).skipped_quick_match == old(self).skipped_quick_match + if outcome_kind(*o) == 3 { 1int } else { 0 },
            final(self).suffixed == old(self).suffixed + if outcome_kind(*o) == 4 { 1int } else { 0 },
            final(self).skipped_quarantine_disabled == old(self).skipped_quarantine_disabled + if outcome_kind(*o) == 5 { 1int } else { 0 },
            final(self).failed == old(self).failed + if outcome_kind(*o) == 6 { 1int } else { 0 },
            final(self).deleted_groups == old(self).deleted_groups,
    {
        match o {
            TransferOutcome::Transferred => self.transferred += 1,
            TransferOutcome::Reflinked => self.reflinked += 1,
            TransferOutcome::SkippedIdentical => self.skipped_identical += 1,
            TransferOutcome::SkippedQuickMatch => self.skipped_quick_match += 1,
            TransferOutcome::Suffixed(_) => self.suffixed += 1,
            TransferOutcome::SkippedQuarantineDisabled => self.skipped_quarantine_disabled += 1,
            TransferOutcome::Failed(_) => self.failed += 1,
        }
    }

    /// Tallies every file outcome and every deleted group of `report`.
    pub fn from_report(report: &ExecuteReport) -> (t: ResultsTally)
        requires
            total_files(report.groups@) <= usize::MAX,
        ensures
            t == ResultsTally::of(report.groups@),
    {
        let ghost gs = report.groups@;
        let mut t = ResultsTally {
            transferred: 0, reflinked: 0, skipped_identical: 0, skipped_quick_match: 0, suffixed: 0,
            skipped_quarantine_disabled: 0, failed: 0, deleted_groups: 0,
        };
        let mut i: usize = 0;
        while i < report.groups.len()
            invariant
                i <= gs.len(),
                gs == report.groups@,
                total_files(gs) <= usize::MAX,
                t == ResultsTally::of(gs.subrange(0, i as int)),
            decreases gs.len() - i,
        {
            let g = &report.groups[i];
            let ghost pre = gs.subrange(0, i as int);
            let ghost next = gs.subrange(0, i + 1);
            assert(next.drop_last() =~= pre);
            proof {
                lemma_total_files_prefix(gs, i + 1);
                lemma_total_files_prefix(gs, i as int);
                assert forall|k: int| 0 <= k < 7 implies report_kind_count(pre, k) <= total_files(pre) by {
                    lemma_report_count_bound(pre, k);
                }
                lemma_report_count_bound(next, 0);
                assert(g.files@.subrange(0, 0) =~= Seq::<FileResult>::empty());
            }
            if g.deleted_from_source {
                t.deleted_groups += 1;
            }
            let mut j: usize = 0;
            while j < g.files.len()
                invariant
                    j <= g.files@.len(),
                    g == gs[i as int],
                    next == gs.subrange(0, i + 1),
                    next.drop_last() == pre,
                    total_files(pre) + g.files@.len() <= usize::MAX,
                    forall|k: int| 0 <= k < 7 ==> report_kind_count(pre, k) <= total_files(pre),
                    t.transferred == report_kind_count(pre, 0) + kind_count(g.files@.subrange(0, j as int), 0),
                    t.reflinked == report_kind_count(pre, 1) + kind_count(g.files@.subrange(0, j as int), 1),
                    t.skipped_identical == report_kind_count(pre, 2) + kind_count(g.files@.subrange(0, j as int), 2),
                    t.skipped_quick_match == report_kind_count(pre, 3) + kind_count(g.files@.subrange(0, j as int), 3),
                    t.suffixed == report_kind_count(pre, 4) + kind_count(g.files@.subrange(0, j as int), 4),
                    t.skipped_quarantine_disabled == report_kind_count(pre, 5) + kind_count(g.files@.subrange(0, j as int), 5),
                    t.failed == report_kind_count(pre, 6) + kind_count(g.files@.subrange(0, j as int), 6),
                    t.deleted_groups == deleted_count(next),
                decreases g.files@.len() - j,
            {
                proof {
                    assert forall|k: int| 0 <= k < 7 implies report_kind_count(pre, k) <= total_files(pre) by {
                        lemma_report_count_bound(pre, k);
                    }
                    assert forall|k: int| 0 <= k < 7 implies kind_count(g.files@.subrange(0, j as int), k) <= j by {
                        lemma_kind_count_bound(g.files@.subrange(0, j as int), k);
                    }
                    assert(g.files@.subrange(0, j + 1).drop_last() =~= g.files@.subrange(0, j as int));
                    assert(report_kind_count(pre, 0) <= total_files(pre));
                    assert(report_kind_count(pre, 1) <= total_files(pre));
                    assert(report_kind_count(pre, 2) <= total_files(pre));
                    assert(report_kind_count(pre, 3) <= total_files(pre));
                    assert(report_kind_count(pre, 4) <= total_files(pre));
                    assert(report_kind_count(pre, 5) <= total_files(pre));
                    assert(report_kind_count(pre, 6) <= total_files(pre));
                }
                t.count(&g.files[j].outcome);
                j += 1;
            }
            assert(g.files@.subrange(0, g.files@.len() as int) =~= g.files@);
            i += 1;
        }
        assert(gs.subrange(0, gs.len() as int) =~= gs);
        t
    }
}

/// The closing line of a results report. The deleted-groups clause
/// appears only when deletion was in effect; collision renames and
/// files left on source are folded in only under `Detail::Summary`
/// (otherwise they are listed per file).
pub open spec fn summary_line_of(t: ResultsTally, delete_source: bool, detail: Detail) -> Seq<char> {
    summary_counts(t)
        + (if delete_source { ", "@ + plural_of(t.deleted_groups as nat, "group"@) + " deleted from source"@ } else { Seq::empty() })
        + (if detail == Detail::Summary && t.suffixed > 0 { ", "@ + dec(t.suffixed as nat) + " renamed (collision)"@ } else { Seq::empty() })
        + (if detail == Detail::Summary && t.skipped_quarantine_disabled > 0 {
            ", "@ + dec(t.skipped_quarantine_disabled as nat) + " left on source (quarantine copying disabled)"@
        } else {
            Seq::empty()
        })
}

/// The counts every summary line starts with.
pub open spec fn summary_counts(t: ResultsTally) -> Seq<char> {
    "Summary: "@ + dec(t.transferred as nat) + " transferred, "@ + dec(t.reflinked as nat) + " reflinked, "@
        + dec(t.skipped_identical as nat) + " skipped (already imported), "@ + dec(t.skipped_quick_match as nat)
        + " quick-matched, "@ + dec(t.failed as nat) + " FAILED"@
}

fn push_summary_counts(s: &mut String, t: &ResultsTally)
    ensures
        final(s)@ == old(s)@ + summary_counts(*t),
{
    let ghost s0 = s@;
    push_str(s, "Summary: ");
    push_dec(s, t.transferred as u128);
    push_str(s, " transferred, ");
    push_dec(s, t.reflinked as u128);
    push_str(s, " reflinked, ");
    push_dec(s, t.skipped_identical as u128);
    push_str(s, " skipped (already imported), ");
    push_dec(s, t.skipped_quick_match as u128);
    push_str(s, " quick-matched, ");
    push_dec(s, t.failed as u128);
    push_str(s, " FAILED");
    assert(s@ =~= s0 + summary_counts(*t));
}

impl ResultsTally {
    pub fn summary_line(&self, delete_source_in_effect: bool, detail: Detail) -> (s: String)
        ensures
            s@ == summary_line_of(*self, delete_source_in_effect, detail),
    {
        let mut s = String::new();
        push_summary_counts(&mut s, self);
        let ghost base = s@;
        if delete_source_in_effect {
            push_str(&mut s, ", ");
            let p = plural(self.deleted_groups, "group");
            push_str(&mut s, p.as_str());
            push_str(&mut s, " deleted from source");
        }
        let ghost with_deleted = s@;
        if detail == Detail::Summary && self.suffixed > 0 {
            push_str(&mut s, ", ");
            push_dec(&mut s, self.suffixed as u128);
            push_str(&mut s, " renamed (collision)");
        }
        let ghost with_renamed = s@;
        if detail == Detail::Summary && self.skipped_quarantine_disabled > 0 {
            push_str(&mut s, ", ");
            push_dec(&mut s, self.skipped_quarantine_disabled as u128);
            push_str(&mut s, " left on source (quarantine copying disabled)");
        }
        assert(with_deleted =~= summary_counts(*self)
            + (if delete_source_in_effect { ", "@ + plural_of(self.deleted_groups as nat, "group"@) + " deleted from source"@ } else { Seq::empty() }));
        assert(with_renamed =~= with_deleted
            + (if detail == Detail::Summary && self.suffixed > 0 { ", "@ + dec(self.suffixed as nat) + " renamed (collision)"@ } else { Seq::empty() }));
        assert(s@ =~= summary_line_of(*self, delete_source_in_effect, detail));
        s
    }
}

/// The name a file goes by in an outcome line: its full source path,
/// or just its final component.
pub open spec fn shown_name(src: Seq<char>, include_name: bool) -> Seq<char> {
    if include_name { src } else { display_name_of(src) }
}

/// One file's outcome line (without the newline).
pub open spec fn outcome_line_of(f: FileResult, include_name: bool) -> Seq<char> {
    let name = shown_name(f.src@, include_name);
    match f.outcome {
        TransferOutcome::Transferred => "transferred: "@ + name,
        TransferOutcome::Reflinked => "reflinked (instant): "@ + name,
        TransferOutcome::SkippedIdentical => "skipped (already imported): "@ + name,
        TransferOutcome::SkippedQuickMatch => "skipped (quick-matched, not verified): "@ + name,
        TransferOutcome::Suffixed(dest) => "stored as "@ + dest@ + " (destination name collision): "@ + name,
        TransferOutcome::SkippedQuarantineDisabled => "left on source (quarantine copy disabled): "@ + name,
        TransferOutcome::Failed(m) => "FAILED: "@ + name + " ("@ + m@ + ")"@,
    }
}

pub fn file_outcome_line(file: &FileResult, include_name: bool) -> (s: String)
    ensures
        s@ == outcome_line_of(*file, include_name),
{
    let name = if include_name { file.src.clone() } else { file_display_name(file.src.as_str()) };
    assert(name@ == shown_name(file.src@, include_name));
    let mut s = String::new();
    match &file.outcome {
        TransferOutcome::Transferred => push_str(&mut s, "transferred: "),
        TransferOutcome::Reflinked => push_str(&mut s, "reflinked (instant): "),
        TransferOutcome::SkippedIdentical => push_str(&mut s, "skipped (already imported): "),
        TransferOutcome::SkippedQuickMatch => push_str(&mut s, "skipped (quick-matched, not verified): "),
        TransferOutcome::Suffixed(dest) => {
            push_str(&mut s, "stored as ");
            push_str(&mut s, dest.as_str());
            push_str(&mut s, " (destination name collision): ");
        },
        TransferOutcome::SkippedQuarantineDisabled => push_str(&mut s, "left on source (quarantine copy disabled): "),
        TransferOutcome::Failed(_) => push_str(&mut s, "FAILED: "),
    }
    push_str(&mut s, name.as_str());
    if let TransferOutcome::Failed(m) = &file.outcome {
        push_str(&mut s, " (");
        push_str(&mut s, m.as_str());
        push_str(&mut s, ")");
    }
    assert(s@ =~= outcome_line_of(*file, include_name));
    s
}

/// The first failed file of `files`, if any.
pub open spec fn first_failed(files: Seq<FileResult>) -> Option<FileResult>
    decreases files.len(),
{
    if files.len() == 0 {
        None
    } else if files[0].outcome matches TransferOutcome::Failed(_) {
        Some(files[0])
    } else {
        first_failed(files.drop_first())
    }
}

/// Whether some file of `files` ended with an outcome of kind `k`.
pub open spec fn has_kind(files: Seq<FileResult>, k: int) -> bool {
    exists|i: int| 0 <= i < files.len() && outcome_kind((#[trigger] files[i]).outcome) == k
}

/// Why a group was not cleaned off its source although deletion was in
/// effect — the same eligibility rules the deletion step applies — or
/// nothing for a group that never had files to delete.
pub open spec fn undeleted_reason_of(g: GroupResult) -> Option<Seq<char>> {
    if g.files@.len() == 0 {
        None
    } else {
        match first_failed(g.files@) {
            Some(f) => Some(display_name_of(f.src@) + " failed to transfer"@),
            None => if has_kind(g.files@, 3) {
                Some("quick-matched files were not content-verified"@)
            } else if has_kind(g.files@, 5) {
                Some("quarantine copying is disabled"@)
            } else if g.sidecar_outcome matches Some(TransferOutcome::Failed(_)) {
                Some("its sidecar failed to write"@)
            } else {
                None
            },
        }
    }
}

fn find_kind(files: &Vec<FileResult>, k: u8) -> (b: bool)
    ensures
        b == has_kind(files@, k as int),
{
    let mut i: usize = 0;
    while i < files.len()
        invariant
            i <= files@.len(),
            forall|j: int| 0 <= j < i ==> outcome_kind((#[trigger] files@[j]).outcome) != k,
        decreases files@.len() - i,
    {
        let kind: u8 = match &files[i].outcome {
            TransferOutcome::Transferred => 0,
            TransferOutcome::Reflinked => 1,
            TransferOutcome::SkippedIdentical => 2,
            TransferOutcome::SkippedQuickMatch => 3,
            TransferOutcome::Suffixed(_) => 4,
            TransferOutcome::SkippedQuarantineDisabled => 5,
            TransferOutcome::Failed(_) => 6,
        };
        if kind == k {
            return true;
        }
        i += 1;
    }
    false
}

pub fn undeleted_reason(group: &GroupResult) -> (r: Option<String>)
    ensures
        opt_view(r) == undeleted_reason_of(*group),
{
    if group.files.len() == 0 {
        return None;
    }
    let mut i: usize = 0;
    assert(group.files@.subrange(0, group.files@.len() as int) =~= group.files@);
    while i < group.files.len()
        invariant
            i <= group.files@.len(),
            first_failed(group.files@) == first_failed(group.files@.subrange(i as int, group.files@.len() as int)),
        decreases group.files@.len() - i,
    {
        let ghost rest = group.files@.subrange(i as int, group.files@.len() as int);
        assert(rest[0] == group.files@[i as int]);
        if let TransferOutcome::Failed(_) = &group.files[i].outcome {
            let mut s = file_display_name(group.files[i].src.as_str());
            push_str(&mut s, " failed to transfer");
            return Some(s);
        }
        assert(rest.drop_first() =~= group.files@.subrange(i + 1, group.files@.len() as int));
        i += 1;
    }
    if find_kind(&group.files, 3) {
        Some(owned("quick-matched files were not content-verified"))
    } else if find_kind(&group.files, 5) {
        Some(owned("quarantine copying is disabled"))
    } else if let Some(TransferOutcome::Failed(_)) = &group.sidecar_outcome {
        Some(owned("its sidecar failed to write"))
    } else {
        None
    }
}

/// Whether a file's outcome is listed without `-v`: failures always,
/// collision renames and files left on source unless only the summary
/// is wanted.
pub open spec fn is_notable(o: TransferOutcome, detail: Detail) -> bool {
    match o {
        TransferOutcome::Failed(_) => true,
        TransferOutcome::Suffixed(_) | TransferOutcome::SkippedQuarantineDisabled => detail != Detail::Summary,
        _ => false,
    }
}

/// The notable files' lines, in order.
pub open spec fn notable_lines(files: Seq<FileResult>, detail: Detail) -> Seq<char>
    decreases files.len(),
{
    if files.len() == 0 {
        Seq::empty()
    } else {
        notable_lines(files.drop_last(), detail) + if is_notable(files.last().outcome, detail) {
            outcome_line_of(files.last(), true) + "\n"@
        } else {
            Seq::empty()
        }
    }
}

/// Default-mode text for one group: its notable files, a failed
/// sidecar, and — when asked to name undeleted groups — why it stayed
/// on the source.
pub open spec fn notable_block(g: GroupResult, name_undeleted: bool, detail: Detail) -> Seq<char> {
    notable_lines(g.files@, detail) + notable_tail(g, name_undeleted)
}

/// Every file's line, indented.
pub open spec fn verbose_lines(files: Seq<FileResult>) -> Seq<char>
    decreases files.len(),
{
    if files.len() == 0 {
        Seq::empty()
    } else {
        verbose_lines(files.drop_last()) + "  "@ + outcome_line_of(files.last(), false) + "\n"@
    }
}

/// `-v` text for one group: a header naming its destination, every
/// file's outcome beneath it, the sidecar's fate and whether the group
/// was deleted from its source.
pub open spec fn verbose_block(g: GroupResult) -> Seq<char> {
    g.group_name@
        + (match g.destination { Some(d) => " -> "@ + d@, None => Seq::empty() })
        + "\n"@
        + verbose_lines(g.files@)
        + verbose_tail(g)
}

/// The sidecar and deletion lines that close a verbose group.
pub open spec fn verbose_tail(g: GroupResult) -> Seq<char> {
    (match g.sidecar_outcome {
        Some(TransferOutcome::Transferred) => "  sidecar written\n"@,
        Some(TransferOutcome::Failed(m)) => "  SIDECAR FAILED: "@ + m@ + "\n"@,
        _ => Seq::empty(),
    }) + (if g.deleted_from_source { "  deleted from source\n"@ } else { Seq::empty() })
}

fn push_verbose_tail(out: &mut String, group: &GroupResult)
    ensures
        final(out)@ == old(out)@ + verbose_tail(*group),
{
    let ghost start = out@;
    match &group.sidecar_outcome {
        Some(TransferOutcome::Transferred) => push_str(out, "  sidecar written\n"),
        Some(TransferOutcome::Failed(m)) => {
            push_str(out, "  SIDECAR FAILED: ");
            push_str(out, m.as_str());
            push_str(out, "\n");
        },
        _ => {},
    }
    if group.deleted_from_source {
        push_str(out, "  deleted from source\n");
    }
    assert(out@ =~= start + verbose_tail(*group));
}

fn push_notable_lines(out: &mut String, files: &Vec<FileResult>, detail: Detail)
    ensures
        final(out)@ == old(out)@ + notable_lines(files@, detail),
{
    let ghost start = out@;
    let mut i: usize = 0;
    while i < files.len()
        invariant
            i <= files@.len(),
            out@ == start + notable_lines(files@.subrange(0, i as int), detail),
        decreases files@.len() - i,
    {
        let file = &files[i];
        assert(files@.subrange(0, i + 1).drop_last() =~= files@.subrange(0, i as int));
        let notable = match &file.outcome {
            TransferOutcome::Failed(_) => true,
            TransferOutcome::Suffixed(_) | TransferOutcome::SkippedQuarantineDisabled => detail != Detail::Summary,
            _ => false,
        };
        if notable {
            let line = file_outcome_line(file, true);
            push_str(out, line.as_str());
            push_str(out, "\n");
        }
        assert(out@ =~= start + notable_lines(files@.subrange(0, i + 1), detail));
        i += 1;
    }
    assert(files@.subrange(0, files@.len() as int) =~= files@);
}

/// The lines after a group's notable files: a failed sidecar, and why
/// the group stayed on its source when asked to name that.
pub open spec fn notable_tail(g: GroupResult, name_undeleted: bool) -> Seq<char> {
    (match g.sidecar_outcome {
        Some(TransferOutcome::Failed(m)) => "SIDECAR FAILED: "@ + g.group_name@ + " ("@ + m@ + ")\n"@,
        _ => Seq::empty(),
    }) + (if name_undeleted && !g.deleted_from_source {
        match undeleted_reason_of(g) {
            Some(r) => g.group_name@ + ": not deleted from source ("@ + r + ")\n"@,
            None => Seq::empty(),
        }
    } else {
        Seq::empty()
    })
}

fn push_notable_tail(out: &mut String, group: &GroupResult, name_undeleted_groups: bool)
    ensures
        final(out)@ == old(out)@ + notable_tail(*group, name_undeleted_groups),
{
    let ghost start = out@;
    if let Some(TransferOutcome::Failed(m)) = &group.sidecar_outcome {
        push_str(out, "SIDECAR FAILED: ");
        push_str(out, group.group_name.as_str());
        push_str(out, " (");
        push_str(out, m.as_str());
        push_str(out, ")\n");
    }
    if name_undeleted_groups && !group.deleted_from_source {
        if let Some(reason) = undeleted_reason(group) {
            push_str(out, group.group_name.as_str());
            push_str(out, ": not deleted from source (");
            push_str(out, reason.as_str());
            push_str(out, ")\n");
        }
    }
    assert(out@ =~= start + notable_tail(*group, name_undeleted_groups));
}

pub fn render_group_notable(out: &mut String, group: &GroupResult, name_undeleted_groups: bool, detail: Detail)
    ensures
        final(out)@ == old(out)@ + notable_block(*group, name_undeleted_groups, detail),
{
    let ghost start = out@;
    push_notable_lines(out, &group.files, detail);
    push_notable_tail(out, group, name_undeleted_groups);
    assert(out@ =~= start + notable_block(*group, name_undeleted_groups, detail));
}

pub fn render_group_verbose(out: &mut String, group: &GroupResult)
    ensures
        final(out)@ == old(out)@ + verbose_block(*group),
{
    let ghost start = out@;
    push_str(out, group.group_name.as_str());
    if let Some(dest) = &group.destination {
        push_str(out, " -> ");
        push_str(out, dest.as_str());
    }
    push_str(out, "\n");
    let ghost header = out@;
    let mut i: usize = 0;
    while i < group.files.len()
        invariant
            i <= group.files@.len(),
            out@ == header + verbose_lines(group.files@.subrange(0, i as int)),
        decreases group.files@.len() - i,
    {
        assert(group.files@.subrange(0, i + 1).drop_last() =~= group.files@.subrange(0, i as int));
        let line = file_outcome_line(&group.files[i], false);
        push_str(out, "  ");
        push_str(out, line.as_str());
        push_str(out, "\n");
        assert(out@ =~= header + verbose_lines(group.files@.subrange(0, i + 1)));
        i += 1;
    }
    assert(group.files@.subrange(0, group.files@.len() as int) =~= group.files@);
    push_verbose_tail(out, group);
    assert(out@ =~= start + verbose_block(*group));
}

/// The per-group text of a results report.
pub open spec fn groups_text(groups: Seq<GroupResult>, name_undeleted: bool, detail: Detail) -> Seq<char>
    decreases groups.len(),
{
    if groups.len() == 0 {
        Seq::empty()
    } else {
        groups_text(groups.drop_last(), name_undeleted, detail) + if detail == Detail::Verbose {
            verbose_block(groups.last())
        } else {
            notable_block(groups.last(), name_undeleted, detail)
        }
    }
}

/// The text of a results report: each group's lines (every file under
/// `-v`, only notable ones otherwise, naming groups left undeleted when
/// deletion ran per group), the run-wide reason deletion was skipped,
/// and the summary line.
pub open spec fn results_text(r: ExecuteReport, detail: Detail) -> Seq<char> {
    groups_text(r.groups@, r.delete_source && r.deletion_skipped_reason is None, detail)
        + (match r.deletion_skipped_reason { Some(reason) => reason@ + "\n"@, None => Seq::empty() })
        + summary_line_of(ResultsTally::of(r.groups@), r.delete_source, detail) + "\n"@
}

/// Renders the outcome of executing a plan. Default output shows only
/// notable per-file outcomes and — for any group left undeleted while
/// deletion was in effect — a line naming it with the reason; `-v`
/// lists every file under its group's destination. A summary line
/// always closes the output.
pub fn render_results(report: &ExecuteReport, detail: Detail) -> (s: String)
    requires
        total_files(report.groups@) <= usize::MAX,
    ensures
        s@ == results_text(*report, detail),
{
    let tally = ResultsTally::from_report(report);
    let mut out = String::new();
    let name_undeleted_groups = report.delete_source && report.deletion_skipped_reason.is_none();
    let mut i: usize = 0;
    while i < report.groups.len()
        invariant
            i <= report.groups@.len(),
            name_undeleted_groups == (report.delete_source && report.deletion_skipped_reason is None),
            out@ == groups_text(report.groups@.subrange(0, i as int), name_undeleted_groups, detail),
        decreases report.groups@.len() - i,
    {
        assert(report.groups@.subrange(0, i + 1).drop_last() =~= report.groups@.subrange(0, i as int));
        if detail == Detail::Verbose {
            render_group_verbose(&mut out, &report.groups[i]);
        } else {
            render_group_notable(&mut out, &report.groups[i], name_undeleted_groups, detail);
        }
        i += 1;
    }
    assert(report.groups@.subrange(0, report.groups@.len() as int) =~= report.groups@);
    if let Some(reason) = &report.deletion_skipped_reason {
        push_str(&mut out, reason.as_str());
        push_str(&mut out, "\n");
    }
    let line = tally.summary_line(report.delete_source, detail);
    push_str(&mut out, line.as_str());
    push_str(&mut out, "\n");
    assert(out@ =~= results_text(*report, detail));
    out
}

#[derive(Debug, Clone, PartialEq, Eq)]
pub struct FileResultJson {
    pub src: String,
    pub outcome: String,
    pub dest: Option<String>,
    pub error: Option<String>,
}

#[derive(Debug, Clone, PartialEq, Eq)]
pub struct GroupResultJson {
    pub group: String,
    pub verdict: String,
    pub files: Vec<FileResultJson>,
    pub sidecar_outcome: Option<String>,
    pub sidecar_error: Option<String>,
    pub deleted_from_source: bool,
}

/// Per-outcome counts of a results report; reflinked files and each
/// kind of skip are counted apart.
#[derive(Debug, Clone, Copy, PartialEq, Eq, Structural)]
pub struct ResultsSummaryJson {
    pub transferred: usize,
    pub reflinked: usize,
    pub skipped_identical: usize,
    pub skipped_quick_match: usize,
    pub suffixed: usize,
    pub skipped_quarantine_disabled: usize,
    pub failed: usize,
    pub deleted_groups: usize,
}

#[derive(Debug, Clone, PartialEq, Eq)]
pub struct ResultsJson {
    pub groups: Vec<GroupResultJson>,
    pub deletion_skipped_reason: Option<String>,
    pub summary: ResultsSummaryJson,
}

/// An outcome's JSON status word, the destination of a suffixed file
/// and the message of a failed one.
pub open spec fn outcome_json_of(o: TransferOutcome) -> (Seq<char>, Option<Seq<char>>, Option<Seq<char>>) {
    match o {
        TransferOutcome::Transferred => ("transferred"@, None, None),
        TransferOutcome::Reflinked => ("reflinked"@, None, None),
        TransferOutcome::SkippedIdentical => ("skipped_identical"@, None, None),
        TransferOutcome::SkippedQuickMatch => ("skipped_quick_match"@, None, None),
        TransferOutcome::SkippedQuarantineDisabled => ("skipped_quarantine_disabled"@, None, None),
        TransferOutcome::Suffixed(dest) => ("suffixed"@, Some(dest@), None),
        TransferOutcome::Failed(m) => ("failed"@, None, Some(m@)),
    }
}

pub fn outcome_json(outcome: &TransferOutcome) -> (r: (String, Option<String>, Option<String>))
    ensures
        (r.0@, opt_view(r.1), opt_view(r.2)) == outcome_json_of(*outcome),
{
    match outcome {
        TransferOutcome::Transferred => (owned("transferred"), None, None),
        TransferOutcome::Reflinked => (owned("reflinked"), None, None),
        TransferOutcome::SkippedIdentical => (owned("skipped_identical"), None, None),
        TransferOutcome::SkippedQuickMatch => (owned("skipped_quick_match"), None, None),
        TransferOutcome::SkippedQuarantineDisabled => (owned("skipped_quarantine_disabled"), None, None),
        TransferOutcome::Suffixed(dest) => (owned("suffixed"), Some(dest.clone()), None),
        TransferOutcome::Failed(m) => (owned("failed"), None, Some(m.clone())),
    }
}

/// A verdict's JSON word.
pub open spec fn verdict_word(v: Verdict) -> Seq<char> {
    match v {
        Verdict::Keep => "keep"@,
        Verdict::Quarantine => "quarantine"@,
        Verdict::Ignore(_) => "ignore"@,
    }
}

pub fn verdict_json(v: &Verdict) -> (s: String)
    ensures
        s@ == verdict_word(*v),
{
    match v {
        Verdict::Keep => owned("keep"),
        Verdict::Quarantine => owned("quarantine"),
        Verdict::Ignore(_) => owned("ignore"),
    }
}

/// The JSON view of one file's result.
pub open spec fn file_json_matches(j: FileResultJson, f: FileResult) -> bool {
    let (outcome, dest, error) = outcome_json_of(f.outcome);
    j.src@ == f.src@ && j.outcome@ == outcome && opt_view(j.dest) == dest && opt_view(j.error) == error
}

/// The JSON view of one group's result: a written sidecar reads
/// `transferred`, a failed one `failed` with its message; any other
/// (or no) sidecar outcome is absent.
pub open spec fn group_json_matches(j: GroupResultJson, g: GroupResult) -> bool {
    &&& j.group@ == g.group_name@
    &&& j.verdict@ == verdict_word(g.verdict)
    &&& j.files@.len() == g.files@.len()
    &&& forall|i: int| 0 <= i < g.files@.len() ==> file_json_matches(#[trigger] j.files@[i], g.files@[i])
    &&& match g.sidecar_outcome {
        Some(TransferOutcome::Transferred) => opt_view(j.sidecar_outcome) == Some("transferred"@) && j.sidecar_error is None,
        Some(TransferOutcome::Failed(m)) => opt_view(j.sidecar_outcome) == Some("failed"@) && opt_view(j.sidecar_error) == Some(m@),
        _ => j.sidecar_outcome is None && j.sidecar_error is None,
    }
    &&& j.deleted_from_source == g.deleted_from_source
}

/// The summary counts of a tally.
pub open spec fn summary_json_of(t: ResultsTally) -> ResultsSummaryJson {
    ResultsSummaryJson {
        transferred: t.transferred,
        reflinked: t.reflinked,
        skipped_identical: t.skipped_identical,
        skipped_quick_match: t.skipped_quick_match,
        suffixed: t.suffixed,
        skipped_quarantine_disabled: t.skipped_quarantine_disabled,
        failed: t.failed,
        deleted_groups: t.deleted_groups,
    }
}

fn group_json(group: &GroupResult) -> (j: GroupResultJson)
    ensures
        group_json_matches(j, *group),
{
    let mut files: Vec<FileResultJson> = Vec::new();
    let mut i: usize = 0;
    while i < group.files.len()
        invariant
            i <= group.files@.len(),
            files@.len() == i,
            forall|k: int| 0 <= k < i ==> file_json_matches(#[trigger] files@[k], group.files@[k]),
        decreases group.files@.len() - i,
    {
        let f = &group.files[i];
        let (outcome, dest, error) = outcome_json(&f.outcome);
        files.push(FileResultJson { src: f.src.clone(), outcome, dest, error });
        i += 1;
    }
    let (sidecar_outcome, sidecar_error) = match &group.sidecar_outcome {
        Some(TransferOutcome::Transferred) => (Some(owned("transferred")), None),
        Some(TransferOutcome::Failed(m)) => (Some(owned("failed")), Some(m.clone())),
        _ => (None, None),
    };
    GroupResultJson {
        group: group.group_name.clone(),
        verdict: verdict_json(&group.verdict),
        files,
        sidecar_outcome,
        sidecar_error,
        deleted_from_source: group.deleted_from_source,
    }
}

/// Builds the JSON view of an execution report. The summary comes from
/// the same tally the human renderer uses, so the two never disagree.
pub fn results_to_json(report: &ExecuteReport) -> (j: ResultsJson)
    requires
        total_files(report.groups@) <= usize::MAX,
    ensures
        j.groups@.len() == report.groups@.len(),
        forall|i: int| 0 <= i < report.groups@.len() ==> group_json_matches(#[trigger] j.groups@[i], report.groups@[i]),
        opt_view(j.deletion_skipped_reason) == opt_view(report.deletion_skipped_reason),
        j.summary == summary_json_of(ResultsTally::of(report.groups@)),
{
    let tally = ResultsTally::from_report(report);
    let mut groups: Vec<GroupResultJson> = Vec::new();
    let mut i: usize = 0;
    while i < report.groups.len()
        invariant
            i <= report.groups@.len(),
            groups@.len() == i,
            forall|k: int| 0 <= k < i ==> group_json_matches(#[trigger] groups@[k], report.groups@[k]),
        decreases report.groups@.len() - i,
    {
        groups.push(group_json(&report.groups[i]));
        i += 1;
    }
    ResultsJson {
        groups,
        deletion_skipped_reason: report.deletion_skipped_reason.clone(),
        summary: ResultsSummaryJson {
            transferred: tally.transferred,
            reflinked: tally.reflinked,
            skipped_identical: tally.skipped_identical,
            skipped_quick_match: tally.skipped_quick_match,
            suffixed: tally.suffixed,
            skipped_quarantine_disabled: tally.skipped_quarantine_disabled,
            failed: tally.failed,
            deleted_groups: tally.deleted_groups,
        },
    }
}

/// The human report and the JSON report of the same run agree on every
/// count: the human report ends with the summary line built from
/// exactly the counts the JSON summary carries.
pub proof fn lemma_human_summary_matches_json(report: ExecuteReport, detail: Detail)
    ensures
        ({
            let t = ResultsTally::of(report.groups@);
            let j = summary_json_of(t);
            let line = summary_line_of(ResultsTally {
                transferred: j.transferred,
                reflinked: j.reflinked,
                skipped_identical: j.skipped_identical,
                skipped_quick_match: j.skipped_quick_match,
                suffixed: j.suffixed,
                skipped_quarantine_disabled: j.skipped_quarantine_disabled,
                failed: j.failed,
                deleted_groups: j.deleted_groups,
            }, report.delete_source, detail) + "\n"@;
            let text = results_text(report, detail);
            text.len() >= line.len() && text.subrange(text.len() - line.len(), text.len() as int) == line
        }),
{
    let t = ResultsTally::of(report.groups@);
    let line = summary_line_of(t, report.delete_source, detail) + "\n"@;
    let text = results_text(report, detail);
    let prefix = groups_text(report.groups@, report.delete_source && report.deletion_skipped_reason is None, detail)
        + (match report.deletion_skipped_reason { Some(reason) => reason@ + "\n"@, None => Seq::empty() });
    assert(text =~= prefix + line);
    assert(text.subrange(text.len() - line.len(), text.len() as int) =~= line);
}

/// The sizes of `entries` marked (or not) for purging, summed.
pub open spec fn marked_size(entries: Seq<CleanupEntry>, purge: bool) -> nat
    decreases entries.len(),
{
    if entries.len() == 0 {
        0
    } else {
        marked_size(entries.drop_last(), purge) + if entries.last().purge == purge { entries.last().size as nat } else { 0nat }
    }
}

/// How many of `entries` are marked (or not) for purging.
pub open spec fn marked_count(entries: Seq<CleanupEntry>, purge: bool) -> nat
    decreases entries.len(),
{
    if entries.len() == 0 {
        0
    } else {
        marked_count(entries.drop_last(), purge) + if entries.last().purge == purge { 1nat } else { 0nat }
    }
}

/// The sizes of all `entries`, summed.
pub open spec fn entries_size(entries: Seq<CleanupEntry>) -> nat
    decreases entries.len(),
{
    if entries.len() == 0 { 0 } else { entries_size(entries.drop_last()) + entries.last().size as nat }
}

proof fn lemma_marked_bounds(entries: Seq<CleanupEntry>, purge: bool)
    ensures
        marked_size(entries, purge) <= entries_size(entries),
        marked_count(entries, purge) <= entries.len(),
    decreases entries.len(),
{
    if entries.len() > 0 {
        lemma_marked_bounds(entries.drop_last(), purge);
    }
}

proof fn lemma_entries_size_prefix(entries: Seq<CleanupEntry>, i: int)
    requires
        0 <= i <= entries.len(),
    ensures
        entries_size(entries.subrange(0, i)) <= entries_size(entries),
    decreases entries.len() - i,
{
    if i < entries.len() {
        lemma_entries_size_prefix(entries, i + 1);
        assert(entries.subrange(0, i + 1).drop_last() =~= entries.subrange(0, i));
    } else {
        assert(entries.subrange(0, i) =~= entries);
    }
}

/// One purge-plan entry's line.
pub open spec fn cleanup_entry_line(e: CleanupEntry) -> Seq<char> {
    (if e.purge { "[PURGE] "@ } else { "[KEEP] "@ }) + e.name@ + " — "@ + age_text(e.age_seconds as int) + " old, "@
        + size_text(e.size as nat) + "\n"@
}

/// The entry lines of a purge plan.
pub open spec fn cleanup_entry_lines(entries: Seq<CleanupEntry>) -> Seq<char>
    decreases entries.len(),
{
    if entries.len() == 0 {
        Seq::empty()
    } else {
        cleanup_entry_lines(entries.drop_last()) + cleanup_entry_line(entries.last())
    }
}

/// The text of a purge plan: the quarantine root, each entry with its
/// age and size marked kept or purged (omitted under `Summary`), and a
/// summary line; an empty plan says there is nothing to clean.
pub open spec fn cleanup_plan_text(p: CleanupPlan, detail: Detail) -> Seq<char> {
    if p.entries@.len() == 0 {
        "Nothing to clean in "@ + p.quarantine_root@ + "\n"@
    } else {
        "Quarantine: "@ + p.quarantine_root@ + "\n"@
            + (if detail != Detail::Summary { cleanup_entry_lines(p.entries@) } else { Seq::empty() })
            + "Summary: "@ + dec(marked_count(p.entries@, true)) + " to purge ("@ + size_text(marked_size(p.entries@, true))
            + "), "@ + dec(marked_count(p.entries@, false)) + " kept ("@ + size_text(marked_size(p.entries@, false)) + ")\n"@
    }
}

/// Renders a purge plan.
pub fn render_cleanup_plan(plan: &CleanupPlan, detail: Detail) -> (s: String)
    requires
        entries_size(plan.entries@) <= u64::MAX,
    ensures
        s@ == cleanup_plan_text(*plan, detail),
{
    let mut out = String::new();
    if plan.entries.len() == 0 {
        push_str(&mut out, "Nothing to clean in ");
        push_str(&mut out, plan.quarantine_root.as_str());
        push_str(&mut out, "\n");
        assert(out@ =~= cleanup_plan_text(*plan, detail));
        return out;
    }
    push_str(&mut out, "Quarantine: ");
    push_str(&mut out, plan.quarantine_root.as_str());
    push_str(&mut out, "\n");
    let ghost head = out@;
    let ghost es = plan.entries@;
    let mut purge_count: usize = 0;
    let mut purge_size: u64 = 0;
    let mut keep_count: usize = 0;
    let mut keep_size: u64 = 0;
    let mut i: usize = 0;
    while i < plan.entries.len()
        invariant
            i <= es.len(),
            es == plan.entries@,
            entries_size(es) <= u64::MAX,
            purge_count == marked_count(es.subrange(0, i as int), true),
            keep_count == marked_count(es.subrange(0, i as int), false),
            purge_size == marked_size(es.subrange(0, i as int), true),
            keep_size == marked_size(es.subrange(0, i as int), false),
            out@ == head + if detail != Detail::Summary { cleanup_entry_lines(es.subrange(0, i as int)) } else { Seq::empty() },
        decreases es.len() - i,
    {
        let e = &plan.entries[i];
        let ghost pre = es.subrange(0, i as int);
        let ghost next = es.subrange(0, i + 1);
        assert(next.drop_last() =~= pre);
        proof {
            lemma_entries_size_prefix(es, i + 1);
            lemma_marked_bounds(next, true);
            lemma_marked_bounds(next, false);
        }
        if e.purge {
            purge_count += 1;
            purge_size += e.size;
        } else {
            keep_count += 1;
            keep_size += e.size;
        }
        if detail != Detail::Summary {
            let ghost before = out@;
            push_str(&mut out, if e.purge { "[PURGE] " } else { "[KEEP] " });
            push_str(&mut out, e.name.as_str());
            push_str(&mut out, " — ");
            let age = format_age_days(e.age_seconds);
            push_str(&mut out, age.as_str());
            push_str(&mut out, " old, ");
            let size = format_size(e.size);
            push_str(&mut out, size.as_str());
            push_str(&mut out, "\n");
            proof {
                reveal_strlit("[PURGE] ");
                reveal_strlit("[KEEP] ");
            }
            assert(out@ =~= before + cleanup_entry_line(*e));
        }
        assert(out@ =~= head + if detail != Detail::Summary { cleanup_entry_lines(next) } else { Seq::empty() });
        i += 1;
    }
    assert(es.subrange(0, es.len() as int) =~= es);
    let ghost body = out@;
    push_str(&mut out, "Summary: ");
    push_dec(&mut out, purge_count as u128);
    push_str(&mut out, " to purge (");
    let ps = format_size(purge_size);
    push_str(&mut out, ps.as_str());
    push_str(&mut out, "), ");
    push_dec(&mut out, keep_count as u128);
    push_str(&mut out, " kept (");
    let ks = format_size(keep_size);
    push_str(&mut out, ks.as_str());
    push_str(&mut out, ")\n");
    assert(out@ =~= cleanup_plan_text(*plan, detail));
    out
}

/// The sizes of the results deleted (or not), summed.
pub open spec fn deleted_size(results: Seq<CleanupResult>) -> nat
    decreases results.len(),
{
    if results.len() == 0 {
        0
    } else {
        deleted_size(results.drop_last()) + if results.last().error is None { results.last().size as nat } else { 0nat }
    }
}

/// How many results carry no error.
pub open spec fn deleted_results(results: Seq<CleanupResult>) -> nat
    decreases results.len(),
{
    if results.len() == 0 {
        0
    } else {
        deleted_results(results.drop_last()) + if results.last().error is None { 1nat } else { 0nat }
    }
}

/// The sizes of all results, summed.
pub open spec fn results_size(results: Seq<CleanupResult>) -> nat
    decreases results.len(),
{
    if results.len() == 0 { 0 } else { results_size(results.drop_last()) + results.last().size as nat }
}

/// One result's line: its deletion (listed unless only the summary is
/// wanted) or its failure (always listed).
pub open spec fn cleanup_result_line(r: CleanupResult, detail: Detail) -> Seq<char> {
    match r.error {
        None => if detail != Detail::Summary { "deleted: "@ + r.path@ + "\n"@ } else { Seq::empty() },
        Some(m) => "FAILED to delete "@ + r.path@ + ": "@ + m@ + "\n"@,
    }
}

pub open spec fn cleanup_result_lines(results: Seq<CleanupResult>, detail: Detail) -> Seq<char>
    decreases results.len(),
{
    if results.len() == 0 {
        Seq::empty()
    } else {
        cleanup_result_lines(results.drop_last(), detail) + cleanup_result_line(results.last(), detail)
    }
}

/// The text of a cleanup report: each deletion (unless only the summary
/// is wanted) and each failure, then — under `Summary`, when something
/// was deleted — a tally, and the reason the run was aborted, if it was.
pub open spec fn cleanup_report_text(r: CleanupReport, detail: Detail) -> Seq<char> {
    let n = deleted_results(r.results@);
    cleanup_result_lines(r.results@, detail)
        + (if detail == Detail::Summary && n > 0 {
            "Summary: "@ + dec(n) + " "@ + (if n == 1 { "entry"@ } else { "entries"@ }) + " deleted ("@
                + size_text(deleted_size(r.results@)) + ")\n"@
        } else {
            Seq::empty()
        })
        + match r.aborted_reason { Some(m) => m@ + "\n"@, None => Seq::empty() }
}

proof fn lemma_deleted_bounds(results: Seq<CleanupResult>)
    ensures
        deleted_size(results) <= results_size(results),
        deleted_results(results) <= results.len(),
    decreases results.len(),
{
    if results.len() > 0 {
        lemma_deleted_bounds(results.drop_last());
    }
}

proof fn lemma_results_size_prefix(results: Seq<CleanupResult>, i: int)
    requires
        0 <= i <= results.len(),
    ensures
        results_size(results.subrange(0, i)) <= results_size(results),
    decreases results.len() - i,
{
    if i < results.len() {
        lemma_results_size_prefix(results, i + 1);
        assert(results.subrange(0, i + 1).drop_last() =~= results.subrange(0, i));
    } else {
        assert(results.subrange(0, i) =~= results);
    }
}

/// Renders the outcome of executing a cleanup plan.
pub fn render_cleanup_report(report: &CleanupReport, detail: Detail) -> (s: String)
    requires
        results_size(report.results@) <= u64::MAX,
    ensures
        s@ == cleanup_report_text(*report, detail),
{
    let ghost rs = report.results@;
    let mut out = String::new();
    let mut deleted_count: usize = 0;
    let mut total: u64 = 0;
    let mut i: usize = 0;
    while i < report.results.len()
        invariant
            i <= rs.len(),
            rs == report.results@,
            results_size(rs) <= u64::MAX,
            deleted_count == deleted_results(rs.subrange(0, i as int)),
            total == deleted_size(rs.subrange(0, i as int)),
            out@ == cleanup_result_lines(rs.subrange(0, i as int), detail),
        decreases rs.len() - i,
    {
        let r = &report.results[i];
        let ghost next = rs.subrange(0, i + 1);
        assert(next.drop_last() =~= rs.subrange(0, i as int));
        proof {
            lemma_results_size_prefix(rs, i + 1);
            lemma_deleted_bounds(next);
        }
        let ghost before = out@;
        match &r.error {
            None => {
                deleted_count += 1;
                total += r.size;
                if detail != Detail::Summary {
                    push_str(&mut out, "deleted: ");
                    push_str(&mut out, r.path.as_str());
                    push_str(&mut out, "\n");
                }
            },
            Some(m) => {
                push_str(&mut out, "FAILED to delete ");
                push_str(&mut out, r.path.as_str());
                push_str(&mut out, ": ");
                push_str(&mut out, m.as_str());
                push_str(&mut out, "\n");
            },
        }
        assert(out@ =~= before + cleanup_result_line(*r, detail));
        i += 1;
    }
    assert(rs.subrange(0, rs.len() as int) =~= rs);
    let ghost body = out@;
    if detail == Detail::Summary && deleted_count > 0 {
        push_str(&mut out, "Summary: ");
        push_dec(&mut out, deleted_count as u128);
        push_str(&mut out, " ");
        push_str(&mut out, if deleted_count == 1 { "entry" } else { "entries" });
        push_str(&mut out, " deleted (");
        let sz = format_size(total);
        push_str(&mut out, sz.as_str());
        push_str(&mut out, ")\n");
        proof {
            reveal_strlit("entry");
            reveal_strlit("entries");
        }
    }
    let ghost with_summary = out@;
    if let Some(reason) = &report.aborted_reason {
        push_str(&mut out, reason.as_str());
        push_str(&mut out, "\n");
    }
    assert(out@ =~= cleanup_report_text(*report, detail));
    out
}

#[derive(Debug, Clone, PartialEq, Eq)]
pub struct CleanupEntryJson {
    pub name: String,
    pub path: String,
    pub age_seconds: i64,
    pub size_bytes: u64,
    pub purge: bool,
}

#[derive(Debug, Clone, Copy, PartialEq, Eq, Structural)]
pub struct CleanupSummaryJson {
    pub purge_count: usize,
    pub purge_size_bytes: u64,
    pub keep_count: usize,
    pub keep_size_bytes: u64,
}

#[derive(Debug, Clone, PartialEq, Eq)]
pub struct CleanupPlanJson {
    pub quarantine_root: String,
    pub entries: Vec<CleanupEntryJson>,
    pub summary: CleanupSummaryJson,
}

/// The JSON view of a purge plan: every entry and the purge/keep tallies.
pub fn cleanup_plan_to_json(plan: &CleanupPlan) -> (j: CleanupPlanJson)
    requires
        entries_size(plan.entries@) <= u64::MAX,
    ensures
        j.quarantine_root@ == plan.quarantine_root@,
        j.entries@.len() == plan.entries@.len(),
        forall|i: int| 0 <= i < plan.entries@.len() ==> {
            let (x, e) = (#[trigger] j.entries@[i], plan.entries@[i]);
            x.name@ == e.name@ && x.path@ == e.path@ && x.age_seconds == e.age_seconds && x.size_bytes == e.size
                && x.purge == e.purge
        },
        j.summary.purge_count == marked_count(plan.entries@, true),
        j.summary.purge_size_bytes == marked_size(plan.entries@, true),
        j.summary.keep_count == marked_count(plan.entries@, false),
        j.summary.keep_size_bytes == marked_size(plan.entries@, false),
{
    let ghost es = plan.entries@;
    let mut entries: Vec<CleanupEntryJson> = Vec::new();
    let mut purge_count: usize = 0;
    let mut purge_size: u64 = 0;
    let mut keep_count: usize = 0;
    let mut keep_size: u64 = 0;
    let mut i: usize = 0;
    while i < plan.entries.len()
        invariant
            i <= es.len(),
            es == plan.entries@,
            entries_size(es) <= u64::MAX,
            purge_count == marked_count(es.subrange(0, i as int), true),
            keep_count == marked_count(es.subrange(0, i as int), false),
            purge_size == marked_size(es.subrange(0, i as int), true),
            keep_size == marked_size(es.subrange(0, i as int), false),
            entries@.len() == i,
            forall|k: int| 0 <= k < i ==> {
                let (x, e) = (#[trigger] entries@[k], es[k]);
                x.name@ == e.name@ && x.path@ == e.path@ && x.age_seconds == e.age_seconds && x.size_bytes == e.size
                    && x.purge == e.purge
            },
        decreases es.len() - i,
    {
        let e = &plan.entries[i];
        let ghost next = es.subrange(0, i + 1);
        assert(next.drop_last() =~= es.subrange(0, i as int));
        proof {
            lemma_entries_size_prefix(es, i + 1);
            lemma_marked_bounds(next, true);
            lemma_marked_bounds(next, false);
        }
        if e.purge {
            purge_count += 1;
            purge_size += e.size;
        } else {
            keep_count += 1;
            keep_size += e.size;
        }
        entries.push(CleanupEntryJson {
            name: e.name.clone(),
            path: e.path.clone(),
            age_seconds: e.age_seconds,
            size_bytes: e.size,
            purge: e.purge,
        });
        i += 1;
    }
    assert(es.subrange(0, es.len() as int) =~= es);
    CleanupPlanJson {
        quarantine_root: plan.quarantine_root.clone(),
        entries,
        summary: CleanupSummaryJson {
            purge_count,
            purge_size_bytes: purge_size,
            keep_count,
            keep_size_bytes: keep_size,
        },
    }
}

#[derive(Debug, Clone, PartialEq, Eq)]
pub struct CleanupResultJson {
    pub name: String,
    pub path: String,
    pub deleted: bool,
    pub error: Option<String>,
}

#[derive(Debug, Clone, PartialEq, Eq)]
pub struct CleanupReportJson {
    pub results: Vec<CleanupResultJson>,
    pub aborted_reason: Option<String>,
}

/// The JSON view of a cleanup report.
pub fn cleanup_report_to_json(report: &CleanupReport) -> (j: CleanupReportJson)
    ensures
        j.results@.len() == report.results@.len(),
        forall|i: int| 0 <= i < report.results@.len() ==> {
            let (x, r) = (#[trigger] j.results@[i], report.results@[i]);
            x.name@ == r.name@ && x.path@ == r.path@ && x.deleted == r.deleted && opt_view(x.error) == opt_view(r.error)
        },
        opt_view(j.aborted_reason) == opt_view(report.aborted_reason),
{
    let mut results: Vec<CleanupResultJson> = Vec::new();
    let mut i: usize = 0;
    while i < report.results.len()
        invariant
            i <= report.results@.len(),
            results@.len() == i,
            forall|k: int| 0 <= k < i ==> {
                let (x, r) = (#[trigger] results@[k], report.results@[k]);
                x.name@ == r.name@ && x.path@ == r.path@ && x.deleted == r.deleted && opt_view(x.error) == opt_view(r.error)
            },
        decreases report.results@.len() - i,
    {
        let r = &report.results[i];
        results.push(CleanupResultJson {
            name: r.name.clone(),
            path: r.path.clone(),
            deleted: r.deleted,
            error: r.error.clone(),
        });
        i += 1;
    }
    CleanupReportJson { results, aborted_reason: report.aborted_reason.clone() }
}

/// The times a plan's text shows for one action, as rendered in the
/// configured zone: the short time, the full recorded time, and each
/// marker's time.
#[derive(Debug, Clone)]
pub struct Stamps {
    pub short: String,
    pub full: String,
    pub markers: Vec<String>,
}

/// Which running total a verdict counts toward (kept, quarantined or
/// ignored, in that order).
pub open spec fn verdict_slot(v: Verdict) -> int {
    match v {
        Verdict::Keep => 0,
        Verdict::Quarantine => 1,
        Verdict::Ignore(_) => 2,
    }
}

/// Groups, files and bytes of the actions in slot `k`.
pub open spec fn slot_groups(a: Seq<PlannedAction>, k: int) -> nat
    decreases a.len(),
{
    if a.len() == 0 { 0 } else { slot_groups(a.drop_last(), k) + if verdict_slot(a.last().verdict) == k { 1nat } else { 0nat } }
}

pub open spec fn slot_files(a: Seq<PlannedAction>, k: int) -> nat
    decreases a.len(),
{
    if a.len() == 0 {
        0
    } else {
        slot_files(a.drop_last(), k) + if verdict_slot(a.last().verdict) == k { a.last().group.files@.len() } else { 0nat }
    }
}

pub open spec fn slot_bytes(a: Seq<PlannedAction>, k: int) -> nat
    decreases a.len(),
{
    if a.len() == 0 {
        0
    } else {
        slot_bytes(a.drop_last(), k) + if verdict_slot(a.last().verdict) == k { files_size(a.last().group.files@) } else { 0nat }
    }
}

/// Every action's files and bytes, summed.
pub open spec fn plan_files(a: Seq<PlannedAction>) -> nat
    decreases a.len(),
{
    if a.len() == 0 { 0 } else { plan_files(a.drop_last()) + a.last().group.files@.len() }
}

pub open spec fn plan_bytes(a: Seq<PlannedAction>) -> nat
    decreases a.len(),
{
    if a.len() == 0 { 0 } else { plan_bytes(a.drop_last()) + files_size(a.last().group.files@) }
}

/// One verdict's part of the summary line.
pub open spec fn tally_text(groups: nat, files: nat, bytes: nat, label: Seq<char>) -> Seq<char> {
    dec(groups) + " "@ + label + " ("@ + plural_of(files, "file"@) + ", "@ + size_text(bytes) + ")"@
}

/// The plan's summary: each verdict's groups, files and bytes, and the
/// number of groups in all.
pub open spec fn totals_text(a: Seq<PlannedAction>) -> Seq<char> {
    tally_text(slot_groups(a, 0), slot_files(a, 0), slot_bytes(a, 0), "kept"@) + ", "@
        + tally_text(slot_groups(a, 1), slot_files(a, 1), slot_bytes(a, 1), "quarantined"@) + ", "@
        + tally_text(slot_groups(a, 2), slot_files(a, 2), slot_bytes(a, 2), "ignored"@) + " ("@
        + dec(slot_groups(a, 0) + slot_groups(a, 1) + slot_groups(a, 2)) + " total)"@
}

/// The reason the catch-all group of stray files carries.
pub open spec fn unrecognized_reason() -> Seq<char> {
    "unrecognized file(s)"@
}

/// The first `n` lines of a name listing.
pub open spec fn name_lines(names: Seq<Seq<char>>) -> Seq<char>
    decreases names.len(),
{
    if names.len() == 0 { Seq::empty() } else { name_lines(names.drop_last()) + "  "@ + names.last() + "\n"@ }
}

/// A file-name listing: its count, then the names in text order —
/// capped at five unless verbose, with a line saying how many more there
/// are when the cap truncates.
pub open spec fn name_list_text(names: Seq<Seq<char>>, detail: Detail) -> Seq<char> {
    let sorted = names.sort_by(text_order());
    let shown: nat = if detail == Detail::Verbose || sorted.len() <= 5 { sorted.len() } else { 5 };
    " ("@ + plural_of(sorted.len(), "file"@) + ")\n"@ + name_lines(sorted.subrange(0, shown as int))
        + (if sorted.len() > shown { "  … and "@ + dec((sorted.len() - shown) as nat) + " more (-v to list all)\n"@ } else { Seq::empty() })
}

/// Renders a file-name listing.
pub fn render_file_name_list(out: &mut String, names: Vec<String>, detail: Detail)
    ensures
        final(out)@ == old(out)@ + name_list_text(views(names@), detail),
{
    let ghost start = out@;
    let sorted = sort_texts(&names);
    proof {
        crate::order::lemma_text_order_total();
        views(names@).lemma_sort_by_ensures(text_order());
        assert(views(sorted@).len() == views(names@).len()) by {
            vstd::seq_lib::to_multiset_len(views(names@));
            vstd::seq_lib::to_multiset_len(views(names@).sort_by(text_order()));
        }
    }
    let n = sorted.len();
    push_str(out, " (");
    let p = plural(n, "file");
    push_str(out, p.as_str());
    push_str(out, ")\n");
    let shown = if detail == Detail::Verbose || n <= 5 { n } else { 5 };
    let ghost head = out@;
    let mut i: usize = 0;
    while i < shown
        invariant
            i <= shown <= n == sorted@.len(),
            out@ == head + name_lines(views(sorted@).subrange(0, i as int)),
        decreases shown - i,
    {
        assert(views(sorted@).subrange(0, i + 1).drop_last() =~= views(sorted@).subrange(0, i as int));
        push_str(out, "  ");
        push_str(out, sorted[i].as_str());
        push_str(out, "\n");
        i += 1;
    }
    if n > shown {
        push_str(out, "  … and ");
        push_dec(out, (n - shown) as u128);
        push_str(out, " more (-v to list all)\n");
    }
    assert(out@ =~= start + name_list_text(views(names@), detail));
}

/// The display names of a group's files.
pub open spec fn display_names(files: Seq<MediaFile>) -> Seq<Seq<char>> {
    files.map_values(|f: MediaFile| display_name_of(f.path@))
}

fn file_names(files: &Vec<MediaFile>) -> (r: Vec<String>)
    ensures
        views(r@) == display_names(files@),
{
    let mut r: Vec<String> = Vec::new();
    let mut i: usize = 0;
    while i < files.len()
        invariant
            i <= files@.len(),
            views(r@) =~= display_names(files@.subrange(0, i as int)),
        decreases files@.len() - i,
    {
        let ghost before = views(r@);
        r.push(file_display_name(files[i].path.as_str()));
        assert(views(r@) =~= before.push(display_name_of(files@[i as int].path@)));
        assert(display_names(files@.subrange(0, i + 1)) =~= display_names(files@.subrange(0, i as int)).push(display_name_of(files@[i as int].path@)));
        i += 1;
    }
    assert(files@.subrange(0, files@.len() as int) =~= files@);
    r
}

/// Lists the names of a group of stray files.
pub fn render_unrecognized_files(out: &mut String, files: &Vec<MediaFile>, detail: Detail)
    ensures
        final(out)@ == old(out)@ + name_list_text(display_names(files@), detail),
{
    let names = file_names(files);
    render_file_name_list(out, names, detail);
}

/// The path a plan entry shows: the destination when kept, the
/// quarantine directory when quarantined.
pub open spec fn entry_path(a: PlannedAction) -> Option<String> {
    match a.verdict {
        Verdict::Keep => a.destination,
        Verdict::Quarantine => a.quarantine_path,
        Verdict::Ignore(_) => None,
    }
}

pub open spec fn label_of(v: Verdict) -> Seq<char> {
    match v {
        Verdict::Keep => "KEEP"@,
        Verdict::Quarantine => "QUARANTINE"@,
        Verdict::Ignore(_) => "IGNORE"@,
    }
}

/// Whether an action is the catch-all group of stray files.
pub open spec fn is_unrecognized(v: Verdict) -> bool {
    v matches Verdict::Ignore(r) && r@ == unrecognized_reason()
}

/// The markers of a verbose entry, each with its rendered time.
pub open spec fn marker_lines(markers: Seq<crate::plan::Marker>, times: Seq<String>) -> Seq<char>
    decreases markers.len(),
{
    if markers.len() == 0 {
        Seq::empty()
    } else {
        marker_lines(markers.drop_last(), times) + "  marker at "@ + times[markers.len() - 1]@
            + (match markers.last().label { Some(l) => " ("@ + l@ + ")"@, None => Seq::empty() }) + "\n"@
    }
}

/// One plan entry: `[VERDICT] name`, an ignore reason, then either the
/// stray-file listing or the short time, file count, size and path (or
/// a note that quarantined footage stays on the source); under `-v` the
/// full recorded time (with where it came from), markers and sidecar.
pub open spec fn entry_text(a: PlannedAction, detail: Detail, st: Stamps) -> Seq<char> {
    entry_head(a) + entry_body(a, detail, st) + "\n"@ + entry_verbose(a, detail, st)
}

/// `[VERDICT] name`, with an ignore reason.
pub open spec fn entry_head(a: PlannedAction) -> Seq<char> {
    head_text(a.verdict, a.group.name@)
}

/// `[VERDICT] name`, with an ignore reason.
pub open spec fn head_text(v: Verdict, name: Seq<char>) -> Seq<char> {
    "["@ + label_of(v) + "] "@ + name + (match v { Verdict::Ignore(r) => " — "@ + r@, _ => Seq::empty() })
}

/// The rest of an entry's first line: the stray-file listing, or the
/// time, count, size and path of a kept or quarantined group.
pub open spec fn entry_body(a: PlannedAction, detail: Detail, st: Stamps) -> Seq<char> {
    if is_unrecognized(a.verdict) {
        name_list_text(display_names(a.group.files@), detail)
    } else if !(a.verdict matches Verdict::Ignore(_)) {
        "  "@ + st.short@ + "  "@ + plural_of(a.group.files@.len(), "file"@) + ", "@ + size_text(files_size(a.group.files@))
            + match entry_path(a) {
                Some(p) => " -> "@ + p@,
                None => if (a.verdict matches Verdict::Quarantine) { " (quarantine copy disabled, left on source)"@ } else { Seq::empty() },
            }
    } else {
        Seq::empty()
    }
}

/// The `-v` lines of an entry.
pub open spec fn entry_verbose(a: PlannedAction, detail: Detail, st: Stamps) -> Seq<char> {
    if detail == Detail::Verbose {
        "  recorded at: "@ + st.full@
            + (match a.group.sidecar { Some(sc) => match sc.time_source { Some(t) => " (source: "@ + t@ + ")"@, None => Seq::empty() }, None => Seq::empty() })
            + "\n"@
            + marker_lines(a.group.markers@, st.markers@)
            + (match a.group.sidecar { Some(sc) => "  + sidecar: "@ + sc.filename@ + "\n"@, None => Seq::empty() })
    } else {
        Seq::empty()
    }
}

/// Whether an entry is listed individually: never under `Summary`;
/// quarantined ones only under `-v`.
pub open spec fn entry_listed(a: PlannedAction, detail: Detail) -> bool {
    detail != Detail::Summary && (!(a.verdict matches Verdict::Quarantine) || detail == Detail::Verbose)
}

pub open spec fn entries_text(a: Seq<PlannedAction>, detail: Detail, st: Seq<Stamps>) -> Seq<char>
    decreases a.len(),
{
    if a.len() == 0 {
        Seq::empty()
    } else {
        entries_text(a.drop_last(), detail, st) + if entry_listed(a.last(), detail) {
            entry_text(a.last(), detail, st[a.len() - 1])
        } else {
            Seq::empty()
        }
    }
}

/// The shared quarantine root: the parent of the first quarantined
/// action's quarantine path that has one.
pub open spec fn quarantine_root(a: Seq<PlannedAction>) -> Option<Seq<char>>
    decreases a.len(),
{
    if a.len() == 0 {
        None
    } else if (a[0].verdict matches Verdict::Quarantine) && a[0].quarantine_path is Some
        && parent_of(a[0].quarantine_path->Some_0@) is Some {
        parent_of(a[0].quarantine_path->Some_0@)
    } else {
        quarantine_root(a.drop_first())
    }
}

/// The line standing for every quarantined entry: count, size and the
/// shared quarantine root, or a note that quarantined footage is not
/// copied.
pub open spec fn rollup_text(a: Seq<PlannedAction>) -> Seq<char> {
    "Quarantine: "@ + plural_of(slot_groups(a, 1), "group"@) + ", "@ + size_text(slot_bytes(a, 1))
        + (match quarantine_root(a) {
            Some(root) => " -> "@ + root,
            None => " (quarantine copy disabled)"@,
        })
        + "  (-v to list)\n"@
}

/// The text of a plan: every listed entry, the quarantine roll-up line
/// in the default mode, and the summary line.
pub open spec fn plan_text(p: ImportPlan, detail: Detail, st: Seq<Stamps>) -> Seq<char> {
    let a = p.actions@;
    if a.len() == 0 {
        "No media found; nothing to import.\n"@
    } else {
        entries_text(a, detail, st)
            + (if detail == Detail::Normal && slot_groups(a, 1) > 0 { rollup_text(a) } else { Seq::empty() })
            + "Summary: "@ + totals_text(a) + "\n"@
    }
}

/// One verdict's running totals: groups, files and bytes.
#[derive(Debug, Clone, Copy, PartialEq, Eq, Structural)]
pub struct VerdictTally {
    pub groups: usize,
    pub files: usize,
    pub bytes: u64,
}

impl VerdictTally {
    pub fn add_counts(&mut self, file_count: usize, bytes: u64)
        requires
            old(self).groups < usize::MAX,
            old(self).files + file_count <= usize::MAX,
            old(self).bytes + bytes <= u64::MAX,
        ensures
            final(self).groups == old(self).groups + 1,
            final(self).files == old(self).files + file_count,
            final(self).bytes == old(self).bytes + bytes,
    {
        self.groups += 1;
        self.files += file_count;
        self.bytes += bytes;
    }

    pub fn render(&self, label: &str) -> (s: String)
        ensures
            s@ == tally_text(self.groups as nat, self.files as nat, self.bytes as nat, label@),
    {
        let mut s = String::new();
        push_dec(&mut s, self.groups as u128);
        push_str(&mut s, " ");
        push_str(&mut s, label);
        push_str(&mut s, " (");
        let p = plural(self.files, "file");
        push_str(&mut s, p.as_str());
        push_str(&mut s, ", ");
        let z = format_size(self.bytes);
        push_str(&mut s, z.as_str());
        push_str(&mut s, ")");
        s
    }
}

/// Per-verdict totals of a plan or inventory.
#[derive(Debug, Clone, Copy, PartialEq, Eq, Structural)]
pub struct VerdictTotals {
    pub kept: VerdictTally,
    pub quarantined: VerdictTally,
    pub ignored: VerdictTally,
}

impl VerdictTotals {
    pub open spec fn slot(self, k: int) -> VerdictTally {
        if k == 0 { self.kept } else if k == 1 { self.quarantined } else { self.ignored }
    }

    pub fn record_counts(&mut self, verdict: &Verdict, file_count: usize, bytes: u64)
        requires
            old(self).slot(verdict_slot(*verdict)).groups < usize::MAX,
            old(self).slot(verdict_slot(*verdict)).files + file_count <= usize::MAX,
            old(self).slot(verdict_slot(*verdict)).bytes + bytes <= u64::MAX,
        ensures
            forall|k: int| 0 <= k < 3 && k != verdict_slot(*verdict) ==> #[trigger] final(self).slot(k) == old(self).slot(k),
            final(self).slot(verdict_slot(*verdict)).groups == old(self).slot(verdict_slot(*verdict)).groups + 1,
            final(self).slot(verdict_slot(*verdict)).files == old(self).slot(verdict_slot(*verdict)).files + file_count,
            final(self).slot(verdict_slot(*verdict)).bytes == old(self).slot(verdict_slot(*verdict)).bytes + bytes,
    {
        match verdict {
            Verdict::Keep => self.kept.add_counts(file_count, bytes),
            Verdict::Quarantine => self.quarantined.add_counts(file_count, bytes),
            Verdict::Ignore(_) => self.ignored.add_counts(file_count, bytes),
        }
    }

    pub fn total_groups(&self) -> (n: usize)
        requires
            self.kept.groups + self.quarantined.groups + self.ignored.groups <= usize::MAX,
        ensures
            n == self.kept.groups + self.quarantined.groups + self.ignored.groups,
    {
        self.kept.groups + self.quarantined.groups + self.ignored.groups
    }

    pub fn render(&self) -> (s: String)
        requires
            self.kept.groups + self.quarantined.groups + self.ignored.groups <= usize::MAX,
        ensures
            s@ == tally_text(self.kept.groups as nat, self.kept.files as nat, self.kept.bytes as nat, "kept"@) + ", "@
                + tally_text(self.quarantined.groups as nat, self.quarantined.files as nat, self.quarantined.bytes as nat, "quarantined"@)
                + ", "@ + tally_text(self.ignored.groups as nat, self.ignored.files as nat, self.ignored.bytes as nat, "ignored"@)
                + " ("@ + dec((self.kept.groups + self.quarantined.groups + self.ignored.groups) as nat) + " total)"@,
    {
        let mut s = self.kept.render("kept");
        push_str(&mut s, ", ");
        let q = self.quarantined.render("quarantined");
        push_str(&mut s, q.as_str());
        push_str(&mut s, ", ");
        let i = self.ignored.render("ignored");
        push_str(&mut s, i.as_str());
        push_str(&mut s, " (");
        push_dec(&mut s, self.total_groups() as u128);
        push_str(&mut s, " total)");
        s
    }
}

proof fn lemma_slot_bounds(a: Seq<PlannedAction>, k: int)
    ensures
        slot_groups(a, k) <= a.len(),
        slot_files(a, k) <= plan_files(a),
        slot_bytes(a, k) <= plan_bytes(a),
        slot_groups(a, 0) + slot_groups(a, 1) + slot_groups(a, 2) == a.len(),
    decreases a.len(),
{
    if a.len() > 0 {
        lemma_slot_bounds(a.drop_last(), k);
    }
}

proof fn lemma_plan_prefix(a: Seq<PlannedAction>, i: int)
    requires
        0 <= i <= a.len(),
    ensures
        plan_files(a.subrange(0, i)) <= plan_files(a),
        plan_bytes(a.subrange(0, i)) <= plan_bytes(a),
    decreases a.len() - i,
{
    if i < a.len() {
        lemma_plan_prefix(a, i + 1);
        assert(a.subrange(0, i + 1).drop_last() =~= a.subrange(0, i));
    } else {
        assert(a.subrange(0, i) =~= a);
    }
}

fn push_marker_lines(out: &mut String, markers: &Vec<crate::plan::Marker>, times: &Vec<String>)
    requires
        times@.len() == markers@.len(),
    ensures
        final(out)@ == old(out)@ + marker_lines(markers@, times@),
{
    let ghost start = out@;
    let mut i: usize = 0;
    while i < markers.len()
        invariant
            i <= markers@.len() == times@.len(),
            out@ == start + marker_lines(markers@.subrange(0, i as int), times@),
        decreases markers@.len() - i,
    {
        assert(markers@.subrange(0, i + 1).drop_last() =~= markers@.subrange(0, i as int));
        push_str(out, "  marker at ");
        push_str(out, times[i].as_str());
        if let Some(l) = &markers[i].label {
            push_str(out, " (");
            push_str(out, l.as_str());
            push_str(out, ")");
        }
        push_str(out, "\n");
        assert(out@ =~= start + marker_lines(markers@.subrange(0, i + 1), times@));
        i += 1;
    }
    assert(markers@.subrange(0, markers@.len() as int) =~= markers@);
}

fn is_unrecognized_verdict(v: &Verdict) -> (b: bool)
    ensures
        b == is_unrecognized(*v),
{
    match v {
        Verdict::Ignore(r) => crate::text::same_text(r.as_str(), "unrecognized file(s)"),
        _ => false,
    }
}

fn push_head(out: &mut String, verdict: &Verdict, name: &str)
    ensures
        final(out)@ == old(out)@ + head_text(*verdict, name@),
{
    let ghost start = out@;
    push_str(out, "[");
    match verdict {
        Verdict::Keep => push_str(out, "KEEP"),
        Verdict::Quarantine => push_str(out, "QUARANTINE"),
        Verdict::Ignore(_) => push_str(out, "IGNORE"),
    }
    push_str(out, "] ");
    push_str(out, name);
    if let Verdict::Ignore(reason) = verdict {
        push_str(out, " — ");
        push_str(out, reason.as_str());
    }
    proof {
        reveal_strlit("KEEP");
        reveal_strlit("QUARANTINE");
        reveal_strlit("IGNORE");
    }
    assert(out@ =~= start + head_text(*verdict, name@));
}

fn push_entry_body(out: &mut String, action: &PlannedAction, detail: Detail, st: &Stamps)
    requires
        files_size(action.group.files@) <= u64::MAX,
    ensures
        final(out)@ == old(out)@ + entry_body(*action, detail, *st),
{
    let ghost start = out@;
    if is_unrecognized_verdict(&action.verdict) {
        render_unrecognized_files(out, &action.group.files, detail);
    } else if !(match &action.verdict { Verdict::Ignore(_) => true, _ => false }) {
        push_str(out, "  ");
        push_str(out, st.short.as_str());
        push_str(out, "  ");
        let p = plural(action.group.files.len(), "file");
        push_str(out, p.as_str());
        push_str(out, ", ");
        let z = format_size(group_size(&action.group.files));
        push_str(out, z.as_str());
        let ghost mid = out@;
        let path = match &action.verdict {
            Verdict::Keep => &action.destination,
            Verdict::Quarantine => &action.quarantine_path,
            Verdict::Ignore(_) => &action.destination,
        };
        match path {
            Some(p) => {
                push_str(out, " -> ");
                push_str(out, p.as_str());
            },
            None => {
                if let Verdict::Quarantine = &action.verdict {
                    push_str(out, " (quarantine copy disabled, left on source)");
                }
            },
        }
        assert(out@ =~= start + entry_body(*action, detail, *st));
    }
}

fn push_entry_verbose(out: &mut String, action: &PlannedAction, detail: Detail, st: &Stamps)
    requires
        st.markers@.len() == action.group.markers@.len(),
    ensures
        final(out)@ == old(out)@ + entry_verbose(*action, detail, *st),
{
    let ghost start = out@;
    if detail == Detail::Verbose {
        push_str(out, "  recorded at: ");
        push_str(out, st.full.as_str());
        if let Some(sc) = &action.group.sidecar {
            if let Some(t) = &sc.time_source {
                push_str(out, " (source: ");
                push_str(out, t.as_str());
                push_str(out, ")");
            }
        }
        push_str(out, "\n");
        let ghost mid = out@;
        push_marker_lines(out, &action.group.markers, &st.markers);
        if let Some(sc) = &action.group.sidecar {
            push_str(out, "  + sidecar: ");
            push_str(out, sc.filename.as_str());
            push_str(out, "\n");
        }
    }
    assert(out@ =~= start + entry_verbose(*action, detail, *st));
}

/// Renders one plan entry.
pub fn render_plan_entry(out: &mut String, action: &PlannedAction, detail: Detail, st: &Stamps)
    requires
        files_size(action.group.files@) <= u64::MAX,
        st.markers@.len() == action.group.markers@.len(),
    ensures
        final(out)@ == old(out)@ + entry_text(*action, detail, *st),
{
    let ghost start = out@;
    push_head(out, &action.verdict, action.group.name.as_str());
    push_entry_body(out, action, detail, st);
    push_str(out, "\n");
    push_entry_verbose(out, action, detail, st);
    assert(out@ =~= start + entry_text(*action, detail, *st));
}

fn find_quarantine_root(actions: &Vec<PlannedAction>) -> (r: Option<String>)
    ensures
        match quarantine_root(actions@) {
            Some(q) => r matches Some(x) && x@ == q,
            None => r is None,
        },
{
    let mut i: usize = 0;
    assert(actions@.subrange(0, actions@.len() as int) =~= actions@);
    while i < actions.len()
        invariant
            i <= actions@.len(),
            quarantine_root(actions@) == quarantine_root(actions@.subrange(i as int, actions@.len() as int)),
        decreases actions@.len() - i,
    {
        let ghost rest = actions@.subrange(i as int, actions@.len() as int);
        assert(rest.drop_first() =~= actions@.subrange(i + 1, actions@.len() as int));
        assert(rest[0] == actions@[i as int]);
        if let Verdict::Quarantine = &actions[i].verdict {
            if let Some(q) = &actions[i].quarantine_path {
                let p = parent(q.as_str());
                if p.is_some() {
                    return p;
                }
            }
        }
        i += 1;
    }
    assert(actions@.subrange(i as int, actions@.len() as int).len() == 0);
    None
}

fn push_quarantine_rollup(out: &mut String, actions: &Vec<PlannedAction>, count: usize, bytes: u64)
    requires
        count == slot_groups(actions@, 1),
        bytes == slot_bytes(actions@, 1),
    ensures
        final(out)@ == old(out)@ + rollup_text(actions@),
{
    let ghost start = out@;
    push_str(out, "Quarantine: ");
    let p = plural(count, "group");
    push_str(out, p.as_str());
    push_str(out, ", ");
    let z = format_size(bytes);
    push_str(out, z.as_str());
    match find_quarantine_root(actions) {
        Some(root) => {
            push_str(out, " -> ");
            push_str(out, root.as_str());
        },
        None => push_str(out, " (quarantine copy disabled)"),
    }
    push_str(out, "  (-v to list)\n");
    assert(out@ =~= start + rollup_text(actions@));
}

/// Whether each action has its stamps, one time for each marker.
pub open spec fn stamps_fit(a: Seq<PlannedAction>, st: Seq<Stamps>) -> bool {
    &&& st.len() == a.len()
    &&& forall|i: int| 0 <= i < a.len() ==> (#[trigger] st[i]).markers@.len() == a[i].group.markers@.len()
}

/// Whether a group's stamps show instant `t` in one zone: the short and
/// the RFC 3339 form at the same UTC offset.
pub open spec fn stamp_renders(t: UtcInstant, st: Stamps) -> bool {
    exists|off: int| offset_ok(off) && st.full@ == #[trigger] full_text(t, off) && st.short@ == short_text(t, off)
}

/// Whether each action's stamps show its group's instant, and each of
/// its markers' instants in RFC 3339 form, in a zone.
pub open spec fn stamps_render(a: Seq<PlannedAction>, st: Seq<Stamps>) -> bool {
    forall|i: int| 0 <= i < a.len() ==> {
        &&& stamp_renders(a[i].group.timestamp, #[trigger] st[i])
        &&& forall|j: int| 0 <= j < a[i].group.markers@.len() ==> full_in_some_zone(a[i].group.markers@[j].timestamp,
            #[trigger] st[i].markers@[j]@)
    }
}

/// Whether each inventory entry's stamps show its instant in a zone.
pub open spec fn scan_stamps_render(e: Seq<ScanEntry>, st: Seq<Stamps>) -> bool {
    forall|i: int| 0 <= i < e.len() ==> stamp_renders(e[i].recorded_at, #[trigger] st[i])
}

/// Renders a plan whose times are already rendered: every listed entry,
/// the quarantine roll-up line in the default mode, and the summary line
/// with per-verdict group, file and byte totals.
pub fn render_plan_stamped(plan: &ImportPlan, detail: Detail, stamps: &Vec<Stamps>) -> (s: String)
    requires
        stamps_fit(plan.actions@, stamps@),
        plan_files(plan.actions@) <= usize::MAX,
        plan_bytes(plan.actions@) <= u64::MAX,
    ensures
        s@ == plan_text(*plan, detail, stamps@),
{
    let ghost a = plan.actions@;
    if plan.actions.len() == 0 {
        return owned("No media found; nothing to import.\n");
    }
    let mut out = String::new();
    let zero = VerdictTally { groups: 0, files: 0, bytes: 0 };
    let mut totals = VerdictTotals { kept: zero, quarantined: zero, ignored: zero };
    let mut i: usize = 0;
    while i < plan.actions.len()
        invariant
            i <= a.len(),
            a == plan.actions@,
            stamps_fit(a, stamps@),
            plan_files(a) <= usize::MAX,
            plan_bytes(a) <= u64::MAX,
            out@ == entries_text(a.subrange(0, i as int), detail, stamps@),
            forall|k: int| 0 <= k < 3 ==> {
                &&& (#[trigger] totals.slot(k)).groups == slot_groups(a.subrange(0, i as int), k)
                &&& totals.slot(k).files == slot_files(a.subrange(0, i as int), k)
                &&& totals.slot(k).bytes == slot_bytes(a.subrange(0, i as int), k)
            },
        decreases a.len() - i,
    {
        let ghost sub = a.subrange(0, i as int);
        let ghost next = a.subrange(0, i + 1);
        assert(next.drop_last() =~= sub);
        let action = &plan.actions[i];
        proof {
            lemma_slot_bounds(next, verdict_slot(action.verdict));
            lemma_plan_prefix(a, i + 1);
            lemma_slot_bounds(sub, verdict_slot(action.verdict));
        }
        let n = action.group.files.len();
        let b = group_size(&action.group.files);
        totals.record_counts(&action.verdict, n, b);
        let listed = match &action.verdict {
            Verdict::Quarantine => detail == Detail::Verbose,
            _ => true,
        } && detail != Detail::Summary;
        if listed {
            render_plan_entry(&mut out, action, detail, &stamps[i]);
        }
        proof {
            assert forall|k: int| 0 <= k < 3 implies {
                &&& (#[trigger] totals.slot(k)).groups == slot_groups(next, k)
                &&& totals.slot(k).files == slot_files(next, k)
                &&& totals.slot(k).bytes == slot_bytes(next, k)
            } by {}
        }
        i += 1;
    }
    assert(a.subrange(0, a.len() as int) =~= a);
    assert(totals.slot(0) == totals.kept);
    assert(totals.slot(1) == totals.quarantined);
    assert(totals.slot(2) == totals.ignored);
    proof {
        lemma_slot_bounds(a, 0);
    }
    if detail == Detail::Normal && totals.quarantined.groups > 0 {
        push_quarantine_rollup(&mut out, &plan.actions, totals.quarantined.groups, totals.quarantined.bytes);
    }
    push_str(&mut out, "Summary: ");
    let t = totals.render();
    push_str(&mut out, t.as_str());
    push_str(&mut out, "\n");
    out
}

/// Whether every time a plan shows is a valid instant.
pub open spec fn plan_instants_ok(a: Seq<PlannedAction>) -> bool {
    forall|i: int| 0 <= i < a.len() ==> {
        &&& instant_ok((#[trigger] a[i]).group.timestamp)
        &&& forall|j: int| 0 <= j < a[i].group.markers@.len() ==> instant_ok(#[trigger] a[i].group.markers@[j].timestamp)
    }
}

fn action_stamps(action: &PlannedAction, tz: &jiff::tz::TimeZone) -> (st: Stamps)
    requires
        instant_ok(action.group.timestamp),
        forall|j: int| 0 <= j < action.group.markers@.len() ==> instant_ok(#[trigger] action.group.markers@[j].timestamp),
    ensures
        st.markers@.len() == action.group.markers@.len(),
        stamp_renders(action.group.timestamp, st),
        forall|j: int| 0 <= j < action.group.markers@.len() ==> full_in_some_zone(action.group.markers@[j].timestamp,
            #[trigger] st.markers@[j]@),
{
    let t = action.group.timestamp;
    let off = zone_offset(t, tz);
    let short = render_short(t, off);
    let full = render_full(t, off);
    let mut markers: Vec<String> = Vec::new();
    let mut j: usize = 0;
    while j < action.group.markers.len()
        invariant
            j <= action.group.markers@.len(),
            markers@.len() == j,
            forall|k: int| 0 <= k < action.group.markers@.len() ==> instant_ok(#[trigger] action.group.markers@[k].timestamp),
            forall|k: int| 0 <= k < j ==> full_in_some_zone(action.group.markers@[k].timestamp, #[trigger] markers@[k]@),
        decreases action.group.markers@.len() - j,
    {
        let m = full_in_zone(action.group.markers[j].timestamp, tz);
        markers.push(m);
        j += 1;
    }
    let st = Stamps { short, full, markers };
    assert(st.full@ == full_text(t, off as int));
    st
}

/// Renders a plan for the terminal, its times shown in `tz`: the text
/// is that of `render_plan_stamped` for the times the zone gives.
pub fn render_plan(plan: &ImportPlan, detail: Detail, tz: &jiff::tz::TimeZone) -> (s: String)
    requires
        plan_instants_ok(plan.actions@),
        plan_files(plan.actions@) <= usize::MAX,
        plan_bytes(plan.actions@) <= u64::MAX,
    ensures
        exists|st: Seq<Stamps>| stamps_fit(plan.actions@, st) && stamps_render(plan.actions@, st) && s@ == plan_text(*plan,
            detail, st),
{
    let stamps = plan_stamps(plan, tz);
    render_plan_stamped(plan, detail, &stamps)
}

/// Each action's stamps, its times rendered in `tz`.
fn plan_stamps(plan: &ImportPlan, tz: &jiff::tz::TimeZone) -> (stamps: Vec<Stamps>)
    requires
        plan_instants_ok(plan.actions@),
    ensures
        stamps_fit(plan.actions@, stamps@),
        stamps_render(plan.actions@, stamps@),
{
    let mut stamps: Vec<Stamps> = Vec::new();
    let mut i: usize = 0;
    while i < plan.actions.len()
        invariant
            i <= plan.actions@.len(),
            plan_instants_ok(plan.actions@),
            stamps@.len() == i,
            forall|k: int| 0 <= k < i ==> (#[trigger] stamps@[k]).markers@.len() == plan.actions@[k].group.markers@.len(),
            forall|k: int| 0 <= k < i ==> {
                &&& stamp_renders(plan.actions@[k].group.timestamp, #[trigger] stamps@[k])
                &&& forall|j: int| 0 <= j < plan.actions@[k].group.markers@.len() ==> full_in_some_zone(
                    plan.actions@[k].group.markers@[j].timestamp, #[trigger] stamps@[k].markers@[j]@)
            },
        decreases plan.actions@.len() - i,
    {
        let st = action_stamps(&plan.actions[i], tz);
        stamps.push(st);
        i += 1;
    }
    stamps
}

/// Groups, files and bytes of the inventory entries in slot `k`.
pub open spec fn scan_slot_groups(e: Seq<ScanEntry>, k: int) -> nat
    decreases e.len(),
{
    if e.len() == 0 { 0 } else { scan_slot_groups(e.drop_last(), k) + if verdict_slot(e.last().verdict) == k { 1nat } else { 0nat } }
}

pub open spec fn scan_slot_files(e: Seq<ScanEntry>, k: int) -> nat
    decreases e.len(),
{
    if e.len() == 0 {
        0
    } else {
        scan_slot_files(e.drop_last(), k) + if verdict_slot(e.last().verdict) == k { e.last().file_count as nat } else { 0nat }
    }
}

pub open spec fn scan_slot_bytes(e: Seq<ScanEntry>, k: int) -> nat
    decreases e.len(),
{
    if e.len() == 0 {
        0
    } else {
        scan_slot_bytes(e.drop_last(), k) + if verdict_slot(e.last().verdict) == k { e.last().total_size as nat } else { 0nat }
    }
}

/// Every entry's files and bytes, summed.
pub open spec fn scan_files(e: Seq<ScanEntry>) -> nat
    decreases e.len(),
{
    if e.len() == 0 { 0 } else { scan_files(e.drop_last()) + e.last().file_count as nat }
}

pub open spec fn scan_bytes(e: Seq<ScanEntry>) -> nat
    decreases e.len(),
{
    if e.len() == 0 { 0 } else { scan_bytes(e.drop_last()) + e.last().total_size as nat }
}

/// The inventory's summary: each verdict's groups, files and bytes, and
/// the number of groups in all.
pub open spec fn scan_totals_text(e: Seq<ScanEntry>) -> Seq<char> {
    tally_text(scan_slot_groups(e, 0), scan_slot_files(e, 0), scan_slot_bytes(e, 0), "kept"@) + ", "@
        + tally_text(scan_slot_groups(e, 1), scan_slot_files(e, 1), scan_slot_bytes(e, 1), "quarantined"@) + ", "@
        + tally_text(scan_slot_groups(e, 2), scan_slot_files(e, 2), scan_slot_bytes(e, 2), "ignored"@) + " ("@
        + dec(scan_slot_groups(e, 0) + scan_slot_groups(e, 1) + scan_slot_groups(e, 2)) + " total)"@
}

/// The display names of an inventory entry's file paths.
pub open spec fn path_names(files: Seq<String>) -> Seq<Seq<char>> {
    files.map_values(|f: String| display_name_of(f@))
}

/// One inventory entry: `[VERDICT] name`, an ignore reason, then either
/// the stray-file listing or the short time, file count and size — never
/// a path; under `-v` the full recorded time.
pub open spec fn scan_entry_text(e: ScanEntry, detail: Detail, st: Stamps) -> Seq<char> {
    head_text(e.verdict, e.name@) + scan_entry_body(e, detail, st) + "\n"@
        + (if detail == Detail::Verbose && !is_unrecognized(e.verdict) { "  recorded at: "@ + st.full@ + "\n"@ } else { Seq::empty() })
}

/// The rest of an inventory entry's first line.
pub open spec fn scan_entry_body(e: ScanEntry, detail: Detail, st: Stamps) -> Seq<char> {
    if is_unrecognized(e.verdict) {
        name_list_text(path_names(e.files@), detail)
    } else if !(e.verdict matches Verdict::Ignore(_)) {
        "  "@ + st.short@ + "  "@ + plural_of(e.file_count as nat, "file"@) + ", "@ + size_text(e.total_size as nat)
    } else {
        Seq::empty()
    }
}

/// Whether an inventory entry is listed individually.
pub open spec fn scan_entry_listed(e: ScanEntry, detail: Detail) -> bool {
    detail != Detail::Summary && (!(e.verdict matches Verdict::Quarantine) || detail == Detail::Verbose)
}

pub open spec fn scan_entries_text(e: Seq<ScanEntry>, detail: Detail, st: Seq<Stamps>) -> Seq<char>
    decreases e.len(),
{
    if e.len() == 0 {
        Seq::empty()
    } else {
        scan_entries_text(e.drop_last(), detail, st) + if scan_entry_listed(e.last(), detail) {
            scan_entry_text(e.last(), detail, st[e.len() - 1])
        } else {
            Seq::empty()
        }
    }
}

/// The text of an inventory: every listed entry, a count-and-size line
/// for the quarantined entries in the default mode, and the summary.
pub open spec fn scan_text(sm: ScanSummary, detail: Detail, st: Seq<Stamps>) -> Seq<char> {
    let e = sm.entries@;
    if e.len() == 0 {
        "No media found; nothing to import.\n"@
    } else {
        scan_entries_text(e, detail, st)
            + (if detail == Detail::Normal && scan_slot_groups(e, 1) > 0 {
                "Quarantine: "@ + plural_of(scan_slot_groups(e, 1), "group"@) + ", "@ + size_text(scan_slot_bytes(e, 1)) + "  (-v to list)\n"@
            } else {
                Seq::empty()
            })
            + "Summary: "@ + scan_totals_text(e) + "\n"@
    }
}

proof fn lemma_scan_bounds(e: Seq<ScanEntry>, k: int)
    ensures
        scan_slot_groups(e, k) <= e.len(),
        scan_slot_files(e, k) <= scan_files(e),
        scan_slot_bytes(e, k) <= scan_bytes(e),
        scan_slot_groups(e, 0) + scan_slot_groups(e, 1) + scan_slot_groups(e, 2) == e.len(),
    decreases e.len(),
{
    if e.len() > 0 {
        lemma_scan_bounds(e.drop_last(), k);
    }
}

proof fn lemma_scan_prefix(e: Seq<ScanEntry>, i: int)
    requires
        0 <= i <= e.len(),
    ensures
        scan_files(e.subrange(0, i)) <= scan_files(e),
        scan_bytes(e.subrange(0, i)) <= scan_bytes(e),
    decreases e.len() - i,
{
    if i < e.len() {
        lemma_scan_prefix(e, i + 1);
        assert(e.subrange(0, i + 1).drop_last() =~= e.subrange(0, i));
    } else {
        assert(e.subrange(0, i) =~= e);
    }
}

fn path_display_names(files: &Vec<String>) -> (r: Vec<String>)
    ensures
        views(r@) == path_names(files@),
{
    let mut r: Vec<String> = Vec::new();
    let mut i: usize = 0;
    while i < files.len()
        invariant
            i <= files@.len(),
            views(r@) =~= path_names(files@.subrange(0, i as int)),
        decreases files@.len() - i,
    {
        let ghost before = views(r@);
        r.push(file_display_name(files[i].as_str()));
        assert(views(r@) =~= before.push(display_name_of(files@[i as int]@)));
        assert(path_names(files@.subrange(0, i + 1)) =~= path_names(files@.subrange(0, i as int)).push(display_name_of(files@[i as int]@)));
        i += 1;
    }
    assert(files@.subrange(0, files@.len() as int) =~= files@);
    r
}

fn push_scan_entry_body(out: &mut String, entry: &ScanEntry, detail: Detail, st: &Stamps)
    ensures
        final(out)@ == old(out)@ + scan_entry_body(*entry, detail, *st),
{
    let ghost start = out@;
    if is_unrecognized_verdict(&entry.verdict) {
        render_scan_unrecognized_files(out, &entry.files, detail);
    } else if !(match &entry.verdict { Verdict::Ignore(_) => true, _ => false }) {
        push_str(out, "  ");
        push_str(out, st.short.as_str());
        push_str(out, "  ");
        let p = plural(entry.file_count, "file");
        push_str(out, p.as_str());
        push_str(out, ", ");
        let z = format_size(entry.total_size);
        push_str(out, z.as_str());
        assert(out@ =~= start + scan_entry_body(*entry, detail, *st));
    }
}

/// Lists the names of an inventory's stray files, given by path.
pub fn render_scan_unrecognized_files(out: &mut String, files: &Vec<String>, detail: Detail)
    ensures
        final(out)@ == old(out)@ + name_list_text(path_names(files@), detail),
{
    let names = path_display_names(files);
    render_file_name_list(out, names, detail);
}

/// Renders one inventory entry.
pub fn render_scan_entry(out: &mut String, entry: &ScanEntry, detail: Detail, st: &Stamps)
    ensures
        final(out)@ == old(out)@ + scan_entry_text(*entry, detail, *st),
{
    let ghost start = out@;
    push_head(out, &entry.verdict, entry.name.as_str());
    push_scan_entry_body(out, entry, detail, st);
    push_str(out, "\n");
    let ghost mid = out@;
    if detail == Detail::Verbose && !is_unrecognized_verdict(&entry.verdict) {
        push_str(out, "  recorded at: ");
        push_str(out, st.full.as_str());
        push_str(out, "\n");
    }
    assert(out@ =~= start + scan_entry_text(*entry, detail, *st));
}

/// Renders an inventory whose times are already rendered.
pub fn render_scan_summary_stamped(summary: &ScanSummary, detail: Detail, stamps: &Vec<Stamps>) -> (s: String)
    requires
        stamps@.len() == summary.entries@.len(),
        scan_files(summary.entries@) <= usize::MAX,
        scan_bytes(summary.entries@) <= u64::MAX,
    ensures
        s@ == scan_text(*summary, detail, stamps@),
{
    let ghost e = summary.entries@;
    if summary.entries.len() == 0 {
        return owned("No media found; nothing to import.\n");
    }
    let mut out = String::new();
    let zero = VerdictTally { groups: 0, files: 0, bytes: 0 };
    let mut totals = VerdictTotals { kept: zero, quarantined: zero, ignored: zero };
    let mut i: usize = 0;
    while i < summary.entries.len()
        invariant
            i <= e.len(),
            e == summary.entries@,
            stamps@.len() == e.len(),
            scan_files(e) <= usize::MAX,
            scan_bytes(e) <= u64::MAX,
            out@ == scan_entries_text(e.subrange(0, i as int), detail, stamps@),
            forall|k: int| 0 <= k < 3 ==> {
                &&& (#[trigger] totals.slot(k)).groups == scan_slot_groups(e.subrange(0, i as int), k)
                &&& totals.slot(k).files == scan_slot_files(e.subrange(0, i as int), k)
                &&& totals.slot(k).bytes == scan_slot_bytes(e.subrange(0, i as int), k)
            },
        decreases e.len() - i,
    {
        let ghost sub = e.subrange(0, i as int);
        let ghost next = e.subrange(0, i + 1);
        assert(next.drop_last() =~= sub);
        let entry = &summary.entries[i];
        proof {
            lemma_scan_bounds(next, verdict_slot(entry.verdict));
            lemma_scan_prefix(e, i + 1);
        }
        totals.record_counts(&entry.verdict, entry.file_count, entry.total_size);
        let listed = match &entry.verdict {
            Verdict::Quarantine => detail == Detail::Verbose,
            _ => true,
        } && detail != Detail::Summary;
        if listed {
            render_scan_entry(&mut out, entry, detail, &stamps[i]);
        }
        proof {
            assert forall|k: int| 0 <= k < 3 implies {
                &&& (#[trigger] totals.slot(k)).groups == scan_slot_groups(next, k)
                &&& totals.slot(k).files == scan_slot_files(next, k)
                &&& totals.slot(k).bytes == scan_slot_bytes(next, k)
            } by {}
        }
        i += 1;
    }
    assert(e.subrange(0, e.len() as int) =~= e);
    assert(totals.slot(0) == totals.kept);
    assert(totals.slot(1) == totals.quarantined);
    assert(totals.slot(2) == totals.ignored);
    proof {
        lemma_scan_bounds(e, 0);
    }
    if detail == Detail::Normal && totals.quarantined.groups > 0 {
        push_str(&mut out, "Quarantine: ");
        let p = plural(totals.quarantined.groups, "group");
        push_str(&mut out, p.as_str());
        push_str(&mut out, ", ");
        let z = format_size(totals.quarantined.bytes);
        push_str(&mut out, z.as_str());
        push_str(&mut out, "  (-v to list)\n");
    }
    push_str(&mut out, "Summary: ");
    let t = totals.render();
    push_str(&mut out, t.as_str());
    push_str(&mut out, "\n");
    out
}

/// Renders a source-only inventory for the terminal, its times shown in
/// `tz`: the text is that of `render_scan_summary_stamped` for the times
/// the zone gives.
pub fn render_scan_summary(summary: &ScanSummary, detail: Detail, tz: &jiff::tz::TimeZone) -> (s: String)
    requires
        forall|i: int| 0 <= i < summary.entries@.len() ==> instant_ok(#[trigger] summary.entries@[i].recorded_at),
        scan_files(summary.entries@) <= usize::MAX,
        scan_bytes(summary.entries@) <= u64::MAX,
    ensures
        exists|st: Seq<Stamps>| st.len() == summary.entries@.len() && scan_stamps_render(summary.entries@, st) && s@
            == scan_text(*summary, detail, st),
{
    let mut stamps: Vec<Stamps> = Vec::new();
    let mut i: usize = 0;
    while i < summary.entries.len()
        invariant
            i <= summary.entries@.len(),
            forall|k: int| 0 <= k < summary.entries@.len() ==> instant_ok(#[trigger] summary.entries@[k].recorded_at),
            stamps@.len() == i,
            forall|k: int| 0 <= k < i ==> stamp_renders(summary.entries@[k].recorded_at, #[trigger] stamps@[k]),
        decreases summary.entries@.len() - i,
    {
        let at = summary.entries[i].recorded_at;
        let off = zone_offset(at, tz);
        let short = render_short(at, off);
        let full = render_full(at, off);
        let st = Stamps { short, full, markers: Vec::new() };
        assert(st.full@ == full_text(at, off as int));
        stamps.push(st);
        i += 1;
    }
    render_scan_summary_stamped(summary, detail, &stamps)
}

/// A marker in the JSON view of a plan.
#[derive(Debug, Clone, PartialEq, Eq)]
pub struct MarkerJson {
    pub time: String,
    pub label: Option<String>,
}

/// One planned action in the JSON view: every file, uncapped, and the
/// quarantined groups too.
#[derive(Debug, Clone, PartialEq, Eq)]
pub struct PlanActionJson {
    pub group: String,
    pub verdict: String,
    pub reason: String,
    pub path: Option<String>,
    pub quarantine_copy_disabled: bool,
    pub recorded_at: String,
    pub markers: Vec<MarkerJson>,
    pub sidecar_path: Option<String>,
    pub files: Vec<String>,
}

/// Groups per verdict, and in all.
#[derive(Debug, Clone, Copy, PartialEq, Eq, Structural)]
pub struct PlanSummaryJson {
    pub kept: usize,
    pub quarantined: usize,
    pub ignored: usize,
    pub total: usize,
}

#[derive(Debug, Clone, PartialEq, Eq)]
pub struct PlanJson {
    pub actions: Vec<PlanActionJson>,
    pub summary: PlanSummaryJson,
}

/// The reason the JSON view gives for a verdict.
pub open spec fn verdict_reason(v: Verdict) -> Seq<char> {
    match v {
        Verdict::Keep => "matches profile criteria"@,
        Verdict::Quarantine => "does not match profile criteria"@,
        Verdict::Ignore(r) => r@,
    }
}

/// Where a group's sidecar lands: joined onto the group's path, or its
/// bare file name when the group has none.
pub open spec fn sidecar_path_of(a: PlannedAction) -> Option<Seq<char>> {
    match a.group.sidecar {
        Some(sc) => Some(match entry_path(a) {
            Some(p) => join_of(p@, sc.filename@),
            None => sc.filename@,
        }),
        None => None,
    }
}

/// The paths of a group's files.
pub open spec fn file_path_views(files: Seq<MediaFile>) -> Seq<Seq<char>> {
    files.map_values(|f: MediaFile| f.path@)
}

/// The JSON view of one action, given its rendered times.
pub open spec fn action_json_matches(j: PlanActionJson, a: PlannedAction, st: Stamps) -> bool {
    &&& j.group@ == a.group.name@
    &&& j.verdict@ == verdict_word(a.verdict)
    &&& j.reason@ == verdict_reason(a.verdict)
    &&& opt_view(j.path) == opt_view(entry_path(a))
    &&& j.quarantine_copy_disabled == ((a.verdict matches Verdict::Quarantine) && a.quarantine_path is None)
    &&& j.recorded_at@ == st.full@
    &&& j.markers@.len() == a.group.markers@.len()
    &&& forall|k: int| 0 <= k < j.markers@.len() ==> (#[trigger] j.markers@[k]).time@ == st.markers@[k]@
        && opt_view(j.markers@[k].label) == opt_view(a.group.markers@[k].label)
    &&& match j.sidecar_path {
        Some(x) => sidecar_path_of(a) == Some(x@),
        None => sidecar_path_of(a) is None,
    }
    &&& views(j.files@) == file_path_views(a.group.files@)
}

/// The groups of each verdict, and in all.
pub open spec fn plan_summary_of(a: Seq<PlannedAction>) -> PlanSummaryJson {
    PlanSummaryJson {
        kept: slot_groups(a, 0) as usize,
        quarantined: slot_groups(a, 1) as usize,
        ignored: slot_groups(a, 2) as usize,
        total: a.len() as usize,
    }
}

/// The JSON view of a plan whose times show its instants in a zone.
pub open spec fn plan_json_rendered(j: PlanJson, p: ImportPlan) -> bool {
    exists|st: Seq<Stamps>| #[trigger] plan_json_of(j, p, st) && stamps_render(p.actions@, st)
}

/// The JSON view of a plan, given each action's rendered times.
pub open spec fn plan_json_of(j: PlanJson, p: ImportPlan, st: Seq<Stamps>) -> bool {
    &&& stamps_fit(p.actions@, st)
    &&& j.actions@.len() == p.actions@.len()
    &&& forall|i: int| 0 <= i < j.actions@.len() ==> action_json_matches(#[trigger] j.actions@[i], p.actions@[i], st[i])
    &&& j.summary == plan_summary_of(p.actions@)
}

fn clone_opt(o: &Option<String>) -> (r: Option<String>)
    ensures
        opt_view(r) == opt_view(*o),
{
    match o {
        Some(x) => Some(x.clone()),
        None => None,
    }
}

fn marker_json(markers: &Vec<crate::plan::Marker>, times: &Vec<String>) -> (r: Vec<MarkerJson>)
    requires
        times@.len() == markers@.len(),
    ensures
        r@.len() == markers@.len(),
        forall|k: int| 0 <= k < r@.len() ==> (#[trigger] r@[k]).time@ == times@[k]@
            && opt_view(r@[k].label) == opt_view(markers@[k].label),
{
    let mut r: Vec<MarkerJson> = Vec::new();
    let mut k: usize = 0;
    while k < markers.len()
        invariant
            k <= markers@.len() == times@.len(),
            r@.len() == k,
            forall|m: int| 0 <= m < k ==> (#[trigger] r@[m]).time@ == times@[m]@
                && opt_view(r@[m].label) == opt_view(markers@[m].label),
        decreases markers@.len() - k,
    {
        r.push(MarkerJson { time: times[k].clone(), label: clone_opt(&markers[k].label) });
        k += 1;
    }
    r
}

fn file_paths(files: &Vec<MediaFile>) -> (r: Vec<String>)
    ensures
        views(r@) == file_path_views(files@),
{
    let mut r: Vec<String> = Vec::new();
    let mut k: usize = 0;
    while k < files.len()
        invariant
            k <= files@.len(),
            views(r@) =~= file_path_views(files@.subrange(0, k as int)),
        decreases files@.len() - k,
    {
        let ghost before = views(r@);
        r.push(files[k].path.clone());
        assert(views(r@) =~= before.push(files@[k as int].path@));
        assert(file_path_views(files@.subrange(0, k + 1)) =~= file_path_views(files@.subrange(0, k as int)).push(files@[k as int].path@));
        k += 1;
    }
    assert(files@.subrange(0, files@.len() as int) =~= files@);
    r
}

/// The JSON view of one planned action, given its rendered times.
pub fn action_json(action: &PlannedAction, st: &Stamps) -> (j: PlanActionJson)
    requires
        st.markers@.len() == action.group.markers@.len(),
    ensures
        action_json_matches(j, *action, *st),
{
    let reason = match &action.verdict {
        Verdict::Keep => owned("matches profile criteria"),
        Verdict::Quarantine => owned("does not match profile criteria"),
        Verdict::Ignore(r) => r.clone(),
    };
    let path = match &action.verdict {
        Verdict::Keep => clone_opt(&action.destination),
        Verdict::Quarantine => clone_opt(&action.quarantine_path),
        Verdict::Ignore(_) => None,
    };
    let disabled = match &action.verdict {
        Verdict::Quarantine => action.quarantine_path.is_none(),
        _ => false,
    };
    let sidecar_path = match &action.group.sidecar {
        Some(sc) => Some(match &path {
            Some(p) => join_path(p.as_str(), sc.filename.as_str()),
            None => sc.filename.clone(),
        }),
        None => None,
    };
    proof {
        reveal_strlit("matches profile criteria");
        reveal_strlit("does not match profile criteria");
    }
    PlanActionJson {
        group: action.group.name.clone(),
        verdict: verdict_json(&action.verdict),
        reason,
        path,
        quarantine_copy_disabled: disabled,
        recorded_at: st.full.clone(),
        markers: marker_json(&action.group.markers, &st.markers),
        sidecar_path,
        files: file_paths(&action.group.files),
    }
}

/// The JSON view of a plan whose times are already rendered: every
/// action, quarantined ones included, and the groups per verdict.
pub fn plan_to_json_stamped(plan: &ImportPlan, stamps: &Vec<Stamps>) -> (j: PlanJson)
    requires
        stamps_fit(plan.actions@, stamps@),
    ensures
        plan_json_of(j, *plan, stamps@),
{
    let ghost a = plan.actions@;
    let mut actions: Vec<PlanActionJson> = Vec::new();
    let mut kept: usize = 0;
    let mut quarantined: usize = 0;
    let mut ignored: usize = 0;
    let mut i: usize = 0;
    while i < plan.actions.len()
        invariant
            i <= a.len(),
            a == plan.actions@,
            stamps_fit(a, stamps@),
            actions@.len() == i,
            forall|m: int| 0 <= m < i ==> action_json_matches(#[trigger] actions@[m], a[m], stamps@[m]),
            kept == slot_groups(a.subrange(0, i as int), 0),
            quarantined == slot_groups(a.subrange(0, i as int), 1),
            ignored == slot_groups(a.subrange(0, i as int), 2),
        decreases a.len() - i,
    {
        let ghost next = a.subrange(0, i + 1);
        assert(next.drop_last() =~= a.subrange(0, i as int));
        proof {
            lemma_slot_bounds(next, 0);
        }
        let action = &plan.actions[i];
        match &action.verdict {
            Verdict::Keep => kept += 1,
            Verdict::Quarantine => quarantined += 1,
            Verdict::Ignore(_) => ignored += 1,
        }
        let aj = action_json(action, &stamps[i]);
        actions.push(aj);
        i += 1;
    }
    assert(a.subrange(0, a.len() as int) =~= a);
    PlanJson {
        actions,
        summary: PlanSummaryJson { kept, quarantined, ignored, total: plan.actions.len() },
    }
}

/// The JSON view of a plan, its times rendered in `tz`: that of
/// `plan_to_json_stamped` for the times the zone gives.
pub fn plan_to_json(plan: &ImportPlan, tz: &jiff::tz::TimeZone) -> (j: PlanJson)
    requires
        plan_instants_ok(plan.actions@),
    ensures
        plan_json_rendered(j, *plan),
{
    let stamps = plan_stamps(plan, tz);
    plan_to_json_stamped(plan, &stamps)
}

/// One inventory entry in the JSON view: no path, ever.
#[derive(Debug, Clone, PartialEq, Eq)]
pub struct ScanEntryJson {
    pub group: String,
    pub verdict: String,
    pub reason: String,
    pub file_count: usize,
    pub total_size_bytes: u64,
    pub recorded_at: String,
    pub files: Vec<String>,
}

#[derive(Debug, Clone, PartialEq, Eq)]
pub struct ScanSummaryJson {
    pub entries: Vec<ScanEntryJson>,
    pub summary: PlanSummaryJson,
}

/// The JSON view of one inventory entry, given its rendered time.
pub open spec fn scan_json_matches(j: ScanEntryJson, e: ScanEntry, full: Seq<char>) -> bool {
    &&& j.group@ == e.name@
    &&& j.verdict@ == verdict_word(e.verdict)
    &&& j.reason@ == verdict_reason(e.verdict)
    &&& j.file_count == e.file_count
    &&& j.total_size_bytes == e.total_size
    &&& j.recorded_at@ == full
    &&& views(j.files@) == views(e.files@)
}

pub open spec fn scan_summary_of(e: Seq<ScanEntry>) -> PlanSummaryJson {
    PlanSummaryJson {
        kept: scan_slot_groups(e, 0) as usize,
        quarantined: scan_slot_groups(e, 1) as usize,
        ignored: scan_slot_groups(e, 2) as usize,
        total: e.len() as usize,
    }
}

/// The JSON view of an inventory whose times show its instants in RFC
/// 3339 form in a zone.
pub open spec fn scan_json_rendered(j: ScanSummaryJson, sm: ScanSummary) -> bool {
    exists|times: Seq<String>| #[trigger] scan_json_of(j, sm, times) && forall|i: int| 0 <= i < times.len()
        ==> full_in_some_zone(sm.entries@[i].recorded_at, #[trigger] times[i]@)
}

/// The JSON view of an inventory, given each entry's rendered time.
pub open spec fn scan_json_of(j: ScanSummaryJson, sm: ScanSummary, times: Seq<String>) -> bool {
    &&& times.len() == sm.entries@.len()
    &&& j.entries@.len() == sm.entries@.len()
    &&& forall|i: int| 0 <= i < j.entries@.len() ==> scan_json_matches(#[trigger] j.entries@[i], sm.entries@[i], times[i]@)
    &&& j.summary == scan_summary_of(sm.entries@)
}

fn clone_texts(v: &Vec<String>) -> (r: Vec<String>)
    ensures
        views(r@) == views(v@),
{
    let mut r: Vec<String> = Vec::new();
    let mut k: usize = 0;
    while k < v.len()
        invariant
            k <= v@.len(),
            views(r@) =~= views(v@.subrange(0, k as int)),
        decreases v@.len() - k,
    {
        let ghost before = views(r@);
        r.push(v[k].clone());
        assert(views(r@) =~= before.push(v@[k as int]@));
        assert(views(v@.subrange(0, k + 1)) =~= views(v@.subrange(0, k as int)).push(v@[k as int]@));
        k += 1;
    }
    assert(v@.subrange(0, v@.len() as int) =~= v@);
    r
}

/// The JSON view of an inventory whose times are already rendered.
pub fn scan_summary_to_json_stamped(summary: &ScanSummary, times: &Vec<String>) -> (j: ScanSummaryJson)
    requires
        times@.len() == summary.entries@.len(),
    ensures
        scan_json_of(j, *summary, times@),
{
    let ghost e = summary.entries@;
    let mut entries: Vec<ScanEntryJson> = Vec::new();
    let mut kept: usize = 0;
    let mut quarantined: usize = 0;
    let mut ignored: usize = 0;
    let mut i: usize = 0;
    while i < summary.entries.len()
        invariant
            i <= e.len(),
            e == summary.entries@,
            times@.len() == e.len(),
            entries@.len() == i,
            forall|m: int| 0 <= m < i ==> scan_json_matches(#[trigger] entries@[m], e[m], times@[m]@),
            kept == scan_slot_groups(e.subrange(0, i as int), 0),
            quarantined == scan_slot_groups(e.subrange(0, i as int), 1),
            ignored == scan_slot_groups(e.subrange(0, i as int), 2),
        decreases e.len() - i,
    {
        let ghost next = e.subrange(0, i + 1);
        assert(next.drop_last() =~= e.subrange(0, i as int));
        proof {
            lemma_scan_bounds(next, 0);
        }
        let entry = &summary.entries[i];
        match &entry.verdict {
            Verdict::Keep => kept += 1,
            Verdict::Quarantine => quarantined += 1,
            Verdict::Ignore(_) => ignored += 1,
        }
        let reason = match &entry.verdict {
            Verdict::Keep => owned("matches profile criteria"),
            Verdict::Quarantine => owned("does not match profile criteria"),
            Verdict::Ignore(r) => r.clone(),
        };
        proof {
            reveal_strlit("matches profile criteria");
            reveal_strlit("does not match profile criteria");
        }
        entries.push(ScanEntryJson {
            group: entry.name.clone(),
            verdict: verdict_json(&entry.verdict),
            reason,
            file_count: entry.file_count,
            total_size_bytes: entry.total_size,
            recorded_at: times[i].clone(),
            files: clone_texts(&entry.files),
        });
        i += 1;
    }
    assert(e.subrange(0, e.len() as int) =~= e);
    ScanSummaryJson {
        entries,
        summary: PlanSummaryJson { kept, quarantined, ignored, total: summary.entries.len() },
    }
}

/// The JSON view of an inventory, its times rendered in `tz`.
pub fn scan_summary_to_json(summary: &ScanSummary, tz: &jiff::tz::TimeZone) -> (j: ScanSummaryJson)
    requires
        forall|i: int| 0 <= i < summary.entries@.len() ==> instant_ok(#[trigger] summary.entries@[i].recorded_at),
    ensures
        scan_json_rendered(j, *summary),
{
    let mut times: Vec<String> = Vec::new();
    let mut i: usize = 0;
    while i < summary.entries.len()
        invariant
            i <= summary.entries@.len(),
            forall|k: int| 0 <= k < summary.entries@.len() ==> instant_ok(#[trigger] summary.entries@[k].recorded_at),
            times@.len() == i,
            forall|k: int| 0 <= k < i ==> full_in_some_zone(summary.entries@[k].recorded_at, #[trigger] times@[k]@),
        decreases summary.entries@.len() - i,
    {
        let t = full_in_zone(summary.entries[i].recorded_at, tz);
        times.push(t);
        i += 1;
    }
    scan_summary_to_json_stamped(summary, &times)
}

/// The JSON view of a results report.
pub open spec fn results_json_of(j: ResultsJson, r: ExecuteReport) -> bool {
    &&& j.groups@.len() == r.groups@.len()
    &&& forall|i: int| 0 <= i < r.groups@.len() ==> group_json_matches(#[trigger] j.groups@[i], r.groups@[i])
    &&& opt_view(j.deletion_skipped_reason) == opt_view(r.deletion_skipped_reason)
    &&& j.summary == summary_json_of(ResultsTally::of(r.groups@))
}

/// One drive's entry in a multi-drive scan's JSON.
#[derive(Debug, Clone, PartialEq, Eq)]
pub struct ScanDriveJson {
    pub name: String,
    pub path: String,
    pub status: String,
    pub error: Option<String>,
    pub summary: Option<ScanSummaryJson>,
}

#[derive(Debug, Clone, PartialEq, Eq)]
pub struct MultiScanJson {
    pub drives: Vec<ScanDriveJson>,
}

/// Whether every instant an inventory shows is valid.
pub open spec fn scan_instants_ok(sm: ScanSummary) -> bool {
    forall|i: int| 0 <= i < sm.entries@.len() ==> instant_ok(#[trigger] sm.entries@[i].recorded_at)
}

/// The JSON entry of one drive of a multi-drive scan.
pub open spec fn scan_drive_json_of(j: ScanDriveJson, name: Seq<char>, path: Seq<char>, result: Result<ScanDriveOutcome, Error>) -> bool {
    &&& j.name@ == name
    &&& j.path@ == path
    &&& match result {
        Ok(ScanDriveOutcome::Empty) => j.status@ == "empty"@ && j.error is None && j.summary is None,
        Ok(ScanDriveOutcome::Found(sm)) => j.status@ == "completed"@ && j.error is None && match j.summary {
            Some(sj) => scan_json_rendered(sj, sm),
            None => false,
        },
        Err(e) => j.status@ == "error"@ && j.summary is None && match j.error {
            Some(m) => m@ == error_text(e),
            None => false,
        },
    }
}

/// One drive's JSON entry for a multi-drive scan: `empty`, `completed`
/// with its inventory, or `error` with the error's text and no
/// inventory.
pub fn scan_drive_json(name: &str, path: &str, result: &Result<ScanDriveOutcome, Error>, tz: &jiff::tz::TimeZone) -> (j: ScanDriveJson)
    requires
        *result matches Ok(ScanDriveOutcome::Found(sm)) ==> scan_instants_ok(sm),
    ensures
        scan_drive_json_of(j, name@, path@, *result),
{
    proof {
        reveal_strlit("empty");
        reveal_strlit("completed");
        reveal_strlit("error");
    }
    match result {
        Ok(ScanDriveOutcome::Empty) => {
            ScanDriveJson { name: owned(name), path: owned(path), status: owned("empty"), error: None, summary: None }
        },
        Ok(ScanDriveOutcome::Found(sm)) => {
            let sj = scan_summary_to_json(sm, tz);
            let j = ScanDriveJson { name: owned(name), path: owned(path), status: owned("completed"), error: None, summary: Some(sj) };
            assert(j.summary->Some_0 == sj);
            j
        },
        Err(e) => {
            ScanDriveJson { name: owned(name), path: owned(path), status: owned("error"), error: Some(e.message()), summary: None }
        },
    }
}

/// One drive's entry in a multi-drive import's JSON.
#[derive(Debug, Clone, PartialEq, Eq)]
pub struct ImportDriveJson {
    pub name: String,
    pub path: String,
    pub status: String,
    pub error: Option<String>,
    pub plan: Option<PlanJson>,
    pub results: Option<ResultsJson>,
}

#[derive(Debug, Clone, PartialEq, Eq)]
pub struct MultiImportJson {
    pub drives: Vec<ImportDriveJson>,
    pub any_failed: bool,
}

/// The JSON entry of one drive of a multi-drive import: never a plan
/// and results both.
pub open spec fn import_drive_json_of(j: ImportDriveJson, name: Seq<char>, path: Seq<char>, result: Result<ImportDriveOutcome, Error>) -> bool {
    &&& j.name@ == name
    &&& j.path@ == path
    &&& match result {
        Ok(ImportDriveOutcome::Empty) => j.status@ == "empty"@ && j.error is None && j.plan is None && j.results is None,
        Ok(ImportDriveOutcome::Planned(p)) => j.status@ == "completed"@ && j.error is None && j.results is None && match j.plan {
            Some(pj) => plan_json_rendered(pj, p),
            None => false,
        },
        Ok(ImportDriveOutcome::Executed { report, any_failed }) =>
            j.status@ == (if any_failed { "completed_with_failures"@ } else { "completed"@ }) && j.error is None && j.plan is None
            && match j.results {
                Some(rj) => results_json_of(rj, report),
                None => false,
            },
        Err(e) => j.status@ == "error"@ && j.plan is None && j.results is None && match j.error {
            Some(m) => m@ == error_text(e),
            None => false,
        },
    }
}

/// One drive's JSON entry for a multi-drive import: `empty`; `completed`
/// with a dry run's plan; `completed` or `completed_with_failures` with
/// an executed run's results; or `error` with the error's text.
pub fn import_drive_json(name: &str, path: &str, result: &Result<ImportDriveOutcome, Error>, tz: &jiff::tz::TimeZone) -> (j: ImportDriveJson)
    requires
        *result matches Ok(ImportDriveOutcome::Planned(p)) ==> plan_instants_ok(p.actions@),
        *result matches Ok(ImportDriveOutcome::Executed { report, .. }) ==> total_files(report.groups@) <= usize::MAX,
    ensures
        import_drive_json_of(j, name@, path@, *result),
{
    proof {
        reveal_strlit("empty");
        reveal_strlit("completed");
        reveal_strlit("completed_with_failures");
        reveal_strlit("error");
    }
    let n = owned(name);
    let pa = owned(path);
    match result {
        Ok(ImportDriveOutcome::Empty) => {
            ImportDriveJson { name: n, path: pa, status: owned("empty"), error: None, plan: None, results: None }
        },
        Ok(ImportDriveOutcome::Planned(p)) => {
            let pj = plan_to_json(p, tz);
            let j = ImportDriveJson { name: n, path: pa, status: owned("completed"), error: None, plan: Some(pj), results: None };
            assert(j.plan->Some_0 == pj);
            j
        },
        Ok(ImportDriveOutcome::Executed { report, any_failed }) => {
            let st = if *any_failed { owned("completed_with_failures") } else { owned("completed") };
            let rj = results_to_json(report);
            let j = ImportDriveJson { name: n, path: pa, status: st, error: None, plan: None, results: Some(rj) };
            assert(j.results->Some_0 == rj);
            j
        },
        Err(e) => {
            ImportDriveJson { name: n, path: pa, status: owned("error"), error: Some(e.message()), plan: None, results: None }
        },
    }
}

/// A plan's summary line accounts for every group: the kept,
/// quarantined and ignored counts add up to the number of actions, and
/// the JSON summary counts the same groups.
pub proof fn lemma_plan_summary_accounts_for_every_group(a: Seq<PlannedAction>)
    requires
        a.len() <= usize::MAX,
    ensures
        slot_groups(a, 0) + slot_groups(a, 1) + slot_groups(a, 2) == a.len(),
        plan_summary_of(a).kept == slot_groups(a, 0),
        plan_summary_of(a).quarantined == slot_groups(a, 1),
        plan_summary_of(a).ignored == slot_groups(a, 2),
        plan_summary_of(a).total == a.len(),
{
    lemma_slot_bounds(a, 0);
    lemma_slot_bounds(a, 1);
    lemma_slot_bounds(a, 2);
}

/// An inventory's summary line accounts for every entry, and the JSON
/// summary counts the same entries.
pub proof fn lemma_scan_summary_accounts_for_every_entry(e: Seq<ScanEntry>)
    requires
        e.len() <= usize::MAX,
    ensures
        scan_slot_groups(e, 0) + scan_slot_groups(e, 1) + scan_slot_groups(e, 2) == e.len(),
        scan_summary_of(e).kept == scan_slot_groups(e, 0),
        scan_summary_of(e).quarantined == scan_slot_groups(e, 1),
        scan_summary_of(e).ignored == scan_slot_groups(e, 2),
        scan_summary_of(e).total == e.len(),
{
    lemma_scan_bounds(e, 0);
    lemma_scan_bounds(e, 1);
    lemma_scan_bounds(e, 2);
}
} // verus!
