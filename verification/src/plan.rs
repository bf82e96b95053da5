//! Scan → plan: a device's findings turned into a fully resolved import
//! plan, and into the source-only inventory `scan` prints. Planning is
//! pure data transformation; the scan itself (walking the card) is the
//! caller's I/O and arrives here as a list of groups and verdicts.

use vstd::prelude::*;
use crate::clock::UtcInstant;
use crate::config::layout::{dates_rendered, dates_open, resolve_text};
use crate::config::{join_of, join_path, quarantine_root_of, Profile};
use crate::error::Error;
use crate::source::Verdict;

verus! {

/// A single file belonging to a media group.
#[derive(Debug, Clone, PartialEq, Eq)]
pub struct MediaFile {
    pub path: String,
    pub size: u64,
    /// When the file was actually recorded, when the device knows.
    pub recorded_at: Option<UtcInstant>,
}

/// A point of interest within a group's footage (a GoPro HiLight press).
#[derive(Debug, Clone, PartialEq, Eq)]
pub struct Marker {
    pub timestamp: UtcInstant,
    pub label: Option<String>,
}

/// A device-authored metadata file planned alongside a group's media:
/// its file name, its JSON text, and where the group's timestamp came
/// from when the device records that (`"gps"`, `"camera"`, ...).
#[derive(Debug, Clone, PartialEq, Eq)]
pub struct Sidecar {
    pub filename: String,
    pub content: String,
    pub time_source: Option<String>,
}

/// One unit of import planning: related files sharing a timestamp, the
/// context values layout templates resolve fields from, and an optional
/// sidecar.
#[derive(Debug, Clone, PartialEq, Eq)]
pub struct MediaGroup {
    pub name: String,
    pub files: Vec<MediaFile>,
    pub timestamp: UtcInstant,
    pub markers: Vec<Marker>,
    pub context: Vec<(String, String)>,
    pub sidecar: Option<Sidecar>,
}

/// A group with its verdict and resolved destination (`Keep`) or
/// quarantine directory (`Quarantine`; absent when quarantined footage
/// is not copied).
#[derive(Debug, Clone)]
pub struct PlannedAction {
    pub group: MediaGroup,
    pub verdict: Verdict,
    pub destination: Option<String>,
    pub quarantine_path: Option<String>,
}

#[derive(Debug, Clone)]
pub struct ImportPlan {
    pub actions: Vec<PlannedAction>,
}

/// One entry of `scan`'s source-only inventory: everything reportable
/// without resolving a path.
#[derive(Debug, Clone)]
pub struct ScanEntry {
    pub name: String,
    pub verdict: Verdict,
    pub file_count: usize,
    pub total_size: u64,
    pub recorded_at: UtcInstant,
    pub files: Vec<String>,
}

#[derive(Debug, Clone)]
pub struct ScanSummary {
    pub entries: Vec<ScanEntry>,
}

/// The groups that hold at least one file, in order.
pub open spec fn nonempty(groups: Seq<(MediaGroup, Verdict)>) -> Seq<(MediaGroup, Verdict)>
    decreases groups.len(),
{
    if groups.len() == 0 {
        Seq::empty()
    } else {
        nonempty(groups.drop_last()) + if groups.last().0.files@.len() > 0 { seq![groups.last()] } else { Seq::empty() }
    }
}

/// The group's timestamp is one a `jiff::Timestamp` can hold.
pub open spec fn instant_ok(t: UtcInstant) -> bool {
    crate::clock::instant_valid(t)
}

/// Drops every group without files: no plan or inventory ever holds a
/// zero-file group, whichever device produced it.
pub fn drop_empty_groups(groups: Vec<(MediaGroup, Verdict)>) -> (r: Vec<(MediaGroup, Verdict)>)
    ensures
        r@ == nonempty(groups@),
{
    let ghost all = groups@;
    let mut rev: Vec<(MediaGroup, Verdict)> = Vec::new();
    let mut rest = groups;
    while rest.len() > 0
        invariant
            all == rest@ + rev@.reverse(),
        decreases rest@.len(),
    {
        let ghost before = rev@;
        let ghost rest0 = rest@;
        let g = rest.pop().unwrap();
        rev.push(g);
        assert(rest0 =~= rest@.push(g));
        assert(rev@.reverse() =~= seq![g] + before.reverse());
        assert(all =~= rest@ + rev@.reverse());
    }
    let mut out: Vec<(MediaGroup, Verdict)> = Vec::new();
    let ghost total = rev@.len();
    assert(all =~= rev@.reverse());
    while rev.len() > 0
        invariant
            rev@.len() <= total,
            all == all.subrange(0, total - rev@.len()) + rev@.reverse(),
            out@ == nonempty(all.subrange(0, total - rev@.len())),
            total == all.len(),
        decreases rev@.len(),
    {
        let ghost k = total - rev@.len();
        let ghost rev0 = rev@;
        let g = rev.pop().unwrap();
        assert(rev0 =~= rev@.push(g));
        assert(rev0.reverse() =~= seq![g] + rev@.reverse());
        assert(all[k] == rev0.reverse()[0]);
        assert(all[k] == g);
        assert(all =~= all.subrange(0, k + 1) + rev@.reverse());
        assert(all.subrange(0, k + 1).drop_last() =~= all.subrange(0, k));
        if g.0.files.len() > 0 {
            out.push(g);
        }
    }
    assert(all.subrange(0, total as int) =~= all);
    out
}

/// Where a quarantined group is copied: under the quarantine root, in a
/// directory named after the group — unless quarantined footage is not
/// copied. Other verdicts have no quarantine path.
pub open spec fn quarantine_path_of(p: Profile, g: MediaGroup, v: Verdict) -> Option<Seq<char>> {
    match v {
        Verdict::Quarantine => if p.copy_quarantine { Some(join_of(quarantine_root_of(p), g.name@)) } else { None },
        _ => None,
    }
}

/// `dest` is where the profile's layout files `g` under its destination,
/// for some rendering of the template's date fields.
pub open spec fn layout_places(p: Profile, g: MediaGroup, dest: Seq<char>) -> bool {
    exists|off: int, d: Seq<Seq<char>>| #[trigger] dates_rendered(p.layout.tokens(), g.timestamp, off, d)
        && (resolve_text(p.layout.tokens(), g.context@, d) matches Ok(t) && dest == join_of(p.destination@, t))
}

/// The layout cannot place `g`: a field it names has no value.
pub open spec fn layout_fails(p: Profile, g: MediaGroup, m: Seq<char>) -> bool {
    exists|off: int, d: Seq<Seq<char>>| #[trigger] dates_rendered(p.layout.tokens(), g.timestamp, off, d)
        && (resolve_text(p.layout.tokens(), g.context@, d) == Err::<Seq<char>, Seq<char>>(m)
        || dates_open(p.layout.tokens(), g.timestamp, off))
}

pub open spec fn str_opt(o: Option<String>) -> Option<Seq<char>> {
    match o {
        Some(s) => Some(s@),
        None => None,
    }
}

/// Whether `a` is the planned action for `gv` under profile `p`.
pub open spec fn action_for(p: Profile, gv: (MediaGroup, Verdict), a: PlannedAction) -> bool {
    &&& a.group == gv.0
    &&& a.verdict == gv.1
    &&& str_opt(a.quarantine_path) == quarantine_path_of(p, gv.0, gv.1)
    &&& match gv.1 {
        Verdict::Keep => (a.destination matches Some(x) && layout_places(p, gv.0, x@)),
        _ => a.destination is None,
    }
}

/// Builds the import plan for the groups a scan found: zero-file groups
/// are dropped; a kept group's destination comes from the profile's
/// layout, a quarantined group's from the quarantine root (when copied);
/// the first kept group the layout cannot place fails the plan.
pub fn build_plan(profile: &Profile, groups: Vec<(MediaGroup, Verdict)>, tz: &jiff::tz::TimeZone) -> (r: Result<ImportPlan, Error>)
    requires
        forall|i: int| 0 <= i < groups@.len() ==> instant_ok((#[trigger] groups@[i]).0.timestamp),
    ensures
        match r {
            Ok(plan) => plan.actions@.len() == nonempty(groups@).len()
                && forall|i: int| 0 <= i < plan.actions@.len() ==> action_for(*profile, nonempty(groups@)[i], #[trigger] plan.actions@[i]),
            Err(e) => e matches Error::Template(m) && exists|i: int| 0 <= i < nonempty(groups@).len()
                && (#[trigger] nonempty(groups@)[i]).1 == Verdict::Keep && layout_fails(*profile, nonempty(groups@)[i].0, m@),
        },
{
    let ghost all = groups@;
    proof {
        lemma_nonempty_subset(all);
    }
    let kept = drop_empty_groups(groups);
    let ghost ne = kept@;
    let mut rev: Vec<(MediaGroup, Verdict)> = Vec::new();
    let mut rest = kept;
    while rest.len() > 0
        invariant
            ne == rest@ + rev@.reverse(),
        decreases rest@.len(),
    {
        let ghost before = rev@;
        let ghost rest0 = rest@;
        let g = rest.pop().unwrap();
        rev.push(g);
        assert(rest0 =~= rest@.push(g));
        assert(rev@.reverse() =~= seq![g] + before.reverse());
        assert(ne =~= rest@ + rev@.reverse());
    }
    assert(ne =~= rev@.reverse());
    let root = profile.quarantine_root();
    let mut actions: Vec<PlannedAction> = Vec::new();
    let ghost total = ne.len();
    while rev.len() > 0
        invariant
            rev@.len() <= total == ne.len(),
            ne == nonempty(all),
            all == groups@,
            root@ == quarantine_root_of(*profile),
            forall|i: int| 0 <= i < ne.len() ==> instant_ok((#[trigger] ne[i]).0.timestamp),
            ne == ne.subrange(0, total - rev@.len()) + rev@.reverse(),
            actions@.len() == total - rev@.len(),
            forall|i: int| 0 <= i < actions@.len() ==> action_for(*profile, ne[i], #[trigger] actions@[i]),
        decreases rev@.len(),
    {
        let ghost k = total - rev@.len();
        let ghost rev0 = rev@;
        let (group, verdict) = rev.pop().unwrap();
        assert(rev0 =~= rev@.push((group, verdict)));
        assert(rev0.reverse() =~= seq![(group, verdict)] + rev@.reverse());
        assert(ne[k] == rev0.reverse()[0]);
        assert(ne =~= ne.subrange(0, k + 1) + rev@.reverse());
        assert(instant_ok(ne[k].0.timestamp));
        let (destination, quarantine_path) = match &verdict {
            Verdict::Keep => {
                let relative = match profile.layout.resolve(&group.context, group.timestamp, tz) {
                    Ok(t) => t,
                    Err(e) => {
                        proof {
                            assert(ne[k].1 == Verdict::Keep);
                            assert(ne[k].0 == group);
                            assert(layout_fails(*profile, ne[k].0, e->Template_0@));
                            assert(nonempty(groups@)[k] == ne[k]);
                        }
                        return Err(e);
                    },
                };
                (Some(join_path(profile.destination.as_str(), relative.as_str())), None)
            },
            Verdict::Quarantine => {
                if profile.copy_quarantine {
                    (None, Some(join_path(root.as_str(), group.name.as_str())))
                } else {
                    (None, None)
                }
            },
            Verdict::Ignore(_) => (None, None),
        };
        actions.push(PlannedAction { group, verdict, destination, quarantine_path });
    }
    Ok(ImportPlan { actions })
}

proof fn lemma_nonempty_subset(groups: Seq<(MediaGroup, Verdict)>)
    ensures
        forall|i: int| 0 <= i < nonempty(groups).len() ==> exists|j: int| 0 <= j < groups.len() && #[trigger] nonempty(groups)[i] == groups[j],
    decreases groups.len(),
{
    if groups.len() > 0 {
        lemma_nonempty_subset(groups.drop_last());
        let pre = nonempty(groups.drop_last());
        assert forall|i: int| 0 <= i < nonempty(groups).len() implies exists|j: int| 0 <= j < groups.len() && #[trigger] nonempty(groups)[i] == groups[j] by {
            if i < pre.len() {
                assert(nonempty(groups)[i] == pre[i]);
                let j = choose|j: int| 0 <= j < groups.drop_last().len() && pre[i] == groups.drop_last()[j];
                assert(groups.drop_last()[j] == groups[j]);
            } else {
                assert(nonempty(groups)[i] == groups[groups.len() - 1]);
            }
        }
    }
}

/// The sizes of `files`, summed.
pub open spec fn files_size(files: Seq<MediaFile>) -> nat
    decreases files.len(),
{
    if files.len() == 0 { 0 } else { files_size(files.drop_last()) + files.last().size as nat }
}

/// The inventory entry of one group: its name, verdict, file count,
/// total size, recorded time and every file's path.
pub open spec fn entry_for(gv: (MediaGroup, Verdict), e: ScanEntry) -> bool {
    &&& e.name == gv.0.name
    &&& e.verdict == gv.1
    &&& e.file_count == gv.0.files@.len()
    &&& e.total_size == files_size(gv.0.files@)
    &&& e.recorded_at == gv.0.timestamp
    &&& e.files@.len() == gv.0.files@.len()
    &&& forall|i: int| 0 <= i < e.files@.len() ==> (#[trigger] e.files@[i])@ == gv.0.files@[i].path@
}

pub fn group_size(files: &Vec<MediaFile>) -> (s: u64)
    requires
        files_size(files@) <= u64::MAX,
    ensures
        s == files_size(files@),
{
    let mut s: u64 = 0;
    let mut i: usize = 0;
    while i < files.len()
        invariant
            i <= files@.len(),
            files_size(files@) <= u64::MAX,
            s == files_size(files@.subrange(0, i as int)),
        decreases files@.len() - i,
    {
        assert(files@.subrange(0, i + 1).drop_last() =~= files@.subrange(0, i as int));
        proof {
            lemma_files_size_prefix(files@, i + 1);
        }
        s += files[i].size;
        i += 1;
    }
    assert(files@.subrange(0, files@.len() as int) =~= files@);
    s
}

proof fn lemma_files_size_prefix(files: Seq<MediaFile>, i: int)
    requires
        0 <= i <= files.len(),
    ensures
        files_size(files.subrange(0, i)) <= files_size(files),
    decreases files.len() - i,
{
    if i < files.len() {
        lemma_files_size_prefix(files, i + 1);
        assert(files.subrange(0, i + 1).drop_last() =~= files.subrange(0, i));
    } else {
        assert(files.subrange(0, i) =~= files);
    }
}

/// Builds `scan`'s source-only inventory: one entry per group that holds
/// files, never resolving a destination or quarantine path.
pub fn build_scan_summary(groups: Vec<(MediaGroup, Verdict)>) -> (r: ScanSummary)
    requires
        forall|i: int| 0 <= i < groups@.len() ==> files_size((#[trigger] groups@[i]).0.files@) <= u64::MAX,
    ensures
        r.entries@.len() == nonempty(groups@).len(),
        forall|i: int| 0 <= i < r.entries@.len() ==> entry_for(nonempty(groups@)[i], #[trigger] r.entries@[i]),
{
    let ghost all = groups@;
    proof {
        lemma_nonempty_subset(all);
    }
    let kept = drop_empty_groups(groups);
    let ghost ne = kept@;
    let mut rev: Vec<(MediaGroup, Verdict)> = Vec::new();
    let mut rest = kept;
    while rest.len() > 0
        invariant
            ne == rest@ + rev@.reverse(),
        decreases rest@.len(),
    {
        let ghost before = rev@;
        let ghost rest0 = rest@;
        let g = rest.pop().unwrap();
        rev.push(g);
        assert(rest0 =~= rest@.push(g));
        assert(rev@.reverse() =~= seq![g] + before.reverse());
        assert(ne =~= rest@ + rev@.reverse());
    }
    assert(ne =~= rev@.reverse());
    let mut entries: Vec<ScanEntry> = Vec::new();
    let ghost total = ne.len();
    while rev.len() > 0
        invariant
            rev@.len() <= total == ne.len(),
            ne == nonempty(all),
            forall|i: int| 0 <= i < ne.len() ==> files_size((#[trigger] ne[i]).0.files@) <= u64::MAX,
            ne == ne.subrange(0, total - rev@.len()) + rev@.reverse(),
            entries@.len() == total - rev@.len(),
            forall|i: int| 0 <= i < entries@.len() ==> entry_for(ne[i], #[trigger] entries@[i]),
        decreases rev@.len(),
    {
        let ghost k = total - rev@.len();
        let ghost rev0 = rev@;
        let (group, verdict) = rev.pop().unwrap();
        assert(rev0 =~= rev@.push((group, verdict)));
        assert(rev0.reverse() =~= seq![(group, verdict)] + rev@.reverse());
        assert(ne[k] == rev0.reverse()[0]);
        assert(ne =~= ne.subrange(0, k + 1) + rev@.reverse());
        assert(files_size(ne[k].0.files@) <= u64::MAX);
        let total_size = group_size(&group.files);
        let mut files: Vec<String> = Vec::new();
        let mut j: usize = 0;
        while j < group.files.len()
            invariant
                j <= group.files@.len(),
                files@.len() == j,
                forall|x: int| 0 <= x < j ==> (#[trigger] files@[x])@ == group.files@[x].path@,
            decreases group.files@.len() - j,
        {
            files.push(group.files[j].path.clone());
            j += 1;
        }
        let file_count = group.files.len();
        let recorded_at = group.timestamp;
        entries.push(ScanEntry { name: group.name, verdict, file_count, total_size, recorded_at, files });
    }
    ScanSummary { entries }
}

/// No plan or inventory holds a group without files: every group that
/// survives the scan filter has at least one.
pub proof fn lemma_no_zero_file_groups(groups: Seq<(MediaGroup, Verdict)>)
    ensures
        forall|i: int| 0 <= i < nonempty(groups).len() ==> (#[trigger] nonempty(groups)[i]).0.files@.len() > 0,
    decreases groups.len(),
{
    if groups.len() > 0 {
        lemma_no_zero_file_groups(groups.drop_last());
        let pre = nonempty(groups.drop_last());
        assert forall|i: int| 0 <= i < nonempty(groups).len() implies (#[trigger] nonempty(groups)[i]).0.files@.len() > 0 by {
            if i < pre.len() {
                assert(nonempty(groups)[i] == pre[i]);
            }
        }
    }
}

} // verus!
