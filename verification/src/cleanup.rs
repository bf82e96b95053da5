//! Cleanup of a profile's quarantine directory: which entries a purge
//! plan marks, the refusal to touch a quarantine root that holds the
//! destination, and what a confirmation answer does. Listing the
//! directory and deleting entries is the caller's I/O.

use vstd::prelude::*;
use crate::clock::{instant_nanos, instant_valid, nanos_in_range, UtcInstant};
use crate::order::{insert_sorted_unique, strictly_sorted, views};
use crate::config::{join_of, quarantine_root_of, Profile};
use crate::error::Error;
use crate::paths::last_slash;
use crate::text::{chars_of, owned, push_str, string_of, sub_chars};
use crate::transfer::Confirmation;

verus! {

/// One immediate child of the quarantine root: a group directory or a
/// stray file, with its own age and size.
#[derive(Debug, Clone)]
pub struct CleanupEntry {
    pub name: String,
    pub path: String,
    pub is_dir: bool,
    /// When the entry landed in quarantine: its own modification time.
    pub landed_at: UtcInstant,
    /// Whole seconds between `landed_at` and the plan's `now`.
    pub age_seconds: i64,
    pub size: u64,
    /// Whether executing the plan deletes this entry.
    pub purge: bool,
}

#[derive(Debug, Clone)]
pub struct CleanupPlan {
    pub quarantine_root: String,
    pub entries: Vec<CleanupEntry>,
}

#[derive(Debug, Clone)]
pub struct CleanupResult {
    pub name: String,
    pub path: String,
    pub deleted: bool,
    pub error: Option<String>,
    pub size: u64,
}

#[derive(Debug, Clone)]
pub struct CleanupReport {
    pub results: Vec<CleanupResult>,
    /// Set when the confirmation prompt was declined.
    pub aborted_reason: Option<String>,
}

/// The entries marked (or not) for purging, in order.
pub open spec fn marked(entries: Seq<CleanupEntry>, purge: bool) -> Seq<CleanupEntry>
    decreases entries.len(),
{
    if entries.len() == 0 {
        Seq::empty()
    } else {
        marked(entries.drop_last(), purge) + if entries.last().purge == purge { seq![entries.last()] } else { Seq::empty() }
    }
}

fn select(entries: &Vec<CleanupEntry>, purge: bool) -> (r: Vec<&CleanupEntry>)
    ensures
        r@.map_values(|e: &CleanupEntry| *e) == marked(entries@, purge),
{
    let mut r: Vec<&CleanupEntry> = Vec::new();
    let mut i: usize = 0;
    while i < entries.len()
        invariant
            i <= entries@.len(),
            r@.map_values(|e: &CleanupEntry| *e) == marked(entries@.subrange(0, i as int), purge),
        decreases entries@.len() - i,
    {
        assert(entries@.subrange(0, i + 1).drop_last() =~= entries@.subrange(0, i as int));
        let ghost before = r@;
        let e = &entries[i];
        if e.purge == purge {
            r.push(e);
        }
        assert(r@.map_values(|e: &CleanupEntry| *e) =~= marked(entries@.subrange(0, i + 1), purge));
        i += 1;
    }
    assert(entries@.subrange(0, entries@.len() as int) =~= entries@);
    r
}

impl CleanupPlan {
    /// The entries executing the plan deletes, in plan order.
    pub fn purge_candidates(&self) -> (r: Vec<&CleanupEntry>)
        ensures
            r@.map_values(|e: &CleanupEntry| *e) == marked(self.entries@, true),
    {
        select(&self.entries, true)
    }

    /// The entries the plan keeps, in plan order.
    pub fn kept(&self) -> (r: Vec<&CleanupEntry>)
        ensures
            r@.map_values(|e: &CleanupEntry| *e) == marked(self.entries@, false),
    {
        select(&self.entries, false)
    }
}

/// Whether an entry that landed at `landed` is purged: always without
/// a cutoff, otherwise only when it landed strictly before the cutoff.
pub open spec fn purge_of(landed: UtcInstant, cutoff: Option<UtcInstant>) -> bool {
    match cutoff {
        None => true,
        Some(c) => landed.secs < c.secs || (landed.secs == c.secs && landed.nanos < c.nanos),
    }
}

pub fn should_purge(landed: UtcInstant, cutoff: Option<UtcInstant>) -> (b: bool)
    ensures
        b == purge_of(landed, cutoff),
        cutoff is None ==> b,
        cutoff matches Some(c) ==> (instant_valid(landed) && instant_valid(c) ==> (b <==> instant_nanos(landed)
            < instant_nanos(c))),
{
    proof {
        if let Some(c) = cutoff {
            if instant_valid(landed) && instant_valid(c) {
                lemma_purge_is_landing_before_cutoff(landed, c);
            }
        }
    }
    match cutoff {
        None => true,
        Some(c) => landed.secs < c.secs || (landed.secs == c.secs && landed.nanos < c.nanos),
    }
}

/// The segments of `p` between slashes, in order (empty ones included).
pub open spec fn segments(p: Seq<char>) -> Seq<Seq<char>>
    decreases p.len(),
{
    let k = last_slash(p);
    if k < 0 {
        seq![p]
    } else {
        proof {
            crate::paths::lemma_last_slash_range(p);
        }
        segments(p.subrange(0, k)).push(p.subrange(k + 1, p.len() as int))
    }
}

/// The normal components among `segs[from..]`: neither empty nor `.`.
pub open spec fn normal_parts(segs: Seq<Seq<char>>) -> Seq<Seq<char>>
    decreases segs.len(),
{
    if segs.len() == 0 {
        Seq::empty()
    } else {
        normal_parts(segs.drop_last()) + if segs.last().len() == 0 || segs.last() == seq!['.'] {
            Seq::<Seq<char>>::empty()
        } else {
            seq![segs.last()]
        }
    }
}

/// `Path::components`: the root for an absolute path, a leading `.`
/// for a relative path that starts with one, then every segment that is
/// neither empty nor `.`.
pub open spec fn components_of(p: Seq<char>) -> Seq<Seq<char>> {
    let segs = segments(p);
    if p.len() > 0 && p[0] == '/' {
        seq![seq!['/']] + normal_parts(segs.drop_first())
    } else if segs[0] == seq!['.'] {
        seq![seq!['.']] + normal_parts(segs.drop_first())
    } else {
        normal_parts(segs)
    }
}

/// `Path::starts_with`: `root`'s components are a prefix of `p`'s.
pub open spec fn path_starts_with(p: Seq<char>, root: Seq<char>) -> bool {
    let a = components_of(p);
    let b = components_of(root);
    b.len() <= a.len() && a.subrange(0, b.len() as int) == b
}

fn find_last_slash(cs: &Vec<char>, end: usize) -> (k: Option<usize>)
    requires
        end <= cs@.len(),
    ensures
        match k {
            Some(i) => last_slash(cs@.subrange(0, end as int)) == i && i < end,
            None => last_slash(cs@.subrange(0, end as int)) == -1,
        },
{
    let mut k = end;
    while k > 0 && cs[k - 1] != '/'
        invariant
            k <= end <= cs@.len(),
            forall|j: int| k <= j < end ==> cs@[j] != '/',
        decreases k,
    {
        k -= 1;
    }
    proof {
        let s = cs@.subrange(0, end as int);
        assert forall|j: int| k <= j < s.len() implies s[j] != '/' by {
            assert(s[j] == cs@[j]);
        }
        if k > 0 {
            assert(s[k - 1] == cs@[k - 1]);
        }
        lemma_last_slash_at(s, k - 1);
    }
    if k == 0 { None } else { Some(k - 1) }
}

proof fn lemma_last_slash_at(s: Seq<char>, k: int)
    requires
        -1 <= k < s.len(),
        k >= 0 ==> s[k] == '/',
        forall|j: int| k < j < s.len() ==> s[j] != '/',
    ensures
        last_slash(s) == k,
    decreases s.len(),
{
    if s.len() > 0 && s.last() != '/' {
        lemma_last_slash_at(s.drop_last(), k);
    }
}

/// The segments of `p`, as `segments` describes them.
fn split_segments(cs: &Vec<char>) -> (r: Vec<Vec<char>>)
    ensures
        r@.map_values(|v: Vec<char>| v@) == segments(cs@),
{
    let mut rev: Vec<Vec<char>> = Vec::new();
    let mut end = cs.len();
    assert(cs@.subrange(0, end as int) =~= cs@);
    loop
        invariant
            end <= cs@.len(),
            segments(cs@) == segments(cs@.subrange(0, end as int)) + rev@.map_values(|v: Vec<char>| v@).reverse(),
        decreases end,
    {
        let ghost s = cs@.subrange(0, end as int);
        match find_last_slash(cs, end) {
            None => {
                let last = sub_chars(cs, 0, end);
                let mut out: Vec<Vec<char>> = Vec::new();
                out.push(last);
                let ghost tail = rev@.map_values(|v: Vec<char>| v@).reverse();
                let mut i = rev.len();
                while i > 0
                    invariant
                        i <= rev@.len(),
                        tail == rev@.map_values(|v: Vec<char>| v@).reverse(),
                        out@.map_values(|v: Vec<char>| v@) == seq![s] + tail.subrange(0, (rev@.len() - i) as int),
                    decreases i,
                {
                    i -= 1;
                    let ghost before = out@.map_values(|v: Vec<char>| v@);
                    out.push(sub_chars(&rev[i], 0, rev[i].len()));
                    assert(rev[i as int]@.subrange(0, rev[i as int]@.len() as int) =~= rev[i as int]@);
                    assert(tail[(rev@.len() - 1 - i) as int] == rev@[i as int]@);
                    assert(out@.map_values(|v: Vec<char>| v@) =~= before.push(rev@[i as int]@));
                    assert(tail.subrange(0, (rev@.len() - i) as int) =~= tail.subrange(0, (rev@.len() - i - 1) as int).push(rev@[i as int]@));
                    assert(out@.map_values(|v: Vec<char>| v@) =~= seq![s] + tail.subrange(0, (rev@.len() - i) as int));
                }
                assert(tail.subrange(0, rev@.len() as int) =~= tail);
                assert(segments(s) == seq![s]);
                return out;
            },
            Some(k) => {
                assert(segments(s) == segments(s.subrange(0, k as int)).push(s.subrange(k + 1, s.len() as int)));
                assert(s.subrange(0, k as int) =~= cs@.subrange(0, k as int));
                let seg = sub_chars(cs, k + 1, end);
                let ghost before = rev@.map_values(|v: Vec<char>| v@);
                rev.push(seg);
                assert(rev@.map_values(|v: Vec<char>| v@) =~= before.push(seg@));
                assert(before.push(seg@).reverse() =~= seq![seg@] + before.reverse());
                assert(seg@ =~= s.subrange(k + 1, s.len() as int));
                end = k;
            },
        }
    }
}

/// Whether `x` is the segment `.`.
fn is_dot(x: &Vec<char>) -> (b: bool)
    ensures
        b == (x@ == seq!['.']),
{
    let b = x.len() == 1 && x[0] == '.';
    proof {
        if b {
            assert(x@ =~= seq!['.']);
        }
    }
    b
}

/// The components of `p`, as `components_of` describes them.
fn components(p: &str) -> (r: Vec<Vec<char>>)
    ensures
        r@.map_values(|v: Vec<char>| v@) == components_of(p@),
{
    let cs = chars_of(p);
    let segs = split_segments(&cs);
    let ghost sv = segs@.map_values(|v: Vec<char>| v@);
    proof {
        lemma_segments_nonempty(cs@);
    }
    let abs = cs.len() > 0 && cs[0] == '/';
    let cur = !abs && is_dot(&segs[0]);
    let mut out: Vec<Vec<char>> = Vec::new();
    let start: usize = if abs || cur { 1 } else { 0 };
    if abs {
        let v = vec!['/'];
        assert(v@ =~= seq!['/']);
        out.push(v);
    } else if cur {
        let v = vec!['.'];
        assert(v@ =~= seq!['.']);
        out.push(v);
    }
    let ghost head = out@.map_values(|v: Vec<char>| v@);
    assert(head =~= (if abs { seq![seq!['/']] } else if cur { seq![seq!['.']] } else { Seq::<Seq<char>>::empty() }));
    let mut i = start;
    while i < segs.len()
        invariant
            start <= i <= segs@.len(),
            sv == segs@.map_values(|v: Vec<char>| v@),
            out@.map_values(|v: Vec<char>| v@) == head + normal_parts(sv.subrange(start as int, i as int)),
        decreases segs@.len() - i,
    {
        assert(sv.subrange(start as int, i + 1).drop_last() =~= sv.subrange(start as int, i as int));
        let ghost before = out@.map_values(|v: Vec<char>| v@);
        assert(sv[i as int] == segs@[i as int]@);
        assert(sv.subrange(start as int, i + 1).last() == sv[i as int]);
        let ghost keep = !(sv[i as int].len() == 0 || sv[i as int] == seq!['.']);
        if !(segs[i].len() == 0 || is_dot(&segs[i])) {
            out.push(sub_chars(&segs[i], 0, segs[i].len()));
            assert(segs[i as int]@.subrange(0, segs[i as int]@.len() as int) =~= segs[i as int]@);
            assert(out@.map_values(|v: Vec<char>| v@) =~= before.push(sv[i as int]));
        }
        assert(out@.map_values(|v: Vec<char>| v@) =~= before + (if keep { seq![sv[i as int]] } else { Seq::<Seq<char>>::empty() }));
        assert(out@.map_values(|v: Vec<char>| v@) =~= head + normal_parts(sv.subrange(start as int, i + 1)));
        i += 1;
    }
    assert(sv.subrange(start as int, sv.len() as int) =~= (if start == 1 { sv.drop_first() } else { sv }));
    out
}

proof fn lemma_segments_nonempty(p: Seq<char>)
    ensures
        segments(p).len() >= 1,
        p.len() > 0 && p[0] == '/' ==> segments(p)[0].len() == 0,
    decreases p.len(),
{
    let k = last_slash(p);
    crate::paths::lemma_last_slash_range(p);
    if k >= 0 {
        lemma_segments_nonempty(p.subrange(0, k));
        if p.len() > 0 && p[0] == '/' && k > 0 {
            assert(p.subrange(0, k)[0] == '/');
        }
        if k == 0 {
            assert(last_slash(p.subrange(0, 0)) == -1);
        }
    } else {
        if p.len() > 0 && p[0] == '/' {
            lemma_no_slash(p);
        }
    }
}

proof fn lemma_no_slash(p: Seq<char>)
    requires
        last_slash(p) == -1,
    ensures
        forall|j: int| 0 <= j < p.len() ==> p[j] != '/',
    decreases p.len(),
{
    if p.len() > 0 {
        lemma_no_slash(p.drop_last());
        assert forall|j: int| 0 <= j < p.len() implies p[j] != '/' by {
            if j < p.len() - 1 {
                assert(p.drop_last()[j] == p[j]);
            }
        }
    }
}

fn chars_equal(a: &Vec<char>, b: &Vec<char>) -> (r: bool)
    ensures
        r == (a@ == b@),
{
    if a.len() != b.len() {
        return false;
    }
    let mut i: usize = 0;
    while i < a.len()
        invariant
            i <= a@.len() == b@.len(),
            forall|k: int| 0 <= k < i ==> a@[k] == b@[k],
        decreases a@.len() - i,
    {
        if a[i] != b[i] {
            assert(a@[i as int] != b@[i as int]);
            return false;
        }
        i += 1;
    }
    assert(a@ =~= b@);
    true
}

/// Whether `p`'s components start with `root`'s.
pub fn starts_with(p: &str, root: &str) -> (b: bool)
    ensures
        b == path_starts_with(p@, root@),
{
    let a = components(p);
    let r = components(root);
    let ghost av = a@.map_values(|v: Vec<char>| v@);
    let ghost rv = r@.map_values(|v: Vec<char>| v@);
    if r.len() > a.len() {
        assert(rv.len() > av.len());
        return false;
    }
    let mut i: usize = 0;
    while i < r.len()
        invariant
            i <= r@.len() <= a@.len(),
            av == a@.map_values(|v: Vec<char>| v@),
            rv == r@.map_values(|v: Vec<char>| v@),
            av == components_of(p@),
            rv == components_of(root@),
            forall|k: int| 0 <= k < i ==> av[k] == rv[k],
        decreases r@.len() - i,
    {
        if !chars_equal(&a[i], &r[i]) {
            assert(av[i as int] != rv[i as int]);
            assert(av.subrange(0, rv.len() as int)[i as int] == av[i as int]);
            assert(av.subrange(0, rv.len() as int) != rv);
            return false;
        }
        i += 1;
    }
    assert(av.subrange(0, rv.len() as int) =~= rv);
    true
}

/// Why cleanup refuses a profile: its quarantine root equals or
/// contains its destination, so purging could reach imported footage.
pub open spec fn root_refusal(root: Seq<char>, destination: Seq<char>) -> Option<Seq<char>> {
    if path_starts_with(destination, root) {
        Some("quarantine directory '"@ + root + "' equals or contains destination '"@ + destination
            + "'; refusing to run cleanup"@)
    } else {
        None
    }
}

/// Resolves the profile's quarantine root and refuses it when it equals
/// or contains the destination.
pub fn resolve_and_check_quarantine_root(profile: &Profile) -> (r: Result<String, Error>)
    ensures
        match root_refusal(quarantine_root_of(*profile), profile.destination@) {
            Some(m) => r matches Err(Error::Config(x)) && x@ == m,
            None => r matches Ok(root) && root@ == quarantine_root_of(*profile),
        },
{
    let root = profile.quarantine_root();
    if starts_with(profile.destination.as_str(), root.as_str()) {
        let mut m = owned("quarantine directory '");
        push_str(&mut m, root.as_str());
        push_str(&mut m, "' equals or contains destination '");
        push_str(&mut m, profile.destination.as_str());
        push_str(&mut m, "'; refusing to run cleanup");
        return Err(Error::Config(m));
    }
    Ok(root)
}

/// What executing a purge plan with candidates does on each answer:
/// confirmed, delete them (`Ok(None)`); declined, delete nothing and say
/// why (`Ok(Some(reason))`); no terminal to ask on, refuse outright.
pub fn cleanup_answer(answer: Confirmation) -> (r: Result<Option<String>, Error>)
    ensures
        answer == Confirmation::Confirmed ==> r matches Ok(None),
        answer == Confirmation::DeclinedInteractive ==> (r matches Ok(Some(m))
            && m@ == "deletion declined; quarantine entries were not deleted"@),
        answer == Confirmation::SkippedNonInteractive ==> (r matches Err(Error::Config(m))
            && m@ == "stdin is not a terminal; pass --yes to confirm non-interactively"@),
{
    match answer {
        Confirmation::Confirmed => Ok(None),
        Confirmation::DeclinedInteractive => Ok(Some(owned("deletion declined; quarantine entries were not deleted"))),
        Confirmation::SkippedNonInteractive => Err(Error::Config(owned(
            "stdin is not a terminal; pass --yes to confirm non-interactively",
        ))),
    }
}

/// The result of deleting one candidate: deleted exactly when no error
/// came back.
pub fn cleanup_result(entry: &CleanupEntry, error: Option<String>) -> (r: CleanupResult)
    ensures
        r.name@ == entry.name@,
        r.path@ == entry.path@,
        r.size == entry.size,
        r.deleted == error is None,
        r.error == error,
{
    CleanupResult {
        name: string_of(&chars_of(entry.name.as_str())),
        path: string_of(&chars_of(entry.path.as_str())),
        deleted: error.is_none(),
        error,
        size: entry.size,
    }
}

/// Whether executing a purge plan with these candidates asks for
/// confirmation: only when there is something to delete.
pub fn purge_needs_confirmation(candidates: &Vec<&CleanupEntry>) -> (b: bool)
    ensures
        b == (candidates@.len() > 0),
{
    candidates.len() > 0
}

/// The report of executing a purge plan whose candidates are
/// `candidates`, given the confirmation answer (asked only when there are
/// candidates) and, once confirmed, what deleting each candidate gave
/// back (`None` for success): no candidates, an empty report and nothing
/// asked; confirmed, one result per candidate, in order; declined, no
/// result and the reason; no terminal to ask on, the configuration error
/// of `cleanup_answer`.
pub fn cleanup_report_of(candidates: &Vec<&CleanupEntry>, answer: Option<Confirmation>, errors: Vec<Option<String>>)
    -> (r: Result<CleanupReport, Error>)
    requires
        candidates@.len() > 0 ==> answer is Some,
        answer == Some(Confirmation::Confirmed) ==> errors@.len() == candidates@.len(),
    ensures
        candidates@.len() == 0 ==> (r matches Ok(rep) && rep.results@.len() == 0 && rep.aborted_reason is None),
        candidates@.len() > 0 && answer == Some(Confirmation::Confirmed) ==> (r matches Ok(rep)
            && rep.aborted_reason is None
            && rep.results@.len() == candidates@.len()
            && forall|i: int| 0 <= i < candidates@.len() ==> {
                let (res, e) = (#[trigger] rep.results@[i], *candidates@[i]);
                &&& res.name@ == e.name@
                &&& res.path@ == e.path@
                &&& res.size == e.size
                &&& res.deleted == errors@[i] is None
                &&& res.error == errors@[i]
            }),
        candidates@.len() > 0 && answer == Some(Confirmation::DeclinedInteractive) ==> (r matches Ok(rep)
            && rep.results@.len() == 0
            && (rep.aborted_reason matches Some(m) && m@ == "deletion declined; quarantine entries were not deleted"@)),
        candidates@.len() > 0 && answer == Some(Confirmation::SkippedNonInteractive) ==> (r matches Err(Error::Config(m))
            && m@ == "stdin is not a terminal; pass --yes to confirm non-interactively"@),
{
    let answer = match answer {
        Some(a) if candidates.len() > 0 => a,
        _ => {
            return Ok(CleanupReport { results: Vec::new(), aborted_reason: None });
        },
    };
    match cleanup_answer(answer) {
        Err(e) => Err(e),
        Ok(Some(reason)) => Ok(CleanupReport { results: Vec::new(), aborted_reason: Some(reason) }),
        Ok(None) => {
            let mut results: Vec<CleanupResult> = Vec::new();
            let mut errors = errors;
            let ghost all = errors@;
            let mut i: usize = 0;
            while i < candidates.len()
                invariant
                    i <= candidates@.len() == all.len(),
                    errors@ == all.subrange(i as int, all.len() as int),
                    results@.len() == i,
                    forall|k: int| 0 <= k < i ==> {
                        let (res, e) = (#[trigger] results@[k], *candidates@[k]);
                        &&& res.name@ == e.name@
                        &&& res.path@ == e.path@
                        &&& res.size == e.size
                        &&& res.deleted == all[k] is None
                        &&& res.error == all[k]
                    },
                decreases candidates@.len() - i,
            {
                let error = errors.remove(0);
                results.push(cleanup_result(candidates[i], error));
                i += 1;
            }
            Ok(CleanupReport { results, aborted_reason: None })
        },
    }
}

/// Whether any entry failed to delete (the run then exits with failure).
pub fn cleanup_any_failed(report: &CleanupReport) -> (b: bool)
    ensures
        b == exists|i: int| 0 <= i < report.results@.len() && !(#[trigger] report.results@[i]).deleted,
{
    let mut i: usize = 0;
    while i < report.results.len()
        invariant
            i <= report.results@.len(),
            forall|k: int| 0 <= k < i ==> (#[trigger] report.results@[k]).deleted,
        decreases report.results@.len() - i,
    {
        if !report.results[i].deleted {
            return true;
        }
        i += 1;
    }
    false
}


/// An instant's whole seconds, truncated toward zero as `jiff`'s
/// `Timestamp::as_second` counts them.
pub open spec fn whole_seconds(t: UtcInstant) -> int {
    if t.secs < 0 && t.nanos > 0 { t.secs + 1 } else { t.secs as int }
}

fn whole_seconds_exec(t: UtcInstant) -> (s: i64)
    requires
        instant_valid(t),
    ensures
        s == whole_seconds(t),
{
    if t.secs < 0 && t.nanos > 0 { t.secs + 1 } else { t.secs }
}

/// The plan entry of one child of the quarantine root: its age in whole
/// seconds against `now`, and whether the cutoff purges it.
pub fn cleanup_entry(name: String, path: String, is_dir: bool, landed_at: UtcInstant, size: u64, now: UtcInstant,
    cutoff: Option<UtcInstant>) -> (e: CleanupEntry)
    requires
        instant_valid(landed_at),
        instant_valid(now),
    ensures
        e.name == name,
        e.path == path,
        e.is_dir == is_dir,
        e.landed_at == landed_at,
        e.size == size,
        e.age_seconds == whole_seconds(now) - whole_seconds(landed_at),
        e.purge == purge_of(landed_at, cutoff),
        cutoff is None ==> e.purge,
{
    let age = whole_seconds_exec(now) - whole_seconds_exec(landed_at);
    CleanupEntry { name, path, is_dir, landed_at, age_seconds: age, size, purge: should_purge(landed_at, cutoff) }
}

/// The entries named `n`, in order.
pub open spec fn named(es: Seq<CleanupEntry>, n: Seq<char>) -> Seq<CleanupEntry>
    decreases es.len(),
{
    if es.len() == 0 {
        Seq::empty()
    } else {
        named(es.drop_last(), n) + if es.last().name@ == n { seq![es.last()] } else { Seq::empty() }
    }
}

/// The entries grouped by the names `ns`, in that order.
pub open spec fn by_names(es: Seq<CleanupEntry>, ns: Seq<Seq<char>>) -> Seq<CleanupEntry>
    decreases ns.len(),
{
    if ns.len() == 0 { Seq::empty() } else { by_names(es, ns.drop_last()) + named(es, ns.last()) }
}

/// Whether `ns` lists every entry name once, in text order.
pub open spec fn name_order(ns: Seq<Seq<char>>, es: Seq<CleanupEntry>) -> bool {
    &&& strictly_sorted(ns)
    &&& forall|x: Seq<char>| ns.contains(x) <==> exists|i: int| 0 <= i < es.len() && (#[trigger] es[i]).name@ == x
}

fn copy_entry(e: &CleanupEntry) -> (r: CleanupEntry)
    ensures
        r == *e,
{
    CleanupEntry {
        name: e.name.clone(),
        path: e.path.clone(),
        is_dir: e.is_dir,
        landed_at: e.landed_at,
        age_seconds: e.age_seconds,
        size: e.size,
        purge: e.purge,
    }
}

/// The entries in name order (a stable sort by name).
pub fn order_entries(entries: &Vec<CleanupEntry>) -> (r: Vec<CleanupEntry>)
    ensures
        exists|ns: Seq<Seq<char>>| #[trigger] name_order(ns, entries@) && r@ == by_names(entries@, ns),
{
    let ghost es = entries@;
    let mut names: Vec<String> = Vec::new();
    let mut i: usize = 0;
    while i < entries.len()
        invariant
            i <= es.len(),
            es == entries@,
            strictly_sorted(views(names@)),
            forall|x: Seq<char>| views(names@).contains(x) <==> exists|k: int| 0 <= k < i && (#[trigger] es[k]).name@ == x,
        decreases es.len() - i,
    {
        insert_sorted_unique(&mut names, entries[i].name.as_str());
        proof {
            assert forall|x: Seq<char>| views(names@).contains(x) <==> exists|k: int| 0 <= k < i + 1 && (#[trigger] es[k]).name@ == x by {
                if x == es[i as int].name@ {
                    assert(es[i as int].name@ == x);
                }
            }
        }
        i += 1;
    }
    let mut out: Vec<CleanupEntry> = Vec::new();
    let mut n: usize = 0;
    while n < names.len()
        invariant
            n <= names@.len(),
            es == entries@,
            out@ == by_names(es, views(names@).subrange(0, n as int)),
        decreases names@.len() - n,
    {
        assert(views(names@).subrange(0, n + 1).drop_last() =~= views(names@).subrange(0, n as int));
        assert(views(names@).subrange(0, n + 1).last() == names@[n as int]@);
        let ghost before = out@;
        let mut j: usize = 0;
        while j < entries.len()
            invariant
                j <= es.len(),
                es == entries@,
                n < names@.len(),
                out@ == before + named(es.subrange(0, j as int), names@[n as int]@),
            decreases es.len() - j,
        {
            assert(es.subrange(0, j + 1).drop_last() =~= es.subrange(0, j as int));
            assert(es.subrange(0, j + 1).last() == es[j as int]);
            if crate::text::same_text(entries[j].name.as_str(), names[n].as_str()) {
                out.push(copy_entry(&entries[j]));
            }
            assert(out@ =~= before + named(es.subrange(0, j + 1), names@[n as int]@));
            j += 1;
        }
        assert(es.subrange(0, es.len() as int) =~= es);
        n += 1;
    }
    assert(views(names@).subrange(0, names@.len() as int) =~= views(names@));
    assert(name_order(views(names@), es));
    out
}

#[verifier::external_type_specification]
#[verifier::external_body]
pub struct ExSpan(jiff::Span);

/// `now.to_zoned(tz).checked_sub(span)`: the instant `span` before `now`
/// on the calendar of `tz`, as `jiff`'s whole seconds and nanoseconds
/// into them (which share their sign), or `jiff`'s error text. Where it
/// lands depends on the zone's rules, so of the instant only that it is
/// a timestamp's is promised.
#[verifier::external_body]
fn span_before_in_zone(now: UtcInstant, span: jiff::Span, tz: &jiff::tz::TimeZone) -> (r: Result<(i64, i32), String>)
    ensures
        r matches Ok(p) ==> -1_000_000_000 < p.1 < 1_000_000_000 && nanos_in_range(p.0 * 1_000_000_000 + p.1),
{
    let ts = match jiff::Timestamp::new(now.secs, now.nanos) {
        Ok(ts) => ts,
        Err(e) => return Err(e.to_string()),
    };
    match ts.to_zoned(tz.clone()).checked_sub(span) {
        Ok(z) => Ok((z.timestamp().as_second(), z.timestamp().subsec_nanosecond())),
        Err(e) => Err(e.to_string()),
    }
}

/// The purge cutoff of `--older-than`: the given span before `now` on
/// the configured zone's calendar, none without the flag. A span that
/// cannot be taken from `now` is a configuration error naming the flag.
pub fn cleanup_cutoff(now: UtcInstant, older_than: Option<jiff::Span>, tz: &jiff::tz::TimeZone) -> (r: Result<Option<UtcInstant>, Error>)
    requires
        instant_valid(now),
    ensures
        older_than is None ==> r matches Ok(None),
        r matches Ok(Some(t)) ==> instant_valid(t),
        older_than is Some ==> !(r matches Ok(None)),
        r is Err ==> older_than is Some,
        r matches Err(e) ==> e matches Error::Config(x) && exists|m: Seq<char>| x@ == "--older-than: "@ + m,
{
    let span = match older_than {
        Some(span) => span,
        None => return Ok(None),
    };
    match span_before_in_zone(now, span, tz) {
        Ok((s, n)) => {
            let ghost total = s * 1_000_000_000 + n;
            if n < 0 {
                proof {
                    vstd::arithmetic::div_mod::lemma_fundamental_div_mod_converse(total, 1_000_000_000, s - 1,
                        n + 1_000_000_000);
                }
                Ok(Some(UtcInstant { secs: s - 1, nanos: n + 1_000_000_000 }))
            } else {
                proof {
                    vstd::arithmetic::div_mod::lemma_fundamental_div_mod_converse(total, 1_000_000_000, s as int, n as int);
                }
                Ok(Some(UtcInstant { secs: s, nanos: n }))
            }
        },
        Err(m) => {
            let mut msg = owned("--older-than: ");
            push_str(&mut msg, m.as_str());
            proof {
                reveal_strlit("--older-than: ");
                assert(msg@ == "--older-than: "@ + m@);
            }
            Err(Error::Config(msg))
        },
    }
}


/// Without a cutoff every entry is a purge candidate; with one, an entry
/// is a candidate exactly when it landed strictly before the cutoff
/// instant (compared to the nanosecond).
pub proof fn lemma_purge_is_landing_before_cutoff(landed: UtcInstant, c: UtcInstant)
    requires
        instant_valid(landed),
        instant_valid(c),
    ensures
        purge_of(landed, None),
        purge_of(landed, Some(c)) <==> instant_nanos(landed) < instant_nanos(c),
{
    let a = landed.secs as int;
    let b = c.secs as int;
    let x = landed.nanos as int;
    let y = c.nanos as int;
    assert(a < b ==> a * 1_000_000_000 + x < b * 1_000_000_000 + y) by (nonlinear_arith)
        requires
            0 <= x < 1_000_000_000,
            0 <= y < 1_000_000_000,
    ;
    assert(a > b ==> a * 1_000_000_000 + x > b * 1_000_000_000 + y) by (nonlinear_arith)
        requires
            0 <= x < 1_000_000_000,
            0 <= y < 1_000_000_000,
    ;
}

} // verus!
