//! GoPro HERO8 cards: chapter file names, the `1*GOPRO` directories
//! they live in, and the marker-driven keep/quarantine verdict of a
//! recording session.

use vstd::prelude::*;
use crate::source::{Verdict, VerdictModel};
use crate::text::{chars_of, dec, digit_of, is_digit, owned, push_char, push_dec, push_padded, push_str, string_of, sub_chars};
use crate::clock::{add_millis, instant_nanos, instant_valid, nanos_in_range, zero_padded, UtcInstant};
use crate::plan::{Marker, MediaFile, MediaGroup, Sidecar};
use crate::paths::{file_name, file_name_of};
use crate::order::{insert_sorted_unique, strictly_sorted, views};

verus! {

pub struct GoproSource {
    pub require_marker: bool,
}

/// How many bytes UTF-8 spends on `c`.
pub open spec fn utf8_width(c: char) -> nat {
    if (c as int) < 0x80 { 1 } else if (c as int) < 0x800 { 2 } else if (c as int) < 0x10000 { 3 } else { 4 }
}

/// The UTF-8 length of `s` in bytes.
pub open spec fn utf8_len(s: Seq<char>) -> nat
    decreases s.len(),
{
    if s.len() == 0 { 0 } else { utf8_len(s.drop_last()) + utf8_width(s.last()) }
}

/// Whether byte offset `b` of `s`'s UTF-8 text falls between characters.
pub open spec fn byte_boundary(s: Seq<char>, b: nat) -> bool {
    exists|k: int| 0 <= k <= s.len() && utf8_len(#[trigger] s.subrange(0, k)) == b
}

/// Whether every character of `s` is ASCII.
pub open spec fn ascii(s: Seq<char>) -> bool {
    forall|i: int| 0 <= i < s.len() ==> (#[trigger] s[i]) as int <= 0x7f
}

/// `c` compared without ASCII case.
pub open spec fn ascii_lower(c: char) -> char {
    if 'A' <= c <= 'Z' { ((c as int) + 32) as char } else { c }
}

/// A HERO8 chapter file name, `G[XH]ccnnnn.MP4` (extension in any
/// case): its chapter number `cc` and its session number `nnnn`.
pub open spec fn chapter_of(name: Seq<char>) -> Option<(u32, Seq<char>)> {
    if name.len() == 12 && ascii(name) && name[0] == 'G' && (name[1] == 'X' || name[1] == 'H')
        && (forall|i: int| 2 <= i < 8 ==> is_digit(#[trigger] name[i]))
        && name[8] == '.' && ascii_lower(name[9]) == 'm' && ascii_lower(name[10]) == 'p' && name[11] == '4' {
        Some(((digit_of(name[2]) * 10 + digit_of(name[3])) as u32, name.subrange(4, 8)))
    } else {
        None
    }
}

fn is_ascii_char(c: char) -> (b: bool)
    ensures
        b == (c as int <= 0x7f),
{
    (c as u32) <= 0x7f
}

/// Parses a HERO8 chapter file name into its chapter and session
/// numbers. The name is cut at its eighth byte, so a twelve-byte name
/// must not have a character straddling that byte.
pub fn parse_chapter_name(file_name: &str) -> (r: Option<(u32, String)>)
    requires
        utf8_len(file_name@) == 12 ==> byte_boundary(file_name@, 8),
    ensures
        match chapter_of(file_name@) {
            Some((c, s)) => r matches Some((x, y)) && x == c && y@ == s,
            None => r is None,
        },
{
    let cs = chars_of(file_name);
    let mut ascii_all = true;
    let mut i: usize = 0;
    while i < cs.len()
        invariant
            i <= cs@.len(),
            cs@ == file_name@,
            ascii_all == ascii(cs@.subrange(0, i as int)),
        decreases cs@.len() - i,
    {
        assert(cs@.subrange(0, i + 1).drop_last() =~= cs@.subrange(0, i as int));
        if !is_ascii_char(cs[i]) {
            ascii_all = false;
        }
        proof {
            let p = cs@.subrange(0, i + 1);
            if ascii_all {
                assert forall|k: int| 0 <= k < p.len() implies (#[trigger] p[k]) as int <= 0x7f by {
                    if k < i {
                        assert(p[k] == cs@.subrange(0, i as int)[k]);
                    }
                }
            } else if !(cs@[i as int] as int <= 0x7f) {
                assert(p[i as int] == cs@[i as int]);
            } else {
                assert(!ascii(cs@.subrange(0, i as int)));
                let k = choose|k: int| 0 <= k < i && !(cs@.subrange(0, i as int)[k] as int <= 0x7f);
                assert(p[k] == cs@.subrange(0, i as int)[k]);
            }
        }
        i += 1;
    }
    assert(cs@.subrange(0, cs@.len() as int) =~= cs@);
    if !ascii_all || cs.len() != 12 {
        return None;
    }
    if !(cs[0] == 'G' && (cs[1] == 'X' || cs[1] == 'H')) {
        return None;
    }
    let mut d: usize = 2;
    while d < 8
        invariant
            2 <= d <= 8,
            cs@.len() == 12,
            cs@ == file_name@,
            forall|k: int| 2 <= k < d ==> is_digit(#[trigger] cs@[k]),
        decreases 8 - d,
    {
        if crate::text::char_digit(cs[d]).is_none() {
            assert(!is_digit(cs@[d as int]));
            return None;
        }
        d += 1;
    }
    let m = cs[9];
    let p = cs[10];
    let m_ok = m == 'm' || m == 'M';
    let p_ok = p == 'p' || p == 'P';
    if !(cs[8] == '.' && m_ok && p_ok && cs[11] == '4') {
        proof {
            if ascii_lower(m) == 'm' {
                assert(m_ok);
            }
            if ascii_lower(p) == 'p' {
                assert(p_ok);
            }
        }
        return None;
    }
    let c0 = match crate::text::char_digit(cs[2]) { Some(x) => x, None => 0 };
    let c1 = match crate::text::char_digit(cs[3]) { Some(x) => x, None => 0 };
    let session = string_of(&sub_chars(&cs, 4, 8));
    Some(((c0 as u32) * 10 + c1 as u32, session))
}

/// Whether a directory name follows the `1*GOPRO` naming GoPro cards
/// use (`100GOPRO`, `101GOPRO`).
pub open spec fn gopro_dir_name(name: Seq<char>) -> bool {
    name.len() >= 5 && name[0] == '1' && name.subrange(name.len() - 5, name.len() as int) == "GOPRO"@
}

pub fn is_gopro_dir_name(name: &str) -> (b: bool)
    ensures
        b == gopro_dir_name(name@),
{
    let cs = chars_of(name);
    proof {
        reveal_strlit("GOPRO");
    }
    let n = cs.len();
    if n < 5 || cs[0] != '1' {
        return false;
    }
    let b = cs[n - 5] == 'G' && cs[n - 4] == 'O' && cs[n - 3] == 'P' && cs[n - 2] == 'R' && cs[n - 1] == 'O';
    proof {
        let t = cs@.subrange(n - 5, n as int);
        if b {
            assert(t =~= "GOPRO"@);
        }
        if t == "GOPRO"@ {
            assert(t[0] == 'G' && t[1] == 'O' && t[2] == 'P' && t[3] == 'R' && t[4] == 'O');
        }
    }
    b
}

/// The verdict of a session: keep it if the profile does not insist on
/// a marker or the session holds one; quarantine it otherwise.
pub open spec fn session_verdict_of(require_marker: bool, marker_count: nat) -> VerdictModel {
    if !require_marker || marker_count > 0 { VerdictModel::Keep } else { VerdictModel::Quarantine }
}

impl GoproSource {
    /// The verdict of a session with `marker_count` HiLight markers
    /// across its chapters: a marker anywhere keeps the whole session.
    pub fn session_verdict(&self, marker_count: usize) -> (v: Verdict)
        ensures
            v@ == session_verdict_of(self.require_marker, marker_count as nat),
            marker_count >= 1 ==> v == Verdict::Keep,
            !self.require_marker ==> v == Verdict::Keep,
            self.require_marker && marker_count == 0 ==> v == Verdict::Quarantine,
    {
        if !self.require_marker || marker_count > 0 { Verdict::Keep } else { Verdict::Quarantine }
    }
}

/// The name of a session's group: `session-<nnnn>`.
pub fn session_group_name(session_id: &str) -> (s: String)
    ensures
        s@ == "session-"@ + session_id@,
{
    let mut s = owned("session-");
    push_str(&mut s, session_id);
    s
}


/// What a scan read of one chapter file: its path and size, its
/// camera-clock creation time as an instant in the configured zone, and
/// its HiLight marker offsets in milliseconds.
#[derive(Debug, Clone)]
pub struct ChapterFacts {
    pub path: String,
    pub size: u64,
    pub camera_time: UtcInstant,
    pub markers: Vec<u32>,
}

/// The session-wide clock correction in milliseconds; none without a
/// usable GPS fix.
pub open spec fn offset_of(offset_ms: Option<i64>) -> int {
    match offset_ms {
        Some(o) => o as int,
        None => 0,
    }
}

/// The instants (in nanoseconds) of a session's markers, chapter by
/// chapter: each chapter's camera time plus the marker's offset, then
/// corrected by the session offset.
pub open spec fn marker_nanos(ch: Seq<ChapterFacts>, off: int) -> Seq<int>
    decreases ch.len(),
{
    if ch.len() == 0 {
        Seq::empty()
    } else {
        marker_nanos(ch.drop_last(), off) + ch.last().markers@.map_values(
            |m: u32| instant_nanos(ch.last().camera_time) + (m + off) * 1_000_000,
        )
    }
}

/// Whether every instant a session computes lies in the timestamp
/// range: each chapter's corrected time, and each marker's time before
/// and after correction.
pub open spec fn session_times_ok(ch: Seq<ChapterFacts>, off: int) -> bool {
    forall|i: int| 0 <= i < ch.len() ==> {
        &&& instant_valid(#[trigger] ch[i].camera_time)
        &&& nanos_in_range(instant_nanos(ch[i].camera_time) + off * 1_000_000)
        &&& forall|k: int| 0 <= k < ch[i].markers@.len() ==> {
            &&& nanos_in_range(instant_nanos(ch[i].camera_time) + (#[trigger] ch[i].markers@[k]) * 1_000_000)
            &&& nanos_in_range(instant_nanos(ch[i].camera_time) + (ch[i].markers@[k] + off) * 1_000_000)
        }
    }
}

/// The group of a recording session, given its chapters in chapter
/// order, the clock correction and the sidecar a kept session carries.
pub open spec fn session_group_of(
    require_marker: bool,
    session_id: Seq<char>,
    ch: Seq<ChapterFacts>,
    offset_ms: Option<i64>,
    sidecar: Sidecar,
    g: MediaGroup,
    v: Verdict,
) -> bool {
    let off = offset_of(offset_ms);
    let marks = marker_nanos(ch, off);
    &&& g.name@ == "session-"@ + session_id
    &&& g.files@.len() == ch.len()
    &&& forall|i: int| 0 <= i < ch.len() ==> {
        &&& (#[trigger] g.files@[i]).path@ == ch[i].path@
        &&& g.files@[i].size == ch[i].size
        &&& g.files@[i].recorded_at matches Some(t)
            && instant_valid(t) && instant_nanos(t) == instant_nanos(ch[i].camera_time) + off * 1_000_000
    }
    &&& instant_valid(g.timestamp)
    &&& instant_nanos(g.timestamp) == instant_nanos(ch[0].camera_time) + off * 1_000_000
    &&& g.markers@.len() == marks.len()
    &&& forall|k: int| 0 <= k < marks.len() ==> {
        &&& instant_valid((#[trigger] g.markers@[k]).timestamp)
        &&& instant_nanos(g.markers@[k].timestamp) == marks[k]
        &&& g.markers@[k].label is None
    }
    &&& g.context@.len() == 1
    &&& g.context@[0].0@ == "session"@
    &&& g.context@[0].1@ == session_id
    &&& v@ == session_verdict_of(require_marker, marks.len())
    &&& if v is Keep { g.sidecar == Some(sidecar) } else { g.sidecar is None }
}

impl GoproSource {
    /// Builds one session's group and verdict from its chapters in
    /// chapter order: every chapter's file, recorded at its camera time
    /// corrected by the session offset; every HiLight marker at its
    /// chapter's camera time plus its offset, corrected the same way;
    /// the session's time is its first chapter's; a kept session carries
    /// the sidecar.
    pub fn assemble_session(&self, session_id: &str, chapters: &Vec<ChapterFacts>, offset_ms: Option<i64>, sidecar: Sidecar)
        -> (r: (MediaGroup, Verdict))
        requires
            chapters@.len() > 0,
            session_times_ok(chapters@, offset_of(offset_ms)),
        ensures
            session_group_of(self.require_marker, session_id@, chapters@, offset_ms, sidecar, r.0, r.1),
    {
        let ghost ch = chapters@;
        let ghost off = offset_of(offset_ms);
        let mut files: Vec<MediaFile> = Vec::new();
        let mut markers: Vec<Marker> = Vec::new();
        let mut i: usize = 0;
        while i < chapters.len()
            invariant
                i <= ch.len(),
                ch == chapters@,
                off == offset_of(offset_ms),
                session_times_ok(ch, off),
                files@.len() == i,
                forall|j: int| 0 <= j < i ==> {
                    &&& (#[trigger] files@[j]).path@ == ch[j].path@
                    &&& files@[j].size == ch[j].size
                    &&& files@[j].recorded_at matches Some(t)
                        && instant_valid(t) && instant_nanos(t) == instant_nanos(ch[j].camera_time) + off * 1_000_000
                },
                markers@.len() == marker_nanos(ch.subrange(0, i as int), off).len(),
                forall|k: int| 0 <= k < markers@.len() ==> {
                    &&& instant_valid((#[trigger] markers@[k]).timestamp)
                    &&& instant_nanos(markers@[k].timestamp) == marker_nanos(ch.subrange(0, i as int), off)[k]
                    &&& markers@[k].label is None
                },
            decreases ch.len() - i,
        {
            let c = &chapters[i];
            assert(instant_valid(ch[i as int].camera_time));
            let recorded = match offset_ms {
                Some(o) => add_millis(c.camera_time, o),
                None => c.camera_time,
            };
            files.push(MediaFile { path: c.path.clone(), size: c.size, recorded_at: Some(recorded) });
            let ghost before = marker_nanos(ch.subrange(0, i as int), off);
            let ghost base = markers@.len();
            let mut k: usize = 0;
            while k < c.markers.len()
                invariant
                    k <= c.markers@.len(),
                    c == chapters@[i as int],
                    i < ch.len(),
                    ch == chapters@,
                    off == offset_of(offset_ms),
                    session_times_ok(ch, off),
                    markers@.len() == base + k,
                    base == before.len(),
                    forall|m: int| 0 <= m < base ==> {
                        &&& instant_valid((#[trigger] markers@[m]).timestamp)
                        &&& instant_nanos(markers@[m].timestamp) == before[m]
                        &&& markers@[m].label is None
                    },
                    forall|m: int| base <= m < base + k ==> {
                        &&& instant_valid((#[trigger] markers@[m]).timestamp)
                        &&& instant_nanos(markers@[m].timestamp)
                            == instant_nanos(c.camera_time) + (c.markers@[m - base] + off) * 1_000_000
                        &&& markers@[m].label is None
                    },
                decreases c.markers@.len() - k,
            {
                assert(instant_valid(ch[i as int].camera_time));
                let m = c.markers[k];
                assert(m == ch[i as int].markers@[k as int]);
                let at = add_millis(c.camera_time, m as i64);
                let t = match offset_ms {
                    Some(o) => add_millis(at, o),
                    None => at,
                };
                markers.push(Marker { timestamp: t, label: None });
                k += 1;
            }
            proof {
                let next = ch.subrange(0, i + 1);
                assert(next.drop_last() =~= ch.subrange(0, i as int));
                assert(next.last() == ch[i as int]);
                let added = ch[i as int].markers@.map_values(
                    |m: u32| instant_nanos(ch[i as int].camera_time) + (m + off) * 1_000_000,
                );
                assert(marker_nanos(next, off) == before + added);
                assert forall|m: int| 0 <= m < markers@.len() implies {
                    &&& instant_valid((#[trigger] markers@[m]).timestamp)
                    &&& instant_nanos(markers@[m].timestamp) == marker_nanos(next, off)[m]
                    &&& markers@[m].label is None
                } by {
                    if m >= base {
                        assert(added[m - base] == instant_nanos(c.camera_time) + (c.markers@[m - base] + off) * 1_000_000);
                    }
                }
            }
            i += 1;
        }
        assert(ch.subrange(0, ch.len() as int) =~= ch);
        assert(instant_valid(ch[0].camera_time));
        let timestamp = match offset_ms {
            Some(o) => add_millis(chapters[0].camera_time, o),
            None => chapters[0].camera_time,
        };
        let verdict = self.session_verdict(markers.len());
        let mut context: Vec<(String, String)> = Vec::new();
        context.push((owned("session"), owned(session_id)));
        let sc = match verdict {
            Verdict::Keep => Some(sidecar),
            _ => None,
        };
        let group = MediaGroup {
            name: session_group_name(session_id),
            files,
            timestamp,
            markers,
            context,
            sidecar: sc,
        };
        (group, verdict)
    }
}

/// The chapter a path names, read from its file name.
pub open spec fn path_chapter(p: Seq<char>) -> Option<(u32, Seq<char>)> {
    match file_name_of(p) {
        Some(n) => chapter_of(n),
        None => None,
    }
}

/// Whether every path's file name can be cut where a chapter name is.
pub open spec fn names_cut_ok(pv: Seq<Seq<char>>) -> bool {
    forall|i: int| 0 <= i < pv.len() ==> match file_name_of(#[trigger] pv[i]) {
        Some(n) => utf8_len(n) == 12 ==> byte_boundary(n, 8),
        None => true,
    }
}

/// The paths that name no chapter, in the order found.
pub open spec fn stray_paths(pv: Seq<Seq<char>>) -> Seq<Seq<char>>
    decreases pv.len(),
{
    if pv.len() == 0 {
        Seq::empty()
    } else {
        stray_paths(pv.drop_last()) + if path_chapter(pv.last()) is None { seq![pv.last()] } else { Seq::empty() }
    }
}

/// The paths of session `id`'s chapter `c`, in the order found.
pub open spec fn numbered(pv: Seq<Seq<char>>, id: Seq<char>, c: u32) -> Seq<Seq<char>>
    decreases pv.len(),
{
    if pv.len() == 0 {
        Seq::empty()
    } else {
        numbered(pv.drop_last(), id, c) + if path_chapter(pv.last()) == Some((c, id)) { seq![pv.last()] } else { Seq::empty() }
    }
}

/// Session `id`'s chapters numbered below `n`, in chapter order, equal
/// numbers in the order found.
pub open spec fn chapters_below(pv: Seq<Seq<char>>, id: Seq<char>, n: nat) -> Seq<(u32, Seq<char>)>
    decreases n,
{
    if n == 0 {
        Seq::empty()
    } else {
        let c = (n - 1) as u32;
        chapters_below(pv, id, (n - 1) as nat) + numbered(pv, id, c).map_values(|p: Seq<char>| (c, p))
    }
}

/// A session's chapters in chapter order (chapter numbers have two
/// digits), equal numbers in the order found.
pub open spec fn session_chapters(pv: Seq<Seq<char>>, id: Seq<char>) -> Seq<(u32, Seq<char>)> {
    chapters_below(pv, id, 100)
}

/// Whether a path is a chapter of session `id`.
pub open spec fn in_session(p: Seq<char>, id: Seq<char>) -> bool {
    path_chapter(p) matches Some((_, s)) && s == id
}

/// Whether some path is a chapter of session `id`.
pub open spec fn has_session(pv: Seq<Seq<char>>, id: Seq<char>) -> bool {
    exists|i: int| 0 <= i < pv.len() && #[trigger] in_session(pv[i], id)
}

/// The chapter files of one recording session.
#[derive(Debug, Clone)]
pub struct SessionFiles {
    pub id: String,
    pub chapters: Vec<(u32, String)>,
}

pub open spec fn chapter_views(c: Seq<(u32, String)>) -> Seq<(u32, Seq<char>)> {
    c.map_values(|x: (u32, String)| (x.0, x.1@))
}

fn path_chapter_exec(path: &str) -> (r: Option<(u32, String)>)
    requires
        names_cut_ok(seq![path@]),
    ensures
        match path_chapter(path@) {
            Some((c, s)) => r matches Some((x, y)) && x == c && y@ == s,
            None => r is None,
        },
{
    assert(seq![path@][0] == path@);
    match file_name(path) {
        Some(n) => parse_chapter_name(n.as_str()),
        None => None,
    }
}

/// Sorts a card's files into recording sessions: sessions in session
/// number order, each with its chapters in chapter order; and the files
/// that are no chapter, in the order found.
pub fn group_chapters(paths: &Vec<String>) -> (r: (Vec<SessionFiles>, Vec<String>))
    requires
        names_cut_ok(views(paths@)),
    ensures
        strictly_sorted(r.0@.map_values(|s: SessionFiles| s.id@)),
        forall|id: Seq<char>| r.0@.map_values(|s: SessionFiles| s.id@).contains(id) <==> has_session(views(paths@), id),
        forall|k: int| 0 <= k < r.0@.len() ==> chapter_views((#[trigger] r.0@[k]).chapters@) == session_chapters(views(paths@), r.0@[k].id@),
        views(r.1@) == stray_paths(views(paths@)),
{
    let ghost pv = views(paths@);
    let mut parsed: Vec<Option<(u32, String)>> = Vec::new();
    let mut ids: Vec<String> = Vec::new();
    let mut stray: Vec<String> = Vec::new();
    let mut i: usize = 0;
    while i < paths.len()
        invariant
            i <= pv.len(),
            pv == views(paths@),
            names_cut_ok(pv),
            parsed@.len() == i,
            forall|j: int| 0 <= j < i ==> match path_chapter(pv[j]) {
                Some((c, s)) => (#[trigger] parsed@[j]) matches Some((x, y)) && x == c && y@ == s,
                None => parsed@[j] is None,
            },
            strictly_sorted(views(ids@)),
            forall|id: Seq<char>| views(ids@).contains(id) <==> has_session(pv.subrange(0, i as int), id),
            views(stray@) == stray_paths(pv.subrange(0, i as int)),
        decreases pv.len() - i,
    {
        let ghost sub = pv.subrange(0, i as int);
        let ghost next = pv.subrange(0, i + 1);
        assert(next.drop_last() =~= sub);
        assert(next.last() == pv[i as int]);
        assert(names_cut_ok(seq![paths@[i as int]@])) by {
            assert(seq![paths@[i as int]@][0] == pv[i as int]);
        }
        let p = path_chapter_exec(paths[i].as_str());
        let ghost before_stray = views(stray@);
        match &p {
            Some((_, id)) => {
                insert_sorted_unique(&mut ids, id.as_str());
            },
            None => {
                stray.push(paths[i].clone());
            },
        }
        proof {
            assert forall|id: Seq<char>| views(ids@).contains(id) <==> has_session(next, id) by {
                if has_session(next, id) {
                    let j = choose|j: int| 0 <= j < next.len() && #[trigger] in_session(next[j], id);
                    if j < i {
                        assert(sub[j] == next[j]);
                        assert(has_session(sub, id));
                    }
                }
                if has_session(sub, id) {
                    let j = choose|j: int| 0 <= j < sub.len() && #[trigger] in_session(sub[j], id);
                    assert(next[j] == sub[j]);
                }
                if in_session(pv[i as int], id) {
                    assert(next[i as int] == pv[i as int]);
                }
            }
            assert(views(stray@) =~= stray_paths(next));
        }
        parsed.push(p);
        i += 1;
    }
    assert(pv.subrange(0, pv.len() as int) =~= pv);
    let mut sessions: Vec<SessionFiles> = Vec::new();
    let mut s: usize = 0;
    while s < ids.len()
        invariant
            s <= ids@.len(),
            pv == views(paths@),
            parsed@.len() == pv.len(),
            forall|j: int| 0 <= j < pv.len() ==> match path_chapter(pv[j]) {
                Some((c, t)) => (#[trigger] parsed@[j]) matches Some((x, y)) && x == c && y@ == t,
                None => parsed@[j] is None,
            },
            sessions@.len() == s,
            forall|k: int| 0 <= k < s ==> (#[trigger] sessions@[k]).id@ == ids@[k]@,
            forall|k: int| 0 <= k < s ==> chapter_views((#[trigger] sessions@[k]).chapters@) == session_chapters(pv, sessions@[k].id@),
        decreases ids@.len() - s,
    {
        let id = &ids[s];
        let mut chapters: Vec<(u32, String)> = Vec::new();
        let mut c: u32 = 0;
        while c < 100
            invariant
                c <= 100,
                pv == views(paths@),
                parsed@.len() == pv.len(),
                forall|j: int| 0 <= j < pv.len() ==> match path_chapter(pv[j]) {
                    Some((cc, t)) => (#[trigger] parsed@[j]) matches Some((x, y)) && x == cc && y@ == t,
                    None => parsed@[j] is None,
                },
                chapter_views(chapters@) == chapters_below(pv, id@, c as nat),
            decreases 100 - c,
        {
            let ghost start = chapters@;
            let mut j: usize = 0;
            while j < paths.len()
                invariant
                    j <= pv.len(),
                    pv == views(paths@),
                    parsed@.len() == pv.len(),
                    forall|m: int| 0 <= m < pv.len() ==> match path_chapter(pv[m]) {
                        Some((cc, t)) => (#[trigger] parsed@[m]) matches Some((x, y)) && x == cc && y@ == t,
                        None => parsed@[m] is None,
                    },
                    chapters@.len() == start.len() + numbered(pv.subrange(0, j as int), id@, c).len(),
                    chapters@.subrange(0, start.len() as int) == start,
                    chapter_views(chapters@) == chapter_views(start)
                        + numbered(pv.subrange(0, j as int), id@, c).map_values(|p: Seq<char>| (c, p)),
                decreases pv.len() - j,
            {
                let ghost sub = pv.subrange(0, j as int);
                let ghost next = pv.subrange(0, j + 1);
                assert(next.drop_last() =~= sub);
                assert(next.last() == pv[j as int]);
                let ghost before = chapters@;
                let hit = match &parsed[j] {
                    Some((x, y)) => *x == c && crate::text::same_text(y.as_str(), id.as_str()),
                    None => false,
                };
                if hit {
                    chapters.push((c, paths[j].clone()));
                }
                proof {
                    assert(hit == (path_chapter(pv[j as int]) == Some((c, id@))));
                    assert(chapters@.subrange(0, start.len() as int) =~= start);
                    if hit {
                        assert(chapter_views(chapters@) =~= chapter_views(before).push((c, pv[j as int])));
                    }
                    assert(chapter_views(chapters@) =~= chapter_views(start)
                        + numbered(next, id@, c).map_values(|p: Seq<char>| (c, p)));
                }
                j += 1;
            }
            assert(pv.subrange(0, pv.len() as int) =~= pv);
            c += 1;
        }
        sessions.push(SessionFiles { id: id.clone(), chapters });
        s += 1;
    }
    proof {
        assert(sessions@.map_values(|x: SessionFiles| x.id@) =~= views(ids@));
    }
    (sessions, stray)
}

proof fn lemma_marker_count(ch: Seq<ChapterFacts>, a: int, b: int)
    ensures
        marker_nanos(ch, a).len() == marker_nanos(ch, b).len(),
    decreases ch.len(),
{
    if ch.len() > 0 {
        lemma_marker_count(ch.drop_last(), a, b);
    }
}

/// A clock offset from GPS telemetry shifts a session's times and
/// leaves its verdict alone: the same chapters get the same verdict with
/// any offset, or with no offset at all.
pub proof fn lemma_offset_never_changes_verdict(
    require_marker: bool,
    session_id: Seq<char>,
    ch: Seq<ChapterFacts>,
    o1: Option<i64>,
    o2: Option<i64>,
    sidecar: Sidecar,
    g1: MediaGroup,
    v1: Verdict,
    g2: MediaGroup,
    v2: Verdict,
)
    requires
        session_group_of(require_marker, session_id, ch, o1, sidecar, g1, v1),
        session_group_of(require_marker, session_id, ch, o2, sidecar, g2, v2),
    ensures
        v1@ == v2@,
        g1.files@.len() == g2.files@.len(),
        g1.markers@.len() == g2.markers@.len(),
{
    lemma_marker_count(ch, offset_of(o1), offset_of(o2));
}

/// A marker's offset into its session as the sidecar shows it,
/// `M:SS.mmm`: whole minutes, then seconds and milliseconds zero-padded.
pub open spec fn marker_offset_text(ms: nat) -> Seq<char> {
    dec(ms / 60000) + ":"@ + zero_padded((ms / 1000) % 60, 2) + "."@ + zero_padded(ms % 1000, 3)
}

/// Renders a marker's offset as `M:SS.mmm`.
pub fn marker_offset(ms: u32) -> (s: String)
    ensures
        s@ == marker_offset_text(ms as nat),
{
    let mut out = String::new();
    push_dec(&mut out, (ms / 60000) as u128);
    push_char(&mut out, ':');
    push_padded(&mut out, ((ms / 1000) % 60) as u64, 2);
    push_char(&mut out, '.');
    push_padded(&mut out, (ms % 1000) as u64, 3);
    proof {
        reveal_strlit(":");
        reveal_strlit(".");
        assert(out@ =~= marker_offset_text(ms as nat));
    }
    out
}


/// A HiLight marker anywhere in a session keeps the whole session: with
/// at least one marker it is kept whatever the profile says, a profile
/// that does not require a marker keeps every session, and only a
/// session with no marker under a profile that requires one is
/// quarantined.
pub proof fn lemma_one_marker_keeps_the_session(require_marker: bool, marker_count: nat)
    ensures
        marker_count >= 1 ==> session_verdict_of(require_marker, marker_count) == VerdictModel::Keep,
        !require_marker ==> session_verdict_of(require_marker, marker_count) == VerdictModel::Keep,
        session_verdict_of(require_marker, marker_count) == VerdictModel::Quarantine <==> (require_marker
            && marker_count == 0),
{
}

} // verus!
