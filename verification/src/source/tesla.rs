//! Tesla dashcam drives: which event categories a profile imports, the
//! trigger-reason filter, and the verdict each event folder gets.
//! Filtered-out events are ignored (left untouched on the drive), never
//! quarantined; an event whose reason cannot be determined is kept.

use vstd::prelude::*;
use crate::source::{Verdict, VerdictModel};
use crate::text::{chars_of, owned, push_str, same_text, string_of, sub_chars};
use crate::clock::{civil_fields_text, civil_parse, civil_seconds, civil_text, civil_valid, timestamp_seconds_in_range, format_civil, max_zone_offset_secs, instant_valid, parse_civil, resolve_local, CivilTime, UtcInstant};
use crate::plan::{MediaFile, MediaGroup, Sidecar};
use crate::paths::{file_name, file_name_of};
use crate::order::{insert_sorted_unique, sort_texts, strictly_sorted, text_order, views};
use crate::source::gopro::{utf8_len, utf8_width};

verus! {

/// Which event categories a Tesla profile imports.
#[derive(Debug, Clone, Copy, PartialEq, Eq, Structural)]
pub enum EventCategory {
    Saved,
    Sentry,
    Recent,
}

impl EventCategory {
    /// The category's name, as config files and layout contexts spell it.
    pub open spec fn name(self) -> Seq<char> {
        match self {
            EventCategory::Saved => "saved"@,
            EventCategory::Sentry => "sentry"@,
            EventCategory::Recent => "recent"@,
        }
    }

    pub fn as_str(self) -> (s: &'static str)
        ensures
            s@ == self.name(),
    {
        match self {
            EventCategory::Saved => "saved",
            EventCategory::Sentry => "sentry",
            EventCategory::Recent => "recent",
        }
    }
}

/// The default `events` list: saved and sentry clips; recent clips are
/// opt-in.
pub fn default_events() -> (v: Vec<EventCategory>)
    ensures
        v@ == seq![EventCategory::Saved, EventCategory::Sentry],
{
    let v = vec![EventCategory::Saved, EventCategory::Sentry];
    assert(v@ =~= seq![EventCategory::Saved, EventCategory::Sentry]);
    v
}

/// Trigger-reason filter: keep only the listed reasons, or drop only
/// the listed reasons.
#[derive(Debug, Clone, PartialEq, Eq)]
pub enum Reasons {
    Allow(Vec<String>),
    Deny(Vec<String>),
}

/// Whether `list` names `reason`.
pub open spec fn listed(list: Seq<String>, reason: Seq<char>) -> bool {
    exists|i: int| 0 <= i < list.len() && (#[trigger] list[i])@ == reason
}

fn contains_text(list: &Vec<String>, reason: &str) -> (b: bool)
    ensures
        b == listed(list@, reason@),
{
    let mut i: usize = 0;
    while i < list.len()
        invariant
            i <= list@.len(),
            forall|k: int| 0 <= k < i ==> (#[trigger] list@[k])@ != reason@,
        decreases list@.len() - i,
    {
        if same_text(list[i].as_str(), reason) {
            return true;
        }
        i += 1;
    }
    false
}

/// Why `reason` is filtered out, or nothing when it passes.
pub open spec fn filter_message(r: Reasons, reason: Seq<char>) -> Option<Seq<char>> {
    match r {
        Reasons::Allow(list) => if listed(list@, reason) {
            None
        } else {
            Some("reason '"@ + reason + "' not in allow list"@)
        },
        Reasons::Deny(list) => if listed(list@, reason) {
            Some("reason '"@ + reason + "' denied"@)
        } else {
            None
        },
    }
}

impl Reasons {
    /// Why `reason` is excluded, or `None` when it passes.
    pub fn filtered_reason(&self, reason: &str) -> (r: Option<String>)
        ensures
            crate::transfer::opt_view(r) == filter_message(*self, reason@),
            self matches Reasons::Deny(list) ==> (r is Some <==> exists|i: int| 0 <= i < list@.len()
                && (#[trigger] list@[i])@ == reason@),
            self matches Reasons::Allow(list) ==> (r is None <==> exists|i: int| 0 <= i < list@.len()
                && (#[trigger] list@[i])@ == reason@),
    {
        match self {
            Reasons::Allow(list) => {
                if contains_text(list, reason) {
                    None
                } else {
                    let mut m = owned("reason '");
                    push_str(&mut m, reason);
                    push_str(&mut m, "' not in allow list");
                    Some(m)
                }
            },
            Reasons::Deny(list) => {
                if contains_text(list, reason) {
                    let mut m = owned("reason '");
                    push_str(&mut m, reason);
                    push_str(&mut m, "' denied");
                    Some(m)
                } else {
                    None
                }
            },
        }
    }
}

pub struct TeslaSource {
    pub events: Vec<EventCategory>,
    pub reasons: Option<Reasons>,
}

/// The verdict of one saved/sentry event folder: ignored when its
/// folder yields no timestamp, ignored when its category is not
/// enabled, ignored when its known trigger reason is filtered out, kept
/// otherwise — an unknown reason is never filtered.
pub open spec fn event_verdict_of(events: Seq<EventCategory>, reasons: Option<Reasons>, category: EventCategory,
    has_timestamp: bool, reason: Option<Seq<char>>) -> VerdictModel {
    if !has_timestamp {
        VerdictModel::Ignore("unparseable event folder"@)
    } else if !events.contains(category) {
        VerdictModel::Ignore("event type '"@ + category.name() + "' not enabled"@)
    } else {
        match (reasons, reason) {
            (Some(r), Some(why)) => match filter_message(r, why) {
                Some(m) => VerdictModel::Ignore(m),
                None => VerdictModel::Keep,
            },
            _ => VerdictModel::Keep,
        }
    }
}

/// A Tesla event is never quarantined, and an event whose trigger
/// reason is unknown is never filtered by the reason list: with a
/// timestamp and an enabled category it is kept.
pub proof fn lemma_tesla_never_quarantines(events: Seq<EventCategory>, reasons: Option<Reasons>,
    category: EventCategory, has_timestamp: bool, reason: Option<Seq<char>>)
    ensures
        event_verdict_of(events, reasons, category, has_timestamp, reason) != VerdictModel::Quarantine,
        has_timestamp && events.contains(category) && reason is None
            ==> event_verdict_of(events, reasons, category, has_timestamp, reason) == VerdictModel::Keep,
{
}

impl TeslaSource {
    /// The verdict of one saved/sentry event folder of `category`;
    /// `has_timestamp` says whether `event.json` or the folder name gave
    /// it a time, `reason` is `event.json`'s trigger reason if known.
    pub fn event_verdict(&self, category: EventCategory, has_timestamp: bool, reason: Option<&str>) -> (v: Verdict)
        ensures
            v@ == event_verdict_of(self.events@, self.reasons, category, has_timestamp,
                match reason { Some(r) => Some(r@), None => None }),
            !(v matches Verdict::Quarantine),
    {
        if !has_timestamp {
            return Verdict::Ignore(owned("unparseable event folder"));
        }
        let mut enabled = false;
        let mut i: usize = 0;
        while i < self.events.len()
            invariant
                i <= self.events@.len(),
                enabled == exists|k: int| 0 <= k < i && self.events@[k] == category,
            decreases self.events@.len() - i,
        {
            if self.events[i] == category {
                enabled = true;
            }
            i += 1;
        }
        assert(enabled == self.events@.contains(category));
        if !enabled {
            let mut m = owned("event type '");
            push_str(&mut m, category.as_str());
            push_str(&mut m, "' not enabled");
            return Verdict::Ignore(m);
        }
        match (&self.reasons, reason) {
            (Some(r), Some(why)) => match r.filtered_reason(why) {
                Some(m) => Verdict::Ignore(m),
                None => Verdict::Keep,
            },
            _ => Verdict::Keep,
        }
    }
}


/// The timestamp stem event folders and clip files carry.
pub open spec fn stem_format() -> Seq<char> {
    "%Y-%m-%d_%H-%M-%S"@
}

/// The text of `s`'s first `b` UTF-8 bytes, when byte `b` falls between
/// characters.
pub open spec fn byte_prefix(s: Seq<char>, b: int) -> Option<Seq<char>>
    decreases s.len(),
{
    if b == 0 {
        Some(Seq::empty())
    } else if b < 0 || s.len() == 0 {
        None
    } else {
        match byte_prefix(s.drop_first(), b - utf8_width(s[0])) {
            Some(p) => Some(seq![s[0]] + p),
            None => None,
        }
    }
}

/// The civil time of a name that is exactly a timestamp stem.
pub open spec fn stem_exact_of(name: Seq<char>) -> Option<CivilTime> {
    if utf8_len(name) == 19 { civil_parse(stem_format(), name) } else { None }
}

/// The civil time of a name's leading timestamp stem (its first
/// nineteen bytes), the rest of the name aside.
pub open spec fn stem_prefix_of(name: Seq<char>) -> Option<CivilTime> {
    match byte_prefix(name, 19) {
        Some(p) => civil_parse(stem_format(), p),
        None => None,
    }
}

fn utf8_width_exec(c: char) -> (n: usize)
    ensures
        n == utf8_width(c),
{
    let v = c as u32;
    if v < 0x80 { 1 } else if v < 0x800 { 2 } else if v < 0x10000 { 3 } else { 4 }
}

fn byte_length(s: &str) -> (n: u128)
    ensures
        n == utf8_len(s@),
{
    let cs = chars_of(s);
    let mut n: u128 = 0;
    let mut i: usize = 0;
    while i < cs.len()
        invariant
            i <= cs@.len(),
            cs@ == s@,
            n == utf8_len(cs@.subrange(0, i as int)),
            n <= 4 * i,
        decreases cs@.len() - i,
    {
        assert(cs@.subrange(0, i + 1).drop_last() =~= cs@.subrange(0, i as int));
        n = n + utf8_width_exec(cs[i]) as u128;
        i += 1;
    }
    assert(cs@.subrange(0, cs@.len() as int) =~= cs@);
    n
}

/// The first `b` bytes of `s` as text, when byte `b` falls between
/// characters.
pub fn take_bytes(s: &str, b: usize) -> (r: Option<String>)
    ensures
        match byte_prefix(s@, b as int) {
            Some(p) => r matches Some(x) && x@ == p,
            None => r is None,
        },
{
    let cs = chars_of(s);
    let mut acc: u128 = 0;
    let mut i: usize = 0;
    assert(cs@.subrange(0, cs@.len() as int) =~= cs@);
    proof {
        match byte_prefix(cs@, b as int) {
            Some(p) => {
                assert(cs@.subrange(0, 0) + p =~= p);
            },
            None => {},
        }
    }
    while i < cs.len() && acc < b as u128
        invariant
            i <= cs@.len(),
            cs@ == s@,
            acc <= b || i > 0,
            acc < b + 4,
            byte_prefix(s@, b as int) == match byte_prefix(cs@.subrange(i as int, cs@.len() as int), b - acc) {
                Some(p) => Some(cs@.subrange(0, i as int) + p),
                None => None::<Seq<char>>,
            },
        decreases cs@.len() - i,
    {
        let ghost rest = cs@.subrange(i as int, cs@.len() as int);
        assert(rest.drop_first() =~= cs@.subrange(i + 1, cs@.len() as int));
        assert(rest[0] == cs@[i as int]);
        assert(cs@.subrange(0, i + 1) =~= cs@.subrange(0, i as int) + seq![cs@[i as int]]);
        proof {
            match byte_prefix(rest.drop_first(), b - acc - utf8_width(rest[0])) {
                Some(p) => {
                    assert(cs@.subrange(0, i as int) + (seq![rest[0]] + p) =~= cs@.subrange(0, i + 1) + p);
                },
                None => {},
            }
        }
        acc = acc + utf8_width_exec(cs[i]) as u128;
        i += 1;
    }
    if acc == b as u128 {
        let ghost rest = cs@.subrange(i as int, cs@.len() as int);
        assert(cs@.subrange(0, i as int) + Seq::<char>::empty() =~= cs@.subrange(0, i as int));
        let p = sub_chars(&cs, 0, i);
        Some(string_of(&p))
    } else {
        None
    }
}

/// Reads a name that is exactly a timestamp stem.
pub fn parse_stem_exact(name: &str) -> (r: Option<CivilTime>)
    ensures
        r == stem_exact_of(name@),
        r matches Some(c) ==> civil_valid(c),
{
    if byte_length(name) != 19 {
        return None;
    }
    parse_civil("%Y-%m-%d_%H-%M-%S", name)
}

/// Reads a name's leading timestamp stem.
pub fn parse_stem_prefix(name: &str) -> (r: Option<CivilTime>)
    ensures
        r == stem_prefix_of(name@),
        r matches Some(c) ==> civil_valid(c),
{
    match take_bytes(name, 19) {
        Some(p) => parse_civil("%Y-%m-%d_%H-%M-%S", p.as_str()),
        None => None,
    }
}

/// The name of an event folder's group: `<category>-<folder name>`.
pub open spec fn event_group_name(category: EventCategory, dir: Seq<char>) -> Seq<char> {
    category.name() + "-"@ + dir
}

/// An event's wall-clock time and where it came from: `event.json`'s
/// timestamp, else the folder name when it is exactly a stem.
pub open spec fn event_wall_of(event_time: Option<CivilTime>, dir: Seq<char>) -> Option<(CivilTime, Seq<char>)> {
    match event_time {
        Some(t) => Some((t, "event_json"@)),
        None => match stem_exact_of(dir) {
            Some(t) => Some((t, "folder_name"@)),
            None => None,
        },
    }
}

/// Finds an event folder's wall-clock time and names its source.
pub fn event_wall_clock(event_time: Option<CivilTime>, dir_name: &str) -> (r: Option<(CivilTime, String)>)
    requires
        event_time matches Some(t) ==> civil_valid(t),
    ensures
        match event_wall_of(event_time, dir_name@) {
            Some((t, src)) => r matches Some((x, y)) && x == t && y@ == src && civil_valid(t),
            None => r is None,
        },
{
    match event_time {
        Some(t) => Some((t, owned("event_json"))),
        None => match parse_stem_exact(dir_name) {
            Some(t) => Some((t, owned("folder_name"))),
            None => None,
        },
    }
}

pub open spec fn pair_views(v: Seq<(String, String)>) -> Seq<(Seq<char>, Seq<char>)> {
    v.map_values(|p: (String, String)| (p.0@, p.1@))
}

/// A wall-clock field as `jiff` writes it: zero-padded fields for a year
/// not before 0, else `jiff`'s text for the negative year.
pub open spec fn wall_field_text(fmt: Seq<char>, wall: CivilTime) -> Seq<char> {
    if wall.year >= 0 { civil_fields_text(fmt, wall) } else { civil_text(fmt, wall) }
}

/// The layout context of an event: its category, and its wall-clock
/// date (`YYYY-MM-DD`) and time (`HH-MM-SS`) as text.
pub open spec fn event_context_of(category: EventCategory, wall: CivilTime) -> Seq<(Seq<char>, Seq<char>)> {
    seq![
        ("event_type"@, category.name()),
        ("event_date"@, wall_field_text("%Y-%m-%d"@, wall)),
        ("event_time"@, wall_field_text("%H-%M-%S"@, wall)),
    ]
}

pub fn build_context(category: EventCategory, wall: CivilTime) -> (r: Vec<(String, String)>)
    requires
        civil_valid(wall),
    ensures
        pair_views(r@) == event_context_of(category, wall),
{
    proof {
        reveal_strlit("%Y-%m-%d");
        reveal_strlit("%H-%M-%S");
    }
    let mut r: Vec<(String, String)> = Vec::new();
    r.push((owned("event_type"), owned(category.as_str())));
    r.push((owned("event_date"), format_civil("%Y-%m-%d", wall)));
    r.push((owned("event_time"), format_civil("%H-%M-%S", wall)));
    assert(pair_views(r@) =~= event_context_of(category, wall));
    r
}

/// The civil time a clip's file name starts with, if any.
pub open spec fn clip_stem(p: Seq<char>) -> Option<CivilTime> {
    match file_name_of(p) {
        Some(n) => stem_prefix_of(n),
        None => None,
    }
}

/// The size recorded for the first file at path `p`.
pub open spec fn size_of_path(files: Seq<(String, u64)>, p: Seq<char>) -> u64
    decreases files.len(),
{
    if files.len() == 0 {
        0
    } else if files[0].0@ == p {
        files[0].1
    } else {
        size_of_path(files.drop_first(), p)
    }
}

/// Whether `t` is the instant a vehicle wall clock `w` names in some
/// zone: a whole second, and, where `w` read as UTC is a timestamp,
/// within one zone offset of that reading.
pub open spec fn near_wall_clock(w: CivilTime, t: UtcInstant) -> bool {
    let u = civil_seconds(w.year as int, w.month as int, w.day as int, w.hour as int, w.minute as int, w.second as int);
    &&& t.nanos == 0
    &&& timestamp_seconds_in_range(u) ==> u - max_zone_offset_secs() <= t.secs <= u + max_zone_offset_secs()
}

/// An event's files: in path order, each with its size and a recorded
/// time — its own stem's when its name starts with one, the event's
/// otherwise.
pub open spec fn event_files_ok(out: Seq<MediaFile>, files: Seq<(String, u64)>, event_instant: UtcInstant) -> bool {
    &&& out.map_values(|f: MediaFile| f.path@) == files.map_values(|f: (String, u64)| f.0@).sort_by(text_order())
    &&& forall|i: int| 0 <= i < out.len() ==> {
        &&& (#[trigger] out[i]).size == size_of_path(files, out[i].path@)
        &&& out[i].recorded_at matches Some(t) && instant_valid(t)
            && match clip_stem(out[i].path@) {
                None => t == event_instant,
                Some(c) => near_wall_clock(c, t),
            }
    }
}

fn size_lookup(files: &Vec<(String, u64)>, p: &str) -> (n: u64)
    ensures
        n == size_of_path(files@, p@),
{
    let mut i: usize = 0;
    assert(files@.subrange(0, files@.len() as int) =~= files@);
    while i < files.len()
        invariant
            i <= files@.len(),
            size_of_path(files@, p@) == size_of_path(files@.subrange(i as int, files@.len() as int), p@),
        decreases files@.len() - i,
    {
        let ghost rest = files@.subrange(i as int, files@.len() as int);
        assert(rest.drop_first() =~= files@.subrange(i + 1, files@.len() as int));
        assert(rest[0] == files@[i as int]);
        if same_text(files[i].0.as_str(), p) {
            return files[i].1;
        }
        i += 1;
    }
    0
}

fn clip_stem_exec(p: &str) -> (r: Option<CivilTime>)
    ensures
        r == clip_stem(p@),
        r matches Some(c) ==> civil_valid(c),
{
    match file_name(p) {
        Some(n) => parse_stem_prefix(n.as_str()),
        None => None,
    }
}

/// A vehicle wall-clock time as the instant it names in the machine's
/// zone (read as UTC when that zone cannot place it), in whole seconds.
/// Which offset applies depends on the machine's zone; the instant is a
/// valid whole-second one, within one zone offset of the wall clock read
/// as UTC.
pub fn resolve_instant(wall: CivilTime) -> (t: UtcInstant)
    requires
        civil_valid(wall),
    ensures
        instant_valid(t),
        near_wall_clock(wall, t),
{
    UtcInstant { secs: resolve_local(wall), nanos: 0 }
}

/// The files of an event folder, in path order, each recorded at its
/// own stem's time in the machine's zone, or at the event's instant
/// when its name carries no stem.
pub fn event_files(files: &Vec<(String, u64)>, event_instant: UtcInstant) -> (out: Vec<MediaFile>)
    requires
        instant_valid(event_instant),
    ensures
        event_files_ok(out@, files@, event_instant),
{
    let mut paths: Vec<String> = Vec::new();
    let mut i: usize = 0;
    while i < files.len()
        invariant
            i <= files@.len(),
            views(paths@) =~= files@.subrange(0, i as int).map_values(|f: (String, u64)| f.0@),
        decreases files@.len() - i,
    {
        let ghost before = views(paths@);
        paths.push(files[i].0.clone());
        assert(views(paths@) =~= before.push(files@[i as int].0@));
        assert(files@.subrange(0, i + 1).map_values(|f: (String, u64)| f.0@)
            =~= files@.subrange(0, i as int).map_values(|f: (String, u64)| f.0@).push(files@[i as int].0@));
        i += 1;
    }
    assert(files@.subrange(0, files@.len() as int) =~= files@);
    let sorted = sort_texts(&paths);
    let mut out: Vec<MediaFile> = Vec::new();
    let mut k: usize = 0;
    while k < sorted.len()
        invariant
            k <= sorted@.len(),
            instant_valid(event_instant),
            out@.len() == k,
            forall|m: int| 0 <= m < k ==> (#[trigger] out@[m]).path@ == sorted@[m]@,
            forall|m: int| 0 <= m < k ==> {
                &&& (#[trigger] out@[m]).size == size_of_path(files@, out@[m].path@)
                &&& out@[m].recorded_at matches Some(t) && instant_valid(t)
                    && match clip_stem(out@[m].path@) {
                        None => t == event_instant,
                        Some(c) => near_wall_clock(c, t),
                    }
            },
        decreases sorted@.len() - k,
    {
        let p = sorted[k].as_str();
        let size = size_lookup(files, p);
        let recorded = match clip_stem_exec(p) {
            Some(c) => resolve_instant(c),
            None => event_instant,
        };
        out.push(MediaFile { path: sorted[k].clone(), size, recorded_at: Some(recorded) });
        k += 1;
    }
    assert(out@.map_values(|f: MediaFile| f.path@) =~= views(sorted@));
    out
}

/// The Unix epoch, the time of an event whose folder yields none.
pub open spec fn epoch() -> UtcInstant {
    UtcInstant { secs: 0, nanos: 0 }
}

/// The group of a saved or sentry event folder, given what a scan read
/// of it and the sidecar a kept event carries.
pub open spec fn event_group_of(
    src: TeslaSource,
    category: EventCategory,
    dir: Seq<char>,
    event_time: Option<CivilTime>,
    reason: Option<Seq<char>>,
    files: Seq<(String, u64)>,
    sidecar: Sidecar,
    g: MediaGroup,
    v: Verdict,
) -> bool {
    let wall = event_wall_of(event_time, dir);
    &&& g.name@ == event_group_name(category, dir)
    &&& v@ == event_verdict_of(src.events@, src.reasons, category, wall is Some, reason)
    &&& instant_valid(g.timestamp)
    &&& event_files_ok(g.files@, files, g.timestamp)
    &&& g.markers@.len() == 0
    &&& match wall {
        Some((w, _)) => pair_views(g.context@) == event_context_of(category, w) && near_wall_clock(w, g.timestamp),
        None => g.timestamp == epoch() && g.context@.len() == 0,
    }
    &&& if v is Keep { g.sidecar == Some(sidecar) } else { g.sidecar is None }
}

impl TeslaSource {
    /// Builds the group of one saved or sentry event folder, with its
    /// verdict. The group is named after its category and folder, timed
    /// by `event.json` or else the folder name (read in the machine's
    /// zone), holds its files in path order, and carries the sidecar
    /// only when kept. A folder with no time is ignored, its files still
    /// listed.
    pub fn event_group(&self, category: EventCategory, dir_name: &str, event_time: Option<CivilTime>, reason: Option<&str>,
        files: &Vec<(String, u64)>, sidecar: Sidecar) -> (r: (MediaGroup, Verdict))
        requires
            event_time matches Some(t) ==> civil_valid(t),
        ensures
            event_group_of(*self, category, dir_name@, event_time, match reason { Some(x) => Some(x@), None => None },
                files@, sidecar, r.0, r.1),
    {
        let mut name = owned(category.as_str());
        push_str(&mut name, "-");
        push_str(&mut name, dir_name);
        let wall = event_wall_clock(event_time, dir_name);
        let verdict = self.event_verdict(category, wall.is_some(), reason);
        match wall {
            None => {
                let at = UtcInstant { secs: 0, nanos: 0 };
                let group = MediaGroup {
                    name,
                    files: event_files(files, at),
                    timestamp: at,
                    markers: Vec::new(),
                    context: Vec::new(),
                    sidecar: None,
                };
                (group, verdict)
            },
            Some((w, _)) => {
                let at = resolve_instant(w);
                let sc = match verdict {
                    Verdict::Keep => Some(sidecar),
                    _ => None,
                };
                let group = MediaGroup {
                    name,
                    files: event_files(files, at),
                    timestamp: at,
                    markers: Vec::new(),
                    context: build_context(category, w),
                    sidecar: sc,
                };
                (group, verdict)
            },
        }
    }
}

/// The group of one minute of recent clips: `recent-<stem>`, every clip
/// recorded at the minute's instant, always kept with its sidecar.
pub open spec fn recent_group_of(stem: Seq<char>, files: Seq<(String, u64)>, sidecar: Sidecar, g: MediaGroup, v: Verdict) -> bool {
    &&& g.name@ == "recent-"@ + stem
    &&& v is Keep
    &&& instant_valid(g.timestamp)
    &&& g.files@.len() == files.len()
    &&& forall|i: int| 0 <= i < files.len() ==> {
        &&& (#[trigger] g.files@[i]).path@ == files[i].0@
        &&& g.files@[i].size == files[i].1
        &&& g.files@[i].recorded_at == Some(g.timestamp)
    }
    &&& g.markers@.len() == 0
    &&& stem_exact_of(stem) matches Some(w) && pair_views(g.context@) == event_context_of(EventCategory::Recent, w)
        && near_wall_clock(w, g.timestamp)
    &&& g.sidecar == Some(sidecar)
}

/// Builds the group of one minute of recent clips from its stem and its
/// clips in path order.
pub fn recent_group(stem: &str, files: &Vec<(String, u64)>, sidecar: Sidecar) -> (r: (MediaGroup, Verdict))
    requires
        stem_exact_of(stem@) is Some,
    ensures
        recent_group_of(stem@, files@, sidecar, r.0, r.1),
{
    let w = match parse_stem_exact(stem) {
        Some(w) => w,
        None => CivilTime { year: 1970, month: 1, day: 1, hour: 0, minute: 0, second: 0 },
    };
    let at = resolve_instant(w);
    let mut out: Vec<MediaFile> = Vec::new();
    let mut i: usize = 0;
    while i < files.len()
        invariant
            i <= files@.len(),
            out@.len() == i,
            forall|m: int| 0 <= m < i ==> {
                &&& (#[trigger] out@[m]).path@ == files@[m].0@
                &&& out@[m].size == files@[m].1
                &&& out@[m].recorded_at == Some(at)
            },
        decreases files@.len() - i,
    {
        out.push(MediaFile { path: files[i].0.clone(), size: files[i].1, recorded_at: Some(at) });
        i += 1;
    }
    let group = MediaGroup {
        name: {
            let mut n = owned("recent-");
            push_str(&mut n, stem);
            n
        },
        files: out,
        timestamp: at,
        markers: Vec::new(),
        context: build_context(EventCategory::Recent, w),
        sidecar: Some(sidecar),
    };
    (group, Verdict::Keep)
}

/// The minute a recent clip belongs to: its name's leading stem text,
/// when that stem reads as a time.
pub open spec fn clip_key(p: Seq<char>) -> Option<Seq<char>> {
    match file_name_of(p) {
        Some(n) => if stem_prefix_of(n) is Some { byte_prefix(n, 19) } else { None },
        None => None,
    }
}

/// The paths with minute `stem`, in the order given.
pub open spec fn keyed(pv: Seq<Seq<char>>, stem: Seq<char>) -> Seq<Seq<char>>
    decreases pv.len(),
{
    if pv.len() == 0 {
        Seq::empty()
    } else {
        keyed(pv.drop_last(), stem) + if clip_key(pv.last()) == Some(stem) { seq![pv.last()] } else { Seq::empty() }
    }
}

/// The paths with no minute, in the order given.
pub open spec fn unkeyed(pv: Seq<Seq<char>>) -> Seq<Seq<char>>
    decreases pv.len(),
{
    if pv.len() == 0 {
        Seq::empty()
    } else {
        unkeyed(pv.drop_last()) + if clip_key(pv.last()) is None { seq![pv.last()] } else { Seq::empty() }
    }
}

/// Whether some path has minute `stem`.
pub open spec fn has_key(pv: Seq<Seq<char>>, stem: Seq<char>) -> bool {
    exists|i: int| 0 <= i < pv.len() && #[trigger] clip_key(pv[i]) == Some(stem)
}

/// One minute of recent clips: its stem and its clips' paths.
#[derive(Debug, Clone)]
pub struct RecentCluster {
    pub stem: String,
    pub paths: Vec<String>,
}

fn clip_key_exec(p: &str) -> (r: Option<String>)
    ensures
        match clip_key(p@) {
            Some(k) => r matches Some(x) && x@ == k,
            None => r is None,
        },
{
    match file_name(p) {
        Some(n) => {
            if parse_stem_prefix(n.as_str()).is_some() {
                take_bytes(n.as_str(), 19)
            } else {
                None
            }
        },
        None => None,
    }
}

/// Sorts the recent clips into minutes: minutes in stem order, each
/// with its clips in path order; and the clips whose names carry no
/// stem, in the order found.
pub fn cluster_recent(paths: &Vec<String>) -> (r: (Vec<RecentCluster>, Vec<String>))
    ensures
        strictly_sorted(r.0@.map_values(|c: RecentCluster| c.stem@)),
        forall|s: Seq<char>| r.0@.map_values(|c: RecentCluster| c.stem@).contains(s) <==> has_key(views(paths@), s),
        forall|k: int| 0 <= k < r.0@.len() ==>
            views((#[trigger] r.0@[k]).paths@) == keyed(views(paths@).sort_by(text_order()), r.0@[k].stem@),
        views(r.1@) == unkeyed(views(paths@)),
{
    let ghost pv = views(paths@);
    let mut stems: Vec<String> = Vec::new();
    let mut stray: Vec<String> = Vec::new();
    let mut i: usize = 0;
    while i < paths.len()
        invariant
            i <= pv.len(),
            pv == views(paths@),
            strictly_sorted(views(stems@)),
            forall|s: Seq<char>| views(stems@).contains(s) <==> has_key(pv.subrange(0, i as int), s),
            views(stray@) == unkeyed(pv.subrange(0, i as int)),
        decreases pv.len() - i,
    {
        let ghost sub = pv.subrange(0, i as int);
        let ghost next = pv.subrange(0, i + 1);
        assert(next.drop_last() =~= sub);
        assert(next.last() == pv[i as int]);
        let key = clip_key_exec(paths[i].as_str());
        match &key {
            Some(k) => insert_sorted_unique(&mut stems, k.as_str()),
            None => stray.push(paths[i].clone()),
        }
        proof {
            assert forall|s: Seq<char>| views(stems@).contains(s) <==> has_key(next, s) by {
                if has_key(next, s) {
                    let j = choose|j: int| 0 <= j < next.len() && #[trigger] clip_key(next[j]) == Some(s);
                    if j < i {
                        assert(sub[j] == next[j]);
                        assert(has_key(sub, s));
                    }
                }
                if has_key(sub, s) {
                    let j = choose|j: int| 0 <= j < sub.len() && #[trigger] clip_key(sub[j]) == Some(s);
                    assert(next[j] == sub[j]);
                }
                if clip_key(pv[i as int]) == Some(s) {
                    assert(next[i as int] == pv[i as int]);
                }
            }
            assert(views(stray@) =~= unkeyed(next));
        }
        i += 1;
    }
    assert(pv.subrange(0, pv.len() as int) =~= pv);
    let sorted = sort_texts(paths);
    let ghost sv = views(sorted@);
    let mut clusters: Vec<RecentCluster> = Vec::new();
    let mut s: usize = 0;
    while s < stems.len()
        invariant
            s <= stems@.len(),
            sv == views(sorted@),
            sv == pv.sort_by(text_order()),
            clusters@.len() == s,
            forall|k: int| 0 <= k < s ==> (#[trigger] clusters@[k]).stem@ == stems@[k]@,
            forall|k: int| 0 <= k < s ==> views((#[trigger] clusters@[k]).paths@) == keyed(sv, clusters@[k].stem@),
        decreases stems@.len() - s,
    {
        let stem = &stems[s];
        let mut members: Vec<String> = Vec::new();
        let mut j: usize = 0;
        while j < sorted.len()
            invariant
                j <= sv.len(),
                sv == views(sorted@),
                views(members@) == keyed(sv.subrange(0, j as int), stem@),
            decreases sv.len() - j,
        {
            let ghost sub = sv.subrange(0, j as int);
            let ghost next = sv.subrange(0, j + 1);
            assert(next.drop_last() =~= sub);
            assert(next.last() == sv[j as int]);
            let key = clip_key_exec(sorted[j].as_str());
            let hit = match &key {
                Some(k) => same_text(k.as_str(), stem.as_str()),
                None => false,
            };
            if hit {
                members.push(sorted[j].clone());
            }
            assert(views(members@) =~= keyed(next, stem@));
            j += 1;
        }
        assert(sv.subrange(0, sv.len() as int) =~= sv);
        clusters.push(RecentCluster { stem: stem.clone(), paths: members });
        s += 1;
    }
    proof {
        assert(clusters@.map_values(|c: RecentCluster| c.stem@) =~= views(stems@));
    }
    (clusters, stray)
}

/// What `serde_json` finds at `key` of the JSON text `text`, when the
/// text parses as JSON and the value there is a string; nothing
/// otherwise.
pub uninterp spec fn json_text_field(text: Seq<char>, key: Seq<char>) -> Option<Seq<char>>;

/// `serde_json::from_str::<Value>(text)`, then `.get(key)` and
/// `.as_str()`: the string at `key` of a JSON object.
#[verifier::external_body]
pub(crate) fn json_str_field(text: &str, key: &str) -> (r: Option<String>)
    ensures
        crate::transfer::opt_view(r) == json_text_field(text@, key@),
{
    match serde_json::from_str::<serde_json::Value>(text) {
        Ok(value) => match value.get(key) {
            Some(field) => match field.as_str() {
                Some(s) => Some(s.to_string()),
                None => None,
            },
            None => None,
        },
        Err(_) => None,
    }
}

/// The fields of an `event.json` the import reads, each on its own: a
/// missing or malformed one is simply absent.
#[derive(Debug, Clone)]
pub struct EventFields {
    pub timestamp: Option<CivilTime>,
    pub city: Option<String>,
    pub reason: Option<String>,
    /// The estimated latitude and longitude, as written.
    pub est_lat: Option<String>,
    pub est_lon: Option<String>,
}

/// The civil time `event.json` records, read as `%Y-%m-%dT%H:%M:%S`.
pub open spec fn event_time_of(text: Seq<char>) -> Option<CivilTime> {
    match json_text_field(text, "timestamp"@) {
        Some(s) => civil_parse("%Y-%m-%dT%H:%M:%S"@, s),
        None => None,
    }
}

/// Reads the fields of an `event.json` text.
pub fn parse_event_fields(text: &str) -> (r: EventFields)
    ensures
        r.timestamp == event_time_of(text@),
        r.timestamp matches Some(c) ==> civil_valid(c),
        crate::transfer::opt_view(r.city) == json_text_field(text@, "city"@),
        crate::transfer::opt_view(r.reason) == json_text_field(text@, "reason"@),
        crate::transfer::opt_view(r.est_lat) == json_text_field(text@, "est_lat"@),
        crate::transfer::opt_view(r.est_lon) == json_text_field(text@, "est_lon"@),
{
    let timestamp = match json_str_field(text, "timestamp") {
        Some(s) => parse_civil("%Y-%m-%dT%H:%M:%S", s.as_str()),
        None => None,
    };
    EventFields {
        timestamp,
        city: json_str_field(text, "city"),
        reason: json_str_field(text, "reason"),
        est_lat: json_str_field(text, "est_lat"),
        est_lon: json_str_field(text, "est_lon"),
    }
}

/// A deny list drops only the reasons it names: a reason equal to none of
/// its entries passes, and one equal to an entry is filtered with a
/// message naming it. An allow list passes exactly the reasons it names.
pub proof fn lemma_deny_drops_only_listed_reasons(r: Reasons, reason: Seq<char>)
    ensures
        r matches Reasons::Deny(list) ==> (filter_message(r, reason) is None <==> forall|i: int| 0 <= i < list@.len()
            ==> (#[trigger] list@[i])@ != reason),
        r matches Reasons::Deny(list) ==> (filter_message(r, reason) matches Some(m) ==> m == "reason '"@ + reason
            + "' denied"@),
        r matches Reasons::Allow(list) ==> (filter_message(r, reason) is None <==> exists|i: int| 0 <= i < list@.len()
            && (#[trigger] list@[i])@ == reason),
{
}

} // verus!
