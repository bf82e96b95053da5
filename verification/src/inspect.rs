//! `inspect`: which kind of input a path is, and the text of a
//! metadata dump. Opening files and reading their boxes is the caller's;
//! what the dump says and how it reads is decided here.

use vstd::prelude::*;
use crate::clock::{add_millis, instant_nanos, instant_valid, nanos_in_range, UtcInstant};
use crate::zoned::{full_in_some_zone, full_in_zone};
use crate::order::{sort_texts, text_order, views};
use crate::paths::{extension, extension_of, file_name, file_name_of, parent, parent_of};
use crate::source::tesla::{json_str_field, json_text_field};
use crate::text::{dec, owned, push_dec, push_str, same_text};
use crate::transfer::{eq_ignore_case, opt_view};

verus! {

/// What `inspect` was pointed at: a GoPro MP4 file, or a Tesla event
/// folder (the folder even when given its `event.json`).
#[derive(Debug, Clone)]
pub enum InspectTarget {
    Mp4(String),
    TeslaEvent(String),
}

/// What the file system says of the path `inspect` was given: whether it
/// is a file, a directory, and (for a directory) whether it holds an
/// `event.json` file.
#[derive(Debug, Clone, Copy)]
pub struct PathFacts {
    pub is_file: bool,
    pub is_dir: bool,
    pub holds_event_json: bool,
}

/// The error an unsupported input gets.
pub open spec fn unsupported_text(path: Seq<char>) -> Seq<char> {
    "unsupported input '"@ + path
        + "': expected a GoPro .mp4 file, a Tesla event folder (containing event.json), or an event.json file"@
}

/// Whether a path's extension is `mp4` in any letter case.
pub open spec fn mp4_extension(path: Seq<char>) -> bool {
    match extension_of(path) {
        Some(e) => eq_ignore_case(e, "mp4"@),
        None => false,
    }
}

/// What `inspect` makes of a path: an `.mp4` file; a folder holding
/// `event.json`; an `event.json` file, standing for its folder; or an
/// error naming the supported inputs.
pub open spec fn classified(path: Seq<char>, facts: PathFacts, r: Result<InspectTarget, String>) -> bool {
    if facts.is_file && mp4_extension(path) {
        r matches Ok(InspectTarget::Mp4(p)) && p@ == path
    } else if facts.is_dir && facts.holds_event_json {
        r matches Ok(InspectTarget::TeslaEvent(p)) && p@ == path
    } else if facts.is_file && file_name_of(path) == Some("event.json"@) {
        r matches Ok(InspectTarget::TeslaEvent(p)) && p@ == match parent_of(path) {
            Some(q) => q,
            None => path,
        }
    } else {
        r matches Err(m) && m@ == unsupported_text(path)
    }
}

fn is_mp4_extension(path: &str) -> (b: bool)
    ensures
        b == mp4_extension(path@),
{
    proof {
        reveal_strlit("mp4");
    }
    match extension(path) {
        Some(e) => {
            let cs = crate::text::chars_of(e.as_str());
            if cs.len() != 3 {
                return false;
            }
            let r = crate::transfer::is_letter(cs[0], 'm') && crate::transfer::is_letter(cs[1], 'p') && cs[2] == '4';
            assert(r == eq_ignore_case(e@, "mp4"@)) by {
                if r {
                    assert forall|i: int| 0 <= i < 3 implies crate::transfer::lower(#[trigger] e@[i]) == crate::transfer::lower("mp4"@[i]) by {
                        assert(i == 0 || i == 1 || i == 2);
                    }
                }
                if eq_ignore_case(e@, "mp4"@) {
                    assert(crate::transfer::lower(e@[0]) == crate::transfer::lower("mp4"@[0]));
                    assert(crate::transfer::lower(e@[1]) == crate::transfer::lower("mp4"@[1]));
                    assert(crate::transfer::lower(e@[2]) == crate::transfer::lower("mp4"@[2]));
                }
            }
            r
        },
        None => false,
    }
}

/// Classifies a path for `inspect`.
pub fn classify(path: &str, facts: PathFacts) -> (r: Result<InspectTarget, String>)
    ensures
        classified(path@, facts, r),
{
    if facts.is_file && is_mp4_extension(path) {
        return Ok(InspectTarget::Mp4(owned(path)));
    }
    if facts.is_dir && facts.holds_event_json {
        return Ok(InspectTarget::TeslaEvent(owned(path)));
    }
    let named_event_json = match file_name(path) {
        Some(n) => same_text(n.as_str(), "event.json"),
        None => false,
    };
    if facts.is_file && named_event_json {
        let dir = match parent(path) {
            Some(q) => q,
            None => owned(path),
        };
        return Ok(InspectTarget::TeslaEvent(dir));
    }
    let mut m = owned("unsupported input '");
    push_str(&mut m, path);
    push_str(&mut m, "': expected a GoPro .mp4 file, a Tesla event folder (containing event.json), or an event.json file");
    Err(m)
}

/// One HiLight marker: its offset into the file and, when the creation
/// time is known, the instant it marks.
#[derive(Debug, Clone, Copy)]
pub struct MarkerDump {
    pub offset_ms: u32,
    pub timestamp: Option<UtcInstant>,
}

/// A GPS track's summary, its numbers already written out: how many
/// samples it holds, the first usable fix, and the camera clock's offset
/// from GPS time in seconds.
#[derive(Debug, Clone)]
pub struct GpsSummary {
    pub sample_count: usize,
    pub first_fix: Option<(String, String)>,
    pub clock_offset: Option<String>,
}

/// One MP4's metadata dump; each section fails on its own.
#[derive(Debug)]
pub struct Mp4Dump {
    pub path: String,
    pub creation_time: Result<UtcInstant, String>,
    pub markers: Result<Vec<MarkerDump>, String>,
    /// No GPS track at all is no failure.
    pub gps: Result<Option<GpsSummary>, String>,
}

impl Mp4Dump {
    /// Whether any section failed.
    pub fn has_errors(&self) -> (b: bool)
        ensures
            b == (self.creation_time is Err || self.markers is Err || self.gps is Err),
    {
        self.creation_time.is_err() || self.markers.is_err() || self.gps.is_err()
    }
}

/// Whether each marker's instant lies in the timestamp range.
pub open spec fn markers_in_range(offsets: Seq<u32>, creation_time: Result<UtcInstant, String>) -> bool {
    creation_time matches Ok(ct) ==> instant_valid(ct)
        && forall|i: int| 0 <= i < offsets.len() ==> nanos_in_range(instant_nanos(ct) + (#[trigger] offsets[i]) * 1_000_000)
}

/// The markers of a dump: each offset, and when the creation time is
/// known the creation time plus the offset.
pub fn marker_dumps(offsets: &Vec<u32>, creation_time: &Result<UtcInstant, String>) -> (r: Vec<MarkerDump>)
    requires
        markers_in_range(offsets@, *creation_time),
    ensures
        r@.len() == offsets@.len(),
        forall|i: int| 0 <= i < r@.len() ==> {
            &&& (#[trigger] r@[i]).offset_ms == offsets@[i]
            &&& match *creation_time {
                Ok(ct) => r@[i].timestamp matches Some(t) && instant_valid(t)
                    && instant_nanos(t) == instant_nanos(ct) + offsets@[i] * 1_000_000,
                Err(_) => r@[i].timestamp is None,
            }
        },
{
    let mut r: Vec<MarkerDump> = Vec::new();
    let mut i: usize = 0;
    while i < offsets.len()
        invariant
            i <= offsets@.len(),
            markers_in_range(offsets@, *creation_time),
            r@.len() == i,
            forall|k: int| 0 <= k < i ==> {
                &&& (#[trigger] r@[k]).offset_ms == offsets@[k]
                &&& match *creation_time {
                    Ok(ct) => r@[k].timestamp matches Some(t) && instant_valid(t)
                        && instant_nanos(t) == instant_nanos(ct) + offsets@[k] * 1_000_000,
                    Err(_) => r@[k].timestamp is None,
                }
            },
        decreases offsets@.len() - i,
    {
        let o = offsets[i];
        let timestamp = match creation_time {
            Ok(ct) => {
                assert(nanos_in_range(instant_nanos(*ct) + offsets@[i as int] * 1_000_000));
                Some(add_millis(*ct, o as i64))
            },
            Err(_) => None,
        };
        r.push(MarkerDump { offset_ms: o, timestamp });
        i += 1;
    }
    r
}

/// The marker lines of a dump, each with its instant's text when it has
/// one.
pub open spec fn marker_dump_lines(ms: Seq<MarkerDump>, times: Seq<String>) -> Seq<char>
    decreases ms.len(),
{
    if ms.len() == 0 {
        Seq::empty()
    } else {
        marker_dump_lines(ms.drop_last(), times) + "  "@ + dec(ms.last().offset_ms as nat) + " ms"@
            + (if ms.last().timestamp is Some { " -> "@ + times[ms.len() - 1]@ } else { Seq::empty() }) + "\n"@
    }
}

/// The GPS section of a dump.
pub open spec fn gps_text(gps: Result<Option<GpsSummary>, String>) -> Seq<char> {
    match gps {
        Ok(Some(g)) => "GPS: "@ + dec(g.sample_count as nat) + " sample(s)\n"@ + match g.first_fix {
            Some((lat, lon)) => "  first usable fix: "@ + lat@ + ", "@ + lon@ + "\n"@ + match g.clock_offset {
                Some(o) => "  clock offset: "@ + o@ + "s\n"@,
                None => "  clock offset: unknown (no creation time)\n"@,
            },
            None => "  no usable fix found\n"@,
        },
        Ok(None) => "GPS: no gpmd track\n"@,
        Err(e) => "GPS: FAILED ("@ + e@ + ")\n"@,
    }
}

/// The text of an MP4 dump, given the creation time's and each marker's
/// rendered instant: the file, its creation time, its HiLight markers
/// and its GPS summary, each section naming what failed to parse.
pub open spec fn mp4_dump_text(d: Mp4Dump, created: Seq<char>, times: Seq<String>) -> Seq<char> {
    "File: "@ + d.path@ + "\n"@
        + match d.creation_time {
            Ok(_) => "Creation time: "@ + created + "\n"@,
            Err(e) => "Creation time: FAILED ("@ + e@ + ")\n"@,
        }
        + match d.markers {
            Ok(ms) => "HiLight markers: "@ + dec(ms@.len()) + "\n"@ + marker_dump_lines(ms@, times),
            Err(e) => "HiLight markers: FAILED ("@ + e@ + ")\n"@,
        }
        + gps_text(d.gps)
}

fn push_gps(out: &mut String, gps: &Result<Option<GpsSummary>, String>)
    ensures
        final(out)@ == old(out)@ + gps_text(*gps),
{
    let ghost start = out@;
    match gps {
        Ok(Some(g)) => {
            push_str(out, "GPS: ");
            push_dec(out, g.sample_count as u128);
            push_str(out, " sample(s)\n");
            match &g.first_fix {
                Some((lat, lon)) => {
                    push_str(out, "  first usable fix: ");
                    push_str(out, lat.as_str());
                    push_str(out, ", ");
                    push_str(out, lon.as_str());
                    push_str(out, "\n");
                    match &g.clock_offset {
                        Some(o) => {
                            push_str(out, "  clock offset: ");
                            push_str(out, o.as_str());
                            push_str(out, "s\n");
                        },
                        None => push_str(out, "  clock offset: unknown (no creation time)\n"),
                    }
                },
                None => push_str(out, "  no usable fix found\n"),
            }
        },
        Ok(None) => push_str(out, "GPS: no gpmd track\n"),
        Err(e) => {
            push_str(out, "GPS: FAILED (");
            push_str(out, e.as_str());
            push_str(out, ")\n");
        },
    }
    assert(out@ =~= start + gps_text(*gps));
}

fn push_marker_dumps(out: &mut String, ms: &Vec<MarkerDump>, times: &Vec<String>)
    requires
        times@.len() == ms@.len(),
    ensures
        final(out)@ == old(out)@ + marker_dump_lines(ms@, times@),
{
    let ghost start = out@;
    let mut i: usize = 0;
    while i < ms.len()
        invariant
            i <= ms@.len() == times@.len(),
            out@ == start + marker_dump_lines(ms@.subrange(0, i as int), times@),
        decreases ms@.len() - i,
    {
        assert(ms@.subrange(0, i + 1).drop_last() =~= ms@.subrange(0, i as int));
        push_str(out, "  ");
        push_dec(out, ms[i].offset_ms as u128);
        push_str(out, " ms");
        if ms[i].timestamp.is_some() {
            push_str(out, " -> ");
            push_str(out, times[i].as_str());
        }
        push_str(out, "\n");
        assert(out@ =~= start + marker_dump_lines(ms@.subrange(0, i + 1), times@));
        i += 1;
    }
    assert(ms@.subrange(0, ms@.len() as int) =~= ms@);
}

/// Renders an MP4 dump whose instants are already rendered.
pub fn render_mp4_dump_stamped(dump: &Mp4Dump, created: &str, times: &Vec<String>) -> (s: String)
    requires
        dump.markers matches Ok(ms) ==> times@.len() == ms@.len(),
    ensures
        s@ == mp4_dump_text(*dump, created@, times@),
{
    let mut out = owned("File: ");
    push_str(&mut out, dump.path.as_str());
    push_str(&mut out, "\n");
    match &dump.creation_time {
        Ok(_) => {
            push_str(&mut out, "Creation time: ");
            push_str(&mut out, created);
            push_str(&mut out, "\n");
        },
        Err(e) => {
            push_str(&mut out, "Creation time: FAILED (");
            push_str(&mut out, e.as_str());
            push_str(&mut out, ")\n");
        },
    }
    let ghost mid = out@;
    match &dump.markers {
        Ok(ms) => {
            push_str(&mut out, "HiLight markers: ");
            push_dec(&mut out, ms.len() as u128);
            push_str(&mut out, "\n");
            push_marker_dumps(&mut out, ms, times);
        },
        Err(e) => {
            push_str(&mut out, "HiLight markers: FAILED (");
            push_str(&mut out, e.as_str());
            push_str(&mut out, ")\n");
        },
    }
    let ghost mid2 = out@;
    push_gps(&mut out, &dump.gps);
    assert(out@ =~= mp4_dump_text(*dump, created@, times@));
    out
}

/// The JSON entry of one HiLight marker: its offset and, when its
/// instant is known, that instant as rendered.
#[derive(Debug, Clone)]
pub struct MarkerDumpJson {
    pub offset_ms: u32,
    pub timestamp: Option<String>,
}

/// Whether `j` is the JSON entry of marker `m` whose instant renders as
/// `time`.
pub open spec fn marker_json_of(j: MarkerDumpJson, m: MarkerDump, time: Seq<char>) -> bool {
    &&& j.offset_ms == m.offset_ms
    &&& match m.timestamp {
        Some(_) => j.timestamp matches Some(t) && t@ == time,
        None => j.timestamp is None,
    }
}

/// Whether `r` holds the JSON entries of markers `ms` whose instants
/// render as `times`.
pub open spec fn markers_json_match(r: Seq<MarkerDumpJson>, ms: Seq<MarkerDump>, times: Seq<Seq<char>>) -> bool {
    &&& r.len() == ms.len() == times.len()
    &&& forall|i: int| 0 <= i < ms.len() ==> marker_json_of(#[trigger] r[i], ms[i], times[i])
}

/// The markers' JSON entries, given each marker's rendered instant.
pub fn marker_dumps_json_stamped(ms: &Vec<MarkerDump>, times: &Vec<String>) -> (r: Vec<MarkerDumpJson>)
    requires
        times@.len() == ms@.len(),
    ensures
        r@.len() == ms@.len(),
        forall|i: int| 0 <= i < ms@.len() ==> marker_json_of(#[trigger] r@[i], ms@[i], times@[i]@),
{
    let mut r: Vec<MarkerDumpJson> = Vec::new();
    let mut i: usize = 0;
    while i < ms.len()
        invariant
            i <= ms@.len() == times@.len(),
            r@.len() == i,
            forall|k: int| 0 <= k < i ==> marker_json_of(#[trigger] r@[k], ms@[k], times@[k]@),
        decreases ms@.len() - i,
    {
        let timestamp = match ms[i].timestamp {
            Some(_) => Some(crate::text::string_of(&crate::text::chars_of(times[i].as_str()))),
            None => None,
        };
        r.push(MarkerDumpJson { offset_ms: ms[i].offset_ms, timestamp });
        i += 1;
    }
    r
}

/// The markers' JSON entries, each known instant in RFC 3339 form in
/// `tz`: the entries `marker_dumps_json_stamped` gives for the times the
/// zone renders.
pub fn marker_dumps_json(ms: &Vec<MarkerDump>, tz: &jiff::tz::TimeZone) -> (r: Vec<MarkerDumpJson>)
    requires
        forall|i: int| 0 <= i < ms@.len() ==> ((#[trigger] ms@[i]).timestamp matches Some(t) ==> instant_valid(t)),
    ensures
        r@.len() == ms@.len(),
        exists|times: Seq<Seq<char>>| #[trigger] markers_json_match(r@, ms@, times) && marker_times_render(ms@, times),
{
    let times = marker_times(ms, tz);
    let r = marker_dumps_json_stamped(ms, &times);
    let ghost tv = times@.map_values(|s: String| s@);
    assert(tv.len() == ms@.len());
    assert forall|i: int| 0 <= i < ms@.len() implies marker_json_of(#[trigger] r@[i], ms@[i], tv[i]) by {
        assert(tv[i] == times@[i]@);
    }
    assert(markers_json_match(r@, ms@, tv));
    assert forall|i: int| 0 <= i < ms@.len() implies ((#[trigger] ms@[i]).timestamp matches Some(t) ==> full_in_some_zone(t,
        tv[i])) by {
        assert(tv[i] == times@[i]@);
    }
    r
}

/// Whether each known marker instant reads, in `times`, in RFC 3339 form
/// in a zone.
pub open spec fn marker_times_render(ms: Seq<MarkerDump>, times: Seq<Seq<char>>) -> bool {
    forall|i: int| 0 <= i < ms.len() ==> ((#[trigger] ms[i]).timestamp matches Some(t) ==> full_in_some_zone(t, times[i]))
}

/// Each marker's instant in RFC 3339 form in `tz`, empty where the
/// marker has none.
fn marker_times(ms: &Vec<MarkerDump>, tz: &jiff::tz::TimeZone) -> (times: Vec<String>)
    requires
        forall|i: int| 0 <= i < ms@.len() ==> ((#[trigger] ms@[i]).timestamp matches Some(t) ==> instant_valid(t)),
    ensures
        times@.len() == ms@.len(),
        forall|i: int| 0 <= i < ms@.len() ==> ((#[trigger] ms@[i]).timestamp matches Some(t) ==> full_in_some_zone(t,
            times@[i]@)),
{
    let mut times: Vec<String> = Vec::new();
    let mut i: usize = 0;
    while i < ms.len()
        invariant
            i <= ms@.len(),
            times@.len() == i,
            forall|k: int| 0 <= k < ms@.len() ==> ((#[trigger] ms@[k]).timestamp matches Some(t) ==> instant_valid(t)),
            forall|k: int| 0 <= k < i ==> ((#[trigger] ms@[k]).timestamp matches Some(t) ==> full_in_some_zone(t,
                times@[k]@)),
        decreases ms@.len() - i,
    {
        let t = match ms[i].timestamp {
            Some(t) => full_in_zone(t, tz),
            None => String::new(),
        };
        times.push(t);
        i += 1;
    }
    times
}

/// Whether every instant a dump shows is a valid one.
pub open spec fn dump_instants_ok(d: Mp4Dump) -> bool {
    &&& d.creation_time matches Ok(ct) ==> instant_valid(ct)
    &&& d.markers matches Ok(ms) ==> forall|i: int| 0 <= i < ms@.len() ==>
        ((#[trigger] ms@[i]).timestamp matches Some(t) ==> instant_valid(t))
}

/// Renders an MP4 dump for the terminal, its instants in RFC 3339 form
/// in `tz`: the text of `render_mp4_dump_stamped` for the times the zone
/// gives.
pub fn render_mp4_dump(dump: &Mp4Dump, tz: &jiff::tz::TimeZone) -> (s: String)
    requires
        dump_instants_ok(*dump),
    ensures
        exists|created: Seq<char>, times: Seq<String>| #[trigger] mp4_dump_text(*dump, created, times) == s@
            && dump_times_render(*dump, created, times),
{
    let created = match &dump.creation_time {
        Ok(ct) => full_in_zone(*ct, tz),
        Err(_) => String::new(),
    };
    let times = match &dump.markers {
        Ok(ms) => marker_times(ms, tz),
        Err(_) => Vec::new(),
    };
    let s = render_mp4_dump_stamped(dump, created.as_str(), &times);
    assert(mp4_dump_text(*dump, created@, times@) == s@);
    proof {
        if let Ok(ms) = &dump.markers {
            let tv = times@.map_values(|x: String| x@);
            assert forall|i: int| 0 <= i < ms@.len() implies ((#[trigger] ms@[i]).timestamp matches Some(t)
                ==> full_in_some_zone(t, tv[i])) by {
                assert(tv[i] == times@[i]@);
            }
        }
    }
    s
}

/// Whether a dump's creation time and known marker instants read, in
/// `created` and `times`, in RFC 3339 form in a zone.
pub open spec fn dump_times_render(d: Mp4Dump, created: Seq<char>, times: Seq<String>) -> bool {
    &&& d.creation_time matches Ok(ct) ==> full_in_some_zone(ct, created)
    &&& d.markers matches Ok(ms) ==> times.len() == ms@.len() && marker_times_render(ms@, times.map_values(
        |x: String| x@))
}

/// One Tesla event folder's dump: `event.json`'s fields, its estimated
/// coordinates already written out, and the other files present.
#[derive(Debug, Clone)]
pub struct TeslaEventDump {
    pub path: String,
    pub timestamp: Option<String>,
    pub reason: Option<String>,
    pub city: Option<String>,
    pub coordinates: Option<(String, String)>,
    pub clip_files: Vec<String>,
}

/// The names other than `event.json`, in the order given.
pub open spec fn clip_names(names: Seq<Seq<char>>) -> Seq<Seq<char>>
    decreases names.len(),
{
    if names.len() == 0 {
        Seq::empty()
    } else {
        clip_names(names.drop_last()) + if names.last() == "event.json"@ { Seq::empty() } else { seq![names.last()] }
    }
}

/// The dump of an event folder, from its path, its `event.json` text,
/// the names of the files in it and the coordinates: the three string
/// fields of `event.json`, and every other file's name in text order.
pub fn tesla_event_dump(dir: &str, event_json: &str, names: &Vec<String>, coordinates: Option<(String, String)>)
    -> (d: TeslaEventDump)
    ensures
        d.path@ == dir@,
        opt_view(d.timestamp) == json_text_field(event_json@, "timestamp"@),
        opt_view(d.reason) == json_text_field(event_json@, "reason"@),
        opt_view(d.city) == json_text_field(event_json@, "city"@),
        d.coordinates == coordinates,
        views(d.clip_files@) == clip_names(views(names@)).sort_by(text_order()),
{
    let mut clips: Vec<String> = Vec::new();
    let mut i: usize = 0;
    while i < names.len()
        invariant
            i <= names@.len(),
            views(clips@) == clip_names(views(names@).subrange(0, i as int)),
        decreases names@.len() - i,
    {
        assert(views(names@).subrange(0, i + 1).drop_last() =~= views(names@).subrange(0, i as int));
        assert(views(names@).subrange(0, i + 1).last() == names@[i as int]@);
        if !same_text(names[i].as_str(), "event.json") {
            clips.push(names[i].clone());
        }
        assert(views(clips@) =~= clip_names(views(names@).subrange(0, i + 1)));
        i += 1;
    }
    assert(views(names@).subrange(0, names@.len() as int) =~= views(names@));
    TeslaEventDump {
        path: owned(dir),
        timestamp: json_str_field(event_json, "timestamp"),
        reason: json_str_field(event_json, "reason"),
        city: json_str_field(event_json, "city"),
        coordinates,
        clip_files: sort_texts(&clips),
    }
}

/// A field of the dump, or `(unknown)`.
pub open spec fn or_unknown(o: Option<String>) -> Seq<char> {
    match o {
        Some(s) => s@,
        None => "(unknown)"@,
    }
}

/// The clip lines of a dump.
pub open spec fn clip_lines(files: Seq<String>) -> Seq<char>
    decreases files.len(),
{
    if files.len() == 0 { Seq::empty() } else { clip_lines(files.drop_last()) + "  "@ + files.last()@ + "\n"@ }
}

/// The text of a Tesla event dump: the folder, `event.json`'s fields
/// (or `(unknown)`), and the files present.
pub open spec fn tesla_dump_text(d: TeslaEventDump) -> Seq<char> {
    "Event: "@ + d.path@ + "\n"@
        + "Timestamp: "@ + or_unknown(d.timestamp) + "\n"@
        + "Reason: "@ + or_unknown(d.reason) + "\n"@
        + "City: "@ + or_unknown(d.city) + "\n"@
        + match d.coordinates {
            Some((lat, lon)) => "Coordinates: "@ + lat@ + ", "@ + lon@ + "\n"@,
            None => "Coordinates: (unknown)\n"@,
        }
        + "Files:\n"@ + clip_lines(d.clip_files@)
}

fn push_or_unknown(out: &mut String, o: &Option<String>)
    ensures
        final(out)@ == old(out)@ + or_unknown(*o),
{
    match o {
        Some(s) => push_str(out, s.as_str()),
        None => push_str(out, "(unknown)"),
    }
}

/// Renders a Tesla event dump.
pub fn render_tesla_dump(dump: &TeslaEventDump) -> (s: String)
    ensures
        s@ == tesla_dump_text(*dump),
{
    let mut out = owned("Event: ");
    push_str(&mut out, dump.path.as_str());
    push_str(&mut out, "\n");
    push_str(&mut out, "Timestamp: ");
    push_or_unknown(&mut out, &dump.timestamp);
    push_str(&mut out, "\n");
    push_str(&mut out, "Reason: ");
    push_or_unknown(&mut out, &dump.reason);
    push_str(&mut out, "\n");
    push_str(&mut out, "City: ");
    push_or_unknown(&mut out, &dump.city);
    push_str(&mut out, "\n");
    let ghost fields = out@;
    match &dump.coordinates {
        Some((lat, lon)) => {
            push_str(&mut out, "Coordinates: ");
            push_str(&mut out, lat.as_str());
            push_str(&mut out, ", ");
            push_str(&mut out, lon.as_str());
            push_str(&mut out, "\n");
        },
        None => push_str(&mut out, "Coordinates: (unknown)\n"),
    }
    push_str(&mut out, "Files:\n");
    let ghost head = out@;
    let mut i: usize = 0;
    while i < dump.clip_files.len()
        invariant
            i <= dump.clip_files@.len(),
            out@ == head + clip_lines(dump.clip_files@.subrange(0, i as int)),
        decreases dump.clip_files@.len() - i,
    {
        assert(dump.clip_files@.subrange(0, i + 1).drop_last() =~= dump.clip_files@.subrange(0, i as int));
        push_str(&mut out, "  ");
        push_str(&mut out, dump.clip_files[i].as_str());
        push_str(&mut out, "\n");
        i += 1;
    }
    assert(dump.clip_files@.subrange(0, dump.clip_files@.len() as int) =~= dump.clip_files@);
    assert(out@ =~= tesla_dump_text(*dump));
    out
}

} // verus!
