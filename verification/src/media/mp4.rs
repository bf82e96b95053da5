//! A box-header walker over a chapter's bytes, targeted at what GoPro
//! chapters carry:
//!
//! - `moov/udta/HMMT`: HiLight marker millisecond offsets.
//! - `moov/mvhd`: the camera-clock creation time.
//! - the `gpmd` telemetry track's sample table.
//!
//! Nothing outside these paths is interpreted: each level is scanned
//! linearly, skipping past any box that isn't on the path needed.

use vstd::prelude::*;
use crate::clock::{timestamp_from_second, timestamp_seconds_in_range};
use crate::text::{dec, owned, push_dec, push_str, str_dec, str_dec_str};

verus! {

pub const FOURCC_MOOV: u32 = 0x6d6f6f76;
pub const FOURCC_UDTA: u32 = 0x75647461;
pub const FOURCC_HMMT: u32 = 0x484d4d54;
pub const FOURCC_MVHD: u32 = 0x6d766864;
pub const FOURCC_TRAK: u32 = 0x7472616b;
pub const FOURCC_MDIA: u32 = 0x6d646961;
pub const FOURCC_HDLR: u32 = 0x68646c72;
pub const FOURCC_MINF: u32 = 0x6d696e66;
pub const FOURCC_STBL: u32 = 0x7374626c;
pub const FOURCC_STSD: u32 = 0x73747364;
pub const FOURCC_MDHD: u32 = 0x6d646864;
pub const FOURCC_STSZ: u32 = 0x7374737a;
pub const FOURCC_STSC: u32 = 0x73747363;
pub const FOURCC_CO64: u32 = 0x636f3634;
pub const FOURCC_STCO: u32 = 0x7374636f;
pub const FOURCC_STTS: u32 = 0x73747473;
pub const FOURCC_META: u32 = 0x6d657461;
pub const FOURCC_GPMD: u32 = 0x67706d64;

/// Seconds between the MP4/QuickTime epoch (1904-01-01 UTC) and the
/// Unix epoch (1970-01-01 UTC).
pub const MAC_EPOCH_OFFSET_SECS: i64 = 2_082_844_800;

/// What went wrong reading an MP4 stream.
#[derive(Debug, Clone, PartialEq, Eq)]
pub enum Mp4Error {
    /// The stream ended before a read could be satisfied.
    Io(String),
    Malformed(String),
    BoxNotFound(String),
}

/// The text-level model of an [`Mp4Error`].
pub ghost enum Mp4Fault {
    Io(Seq<char>),
    Malformed(Seq<char>),
    BoxNotFound(Seq<char>),
}

impl View for Mp4Error {
    type V = Mp4Fault;

    open spec fn view(&self) -> Mp4Fault {
        match self {
            Mp4Error::Io(m) => Mp4Fault::Io(m@),
            Mp4Error::Malformed(m) => Mp4Fault::Malformed(m@),
            Mp4Error::BoxNotFound(m) => Mp4Fault::BoxNotFound(m@),
        }
    }
}

/// The message of a read past the end of the stream.
pub open spec fn eof_message() -> Seq<char> {
    "failed to fill whole buffer"@
}

fn eof_error() -> (e: Mp4Error)
    ensures
        e@ == Mp4Fault::Io(eof_message()),
{
    Mp4Error::Io(owned("failed to fill whole buffer"))
}

fn malformed(m: &str) -> (e: Mp4Error)
    ensures
        e@ == Mp4Fault::Malformed(m@),
{
    Mp4Error::Malformed(owned(m))
}

fn not_found(m: &str) -> (e: Mp4Error)
    ensures
        e@ == Mp4Fault::BoxNotFound(m@),
{
    Mp4Error::BoxNotFound(owned(m))
}

/// A byte range `[start, end)` within the stream that some box's
/// content occupies (or, at the top level, the whole file).
#[derive(Debug, Clone, Copy, PartialEq, Eq)]
pub struct ByteRange {
    pub start: u64,
    pub end: u64,
}

impl ByteRange {
    pub open spec fn pair(self) -> (int, int) {
        (self.start as int, self.end as int)
    }
}

/// Big-endian unsigned 32-bit value at `i`.
pub open spec fn be_u32(s: Seq<u8>, i: int) -> int {
    s[i] as int * 16777216 + s[i + 1] as int * 65536 + s[i + 2] as int * 256 + s[i + 3] as int
}

/// Big-endian unsigned 64-bit value at `i`.
pub open spec fn be_u64(s: Seq<u8>, i: int) -> int {
    be_u32(s, i) * 4294967296 + be_u32(s, i + 4)
}

pub fn read_u32(data: &[u8], pos: u64) -> (v: u32)
    requires
        pos + 4 <= data@.len(),
    ensures
        v == be_u32(data@, pos as int),
{
    let p = pos as usize;
    (data[p] as u32) * 16777216 + (data[p + 1] as u32) * 65536 + (data[p + 2] as u32) * 256
        + (data[p + 3] as u32)
}

pub fn read_u64(data: &[u8], pos: u64) -> (v: u64)
    requires
        pos + 8 <= data@.len(),
    ensures
        v == be_u64(data@, pos as int),
{
    let n = data.len();
    assert(pos + 8 <= n);
    let hi = read_u32(data, pos) as u64;
    let lo = read_u32(data, pos + 4) as u64;
    hi * 4294967296 + lo
}

/// A parsed box header: fourcc plus the content range `[start, end)`,
/// where `end` is also where the box (and the next sibling) ends.
pub open spec fn spec_box_header(s: Seq<u8>, pos: int, end: int) -> Result<(u32, int, int), Mp4Fault> {
    if pos + 8 > end {
        Err(Mp4Fault::Malformed("truncated box header at offset "@ + dec(pos as nat)))
    } else {
        let size32 = be_u32(s, pos);
        let fourcc = be_u32(s, pos + 4) as u32;
        if size32 == 1 {
            if pos + 16 > end {
                Err(Mp4Fault::Malformed("truncated 64-bit box size at offset "@ + dec(pos as nat)))
            } else {
                let size = be_u64(s, pos + 8);
                if size < 16 || pos + size > end {
                    Err(Mp4Fault::Malformed("box at offset "@ + dec(pos as nat) + " has an invalid size"@))
                } else {
                    Ok((fourcc, pos + 16, pos + size))
                }
            }
        } else {
            let size = if size32 == 0 { end - pos } else { size32 };
            if size < 8 || pos + size > end {
                Err(Mp4Fault::Malformed("box at offset "@ + dec(pos as nat) + " has an invalid size"@))
            } else {
                Ok((fourcc, pos + 8, pos + size))
            }
        }
    }
}

/// Parses one box header at `pos` within `[pos, end)`. A header that
/// can't be read, or a size that doesn't fit within the range, is
/// corruption.
pub fn read_box_header(data: &[u8], pos: u64, end: u64) -> (r: Result<(u32, ByteRange), Mp4Error>)
    requires
        pos <= end <= data@.len(),
    ensures
        match (r, spec_box_header(data@, pos as int, end as int)) {
            (Ok((f, c)), Ok((sf, ss, se))) => f == sf && c.pair() == (ss, se),
            (Err(e), Err(se)) => e@ == se,
            _ => false,
        },
{
    if end - pos < 8 {
        return Err(Mp4Error::Malformed(str_dec("truncated box header at offset ", pos as u128)));
    }
    let size32 = read_u32(data, pos);
    let fourcc = read_u32(data, pos + 4);
    if size32 == 1 {
        if end - pos < 16 {
            return Err(Mp4Error::Malformed(str_dec("truncated 64-bit box size at offset ", pos as u128)));
        }
        let size = read_u64(data, pos + 8);
        if size < 16 || size > end - pos {
            return Err(Mp4Error::Malformed(str_dec_str("box at offset ", pos as u128, " has an invalid size")));
        }
        Ok((fourcc, ByteRange { start: pos + 16, end: pos + size }))
    } else {
        let size: u64 = if size32 == 0 { end - pos } else { size32 as u64 };
        if size < 8 || size > end - pos {
            return Err(Mp4Error::Malformed(str_dec_str("box at offset ", pos as u128, " has an invalid size")));
        }
        Ok((fourcc, ByteRange { start: pos + 8, end: pos + size }))
    }
}

/// Every successfully parsed header describes a box that starts at
/// `pos`, lies within the enclosing range, and is at least a header long.
pub proof fn lemma_box_header_bounds(s: Seq<u8>, pos: int, end: int)
    ensures
        spec_box_header(s, pos, end) matches Ok((_, cs, be)) ==> pos + 8 <= cs <= be <= end,
{
}

/// The first sibling box tagged `fourcc` within `[pos, end)`. `Ok(None)`
/// means every header parsed cleanly and accounted for the range, but
/// no box carried that tag.
pub open spec fn spec_find_box(s: Seq<u8>, pos: int, end: int, fourcc: u32) -> Result<Option<(int, int)>, Mp4Fault>
    decreases end - pos,
{
    if pos >= end {
        Ok(None)
    } else {
        match spec_box_header(s, pos, end) {
            Err(e) => Err(e),
            Ok((f, cs, be)) => {
                if f == fourcc {
                    Ok(Some((cs, be)))
                } else {
                    spec_find_box(s, be, end, fourcc)
                }
            },
        }
    }
}

/// Every sibling box tagged `fourcc` within `[pos, end)`, in order.
pub open spec fn spec_find_all_boxes(s: Seq<u8>, pos: int, end: int, fourcc: u32) -> Result<Seq<(int, int)>, Mp4Fault>
    decreases end - pos,
{
    if pos >= end {
        Ok(seq![])
    } else {
        match spec_box_header(s, pos, end) {
            Err(e) => Err(e),
            Ok((f, cs, be)) => match spec_find_all_boxes(s, be, end, fourcc) {
                Err(e) => Err(e),
                Ok(rest) => Ok(if f == fourcc { seq![(cs, be)] + rest } else { rest }),
            },
        }
    }
}

pub open spec fn agrees_range(r: Result<Option<ByteRange>, Mp4Error>, s: Result<Option<(int, int)>, Mp4Fault>) -> bool {
    match (r, s) {
        (Ok(Some(b)), Ok(Some(p))) => b.pair() == p,
        (Ok(None), Ok(None)) => true,
        (Err(e), Err(se)) => e@ == se,
        _ => false,
    }
}

/// Scans the sibling boxes within `range` for one matching `fourcc`.
pub fn find_box(data: &[u8], range: ByteRange, fourcc: u32) -> (r: Result<Option<ByteRange>, Mp4Error>)
    requires
        range.start <= range.end <= data@.len(),
    ensures
        agrees_range(r, spec_find_box(data@, range.start as int, range.end as int, fourcc)),
        r matches Ok(Some(b)) ==> range.start <= b.start <= b.end <= range.end,
{
    let mut pos = range.start;
    while pos < range.end
        invariant
            range.start <= pos <= range.end <= data@.len(),
            spec_find_box(data@, range.start as int, range.end as int, fourcc)
                == spec_find_box(data@, pos as int, range.end as int, fourcc),
        decreases range.end - pos,
    {
        let (f, content) = match read_box_header(data, pos, range.end) {
            Ok(h) => h,
            Err(e) => return Err(e),
        };
        if f == fourcc {
            return Ok(Some(content));
        }
        pos = content.end;
    }
    Ok(None)
}

pub open spec fn agrees_ranges(r: Result<Vec<ByteRange>, Mp4Error>, s: Result<Seq<(int, int)>, Mp4Fault>) -> bool {
    match (r, s) {
        (Ok(v), Ok(p)) => v@.len() == p.len() && forall|i: int| 0 <= i < p.len() ==> #[trigger] v@[i].pair() == p[i],
        (Err(e), Err(se)) => e@ == se,
        _ => false,
    }
}

proof fn lemma_find_all_bounds(s: Seq<u8>, pos: int, end: int, fourcc: u32)
    requires
        0 <= pos <= end,
    ensures
        spec_find_all_boxes(s, pos, end, fourcc) matches Ok(found) ==>
            forall|i: int| 0 <= i < found.len() ==> pos <= #[trigger] found[i].0 <= found[i].1 <= end,
    decreases end - pos,
{
    if pos < end {
        if let Ok((f, cs, be)) = spec_box_header(s, pos, end) {
            lemma_find_all_bounds(s, be, end, fourcc);
        }
    }
}

/// Like `find_box`, but returns every sibling box matching `fourcc`.
pub fn find_all_boxes(data: &[u8], range: ByteRange, fourcc: u32) -> (r: Result<Vec<ByteRange>, Mp4Error>)
    requires
        range.start <= range.end <= data@.len(),
    ensures
        agrees_ranges(r, spec_find_all_boxes(data@, range.start as int, range.end as int, fourcc)),
        r matches Ok(v) ==> forall|i: int| 0 <= i < v@.len() ==> range.start <= #[trigger] v@[i].start <= v@[i].end <= range.end,
{
    proof {
        lemma_find_all_bounds(data@, range.start as int, range.end as int, fourcc);
    }
    let mut pos = range.start;
    let mut found: Vec<ByteRange> = Vec::new();
    while pos < range.end
        invariant
            range.start <= pos <= range.end <= data@.len(),
            forall|i: int| 0 <= i < found@.len() ==> range.start <= #[trigger] found@[i].start <= found@[i].end <= range.end,
            match spec_find_all_boxes(data@, pos as int, range.end as int, fourcc) {
                Err(e) => spec_find_all_boxes(data@, range.start as int, range.end as int, fourcc) == Err::<Seq<(int, int)>, Mp4Fault>(e),
                Ok(rest) => spec_find_all_boxes(data@, range.start as int, range.end as int, fourcc)
                    == Ok::<Seq<(int, int)>, Mp4Fault>(found@.map_values(|b: ByteRange| b.pair()) + rest),
            },
        decreases range.end - pos,
    {
        let (f, content) = match read_box_header(data, pos, range.end) {
            Ok(h) => h,
            Err(e) => return Err(e),
        };
        let ghost old_found = found@;
        if f == fourcc {
            found.push(content);
            assert(found@.map_values(|b: ByteRange| b.pair()) =~= old_found.map_values(|b: ByteRange| b.pair()) + seq![content.pair()]);
        }
        pos = content.end;
        proof {
            let rest = spec_find_all_boxes(data@, pos as int, range.end as int, fourcc);
            if let Ok(r) = rest {
                if f == fourcc {
                    assert(old_found.map_values(|b: ByteRange| b.pair()) + (seq![content.pair()] + r)
                        =~= found@.map_values(|b: ByteRange| b.pair()) + r);
                }
            }
        }
    }
    assert(found@.map_values(|b: ByteRange| b.pair()) + Seq::<(int, int)>::empty() =~= found@.map_values(|b: ByteRange| b.pair()));
    Ok(found)
}


/// `count` big-endian u32 values starting at `start`.
pub open spec fn u32_table(s: Seq<u8>, start: int, count: nat) -> Seq<u32> {
    Seq::new(count, |i: int| be_u32(s, start + 4 * i) as u32)
}

/// `count` big-endian u64 values starting at `start`.
pub open spec fn u64_table(s: Seq<u8>, start: int, count: nat) -> Seq<u64> {
    Seq::new(count, |i: int| be_u64(s, start + 8 * i) as u64)
}

fn read_u32_table(data: &[u8], start: u64, count: u64) -> (v: Vec<u32>)
    requires
        start + 4 * count <= data@.len(),
    ensures
        v@ == u32_table(data@, start as int, count as nat),
{
    let mut v: Vec<u32> = Vec::new();
    let n = data.len();
    let mut i: u64 = 0;
    while i < count
        invariant
            i <= count,
            n == data@.len(),
            start + 4 * count <= data@.len(),
            v@ =~= u32_table(data@, start as int, i as nat),
        decreases count - i,
    {
        v.push(read_u32(data, start + 4 * i));
        i += 1;
    }
    v
}

fn read_u64_table(data: &[u8], start: u64, count: u64) -> (v: Vec<u64>)
    requires
        start + 8 * count <= data@.len(),
    ensures
        v@ == u64_table(data@, start as int, count as nat),
{
    let mut v: Vec<u64> = Vec::new();
    let n = data.len();
    let mut i: u64 = 0;
    while i < count
        invariant
            i <= count,
            n == data@.len(),
            start + 8 * count <= data@.len(),
            v@ =~= u64_table(data@, start as int, i as nat),
        decreases count - i,
    {
        v.push(read_u64(data, start + 8 * i));
        i += 1;
    }
    v
}

/// The zero-marker result every "absent" case of HiLight parsing yields.
pub open spec fn no_markers() -> Result<Seq<u32>, Mp4Fault> {
    Ok(Seq::<u32>::empty())
}

/// HiLight marker offsets from `moov/udta/HMMT`: a big-endian u32 count
/// followed by that many big-endian u32 millisecond offsets. Any box
/// missing along the path, an `HMMT` shorter than its count field, or
/// a count of zero means zero markers; a count the box cannot hold is
/// corruption.
pub open spec fn spec_read_hilights(s: Seq<u8>) -> Result<Seq<u32>, Mp4Fault> {
    match spec_find_box(s, 0, s.len() as int, FOURCC_MOOV) {
        Err(e) => Err(e),
        Ok(None) => no_markers(),
        Ok(Some((ms, me))) => match spec_find_box(s, ms, me, FOURCC_UDTA) {
            Err(e) => Err(e),
            Ok(None) => no_markers(),
            Ok(Some((us, ue))) => match spec_find_box(s, us, ue, FOURCC_HMMT) {
                Err(e) => Err(e),
                Ok(None) => no_markers(),
                Ok(Some((hs, he))) => {
                    if he - hs < 4 {
                        no_markers()
                    } else {
                        let count = be_u32(s, hs);
                        if count == 0 {
                            no_markers()
                        } else if 4 + count * 4 > he - hs {
                            Err(Mp4Fault::Malformed("HMMT declares "@ + dec(count as nat)
                                + " marker(s) but its box is too small to hold them"@))
                        } else {
                            Ok(u32_table(s, hs + 4, count as nat))
                        }
                    }
                },
            },
        },
    }
}

pub open spec fn agrees_seq<T>(r: Result<Vec<T>, Mp4Error>, s: Result<Seq<T>, Mp4Fault>) -> bool {
    match (r, s) {
        (Ok(v), Ok(sv)) => v@ == sv,
        (Err(e), Err(se)) => e@ == se,
        _ => false,
    }
}

/// Reads HiLight marker offsets from `moov/udta/HMMT`.
pub fn read_hilights(data: &[u8]) -> (r: Result<Vec<u32>, Mp4Error>)
    ensures
        agrees_seq(r, spec_read_hilights(data@)),
{
    let whole = ByteRange { start: 0, end: data.len() as u64 };
    let moov = match find_box(data, whole, FOURCC_MOOV) {
        Err(e) => return Err(e),
        Ok(None) => return Ok(Vec::new()),
        Ok(Some(b)) => b,
    };
    let udta = match find_box(data, moov, FOURCC_UDTA) {
        Err(e) => return Err(e),
        Ok(None) => return Ok(Vec::new()),
        Ok(Some(b)) => b,
    };
    let hmmt = match find_box(data, udta, FOURCC_HMMT) {
        Err(e) => return Err(e),
        Ok(None) => return Ok(Vec::new()),
        Ok(Some(b)) => b,
    };
    let hmmt_len = hmmt.end - hmmt.start;
    if hmmt_len < 4 {
        return Ok(Vec::new());
    }
    let count = read_u32(data, hmmt.start);
    if count == 0 {
        return Ok(Vec::new());
    }
    if count as u64 * 4 > hmmt_len - 4 {
        let mut m = str_dec("HMMT declares ", count as u128);
        push_str(&mut m, " marker(s) but its box is too small to hold them");
        return Err(Mp4Error::Malformed(m));
    }
    Ok(read_u32_table(data, hmmt.start + 4, count as u64))
}

/// The signed reading of a 64-bit field (`u64 as i64`).
pub open spec fn as_signed64(raw: int) -> int {
    if raw > 0x7fff_ffff_ffff_ffff { raw - 0x1_0000_0000_0000_0000 } else { raw }
}

/// The raw `mvhd` creation time in seconds since 1904-01-01 UTC:
/// version 0 stores it as a u32, version 1 as a u64 (read as signed).
/// A missing `moov` or `mvhd` box is an error here.
pub open spec fn spec_mvhd_creation(s: Seq<u8>) -> Result<int, Mp4Fault> {
    match spec_find_box(s, 0, s.len() as int, FOURCC_MOOV) {
        Err(e) => Err(e),
        Ok(None) => Err(Mp4Fault::BoxNotFound("moov"@)),
        Ok(Some((ms, me))) => match spec_find_box(s, ms, me, FOURCC_MVHD) {
            Err(e) => Err(e),
            Ok(None) => Err(Mp4Fault::BoxNotFound("mvhd"@)),
            Ok(Some((vs, ve))) => {
                if vs + 4 > s.len() {
                    Err(Mp4Fault::Io(eof_message()))
                } else if s[vs] == 0 {
                    if ve - vs < 8 {
                        Err(Mp4Fault::Malformed("mvhd too short for version 0"@))
                    } else {
                        Ok(be_u32(s, vs + 4))
                    }
                } else if s[vs] == 1 {
                    if ve - vs < 12 {
                        Err(Mp4Fault::Malformed("mvhd too short for version 1"@))
                    } else {
                        Ok(as_signed64(be_u64(s, vs + 4)))
                    }
                } else {
                    Err(Mp4Fault::Malformed("unsupported mvhd version "@ + dec(s[vs] as nat)))
                }
            },
        },
    }
}

/// The message prefix of a creation time outside the timestamp range;
/// the rest of the message is `jiff`'s own wording.
pub open spec fn out_of_range_prefix() -> Seq<char> {
    "creation time out of range: "@
}

/// Reads the camera-clock creation time from `moov/mvhd` as Unix
/// seconds. Unlike `read_hilights`, a missing `moov` or `mvhd` box is
/// an error: callers fall back to the file's modification time.
pub fn read_creation_time(data: &[u8]) -> (r: Result<i64, Mp4Error>)
    ensures
        match spec_mvhd_creation(data@) {
            Err(f) => r matches Err(e) && e@ == f,
            Ok(raw) => {
                let unix = raw - MAC_EPOCH_OFFSET_SECS;
                if timestamp_seconds_in_range(unix) {
                    r == Ok::<i64, Mp4Error>(unix as i64)
                } else {
                    r matches Err(Mp4Error::Malformed(m)) && m@.len() >= out_of_range_prefix().len()
                        && m@.subrange(0, out_of_range_prefix().len() as int) == out_of_range_prefix()
                }
            },
        },
{
    let whole = ByteRange { start: 0, end: data.len() as u64 };
    let moov = match find_box(data, whole, FOURCC_MOOV) {
        Err(e) => return Err(e),
        Ok(None) => return Err(not_found("moov")),
        Ok(Some(b)) => b,
    };
    let mvhd = match find_box(data, moov, FOURCC_MVHD) {
        Err(e) => return Err(e),
        Ok(None) => return Err(not_found("mvhd")),
        Ok(Some(b)) => b,
    };
    if mvhd.start > data.len() as u64 - 4 || data.len() < 4 {
        return Err(eof_error());
    }
    let mvhd_len = mvhd.end - mvhd.start;
    let version = data[mvhd.start as usize];
    let raw: i128 = if version == 0 {
        if mvhd_len < 8 {
            return Err(malformed("mvhd too short for version 0"));
        }
        read_u32(data, mvhd.start + 4) as i128
    } else if version == 1 {
        if mvhd_len < 12 {
            return Err(malformed("mvhd too short for version 1"));
        }
        let v = read_u64(data, mvhd.start + 4) as i128;
        if v > 0x7fff_ffff_ffff_ffff { v - 0x1_0000_0000_0000_0000 } else { v }
    } else {
        return Err(Mp4Error::Malformed(str_dec("unsupported mvhd version ", version as u128)));
    };
    let unix: i128 = raw - MAC_EPOCH_OFFSET_SECS as i128;
    // Out-of-range values are handed to `jiff` as the two's-complement
    // wrap of the subtraction, which `jiff` then rejects.
    let secs: i64 = if unix < -0x8000_0000_0000_0000 {
        (unix + 0x1_0000_0000_0000_0000) as i64
    } else {
        unix as i64
    };
    match timestamp_from_second(secs) {
        Ok(v) => Ok(v),
        Err(msg) => {
            let mut m = owned("creation time out of range: ");
            push_str(&mut m, msg.as_str());
            Err(Mp4Error::Malformed(m))
        },
    }
}


// ---------------------------------------------------------------------
// The `gpmd` telemetry track: discovery and sample index.
// ---------------------------------------------------------------------

/// One telemetry sample's location and timing: where its payload sits
/// in the file, how long it is, and when it starts and how long it
/// lasts in `mdhd` timescale units.
#[derive(Debug, Clone, Copy, PartialEq, Eq)]
pub struct GpmdSample {
    pub offset: u64,
    pub size: u32,
    pub start_units: u64,
    pub duration_units: u32,
}

/// The `gpmd` track's sample index plus the timescale (units per
/// second) its timing is expressed in.
#[derive(Debug, Clone)]
pub struct GpmdIndex {
    pub timescale: u32,
    pub samples: Vec<GpmdSample>,
}

/// `stsc` rows: `(first_chunk, samples_per_chunk, sample_description_index)`.
pub open spec fn stsc_table(s: Seq<u8>, start: int, count: nat) -> Seq<(u32, u32, u32)> {
    Seq::new(count, |i: int| (
        be_u32(s, start + 12 * i) as u32,
        be_u32(s, start + 12 * i + 4) as u32,
        be_u32(s, start + 12 * i + 8) as u32,
    ))
}

/// `stts` rows: `(sample_count, sample_delta)`.
pub open spec fn stts_table(s: Seq<u8>, start: int, count: nat) -> Seq<(u32, u32)> {
    Seq::new(count, |i: int| (be_u32(s, start + 8 * i) as u32, be_u32(s, start + 8 * i + 4) as u32))
}

/// `stsz`: a shared `sample_size` for every sample, or (`sample_size ==
/// 0`) one 4-byte size per sample.
pub open spec fn spec_read_stsz(s: Seq<u8>, stbl: (int, int)) -> Result<Seq<u32>, Mp4Fault> {
    match spec_find_box(s, stbl.0, stbl.1, FOURCC_STSZ) {
        Err(e) => Err(e),
        Ok(None) => Err(Mp4Fault::BoxNotFound("stsz"@)),
        Ok(Some((a, b))) => {
            if b - a < 12 {
                Err(Mp4Fault::Malformed("stsz box too short"@))
            } else {
                let sample_size = be_u32(s, a + 4);
                let count = be_u32(s, a + 8);
                if sample_size != 0 {
                    Ok(Seq::new(count as nat, |_i: int| sample_size as u32))
                } else if a + 12 + count * 4 > b {
                    Err(Mp4Fault::Malformed("stsz declares more samples than its box holds"@))
                } else {
                    Ok(u32_table(s, a + 12, count as nat))
                }
            }
        },
    }
}

/// `stsc`: the sample-to-chunk rows.
pub open spec fn spec_read_stsc(s: Seq<u8>, stbl: (int, int)) -> Result<Seq<(u32, u32, u32)>, Mp4Fault> {
    match spec_find_box(s, stbl.0, stbl.1, FOURCC_STSC) {
        Err(e) => Err(e),
        Ok(None) => Err(Mp4Fault::BoxNotFound("stsc"@)),
        Ok(Some((a, b))) => {
            if b - a < 8 {
                Err(Mp4Fault::Malformed("stsc box too short"@))
            } else {
                let count = be_u32(s, a + 4);
                if a + 8 + count * 12 > b {
                    Err(Mp4Fault::Malformed("stsc declares more entries than its box holds"@))
                } else {
                    Ok(stsc_table(s, a + 8, count as nat))
                }
            }
        },
    }
}

/// Absolute chunk offsets from `co64` (64-bit) if present, else `stco`
/// (32-bit).
pub open spec fn spec_read_chunk_offsets(s: Seq<u8>, stbl: (int, int)) -> Result<Seq<u64>, Mp4Fault> {
    match spec_find_box(s, stbl.0, stbl.1, FOURCC_CO64) {
        Err(e) => Err(e),
        Ok(Some((a, b))) => {
            if b - a < 8 {
                Err(Mp4Fault::Malformed("co64 box too short"@))
            } else {
                let count = be_u32(s, a + 4);
                if a + 8 + count * 8 > b {
                    Err(Mp4Fault::Malformed("co64 declares more entries than its box holds"@))
                } else {
                    Ok(u64_table(s, a + 8, count as nat))
                }
            }
        },
        Ok(None) => match spec_find_box(s, stbl.0, stbl.1, FOURCC_STCO) {
            Err(e) => Err(e),
            Ok(None) => Err(Mp4Fault::BoxNotFound("stco"@)),
            Ok(Some((a, b))) => {
                if b - a < 8 {
                    Err(Mp4Fault::Malformed("stco box too short"@))
                } else {
                    let count = be_u32(s, a + 4);
                    if a + 8 + count * 4 > b {
                        Err(Mp4Fault::Malformed("stco declares more entries than its box holds"@))
                    } else {
                        Ok(u32_table(s, a + 8, count as nat).map_values(|v: u32| v as u64))
                    }
                }
            },
        },
    }
}

/// `stts`: `(sample_count, sample_delta)` rows, deltas in timescale units.
pub open spec fn spec_read_stts(s: Seq<u8>, stbl: (int, int)) -> Result<Seq<(u32, u32)>, Mp4Fault> {
    match spec_find_box(s, stbl.0, stbl.1, FOURCC_STTS) {
        Err(e) => Err(e),
        Ok(None) => Err(Mp4Fault::BoxNotFound("stts"@)),
        Ok(Some((a, b))) => {
            if b - a < 8 {
                Err(Mp4Fault::Malformed("stts box too short"@))
            } else {
                let count = be_u32(s, a + 4);
                if a + 8 + count * 8 > b {
                    Err(Mp4Fault::Malformed("stts declares more entries than its box holds"@))
                } else {
                    Ok(stts_table(s, a + 8, count as nat))
                }
            }
        },
    }
}

fn read_stsz(data: &[u8], stbl: ByteRange) -> (r: Result<Vec<u32>, Mp4Error>)
    requires
        stbl.start <= stbl.end <= data@.len(),
    ensures
        agrees_seq(r, spec_read_stsz(data@, stbl.pair())),
        r matches Ok(v) ==> v@.len() <= u32::MAX,
{
    let b = match find_box(data, stbl, FOURCC_STSZ) {
        Err(e) => return Err(e),
        Ok(None) => return Err(not_found("stsz")),
        Ok(Some(b)) => b,
    };
    if b.end - b.start < 12 {
        return Err(malformed("stsz box too short"));
    }
    let sample_size = read_u32(data, b.start + 4);
    let count = read_u32(data, b.start + 8);
    if sample_size != 0 {
        let mut v: Vec<u32> = Vec::new();
        let mut i: u32 = 0;
        while i < count
            invariant
                i <= count,
                v@ =~= Seq::new(i as nat, |_i: int| sample_size),
            decreases count - i,
        {
            v.push(sample_size);
            i += 1;
        }
        return Ok(v);
    }
    if count as u64 * 4 > b.end - b.start - 12 {
        return Err(malformed("stsz declares more samples than its box holds"));
    }
    Ok(read_u32_table(data, b.start + 12, count as u64))
}

fn read_stsc(data: &[u8], stbl: ByteRange) -> (r: Result<Vec<(u32, u32, u32)>, Mp4Error>)
    requires
        stbl.start <= stbl.end <= data@.len(),
    ensures
        agrees_seq(r, spec_read_stsc(data@, stbl.pair())),
        r matches Ok(v) ==> v@.len() <= u32::MAX,
{
    let b = match find_box(data, stbl, FOURCC_STSC) {
        Err(e) => return Err(e),
        Ok(None) => return Err(not_found("stsc")),
        Ok(Some(b)) => b,
    };
    if b.end - b.start < 8 {
        return Err(malformed("stsc box too short"));
    }
    let count = read_u32(data, b.start + 4) as u64;
    if count * 12 > b.end - b.start - 8 {
        return Err(malformed("stsc declares more entries than its box holds"));
    }
    let start = b.start + 8;
    let n = data.len();
    let mut v: Vec<(u32, u32, u32)> = Vec::new();
    let mut i: u64 = 0;
    while i < count
        invariant
            i <= count,
            n == data@.len(),
            start + 12 * count <= data@.len(),
            v@ =~= stsc_table(data@, start as int, i as nat),
        decreases count - i,
    {
        let row = (read_u32(data, start + 12 * i), read_u32(data, start + 12 * i + 4), read_u32(data, start + 12 * i + 8));
        v.push(row);
        i += 1;
    }
    Ok(v)
}

fn read_chunk_offsets(data: &[u8], stbl: ByteRange) -> (r: Result<Vec<u64>, Mp4Error>)
    requires
        stbl.start <= stbl.end <= data@.len(),
    ensures
        agrees_seq(r, spec_read_chunk_offsets(data@, stbl.pair())),
        r matches Ok(v) ==> v@.len() <= u32::MAX,
{
    match find_box(data, stbl, FOURCC_CO64) {
        Err(e) => return Err(e),
        Ok(Some(b)) => {
            if b.end - b.start < 8 {
                return Err(malformed("co64 box too short"));
            }
            let count = read_u32(data, b.start + 4) as u64;
            if count * 8 > b.end - b.start - 8 {
                return Err(malformed("co64 declares more entries than its box holds"));
            }
            return Ok(read_u64_table(data, b.start + 8, count));
        },
        Ok(None) => {},
    }
    let b = match find_box(data, stbl, FOURCC_STCO) {
        Err(e) => return Err(e),
        Ok(None) => return Err(not_found("stco")),
        Ok(Some(b)) => b,
    };
    if b.end - b.start < 8 {
        return Err(malformed("stco box too short"));
    }
    let count = read_u32(data, b.start + 4) as u64;
    if count * 4 > b.end - b.start - 8 {
        return Err(malformed("stco declares more entries than its box holds"));
    }
    let narrow = read_u32_table(data, b.start + 8, count);
    let mut v: Vec<u64> = Vec::new();
    let mut i: usize = 0;
    while i < narrow.len()
        invariant
            i <= narrow@.len(),
            v@ =~= narrow@.subrange(0, i as int).map_values(|x: u32| x as u64),
        decreases narrow@.len() - i,
    {
        v.push(narrow[i] as u64);
        i += 1;
    }
    assert(narrow@.subrange(0, narrow@.len() as int) =~= narrow@);
    Ok(v)
}

fn read_stts(data: &[u8], stbl: ByteRange) -> (r: Result<Vec<(u32, u32)>, Mp4Error>)
    requires
        stbl.start <= stbl.end <= data@.len(),
    ensures
        agrees_seq(r, spec_read_stts(data@, stbl.pair())),
        r matches Ok(v) ==> v@.len() <= u32::MAX,
{
    let b = match find_box(data, stbl, FOURCC_STTS) {
        Err(e) => return Err(e),
        Ok(None) => return Err(not_found("stts")),
        Ok(Some(b)) => b,
    };
    if b.end - b.start < 8 {
        return Err(malformed("stts box too short"));
    }
    let count = read_u32(data, b.start + 4) as u64;
    if count * 8 > b.end - b.start - 8 {
        return Err(malformed("stts declares more entries than its box holds"));
    }
    let start = b.start + 8;
    let n = data.len();
    let mut v: Vec<(u32, u32)> = Vec::new();
    let mut i: u64 = 0;
    while i < count
        invariant
            i <= count,
            n == data@.len(),
            start + 8 * count <= data@.len(),
            v@ =~= stts_table(data@, start as int, i as nat),
        decreases count - i,
    {
        let row = (read_u32(data, start + 8 * i), read_u32(data, start + 8 * i + 4));
        v.push(row);
        i += 1;
    }
    Ok(v)
}


/// Samples per chunk for the one-based `chunk_number`: the value of the
/// last `stsc` row (in table order) whose `first_chunk` is at most
/// `chunk_number`, or zero when no row applies.
pub open spec fn spec_samples_per_chunk(stsc: Seq<(u32, u32, u32)>, chunk_number: int) -> int
    decreases stsc.len(),
{
    if stsc.len() == 0 {
        0
    } else if stsc.last().0 <= chunk_number {
        stsc.last().1 as int
    } else {
        spec_samples_per_chunk(stsc.drop_last(), chunk_number)
    }
}

fn samples_per_chunk(stsc: &Vec<(u32, u32, u32)>, chunk_number: u64) -> (k: u32)
    ensures
        k == spec_samples_per_chunk(stsc@, chunk_number as int),
{
    let mut j = stsc.len();
    assert(stsc@.subrange(0, j as int) =~= stsc@);
    while j > 0
        invariant
            j <= stsc@.len(),
            spec_samples_per_chunk(stsc@, chunk_number as int)
                == spec_samples_per_chunk(stsc@.subrange(0, j as int), chunk_number as int),
        decreases j,
    {
        let row = stsc[j - 1];
        assert(stsc@.subrange(0, j as int).drop_last() =~= stsc@.subrange(0, j - 1));
        if row.0 as u64 <= chunk_number {
            return row.1;
        }
        j -= 1;
    }
    0
}

/// `x + y` wrapping at 2^64, the way a file offset that runs past the
/// end of the 64-bit range wraps.
pub open spec fn wrap64(x: int) -> int {
    if x > u64::MAX { x - 0x1_0000_0000_0000_0000 } else { x }
}

/// Offset of the `t`-th sample placed in a chunk at `base`, the chunk's
/// samples being `sizes[j..]`: the base plus the sizes of the samples
/// already placed in that chunk.
pub open spec fn run_pos(base: u64, sizes: Seq<u32>, j: int, t: int) -> u64
    decreases t,
{
    if t <= 0 {
        base
    } else {
        wrap64(run_pos(base, sizes, j, t - 1) + sizes[j + t - 1]) as u64
    }
}

/// The offsets of `k` consecutive samples starting at `sizes[j]`,
/// placed into one chunk at `base`.
pub open spec fn chunk_run(base: u64, sizes: Seq<u32>, j: int, k: int) -> Seq<u64> {
    Seq::new(k as nat, |t: int| run_pos(base, sizes, j, t))
}

/// Sample offsets for the first `c` chunks, walking chunks in order
/// and giving each the next `samples_per_chunk` samples; `None` once a
/// chunk would take more samples than `stsz` declares.
pub open spec fn spec_placed(stsc: Seq<(u32, u32, u32)>, chunks: Seq<u64>, sizes: Seq<u32>, c: int) -> Option<Seq<u64>>
    decreases c,
{
    if c <= 0 {
        Some(Seq::<u64>::empty())
    } else {
        match spec_placed(stsc, chunks, sizes, c - 1) {
            None => None,
            Some(prev) => {
                let k = spec_samples_per_chunk(stsc, c);
                let j = prev.len() as int;
                if j + k > sizes.len() {
                    None
                } else {
                    Some(prev + chunk_run(chunks[c - 1], sizes, j, k))
                }
            },
        }
    }
}

/// Each sample's absolute file offset, honoring the sample-to-chunk
/// mapping; every declared sample must be placed exactly once.
pub open spec fn spec_place_samples(stsc: Seq<(u32, u32, u32)>, chunks: Seq<u64>, sizes: Seq<u32>) -> Result<Seq<u64>, Mp4Fault> {
    match spec_placed(stsc, chunks, sizes, chunks.len() as int) {
        None => Err(Mp4Fault::Malformed("stsc/stco place more samples than stsz declares"@)),
        Some(offsets) => {
            if offsets.len() == sizes.len() {
                Ok(offsets)
            } else {
                Err(Mp4Fault::Malformed("stsc/stco placed "@ + dec(offsets.len()) + " sample(s) but stsz declares "@
                    + dec(sizes.len())))
            }
        },
    }
}

proof fn lemma_samples_per_chunk_nonneg(stsc: Seq<(u32, u32, u32)>, n: int)
    ensures
        spec_samples_per_chunk(stsc, n) >= 0,
    decreases stsc.len(),
{
    if stsc.len() > 0 {
        lemma_samples_per_chunk_nonneg(stsc.drop_last(), n);
    }
}

proof fn lemma_placed_bounded(stsc: Seq<(u32, u32, u32)>, chunks: Seq<u64>, sizes: Seq<u32>, c: int)
    ensures
        spec_placed(stsc, chunks, sizes, c) matches Some(o) ==> o.len() <= sizes.len(),
    decreases c,
{
    if c > 0 {
        lemma_placed_bounded(stsc, chunks, sizes, c - 1);
        lemma_samples_per_chunk_nonneg(stsc, c);
    }
}

proof fn lemma_placed_none_sticks(stsc: Seq<(u32, u32, u32)>, chunks: Seq<u64>, sizes: Seq<u32>, c: int, d: int)
    requires
        c <= d,
        spec_placed(stsc, chunks, sizes, c) is None,
    ensures
        spec_placed(stsc, chunks, sizes, d) is None,
    decreases d - c,
{
    if c < d {
        lemma_placed_none_sticks(stsc, chunks, sizes, c, d - 1);
    }
}

/// Walks chunks in order, assigning each the next `samples_per_chunk`
/// samples per `stsc` and computing each sample's absolute offset from
/// its chunk's base offset plus the running size of the samples
/// already placed in that chunk.
pub fn place_samples_in_chunks(stsc: &Vec<(u32, u32, u32)>, chunk_offsets: &Vec<u64>, sizes: &Vec<u32>) -> (r: Result<Vec<u64>, Mp4Error>)
    requires
        chunk_offsets@.len() <= u32::MAX,
    ensures
        agrees_seq(r, spec_place_samples(stsc@, chunk_offsets@, sizes@)),
{
    let mut offsets: Vec<u64> = Vec::new();
    let mut ci: usize = 0;
    while ci < chunk_offsets.len()
        invariant
            ci <= chunk_offsets@.len() <= u32::MAX,
            spec_placed(stsc@, chunk_offsets@, sizes@, ci as int) == Some(offsets@),
            offsets@.len() <= sizes@.len(),
        decreases chunk_offsets@.len() - ci,
    {
        let k = samples_per_chunk(stsc, ci as u64 + 1);
        let base = chunk_offsets[ci];
        let j = offsets.len();
        let ghost prev = offsets@;
        let mut pos = base;
        let mut t: u32 = 0;
        while t < k
            invariant
                ci < chunk_offsets@.len(),
                t <= k,
                j == prev.len(),
                j <= sizes@.len(),
                offsets@ =~= prev + chunk_run(base, sizes@, j as int, t as int),
                pos == run_pos(base, sizes@, j as int, t as int),
                j + t <= sizes@.len(),
                spec_placed(stsc@, chunk_offsets@, sizes@, ci as int) == Some(prev),
                k == spec_samples_per_chunk(stsc@, ci + 1),
            decreases k - t,
        {
            let idx = offsets.len();
            if idx >= sizes.len() {
                proof {
                    assert(spec_placed(stsc@, chunk_offsets@, sizes@, ci + 1) is None);
                    lemma_placed_none_sticks(stsc@, chunk_offsets@, sizes@, ci + 1, chunk_offsets@.len() as int);
                }
                return Err(malformed("stsc/stco place more samples than stsz declares"));
            }
            offsets.push(pos);
            pos = pos.wrapping_add(sizes[idx] as u64);
            t += 1;
        }
        assert(spec_placed(stsc@, chunk_offsets@, sizes@, ci + 1) == Some(offsets@));
        ci += 1;
    }
    if offsets.len() != sizes.len() {
        let mut m = str_dec("stsc/stco placed ", offsets.len() as u128);
        push_str(&mut m, " sample(s) but stsz declares ");
        push_dec(&mut m, sizes.len() as u128);
        return Err(Mp4Error::Malformed(m));
    }
    Ok(offsets)
}

/// Total samples the `stts` rows declare.
pub open spec fn stts_total(stts: Seq<(u32, u32)>) -> int
    decreases stts.len(),
{
    if stts.len() == 0 { 0 } else { stts_total(stts.drop_last()) + stts.last().0 }
}

/// The per-sample durations the `stts` rows expand to.
pub open spec fn stts_deltas(stts: Seq<(u32, u32)>) -> Seq<u32>
    decreases stts.len(),
{
    if stts.len() == 0 {
        Seq::<u32>::empty()
    } else {
        stts_deltas(stts.drop_last()) + Seq::new(stts.last().0 as nat, |_i: int| stts.last().1)
    }
}

/// Sum of the first `k` entries of `d`.
pub open spec fn prefix_sum(d: Seq<u32>, k: int) -> int
    decreases k,
{
    if k <= 0 { 0 } else { prefix_sum(d, k - 1) + d[k - 1] }
}

/// Expands `stts`'s run-length rows into a cumulative `(start, duration)`
/// per sample, in timescale units; the rows must declare exactly as
/// many samples as `stsz` does.
pub open spec fn spec_accumulate_sample_times(stts: Seq<(u32, u32)>, n_samples: nat) -> Result<Seq<(u64, u32)>, Mp4Fault> {
    if stts_total(stts) != n_samples {
        Err(Mp4Fault::Malformed("stts declares "@ + dec(stts_total(stts) as nat) + " sample(s) but stsz declares "@
            + dec(n_samples)))
    } else {
        let d = stts_deltas(stts);
        Ok(Seq::new(n_samples, |i: int| (prefix_sum(d, i) as u64, d[i])))
    }
}

proof fn lemma_stts_lengths(stts: Seq<(u32, u32)>)
    ensures
        stts_deltas(stts).len() == stts_total(stts),
        stts_total(stts) >= 0,
    decreases stts.len(),
{
    if stts.len() > 0 {
        lemma_stts_lengths(stts.drop_last());
    }
}

proof fn lemma_prefix_sum_bound(d: Seq<u32>, k: int)
    requires
        0 <= k <= d.len(),
    ensures
        0 <= prefix_sum(d, k) <= k * 4294967295,
    decreases k,
{
    if k > 0 {
        lemma_prefix_sum_bound(d, k - 1);
    }
}

pub fn accumulate_sample_times(stts: &Vec<(u32, u32)>, n_samples: usize) -> (r: Result<Vec<(u64, u32)>, Mp4Error>)
    requires
        n_samples <= u32::MAX,
    ensures
        agrees_seq(r, spec_accumulate_sample_times(stts@, n_samples as nat)),
{
    let mut total: u128 = 0;
    let mut e: usize = 0;
    while e < stts.len()
        invariant
            e <= stts@.len(),
            total == stts_total(stts@.subrange(0, e as int)),
            total <= e * 4294967295,
        decreases stts@.len() - e,
    {
        assert(stts@.subrange(0, e + 1).drop_last() =~= stts@.subrange(0, e as int));
        total = total + stts[e].0 as u128;
        e += 1;
    }
    assert(stts@.subrange(0, stts@.len() as int) =~= stts@);
    if total != n_samples as u128 {
        let mut m = str_dec("stts declares ", total);
        push_str(&mut m, " sample(s) but stsz declares ");
        push_dec(&mut m, n_samples as u128);
        return Err(Mp4Error::Malformed(m));
    }
    let mut deltas: Vec<u32> = Vec::new();
    e = 0;
    while e < stts.len()
        invariant
            e <= stts@.len(),
            deltas@ =~= stts_deltas(stts@.subrange(0, e as int)),
            deltas@.len() == stts_total(stts@.subrange(0, e as int)),
            stts_total(stts@) == n_samples,
            stts_total(stts@.subrange(0, e as int)) <= n_samples,
        decreases stts@.len() - e,
    {
        let (count, delta) = stts[e];
        let ghost before = deltas@;
        proof {
            assert(stts@.subrange(0, e + 1).drop_last() =~= stts@.subrange(0, e as int));
            lemma_total_prefix_mono(stts@, e + 1);
        }
        let mut t: u32 = 0;
        while t < count
            invariant
                t <= count,
                deltas@ =~= before + Seq::new(t as nat, |_i: int| delta),
            decreases count - t,
        {
            deltas.push(delta);
            t += 1;
        }
        proof {
            lemma_stts_lengths(stts@.subrange(0, e + 1));
        }
        e += 1;
    }
    proof {
        lemma_stts_lengths(stts@);
        lemma_prefix_sum_bound(deltas@, n_samples as int);
    }
    let mut times: Vec<(u64, u32)> = Vec::new();
    let mut cumulative: u64 = 0;
    let mut i: usize = 0;
    while i < n_samples
        invariant
            i <= n_samples <= u32::MAX,
            deltas@.len() == n_samples,
            deltas@ == stts_deltas(stts@),
            cumulative == prefix_sum(deltas@, i as int),
            times@ =~= Seq::new(i as nat, |k: int| (prefix_sum(deltas@, k) as u64, deltas@[k])),
        decreases n_samples - i,
    {
        proof {
            lemma_prefix_sum_bound(deltas@, i + 1);
        }
        times.push((cumulative, deltas[i]));
        cumulative = cumulative + deltas[i] as u64;
        i += 1;
    }
    Ok(times)
}

proof fn lemma_total_prefix_mono(stts: Seq<(u32, u32)>, e: int)
    requires
        0 <= e <= stts.len(),
    ensures
        stts_total(stts.subrange(0, e)) <= stts_total(stts),
    decreases stts.len() - e,
{
    if e < stts.len() {
        lemma_total_prefix_mono(stts, e + 1);
        assert(stts.subrange(0, e + 1).drop_last() =~= stts.subrange(0, e));
    } else {
        assert(stts.subrange(0, e) =~= stts);
    }
}


/// `mdia/mdhd`'s timescale: units per second that `stts` deltas are
/// expressed in. Its offset depends on whether the box's times are 32-
/// or 64-bit (version 0 vs. 1); the version byte is read even when the
/// box's content is empty.
pub open spec fn spec_read_mdhd_timescale(s: Seq<u8>, mdia: (int, int)) -> Result<u32, Mp4Fault> {
    match spec_find_box(s, mdia.0, mdia.1, FOURCC_MDHD) {
        Err(e) => Err(e),
        Ok(None) => Err(Mp4Fault::BoxNotFound("mdhd"@)),
        Ok(Some((a, b))) => {
            if a + 1 > s.len() {
                Err(Mp4Fault::Io(eof_message()))
            } else {
                let ts_pos = if s[a] == 1 { a + 20 } else { a + 12 };
                if ts_pos + 4 > b {
                    Err(Mp4Fault::Malformed("mdhd too short for timescale"@))
                } else {
                    Ok(be_u32(s, ts_pos) as u32)
                }
            }
        },
    }
}

fn read_mdhd_timescale(data: &[u8], mdia: ByteRange) -> (r: Result<u32, Mp4Error>)
    requires
        mdia.start <= mdia.end <= data@.len(),
    ensures
        match (r, spec_read_mdhd_timescale(data@, mdia.pair())) {
            (Ok(v), Ok(sv)) => v == sv,
            (Err(e), Err(se)) => e@ == se,
            _ => false,
        },
{
    let b = match find_box(data, mdia, FOURCC_MDHD) {
        Err(e) => return Err(e),
        Ok(None) => return Err(not_found("mdhd")),
        Ok(Some(b)) => b,
    };
    if b.start >= data.len() as u64 {
        return Err(eof_error());
    }
    let version = data[b.start as usize];
    let rel: u64 = if version == 1 { 20 } else { 12 };
    if b.end - b.start < rel + 4 {
        return Err(malformed("mdhd too short for timescale"));
    }
    Ok(read_u32(data, b.start + rel))
}

/// `hdlr`'s handler type sits right after the 4-byte version/flags and
/// the 4-byte predefined component type.
pub open spec fn spec_handler_type(s: Seq<u8>, hdlr: (int, int)) -> Result<u32, Mp4Fault> {
    if hdlr.1 - hdlr.0 < 12 {
        Err(Mp4Fault::Malformed("hdlr box too short"@))
    } else {
        Ok(be_u32(s, hdlr.0 + 8) as u32)
    }
}

/// `stsd`'s first sample entry's format: version/flags(4) +
/// entry_count(4) + entry_size(4) + format(4).
pub open spec fn spec_stsd_first_format(s: Seq<u8>, stsd: (int, int)) -> Result<u32, Mp4Fault> {
    if stsd.1 - stsd.0 < 16 {
        Err(Mp4Fault::Malformed("stsd box too short for an entry"@))
    } else {
        Ok(be_u32(s, stsd.0 + 12) as u32)
    }
}

/// `(mdia, stbl)` for `trak` iff its `mdia/hdlr` handler type is `meta`
/// and `mdia/minf/stbl/stsd`'s first entry format is `gpmd`: the stsd
/// check is what distinguishes the telemetry track from other
/// `meta`-handler tracks.
pub open spec fn spec_locate_gpmd_track(s: Seq<u8>, trak: (int, int)) -> Result<Option<((int, int), (int, int))>, Mp4Fault> {
    match spec_find_box(s, trak.0, trak.1, FOURCC_MDIA) {
        Err(e) => Err(e),
        Ok(None) => Ok(None),
        Ok(Some(mdia)) => match spec_find_box(s, mdia.0, mdia.1, FOURCC_HDLR) {
            Err(e) => Err(e),
            Ok(None) => Ok(None),
            Ok(Some(hdlr)) => match spec_handler_type(s, hdlr) {
                Err(e) => Err(e),
                Ok(ht) => if ht != FOURCC_META {
                    Ok(None)
                } else {
                    match spec_find_box(s, mdia.0, mdia.1, FOURCC_MINF) {
                        Err(e) => Err(e),
                        Ok(None) => Ok(None),
                        Ok(Some(minf)) => match spec_find_box(s, minf.0, minf.1, FOURCC_STBL) {
                            Err(e) => Err(e),
                            Ok(None) => Ok(None),
                            Ok(Some(stbl)) => match spec_find_box(s, stbl.0, stbl.1, FOURCC_STSD) {
                                Err(e) => Err(e),
                                Ok(None) => Ok(None),
                                Ok(Some(stsd)) => match spec_stsd_first_format(s, stsd) {
                                    Err(e) => Err(e),
                                    Ok(fmt) => if fmt != FOURCC_GPMD { Ok(None) } else { Ok(Some((mdia, stbl))) },
                                },
                            },
                        },
                    }
                },
            },
        },
    }
}

pub fn locate_gpmd_track(data: &[u8], trak: ByteRange) -> (r: Result<Option<(ByteRange, ByteRange)>, Mp4Error>)
    requires
        trak.start <= trak.end <= data@.len(),
    ensures
        match (r, spec_locate_gpmd_track(data@, trak.pair())) {
            (Ok(None), Ok(None)) => true,
            (Ok(Some((m, t))), Ok(Some((sm, st)))) => m.pair() == sm && t.pair() == st
                && m.start <= m.end <= data@.len() && t.start <= t.end <= data@.len(),
            (Err(e), Err(se)) => e@ == se,
            _ => false,
        },
{
    let mdia = match find_box(data, trak, FOURCC_MDIA) {
        Err(e) => return Err(e),
        Ok(None) => return Ok(None),
        Ok(Some(b)) => b,
    };
    let hdlr = match find_box(data, mdia, FOURCC_HDLR) {
        Err(e) => return Err(e),
        Ok(None) => return Ok(None),
        Ok(Some(b)) => b,
    };
    if hdlr.end - hdlr.start < 12 {
        return Err(malformed("hdlr box too short"));
    }
    if read_u32(data, hdlr.start + 8) != FOURCC_META {
        return Ok(None);
    }
    let minf = match find_box(data, mdia, FOURCC_MINF) {
        Err(e) => return Err(e),
        Ok(None) => return Ok(None),
        Ok(Some(b)) => b,
    };
    let stbl = match find_box(data, minf, FOURCC_STBL) {
        Err(e) => return Err(e),
        Ok(None) => return Ok(None),
        Ok(Some(b)) => b,
    };
    let stsd = match find_box(data, stbl, FOURCC_STSD) {
        Err(e) => return Err(e),
        Ok(None) => return Ok(None),
        Ok(Some(b)) => b,
    };
    if stsd.end - stsd.start < 16 {
        return Err(malformed("stsd box too short for an entry"));
    }
    if read_u32(data, stsd.start + 12) != FOURCC_GPMD {
        return Ok(None);
    }
    Ok(Some((mdia, stbl)))
}

/// The sample index of the telemetry track whose sample table is
/// `stbl`, its timing in `timescale` units.
pub open spec fn spec_build_gpmd_index(s: Seq<u8>, stbl: (int, int), timescale: u32) -> Result<Seq<GpmdSample>, Mp4Fault> {
    if timescale == 0 {
        Err(Mp4Fault::Malformed("mdhd timescale is zero"@))
    } else {
        match spec_read_stsz(s, stbl) {
            Err(e) => Err(e),
            Ok(sizes) => match spec_read_stsc(s, stbl) {
                Err(e) => Err(e),
                Ok(stsc) => match spec_read_chunk_offsets(s, stbl) {
                    Err(e) => Err(e),
                    Ok(chunks) => match spec_read_stts(s, stbl) {
                        Err(e) => Err(e),
                        Ok(stts) => match spec_place_samples(stsc, chunks, sizes) {
                            Err(e) => Err(e),
                            Ok(offsets) => match spec_accumulate_sample_times(stts, sizes.len()) {
                                Err(e) => Err(e),
                                Ok(times) => Ok(Seq::new(sizes.len(), |i: int| GpmdSample {
                                    offset: offsets[i],
                                    size: sizes[i],
                                    start_units: times[i].0,
                                    duration_units: times[i].1,
                                })),
                            },
                        },
                    },
                },
            },
        }
    }
}

fn build_gpmd_index(data: &[u8], stbl: ByteRange, timescale: u32) -> (r: Result<Vec<GpmdSample>, Mp4Error>)
    requires
        stbl.start <= stbl.end <= data@.len(),
    ensures
        agrees_seq(r, spec_build_gpmd_index(data@, stbl.pair(), timescale)),
{
    if timescale == 0 {
        return Err(malformed("mdhd timescale is zero"));
    }
    let sizes = match read_stsz(data, stbl) {
        Err(e) => return Err(e),
        Ok(v) => v,
    };
    let stsc = match read_stsc(data, stbl) {
        Err(e) => return Err(e),
        Ok(v) => v,
    };
    let chunk_offsets = match read_chunk_offsets(data, stbl) {
        Err(e) => return Err(e),
        Ok(v) => v,
    };
    let stts = match read_stts(data, stbl) {
        Err(e) => return Err(e),
        Ok(v) => v,
    };
    let offsets = match place_samples_in_chunks(&stsc, &chunk_offsets, &sizes) {
        Err(e) => return Err(e),
        Ok(v) => v,
    };
    let times = match accumulate_sample_times(&stts, sizes.len()) {
        Err(e) => return Err(e),
        Ok(v) => v,
    };
    let mut samples: Vec<GpmdSample> = Vec::new();
    let mut i: usize = 0;
    while i < sizes.len()
        invariant
            i <= sizes@.len(),
            offsets@.len() == sizes@.len(),
            times@.len() == sizes@.len(),
            samples@ =~= Seq::new(i as nat, |k: int| GpmdSample {
                offset: offsets@[k],
                size: sizes@[k],
                start_units: times@[k].0,
                duration_units: times@[k].1,
            }),
        decreases sizes@.len() - i,
    {
        samples.push(GpmdSample {
            offset: offsets[i],
            size: sizes[i],
            start_units: times[i].0,
            duration_units: times[i].1,
        });
        i += 1;
    }
    Ok(samples)
}

/// The first track (in file order) that is the `gpmd` telemetry
/// track, with its timescale and sample index.
pub open spec fn spec_first_gpmd_track(s: Seq<u8>, traks: Seq<(int, int)>, i: int) -> Result<Option<(u32, Seq<GpmdSample>)>, Mp4Fault>
    decreases traks.len() - i,
{
    if i < 0 || i >= traks.len() {
        Ok(None)
    } else {
        match spec_locate_gpmd_track(s, traks[i]) {
            Err(e) => Err(e),
            Ok(None) => spec_first_gpmd_track(s, traks, i + 1),
            Ok(Some((mdia, stbl))) => match spec_read_mdhd_timescale(s, mdia) {
                Err(e) => Err(e),
                Ok(ts) => match spec_build_gpmd_index(s, stbl, ts) {
                    Err(e) => Err(e),
                    Ok(samples) => Ok(Some((ts, samples))),
                },
            },
        }
    }
}

/// Locates the `gpmd` telemetry track and builds its per-sample index.
/// `Ok(None)` means no track in `moov` has a `meta` handler with a
/// `gpmd` `stsd` entry — a clean "no telemetry" result. Once such a
/// track is found, a malformed sample table is an error.
pub open spec fn spec_read_gpmd_index(s: Seq<u8>) -> Result<Option<(u32, Seq<GpmdSample>)>, Mp4Fault> {
    match spec_find_box(s, 0, s.len() as int, FOURCC_MOOV) {
        Err(e) => Err(e),
        Ok(None) => Ok(None),
        Ok(Some(moov)) => match spec_find_all_boxes(s, moov.0, moov.1, FOURCC_TRAK) {
            Err(e) => Err(e),
            Ok(traks) => spec_first_gpmd_track(s, traks, 0),
        },
    }
}

pub open spec fn agrees_index(r: Result<Option<GpmdIndex>, Mp4Error>, s: Result<Option<(u32, Seq<GpmdSample>)>, Mp4Fault>) -> bool {
    match (r, s) {
        (Ok(None), Ok(None)) => true,
        (Ok(Some(ix)), Ok(Some((ts, samples)))) => ix.timescale == ts && ix.samples@ == samples,
        (Err(e), Err(se)) => e@ == se,
        _ => false,
    }
}

pub fn read_gpmd_index(data: &[u8]) -> (r: Result<Option<GpmdIndex>, Mp4Error>)
    ensures
        agrees_index(r, spec_read_gpmd_index(data@)),
{
    let whole = ByteRange { start: 0, end: data.len() as u64 };
    let moov = match find_box(data, whole, FOURCC_MOOV) {
        Err(e) => return Err(e),
        Ok(None) => return Ok(None),
        Ok(Some(b)) => b,
    };
    let traks = match find_all_boxes(data, moov, FOURCC_TRAK) {
        Err(e) => return Err(e),
        Ok(v) => v,
    };
    let ghost straks = traks@.map_values(|b: ByteRange| b.pair());
    assert(spec_find_all_boxes(data@, moov.start as int, moov.end as int, FOURCC_TRAK) == Ok::<Seq<(int, int)>, Mp4Fault>(straks)) by {
        if let Ok(p) = spec_find_all_boxes(data@, moov.start as int, moov.end as int, FOURCC_TRAK) {
            assert(p =~= straks);
        }
    }
    let mut i: usize = 0;
    while i < traks.len()
        invariant
            i <= traks@.len(),
            straks == traks@.map_values(|b: ByteRange| b.pair()),
            forall|k: int| 0 <= k < traks@.len() ==> #[trigger] traks@[k].start <= traks@[k].end <= data@.len(),
            spec_read_gpmd_index(data@) == spec_first_gpmd_track(data@, straks, i as int),
        decreases traks@.len() - i,
    {
        let located = locate_gpmd_track(data, traks[i]);
        match located {
            Err(e) => return Err(e),
            Ok(None) => {},
            Ok(Some((mdia, stbl))) => {
                let timescale = match read_mdhd_timescale(data, mdia) {
                    Err(e) => return Err(e),
                    Ok(t) => t,
                };
                let samples = match build_gpmd_index(data, stbl, timescale) {
                    Err(e) => return Err(e),
                    Ok(v) => v,
                };
                return Ok(Some(GpmdIndex { timescale, samples }));
            },
        }
        i += 1;
    }
    Ok(None)
}

/// One telemetry sample's payload bytes at its indexed offset; a
/// sample reaching past the end of the file cannot be read.
pub open spec fn spec_read_gpmd_payload(s: Seq<u8>, sample: GpmdSample) -> Result<Seq<u8>, Mp4Fault> {
    if sample.offset + sample.size > s.len() {
        Err(Mp4Fault::Io(eof_message()))
    } else {
        Ok(s.subrange(sample.offset as int, sample.offset + sample.size))
    }
}

pub fn read_gpmd_payload(data: &[u8], sample: &GpmdSample) -> (r: Result<Vec<u8>, Mp4Error>)
    ensures
        agrees_seq(r, spec_read_gpmd_payload(data@, *sample)),
{
    let n = data.len();
    if sample.offset > n as u64 || (sample.size as u64) > n as u64 - sample.offset {
        return Err(eof_error());
    }
    let start = sample.offset as usize;
    let len = sample.size as usize;
    let mut out: Vec<u8> = Vec::new();
    let mut i: usize = 0;
    while i < len
        invariant
            i <= len,
            n == data@.len(),
            start + len <= data@.len(),
            out@ =~= data@.subrange(start as int, start + i),
        decreases len - i,
    {
        out.push(data[start + i]);
        i += 1;
    }
    Ok(out)
}


/// Every HiLight press is read: when `moov/udta/HMMT` is found and its
/// count `n` is positive and fits the box, the markers are exactly the
/// `n` big-endian u32 offsets that follow the count, in order; only a
/// count of zero (or a box too short to hold a count) reads as no
/// markers.
pub proof fn lemma_hilights_reads_every_offset(s: Seq<u8>, ms: int, me: int, us: int, ue: int, hs: int, he: int)
    requires
        spec_find_box(s, 0, s.len() as int, FOURCC_MOOV) == Ok::<Option<(int, int)>, Mp4Fault>(Some((ms, me))),
        spec_find_box(s, ms, me, FOURCC_UDTA) == Ok::<Option<(int, int)>, Mp4Fault>(Some((us, ue))),
        spec_find_box(s, us, ue, FOURCC_HMMT) == Ok::<Option<(int, int)>, Mp4Fault>(Some((hs, he))),
        he - hs >= 4,
    ensures
        be_u32(s, hs) >= 1 && 4 + 4 * be_u32(s, hs) <= he - hs ==> (spec_read_hilights(s) matches Ok(v)
            && v.len() == be_u32(s, hs) && forall|k: int| 0 <= k < v.len() ==> v[k] as int == be_u32(s, hs + 4 + 4 * k)),
        be_u32(s, hs) == 0 ==> spec_read_hilights(s) == Ok::<Seq<u32>, Mp4Fault>(Seq::empty()),
{
    let n = be_u32(s, hs);
    if n >= 1 && 4 + 4 * n <= he - hs {
        let v = u32_table(s, hs + 4, n as nat);
        assert(spec_read_hilights(s) == Ok::<Seq<u32>, Mp4Fault>(v));
        assert forall|k: int| 0 <= k < v.len() implies v[k] as int == be_u32(s, hs + 4 + 4 * k) by {
            let i = hs + 4 + 4 * k;
            assert(0 <= be_u32(s, i) < 0x1_0000_0000) by {
                assert(0 <= s[i] < 256 && 0 <= s[i + 1] < 256 && 0 <= s[i + 2] < 256 && 0 <= s[i + 3] < 256);
            }
        }
    }
}

} // verus!
