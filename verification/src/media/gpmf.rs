//! GPMF KLV telemetry parsing. GPMF payloads are a flat,
//! self-describing binary format — 4-byte key + 1-byte type + 1-byte
//! element size + 2-byte repeat count, followed by that many elements
//! padded to 4-byte alignment, with nesting (type `0x00`) handled by
//! reading the value bytes as another KLV stream. [`KlvIter`] borrows
//! the payload rather than building a tree.

use vstd::prelude::*;
use crate::clock::{civil_utc, utc_from_civil, UtcInstant};
use crate::media::mp4::{be_u32, read_u32};
use crate::text::{
    all_digits, char_debug, char_digit, chars_of, debug_char, debug_lossy, debug_str, dec, digit_of,
    digits_value, is_digit, lemma_digits_value_bound, lossy_debug, owned, pow10, push_dec, push_str,
    str_debug, str_dec, str_dec_str, utf8_str,
};

verus! {

pub const KEY_GPS5: u32 = 0x47505335;
pub const KEY_SCAL: u32 = 0x5343414c;
pub const KEY_GPSU: u32 = 0x47505355;
pub const KEY_GPSF: u32 = 0x47505346;
pub const KEY_GPSP: u32 = 0x47505350;

#[derive(Debug, Clone, PartialEq, Eq)]
pub enum GpmfError {
    Malformed(String),
}

impl GpmfError {
    pub open spec fn message(self) -> Seq<char> {
        match self {
            GpmfError::Malformed(m) => m@,
        }
    }
}

/// One decoded KLV item: its fourcc key (big-endian), type tag (`0x00`
/// for a nested container), the byte width of one element, how many
/// elements repeat, and the borrowed value bytes (`struct_size * repeat`
/// bytes, before alignment padding).
#[derive(Debug, Clone, Copy)]
pub struct Klv<'a> {
    pub key: u32,
    pub type_char: u8,
    pub struct_size: u8,
    pub repeat: u16,
    pub value: &'a [u8],
}

/// The plain-value model of a [`Klv`].
pub ghost struct KlvItem {
    pub key: u32,
    pub type_char: u8,
    pub struct_size: u8,
    pub repeat: u16,
    pub value: Seq<u8>,
}

impl<'a> View for Klv<'a> {
    type V = KlvItem;

    open spec fn view(&self) -> KlvItem {
        KlvItem {
            key: self.key,
            type_char: self.type_char,
            struct_size: self.struct_size,
            repeat: self.repeat,
            value: self.value@,
        }
    }
}

/// `n` rounded up to a multiple of 4.
pub open spec fn padded4(n: int) -> int {
    ((n + 3) / 4) * 4
}

/// The KLV item at `pos` and the position just past it (value plus
/// alignment padding), or why it cannot be read.
pub open spec fn spec_klv_at(s: Seq<u8>, pos: int) -> Result<(KlvItem, int), Seq<char>> {
    if pos + 8 > s.len() {
        Err("truncated KLV header at offset "@ + dec(pos as nat))
    } else {
        let key = be_u32(s, pos) as u32;
        let value_len = s[pos + 5] as int * (s[pos + 6] as int * 256 + s[pos + 7] as int);
        if pos + 8 + padded4(value_len) > s.len() {
            Err("KLV item "@ + lossy_debug(s.subrange(pos, pos + 4)) + " at offset "@ + dec(pos as nat)
                + " declares "@ + dec(value_len as nat) + " byte(s), past the end of its payload"@)
        } else {
            Ok((KlvItem {
                key,
                type_char: s[pos + 4],
                struct_size: s[pos + 5],
                repeat: (s[pos + 6] as int * 256 + s[pos + 7] as int) as u16,
                value: s.subrange(pos + 8, pos + 8 + value_len),
            }, pos + 8 + padded4(value_len)))
        }
    }
}

/// Every KLV item from `pos` on, stopping at the first that cannot be
/// read.
pub open spec fn spec_items(s: Seq<u8>, pos: int) -> Result<Seq<KlvItem>, Seq<char>>
    decreases s.len() - pos,
{
    if pos < 0 || pos >= s.len() {
        Ok(Seq::<KlvItem>::empty())
    } else {
        match spec_klv_at(s, pos) {
            Err(m) => Err(m),
            Ok((item, next)) => match spec_items(s, next) {
                Err(m) => Err(m),
                Ok(rest) => Ok(seq![item] + rest),
            },
        }
    }
}

/// An item as GPMF can write it: its value is exactly `struct_size`
/// times `repeat` bytes.
pub open spec fn klv_well_formed(k: KlvItem) -> bool {
    k.value.len() == k.struct_size as int * k.repeat as int
}

/// The bytes that encode `k`: the key big-endian, the type, the struct
/// size, the repeat count big-endian, the value, and zero bytes up to a
/// multiple of 4.
pub open spec fn klv_encoding(k: KlvItem) -> Seq<u8> {
    seq![(k.key / 16777216) as u8, ((k.key / 65536) % 256) as u8, ((k.key / 256) % 256) as u8, (k.key % 256) as u8,
        k.type_char, k.struct_size, (k.repeat / 256) as u8, (k.repeat % 256) as u8]
        + k.value + Seq::new((padded4(k.value.len() as int) - k.value.len()) as nat, |i: int| 0u8)
}

/// The encodings of `items`, one after another.
pub open spec fn klv_encodings(items: Seq<KlvItem>) -> Seq<u8>
    decreases items.len(),
{
    if items.len() == 0 {
        Seq::empty()
    } else {
        klv_encoding(items[0]) + klv_encodings(items.drop_first())
    }
}

proof fn lemma_encoding_header(k: KlvItem)
    requires
        klv_well_formed(k),
    ensures
        klv_encoding(k).len() == 8 + padded4(k.value.len() as int),
        be_u32(klv_encoding(k), 0) == k.key as int,
        klv_encoding(k)[4] == k.type_char,
        klv_encoding(k)[5] == k.struct_size,
        klv_encoding(k)[6] as int * 256 + klv_encoding(k)[7] as int == k.repeat as int,
        klv_encoding(k).subrange(8, 8 + k.value.len() as int) =~= k.value,
{
    let e = klv_encoding(k);
    let n = k.value.len() as int;
    assert(n <= padded4(n) <= n + 3);
    let key = k.key;
    let rep = k.repeat;
    assert(key == (key / 16777216) * 16777216 + ((key / 65536) % 256) * 65536 + ((key / 256) % 256) * 256
        + key % 256) by (bit_vector);
    assert(rep == (rep / 256) * 256 + rep % 256) by (bit_vector);
    assert(key / 16777216 < 256) by (bit_vector);
    assert(rep / 256 < 256) by (bit_vector);
    assert forall|i: int| 0 <= i < n implies e[8 + i] == k.value[i] by {}
}

proof fn lemma_klv_at_encoding(pre: Seq<u8>, k: KlvItem, rest: Seq<u8>)
    requires
        klv_well_formed(k),
    ensures
        spec_klv_at(pre + klv_encoding(k) + rest, pre.len() as int)
            == Ok::<(KlvItem, int), Seq<char>>((k, (pre.len() + klv_encoding(k).len()) as int)),
{
    let e = klv_encoding(k);
    let s = pre + e + rest;
    let pos = pre.len() as int;
    let n = k.value.len() as int;
    lemma_encoding_header(k);
    assert forall|i: int| 0 <= i < e.len() implies s[pos + i] == #[trigger] e[i] by {}
    assert(s[pos] == e[0] && s[pos + 1] == e[1] && s[pos + 2] == e[2] && s[pos + 3] == e[3]);
    assert(s[pos + 4] == e[4] && s[pos + 5] == e[5] && s[pos + 6] == e[6] && s[pos + 7] == e[7]);
    assert(be_u32(s, pos) == be_u32(e, 0));
    assert(s.subrange(pos + 8, pos + 8 + n) =~= e.subrange(8, 8 + n));
}

#[verifier::rlimit(40)]
proof fn lemma_items_after(pre: Seq<u8>, items: Seq<KlvItem>)
    requires
        forall|i: int| 0 <= i < items.len() ==> klv_well_formed(#[trigger] items[i]),
    ensures
        spec_items(pre + klv_encodings(items), pre.len() as int) == Ok::<Seq<KlvItem>, Seq<char>>(items),
    decreases items.len(),
{
    let s = pre + klv_encodings(items);
    if items.len() == 0 {
        assert(s =~= pre);
        assert(items =~= Seq::<KlvItem>::empty());
    } else {
        let k = items[0];
        assert(klv_well_formed(k));
        let e = klv_encoding(k);
        let tail = items.drop_first();
        assert forall|i: int| 0 <= i < tail.len() implies klv_well_formed(#[trigger] tail[i]) by {
            assert(tail[i] == items[i + 1]);
        }
        lemma_items_after(pre + e, tail);
        assert(s =~= (pre + e) + klv_encodings(tail));
        let pos = pre.len() as int;
        let next = (pre + e).len() as int;
        assert(spec_klv_at(s, pos) == Ok::<(KlvItem, int), Seq<char>>((k, next))) by {
            lemma_klv_at_encoding(pre, k, klv_encodings(tail));
        }
        assert(spec_items(s, next) == Ok::<Seq<KlvItem>, Seq<char>>(tail));
        assert(0 <= pos < s.len()) by {
            assert(e.len() >= 8);
        }
        assert(spec_items(s, pos) == Ok::<Seq<KlvItem>, Seq<char>>(seq![k] + tail));
        assert(items =~= seq![k] + tail);
    }
}

/// Decoding inverts encoding: the well-formed items written one after
/// another are read back, in order, and nothing else (so an iterator
/// over those bytes yields each of them, then `None`).
pub proof fn lemma_klv_round_trip(items: Seq<KlvItem>)
    requires
        forall|i: int| 0 <= i < items.len() ==> klv_well_formed(#[trigger] items[i]),
    ensures
        spec_items(klv_encodings(items), 0) == Ok::<Seq<KlvItem>, Seq<char>>(items),
{
    lemma_items_after(Seq::empty(), items);
    assert(Seq::<u8>::empty() + klv_encodings(items) =~= klv_encodings(items));
}

/// Iterates the KLV items in one GPMF payload (or one nested
/// container's value bytes), advancing by each item's 4-byte-aligned
/// length. Yields an error and stops — every later call yields
/// nothing — as soon as a header or length doesn't fit the remaining
/// bytes.
#[derive(Debug, Clone, Copy)]
pub struct KlvIter<'a> {
    data: &'a [u8],
    pos: usize,
    failed: bool,
}

impl<'a> KlvIter<'a> {
    /// The bytes being iterated.
    pub closed spec fn data(self) -> Seq<u8> {
        self.data@
    }

    /// Where the next item starts.
    pub closed spec fn pos(self) -> int {
        self.pos as int
    }

    /// Whether an error has already been yielded.
    pub closed spec fn failed(self) -> bool {
        self.failed
    }

    /// How much is left to read: a measure each yielded item lowers.
    pub closed spec fn fuel(self) -> nat {
        if self.failed || self.pos >= self.data@.len() { 0 } else { (self.data@.len() - self.pos + 1) as nat }
    }

    /// What the iterator yields from now on: nothing after an error,
    /// otherwise the items from its position up to the end or the first
    /// unreadable item.
    pub open spec fn remaining(self) -> Result<Seq<KlvItem>, Seq<char>> {
        if self.failed() { Ok(Seq::<KlvItem>::empty()) } else { spec_items(self.data(), self.pos()) }
    }

    pub fn new(data: &'a [u8]) -> (it: Self)
        ensures
            it.data() == data@,
            it.pos() == 0,
            !it.failed(),
    {
        KlvIter { data, pos: 0, failed: false }
    }

    /// The next item: `None` at the end (or after an error), an error
    /// once for the first unreadable item.
    pub fn next(&mut self) -> (r: Option<Result<Klv<'a>, GpmfError>>)
        ensures
            final(self).data() == old(self).data(),
            r is Some ==> final(self).fuel() < old(self).fuel(),
            match old(self).remaining() {
                Ok(items) => if items.len() == 0 {
                    r is None && final(self).remaining() == old(self).remaining()
                } else {
                    r matches Some(Ok(k)) && k@ == items[0] && final(self).remaining() == Ok::<Seq<KlvItem>, Seq<char>>(items.drop_first())
                        && k@.value.len() < old(self).data().len()
                },
                Err(m) => match r {
                    Some(Ok(k)) => k@.value.len() < old(self).data().len() && match final(self).remaining() {
                        Err(m2) => m2 == m && old(self).remaining() == Err::<Seq<KlvItem>, Seq<char>>(m)
                            && spec_items(old(self).data(), old(self).pos()) == (match spec_items(final(self).data(), final(self).pos()) {
                                Err(e) => Err::<Seq<KlvItem>, Seq<char>>(e),
                                Ok(rest) => Ok(seq![k@] + rest),
                            }),
                        Ok(_) => false,
                    },
                    Some(Err(e)) => e.message() == m && final(self).failed(),
                    None => false,
                },
            },
            !old(self).failed() && 0 <= old(self).pos() < old(self).data().len() ==> match spec_klv_at(old(self).data(), old(self).pos()) {
                Ok((item, next)) => r matches Some(Ok(k)) && k@ == item && final(self).pos() == next && !final(self).failed(),
                Err(m) => r matches Some(Err(e)) && e.message() == m && final(self).failed(),
            },
            old(self).failed() || old(self).pos() >= old(self).data().len() ==> r is None,
    {
        if self.failed || self.pos >= self.data.len() {
            return None;
        }
        let pos = self.pos;
        let n = self.data.len();
        if n - pos < 8 {
            self.failed = true;
            return Some(Err(GpmfError::Malformed(str_dec("truncated KLV header at offset ", pos as u128))));
        }
        let key = read_u32(self.data, pos as u64);
        let type_char = self.data[pos + 4];
        let struct_size = self.data[pos + 5];
        let repeat: u16 = (self.data[pos + 6] as u16) * 256 + self.data[pos + 7] as u16;
        assert(struct_size as int * repeat as int <= 255 * 65535) by (nonlinear_arith)
            requires
                struct_size <= 255,
                repeat <= 65535,
        ;
        let value_len: usize = struct_size as usize * repeat as usize;
        let padded_len: usize = (value_len + 3) / 4 * 4;
        if padded_len > n - pos - 8 {
            self.failed = true;
            let mut m = owned("KLV item ");
            let key_text = debug_lossy(vstd::slice::slice_subrange(self.data, pos, pos + 4));
            push_str(&mut m, key_text.as_str());
            push_str(&mut m, " at offset ");
            push_dec(&mut m, pos as u128);
            push_str(&mut m, " declares ");
            push_dec(&mut m, value_len as u128);
            push_str(&mut m, " byte(s), past the end of its payload");
            return Some(Err(GpmfError::Malformed(m)));
        }
        let value = vstd::slice::slice_subrange(self.data, pos + 8, pos + 8 + value_len);
        self.pos = pos + 8 + padded_len;
        let k = Klv { key, type_char, struct_size, repeat, value };
        proof {
            let s = self.data@;
            assert(value_len == s[pos + 5] as int * (s[pos + 6] as int * 256 + s[pos + 7] as int));
            assert(padded_len == padded4(value_len as int));
            assert(spec_klv_at(s, pos as int) == Ok::<(KlvItem, int), Seq<char>>((k@, self.pos as int)));
            if let Ok(rest) = spec_items(s, self.pos as int) {
                assert((seq![k@] + rest).drop_first() =~= rest);
                assert((seq![k@] + rest)[0] == k@);
            }
        }
        Some(Ok(k))
    }
}

/// Element width of the integer KLV types GPS streams use
/// (`b`/`B` 1, `s`/`S` 2, `l`/`L` 4); 0 for any other type.
pub open spec fn cell_width(t: u8) -> int {
    if t == 0x62 || t == 0x42 { 1 }
    else if t == 0x73 || t == 0x53 { 2 }
    else if t == 0x6c || t == 0x4c { 4 }
    else { 0 }
}

/// Whether the type letter is lower-case, i.e. signed.
pub open spec fn cell_signed(t: u8) -> bool {
    t == 0x62 || t == 0x73 || t == 0x6c
}

/// The `i`-th cell of `v`, big-endian, two's complement when signed.
pub open spec fn cell_value(t: u8, v: Seq<u8>, i: int) -> int {
    let w = cell_width(t);
    let raw = if w == 1 {
        v[i] as int
    } else if w == 2 {
        v[2 * i] as int * 256 + v[2 * i + 1] as int
    } else {
        be_u32(v, 4 * i)
    };
    let half: int = if w == 1 { 128 } else if w == 2 { 32768 } else { 2147483648 };
    if cell_signed(t) && raw >= half { raw - 2 * half } else { raw }
}

/// `value` decoded as a sequence of fixed-width integer cells, widening
/// whatever GPMF integer type `type_char` declares.
pub open spec fn spec_cells(k: KlvItem) -> Result<Seq<int>, Seq<char>> {
    let w = cell_width(k.type_char);
    if w == 0 {
        Err("unsupported numeric KLV type "@ + char_debug(k.type_char as char))
    } else if k.value.len() as int % w != 0 {
        Err("KLV value length is not a multiple of its element width"@)
    } else {
        Ok(Seq::new((k.value.len() as int / w) as nat, |i: int| cell_value(k.type_char, k.value, i)))
    }
}

/// `v as i32` for values within the 32-bit range GPMF cells occupy.
pub open spec fn wrap_i32(v: int) -> int {
    if v > i32::MAX { v - 4294967296 } else { v }
}

/// `v as u32` for values within the 32-bit range GPMF cells occupy.
pub open spec fn wrap_u32(v: int) -> int {
    if v < 0 { v + 4294967296 } else { v }
}

/// The cells read as `i32`s (unsigned 32-bit values wrap).
pub open spec fn spec_i32s(k: KlvItem) -> Result<Seq<i32>, Seq<char>> {
    match spec_cells(k) {
        Err(m) => Err(m),
        Ok(c) => Ok(c.map_values(|v: int| wrap_i32(v) as i32)),
    }
}

/// The first cell read as a `u32` (negative values wrap).
pub open spec fn spec_u32(k: KlvItem) -> Result<u32, Seq<char>> {
    match spec_cells(k) {
        Err(m) => Err(m),
        Ok(c) => if c.len() == 0 {
            Err("expected at least one value, got none"@)
        } else {
            Ok(wrap_u32(c[0]) as u32)
        },
    }
}

proof fn lemma_cell_range(t: u8, v: Seq<u8>, i: int)
    requires
        cell_width(t) > 0,
        0 <= i,
        (i + 1) * cell_width(t) <= v.len(),
    ensures
        -2147483648 <= cell_value(t, v, i) <= 4294967295,
{
}


/// `s` with every trailing NUL removed.
pub open spec fn trim_nul_end(s: Seq<char>) -> Seq<char>
    decreases s.len(),
{
    if s.len() > 0 && s.last() == '\0' { trim_nul_end(s.drop_last()) } else { s }
}

/// `i8::from_str` on a two-character string: two digits, or a sign
/// and one digit.
pub open spec fn two_digit(s: Seq<char>) -> Option<int> {
    if s.len() != 2 || !is_digit(s[1]) {
        None
    } else if is_digit(s[0]) {
        Some(digit_of(s[0]) * 10 + digit_of(s[1]))
    } else if s[0] == '+' {
        Some(digit_of(s[1]))
    } else if s[0] == '-' {
        Some(-digit_of(s[1]))
    } else {
        None
    }
}

/// Index of the first `.` in `s` (its length when there is none).
pub open spec fn first_dot(s: Seq<char>) -> int
    decreases s.len(),
{
    if s.len() == 0 {
        0
    } else if s[0] == '.' {
        0
    } else {
        1 + first_dot(s.drop_first())
    }
}

/// The nanoseconds a fractional digit string `f` stands for: its first
/// nine digits (padded with zeros), rounded half up on the tenth.
pub open spec fn frac_nanos(f: Seq<char>) -> int {
    let nine = Seq::new(9, |i: int| if i < f.len() { f[i] } else { '0' });
    digits_value(nine) + if f.len() > 9 && digit_of(f[9]) >= 5 { 1int } else { 0int }
}

pub open spec fn min_int(a: int, b: int) -> int {
    if a <= b { a } else { b }
}

/// The seconds field of a `GPSU` value, `[+-]digits[.digits]`, as the
/// whole second (truncated toward zero and saturated to `i8`) and the
/// nanoseconds of its fraction, both carrying the sign.
pub open spec fn gpsu_seconds(t: Seq<char>) -> Option<(int, int)> {
    let signed = t.len() > 0 && (t[0] == '-' || t[0] == '+');
    let neg = t.len() > 0 && t[0] == '-';
    let body = if signed { t.drop_first() } else { t };
    let dot = first_dot(body);
    let ip = body.subrange(0, dot);
    let fp = if dot < body.len() { body.subrange(dot + 1, body.len() as int) } else { Seq::<char>::empty() };
    if all_digits(ip) && all_digits(fp) && ip.len() + fp.len() > 0 {
        let whole = digits_value(ip) as int;
        let n = frac_nanos(fp);
        if neg { Some((-min_int(whole, 128), -n)) } else { Some((min_int(whole, 127), n)) }
    } else {
        None
    }
}

/// What parsing a `GPSU` value (`yymmddhhmmss.sss`, ASCII, UTC) gives:
/// the instant as Unix seconds and nanoseconds, or why it failed.
pub open spec fn spec_gpsu(v: Seq<u8>) -> Result<(int, int), Seq<char>> {
    if !vstd::utf8::valid_utf8(v) {
        Err("GPSU is not valid UTF-8"@)
    } else {
        let raw = vstd::utf8::decode_utf8(v);
        let s = trim_nul_end(raw);
        let bad = "malformed GPSU value "@ + str_debug(raw);
        if !vstd::utf8::is_ascii_chars(s) || s.len() < 13 {
            Err(bad)
        } else {
            match (two_digit(s.subrange(0, 2)), two_digit(s.subrange(2, 4)), two_digit(s.subrange(4, 6)),
                two_digit(s.subrange(6, 8)), two_digit(s.subrange(8, 10)), gpsu_seconds(s.subrange(10, s.len() as int))) {
                (Some(yy), Some(mo), Some(d), Some(h), Some(mi), Some((sec, ns))) =>
                    match civil_utc(2000 + yy, mo, d, h, mi, sec, ns) {
                        Ok(secs) => Ok((secs, ns)),
                        Err(e) => Err("invalid GPSU date/time "@ + str_debug(raw) + ": "@ + e),
                    },
                _ => Err(bad),
            }
        }
    }
}

proof fn lemma_first_dot(s: Seq<char>, k: int)
    requires
        0 <= k <= s.len(),
        forall|j: int| 0 <= j < k ==> s[j] != '.',
        k == s.len() || s[k] == '.',
    ensures
        first_dot(s) == k,
    decreases k,
{
    if k > 0 {
        lemma_first_dot(s.drop_first(), k - 1);
    }
}

/// `two_digit` of `cs[i..i + 2]`.
fn two_digit_at(cs: &Vec<char>, i: usize) -> (r: Option<i8>)
    requires
        i + 2 <= cs.len(),
    ensures
        match two_digit(cs@.subrange(i as int, i + 2)) {
            Some(v) => r matches Some(x) && x == v && -9 <= v <= 99,
            None => r is None,
        },
{
    let ghost t = cs@.subrange(i as int, i + 2);
    assert(t[0] == cs@[i as int] && t[1] == cs@[i + 1]);
    let d1 = match char_digit(cs[i + 1]) {
        None => return None,
        Some(d) => d as i8,
    };
    match char_digit(cs[i]) {
        Some(d0) => Some(d0 as i8 * 10 + d1),
        None => if cs[i] == '+' {
            Some(d1)
        } else if cs[i] == '-' {
            Some(-d1)
        } else {
            None
        },
    }
}

/// Whether `cs[from..to]` is all digits, and if so the number it spells
/// capped at 1000.
fn digits_capped(cs: &Vec<char>, from: usize, to: usize) -> (r: Option<u32>)
    requires
        from <= to <= cs@.len(),
    ensures
        r is Some <==> all_digits(cs@.subrange(from as int, to as int)),
        r matches Some(v) ==> v as int == min_int(digits_value(cs@.subrange(from as int, to as int)) as int, 1000),
{
    let mut whole: u32 = 0;
    let mut i = from;
    while i < to
        invariant
            from <= i <= to <= cs@.len(),
            all_digits(cs@.subrange(from as int, i as int)),
            whole as int == min_int(digits_value(cs@.subrange(from as int, i as int)) as int, 1000),
        decreases to - i,
    {
        let d = match char_digit(cs[i]) {
            None => {
                assert(!is_digit(cs@.subrange(from as int, to as int)[i - from]));
                return None;
            },
            Some(d) => d,
        };
        assert(cs@.subrange(from as int, i + 1).drop_last() =~= cs@.subrange(from as int, i as int));
        assert(cs@.subrange(from as int, i + 1).last() == cs@[i as int]);
        whole = if whole >= 1000 { 1000 } else if whole * 10 + (d as u32) >= 1000 { 1000 } else { whole * 10 + d as u32 };
        i += 1;
    }
    Some(whole)
}

/// `frac_nanos` of the digit string `cs[from..to]`.
fn nanos_of(cs: &Vec<char>, from: usize, to: usize) -> (r: u32)
    requires
        from <= to <= cs@.len(),
        all_digits(cs@.subrange(from as int, to as int)),
    ensures
        r as int == frac_nanos(cs@.subrange(from as int, to as int)),
        r <= 1_000_000_000,
{
    let ghost fp = cs@.subrange(from as int, to as int);
    let ghost nine = Seq::new(9, |x: int| if x < fp.len() { fp[x] } else { '0' });
    let mut nanos: u32 = 0;
    let mut x: usize = 0;
    while x < 9
        invariant
            x <= 9,
            from <= to <= cs@.len(),
            fp == cs@.subrange(from as int, to as int),
            all_digits(fp),
            nine == Seq::new(9, |y: int| if y < fp.len() { fp[y] } else { '0' }),
            nanos as int == digits_value(nine.subrange(0, x as int)),
            all_digits(nine.subrange(0, x as int)),
        decreases 9 - x,
    {
        let d: u8 = if x < to - from {
            assert(is_digit(fp[x as int]));
            match char_digit(cs[from + x]) { Some(d) => d, None => 0 }
        } else {
            0
        };
        assert(is_digit(nine[x as int]) && d as int == digit_of(nine[x as int]));
        assert(nine.subrange(0, x + 1).drop_last() =~= nine.subrange(0, x as int));
        proof {
            lemma_digits_value_bound(nine.subrange(0, x as int));
            reveal_with_fuel(pow10, 10);
            assert(pow10(x as nat) <= 100000000) by {
                if x == 0 {} else if x == 1 {} else if x == 2 {} else if x == 3 {} else if x == 4 {}
                else if x == 5 {} else if x == 6 {} else if x == 7 {} else {}
            }
        }
        nanos = nanos * 10 + d as u32;
        x += 1;
    }
    assert(nine.subrange(0, 9) =~= nine);
    proof {
        lemma_digits_value_bound(nine);
        reveal_with_fuel(pow10, 10);
    }
    if to - from > 9 {
        assert(cs@[from + 9] == fp[9]);
        assert(is_digit(fp[9]));
        match char_digit(cs[from + 9]) {
            Some(d) => if d >= 5 { nanos + 1 } else { nanos },
            None => nanos,
        }
    } else {
        nanos
    }
}

/// `gpsu_seconds` of `cs[start..end]`.
fn parse_seconds(cs: &Vec<char>, start: usize, end: usize) -> (r: Option<(i8, i32)>)
    requires
        start <= end <= cs@.len(),
    ensures
        match gpsu_seconds(cs@.subrange(start as int, end as int)) {
            Some((a, b)) => r matches Some((x, y)) && x == a && y == b,
            None => r is None,
        },
{
    let ghost t = cs@.subrange(start as int, end as int);
    let neg = start < end && cs[start] == '-';
    let mut b = start;
    if start < end && (cs[start] == '-' || cs[start] == '+') {
        b = start + 1;
    }
    let ghost body = cs@.subrange(b as int, end as int);
    assert(body =~= (if t.len() > 0 && (t[0] == '-' || t[0] == '+') { t.drop_first() } else { t }));
    let mut k = b;
    while k < end && cs[k] != '.'
        invariant
            b <= k <= end <= cs@.len(),
            forall|j: int| b <= j < k ==> cs@[j] != '.',
        decreases end - k,
    {
        k += 1;
    }
    proof {
        assert forall|j: int| 0 <= j < k - b implies body[j] != '.' by {
            assert(body[j] == cs@[b + j]);
        }
        lemma_first_dot(body, k - b);
    }
    assert(cs@.subrange(b as int, k as int) =~= body.subrange(0, first_dot(body)));
    let fs: usize = if k < end { k + 1 } else { end };
    assert(cs@.subrange(fs as int, end as int) =~= (if first_dot(body) < body.len() {
        body.subrange(first_dot(body) + 1, body.len() as int)
    } else {
        Seq::<char>::empty()
    }));
    let whole = match digits_capped(cs, b, k) {
        None => return None,
        Some(w) => w,
    };
    if digits_capped(cs, fs, end).is_none() {
        return None;
    }
    if k == b && fs == end {
        return None;
    }
    let nanos = nanos_of(cs, fs, end);
    if neg {
        let w: i8 = if whole >= 128 { -128 } else { -(whole as i8) };
        Some((w, -(nanos as i32)))
    } else {
        let w: i8 = if whole >= 127 { 127 } else { whole as i8 };
        Some((w, nanos as i32))
    }
}

/// Whether some item carries the `GPS5` key.
pub open spec fn has_gps5(items: Seq<KlvItem>) -> bool {
    exists|i: int| 0 <= i < items.len() && (#[trigger] items[i]).key == KEY_GPS5
}

/// The models of a run of borrowed items.
pub open spec fn klv_views<'a>(v: Seq<Klv<'a>>) -> Seq<KlvItem> {
    v.map_values(|k: Klv<'a>| k@)
}

/// The level of `data` holding the GPS stream: `data`'s own items when
/// one of them is `GPS5`, else the first found by searching its nested
/// containers in order; an unreadable level met on the way is the error.
pub open spec fn spec_find_gps(data: Seq<u8>) -> Result<Option<Seq<KlvItem>>, Seq<char>>
    decreases data.len(), 1int, 0int,
{
    match spec_items(data, 0) {
        Err(m) => Err(m),
        Ok(items) => if has_gps5(items) {
            Ok(Some(items))
        } else {
            spec_find_in(items, 0, data.len())
        },
    }
}

/// The search of `spec_find_gps` through the nested containers among
/// `items[i..]` (each strictly shorter than `bound`).
pub open spec fn spec_find_in(items: Seq<KlvItem>, i: int, bound: nat) -> Result<Option<Seq<KlvItem>>, Seq<char>>
    decreases bound, 0int, items.len() - i,
{
    if i < 0 || i >= items.len() {
        Ok(None)
    } else if items[i].type_char == 0 && items[i].value.len() < bound {
        match spec_find_gps(items[i].value) {
            Err(m) => Err(m),
            Ok(Some(f)) => Ok(Some(f)),
            Ok(None) => spec_find_in(items, i + 1, bound),
        }
    } else {
        spec_find_in(items, i + 1, bound)
    }
}

/// Locates the `STRM` container holding a `GPS5` key: the sibling
/// items at that level are `SCAL`/`GPSU`/`GPSF`/`GPSP`/`GPS5` for the
/// same stream, so once `GPS5` is found at a level, that level's items
/// are the answer. Other streams are skipped once ruled out.
pub fn find_gps_stream<'a>(items: KlvIter<'a>) -> (r: Result<Option<Vec<Klv<'a>>>, GpmfError>)
    requires
        items.pos() == 0,
        !items.failed(),
    ensures
        match (r, spec_find_gps(items.data())) {
            (Ok(None), Ok(None)) => true,
            (Ok(Some(v)), Ok(Some(f))) => klv_views(v@) == f,
            (Err(e), Err(m)) => e.message() == m,
            _ => false,
        },
    decreases items.data().len(),
{
    let ghost d = items.data();
    let mut it = items;
    let mut collected: Vec<Klv<'a>> = Vec::new();
    loop
        invariant
            d == items.data(),
            it.data() == d,
            forall|j: int| 0 <= j < collected@.len() ==> (#[trigger] collected@[j])@.value.len() < d.len(),
            match spec_items(d, 0) {
                Ok(all) => it.remaining() is Ok && all == klv_views(collected@) + it.remaining()->Ok_0,
                Err(m) => it.remaining() == Err::<Seq<KlvItem>, Seq<char>>(m),
            },
        ensures
            forall|j: int| 0 <= j < collected@.len() ==> (#[trigger] collected@[j])@.value.len() < d.len(),
            spec_items(d, 0) == Ok::<Seq<KlvItem>, Seq<char>>(klv_views(collected@)),
        decreases it.fuel(),
    {
        let ghost before = collected@;
        match it.next() {
            None => {
                assert(klv_views(collected@) + Seq::<KlvItem>::empty() =~= klv_views(collected@));
                break;
            },
            Some(Err(e)) => return Err(e),
            Some(Ok(k)) => {
                collected.push(k);
                assert(klv_views(collected@) =~= klv_views(before).push(k@));
            },
        }
    }
    let views = Ghost(klv_views(collected@));
    let mut i: usize = 0;
    while i < collected.len()
        invariant
            i <= collected@.len(),
            d == items.data(),
            views@ == klv_views(collected@),
            spec_items(d, 0) == Ok::<Seq<KlvItem>, Seq<char>>(views@),
            forall|j: int| 0 <= j < i ==> (#[trigger] views@[j]).key != KEY_GPS5,
        decreases collected@.len() - i,
    {
        if collected[i].key == KEY_GPS5 {
            assert(views@[i as int].key == KEY_GPS5);
            return Ok(Some(collected));
        }
        i += 1;
    }
    assert(!has_gps5(views@));
    let mut i: usize = 0;
    while i < collected.len()
        invariant
            i <= collected@.len(),
            d == items.data(),
            views@ == klv_views(collected@),
            spec_items(d, 0) == Ok::<Seq<KlvItem>, Seq<char>>(views@),
            !has_gps5(views@),
            forall|j: int| 0 <= j < collected@.len() ==> (#[trigger] collected@[j])@.value.len() < d.len(),
            spec_find_in(views@, 0, d.len()) == spec_find_in(views@, i as int, d.len()),
        decreases collected@.len() - i,
    {
        let k = collected[i];
        assert(views@[i as int] == k@);
        if k.is_nested() {
            match find_gps_stream(k.children()) {
                Err(e) => return Err(e),
                Ok(Some(f)) => return Ok(Some(f)),
                Ok(None) => {},
            }
        }
        i += 1;
    }
    Ok(None)
}

impl<'a> Klv<'a> {
    pub fn is_nested(&self) -> (b: bool)
        ensures
            b == (self.type_char == 0),
    {
        self.type_char == 0
    }

    /// Iterates this item's value bytes as a nested KLV stream (only
    /// meaningful when [`is_nested`](Self::is_nested) is true).
    pub fn children(&self) -> (it: KlvIter<'a>)
        ensures
            it.data() == self.value@,
            it.pos() == 0,
            !it.failed(),
    {
        KlvIter::new(self.value)
    }

    /// Decodes `value` as a sequence of fixed-width integer cells,
    /// widening whatever GPMF integer type `type_char` declares
    /// (`b`/`B`/`s`/`S`/`l`/`L`) to `i64`.
    pub fn cells_i64(&self) -> (r: Result<Vec<i64>, GpmfError>)
        ensures
            match (r, spec_cells(self@)) {
                (Ok(v), Ok(c)) => v@.len() == c.len() && forall|i: int| 0 <= i < c.len() ==> #[trigger] v@[i] == c[i],
                (Err(e), Err(m)) => e.message() == m,
                _ => false,
            },
    {
        let t = self.type_char;
        let width: usize = if t == 0x62 || t == 0x42 {
            1
        } else if t == 0x73 || t == 0x53 {
            2
        } else if t == 0x6c || t == 0x4c {
            4
        } else {
            let mut m = owned("unsupported numeric KLV type ");
            let shown = debug_char(t as char);
            push_str(&mut m, shown.as_str());
            return Err(GpmfError::Malformed(m));
        };
        let len = self.value.len();
        if len % width != 0 {
            return Err(GpmfError::Malformed(owned("KLV value length is not a multiple of its element width")));
        }
        let count = len / width;
        let signed = t == 0x62 || t == 0x73 || t == 0x6c;
        let mut cells: Vec<i64> = Vec::new();
        let mut i: usize = 0;
        while i < count
            invariant
                i <= count,
                width == cell_width(t),
                width == 1 || width == 2 || width == 4,
                signed == cell_signed(t),
                count == len / width,
                len == self.value@.len(),
                len % width == 0,
                t == self.type_char,
                cells@.len() == i,
                forall|k: int| 0 <= k < i ==> #[trigger] cells@[k] == cell_value(t, self.value@, k),
            decreases count - i,
        {
            assert((i + 1) * width <= len) by (nonlinear_arith)
                requires
                    i < count,
                    count == len / width,
                    len % width == 0,
                    1 <= width <= 4,
            ;
            assert(width * i + width <= len) by (nonlinear_arith)
                requires
                    (i + 1) * width <= len,
            ;
            let raw: i64 = if width == 1 {
                self.value[i] as i64
            } else if width == 2 {
                (self.value[2 * i] as i64) * 256 + (self.value[2 * i + 1] as i64)
            } else {
                read_u32(self.value, (4 * i) as u64) as i64
            };
            let half: i64 = if width == 1 { 128 } else if width == 2 { 32768 } else { 2147483648 };
            let v = if signed && raw >= half { raw - 2 * half } else { raw };
            cells.push(v);
            i += 1;
        }
        Ok(cells)
    }

    pub fn as_i32s(&self) -> (r: Result<Vec<i32>, GpmfError>)
        ensures
            match (r, spec_i32s(self@)) {
                (Ok(v), Ok(c)) => v@ == c,
                (Err(e), Err(m)) => e.message() == m,
                _ => false,
            },
    {
        let cells = match self.cells_i64() {
            Err(e) => return Err(e),
            Ok(c) => c,
        };
        let ghost c = spec_cells(self@)->Ok_0;
        let mut out: Vec<i32> = Vec::new();
        let mut i: usize = 0;
        while i < cells.len()
            invariant
                i <= cells@.len(),
                cells@.len() == c.len(),
                forall|k: int| 0 <= k < c.len() ==> #[trigger] cells@[k] == c[k],
                forall|k: int| 0 <= k < c.len() ==> -2147483648 <= #[trigger] c[k] <= 4294967295,
                out@ =~= c.subrange(0, i as int).map_values(|v: int| wrap_i32(v) as i32),
            decreases cells@.len() - i,
        {
            let v = cells[i];
            let w: i32 = if v > 2147483647 { (v - 4294967296) as i32 } else { v as i32 };
            out.push(w);
            i += 1;
        }
        assert(c.subrange(0, c.len() as int) =~= c);
        Ok(out)
    }

    pub fn as_u32(&self) -> (r: Result<u32, GpmfError>)
        ensures
            match (r, spec_u32(self@)) {
                (Ok(v), Ok(c)) => v == c,
                (Err(e), Err(m)) => e.message() == m,
                _ => false,
            },
    {
        let cells = match self.cells_i64() {
            Err(e) => return Err(e),
            Ok(c) => c,
        };
        if cells.len() == 0 {
            return Err(GpmfError::Malformed(owned("expected at least one value, got none")));
        }
        let v = cells[0];
        proof {
            lemma_cell_range(self.type_char, self.value@, 0);
        }
        Ok(if v < 0 { (v + 4294967296) as u32 } else { v as u32 })
    }

    /// Parses a `GPSU` value: `yymmddhhmmss.sss`, ASCII, interpreted as
    /// UTC.
    pub fn as_utc(&self) -> (r: Result<UtcInstant, GpmfError>)
        ensures
            match (r, spec_gpsu(self@.value)) {
                (Ok(t), Ok((secs, nanos))) => t.secs == secs && t.nanos == nanos,
                (Err(e), Err(m)) => e.message() == m,
                _ => false,
            },
    {
        let raw = match utf8_str(self.value) {
            None => return Err(GpmfError::Malformed(owned("GPSU is not valid UTF-8"))),
            Some(raw) => raw,
        };
        let cs = chars_of(raw);
        let mut end = cs.len();
        assert(cs@.subrange(0, end as int) =~= cs@);
        while end > 0 && cs[end - 1] == '\0'
            invariant
                end <= cs@.len(),
                trim_nul_end(cs@) == trim_nul_end(cs@.subrange(0, end as int)),
                forall|j: int| end <= j < cs@.len() ==> cs@[j] == '\0',
            decreases end,
        {
            assert(cs@.subrange(0, end as int).drop_last() =~= cs@.subrange(0, end - 1));
            end -= 1;
        }
        let ghost s = cs@.subrange(0, end as int);
        assert(trim_nul_end(cs@) == s) by {
            if end == cs@.len() {
                assert(s =~= cs@);
            }
        }
        let ascii = raw.is_ascii();
        assert(vstd::utf8::is_ascii_chars(s) == vstd::utf8::is_ascii_chars(cs@)) by {
            if vstd::utf8::is_ascii_chars(s) {
                assert forall|j: int| 0 <= j < cs@.len() implies '\0' <= #[trigger] cs@[j] <= '\u{7f}' by {
                    if j < end {
                        assert(s[j] == cs@[j]);
                    }
                }
            }
            if vstd::utf8::is_ascii_chars(cs@) {
                assert forall|j: int| 0 <= j < s.len() implies '\0' <= #[trigger] s[j] <= '\u{7f}' by {
                    assert(s[j] == cs@[j]);
                }
            }
        }
        if !ascii || end < 13 {
            let mut m = owned("malformed GPSU value ");
            let shown = debug_str(raw);
            push_str(&mut m, shown.as_str());
            return Err(GpmfError::Malformed(m));
        }
        assert(s.subrange(0, 2) =~= cs@.subrange(0, 2));
        assert(s.subrange(2, 4) =~= cs@.subrange(2, 4));
        assert(s.subrange(4, 6) =~= cs@.subrange(4, 6));
        assert(s.subrange(6, 8) =~= cs@.subrange(6, 8));
        assert(s.subrange(8, 10) =~= cs@.subrange(8, 10));
        assert(s.subrange(10, s.len() as int) =~= cs@.subrange(10, end as int));
        let fields = (two_digit_at(&cs, 0), two_digit_at(&cs, 2), two_digit_at(&cs, 4), two_digit_at(&cs, 6),
            two_digit_at(&cs, 8), parse_seconds(&cs, 10, end));
        match fields {
            (Some(yy), Some(month), Some(day), Some(hour), Some(minute), Some((second, nanos))) => {
                match utc_from_civil(2000 + yy as i16, month, day, hour, minute, second, nanos) {
                    Ok(t) => Ok(t),
                    Err(e) => {
                        let mut m = owned("invalid GPSU date/time ");
                        let shown = debug_str(raw);
                        push_str(&mut m, shown.as_str());
                        push_str(&mut m, ": ");
                        push_str(&mut m, e.as_str());
                        Err(GpmfError::Malformed(m))
                    },
                }
            },
            _ => {
                let mut m = owned("malformed GPSU value ");
                let shown = debug_str(raw);
                push_str(&mut m, shown.as_str());
                Err(GpmfError::Malformed(m))
            },
        }
    }
}

/// A raw `GPS5` cell and the `SCAL` divisor it is to be divided by:
/// the value is `raw / divisor` exactly.
#[derive(Debug, Clone, Copy, PartialEq, Eq)]
pub struct Scaled {
    pub raw: i32,
    pub divisor: i32,
}

/// One `GPS5` sample, in stream order: latitude and longitude in
/// degrees, altitude in meters, 2D/3D speed in m/s, each as its raw
/// cell over its divisor.
#[derive(Debug, Clone, Copy, PartialEq, Eq)]
pub struct GpsSample {
    pub lat: Scaled,
    pub lon: Scaled,
    pub alt: Scaled,
    pub speed_2d: Scaled,
    pub speed_3d: Scaled,
}

/// One telemetry payload's decoded GPS stream.
#[derive(Debug, Clone, PartialEq, Eq)]
pub struct GpsPayload {
    pub samples: Vec<GpsSample>,
    pub utc: Option<UtcInstant>,
    pub fix: u32,
    pub precision: u32,
}

/// The plain-value model of a [`GpsPayload`].
pub ghost struct GpsPayloadModel {
    pub samples: Seq<GpsSample>,
    pub utc: Option<(int, int)>,
    pub fix: u32,
    pub precision: u32,
}

pub open spec fn utc_view(u: Option<UtcInstant>) -> Option<(int, int)> {
    match u {
        Some(t) => Some((t.secs as int, t.nanos as int)),
        None => None,
    }
}

impl View for GpsPayload {
    type V = GpsPayloadModel;

    open spec fn view(&self) -> GpsPayloadModel {
        GpsPayloadModel { samples: self.samples@, utc: utc_view(self.utc), fix: self.fix, precision: self.precision }
    }
}

impl GpsPayload {
    /// Fix-quality gate: at least a 2D lock, and DOP (`GPSP` is DOP * 100)
    /// no worse than 5.0.
    pub fn usable(&self) -> (b: bool)
        ensures
            b == (self.fix >= 2 && self.precision <= 500),
    {
        self.fix >= 2 && self.precision <= 500
    }
}

/// What the fields of one GPS stream level set, in the order they came.
pub ghost struct GpsFields {
    pub scal: Option<Seq<i32>>,
    pub utc: Option<(int, int)>,
    pub fix: u32,
    pub precision: u32,
    pub raw: Option<Seq<i32>>,
}

/// Reads `fields[i..]` into `st`, each recognized key overwriting what
/// an earlier one of the same key set; the first unreadable value is
/// the error.
pub open spec fn scan_fields(fields: Seq<KlvItem>, i: int, st: GpsFields) -> Result<GpsFields, Seq<char>>
    decreases fields.len() - i,
{
    if i < 0 || i >= fields.len() {
        Ok(st)
    } else {
        let k = fields[i];
        let next: Result<GpsFields, Seq<char>> = if k.key == KEY_SCAL {
            match spec_i32s(k) {
                Ok(v) => Ok(GpsFields { scal: Some(v), utc: st.utc, fix: st.fix, precision: st.precision, raw: st.raw }),
                Err(m) => Err(m),
            }
        } else if k.key == KEY_GPSU {
            match spec_gpsu(k.value) {
                Ok(t) => Ok(GpsFields { scal: st.scal, utc: Some(t), fix: st.fix, precision: st.precision, raw: st.raw }),
                Err(m) => Err(m),
            }
        } else if k.key == KEY_GPSF {
            match spec_u32(k) {
                Ok(v) => Ok(GpsFields { scal: st.scal, utc: st.utc, fix: v, precision: st.precision, raw: st.raw }),
                Err(m) => Err(m),
            }
        } else if k.key == KEY_GPSP {
            match spec_u32(k) {
                Ok(v) => Ok(GpsFields { scal: st.scal, utc: st.utc, fix: st.fix, precision: v, raw: st.raw }),
                Err(m) => Err(m),
            }
        } else if k.key == KEY_GPS5 {
            match spec_i32s(k) {
                Ok(v) => Ok(GpsFields { scal: st.scal, utc: st.utc, fix: st.fix, precision: st.precision, raw: Some(v) }),
                Err(m) => Err(m),
            }
        } else {
            Ok(st)
        };
        match next {
            Err(m) => Err(m),
            Ok(st2) => scan_fields(fields, i + 1, st2),
        }
    }
}

/// The `j`-th sample of the raw `GPS5` cells, each over its divisor.
pub open spec fn sample_at(raw: Seq<i32>, scal: Seq<i32>, j: int) -> GpsSample {
    GpsSample {
        lat: Scaled { raw: raw[5 * j], divisor: scal[0] },
        lon: Scaled { raw: raw[5 * j + 1], divisor: scal[1] },
        alt: Scaled { raw: raw[5 * j + 2], divisor: scal[2] },
        speed_2d: Scaled { raw: raw[5 * j + 3], divisor: scal[3] },
        speed_3d: Scaled { raw: raw[5 * j + 4], divisor: scal[4] },
    }
}

/// What one GPMF payload's GPS stream decodes to: nothing when no level
/// carries `GPS5`; otherwise its samples, time, fix and precision
/// (precision `u32::MAX` and fix 0 when absent; divisors 1 without
/// `SCAL`), or why the stream is malformed.
pub open spec fn spec_gps_payload(data: Seq<u8>) -> Result<Option<GpsPayloadModel>, Seq<char>> {
    match spec_find_gps(data) {
        Err(m) => Err(m),
        Ok(None) => Ok(None),
        Ok(Some(fields)) => match scan_fields(fields, 0, no_gps_fields()) {
            Err(m) => Err(m),
            Ok(st) => finish_gps(st),
        },
    }
}

/// Whether one of the five divisors `GPS5` uses is zero.
pub open spec fn has_zero_divisor(scal: Seq<i32>) -> bool {
    exists|j: int| 0 <= j < 5 && scal[j] == 0
}

/// Nothing read yet: no divisors, time or samples, fix 0, precision
/// `u32::MAX`.
pub open spec fn no_gps_fields() -> GpsFields {
    GpsFields { scal: None, utc: None, fix: 0, precision: u32::MAX, raw: None }
}

/// The payload the fields of a GPS stream level make.
pub open spec fn finish_gps(st: GpsFields) -> Result<Option<GpsPayloadModel>, Seq<char>> {
    match st.raw {
        None => Ok(None),
        Some(raw) => if raw.len() % 5 != 0 {
            Err("GPS5 carries "@ + dec(raw.len()) + " value(s), not a multiple of 5"@)
        } else {
            let scal = match st.scal { Some(v) => v, None => seq![1i32, 1, 1, 1, 1] };
            if scal.len() < 5 {
                Err("SCAL has "@ + dec(scal.len()) + " divisor(s), GPS5 needs 5"@)
            } else if has_zero_divisor(scal) {
                Err("SCAL divisor is zero"@)
            } else {
                Ok(Some(GpsPayloadModel {
                    samples: Seq::new(raw.len() / 5, |j: int| sample_at(raw, scal, j)),
                    utc: st.utc,
                    fix: st.fix,
                    precision: st.precision,
                }))
            }
        },
    }
}

pub open spec fn vec_opt_view(v: Option<Vec<i32>>) -> Option<Seq<i32>> {
    match v {
        Some(x) => Some(x@),
        None => None,
    }
}

/// Parses one GPMF payload's GPS stream. `Ok(None)` means the payload
/// parsed cleanly but carried no `GPS5` stream; malformed KLV (truncated
/// values, lengths past the payload) is an error, never a panic.
pub fn parse_gps_payload(data: &[u8]) -> (r: Result<Option<GpsPayload>, GpmfError>)
    ensures
        match (r, spec_gps_payload(data@)) {
            (Ok(None), Ok(None)) => true,
            (Ok(Some(p)), Ok(Some(m))) => p@ == m,
            (Err(e), Err(m)) => e.message() == m,
            _ => false,
        },
{
    let fields = match find_gps_stream(KlvIter::new(data)) {
        Err(e) => return Err(e),
        Ok(None) => return Ok(None),
        Ok(Some(f)) => f,
    };
    let ghost views = klv_views(fields@);
    let ghost init = no_gps_fields();
    let mut scal: Option<Vec<i32>> = None;
    let mut utc: Option<UtcInstant> = None;
    let mut fix: u32 = 0;
    let mut precision: u32 = u32::MAX;
    let mut raw_gps5: Option<Vec<i32>> = None;
    let mut i: usize = 0;
    while i < fields.len()
        invariant
            i <= fields@.len(),
            views == klv_views(fields@),
            init == no_gps_fields(),
            spec_find_gps(data@) == Ok::<Option<Seq<KlvItem>>, Seq<char>>(Some(views)),
            scan_fields(views, 0, init) == scan_fields(views, i as int, GpsFields {
                scal: vec_opt_view(scal), utc: utc_view(utc), fix, precision, raw: vec_opt_view(raw_gps5),
            }),
        decreases fields@.len() - i,
    {
        let k = fields[i];
        assert(views[i as int] == k@);
        let ghost st = GpsFields {
            scal: vec_opt_view(scal), utc: utc_view(utc), fix, precision, raw: vec_opt_view(raw_gps5),
        };
        if k.key == KEY_SCAL {
            match k.as_i32s() {
                Err(e) => {
                    assert(scan_fields(views, i as int, st) == Err::<GpsFields, Seq<char>>(e.message()));
                    return Err(e);
                },
                Ok(v) => scal = Some(v),
            }
        } else if k.key == KEY_GPSU {
            match k.as_utc() {
                Err(e) => {
                    assert(scan_fields(views, i as int, st) == Err::<GpsFields, Seq<char>>(e.message()));
                    return Err(e);
                },
                Ok(t) => utc = Some(t),
            }
        } else if k.key == KEY_GPSF {
            match k.as_u32() {
                Err(e) => return Err(e),
                Ok(v) => fix = v,
            }
        } else if k.key == KEY_GPSP {
            match k.as_u32() {
                Err(e) => return Err(e),
                Ok(v) => precision = v,
            }
        } else if k.key == KEY_GPS5 {
            match k.as_i32s() {
                Err(e) => return Err(e),
                Ok(v) => raw_gps5 = Some(v),
            }
        }
        i += 1;
    }
    let ghost fin = GpsFields {
        scal: vec_opt_view(scal), utc: utc_view(utc), fix, precision, raw: vec_opt_view(raw_gps5),
    };
    assert(spec_gps_payload(data@) == finish_gps(fin));
    let raw = match raw_gps5 {
        None => return Ok(None),
        Some(raw) => raw,
    };
    if raw.len() % 5 != 0 {
        let m = str_dec_str("GPS5 carries ", raw.len() as u128, " value(s), not a multiple of 5");
        return Err(GpmfError::Malformed(m));
    }
    let scal = match scal {
        Some(v) => v,
        None => {
            let v: Vec<i32> = vec![1, 1, 1, 1, 1];
            assert(v@ =~= seq![1i32, 1, 1, 1, 1]);
            v
        },
    };
    if scal.len() < 5 {
        let m = str_dec_str("SCAL has ", scal.len() as u128, " divisor(s), GPS5 needs 5");
        return Err(GpmfError::Malformed(m));
    }
    if scal[0] == 0 || scal[1] == 0 || scal[2] == 0 || scal[3] == 0 || scal[4] == 0 {
        assert(exists|x: int| 0 <= x < 5 && scal@[x] == 0) by {
            if scal@[0] == 0 { assert(scal@[0] == 0); }
            else if scal@[1] == 0 { assert(scal@[1] == 0); }
            else if scal@[2] == 0 { assert(scal@[2] == 0); }
            else if scal@[3] == 0 { assert(scal@[3] == 0); }
            else { assert(scal@[4] == 0); }
        }
        assert(has_zero_divisor(scal@));
        return Err(GpmfError::Malformed(owned("SCAL divisor is zero")));
    }
    let count = raw.len() / 5;
    let mut samples: Vec<GpsSample> = Vec::new();
    let mut j: usize = 0;
    while j < count
        invariant
            j <= count,
            count == raw.len() / 5,
            raw.len() % 5 == 0,
            scal@.len() >= 5,
            samples@.len() == j,
            forall|x: int| 0 <= x < j ==> #[trigger] samples@[x] == sample_at(raw@, scal@, x),
        decreases count - j,
    {
        assert(5 * j + 5 <= raw.len()) by (nonlinear_arith)
            requires
                j < count,
                count == raw.len() / 5,
                raw.len() % 5 == 0,
        ;
        let b = 5 * j;
        samples.push(GpsSample {
            lat: Scaled { raw: raw[b], divisor: scal[0] },
            lon: Scaled { raw: raw[b + 1], divisor: scal[1] },
            alt: Scaled { raw: raw[b + 2], divisor: scal[2] },
            speed_2d: Scaled { raw: raw[b + 3], divisor: scal[3] },
            speed_3d: Scaled { raw: raw[b + 4], divisor: scal[4] },
        });
        j += 1;
    }
    let p = GpsPayload { samples, utc, fix, precision };
    assert(p@.samples =~= Seq::new(raw@.len() / 5, |x: int| sample_at(raw@, scal@, x)));
    Ok(Some(p))
}

} // verus!

