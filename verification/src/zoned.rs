//! How an instant reads in a time zone. The zone contributes the UTC
//! offset it applies at that instant (`clock::zone_offset_at`); the text
//! is `jiff`'s strftime at that fixed offset (`clock::strftime_at_offset`),
//! which for a format naming neither `%Z` nor `%Q` is the text `jiff`
//! writes in the zone itself.

use vstd::prelude::*;
use crate::clock::{
    instant_valid, max_zone_offset_secs, strftime_at_offset, strftime_fixed, timestamp_display, timestamp_text,
    zone_offset_at, UtcInstant,
};
use crate::text::chars_of;

verus! {

/// Whether `off` is an offset a zone can have.
pub open spec fn offset_ok(off: int) -> bool {
    -max_zone_offset_secs() <= off <= max_zone_offset_secs()
}

/// The RFC 3339 form every report shows an instant in.
pub open spec fn full_format() -> Seq<char> {
    "%Y-%m-%dT%H:%M:%S%:z"@
}

/// The date-and-minute form of a plan or inventory line.
pub open spec fn short_format() -> Seq<char> {
    "%Y-%m-%d %H:%M"@
}

/// What a report shows for instant `t` in format `fmt` at offset `off`:
/// `jiff`'s strftime text, or the instant's own display form when
/// strftime refuses the format.
pub open spec fn stamp_text(fmt: Seq<char>, t: UtcInstant, off: int) -> Seq<char> {
    match strftime_fixed(fmt, t.secs as int, t.nanos as int, off) {
        Ok(s) => s,
        Err(_) => timestamp_display(t.secs as int, t.nanos as int),
    }
}

/// An instant in RFC 3339 form at offset `off`.
pub open spec fn full_text(t: UtcInstant, off: int) -> Seq<char> {
    stamp_text(full_format(), t, off)
}

/// An instant's local date and minute at offset `off`.
pub open spec fn short_text(t: UtcInstant, off: int) -> Seq<char> {
    stamp_text(short_format(), t, off)
}

/// Whether `s` is `t` in RFC 3339 form in some zone.
pub open spec fn full_in_some_zone(t: UtcInstant, s: Seq<char>) -> bool {
    exists|off: int| offset_ok(off) && s == #[trigger] full_text(t, off)
}

/// Whether a strftime format names neither `%Z` (the zone's
/// abbreviation) nor `%Q` (its name): the only directives whose text
/// depends on the zone beyond its offset. Any `Z` or `Q` counts.
pub open spec fn zone_free(fmt: Seq<char>) -> bool {
    !fmt.contains('Z') && !fmt.contains('Q')
}

/// Whether `fmt` is zone-free.
pub fn is_zone_free(fmt: &str) -> (b: bool)
    ensures
        b == zone_free(fmt@),
{
    let cs = chars_of(fmt);
    let mut i: usize = 0;
    while i < cs.len()
        invariant
            i <= cs@.len(),
            cs@ == fmt@,
            forall|k: int| 0 <= k < i ==> cs@[k] != 'Z' && cs@[k] != 'Q',
        decreases cs@.len() - i,
    {
        if cs[i] == 'Z' || cs[i] == 'Q' {
            assert(fmt@[i as int] == cs[i as int]);
            return false;
        }
        i += 1;
    }
    proof {
        assert forall|c: char| (c == 'Z' || c == 'Q') implies !fmt@.contains(c) by {
            if fmt@.contains(c) {
                let k = choose|k: int| 0 <= k < fmt@.len() && fmt@[k] == c;
                assert(cs@[k] == c);
            }
        }
    }
    true
}

/// An instant in format `fmt` at a UTC offset: `jiff`'s text, or the
/// instant's display form when `jiff` refuses the format.
pub fn render_stamp(fmt: &str, t: UtcInstant, off: i32) -> (s: String)
    requires
        instant_valid(t),
        offset_ok(off as int),
    ensures
        s@ == stamp_text(fmt@, t, off as int),
{
    match strftime_at_offset(fmt, t, off) {
        Ok(s) => s,
        Err(_) => timestamp_text(t),
    }
}

/// An instant in RFC 3339 form at a UTC offset.
pub fn render_full(t: UtcInstant, off: i32) -> (s: String)
    requires
        instant_valid(t),
        offset_ok(off as int),
    ensures
        s@ == full_text(t, off as int),
{
    render_stamp("%Y-%m-%dT%H:%M:%S%:z", t, off)
}

/// An instant's local date and minute at a UTC offset.
pub fn render_short(t: UtcInstant, off: i32) -> (s: String)
    requires
        instant_valid(t),
        offset_ok(off as int),
    ensures
        s@ == short_text(t, off as int),
{
    render_stamp("%Y-%m-%d %H:%M", t, off)
}

/// The offset `tz` applies at a valid instant.
pub fn zone_offset(t: UtcInstant, tz: &jiff::tz::TimeZone) -> (off: i32)
    requires
        instant_valid(t),
    ensures
        offset_ok(off as int),
{
    match zone_offset_at(t, tz) {
        Ok(o) => o,
        Err(_) => {
            proof {
                assert(false);
            }
            0
        },
    }
}

/// A valid instant in RFC 3339 form in `tz`: its form at the offset the
/// zone applies then.
pub fn full_in_zone(t: UtcInstant, tz: &jiff::tz::TimeZone) -> (s: String)
    requires
        instant_valid(t),
    ensures
        full_in_some_zone(t, s@),
{
    let off = zone_offset(t, tz);
    render_full(t, off)
}

} // verus!
