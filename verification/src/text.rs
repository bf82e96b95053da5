//! Small verified text-building helpers shared by the renderers and
//! error messages: decimal rendering of integers and appending to a
//! `String` with its contents tracked as a `Seq<char>`.

use vstd::prelude::*;
use vstd::string::StrSliceExecFns;
use crate::clock::zero_padded;

verus! {

/// The ASCII digit for `d` (0..=9).
pub open spec fn digit_char(d: nat) -> char {
    if d == 0 { '0' }
    else if d == 1 { '1' }
    else if d == 2 { '2' }
    else if d == 3 { '3' }
    else if d == 4 { '4' }
    else if d == 5 { '5' }
    else if d == 6 { '6' }
    else if d == 7 { '7' }
    else if d == 8 { '8' }
    else { '9' }
}

/// The shortest decimal rendering of `n`, as Rust's `Display` prints it.
pub open spec fn dec(n: nat) -> Seq<char>
    decreases n,
{
    if n < 10 {
        seq![digit_char(n)]
    } else {
        dec(n / 10).push(digit_char(n % 10))
    }
}

fn digit(d: u8) -> (c: char)
    requires
        d < 10,
    ensures
        c == digit_char(d as nat),
{
    if d == 0 { '0' }
    else if d == 1 { '1' }
    else if d == 2 { '2' }
    else if d == 3 { '3' }
    else if d == 4 { '4' }
    else if d == 5 { '5' }
    else if d == 6 { '6' }
    else if d == 7 { '7' }
    else if d == 8 { '8' }
    else { '9' }
}

/// Appends one character to `s` (`String::push`).
#[verifier::external_body]
pub(crate) fn push_char(s: &mut String, c: char)
    ensures
        final(s)@ == old(s)@.push(c),
{
    s.push(c);
}

/// Appends `t` to `s`.
pub fn push_str(s: &mut String, t: &str)
    ensures
        final(s)@ == old(s)@ + t@,
{
    s.append(t);
}

/// Appends the decimal rendering of `n` to `s`.
pub fn push_dec(s: &mut String, n: u128)
    ensures
        final(s)@ == old(s)@ + dec(n as nat),
    decreases n,
{
    if n < 10 {
        push_char(s, digit(n as u8));
        assert(dec(n as nat) == seq![digit_char(n as nat)]);
    } else {
        let ghost s0 = s@;
        push_dec(s, n / 10);
        push_char(s, digit((n % 10) as u8));
        assert(s@ =~= s0 + dec(n as nat));
    }
}

/// Copies `t` into a fresh `String`.
pub fn owned(t: &str) -> (s: String)
    ensures
        s@ == t@,
{
    String::from_str(t)
}

/// Concatenates `a` and the decimal rendering of `n` into a fresh `String`.
pub fn str_dec(a: &str, n: u128) -> (s: String)
    ensures
        s@ == a@ + dec(n as nat),
{
    let mut s = owned(a);
    push_dec(&mut s, n);
    s
}

/// Concatenates `a`, the decimal rendering of `n`, and `b`.
pub fn str_dec_str(a: &str, n: u128, b: &str) -> (s: String)
    ensures
        s@ == a@ + dec(n as nat) + b@,
{
    let mut s = owned(a);
    push_dec(&mut s, n);
    push_str(&mut s, b);
    s
}


/// What `format!("{:?}", String::from_utf8_lossy(bytes))` renders:
/// the bytes decoded with invalid sequences replaced, quoted and
/// escaped the way `Debug` escapes a string.
pub uninterp spec fn lossy_debug(bytes: Seq<u8>) -> Seq<char>;

/// `Debug` of the lossily decoded bytes (`String::from_utf8_lossy`).
#[verifier::external_body]
pub(crate) fn debug_lossy(bytes: &[u8]) -> (s: String)
    ensures
        s@ == lossy_debug(bytes@),
{
    format!("{:?}", String::from_utf8_lossy(bytes))
}

/// What `format!("{:?}", c)` renders for a character: quoted, with
/// `Debug`'s escapes.
pub uninterp spec fn char_debug(c: char) -> Seq<char>;

/// `Debug` of one character.
#[verifier::external_body]
pub(crate) fn debug_char(c: char) -> (s: String)
    ensures
        s@ == char_debug(c),
{
    format!("{:?}", c)
}

/// What `format!("{:?}", s)` renders for a string: quoted, with
/// `Debug`'s escapes.
pub uninterp spec fn str_debug(s: Seq<char>) -> Seq<char>;

/// `Debug` of a string.
#[verifier::external_body]
pub(crate) fn debug_str(s: &str) -> (r: String)
    ensures
        r@ == str_debug(s@),
{
    format!("{:?}", s)
}

/// `std::str::from_utf8`: succeeds exactly on valid UTF-8 and then
/// yields the decoded characters.
#[verifier::external_body]
pub(crate) fn utf8_str(bytes: &[u8]) -> (r: Option<&str>)
    ensures
        r is Some <==> vstd::utf8::valid_utf8(bytes@),
        r matches Some(s) ==> s@ == vstd::utf8::decode_utf8(bytes@),
{
    std::str::from_utf8(bytes).ok()
}

/// The characters of `s`, collected so they can be indexed.
pub fn chars_of(s: &str) -> (v: Vec<char>)
    ensures
        v@ == s@,
{
    let mut v: Vec<char> = Vec::new();
    let n = s.unicode_len();
    let mut i: usize = 0;
    while i < n
        invariant
            i <= n,
            n == s@.len(),
            v@ =~= s@.subrange(0, i as int),
        decreases n - i,
    {
        v.push(s.get_char(i));
        i += 1;
    }
    v
}

/// Appends every character of `cs` to `s`.
pub fn push_chars(s: &mut String, cs: &Vec<char>)
    ensures
        final(s)@ == old(s)@ + cs@,
{
    let ghost s0 = s@;
    let mut i: usize = 0;
    while i < cs.len()
        invariant
            i <= cs@.len(),
            s@ =~= s0 + cs@.subrange(0, i as int),
        decreases cs@.len() - i,
    {
        push_char(s, cs[i]);
        i += 1;
    }
}

/// A fresh `String` holding the characters of `cs`.
pub fn string_of(cs: &Vec<char>) -> (s: String)
    ensures
        s@ == cs@,
{
    let mut s = String::new();
    push_chars(&mut s, cs);
    assert(s@ =~= cs@);
    s
}

/// Whether `c` is an ASCII decimal digit.
pub open spec fn is_digit(c: char) -> bool {
    '0' <= c <= '9'
}

/// The value of the ASCII digit `c`.
pub open spec fn digit_of(c: char) -> int {
    c as int - 48
}

/// Whether every character of `s` is an ASCII digit.
pub open spec fn all_digits(s: Seq<char>) -> bool {
    forall|i: int| 0 <= i < s.len() ==> is_digit(#[trigger] s[i])
}

/// The number the digit string `s` spells (0 for the empty string).
pub open spec fn digits_value(s: Seq<char>) -> nat
    decreases s.len(),
{
    if s.len() == 0 {
        0
    } else {
        (digits_value(s.drop_last()) * 10 + digit_of(s.last())) as nat
    }
}

/// Ten to the `n`.
pub open spec fn pow10(n: nat) -> nat
    decreases n,
{
    if n == 0 { 1 } else { 10 * pow10((n - 1) as nat) }
}

/// A digit string of length `n` spells a number below `10^n`.
pub proof fn lemma_digits_value_bound(s: Seq<char>)
    requires
        all_digits(s),
    ensures
        digits_value(s) < pow10(s.len()),
    decreases s.len(),
{
    if s.len() > 0 {
        assert(is_digit(s[s.len() - 1]));
        lemma_digits_value_bound(s.drop_last());
    }
}

/// The digit value of `c`, if it is an ASCII digit.
pub fn char_digit(c: char) -> (r: Option<u8>)
    ensures
        r is Some <==> is_digit(c),
        r matches Some(d) ==> d as int == digit_of(c) && d < 10,
{
    let n = c as u32;
    if 48 <= n && n <= 57 {
        Some((n - 48) as u8)
    } else {
        None
    }
}

/// Whether `a` and `b` hold the same characters.
pub fn same_text(a: &str, b: &str) -> (r: bool)
    ensures
        r == (a@ == b@),
{
    let x = chars_of(a);
    let y = chars_of(b);
    if x.len() != y.len() {
        return false;
    }
    let mut i: usize = 0;
    while i < x.len()
        invariant
            i <= x@.len() == y@.len(),
            x@ == a@,
            y@ == b@,
            forall|k: int| 0 <= k < i ==> x@[k] == y@[k],
        decreases x@.len() - i,
    {
        if x[i] != y[i] {
            assert(x@[i as int] != y@[i as int]);
            return false;
        }
        i += 1;
    }
    assert(x@ =~= y@);
    true
}

/// `cs[from..to]` as a fresh vector.
pub fn sub_chars(cs: &Vec<char>, from: usize, to: usize) -> (r: Vec<char>)
    requires
        from <= to <= cs@.len(),
    ensures
        r@ == cs@.subrange(from as int, to as int),
{
    let mut r: Vec<char> = Vec::new();
    let mut i = from;
    while i < to
        invariant
            from <= i <= to <= cs@.len(),
            r@ =~= cs@.subrange(from as int, i as int),
        decreases to - i,
    {
        r.push(cs[i]);
        i += 1;
    }
    r
}


proof fn lemma_dec_step(n: nat)
    ensures
        n < 10 ==> dec(n).len() == 1,
        n >= 10 ==> dec(n).len() == dec(n / 10).len() + 1,
{
}

proof fn lemma_dec_len_le(n: nat, k: nat)
    requires
        k >= 1,
        n < pow10(k),
    ensures
        dec(n).len() <= k,
    decreases k,
{
    lemma_dec_step(n);
    if n >= 10 {
        let p = pow10((k - 1) as nat);
        assert(pow10(k) == 10 * p);
        if k == 1 {
            assert(pow10(0) == 1);
        }
        assert(n / 10 < p) by (nonlinear_arith)
            requires
                n < 10 * p,
        ;
        lemma_dec_len_le(n / 10, (k - 1) as nat);
    }
}

fn dec_len(n: u64) -> (k: u64)
    requires
        n < 1000000,
    ensures
        k == dec(n as nat).len(),
        1 <= k <= 6,
{
    proof {
        assert(pow10(6) == 1000000) by {
            reveal_with_fuel(pow10, 7);
        }
        lemma_dec_len_le(n as nat, 6);
        lemma_dec_step(n as nat);
    }
    let mut x = n;
    let mut k: u64 = 1;
    while x >= 10
        invariant
            dec(n as nat).len() == k - 1 + dec(x as nat).len(),
            dec(n as nat).len() <= 6,
            k >= 1,
            dec(x as nat).len() >= 1,
        decreases x,
    {
        proof {
            lemma_dec_step(x as nat);
            lemma_dec_step((x / 10) as nat);
        }
        x = x / 10;
        k = k + 1;
    }
    proof {
        lemma_dec_step(x as nat);
    }
    k
}

/// Appends `n` zero-padded to `width` digits.
pub(crate) fn push_padded(out: &mut String, n: u64, width: u64)
    requires
        n < 1000000,
        width <= 6,
    ensures
        final(out)@ == old(out)@ + zero_padded(n as nat, width as nat),
{
    let ghost start = out@;
    let k = dec_len(n);
    let mut i = k;
    while i < width
        invariant
            k <= i,
            k == dec(n as nat).len(),
            i <= width || i == k,
            out@ == start + Seq::new((i - k) as nat, |j: int| '0'),
        decreases width - i,
    {
        push_char(out, '0');
        assert(out@ =~= start + Seq::new((i + 1 - k) as nat, |j: int| '0'));
        i = i + 1;
    }
    let ghost zeros = out@;
    push_dec(out, n as u128);
    proof {
        if k < width {
            assert(i == width);
            assert(zeros =~= start + Seq::new((width - k) as nat, |j: int| '0'));
            assert(out@ =~= start + (Seq::new((width - k) as nat, |j: int| '0') + dec(n as nat)));
        } else {
            assert(zeros =~= start);
            assert(out@ =~= start + dec(n as nat));
        }
    }
}

} // verus!
