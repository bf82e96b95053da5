//! The digits `{:.1}` prints for a quotient the standard library works
//! out in binary floating point, modeled in whole numbers: a whole
//! number taken to the nearest 64-bit binary float, a quotient of two
//! such numbers taken to the nearest one (53 significant binary digits,
//! ties to even), and that value rounded to tenths by its exact decimal
//! value, ties to even.

use vstd::prelude::*;

verus! {

/// `2^k`.
pub open spec fn two_pow(k: nat) -> nat
    decreases k,
{
    if k == 0 { 1 } else { 2 * two_pow((k - 1) as nat) }
}

/// The number of binary digits of `n` (none for 0).
pub open spec fn bit_len(n: nat) -> nat
    decreases n,
{
    if n == 0 { 0 } else { 1 + bit_len(n / 2) }
}

/// `n / d` rounded to the nearest whole number, ties to the even one.
pub open spec fn div_half_even(n: nat, d: nat) -> nat
    recommends
        d > 0,
{
    let q = n / d;
    let r = n % d;
    if 2 * r > d || (2 * r == d && q % 2 == 1) { q + 1 } else { q }
}

/// The binary float nearest the whole number `n` (what `n as f64`
/// gives), itself a whole number: `n` when it has at most 53 binary
/// digits, else `n` rounded to 53 significant binary digits, ties to
/// even.
pub open spec fn f64_of_nat(n: nat) -> nat {
    if bit_len(n) <= 53 {
        n
    } else {
        let p = two_pow((bit_len(n) - 53) as nat);
        div_half_even(n, p) * p
    }
}

/// How many doublings bring `n` up to `lo`: with `lo` equal to
/// `d * 2^52` and `0 < n / d < 2^53`, the shift that puts `n / d` times
/// `2^shift` in `[2^52, 2^53)`, where its integer part is the 53-digit
/// significand.
pub open spec fn scale_shift(n: nat, lo: nat) -> nat
    decreases (if n < lo { lo - n } else { 0int }),
{
    if n == 0 || n >= lo { 0 } else { 1 + scale_shift(2 * n, lo) }
}

/// The tenths `{:.1}` prints for `f as f64 / d as f64`, where `f` is
/// already a binary float and `f / d < 2^53`: the quotient taken to the
/// nearest binary float (`m / 2^shift`, `m` rounded half to even), then
/// that exact value rounded to tenths, ties to even.
pub open spec fn quotient_tenths(f: nat, d: nat) -> nat {
    let p = two_pow(scale_shift(f, d * two_pow(52)));
    div_half_even(10 * div_half_even(f * p, d), p)
}

proof fn lemma_two_pow_add(a: nat, b: nat)
    ensures
        two_pow(a + b) == two_pow(a) * two_pow(b),
    decreases a,
{
    if a > 0 {
        let a1 = (a - 1) as nat;
        lemma_two_pow_add(a1, b);
        assert(a1 + b + 1 == a + b);
        assert(two_pow(a + b) == 2 * two_pow(a1 + b));
        assert(two_pow(a) == 2 * two_pow(a1));
        let x = two_pow(a1);
        let y = two_pow(b);
        assert(2 * (x * y) == (2 * x) * y) by (nonlinear_arith);
    } else {
        assert(a + b == b);
        assert(two_pow(a) == 1);
    }
}

/// The powers of two the arithmetic below names.
proof fn lemma_two_pow_values()
    ensures
        two_pow(11) == 2048,
        two_pow(52) == 4503599627370496nat,
        two_pow(64) == 18446744073709551616nat,
        two_pow(100) == 1267650600228229401496703205376nat,
{
    assert(two_pow(10) == 1024) by {
        reveal_with_fuel(two_pow, 11);
    }
    lemma_two_pow_add(10, 1);
    assert(two_pow(1) == 2);
    lemma_two_pow_add(10, 10);
    lemma_two_pow_add(20, 10);
    lemma_two_pow_add(30, 10);
    lemma_two_pow_add(40, 10);
    lemma_two_pow_add(50, 2);
    assert(two_pow(2) == 4) by {
        reveal_with_fuel(two_pow, 3);
    }
    lemma_two_pow_add(50, 14);
    assert(two_pow(14) == 16384) by {
        reveal_with_fuel(two_pow, 15);
    }
    assert(two_pow(20) == 1048576);
    assert(two_pow(30) == 1073741824);
    assert(two_pow(40) == 1099511627776nat);
    assert(two_pow(50) == 1125899906842624nat);
    lemma_two_pow_add(50, 50);
    assert(two_pow(100) == 1125899906842624nat * 1125899906842624nat);
}

proof fn lemma_two_pow_mono(i: nat, j: nat)
    requires
        i <= j,
    ensures
        two_pow(i) <= two_pow(j),
        two_pow(i) >= 1,
    decreases j,
{
    if j > i {
        lemma_two_pow_mono(i, (j - 1) as nat);
    } else if i > 0 {
        lemma_two_pow_mono((i - 1) as nat, (i - 1) as nat);
    }
}

proof fn lemma_bit_len_bound(n: nat, j: nat)
    requires
        n < two_pow(j),
    ensures
        bit_len(n) <= j,
    decreases j,
{
    if n > 0 {
        lemma_bit_len_bound(n / 2, (j - 1) as nat);
    }
}

fn two_pow_exec(k: u32) -> (p: u128)
    requires
        k <= 100,
    ensures
        p == two_pow(k as nat),
{
    let mut p: u128 = 1;
    let mut i: u32 = 0;
    while i < k
        invariant
            i <= k <= 100,
            p == two_pow(i as nat),
        decreases k - i,
    {
        proof {
            lemma_two_pow_mono((i + 1) as nat, 100);
            lemma_two_pow_values();
        }
        p = p * 2;
        i = i + 1;
    }
    p
}

fn div_half_even_exec(n: u128, d: u128) -> (r: u128)
    requires
        0 < d <= 0x1_0000_0000_0000_0000_0000_0000_0000,
        n < u128::MAX,
    ensures
        r == div_half_even(n as nat, d as nat),
        r <= n / d + 1,
{
    let q = n / d;
    let r = n % d;
    if 2 * r > d || (2 * r == d && q % 2 == 1) { q + 1 } else { q }
}

/// `n as f64` as a whole number.
pub fn f64_of_u64(n: u64) -> (r: u128)
    ensures
        r == f64_of_nat(n as nat),
        r <= 0x1_0000_0000_0000_0800,
{
    proof {
        lemma_two_pow_values();
        lemma_bit_len_bound(n as nat, 64);
    }
    let mut x: u64 = n;
    let mut len: u32 = 0;
    while x > 0
        invariant
            len as nat + bit_len(x as nat) == bit_len(n as nat),
            bit_len(n as nat) <= 64,
        decreases x,
    {
        x = x / 2;
        len = len + 1;
    }
    if len <= 53 {
        n as u128
    } else {
        let p = two_pow_exec(len - 53);
        proof {
            lemma_two_pow_mono((len - 53) as nat, 11);
            lemma_two_pow_values();
        }
        let nn: u128 = n as u128;
        let q = div_half_even_exec(nn, p);
        assert(q * p <= nn + p) by (nonlinear_arith)
            requires
                q <= nn / p + 1,
                p > 0,
        ;
        q * p
    }
}

/// The tenths `{:.1}` prints for `f as f64 / d as f64`, `f` a binary
/// float below `2^65`.
pub fn quotient_tenths_exec(f: u128, d: u128) -> (t: u128)
    requires
        0 < d <= 86400,
        f <= 0x1_0000_0000_0000_0800,
    ensures
        t == quotient_tenths(f as nat, d as nat),
{
    proof {
        lemma_two_pow_values();
    }
    let lo: u128 = d * 4503599627370496;
    assert(lo <= 389111007804810854400) by (nonlinear_arith)
        requires
            lo == d * 4503599627370496,
            d <= 86400,
    ;
    let mut n: u128 = f;
    let mut p: u128 = 1;
    let ghost mut sh: nat = 0;
    assert(two_pow(0) == 1);
    while n > 0 && n < lo
        invariant
            lo == d * two_pow(52),
            lo <= 389111007804810854400,
            0 < d <= 86400,
            f <= 0x1_0000_0000_0000_0800,
            n == f * p,
            p == two_pow(sh),
            p >= 1,
            n < 2 * lo + 0x1_0000_0000_0000_0800,
            f > 0 ==> p <= n,
            scale_shift(f as nat, lo as nat) == sh + scale_shift(n as nat, lo as nat),
        decreases 2 * lo + 0x1_0000_0000_0000_0800 - n,
    {
        assert(2 * n == f * (2 * p)) by (nonlinear_arith)
            requires
                n == f * p,
        ;
        n = 2 * n;
        p = 2 * p;
        proof {
            sh = sh + 1;
        }
    }
    assert(scale_shift(n as nat, lo as nat) == 0);
    let m = div_half_even_exec(n, d);
    assert(n / d <= n) by (nonlinear_arith)
        requires
            d >= 1,
    ;
    let t = div_half_even_exec(10 * m, p);
    t
}

} // verus!
