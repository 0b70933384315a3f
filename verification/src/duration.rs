//! Human-readable durations.
//!
//! A duration of a second or more is shown as seconds with one decimal, the way
//! `format!("{:.1}s", ms as f64 / 1000.0)` shows it: `ms` is rounded to the
//! nearest binary64 value, divided by 1000 with rounding to the nearest binary64
//! value, and that value is printed to one decimal, ties to even. The functions
//! here compute the same digits with integer arithmetic.

use vstd::prelude::*;
use vstd::arithmetic::power2::{pow2, lemma_pow2_pos, lemma_pow2_unfold, lemma_pow2_adds, lemma2_to64};

use crate::text::{decimal, digit_char, push_decimal_str, push_str};

verus! {

broadcast use vstd::string::group_string_axioms;

/// Number of binary digits of `n` (0 for 0).
pub open spec fn bit_length(n: nat) -> nat
    decreases n,
{
    if n == 0 {
        0
    } else {
        1 + bit_length(n / 2)
    }
}

/// `num / den` rounded to the nearest integer, ties to the even one.
pub open spec fn round_half_even(num: nat, den: nat) -> nat {
    let q = num / den;
    let r = num % den;
    if 2 * r < den {
        q
    } else if 2 * r > den {
        q + 1
    } else if q % 2 == 0 {
        q
    } else {
        q + 1
    }
}

/// The binary64 value nearest to `n`, as `(mantissa, shift)` with value
/// `mantissa * 2^shift` (ties to even mantissa).
pub open spec fn f64_of_nat(n: nat) -> (nat, nat) {
    if bit_length(n) <= 53 {
        (n, 0)
    } else {
        let k = (bit_length(n) - 53) as nat;
        (round_half_even(n, pow2(k)), k)
    }
}

/// For `ms >= 1000`: the tenths of a second that `{:.1}` prints for
/// `ms as f64 / 1000.0`. With `v` the binary64 value of `ms`, the quotient
/// `v / 1000` has binary exponent `e`; it is rounded to 53 significant bits,
/// and that binary value is rounded to tenths, ties to even.
pub open spec fn seconds_tenths(ms: nat) -> nat {
    let (m, k) = f64_of_nat(ms);
    let v = m * pow2(k);
    let e = (bit_length(v / 1000) - 1) as nat;
    if e <= 52 {
        let p = pow2((52 - e) as nat);
        round_half_even(10 * round_half_even(v * p, 1000), p)
    } else {
        let p = pow2((e - 52) as nat);
        10 * round_half_even(v, 1000 * p) * p
    }
}

/// The text shown for a duration of `ms` milliseconds: an em-dash for 0,
/// milliseconds below one second, else seconds with one decimal.
pub open spec fn duration_text(ms: nat) -> Seq<char> {
    if ms == 0 {
        "\u{2014}"@
    } else if ms < 1000 {
        decimal(ms) + "ms"@
    } else {
        let t = seconds_tenths(ms);
        decimal(t / 10) + seq!['.', digit_char(t % 10)] + "s"@
    }
}

/// `bit_length(n)` bounds `n` by powers of two.
proof fn lemma_bit_length(n: nat)
    ensures
        n < pow2(bit_length(n)),
        n > 0 ==> pow2((bit_length(n) - 1) as nat) <= n,
    decreases n,
{
    if n > 0 {
        lemma_bit_length(n / 2);
        lemma_pow2_unfold(bit_length(n));
        if n / 2 > 0 {
            lemma_pow2_unfold((bit_length(n) - 1) as nat);
        } else {
            assert(pow2(0) == 1) by {
                lemma_pow2_pos(0);
                vstd::arithmetic::power2::lemma_pow2(0);
                vstd::arithmetic::power::lemma_pow0(2);
            }
        }
    } else {
        lemma_pow2_pos(0);
    }
}

/// Numbers below `2^k` have at most `k` binary digits.
proof fn lemma_bit_length_le(n: nat, k: nat)
    requires
        n < pow2(k),
    ensures
        bit_length(n) <= k,
    decreases k,
{
    if n > 0 {
        if k == 0 {
            assert(pow2(0) == 1) by {
                vstd::arithmetic::power2::lemma_pow2(0);
                vstd::arithmetic::power::lemma_pow0(2);
            }
        } else {
            lemma_pow2_unfold(k);
            lemma_bit_length_le(n / 2, (k - 1) as nat);
        }
    }
}

/// `2^128` exceeds every `u128`.
proof fn lemma_u128_below_pow2_128(n: u128)
    ensures
        n < pow2(128),
{
    lemma2_to64();
    lemma_pow2_adds(64, 64);
    assert(pow2(64) == 0x10000000000000000);
}

/// The number of binary digits of `n`.
fn bit_length_exec(n: u128) -> (b: u32)
    ensures
        b == bit_length(n as nat),
{
    proof {
        lemma_u128_below_pow2_128(n);
        lemma_bit_length_le(n as nat, 128);
    }
    let mut x = n;
    let mut b: u32 = 0;
    while x > 0
        invariant
            b + bit_length(x as nat) == bit_length(n as nat),
            bit_length(n as nat) <= 128,
        decreases x,
    {
        x = x / 2;
        b = b + 1;
    }
    b
}

/// `2^k`.
fn pow2_exec(k: u32) -> (p: u128)
    requires
        k < 127,
    ensures
        p == pow2(k as nat),
{
    let mut p: u128 = 1;
    let mut i: u32 = 0;
    proof {
        vstd::arithmetic::power2::lemma_pow2(0);
        vstd::arithmetic::power::lemma_pow0(2);
    }
    while i < k
        invariant
            i <= k < 127,
            p == pow2(i as nat),
        decreases k - i,
    {
        proof {
            lemma_pow2_unfold((i + 1) as nat);
            lemma_pow2_adds(i as nat, 1);
            lemma_pow2_strictly_below(i as nat);
        }
        p = p * 2;
        i = i + 1;
    }
    p
}

/// Powers of two below `2^127` fit the doubling in a `u128`.
proof fn lemma_pow2_strictly_below(i: nat)
    requires
        i < 126,
    ensures
        pow2(i) * 2 <= 0x8000_0000_0000_0000_0000_0000_0000_0000,
{
    lemma_pow2_le(i + 1, 127);
    lemma_pow2_unfold(i + 1);
    lemma_pow2_adds(64, 63);
    lemma2_to64();
    vstd::arithmetic::power2::lemma2_to64_rest();
}

/// Powers of two grow with the exponent.
proof fn lemma_pow2_le(a: nat, b: nat)
    requires
        a <= b,
    ensures
        pow2(a) <= pow2(b),
{
    if a < b {
        vstd::arithmetic::power2::lemma_pow2_strictly_increases(a, b);
    }
}

/// Bounds on `round_half_even`.
proof fn lemma_rhe_bounds(num: nat, den: nat)
    requires
        den > 0,
    ensures
        num / den <= round_half_even(num, den) <= num / den + 1,
        round_half_even(num, den) * den <= num + den,
        num <= round_half_even(num, den) * den + den,
        den == 1 ==> round_half_even(num, den) == num,
{
    let q = num / den;
    let r = num % den;
    assert(num == q * den + r) by (nonlinear_arith)
        requires
            den > 0,
            q == num / den,
            r == num % den,
    ;
    assert((q + 1) * den == q * den + den) by (nonlinear_arith);
    assert(0 <= r < den);
}

/// `num / den` rounded to the nearest integer, ties to even.
fn rhe_exec(num: u128, den: u128) -> (r: u128)
    requires
        den > 0,
    ensures
        r == round_half_even(num as nat, den as nat),
{
    let q = num / den;
    let rem = num % den;
    proof {
        lemma_rhe_bounds(num as nat, den as nat);
        if den >= 2 {
            assert(num / den <= num / 2) by (nonlinear_arith)
                requires
                    den >= 2,
            ;
        }
    }
    if rem < den - rem {
        q
    } else if rem > den - rem {
        q + 1
    } else if q % 2 == 0 {
        q
    } else {
        q + 1
    }
}

/// The value of the binary64 number nearest to `n` (what `n as f64` holds).
pub open spec fn f64_value(n: nat) -> nat {
    let (m, k) = f64_of_nat(n);
    m * pow2(k)
}

/// The value that `n as f64` holds, as an exact integer.
pub fn f64_value_exec(n: u64) -> (v: u128)
    ensures
        v == f64_value(n as nat),
        v <= 0x10000000000000000 + 2048,
{
    let bl = bit_length_exec(n as u128);
    proof {
        lemma2_to64();
        lemma_bit_length_le(n as nat, 64);
    }
    let (m, k): (u128, u32) = if bl <= 53 {
        (n as u128, 0)
    } else {
        let k: u32 = bl - 53;
        let p = pow2_exec(k);
        (rhe_exec(n as u128, p), k)
    };
    let p = pow2_exec(k);
    proof {
        lemma_pow2_pos(k as nat);
        lemma_rhe_bounds(n as nat, p as nat);
        if bl > 53 {
            lemma_bit_length(n as nat);
            vstd::arithmetic::power2::lemma_pow2_strictly_increases((k + 1) as nat, 64);
            assert(k <= 11);
            lemma_pow2_le(k as nat, 11);
            assert(pow2(11) == 2048) by {
                lemma2_to64();
            }
            assert(pow2((bl - 1) as nat) <= n);
            lemma_pow2_adds(k as nat, 52);
            assert(pow2(52) == 0x10000000000000) by {
                vstd::arithmetic::power2::lemma2_to64_rest();
            }
            assert(m * p <= n + p);
        } else {
            assert(pow2(0) == 1) by {
                vstd::arithmetic::power2::lemma_pow2(0);
                vstd::arithmetic::power::lemma_pow0(2);
            }
        }
    }
    m * p
}

/// The tenths of a second that `{:.1}` prints for `ms as f64 / 1000.0`.
fn seconds_tenths_exec(ms: u64) -> (t: u128)
    requires
        ms >= 1000,
    ensures
        t == seconds_tenths(ms as nat),
{
    let bl = bit_length_exec(ms as u128);
    proof {
        lemma2_to64();
        lemma_bit_length_le(ms as nat, 64);
    }
    let (m, k): (u128, u32) = if bl <= 53 {
        (ms as u128, 0)
    } else {
        let k: u32 = bl - 53;
        let p = pow2_exec(k);
        (rhe_exec(ms as u128, p), k)
    };
    let p = pow2_exec(k);
    proof {
        lemma_pow2_pos(k as nat);
        lemma_rhe_bounds(ms as nat, p as nat);
        if bl > 53 {
            lemma_bit_length(ms as nat);
            vstd::arithmetic::power2::lemma_pow2_strictly_increases((k + 1) as nat, 64);
            assert(k <= 11);
            lemma_pow2_le(k as nat, 11);
            assert(pow2(11) == 2048) by {
                lemma2_to64();
            }
            assert(pow2((bl - 1) as nat) <= ms);
            lemma_pow2_adds(k as nat, 52);
            assert(pow2(52) == 0x10000000000000) by {
                vstd::arithmetic::power2::lemma2_to64_rest();
            }
            assert(m * p <= ms + p);
            assert(ms <= m * p + p);
        } else {
            assert(pow2(0) == 1) by {
                vstd::arithmetic::power2::lemma_pow2(0);
                vstd::arithmetic::power::lemma_pow0(2);
            }
        }
    }
    let v: u128 = m * p;
    assert(v >= 1000);
    let w: u128 = v / 1000;
    let bw = bit_length_exec(w);
    proof {
        lemma_bit_length(w as nat);
        assert(v <= 0x10000000000000000 + 2048);
        assert(w < 0x10000000000000000) by (nonlinear_arith)
            requires
                w == v / 1000,
                v <= 0x10000000000000000 + 2048,
        ;
        lemma_bit_length_le(w as nat, 64);
    }
    let e: u32 = bw - 1;
    if e <= 52 {
        let pe = pow2_exec(52 - e);
        proof {
            lemma_pow2_pos((52 - e) as nat);
            lemma_pow2_adds((52 - e) as nat, (e + 1) as nat);
            assert(pow2(53) == 0x20000000000000) by {
                vstd::arithmetic::power2::lemma2_to64_rest();
            }
            assert(v < 1000 * (w + 1)) by (nonlinear_arith)
                requires
                    w == v / 1000,
            ;
            assert(w + 1 <= pow2((e + 1) as nat));
            assert(v * pe < 1000 * pow2(53)) by (nonlinear_arith)
                requires
                    v < 1000 * (w + 1),
                    w + 1 <= pow2((e + 1) as nat),
                    pe * pow2((e + 1) as nat) == pow2(53),
                    pe > 0,
            ;
            lemma_pow2_pos((52 - e) as nat);
        }
        let d = rhe_exec(v * pe, 1000);
        proof {
            lemma_rhe_bounds((v * pe) as nat, 1000);
        }
        rhe_exec(10 * d, pe)
    } else {
        let s: u32 = e - 52;
        let pe = pow2_exec(s);
        proof {
            lemma_pow2_pos(s as nat);
            assert(s <= 13);
            lemma_pow2_le(s as nat, 13);
            assert(pow2(13) == 8192) by {
                lemma2_to64();
            }
        }
        let d = rhe_exec(v, 1000 * pe);
        proof {
            lemma_rhe_bounds(v as nat, (1000 * pe) as nat);
            assert(d * pe * 1000 <= v + 1000 * pe) by (nonlinear_arith)
                requires
                    d * (1000 * pe) <= v + 1000 * pe,
            ;
            assert(d * pe < 0x1000_0000_0000_0000) by (nonlinear_arith)
                requires
                    d * pe * 1000 <= v + 1000 * pe,
                    v <= 0x10000000000000000 + 2048,
                    pe <= 8192,
            ;
            assert(10 * d * pe == 10 * (d * pe)) by (nonlinear_arith);
            assert(10 * d <= 10 * (d * pe)) by (nonlinear_arith)
                requires
                    pe > 0,
            ;
        }
        10 * d * pe
    }
}

/// Format milliseconds as human-readable duration.
pub fn format_duration(ms: u64) -> (s: String)
    ensures
        s@ == duration_text(ms as nat),
{
    let mut out = String::new();
    if ms == 0 {
        push_str(&mut out, "\u{2014}");
        return out;
    }
    if ms < 1000 {
        push_decimal_str(&mut out, ms as u128);
        push_str(&mut out, "ms");
        return out;
    }
    let t = seconds_tenths_exec(ms);
    push_decimal_str(&mut out, t / 10);
    out.push('.');
    let d: u8 = (t % 10) as u8;
    let c: char = (d + 48) as char;
    assert(c == digit_char((t % 10) as nat));
    out.push(c);
    push_str(&mut out, "s");
    assert(out@ =~= duration_text(ms as nat));
    out
}

} // verus!
