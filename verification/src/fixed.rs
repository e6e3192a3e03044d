//! Fixed-point evaluation of the logistic rating curve.
//!
//! A quantity `x` is represented by the integer nearest to `x * 2^32`
//! ("scaled" form).  The module provides scaled powers of ten `10^(d/400)`
//! for `0 <= d <= 3200`, rounding of an exact rational to the nearest
//! integer with ties away from zero, and from these the per-opponent rating
//! delta `round(K * (s - E))` used by the match update.

use vstd::arithmetic::div_mod::lemma_div_is_ordered;
use vstd::arithmetic::div_mod::lemma_div_is_ordered_by_denominator;
use vstd::arithmetic::div_mod::lemma_div_pos_is_pos;
use vstd::arithmetic::div_mod::lemma_fundamental_div_mod;
use vstd::arithmetic::div_mod::lemma_fundamental_div_mod_converse_div;
use vstd::arithmetic::div_mod::lemma_mod_division_less_than_divisor;
use vstd::arithmetic::div_mod::lemma_multiply_divide_lt;
use vstd::arithmetic::mul::lemma_mul_inequality;
use vstd::arithmetic::mul::lemma_mul_is_associative;
use vstd::arithmetic::mul::lemma_mul_is_commutative;
use vstd::arithmetic::mul::lemma_mul_unary_negation;
use vstd::prelude::*;

verus! {

/// The fixed-point scale: one unit is `1 / 2^32`.
pub const SCALE: u64 = 0x1_0000_0000;

/// Half of [`SCALE`], used to round fixed-point products to nearest.
pub const HALF_SCALE: u64 = 0x8000_0000;

// Scaled fractional powers of ten: `F<k>` is the integer nearest to
// `10^(k/400) * 2^32`.  Any exponent `r/400` with `0 <= r < 400` is reached
// by multiplying the `F<k>` whose `k`s are the binary digits of `r`.
/// Nearest integer to `10^(1/400) * 2^32`.
pub const F1: u64 = 4319762413;
/// Nearest integer to `10^(2/400) * 2^32`.
pub const F2: u64 = 4344700673;
/// Nearest integer to `10^(4/400) * 2^32`.
pub const F4: u64 = 4395009936;
/// Nearest integer to `10^(8/400) * 2^32`.
pub const F8: u64 = 4497382869;
/// Nearest integer to `10^(16/400) * 2^32`.
pub const F16: u64 = 4709337993;
/// Nearest integer to `10^(32/400) * 2^32`.
pub const F32: u64 = 5163686428;
/// Nearest integer to `10^(64/400) * 2^32`.
pub const F64: u64 = 6208116544;
/// Nearest integer to `10^(128/400) * 2^32`.
pub const F128: u64 = 8973458554;
/// Nearest integer to `10^(256/400) * 2^32`.
pub const F256: u64 = 18748212237;

/// Product of two scaled quantities, rounded to the nearest scaled unit.
pub open spec fn fix_mul(a: int, b: int) -> int {
    (a * b + HALF_SCALE as int) / (SCALE as int)
}

/// Running product for [`spec_pow10_frac`] after the `1`-digit of `r`.
pub open spec fn frac_acc0(r: int) -> int {
    if r % 2 == 1 {
        fix_mul(SCALE as int, F1 as int)
    } else {
        SCALE as int
    }
}

/// Running product after the `2`-digit of `r`.
pub open spec fn frac_acc1(r: int) -> int {
    if (r / 2) % 2 == 1 {
        fix_mul(frac_acc0(r), F2 as int)
    } else {
        frac_acc0(r)
    }
}

/// Running product after the `4`-digit of `r`.
pub open spec fn frac_acc2(r: int) -> int {
    if (r / 4) % 2 == 1 {
        fix_mul(frac_acc1(r), F4 as int)
    } else {
        frac_acc1(r)
    }
}

/// Running product after the `8`-digit of `r`.
pub open spec fn frac_acc3(r: int) -> int {
    if (r / 8) % 2 == 1 {
        fix_mul(frac_acc2(r), F8 as int)
    } else {
        frac_acc2(r)
    }
}

/// Running product after the `16`-digit of `r`.
pub open spec fn frac_acc4(r: int) -> int {
    if (r / 16) % 2 == 1 {
        fix_mul(frac_acc3(r), F16 as int)
    } else {
        frac_acc3(r)
    }
}

/// Running product after the `32`-digit of `r`.
pub open spec fn frac_acc5(r: int) -> int {
    if (r / 32) % 2 == 1 {
        fix_mul(frac_acc4(r), F32 as int)
    } else {
        frac_acc4(r)
    }
}

/// Running product after the `64`-digit of `r`.
pub open spec fn frac_acc6(r: int) -> int {
    if (r / 64) % 2 == 1 {
        fix_mul(frac_acc5(r), F64 as int)
    } else {
        frac_acc5(r)
    }
}

/// Running product after the `128`-digit of `r`.
pub open spec fn frac_acc7(r: int) -> int {
    if (r / 128) % 2 == 1 {
        fix_mul(frac_acc6(r), F128 as int)
    } else {
        frac_acc6(r)
    }
}

/// Running product after the `256`-digit of `r`.
pub open spec fn frac_acc8(r: int) -> int {
    if (r / 256) % 2 == 1 {
        fix_mul(frac_acc7(r), F256 as int)
    } else {
        frac_acc7(r)
    }
}

/// Scaled `10^(r/400)` for a fractional exponent `0 <= r < 400`: the product
/// of the scaled factors selected by the binary digits of `r`, each partial
/// product rounded to the nearest scaled unit.
pub open spec fn spec_pow10_frac(r: int) -> int {
    frac_acc8(r)
}

/// `fix_mul` is monotone in its first argument and never negative.
proof fn lemma_fix_mul_mono(a: int, amax: int, b: int)
    requires
        0 <= a <= amax,
        0 <= b,
    ensures
        0 <= fix_mul(a, b) <= fix_mul(amax, b),
{
    lemma_mul_inequality(a, amax, b);
    lemma_div_is_ordered(a * b + HALF_SCALE as int, amax * b + HALF_SCALE as int, SCALE as int);
    lemma_mul_inequality(0, a, b);
    lemma_div_is_ordered(0, a * b + HALF_SCALE as int, SCALE as int);
}

/// Bounds for every running product of [`spec_pow10_frac`].
pub proof fn lemma_pow10_frac_bounds(r: int)
    requires
        0 <= r < 400,
    ensures
        0 <= frac_acc0(r) <= 4319762413,
        0 <= frac_acc1(r) <= 4369782904,
        0 <= frac_acc2(r) <= 4471568223,
        0 <= frac_acc3(r) <= 4682306741,
        0 <= frac_acc4(r) <= 5134047249,
        0 <= frac_acc5(r) <= 6172482413,
        0 <= frac_acc6(r) <= 8921951564,
        0 <= frac_acc7(r) <= 18640598883,
        0 <= spec_pow10_frac(r) <= 81369165351,
{
    assert(0 <= frac_acc0(r) <= 4319762413) by {
        lemma_fix_mul_mono(SCALE as int, SCALE as int, F1 as int);
    }
    assert(0 <= frac_acc1(r) <= 4369782904) by {
        lemma_fix_mul_mono(frac_acc0(r), 4319762413, F2 as int);
    }
    assert(0 <= frac_acc2(r) <= 4471568223) by {
        lemma_fix_mul_mono(frac_acc1(r), 4369782904, F4 as int);
    }
    assert(0 <= frac_acc3(r) <= 4682306741) by {
        lemma_fix_mul_mono(frac_acc2(r), 4471568223, F8 as int);
    }
    assert(0 <= frac_acc4(r) <= 5134047249) by {
        lemma_fix_mul_mono(frac_acc3(r), 4682306741, F16 as int);
    }
    assert(0 <= frac_acc5(r) <= 6172482413) by {
        lemma_fix_mul_mono(frac_acc4(r), 5134047249, F32 as int);
    }
    assert(0 <= frac_acc6(r) <= 8921951564) by {
        lemma_fix_mul_mono(frac_acc5(r), 6172482413, F64 as int);
    }
    assert(0 <= frac_acc7(r) <= 18640598883) by {
        lemma_fix_mul_mono(frac_acc6(r), 8921951564, F128 as int);
    }
    assert(0 <= frac_acc8(r) <= 81369165351) by {
        lemma_fix_mul_mono(frac_acc7(r), 18640598883, F256 as int);
    }
}

/// Rounding fixed-point multiply.
fn mul_fix(a: u64, b: u64) -> (t: u64)
    requires
        a <= 0x8_0000_0000,
        b <= 0x8_0000_0000,
    ensures
        t as int == fix_mul(a as int, b as int),
{
    proof {
        lemma_mul_inequality(a as int, 0x8_0000_0000, b as int);
        lemma_mul_inequality(b as int, 0x8_0000_0000, 0x8_0000_0000);
    }
    let p: u128 = (a as u128) * (b as u128) + (HALF_SCALE as u128);
    proof {
        lemma_div_is_ordered(
            p as int,
            0x8_0000_0000 * 0x8_0000_0000 + HALF_SCALE as int,
            SCALE as int,
        );
    }
    (p / (SCALE as u128)) as u64
}

/// Scaled `10^(r/400)` for `0 <= r < 400`.
fn pow10_frac(r: u16) -> (f: u64)
    requires
        r < 400,
    ensures
        f as int == spec_pow10_frac(r as int),
        f <= 81369165351,
{
    proof {
        lemma_pow10_frac_bounds(r as int);
    }
    let mut acc: u64 = SCALE;
    if r % 2 == 1 {
        acc = mul_fix(acc, F1);
    }
    assert(acc as int == frac_acc0(r as int));
    if (r / 2) % 2 == 1 {
        acc = mul_fix(acc, F2);
    }
    assert(acc as int == frac_acc1(r as int));
    if (r / 4) % 2 == 1 {
        acc = mul_fix(acc, F4);
    }
    assert(acc as int == frac_acc2(r as int));
    if (r / 8) % 2 == 1 {
        acc = mul_fix(acc, F8);
    }
    assert(acc as int == frac_acc3(r as int));
    if (r / 16) % 2 == 1 {
        acc = mul_fix(acc, F16);
    }
    assert(acc as int == frac_acc4(r as int));
    if (r / 32) % 2 == 1 {
        acc = mul_fix(acc, F32);
    }
    assert(acc as int == frac_acc5(r as int));
    if (r / 64) % 2 == 1 {
        acc = mul_fix(acc, F64);
    }
    assert(acc as int == frac_acc6(r as int));
    if (r / 128) % 2 == 1 {
        acc = mul_fix(acc, F128);
    }
    assert(acc as int == frac_acc7(r as int));
    if (r / 256) % 2 == 1 {
        acc = mul_fix(acc, F256);
    }
    assert(acc as int == frac_acc8(r as int));
    acc
}

/// `10^q` for `0 <= q <= 8`.
pub open spec fn spec_pow10_int(q: int) -> int {
    if q <= 0 {
        1
    } else if q == 1 {
        10
    } else if q == 2 {
        100
    } else if q == 3 {
        1000
    } else if q == 4 {
        10000
    } else if q == 5 {
        100000
    } else if q == 6 {
        1000000
    } else if q == 7 {
        10000000
    } else {
        100000000
    }
}

fn pow10_int(q: u16) -> (p: u64)
    requires
        q <= 8,
    ensures
        p as int == spec_pow10_int(q as int),
        1 <= p <= 100000000,
{
    if q == 0 {
        1
    } else if q == 1 {
        10
    } else if q == 2 {
        100
    } else if q == 3 {
        1000
    } else if q == 4 {
        10000
    } else if q == 5 {
        100000
    } else if q == 6 {
        1000000
    } else if q == 7 {
        10000000
    } else {
        100000000
    }
}

/// Scaled `10^(d/400)` for `0 <= d <= 3200`: the integer power `10^(d/400
/// rounded down)` times the scaled fractional power for the remainder.
pub open spec fn spec_scaled_pow10(d: int) -> int {
    spec_pow10_frac(d % 400) * spec_pow10_int(d / 400)
}

pub proof fn lemma_scaled_pow10_bounds(d: int)
    requires
        0 <= d <= 3200,
    ensures
        0 <= spec_scaled_pow10(d) <= 8136916535100000000,
{
    lemma_pow10_frac_bounds(d % 400);
    lemma_div_pos_is_pos(d, 400);
    lemma_div_is_ordered(d, 3200, 400);
    let f = spec_pow10_frac(d % 400);
    let p = spec_pow10_int(d / 400);
    lemma_mul_inequality(0, f, p);
    lemma_mul_inequality(f, 81369165351, p);
    lemma_mul_is_commutative(81369165351, p);
    lemma_mul_inequality(p, 100000000, 81369165351);
}

/// Scaled `10^(d/400)` for `0 <= d <= 3200`.
fn scaled_pow10(d: u16) -> (t: u64)
    requires
        d <= 3200,
    ensures
        t as int == spec_scaled_pow10(d as int),
        t <= 8136916535100000000,
{
    let q: u16 = d / 400;
    let r: u16 = d % 400;
    let f: u64 = pow10_frac(r);
    let p: u64 = pow10_int(q);
    proof {
        lemma_scaled_pow10_bounds(d as int);
        lemma_mul_inequality(f as int, 81369165351, p as int);
        lemma_mul_is_commutative(81369165351, p as int);
        lemma_mul_inequality(p as int, 100000000, 81369165351);
    }
    f * p
}

/// The integer nearest to the exact rational `num / den` (`den > 0`), an
/// exact half rounding away from zero.
pub open spec fn round_half_away(num: int, den: int) -> int {
    if num >= 0 {
        (2 * num + den) / (2 * den)
    } else {
        -((2 * (-num) + den) / (2 * den))
    }
}

/// What "nearest, ties away from zero" means: the rounded value `q` is
/// within half a unit of `num / den`, and an exact half is only ever left
/// behind on the side nearer to zero.
pub proof fn lemma_round_half_away_props(num: int, den: int)
    requires
        den > 0,
    ensures
        ({
            let q = round_half_away(num, den);
            &&& -den <= 2 * (num - q * den) <= den
            &&& (2 * (num - q * den) == den ==> num < 0)
            &&& (2 * (num - q * den) == -den ==> num >= 0)
        }),
{
    if num >= 0 {
        let q = (2 * num + den) / (2 * den);
        let rem = (2 * num + den) % (2 * den);
        lemma_fundamental_div_mod(2 * num + den, 2 * den);
        lemma_mod_division_less_than_divisor(2 * num + den, 2 * den);
        lemma_mul_is_associative(2, den, q);
        lemma_mul_is_commutative(den, q);
        assert(2 * num + den == 2 * (q * den) + rem);
        assert(2 * (num - q * den) == rem - den);
    } else {
        let m = -num;
        let q = (2 * m + den) / (2 * den);
        let rem = (2 * m + den) % (2 * den);
        lemma_fundamental_div_mod(2 * m + den, 2 * den);
        lemma_mod_division_less_than_divisor(2 * m + den, 2 * den);
        lemma_mul_is_associative(2, den, q);
        lemma_mul_is_commutative(den, q);
        assert(2 * m + den == 2 * (q * den) + rem);
        assert(round_half_away(num, den) == -q);
        assert((-q) * den == -(q * den)) by {
            lemma_mul_unary_negation(q, den);
        }
        assert(2 * (num - (-q) * den) == den - rem);
    }
}

/// Establishes the value of [`round_half_away`] from a division witness:
/// `q` is the rounded value whenever `2 * |num| + den == |q| * (2 * den) +
/// rem` with `q` of `num`'s sign and a remainder below `2 * den`.
pub proof fn lemma_round_half_away_value(num: int, den: int, q: int, rem: int)
    requires
        den > 0,
        0 <= rem < 2 * den,
        num >= 0 ==> q >= 0 && 2 * num + den == q * (2 * den) + rem,
        num < 0 ==> q <= 0 && 2 * (-num) + den == (-q) * (2 * den) + rem,
    ensures
        round_half_away(num, den) == q,
{
    if num >= 0 {
        lemma_fundamental_div_mod_converse_div(2 * num + den, 2 * den, q, rem);
    } else {
        lemma_fundamental_div_mod_converse_div(2 * (-num) + den, 2 * den, -q, rem);
    }
}

/// Nearest integer to `num / den`, an exact half rounding away from zero.
fn round_to_nearest(num: i128, den: i128) -> (q: i32)
    requires
        0 < den <= 0x1_0000_0000_0000_0000_0000,
        -32 * den <= num <= 32 * den,
    ensures
        q as int == round_half_away(num as int, den as int),
        -32 <= q <= 32,
{
    if num >= 0 {
        let qq: u128 = (2 * (num as u128) + (den as u128)) / (2 * (den as u128));
        proof {
            lemma_div_pos_is_pos(2 * num + den, 2 * den);
            lemma_multiply_divide_lt(2 * num + den, 2 * den, 33);
        }
        qq as i32
    } else {
        let m: i128 = -num;
        let qq: u128 = (2 * (m as u128) + (den as u128)) / (2 * (den as u128));
        proof {
            lemma_div_pos_is_pos(2 * m + den, 2 * den);
            lemma_multiply_divide_lt(2 * m + den, 2 * den, 33);
        }
        -(qq as i32)
    }
}

/// Twice the outcome score of a participant with rank `rank_p` against an
/// opponent with rank `rank_o`: `2` for a win (lower rank), `1` for a tie,
/// `0` for a loss.
pub open spec fn spec_outcome2(rank_p: int, rank_o: int) -> int {
    if rank_o == rank_p {
        1
    } else if rank_o > rank_p {
        2
    } else {
        0
    }
}

/// The match volatility constant `K` for a field of `n` participants.
pub open spec fn spec_k(n: int) -> int {
    32int / (n - 1)
}

/// Rating difference `m_o - m_p` by magnitude, clamped to `3200`; the
/// logistic curve is evaluated at (plus or minus) this point.
pub open spec fn clamped_diff(m_p: int, m_o: int) -> int {
    let x = m_o - m_p;
    let a = if x < 0 {
        -x
    } else {
        x
    };
    if a > 3200 {
        3200
    } else {
        a
    }
}

/// Common denominator piece of the expected score: scaled `1 + 10^(|x|/400)`.
pub open spec fn pair_scaled_sum(m_p: int, m_o: int) -> int {
    SCALE as int + spec_scaled_pow10(clamped_diff(m_p, m_o))
}

/// Twice the numerator of the expected score `E = 1 / (1 + 10^((m_o -
/// m_p)/400))` over the denominator [`pair_scaled_sum`].  For a negative
/// rating difference the symmetric form `E = t / (1 + t)` with `t =
/// 10^(|x|/400)` is used, so that expectations of a pair add to one exactly.
pub open spec fn pair_expected2(m_p: int, m_o: int) -> int {
    if m_o - m_p >= 0 {
        2 * (SCALE as int)
    } else {
        2 * spec_scaled_pow10(clamped_diff(m_p, m_o))
    }
}

/// Numerator of the exact rational `K * (s - E)` over [`pair_den`].
pub open spec fn pair_num(n: int, rank_p: int, rank_o: int, m_p: int, m_o: int) -> int {
    spec_k(n) * (spec_outcome2(rank_p, rank_o) * pair_scaled_sum(m_p, m_o) - pair_expected2(
        m_p,
        m_o,
    ))
}

/// Denominator of the exact rational `K * (s - E)`.
pub open spec fn pair_den(m_p: int, m_o: int) -> int {
    2 * pair_scaled_sum(m_p, m_o)
}

/// The rating delta contributed by one opponent: `K * (s - E)` rounded to
/// the nearest integer, ties away from zero.
pub open spec fn spec_pair_delta(n: int, rank_p: int, rank_o: int, m_p: int, m_o: int) -> int {
    round_half_away(pair_num(n, rank_p, rank_o, m_p, m_o), pair_den(m_p, m_o))
}

/// Rounding law for a single opponent pair: the contributed delta is the
/// integer nearest to the exact rational `K * (s - E)` (written as
/// `pair_num / pair_den`), staying within half a unit of it, and an exact
/// half always rounds away from zero.
pub proof fn lemma_pair_delta_rounding(n: int, rank_p: int, rank_o: int, m_p: int, m_o: int)
    requires
        n >= 2,
    ensures
        ({
            let num = pair_num(n, rank_p, rank_o, m_p, m_o);
            let den = pair_den(m_p, m_o);
            let d = spec_pair_delta(n, rank_p, rank_o, m_p, m_o);
            &&& 0 < den
            &&& -den <= 2 * (num - d * den) <= den
            &&& (2 * (num - d * den) == den ==> num < 0)
            &&& (2 * (num - d * den) == -den ==> num >= 0)
        }),
{
    lemma_scaled_pow10_bounds(clamped_diff(m_p, m_o));
    lemma_round_half_away_props(
        pair_num(n, rank_p, rank_o, m_p, m_o),
        pair_den(m_p, m_o),
    );
}

/// The volatility constant bounds the swing against a single opponent: a
/// per-opponent delta never exceeds `32` in magnitude, whatever the ranks
/// and ratings.
pub proof fn lemma_pair_delta_bounded(n: int, rank_p: int, rank_o: int, m_p: int, m_o: int)
    requires
        2 <= n,
    ensures
        -32 <= spec_pair_delta(n, rank_p, rank_o, m_p, m_o) <= 32,
{
    lemma_scaled_pow10_bounds(clamped_diff(m_p, m_o));
    let st = pair_scaled_sum(m_p, m_o);
    let num = pair_num(n, rank_p, rank_o, m_p, m_o);
    let den = pair_den(m_p, m_o);
    let k = spec_k(n);
    lemma_div_pos_is_pos(32, n - 1);
    lemma_div_is_ordered_by_denominator(32, 1, n - 1);
    let s2 = spec_outcome2(rank_p, rank_o);
    let sd = s2 * st - pair_expected2(m_p, m_o);
    assert(0 <= s2 * st <= 2 * st) by (nonlinear_arith)
        requires
            st >= 0,
            0 <= s2 <= 2,
    ;
    assert(-(32 * den) <= num <= 32 * den) by (nonlinear_arith)
        requires
            num == k * sd,
            den == 2 * st,
            0 <= k <= 32,
            -(2 * st) <= sd <= 2 * st,
            st > 0,
    ;
    lemma_round_half_away_props(num, den);
    let d = round_half_away(num, den);
    assert(-32 <= d <= 32) by (nonlinear_arith)
        requires
            den > 0,
            -(32 * den) <= num <= 32 * den,
            -den <= 2 * (num - d * den) <= den,
    ;
}

/// The rating delta contributed by one opponent with rank `rank_o` and
/// current rating `m_o`, against a participant with rank `rank_p` and
/// current rating `m_p`, in a field of `n` participants.
pub fn pair_delta(n: i32, rank_p: i32, rank_o: i32, m_p: i32, m_o: i32) -> (d: i32)
    requires
        n >= 2,
    ensures
        d as int == spec_pair_delta(n as int, rank_p as int, rank_o as int, m_p as int, m_o as int),
        -32 <= d <= 32,
{
    let x: i64 = m_o as i64 - m_p as i64;
    let a: i64 = if x < 0 {
        -x
    } else {
        x
    };
    let dc: u16 = if a > 3200 {
        3200
    } else {
        a as u16
    };
    let t: u64 = scaled_pow10(dc);
    let st: i128 = SCALE as i128 + t as i128;
    let e2: i128 = if x >= 0 {
        2 * (SCALE as i128)
    } else {
        2 * (t as i128)
    };
    let sdiff: i128 = if rank_o == rank_p {
        st - e2
    } else if rank_o > rank_p {
        2 * st - e2
    } else {
        0 - e2
    };
    let k: u64 = 32 / (n as u64 - 1);
    proof {
        lemma_div_pos_is_pos(32, n as int - 1);
        lemma_div_is_ordered_by_denominator(32, 1, n as int - 1);
        assert(-(32 * (2 * st)) <= (k as int) * (sdiff as int) <= 32 * (2 * st))
            by (nonlinear_arith)
            requires
                0 <= k as int <= 32,
                -(2 * (st as int)) <= sdiff as int <= 2 * (st as int),
                st as int > 0,
        ;
    }
    let num: i128 = (k as i128) * sdiff;
    let den: i128 = 2 * st;
    round_to_nearest(num, den)
}

} // verus!
