//! The frequency that the user enters, and the period that the device is told.
//!
//! The frequency is a number of kilohertz in single precision, held by its bit pattern: a sign
//! bit, eight bits of exponent, 23 bits of fraction. The arithmetic on it is that of single
//! precision, carried out in whole numbers.
use vstd::prelude::*;

verus! {

/// Two to the power of `n`.
pub open spec fn two_to(n: nat) -> nat
    decreases n,
{
    if n == 0 {
        1
    } else {
        2 * two_to((n - 1) as nat)
    }
}

/// `p / q`, rounded to the nearest whole number; of two equally near ones, to the even one.
pub open spec fn nearest(p: nat, q: nat) -> nat {
    let whole = p / q;
    let rest = p % q;
    if 2 * rest < q || (2 * rest == q && whole % 2 == 0) {
        whole
    } else {
        whole + 1
    }
}

/// The pattern has its sign bit set.
pub open spec fn is_negative(bits: u32) -> bool {
    bits >= 0x8000_0000
}

/// The exponent field of the pattern.
pub open spec fn exponent(bits: u32) -> nat {
    (bits / 0x80_0000 % 0x100) as nat
}

/// The fraction field of the pattern.
pub open spec fn fraction(bits: u32) -> nat {
    (bits % 0x80_0000) as nat
}

/// The pattern stands for no number.
pub open spec fn is_nan(bits: u32) -> bool {
    exponent(bits) == 0xFF && fraction(bits) != 0
}

/// The pattern stands for an infinity.
pub open spec fn is_infinite(bits: u32) -> bool {
    exponent(bits) == 0xFF && fraction(bits) == 0
}

/// The number that the pattern stands for, in units of two to the power of -149.
pub open spec fn scaled_value(bits: u32) -> int {
    let size = if exponent(bits) == 0 {
        fraction(bits)
    } else {
        (0x80_0000 + fraction(bits)) * two_to((exponent(bits) - 1) as nat)
    };
    if is_negative(bits) {
        -size
    } else {
        size as int
    }
}

/// `kilohertz`, in the units of `scaled_value`.
pub open spec fn scaled(kilohertz: nat) -> int {
    (kilohertz * two_to(149)) as int
}

/// The number is less than 15. No-number is not.
pub open spec fn too_low(bits: u32) -> bool {
    &&& !is_nan(bits)
    &&& if is_infinite(bits) {
        is_negative(bits)
    } else {
        scaled_value(bits) < scaled(15)
    }
}

/// The number is greater than 80. No-number is not.
pub open spec fn too_high(bits: u32) -> bool {
    &&& !is_nan(bits)
    &&& if is_infinite(bits) {
        !is_negative(bits)
    } else {
        scaled_value(bits) > scaled(80)
    }
}

/// The 24 leading bits of the number, which is their value times two to the power of the
/// exponent field less 150.
pub open spec fn significand(bits: u32) -> nat {
    0x80_0000 + fraction(bits)
}

/// A thousand times `sig`, rounded to 24 bits: single-precision numbers are 1024 apart from
/// two to the 33rd on, and 512 below.
pub open spec fn hertz(sig: nat) -> nat {
    let p = sig * 1000;
    if p < 0x2_0000_0000 {
        nearest(p, 0x200) * 0x200
    } else {
        nearest(p, 0x400) * 0x400
    }
}

/// `p / q`, which lies between 1024 and 8192, rounded to 24 bits and then to a whole number,
/// halves upward. From one whole number to the next there are 8192 single-precision numbers
/// below 2048, 4096 below 4096, and 2048 from there on.
pub open spec fn whole_quotient(p: nat, q: nat) -> nat {
    if p < 2048 * q {
        (2 * nearest(p * 0x2000, q) + 0x2000) / 0x4000
    } else if p < 4096 * q {
        (2 * nearest(p * 0x1000, q) + 0x1000) / 0x2000
    } else {
        (2 * nearest(p * 0x800, q) + 0x800) / 0x1000
    }
}

/// The period for a frequency that is neither too low nor too high, in ticks of a 100 MHz
/// clock. The frequency is multiplied by a thousand and the clock rate divided by the product,
/// each in single precision, and the quotient is rounded to a whole number, halves upward.
/// The period for no-number is zero.
pub open spec fn period_of(bits: u32) -> nat {
    if is_nan(bits) {
        0
    } else {
        whole_quotient(
            100_000_000 * two_to((150 - exponent(bits)) as nat),
            hertz(significand(bits)),
        )
    }
}

/// Powers of two grow.
proof fn lemma_two_to_grows(m: nat, n: nat)
    requires
        m <= n,
    ensures
        0 < two_to(m) <= two_to(n),
    decreases n,
{
    if m < n {
        lemma_two_to_grows(m, (n - 1) as nat);
    } else if n > 0 {
        lemma_two_to_grows((n - 1) as nat, (n - 1) as nat);
    }
}

/// Powers of two multiply by adding their exponents.
proof fn lemma_two_to_sum(m: nat, n: nat)
    ensures
        two_to(m + n) == two_to(m) * two_to(n),
    decreases n,
{
    if n > 0 {
        lemma_two_to_sum(m, (n - 1) as nat);
        let x = two_to(m);
        let y = two_to((n - 1) as nat);
        assert(2 * (x * y) == x * (2 * y)) by (nonlinear_arith);
    } else {
        assert(two_to(m) * 1 == two_to(m));
    }
}

/// The powers of two that occur.
proof fn lemma_small_powers()
    ensures
        two_to(0) == 1,
        two_to(3) == 8,
        two_to(17) == 0x2_0000,
        two_to(18) == 0x4_0000,
        two_to(19) == 0x8_0000,
        two_to(20) == 0x10_0000,
{
    reveal_with_fuel(two_to, 21);
}

/// Bit patterns of positive numbers are in the order of the numbers: so they are compared with
/// the pattern `bound` of the whole number `c`.
proof fn lemma_order_of_patterns(bits: u32, bound: u32, c: nat)
    requires
        !is_negative(bits),
        !is_negative(bound),
        exponent(bits) < 0xFF,
        130 <= exponent(bound) < 0xFF,
        significand(bound) * two_to((exponent(bound) - 130) as nat) == c * two_to(20),
    ensures
        bits < bound ==> scaled_value(bits) < scaled(c),
        bits == bound ==> scaled_value(bits) == scaled(c),
        bits > bound ==> scaled_value(bits) > scaled(c),
{
    let e = exponent(bits);
    let f = exponent(bound);
    let unit = two_to((f - 1) as nat);
    let mid = two_to((f - 130) as nat);
    let sig = significand(bound);
    assert(scaled_value(bound) == scaled(c)) by {
        lemma_two_to_sum(129, (f - 130) as nat);
        lemma_two_to_sum(129, 20);
        let low = two_to(129);
        let top = two_to(20);
        assert(sig * (low * mid) == low * (sig * mid)) by (nonlinear_arith);
        assert(low * (c * top) == c * (low * top)) by (nonlinear_arith);
    }
    lemma_two_to_grows((f - 1) as nat, (f - 1) as nat);
    assert(bits as int == e * 0x80_0000 + fraction(bits));
    assert(bound as int == f * 0x80_0000 + fraction(bound));
    if e == f {
        let s = significand(bits);
        assert(s < sig ==> s * unit < sig * unit) by (nonlinear_arith)
            requires
                unit > 0,
        ;
        assert(s > sig ==> s * unit > sig * unit) by (nonlinear_arith)
            requires
                unit > 0,
        ;
    } else if e == 0 {
        lemma_two_to_grows(0, (f - 1) as nat);
        let s = fraction(bits);
        assert(s < sig * unit) by (nonlinear_arith)
            requires
                s < 0x80_0000,
                sig >= 0x80_0000,
                unit >= 1,
        ;
    } else if e < f {
        let other = two_to((e - 1) as nat);
        let s = significand(bits);
        lemma_two_to_grows((e - 1) as nat, (f - 2) as nat);
        assert(s * other < sig * unit) by (nonlinear_arith)
            requires
                s < 0x100_0000,
                sig >= 0x80_0000,
                0 < other,
                2 * other <= unit,
        ;
    } else {
        let other = two_to((e - 1) as nat);
        let s = significand(bits);
        lemma_two_to_grows((f - 1) as nat, (e - 2) as nat);
        assert(s * other > sig * unit) by (nonlinear_arith)
            requires
                sig < 0x100_0000,
                s >= 0x80_0000,
                0 < unit,
                2 * unit <= other,
        ;
    }
}

/// Which bit patterns are too low, too high, or no number.
pub proof fn lemma_range_by_pattern(bits: u32)
    ensures
        is_nan(bits) <==> bits % 0x8000_0000 > 0x7F80_0000,
        !is_nan(bits) ==> (too_low(bits) || too_high(bits) <==> bits < 0x4170_0000 || bits
            > 0x42A0_0000),
{
    let low: u32 = 0x4170_0000;
    let high: u32 = 0x42A0_0000;
    lemma_small_powers();
    if !is_nan(bits) && !is_infinite(bits) {
        if is_negative(bits) {
            lemma_two_to_grows(149, 149);
            lemma_two_to_grows(0, 0);
            if exponent(bits) > 0 {
                let power = two_to((exponent(bits) - 1) as nat);
                lemma_two_to_grows((exponent(bits) - 1) as nat, (exponent(bits) - 1) as nat);
                let s = significand(bits);
                assert(s * power >= 0) by (nonlinear_arith);
            }
        } else {
            assert(exponent(low) == 130 && significand(low) == 15 * 0x10_0000);
            assert(exponent(high) == 133 && significand(high) == 10 * 0x10_0000);
            lemma_order_of_patterns(bits, low, 15);
            lemma_order_of_patterns(bits, high, 80);
            lemma_two_to_grows(149, 149);
        }
    }
}

/// Rounding moves a quotient by half a unit at most.
proof fn lemma_nearest_is_near(p: nat, q: nat)
    requires
        q > 0,
    ensures
        2 * (nearest(p, q) * q) <= 2 * p + q,
        2 * p <= 2 * (nearest(p, q) * q) + q,
{
    let whole = p / q;
    vstd::arithmetic::div_mod::lemma_fundamental_div_mod(p as int, q as int);
    assert(q * whole == whole * q) by (nonlinear_arith);
    assert((whole + 1) * q == whole * q + q) by (nonlinear_arith);
}

/// `p / q`, rounded to the nearest whole number, halves to the even one.
fn nearest_quotient(p: u64, q: u64) -> (x: u64)
    requires
        0 < q < 0x8000_0000_0000,
        p < 0x8000_0000_0000_0000,
    ensures
        x == nearest(p as nat, q as nat),
{
    let whole: u64 = p / q;
    let rest: u64 = p % q;
    proof {
        assert(whole <= p) by (nonlinear_arith)
            requires
                whole == p / q,
                q > 0,
        ;
    }
    if 2 * rest < q || (2 * rest == q && whole % 2 == 0) {
        whole
    } else {
        whole + 1
    }
}

/// The product of a frequency in range and a thousand keeps its size.
proof fn lemma_hertz_is_near(sig: nat)
    requires
        0x80_0000 <= sig < 0x100_0000,
    ensures
        0x1_0000_0000 <= hertz(sig) <= 0x4_0000_0000,
        hertz(sig) <= sig * 1000 + 0x200,
        sig * 1000 <= hertz(sig) + 0x200,
{
    if sig * 1000 < 0x2_0000_0000 {
        lemma_nearest_is_near(sig * 1000, 0x200);
    } else {
        lemma_nearest_is_near(sig * 1000, 0x400);
    }
}

/// The quotient is small.
proof fn lemma_quotient_is_small(p: nat, q: nat)
    requires
        p <= 0x1000_0000_0000_0000,
        q >= 0x1_0000_0000,
    ensures
        nearest(p, q) <= 0x2000_0000,
{
    lemma_nearest_is_near(p, q);
    let r = nearest(p, q);
    if r > 0x2000_0000 {
        assert(2 * (r * q) - q > 2 * p) by (nonlinear_arith)
            requires
                r >= 0x2000_0001,
                q >= 0x1_0000_0000,
                p <= 0x1000_0000_0000_0000,
        ;
    }
}

/// The period for the frequency of this bit pattern, in kilohertz: `None` if it is below 15 or
/// above 80.
pub fn period_ticks(bits: u32) -> (period: Option<u32>)
    ensures
        match period {
            Some(ticks) => !too_low(bits) && !too_high(bits) && ticks == period_of(bits),
            None => too_low(bits) || too_high(bits),
        },
{
    proof {
        lemma_range_by_pattern(bits);
        lemma_small_powers();
    }
    if bits % 0x8000_0000 > 0x7F80_0000 {
        return Some(0);
    }
    if bits < 0x4170_0000 || bits > 0x42A0_0000 {
        return None;
    }
    let exp: u32 = bits / 0x80_0000;
    let sig: u64 = 0x80_0000 + (bits % 0x80_0000) as u64;
    assert(130 <= exp <= 133 && exp == exponent(bits));
    let spacing: u64 = if sig * 1000 < 0x2_0000_0000 {
        0x200
    } else {
        0x400
    };
    proof {
        lemma_hertz_is_near(sig as nat);
    }
    let hz: u64 = nearest_quotient(sig * 1000, spacing) * spacing;
    let clock: u64 = 100_000_000 * if exp == 130 {
        0x10_0000
    } else if exp == 131 {
        0x8_0000
    } else if exp == 132 {
        0x4_0000
    } else {
        0x2_0000
    };
    let parts: u64 = if clock < 2048 * hz {
        0x2000
    } else if clock < 4096 * hz {
        0x1000
    } else {
        0x800
    };
    proof {
        assert(clock * parts <= 0x1000_0000_0000_0000) by (nonlinear_arith)
            requires
                clock <= 100_000_000 * 0x10_0000,
                parts <= 0x2000,
        ;
        lemma_quotient_is_small((clock * parts) as nat, hz as nat);
    }
    let quotient: u64 = nearest_quotient(clock * parts, hz);
    let ticks: u64 = (2 * quotient + parts) / (2 * parts);
    assert(ticks <= 2 * quotient + parts) by (nonlinear_arith)
        requires
            parts >= 1,
            ticks == (2 * quotient + parts) / (2 * parts),
    ;
    Some(ticks as u32)
}

/// The three roundings together move the period by little more than half a tick: the core of
/// `law_period_is_accurate`, over the numbers that occur in `period_of`.
proof fn lemma_roundings_add_up(
    sig: int,
    hz: int,
    clock: int,
    parts: int,
    quotient: int,
    ticks: int,
)
    requires
        0x80_0000 <= sig < 0x100_0000,
        0x1_0000_0000 <= hz <= 0x4_0000_0000,
        0 <= clock <= 100_000_000 * 0x10_0000,
        parts == 0x800 || parts == 0x1000 || parts == 0x2000,
        hz <= sig * 1000 + 0x200,
        sig * 1000 <= hz + 0x200,
        2 * (quotient * hz) <= 2 * (clock * parts) + hz,
        2 * (clock * parts) <= 2 * (quotient * hz) + hz,
        0 <= quotient,
        ticks == (2 * quotient + parts) / (2 * parts),
    ensures
        100 * (1000 * (ticks * sig)) <= 100 * clock + 51 * (1000 * sig),
        100 * clock <= 100 * (1000 * (ticks * sig)) + 51 * (1000 * sig),
{
    let sum = 2 * quotient + parts;
    assert(2 * parts * ticks <= sum < 2 * parts * ticks + 2 * parts) by {
        vstd::arithmetic::div_mod::lemma_fundamental_div_mod(sum, 2 * parts);
    }
    let th = ticks * hz;
    let qh = quotient * hz;
    let ts = ticks * sig;
    assert(2 * parts * th <= 2 * qh + parts * hz) by (nonlinear_arith)
        requires
            th == ticks * hz,
            qh == quotient * hz,
            hz > 0,
            2 * parts * ticks <= 2 * quotient + parts,
    ;
    assert(2 * qh + parts * hz <= 2 * parts * th + 2 * parts * hz) by (nonlinear_arith)
        requires
            th == ticks * hz,
            qh == quotient * hz,
            hz > 0,
            2 * quotient + parts <= 2 * parts * ticks + 2 * parts,
    ;
    assert(th <= 1000 * ts + 0x200 * ticks && 1000 * ts <= th + 0x200 * ticks)
        by (nonlinear_arith)
        requires
            th == ticks * hz,
            ts == ticks * sig,
            ticks >= 0,
            hz <= sig * 1000 + 0x200,
            sig * 1000 <= hz + 0x200,
    ;
    assert(parts == 0x800 ==> 2 * parts * th == 0x1000 * th && 2 * parts * hz == 0x1000 * hz
        && parts * hz == 0x800 * hz && clock * parts == 0x800 * clock) by (nonlinear_arith);
    assert(parts == 0x1000 ==> 2 * parts * th == 0x2000 * th && 2 * parts * hz == 0x2000 * hz
        && parts * hz == 0x1000 * hz && clock * parts == 0x1000 * clock) by (nonlinear_arith);
    assert(parts == 0x2000 ==> 2 * parts * th == 0x4000 * th && 2 * parts * hz == 0x4000 * hz
        && parts * hz == 0x2000 * hz && clock * parts == 0x2000 * clock) by (nonlinear_arith);
    assert(ticks <= 0x1_0000) by {
        if ticks > 0x1_0000 {
            assert(th >= 0x1_0001 * hz) by (nonlinear_arith)
                requires
                    th == ticks * hz,
                    ticks >= 0x1_0001,
                    hz > 0,
            ;
        }
    }
}

/// The period that the device is told is within 0.51 ticks of the exact one, which is the
/// clock rate of 100 MHz divided by the frequency.
pub proof fn law_period_is_accurate(bits: u32)
    requires
        !is_nan(bits),
        !too_low(bits),
        !too_high(bits),
    ensures
        100 * (period_of(bits) * scaled_value(bits)) <= 100 * scaled(100_000) + 51 * scaled_value(
            bits,
        ),
        100 * scaled(100_000) <= 100 * (period_of(bits) * scaled_value(bits)) + 51 * scaled_value(
            bits,
        ),
{
    lemma_range_by_pattern(bits);
    lemma_small_powers();
    let e = exponent(bits);
    assert(130 <= e <= 133);
    let sig = significand(bits);
    let hz = hertz(sig);
    let d = two_to((150 - e) as nat);
    let clock = 100_000_000 * d;
    let parts: nat = if clock < 2048 * hz {
        0x2000
    } else if clock < 4096 * hz {
        0x1000
    } else {
        0x800
    };
    let ticks = period_of(bits);
    lemma_hertz_is_near(sig);
    lemma_nearest_is_near(clock * parts, hz);
    lemma_roundings_add_up(
        sig as int,
        hz as int,
        clock as int,
        parts as int,
        nearest(clock * parts, hz) as int,
        ticks as int,
    );
    let unit = two_to((e - 1) as nat);
    let value = scaled_value(bits);
    lemma_two_to_sum((150 - e) as nat, (e - 1) as nat);
    assert(value == sig * unit);
    assert(scaled(100_000) == (100_000 * d) * unit) by (nonlinear_arith)
        requires
            scaled(100_000) == 100_000 * two_to(149),
            two_to(149) == d * unit,
    ;
    assert(100 * (ticks * value) <= 100 * scaled(100_000) + 51 * value) by (nonlinear_arith)
        requires
            value == sig * unit,
            scaled(100_000) == (100_000 * d) * unit,
            100 * (ticks * sig) <= 100 * (100_000 * d) + 51 * sig,
    ;
    assert(100 * scaled(100_000) <= 100 * (ticks * value) + 51 * value) by (nonlinear_arith)
        requires
            value == sig * unit,
            scaled(100_000) == (100_000 * d) * unit,
            100 * (100_000 * d) <= 100 * (ticks * sig) + 51 * sig,
    ;
}

/// The period that the device is told is that of a frequency from 15 to 80 kHz, in ticks.
pub proof fn law_period_is_in_range(bits: u32)
    requires
        !is_nan(bits),
        !too_low(bits),
        !too_high(bits),
    ensures
        1250 <= period_of(bits) <= 6667,
{
    law_period_is_accurate(bits);
    lemma_range_by_pattern(bits);
    lemma_two_to_grows(149, 149);
    let unit = two_to(149) as int;
    let value = scaled_value(bits);
    let ticks = period_of(bits) as int;
    assert(15 * unit <= value <= 80 * unit);
    if ticks >= 6668 {
        assert(ticks * value >= 6668 * value) by (nonlinear_arith)
            requires
                ticks >= 6668,
                value >= 0,
        ;
    }
    if ticks <= 1249 {
        assert(ticks * value <= 1249 * value) by (nonlinear_arith)
            requires
                ticks <= 1249,
                value >= 0,
        ;
    }
}

/// What the patterns stand for. The lowest ones count upward from zero in the smallest unit; one
/// more in the exponent field doubles the number; the sign bit negates it.
pub proof fn law_patterns_stand_for_numbers(bits: u32)
    ensures
        bits < 0x100_0000 ==> scaled_value(bits) == bits,
        0x80_0000 <= bits < 0x7F00_0000 ==> scaled_value((bits + 0x80_0000) as u32) == 2
            * scaled_value(bits),
        bits < 0x8000_0000 ==> scaled_value((bits + 0x8000_0000) as u32) == -scaled_value(bits),
{
    lemma_small_powers();
    if bits < 0x80_0000 {
        assert(exponent(bits) == 0 && fraction(bits) == bits);
    } else if bits < 0x100_0000 {
        assert(exponent(bits) == 1 && fraction(bits) == bits - 0x80_0000);
        assert(two_to((exponent(bits) - 1) as nat) == 1);
        assert((0x80_0000 + fraction(bits)) * 1 == bits);
    }
    if 0x80_0000 <= bits < 0x7F00_0000 {
        let up = (bits + 0x80_0000) as u32;
        let e = exponent(bits);
        let s = significand(bits);
        assert(exponent(up) == e + 1 && fraction(up) == fraction(bits));
        let power = two_to((e - 1) as nat);
        assert(two_to(e) == 2 * power);
        assert(s * (2 * power) == 2 * (s * power)) by (nonlinear_arith);
    }
    if bits < 0x8000_0000 {
        let other = (bits + 0x8000_0000) as u32;
        assert(exponent(other) == exponent(bits) && fraction(other) == fraction(bits));
    }
}

/// The number one, in the units of `scaled_value`.
pub open spec fn one() -> int {
    scaled_value(0x3F80_0000)
}

/// Whole numbers are multiples of one.
pub proof fn lemma_scaled_by_one(kilohertz: nat)
    ensures
        one() > 0,
        scaled(kilohertz) == kilohertz * one(),
{
    let bits: u32 = 0x3F80_0000;
    assert(exponent(bits) == 127 && fraction(bits) == 0);
    assert(two_to(23) == 0x80_0000) by {
        reveal_with_fuel(two_to, 24);
    }
    lemma_two_to_sum(23, 126);
    lemma_two_to_grows(149, 149);
}

/// A number is too low if and only if it is less than 15, and too high if and only if it is
/// greater than 80; the infinities are, each on its side. What is no number is neither, and its
/// period is zero.
pub proof fn law_range_is_from_15_to_80(bits: u32)
    ensures
        bits % 0x8000_0000 < 0x7F80_0000 ==> (too_low(bits) <==> scaled_value(bits) < 15 * one()),
        bits % 0x8000_0000 < 0x7F80_0000 ==> (too_high(bits) <==> scaled_value(bits) > 80 * one()),
        bits == 0x7F80_0000 ==> too_high(bits) && !too_low(bits),
        bits == 0xFF80_0000 ==> too_low(bits) && !too_high(bits),
        bits % 0x8000_0000 > 0x7F80_0000 ==> !too_low(bits) && !too_high(bits) && period_of(bits)
            == 0,
{
    lemma_range_by_pattern(bits);
    lemma_scaled_by_one(15);
    lemma_scaled_by_one(80);
}

/// `n` is `p / q`, rounded to the nearest whole number; of two equally near ones, the even one.
pub open spec fn is_nearest(n: int, p: int, q: int) -> bool {
    &&& 2 * (n * q) <= 2 * p + q
    &&& 2 * p <= 2 * (n * q) + q
    &&& 2 * (n * q) == 2 * p + q || 2 * p == 2 * (n * q) + q ==> n % 2 == 0
}

/// There is only one nearest whole number.
proof fn lemma_only_one_is_nearest(n: int, p: nat, q: nat)
    requires
        q > 0,
        is_nearest(n, p as int, q as int),
    ensures
        n == nearest(p, q),
{
    let whole = (p / q) as int;
    let rest = (p % q) as int;
    let d = q as int;
    vstd::arithmetic::div_mod::lemma_fundamental_div_mod(p as int, d);
    assert(d * whole == whole * d) by (nonlinear_arith);
    if n <= whole - 1 {
        assert(n * d <= whole * d - d) by (nonlinear_arith)
            requires
                n <= whole - 1,
                d > 0,
        ;
    }
    if n >= whole + 2 {
        assert(n * d >= whole * d + 2 * d) by (nonlinear_arith)
            requires
                n >= whole + 2,
                d > 0,
        ;
    }
    assert((whole + 1) * d == whole * d + d) by (nonlinear_arith);
}

/// The number one, in units of the last bit of a frequency from 8 to 128 kHz.
pub open spec fn one_in_last_bits(bits: u32) -> int {
    if bits < 0x4180_0000 {
        0x10_0000
    } else if bits < 0x4200_0000 {
        0x8_0000
    } else if bits < 0x4280_0000 {
        0x4_0000
    } else {
        0x2_0000
    }
}

/// How many single-precision numbers there are from one tick to the next, for a period of
/// `clock / hz` ticks: 24 bits in all.
pub open spec fn parts_of_tick(clock: int, hz: int) -> int {
    if clock < 2048 * hz {
        0x2000
    } else if clock < 4096 * hz {
        0x1000
    } else {
        0x800
    }
}

/// The period is that of single precision, to the last tick. In units of the frequency's last
/// bit: `m * unit` is a thousand times the frequency, rounded to the spacing of single-precision
/// numbers there; `k` is how many of the `parts` of a tick are in the clock rate divided by that,
/// rounded likewise; and the period is `k / parts`, rounded with halves upward.
pub proof fn law_period_is_that_of_single_precision(bits: u32, m: int, k: int)
    requires
        0x4170_0000 <= bits <= 0x42A0_0000,
        ({
            let sig = 0x80_0000 + bits % 0x80_0000;
            let clock = 100_000_000 * one_in_last_bits(bits);
            let unit = if 1000 * sig < 0x2_0000_0000 {
                0x200int
            } else {
                0x400int
            };
            &&& is_nearest(m, 1000 * sig, unit)
            &&& is_nearest(k, clock * parts_of_tick(clock, m * unit), m * unit)
        }),
    ensures
        ({
            let sig = 0x80_0000 + bits % 0x80_0000;
            let clock = 100_000_000 * one_in_last_bits(bits);
            let unit = if 1000 * sig < 0x2_0000_0000 {
                0x200int
            } else {
                0x400int
            };
            let parts = parts_of_tick(clock, m * unit);
            parts * (2 * period_of(bits) - 1) <= 2 * k < parts * (2 * period_of(bits) + 1)
        }),
{
    let sig = (0x80_0000 + bits % 0x80_0000) as nat;
    let clock: nat = (100_000_000 * one_in_last_bits(bits)) as nat;
    let unit: nat = if 1000 * sig < 0x2_0000_0000 {
        0x200
    } else {
        0x400
    };
    lemma_range_by_pattern(bits);
    lemma_small_powers();
    let e = exponent(bits);
    assert(e == bits / 0x80_0000);
    assert(130 <= e <= 133);
    assert(clock == 100_000_000 * two_to((150 - e) as nat));
    lemma_only_one_is_nearest(m, 1000 * sig, unit);
    let hz = hertz(sig);
    assert(hz == m * unit);
    lemma_hertz_is_near(sig);
    let parts = parts_of_tick(clock as int, hz as int);
    assert(clock * parts >= 0) by (nonlinear_arith)
        requires
            clock >= 0,
            parts > 0,
    ;
    lemma_only_one_is_nearest(k, (clock * parts) as nat, hz);
    let a = period_of(bits) as int;
    assert(a == whole_quotient(clock, hz));
    if parts == 0x2000 {
        assert(a == (2 * k + 0x2000) / 0x4000);
    } else if parts == 0x1000 {
        assert(a == (2 * k + 0x1000) / 0x2000);
    } else {
        assert(a == (2 * k + 0x800) / 0x1000);
    }
    assert(parts == 0x2000 ==> parts * (2 * a - 1) == 0x2000 * (2 * a - 1) && parts * (2 * a + 1)
        == 0x2000 * (2 * a + 1)) by (nonlinear_arith);
    assert(parts == 0x1000 ==> parts * (2 * a - 1) == 0x1000 * (2 * a - 1) && parts * (2 * a + 1)
        == 0x1000 * (2 * a + 1)) by (nonlinear_arith);
    assert(parts == 0x800 ==> parts * (2 * a - 1) == 0x800 * (2 * a - 1) && parts * (2 * a + 1)
        == 0x800 * (2 * a + 1)) by (nonlinear_arith);
}

} // verus!
