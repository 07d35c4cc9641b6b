//! Arithmetic on numbers in the binary64 format of IEEE 754, by their bits.
//!
//! A number that is not negative is known by its bits, which are in the order of the numbers. It
//! counts in units of the smallest number that can be told from zero. Results are rounded to the
//! nearest number, and to the even one where two are equally near.

use vstd::arithmetic::power2::*;
use vstd::prelude::*;

verus! {

/// Two to the fifty-second: the step from one exponent to the next.
pub const STEP: u64 = 0x10_0000_0000_0000;

/// The bits of infinity.
pub const INFINITY: u64 = 0x7ff0_0000_0000_0000;

/// The number with the given bits, in units; infinity counts as the number that would come next.
pub open spec fn units(bits: u64) -> nat {
    if bits < STEP {
        bits as nat
    } else {
        ((STEP + bits % STEP) * pow2((bits / STEP - 1) as nat)) as nat
    }
}

/// Whether a number is the one nearest to a fraction, the even one where two are equally near.
pub open spec fn nearest(n: nat, d: nat, bits: u64) -> bool {
    &&& bits <= INFINITY
    &&& bits > 0 ==> {
        let middle = d * (units((bits - 1) as u64) + units(bits));
        2 * n > middle || (2 * n == middle && bits % 2 == 0)
    }
    &&& bits < INFINITY ==> {
        let middle = d * (units(bits) + units((bits + 1) as u64));
        2 * n < middle || (2 * n == middle && bits % 2 == 0)
    }
}

/// The number nearest to a fraction.
pub open spec fn rounded(n: nat, d: nat) -> u64 {
    choose|bits: u64| nearest(n, d, bits)
}

/// Where a fraction lies between a multiple of a step and the next one.
#[derive(Debug, Clone, Copy, PartialEq, Eq, Structural)]
pub enum Place {
    Exact,
    Below,
    Middle,
    Above,
}

/// Whether a number lies at a place after a multiple of a step.
pub open spec fn placed(n: nat, step: nat, multiple: nat, place: Place) -> bool {
    match place {
        Place::Exact => n == multiple * step,
        Place::Below => multiple * step < n && 2 * n < (2 * multiple + 1) * step,
        Place::Middle => 2 * n == (2 * multiple + 1) * step,
        Place::Above => 2 * n > (2 * multiple + 1) * step && n < (multiple + 1) * step,
    }
}

proof fn units_of(t: nat, q: nat)
    requires
        q <= 2 * STEP,
        q >= STEP || t == 0,
        t * STEP + q <= INFINITY,
    ensures
        units((t * STEP + q) as u64) == q * pow2(t),
{
    lemma2_to64();
    let bits = (t * STEP + q) as u64;
    if q < STEP {
        assert(pow2(0) == 1);
    } else if q < 2 * STEP {
        assert(bits / STEP == t + 1 && bits % STEP == q - STEP) by (nonlinear_arith)
            requires
                bits == t * STEP + q,
                STEP <= q < 2 * STEP,
                STEP == 0x10_0000_0000_0000,
        ;
    } else {
        assert(bits / STEP == t + 2 && bits % STEP == 0) by (nonlinear_arith)
            requires
                bits == t * STEP + q,
                q == 2 * STEP,
                STEP == 0x10_0000_0000_0000,
        ;
        lemma_pow2_adds(t, 1);
        assert(pow2(1) == 2);
        assert(STEP * (pow2(t) * 2) == (2 * STEP) * pow2(t)) by (nonlinear_arith);
    }
}

/// The exponent of the step from a number to the next one.
pub open spec fn exponent_of(bits: u64) -> nat {
    if bits < STEP {
        0
    } else {
        (bits / STEP - 1) as nat
    }
}

/// How many of its steps a number counts.
pub open spec fn count_of(bits: u64) -> nat {
    (bits - exponent_of(bits) * STEP) as nat
}

proof fn parts_of(bits: u64)
    requires
        bits <= INFINITY,
    ensures
        count_of(bits) < 2 * STEP,
        count_of(bits) >= STEP || exponent_of(bits) == 0,
        exponent_of(bits) <= 2046,
        bits == exponent_of(bits) * STEP + count_of(bits),
        units(bits) == count_of(bits) * pow2(exponent_of(bits)),
{
    assert(bits >= STEP ==> bits - (bits / STEP - 1) * STEP == STEP + bits % STEP)
        by (nonlinear_arith)
        requires
            STEP == 0x10_0000_0000_0000,
    ;
    units_of(exponent_of(bits), count_of(bits));
}

proof fn next_is_larger(bits: u64)
    requires
        bits < INFINITY,
    ensures
        units((bits + 1) as u64) == units(bits) + pow2(exponent_of(bits)),
        units(bits) < units((bits + 1) as u64),
{
    parts_of(bits);
    let t = exponent_of(bits);
    let q = count_of(bits);
    units_of(t, q + 1);
    assert((q + 1) * pow2(t) == q * pow2(t) + pow2(t)) by (nonlinear_arith);
    lemma_pow2_pos(t);
}

/// Numbers are in the order of their bits.
pub proof fn bits_are_in_order(a: u64, b: u64)
    requires
        a < b <= INFINITY,
    ensures
        units(a) < units(b),
    decreases b - a,
{
    next_is_larger((b - 1) as u64);
    if a < b - 1 {
        bits_are_in_order(a, (b - 1) as u64);
    }
}

/// At most one number is nearest to a fraction.
pub proof fn one_is_nearest(n: nat, d: nat, a: u64, b: u64)
    requires
        d > 0,
        nearest(n, d, a),
        nearest(n, d, b),
    ensures
        a == b,
{
    if a != b {
        let (low, high) = if a < b {
            (a, b)
        } else {
            (b, a)
        };
        let after = (low + 1) as u64;
        let before = (high - 1) as u64;
        if low < before {
            bits_are_in_order(low, before);
            bits_are_in_order(after, high);
        }
        let x = units(low) + units(after);
        let y = units(before) + units(high);
        assert(x <= y ==> d * x <= d * y) by (nonlinear_arith);
        assert(x < y ==> d * x < d * y) by (nonlinear_arith)
            requires
                d > 0,
        ;
        assert(after <= high);
        if after == high {
            assert(low % 2 != high % 2);
        }
    }
}

/// A place after half a multiple, in double steps.
pub open spec fn half_place(multiple: nat, place: Place) -> Place {
    if multiple % 2 == 0 {
        if place is Exact {
            Place::Exact
        } else {
            Place::Below
        }
    } else if place is Exact {
        Place::Middle
    } else {
        Place::Above
    }
}

proof fn halved(n: nat, step: nat, multiple: nat, place: Place)
    requires
        step > 0,
        placed(n, step, multiple, place),
    ensures
        placed(n, 2 * step, multiple / 2, half_place(multiple, place)),
{
    let h = multiple / 2;
    if multiple % 2 == 0 {
        assert(h * (2 * step) == multiple * step) by (nonlinear_arith)
            requires
                multiple == 2 * h,
        ;
        assert((2 * h + 1) * (2 * step) == 2 * (multiple + 1) * step) by (nonlinear_arith)
            requires
                multiple == 2 * h,
        ;
        assert((2 * multiple + 1) * step < 2 * (multiple + 1) * step) by (nonlinear_arith)
            requires
                step > 0,
        ;
        assert((2 * multiple + 1) * step > 2 * (multiple * step)) by (nonlinear_arith)
            requires
                step > 0,
        ;
    } else {
        assert((2 * h + 1) * (2 * step) == 2 * (multiple * step)) by (nonlinear_arith)
            requires
                multiple == 2 * h + 1,
        ;
        assert((h + 1) * (2 * step) == (multiple + 1) * step) by (nonlinear_arith)
            requires
                multiple == 2 * h + 1,
        ;
        assert((2 * multiple + 1) * step > 2 * (multiple * step)) by (nonlinear_arith)
            requires
                step > 0,
        ;
        assert((2 * multiple + 1) * step < 2 * ((multiple + 1) * step)) by (nonlinear_arith)
            requires
                step > 0,
        ;
    }
    assert(2 * (multiple + 1) * step == 2 * ((multiple + 1) * step)) by (nonlinear_arith);
}

proof fn place_rounds(n: nat, d: nat, t: nat, q: nat, place: Place, bits: u64)
    requires
        d > 0,
        placed(n, pow2(t) * d, q, place),
        q < 2 * STEP,
        q >= STEP || t == 0,
        t < 2046,
        bits == t * STEP + q + if place is Above || (place is Middle && q % 2 == 1) {
            1int
        } else {
            0int
        },
    ensures
        nearest(n, d, bits),
{
    let g = pow2(t) * d;
    lemma_pow2_pos(t);
    assert(t * STEP + q + 1 <= INFINITY) by (nonlinear_arith)
        requires
            t < 2046,
            q < 2 * STEP,
            STEP == 0x10_0000_0000_0000,
            INFINITY == 0x7ff0_0000_0000_0000,
    ;
    let low = (t * STEP + q) as u64;
    let high = (low + 1) as u64;
    units_of(t, q);
    units_of(t, q + 1);
    let u = units(low);
    let v = units(high);
    assert(d * u == q * g) by (nonlinear_arith)
        requires
            u == q * pow2(t),
            g == pow2(t) * d,
    ;
    assert(d * v == (q + 1) * g) by (nonlinear_arith)
        requires
            v == (q + 1) * pow2(t),
            g == pow2(t) * d,
    ;
    assert(d * (u + v) == d * u + d * v) by (nonlinear_arith);
    assert(q * g + (q + 1) * g == (2 * q + 1) * g) by (nonlinear_arith);
    assert((q + 1) * g == q * g + g) by (nonlinear_arith);
    assert(g > 0) by (nonlinear_arith)
        requires
            g == pow2(t) * d,
            pow2(t) > 0,
            d > 0,
    ;
    assert(low % 2 == q % 2) by (nonlinear_arith)
        requires
            low == t * STEP + q,
            STEP == 0x10_0000_0000_0000,
    ;
    if bits == low {
        if low > 0 {
            let before = (low - 1) as u64;
            next_is_larger(before);
            let w = units(before);
            assert(d * (w + u) < 2 * (d * u)) by (nonlinear_arith)
                requires
                    w < u,
                    d > 0,
            ;
        }
    } else if high < INFINITY {
        let after = (high + 1) as u64;
        next_is_larger(high);
        let w = units(after);
        assert(d * (v + w) > 2 * (d * v)) by (nonlinear_arith)
            requires
                v < w,
                d > 0,
        ;
    }
}

proof fn too_large_rounds(n: nat, d: nat, t: nat, q: nat)
    requires
        d > 0,
        n >= q * (pow2(t) * d),
        q >= STEP,
        t >= 2046,
    ensures
        nearest(n, d, INFINITY),
{
    units_of(2046, STEP as nat);
    assert(2046 * STEP + STEP == INFINITY);
    if t > 2046 {
        lemma_pow2_strictly_increases(2046, t);
    }
    let top = units(INFINITY);
    let p = pow2(t);
    let least = pow2(2046);
    assert(q * (p * d) >= d * top) by (nonlinear_arith)
        requires
            q >= STEP,
            p >= least,
            top == STEP * least,
            d >= 0,
            least >= 0,
    ;
    let before = (INFINITY - 1) as u64;
    next_is_larger(before);
    let w = units(before);
    assert(d * (w + top) < 2 * (d * top)) by (nonlinear_arith)
        requires
            w < top,
            d > 0,
    ;
}

/// Rounds a number that is known as a count of steps and a place after it. The steps are powers of
/// two times a divisor, of which the number is to be taken; both may be given in finer units.
fn round_steps(
    count: u128,
    exponent: u64,
    place: Place,
    finer: u64,
    Ghost(n): Ghost<nat>,
    Ghost(divisor): Ghost<nat>,
) -> (r: u64)
    requires
        divisor > 0,
        exponent <= 10_000,
        finer <= 10_000,
        placed(n, pow2(exponent as nat) * divisor, count as nat, place),
        !(place is Exact) ==> count >= 2 * STEP,
    ensures
        nearest(n, pow2(finer as nat) * divisor, r),
        r == rounded(n, pow2(finer as nat) * divisor),
{
    let mut q: u128 = count;
    let mut t: u64 = exponent;
    let mut at: Place = place;
    let ghost d = pow2(finer as nat) * divisor;
    proof {
        lemma_pow2_pos(finer as nat);
        lemma2_to64();
        assert(d > 0) by (nonlinear_arith)
            requires
                d == pow2(finer as nat) * divisor,
                pow2(finer as nat) > 0,
                divisor > 0,
        ;
    }
    while q < STEP as u128 && t > finer
        invariant
            divisor > 0,
            t <= 10_000,
            placed(n, pow2(t as nat) * divisor, q as nat, at),
            !(at is Exact) ==> q >= 2 * STEP,
        decreases t,
    {
        proof {
            let p = pow2((t - 1) as nat);
            lemma_pow2_adds((t - 1) as nat, 1);
            lemma2_to64();
            assert((2 * q) * (p * divisor) == q * (p * 2 * divisor)) by (nonlinear_arith);
        }
        q = q * 2;
        t = t - 1;
    }
    let ghost mut left: nat = 128;
    proof {
        lemma_pow2_adds(64, 64);
        lemma2_to64();
        assert(q < pow2(128));
    }
    while q >= 2 * STEP as u128 || t < finer
        invariant
            divisor > 0,
            t <= 10_128,
            finer <= 10_000,
            q < pow2(left),
            left > 0 ==> t + left <= 10_128,
            t >= finer ==> (q >= STEP || t == finer),
            placed(n, pow2(t as nat) * divisor, q as nat, at),
        decreases q + if t < finer {
            (finer - t) as int
        } else {
            0
        },
    {
        proof {
            let p = pow2(t as nat);
            lemma_pow2_adds(t as nat, 1);
            lemma_pow2_pos(t as nat);
            lemma2_to64();
            assert(p * divisor > 0) by (nonlinear_arith)
                requires
                    p > 0,
                    divisor > 0,
            ;
            if left > 0 {
                left = (left - 1) as nat;
                lemma_pow2_adds(left, 1);
            }
            halved(n, p * divisor, q as nat, at);
            assert(2 * (p * divisor) == p * 2 * divisor) by (nonlinear_arith);
        }
        at = if q % 2 == 0 {
            if at == Place::Exact {
                Place::Exact
            } else {
                Place::Below
            }
        } else if at == Place::Exact {
            Place::Middle
        } else {
            Place::Above
        };
        q = q / 2;
        t = t + 1;
    }
    let e: u64 = t - finer;
    proof {
        lemma_pow2_adds(e as nat, finer as nat);
        assert(pow2(e as nat) * d == pow2(t as nat) * divisor) by (nonlinear_arith)
            requires
                pow2(t as nat) == pow2(e as nat) * pow2(finer as nat),
                d == pow2(finer as nat) * divisor,
        ;
    }
    if e >= 2046 {
        proof {
            let g = pow2(e as nat) * d;
            assert(n >= q * g) by (nonlinear_arith)
                requires
                    placed(n, g, q as nat, at),
                    g >= 0,
            ;
            too_large_rounds(n, d, e as nat, q as nat);
            one_is_nearest(n, d, INFINITY, rounded(n, d));
        }
        return INFINITY;
    }
    let up = at == Place::Above || (at == Place::Middle && q % 2 == 1);
    assert(e * STEP + q + 1 <= INFINITY) by (nonlinear_arith)
        requires
            e < 2046,
            q < 2 * STEP,
            STEP == 0x10_0000_0000_0000,
            INFINITY == 0x7ff0_0000_0000_0000,
    ;
    let r: u64 = e * STEP + q as u64 + if up {
        1
    } else {
        0
    };
    proof {
        place_rounds(n, d, e as nat, q as nat, at, r);
        one_is_nearest(n, d, r, rounded(n, d));
    }
    r
}

fn parts(bits: u64) -> (r: (u64, u64))
    requires
        bits <= INFINITY,
    ensures
        r.0 == count_of(bits),
        r.1 == exponent_of(bits),
        r.0 < 2 * STEP,
        r.0 >= STEP || r.1 == 0,
        r.1 <= 2046,
        units(bits) == r.0 * pow2(r.1 as nat),
{
    proof {
        parts_of(bits);
    }
    if bits < STEP {
        (bits, 0)
    } else {
        let exponent: u64 = bits / STEP - 1;
        assert(exponent * STEP <= bits) by (nonlinear_arith)
            requires
                exponent == bits / STEP - 1,
                STEP == 0x10_0000_0000_0000,
        ;
        (bits - exponent * STEP, exponent)
    }
}

/// A number times a whole number.
pub fn times_whole(a: u64, k: u64) -> (r: u64)
    requires
        a <= INFINITY,
    ensures
        r == rounded(units(a) * k as nat, 1),
        nearest(units(a) * k as nat, 1, r),
{
    let (count, exponent) = parts(a);
    let ghost p = pow2(exponent as nat);
    assert(0 <= count * k <= 0x1f_ffff_ffff_ffff * 0xffff_ffff_ffff_ffff) by (nonlinear_arith)
        requires
            0 <= count <= 0x1f_ffff_ffff_ffff,
            0 <= k <= 0xffff_ffff_ffff_ffff,
    ;
    let q: u128 = count as u128 * k as u128;
    proof {
        lemma2_to64();
        assert((count * p) * k == q * (p * 1)) by (nonlinear_arith)
            requires
                q == count * k,
        ;
    }
    round_steps(q, exponent, Place::Exact, 0, Ghost(units(a) * k as nat), Ghost(1))
}

proof fn finer_units_round_alike(n: nat, d: nat, c: nat, bits: u64)
    requires
        c > 0,
        nearest(n * c, c * d, bits),
    ensures
        nearest(n, d, bits),
{
    if bits > 0 {
        let u = units((bits - 1) as u64) + units(bits);
        let m = d * u;
        assert((c * d) * u == c * m) by (nonlinear_arith)
            requires
                m == d * u,
        ;
        assert(2 * (n * c) == c * (2 * n)) by (nonlinear_arith);
        assert(c * (2 * n) > c * m ==> 2 * n > m) by (nonlinear_arith)
            requires
                c > 0,
        ;
        assert(c * (2 * n) == c * m ==> 2 * n == m) by (nonlinear_arith)
            requires
                c > 0,
        ;
    }
    if bits < INFINITY {
        let u = units(bits) + units((bits + 1) as u64);
        let m = d * u;
        assert((c * d) * u == c * m) by (nonlinear_arith)
            requires
                m == d * u,
        ;
        assert(2 * (n * c) == c * (2 * n)) by (nonlinear_arith);
        assert(c * (2 * n) < c * m ==> 2 * n < m) by (nonlinear_arith)
            requires
                c > 0,
        ;
        assert(c * (2 * n) == c * m ==> 2 * n == m) by (nonlinear_arith)
            requires
                c > 0,
        ;
    }
}

/// A number divided by a whole number.
pub fn over_whole(a: u64, k: u64) -> (r: u64)
    requires
        a <= INFINITY,
        0 < k <= 0x10_0000,
    ensures
        r == rounded(units(a), k as nat),
        nearest(units(a), k as nat, r),
{
    let (count, exponent) = parts(a);
    let ghost p = pow2(exponent as nat);
    let fine: u128 = 0x400_0000_0000_0000_0000;
    assert(count * fine <= 0x1f_ffff_ffff_ffff * 0x400_0000_0000_0000_0000) by (nonlinear_arith)
        requires
            0 <= count <= 0x1f_ffff_ffff_ffff,
            fine == 0x400_0000_0000_0000_0000,
    ;
    let whole: u128 = count as u128 * fine;
    let q: u128 = whole / k as u128;
    let rest: u128 = whole % k as u128;
    let place = if rest == 0 {
        Place::Exact
    } else if 2 * rest < k as u128 {
        Place::Below
    } else if 2 * rest == k as u128 {
        Place::Middle
    } else {
        Place::Above
    };
    let ghost n = units(a) * pow2(74);
    proof {
        lemma2_to64();
        lemma_pow2_adds(64, 10);
        lemma_pow2_pos(exponent as nat);
        assert(pow2(74) == fine);
        let g = p * k as nat;
        assert(whole == q * k + rest) by (nonlinear_arith)
            requires
                q == whole / k as u128,
                rest == whole % k as u128,
                k > 0,
        ;
        assert(n == whole * p) by (nonlinear_arith)
            requires
                n == (count * p) * fine,
                whole == count * fine,
        ;
        assert(n == q * g + rest * p) by (nonlinear_arith)
            requires
                n == whole * p,
                whole == q * k + rest,
                g == p * k,
        ;
        assert((2 * q + 1) * g == 2 * (q * g) + k * p) by (nonlinear_arith)
            requires
                g == p * k,
        ;
        assert((q + 1) * g == q * g + k * p) by (nonlinear_arith)
            requires
                g == p * k,
        ;
        assert(rest * p < k * p) by (nonlinear_arith)
            requires
                rest < k,
                p > 0,
        ;
        assert(rest > 0 ==> rest * p > 0) by (nonlinear_arith)
            requires
                p > 0,
        ;
        assert(2 * rest < k ==> 2 * (rest * p) < k * p) by (nonlinear_arith)
            requires
                p > 0,
        ;
        assert(2 * rest == k ==> 2 * (rest * p) == k * p) by (nonlinear_arith);
        assert(2 * rest > k ==> 2 * (rest * p) > k * p) by (nonlinear_arith)
            requires
                p > 0,
        ;
        assert(rest == 0 ==> rest * p == 0) by (nonlinear_arith);
        if count > 0 {
            assert(q >= 2 * STEP) by (nonlinear_arith)
                requires
                    q == whole / k as u128,
                    whole >= 0x400_0000_0000_0000_0000,
                    0 < k <= 0x10_0000,
                    STEP == 0x10_0000_0000_0000,
            ;
        }
    }
    let r = round_steps(q, exponent, place, 74, Ghost(n), Ghost(k as nat));
    proof {
        finer_units_round_alike(units(a), k as nat, pow2(74), r);
        one_is_nearest(units(a), k as nat, r, rounded(units(a), k as nat));
    }
    r
}

/// The product of two numbers.
pub fn product(a: u64, b: u64) -> (r: u64)
    requires
        a < INFINITY,
        b < INFINITY,
    ensures
        r == rounded(units(a) * units(b), pow2(1074)),
        nearest(units(a) * units(b), pow2(1074), r),
{
    let (x, s) = parts(a);
    let (y, t) = parts(b);
    assert(0 <= x * y <= 0x1f_ffff_ffff_ffff * 0x1f_ffff_ffff_ffff) by (nonlinear_arith)
        requires
            0 <= x <= 0x1f_ffff_ffff_ffff,
            0 <= y <= 0x1f_ffff_ffff_ffff,
    ;
    let q: u128 = x as u128 * y as u128;
    let ghost n = units(a) * units(b);
    proof {
        let p = pow2(s as nat);
        let w = pow2(t as nat);
        lemma_pow2_adds(s as nat, t as nat);
        assert((x * p) * (y * w) == q * ((p * w) * 1)) by (nonlinear_arith)
            requires
                q == x * y,
        ;
    }
    round_steps(q, s + t, Place::Exact, 1074, Ghost(n), Ghost(1))
}

fn doubled(count: u64, times: u64) -> (r: u128)
    requires
        count < 2 * STEP,
        times <= 64,
    ensures
        r == count * pow2(times as nat),
        r < 0x20_0000_0000_0000 * 0x1_0000_0000_0000_0000,
{
    let mut r: u128 = count as u128;
    let mut i: u64 = 0;
    proof {
        lemma2_to64();
    }
    while i < times
        invariant
            i <= times <= 64,
            count < 2 * STEP,
            r == count * pow2(i as nat),
        decreases times - i,
    {
        proof {
            lemma_pow2_adds(i as nat, 1);
            lemma2_to64();
            lemma_pow2_strictly_increases(i as nat, 64);
            let p = pow2(i as nat);
            assert(count * (p * 2) == 2 * (count * p)) by (nonlinear_arith);
            assert(count * p <= 0x20_0000_0000_0000 * 0x1_0000_0000_0000_0000) by (nonlinear_arith)
                requires
                    0 <= count <= 0x20_0000_0000_0000,
                    0 <= p <= 0x1_0000_0000_0000_0000,
            ;
        }
        r = r * 2;
        i = i + 1;
    }
    proof {
        if times < 64 {
            lemma_pow2_strictly_increases(times as nat, 64);
        }
        lemma2_to64();
        let p = pow2(times as nat);
        assert(count * p < 0x20_0000_0000_0000 * 0x1_0000_0000_0000_0000) by (nonlinear_arith)
            requires
                0 <= count < 0x20_0000_0000_0000,
                0 <= p <= 0x1_0000_0000_0000_0000,
        ;
    }
    r
}

proof fn far_smaller(a: u64, b: u64)
    requires
        a < INFINITY,
        b < INFINITY,
        exponent_of(a) > exponent_of(b) + 64,
    ensures
        2 * units(b) < pow2((exponent_of(a) - 11) as nat),
        units(a) == (count_of(a) * 2048) * pow2((exponent_of(a) - 11) as nat),
        count_of(a) >= STEP,
{
    parts_of(a);
    parts_of(b);
    lemma2_to64();
    let t = exponent_of(a);
    let s = exponent_of(b);
    let g = pow2((t - 11) as nat);
    lemma_pow2_adds((t - 11) as nat, 11);
    let x = count_of(a);
    assert(x * (g * 2048) == (x * 2048) * g) by (nonlinear_arith);
    lemma2_to64_rest();
    lemma_pow2_adds(s, 54);
    if s + 54 < t - 11 {
        lemma_pow2_strictly_increases(s + 54, (t - 11) as nat);
    }
    let p = pow2(s);
    let y = count_of(b);
    lemma_pow2_pos(s);
    assert(2 * (y * p) < p * pow2(54)) by (nonlinear_arith)
        requires
            y < 2 * STEP,
            pow2(54) == 4 * STEP,
            p > 0,
    ;
}

/// The sum of two numbers, the larger one first.
fn ordered_sum(a: u64, b: u64) -> (r: u64)
    requires
        b <= a < INFINITY,
    ensures
        r == rounded(units(a) + units(b), 1),
        nearest(units(a) + units(b), 1, r),
{
    let (x, s) = parts(a);
    let (y, t) = parts(b);
    let ghost n = units(a) + units(b);
    proof {
        lemma2_to64();
    }
    assert(s >= t);
    if s - t <= 64 {
        let big = doubled(x, s - t);
        let q: u128 = big + y as u128;
        proof {
            lemma_pow2_adds((s - t) as nat, t as nat);
            let p = pow2(t as nat);
            let w = pow2((s - t) as nat);
            assert(x * (w * p) + y * p == q * (p * 1)) by (nonlinear_arith)
                requires
                    q == x * w + y,
            ;
        }
        round_steps(q, t, Place::Exact, 0, Ghost(n), Ghost(1))
    } else {
        let q: u128 = x as u128 * 2048;
        let place = if y == 0 {
            Place::Exact
        } else {
            Place::Below
        };
        proof {
            far_smaller(a, b);
            let g = pow2((s - 11) as nat);
            let p = pow2(t as nat);
            lemma_pow2_pos(t as nat);
            assert(y > 0 ==> y * p > 0) by (nonlinear_arith)
                requires
                    p > 0,
            ;
            assert(y == 0 ==> y * p == 0) by (nonlinear_arith);
            assert((2 * q + 1) * g == 2 * (q * g) + g) by (nonlinear_arith);
        }
        round_steps(q, s - 11, place, 0, Ghost(n), Ghost(1))
    }
}

/// The sum of two numbers.
pub fn sum(a: u64, b: u64) -> (r: u64)
    requires
        a <= INFINITY,
        b <= INFINITY,
    ensures
        r == rounded(units(a) + units(b), 1),
        nearest(units(a) + units(b), 1, r),
{
    if a == INFINITY || b == INFINITY {
        proof {
            let before = (INFINITY - 1) as u64;
            next_is_larger(before);
            let n = units(a) + units(b);
            assert(nearest(n, 1, INFINITY));
            one_is_nearest(n, 1, INFINITY, rounded(n, 1));
        }
        INFINITY
    } else if b <= a {
        ordered_sum(a, b)
    } else {
        ordered_sum(b, a)
    }
}

/// How far two numbers lie apart, in units.
pub open spec fn apart(a: u64, b: u64) -> nat {
    if units(a) >= units(b) {
        (units(a) - units(b)) as nat
    } else {
        (units(b) - units(a)) as nat
    }
}

fn ordered_difference(a: u64, b: u64) -> (r: u64)
    requires
        b <= a < INFINITY,
    ensures
        r == rounded(apart(a, b), 1),
        nearest(apart(a, b), 1, r),
{
    let (x, s) = parts(a);
    let (y, t) = parts(b);
    let ghost n = apart(a, b);
    proof {
        lemma2_to64();
        if b < a {
            bits_are_in_order(b, a);
        }
    }
    assert(s >= t);
    if s - t <= 64 {
        let big = doubled(x, s - t);
        proof {
            lemma_pow2_adds((s - t) as nat, t as nat);
            let p = pow2(t as nat);
            let w = pow2((s - t) as nat);
            lemma_pow2_pos(t as nat);
            assert(x * (w * p) == (x * w) * p) by (nonlinear_arith);
            let z = x * w;
            assert(z * p >= y * p ==> z >= y) by (nonlinear_arith)
                requires
                    p > 0,
            ;
            assert((z - y) * p == z * p - y * p) by (nonlinear_arith);
        }
        let q: u128 = big - y as u128;
        round_steps(q, t, Place::Exact, 0, Ghost(n), Ghost(1))
    } else {
        let whole: u128 = x as u128 * 2048;
        proof {
            far_smaller(a, b);
            let g = pow2((s - 11) as nat);
            let p = pow2(t as nat);
            lemma_pow2_pos(t as nat);
            assert(y > 0 ==> y * p > 0) by (nonlinear_arith)
                requires
                    p > 0,
            ;
            assert(y == 0 ==> y * p == 0) by (nonlinear_arith);
            assert((2 * (whole - 1) + 1) * g == 2 * (whole * g) - g) by (nonlinear_arith);
            assert(((whole - 1) + 1) * g == whole * g) by (nonlinear_arith);
        }
        if y == 0 {
            round_steps(whole, s - 11, Place::Exact, 0, Ghost(n), Ghost(1))
        } else {
            round_steps(whole - 1, s - 11, Place::Above, 0, Ghost(n), Ghost(1))
        }
    }
}

/// How far two numbers lie apart.
pub fn distance(a: u64, b: u64) -> (r: u64)
    requires
        a < INFINITY,
        b < INFINITY,
    ensures
        r == rounded(apart(a, b), 1),
        nearest(apart(a, b), 1, r),
{
    if b <= a {
        ordered_difference(a, b)
    } else {
        proof {
            bits_are_in_order(a, b);
        }
        ordered_difference(b, a)
    }
}

/// The whole number nearest to a number, the larger one where two are equally near.
pub open spec fn nearest_whole(a: u64) -> nat {
    (2 * units(a) + pow2(1074)) / (2 * pow2(1074))
}

proof fn whole_quotient(x: nat, g: nat, q: nat)
    requires
        g > 0,
        q * g <= x < (q + 1) * g,
    ensures
        x / g == q,
{
    assert((q + 1) * g == q * g + g) by (nonlinear_arith);
    vstd::arithmetic::div_mod::lemma_fundamental_div_mod_converse(
        x as int,
        g as int,
        q as int,
        x - q * g,
    );
}

/// The whole number nearest to a number below two to the fifty-third, the larger one where two are
/// equally near.
pub fn round_whole(a: u64) -> (r: u64)
    requires
        a <= INFINITY,
        exponent_of(a) <= 1074,
    ensures
        r == nearest_whole(a),
        r <= 2 * STEP,
{
    let (count, exponent) = parts(a);
    let ghost n = units(a);
    let mut q: u64 = count;
    let mut t: u64 = exponent;
    let mut at: Place = Place::Exact;
    while t < 1074
        invariant
            t <= 1074,
            q < 2 * STEP,
            placed(n, pow2(t as nat), q as nat, at),
        decreases 1074 - t,
    {
        proof {
            lemma_pow2_adds(t as nat, 1);
            lemma_pow2_pos(t as nat);
            lemma2_to64();
            halved(n, pow2(t as nat), q as nat, at);
        }
        at = if q % 2 == 0 {
            if at == Place::Exact {
                Place::Exact
            } else {
                Place::Below
            }
        } else if at == Place::Exact {
            Place::Middle
        } else {
            Place::Above
        };
        q = q / 2;
        t = t + 1;
    }
    let r: u64 = if at == Place::Middle || at == Place::Above {
        q + 1
    } else {
        q
    };
    proof {
        let g = pow2(1074);
        lemma_pow2_pos(1074);
        let qi = q as int;
        assert((2 * qi + 1) * g == 2 * (qi * g) + g) by (nonlinear_arith);
        assert((qi + 1) * g == qi * g + g) by (nonlinear_arith);
        assert(r * (2 * g) == 2 * (r * g)) by (nonlinear_arith);
        assert((r + 1) * (2 * g) == 2 * (r * g) + 2 * g) by (nonlinear_arith);
        whole_quotient(2 * n + g, 2 * g, r as nat);
    }
    r
}

/// A number nearest to a fraction does not lie beyond a number that the fraction does not reach
/// beyond.
pub proof fn rounding_keeps_bounds(n: nat, d: nat, bits: u64, bound: u64)
    requires
        d > 0,
        nearest(n, d, bits),
        bound <= INFINITY,
        n <= d * units(bound),
    ensures
        bits <= bound,
{
    if bits > bound {
        let before = (bits - 1) as u64;
        bits_are_in_order(bound, bits);
        if bound < before {
            bits_are_in_order(bound, before);
        }
        let u = units(before);
        let v = units(bits);
        let w = units(bound);
        assert(d * (u + v) > 2 * (d * w)) by (nonlinear_arith)
            requires
                u >= w,
                v > w,
                d > 0,
        ;
    }
}

/// A number in the binary64 format, or what the format holds in the place of one.
#[derive(Debug, Clone, Copy, PartialEq, Eq, Structural)]
pub struct Binary64 {
    pub bits: u64,
}

/// The bit that tells negative numbers.
pub const SIGN: u64 = 0x8000_0000_0000_0000;

impl Binary64 {
    /// The bits without the sign.
    pub open spec fn magnitude(self) -> u64 {
        self.bits % SIGN
    }

    /// Whether the sign is set; zero may have it too.
    pub open spec fn negative(self) -> bool {
        self.bits >= SIGN
    }

    /// Whether the bits stand for a number below infinity.
    pub open spec fn finite(self) -> bool {
        self.magnitude() < INFINITY
    }

    pub fn absolute(&self) -> (r: u64)
        ensures
            r == self.magnitude(),
    {
        self.bits % SIGN
    }

    pub fn is_negative(&self) -> (r: bool)
        ensures
            r == self.negative(),
    {
        self.bits >= SIGN
    }

    pub fn is_finite(&self) -> (r: bool)
        ensures
            r == self.finite(),
    {
        self.bits % SIGN < INFINITY
    }
}

/// Whether bits stand for a number from zero up to a whole number.
pub open spec fn up_to(value: Binary64, whole: nat) -> bool {
    &&& value.finite()
    &&& !value.negative() || value.magnitude() == 0
    &&& units(value.magnitude()) <= whole * pow2(1074)
}

/// Some whole numbers, by their bits.
pub proof fn whole_numbers()
    ensures
        units(0x3ff0_0000_0000_0000) == pow2(1074),
        units(0x4059_0000_0000_0000) == 100 * pow2(1074),
        units(0x408f_4000_0000_0000) == 1000 * pow2(1074),
        units(0x41f0_0000_0000_0000) == 0x1_0000_0000 * pow2(1074),
        exponent_of(0x41f0_0000_0000_0000) <= 1074,
{
    lemma2_to64();
    lemma2_to64_rest();
    lemma_pow2_adds(52, 1022);
    units_of(1022, 0x10_0000_0000_0000);
    lemma_pow2_adds(46, 1028);
    units_of(1028, 0x19_0000_0000_0000);
    let p = pow2(1028);
    assert(0x19_0000_0000_0000 * p == 100 * (0x4000_0000_0000 * p)) by (nonlinear_arith);
    lemma_pow2_adds(43, 1031);
    units_of(1031, 0x1f_4000_0000_0000);
    let w = pow2(1031);
    assert(0x1f_4000_0000_0000 * w == 1000 * (0x800_0000_0000 * w)) by (nonlinear_arith);
    lemma_pow2_adds(20, 1054);
    units_of(1054, 0x10_0000_0000_0000);
    let v = pow2(1054);
    assert(0x10_0000_0000_0000 * v == 0x1_0000_0000 * (0x10_0000 * v)) by (nonlinear_arith);
}

/// Whether bits stand for a number from zero up to the whole number with the given bits.
pub(crate) fn is_up_to(value: &Binary64, limit: u64, Ghost(whole): Ghost<nat>) -> (r: bool)
    requires
        limit < INFINITY,
        units(limit) == whole * pow2(1074),
    ensures
        r == up_to(*value, whole),
{
    let m: u64 = value.absolute();
    proof {
        if m < INFINITY {
            if m < limit {
                bits_are_in_order(m, limit);
            } else if limit < m {
                bits_are_in_order(limit, m);
            }
        }
    }
    (!value.is_negative() || m == 0) && m <= limit
}

proof fn some_is_nearest(n: nat, d: nat, bits: u64)
    requires
        d > 0,
        bits <= INFINITY,
        bits < INFINITY ==> 2 * n < d * (units(bits) + units((bits + 1) as u64)),
    ensures
        exists|r: u64| nearest(n, d, r),
    decreases bits,
{
    if bits == 0 {
        assert(nearest(n, d, bits));
    } else {
        let before = (bits - 1) as u64;
        let middle = d * (units(before) + units(bits));
        if 2 * n > middle {
            assert(nearest(n, d, bits));
        } else if 2 * n < middle {
            some_is_nearest(n, d, before);
        } else if bits % 2 == 0 {
            assert(nearest(n, d, bits));
        } else {
            if before > 0 {
                let earlier = (before - 1) as u64;
                bits_are_in_order(earlier, bits);
                let u = units(earlier);
                let v = units(before);
                let w = units(bits);
                assert(d * (u + v) < d * (v + w)) by (nonlinear_arith)
                    requires
                        u < w,
                        d > 0,
                ;
            }
            assert(nearest(n, d, before));
        }
    }
}

/// Every fraction has a nearest number.
pub proof fn rounded_is_nearest(n: nat, d: nat)
    requires
        d > 0,
    ensures
        nearest(n, d, rounded(n, d)),
{
    some_is_nearest(n, d, INFINITY);
}

/// A number nearest to a fraction does not lie below a number that the fraction reaches.
pub proof fn rounding_keeps_floors(n: nat, d: nat, bits: u64, floor: u64)
    requires
        d > 0,
        nearest(n, d, bits),
        floor <= INFINITY,
        n >= d * units(floor),
    ensures
        bits >= floor,
{
    if bits < floor {
        let after = (bits + 1) as u64;
        bits_are_in_order(bits, floor);
        if after < floor {
            bits_are_in_order(after, floor);
        }
        let u = units(bits);
        let v = units(after);
        let w = units(floor);
        assert(d * (u + v) < 2 * (d * w)) by (nonlinear_arith)
            requires
                u < w,
                v <= w,
                d > 0,
        ;
    }
}

proof fn steps_grow(a: u64, b: u64)
    requires
        a <= b <= INFINITY,
    ensures
        pow2(exponent_of(a)) <= pow2(exponent_of(b)),
{
    let s = exponent_of(a);
    let t = exponent_of(b);
    assert(s <= t) by (nonlinear_arith)
        requires
            a <= b,
            s == (if a < STEP {
                0
            } else {
                a / STEP - 1
            }),
            t == (if b < STEP {
                0
            } else {
                b / STEP - 1
            }),
            STEP == 0x10_0000_0000_0000,
    ;
    lemma_pow2_adds(s, (t - s) as nat);
    lemma_pow2_pos(s);
    lemma_pow2_pos((t - s) as nat);
    let p = pow2(s);
    let q = pow2((t - s) as nat);
    assert(p <= p * q) by (nonlinear_arith)
        requires
            p > 0,
            q >= 1,
    ;
}

/// A number nearest to a fraction lies no further from it than half the step at a number that it
/// does not exceed.
pub proof fn roundings_are_close(n: nat, d: nat, bits: u64, bound: u64)
    requires
        d > 0,
        nearest(n, d, bits),
        bits <= bound < INFINITY,
    ensures
        2 * n - 2 * (d * units(bits)) <= d * pow2(exponent_of(bound)),
        2 * (d * units(bits)) - 2 * n <= d * pow2(exponent_of(bound)),
{
    let u = units(bits);
    let step = pow2(exponent_of(bound));
    steps_grow(bits, bound);
    next_is_larger(bits);
    let v = units((bits + 1) as u64);
    assert(d * (u + v) <= 2 * (d * u) + d * step) by (nonlinear_arith)
        requires
            v <= u + step,
            d > 0,
    ;
    if bits > 0 {
        let before = (bits - 1) as u64;
        next_is_larger(before);
        steps_grow(before, bound);
        let w = units(before);
        assert(d * (w + u) >= 2 * (d * u) - d * step) by (nonlinear_arith)
            requires
                w >= u - step,
                d > 0,
        ;
    } else {
        assert(d * u == 0) by (nonlinear_arith)
            requires
                u == 0,
        ;
        lemma_pow2_pos(exponent_of(bound));
        assert(0 <= d * step) by (nonlinear_arith);
    }
}

/// The number nearest to a whole number.
pub fn from_whole(k: u64) -> (r: u64)
    ensures
        r == rounded(k as nat * pow2(1074), 1),
        nearest(k as nat * pow2(1074), 1, r),
{
    proof {
        lemma2_to64();
        assert(k * pow2(1074) == k * (pow2(1074) * 1)) by (nonlinear_arith);
    }
    round_steps(k as u128, 1074, Place::Exact, 0, Ghost(k as nat * pow2(1074)), Ghost(1))
}

/// A number without its fraction, rounded; numbers from two to the fifty-third upwards have none.
pub open spec fn without_fraction(a: u64) -> u64 {
    if exponent_of(a) > 1074 {
        a
    } else {
        rounded(nearest_whole(a) * pow2(1074), 1)
    }
}

/// A number without its fraction, rounded.
pub fn drop_fraction(a: u64) -> (r: u64)
    requires
        a <= INFINITY,
    ensures
        r == without_fraction(a),
        r <= INFINITY,
{
    let (_, exponent) = parts(a);
    if exponent > 1074 {
        a
    } else {
        from_whole(round_whole(a))
    }
}

/// The bits that stand for no number.
pub const NO_NUMBER: u64 = 0x7ff8_0000_0000_0000;

/// A number in units, with its sign.
pub open spec fn signed_units(value: Binary64) -> int {
    if value.negative() {
        -(units(value.magnitude()) as int)
    } else {
        units(value.magnitude()) as int
    }
}

/// Whether a value is at least as large as another; of what is no number nothing is.
pub open spec fn at_least(a: Binary64, b: Binary64) -> bool {
    &&& a.magnitude() <= INFINITY && b.magnitude() <= INFINITY
    &&& signed_units(a) >= signed_units(b)
}

/// A magnitude with a sign.
pub open spec fn signed(magnitude: u64, negative: bool) -> Binary64 {
    Binary64 {
        bits: if negative {
            (magnitude + SIGN) as u64
        } else {
            magnitude
        },
    }
}

/// The sum of two values.
pub open spec fn plus(a: Binary64, b: Binary64) -> Binary64 {
    let x = a.magnitude();
    let y = b.magnitude();
    if x > INFINITY || y > INFINITY || (x == INFINITY && y == INFINITY && a.negative()
        != b.negative()) {
        Binary64 { bits: NO_NUMBER }
    } else if x == INFINITY {
        a
    } else if y == INFINITY {
        b
    } else if a.negative() == b.negative() {
        signed(rounded(units(x) + units(y), 1), a.negative())
    } else if x == y {
        Binary64 { bits: 0 }
    } else {
        signed(
            rounded(apart(x, y), 1),
            if x > y {
                a.negative()
            } else {
                b.negative()
            },
        )
    }
}

fn with_sign(magnitude: u64, negative: bool) -> (r: Binary64)
    requires
        magnitude <= INFINITY,
    ensures
        r == signed(magnitude, negative),
{
    if negative {
        Binary64 { bits: magnitude + SIGN }
    } else {
        Binary64 { bits: magnitude }
    }
}

impl Binary64 {
    /// Whether the value is at least as large as another.
    pub fn reaches(&self, other: &Binary64) -> (r: bool)
        ensures
            r == at_least(*self, *other),
    {
        let x: u64 = self.absolute();
        let y: u64 = other.absolute();
        if x > INFINITY || y > INFINITY {
            return false;
        }
        proof {
            if x < y {
                bits_are_in_order(x, y);
            } else if y < x {
                bits_are_in_order(y, x);
            }
            if 0 < x {
                bits_are_in_order(0, x);
            }
            if 0 < y {
                bits_are_in_order(0, y);
            }
            assert(units(0) == 0);
        }
        if self.is_negative() {
            if other.is_negative() {
                x <= y
            } else {
                x == 0 && y == 0
            }
        } else {
            other.is_negative() || x >= y
        }
    }

    /// The sum of the value and another.
    pub fn add_to(&self, other: &Binary64) -> (r: Binary64)
        ensures
            r == plus(*self, *other),
    {
        let x: u64 = self.absolute();
        let y: u64 = other.absolute();
        let a = self.is_negative();
        let b = other.is_negative();
        if x > INFINITY || y > INFINITY || (x == INFINITY && y == INFINITY && a != b) {
            Binary64 { bits: NO_NUMBER }
        } else if x == INFINITY {
            Binary64 { bits: self.bits }
        } else if y == INFINITY {
            Binary64 { bits: other.bits }
        } else if a == b {
            with_sign(sum(x, y), a)
        } else if x == y {
            Binary64 { bits: 0 }
        } else if x > y {
            with_sign(distance(x, y), a)
        } else {
            with_sign(distance(x, y), b)
        }
    }
}

/// What is added to a value from zero upwards does not make it smaller.
pub proof fn sums_do_not_shrink(a: Binary64, b: Binary64)
    requires
        !a.negative(),
        !b.negative(),
        a.magnitude() <= INFINITY,
        b.magnitude() <= INFINITY,
    ensures
        at_least(plus(a, b), a),
        !plus(a, b).negative(),
        plus(a, b).magnitude() <= INFINITY,
{
    let x = a.magnitude();
    let y = b.magnitude();
    if x < INFINITY && y < INFINITY {
        let n = units(x) + units(y);
        rounded_is_nearest(n, 1);
        let r = rounded(n, 1);
        rounding_keeps_floors(n, 1, r, x);
        if x < r {
            bits_are_in_order(x, r);
        }
    } else if x < INFINITY {
        bits_are_in_order(x, INFINITY);
    }
}

/// Two to the sixty-fourth, by its bits.
pub proof fn large_whole_number()
    ensures
        units(0x43f0_0000_0000_0000) == 0x1_0000_0000_0000_0000 * pow2(1074),
{
    lemma2_to64();
    lemma2_to64_rest();
    units_of(1086, 0x10_0000_0000_0000);
    lemma_pow2_adds(1074, 12);
    let p = pow2(1074);
    assert(0x10_0000_0000_0000 * (p * 0x1000) == 0x1_0000_0000_0000_0000 * p) by (nonlinear_arith);
}

/// A million times the number nearest to a millionth is at least one half.
pub proof fn a_million_millionths()
    ensures
        1_000_000 * units(0x3eb0_c6f7_a0b5_ed8d) >= units(0x3fe0_0000_0000_0000),
        2 * units(0x3fe0_0000_0000_0000) == pow2(1074),
{
    lemma2_to64();
    lemma2_to64_rest();
    units_of(1002, 0x10_c6f7_a0b5_ed8d);
    units_of(1021, 0x10_0000_0000_0000);
    lemma_pow2_adds(1002, 19);
    lemma_pow2_adds(52, 1021);
    lemma_pow2_adds(1073, 1);
    let p = pow2(1002);
    assert(1_000_000 * (0x10_c6f7_a0b5_ed8d * p) >= 0x10_0000_0000_0000 * (p * 0x8_0000))
        by (nonlinear_arith);
}

/// Two powers of two by their bits, and how near a million millionths come to one.
pub proof fn powers_and_millionths()
    ensures
        units(0x40c0_0000_0000_0000) == 0x2000 * pow2(1074),
        exponent_of(0x40c0_0000_0000_0000) == 1035,
        units(0x4200_0000_0000_0000) == 0x2_0000_0000 * pow2(1074),
        exponent_of(0x4200_0000_0000_0000) == 1055,
        1_000_000 * units(0x3eb0_c6f7_a0b5_ed8d) <= pow2(1074) + 0x8_0000 * pow2(1002),
        1_000_000 * units(0x3eb0_c6f7_a0b5_ed8d) >= pow2(1074) - 0x8_0000 * pow2(1002),
{
    lemma2_to64();
    lemma2_to64_rest();
    units_of(1035, 0x10_0000_0000_0000);
    lemma_pow2_adds(39, 1035);
    let p = pow2(1035);
    assert(0x10_0000_0000_0000 * p == 0x2000 * (0x80_0000_0000 * p)) by (nonlinear_arith);
    units_of(1055, 0x10_0000_0000_0000);
    lemma_pow2_adds(19, 1055);
    let q = pow2(1055);
    assert(0x10_0000_0000_0000 * q == 0x2_0000_0000 * (0x8_0000 * q)) by (nonlinear_arith);
    units_of(1002, 0x10_c6f7_a0b5_ed8d);
    lemma_pow2_adds(36, 36);
    lemma_pow2_adds(72, 1002);
    let r = pow2(1002);
    assert(pow2(36) == 0x10_0000_0000);
    let m = units(0x3eb0_c6f7_a0b5_ed8d);
    assert(m == 0x10_c6f7_a0b5_ed8d * r);
    assert(pow2(72) == 0x100_0000_0000_0000_0000);
    assert(1_000_000 * m <= 0x100_0000_0000_0000_0000 * r + 0x8_0000 * r) by (nonlinear_arith)
        requires
            m == 0x10_c6f7_a0b5_ed8d * r,
            r >= 0,
    ;
    assert(1_000_000 * m >= 0x100_0000_0000_0000_0000 * r - 0x8_0000 * r) by (nonlinear_arith)
        requires
            m == 0x10_c6f7_a0b5_ed8d * r,
            r >= 0,
    ;
}

/// From one half upwards a number without its fraction is at least one.
pub proof fn halves_round_up(a: u64)
    requires
        0x3fe0_0000_0000_0000 <= a <= INFINITY,
    ensures
        without_fraction(a) <= INFINITY,
        units(without_fraction(a)) >= pow2(1074),
{
    whole_numbers();
    a_million_millionths();
    let one = pow2(1074);
    lemma_pow2_pos(1074);
    if exponent_of(a) > 1074 {
        assert(a > 0x3ff0_0000_0000_0000);
        bits_are_in_order(0x3ff0_0000_0000_0000, a);
    } else {
        if 0x3fe0_0000_0000_0000 < a {
            bits_are_in_order(0x3fe0_0000_0000_0000, a);
        }
        let k = nearest_whole(a);
        let x = 2 * units(a) + one;
        assert(x >= 2 * one);
        assert(k >= 1) by (nonlinear_arith)
            requires
                k == x / (2 * one),
                x >= 2 * one,
                one > 0,
        ;
        let n = k * one;
        assert(n >= one) by (nonlinear_arith)
            requires
                n == k * one,
                k >= 1,
        ;
        rounded_is_nearest(n, 1);
        let r = rounded(n, 1);
        rounding_keeps_floors(n, 1, r, 0x3ff0_0000_0000_0000);
        if 0x3ff0_0000_0000_0000 < r {
            bits_are_in_order(0x3ff0_0000_0000_0000, r);
        }
    }
}

} // verus!
