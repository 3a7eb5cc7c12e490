//! Scaling a delay by a fraction in double precision.
//!
//! The fraction is `0.5 + (seed % 1000) / 1000.0 * 0.5`, the delay is scaled by it and cut to whole
//! milliseconds. Every step rounds as IEEE 754 double precision does, to 53 significant bits with
//! ties to even; the steps are carried out on integers, so that what they give is exact.
use vstd::arithmetic::power2::{
    lemma2_to64, lemma2_to64_rest, lemma_pow2_adds, lemma_pow2_pos, lemma_pow2_subtracts,
    lemma_pow2_unfold, pow2,
};
use vstd::prelude::*;

verus! {

/// `num / den` rounded to the nearest integer, to the even one of two equally near.
pub open spec fn nearest_even(num: nat, den: nat) -> nat {
    let down = num / den;
    let rest = num % den;
    if 2 * rest < den || (2 * rest == den && down % 2 == 0) {
        down
    } else {
        down + 1
    }
}

/// How many bits `n` has beyond 53.
pub open spec fn excess_bits(n: nat) -> nat
    decreases n,
{
    if n < 0x20_0000_0000_0000 {
        0
    } else {
        1 + excess_bits(n / 2)
    }
}

/// The double nearest to the integer `n`, which is an integer too.
pub open spec fn double_of(n: nat) -> nat {
    nearest_even(n, pow2(excess_bits(n))) * pow2(excess_bits(n))
}

/// How often `num` has to be doubled to reach `goal`.
pub open spec fn doublings(num: nat, goal: nat) -> nat
    decreases (if num < goal { goal - num } else { 0 }),
{
    if num == 0 || num >= goal {
        0
    } else {
        1 + doublings(2 * num, goal)
    }
}

/// What `k` times two to this power has to reach for the quotient by 1000 to have 53 bits.
pub open spec fn quotient_goal() -> nat {
    4_503_599_627_370_496_000
}

/// The significant bits of `k / 1000.0`: the double is this over `pow2(doublings(k, goal))`.
pub open spec fn quotient_bits(k: nat) -> nat {
    nearest_even(k * pow2(doublings(k, quotient_goal())), 1000)
}

/// The double `0.5 + k / 1000.0 * 0.5`, in units of two to the power of -53.
pub open spec fn fraction_bits(k: nat) -> nat {
    if k == 0 {
        0x10_0000_0000_0000
    } else {
        0x10_0000_0000_0000 + nearest_even(
            quotient_bits(k),
            pow2((doublings(k, quotient_goal()) - 52) as nat),
        )
    }
}

/// `delay` scaled by the fraction that `seed` selects, cut to an integer.
pub open spec fn scaled(delay: nat, seed: nat) -> nat {
    double_of(double_of(delay) * fraction_bits(seed % 1000)) / 0x20_0000_0000_0000
}

proof fn lemma_nearest_even_bounds(num: nat, den: nat)
    requires
        den > 0,
    ensures
        2 * (nearest_even(num, den) * den) <= 2 * num + den,
        2 * num <= 2 * (nearest_even(num, den) * den) + den,
        den == 1 ==> nearest_even(num, den) == num,
{
    let down = num / den;
    let rest = num % den;
    vstd::arithmetic::div_mod::lemma_fundamental_div_mod(num as int, den as int);
    assert(num == den * down + rest);
    assert((down + 1) * den == down * den + den) by (nonlinear_arith);
    assert(den * down == down * den) by (nonlinear_arith);
}

/// What a multiple of `den` bounds, the nearest multiple to it is bounded by too.
proof fn lemma_nearest_even_between(num: nat, den: nat, multiple: nat)
    requires
        den > 0,
    ensures
        num <= multiple * den ==> nearest_even(num, den) <= multiple,
        num >= multiple * den ==> nearest_even(num, den) >= multiple,
{
    let down = num / den;
    let rest = num % den;
    vstd::arithmetic::div_mod::lemma_fundamental_div_mod(num as int, den as int);
    assert(den * down == down * den) by (nonlinear_arith);
    if num <= multiple * den {
        if down >= multiple {
            assert(down * den >= multiple * den) by (nonlinear_arith)
                requires
                    down >= multiple,
            ;
            assert(down <= multiple) by (nonlinear_arith)
                requires
                    down * den <= multiple * den,
                    den > 0,
            ;
        }
    }
    if num >= multiple * den {
        if down < multiple {
            assert((down + 1) * den <= multiple * den) by (nonlinear_arith)
                requires
                    down + 1 <= multiple,
            ;
            assert((down + 1) * den == down * den + den) by (nonlinear_arith);
        }
    }
}

/// A number lies between the power of two of its excess bits and twice that, times 2^52.
proof fn lemma_excess_bits(n: nat)
    ensures
        n < 0x20_0000_0000_0000 * pow2(excess_bits(n)),
        excess_bits(n) > 0 ==> n >= 0x10_0000_0000_0000 * pow2(excess_bits(n)),
    decreases n,
{
    let t = excess_bits(n);
    lemma2_to64();
    if n >= 0x20_0000_0000_0000 {
        lemma_excess_bits(n / 2);
        lemma_pow2_unfold(t);
        if excess_bits(n / 2) == 0 {
            assert(t == 1);
        }
    }
}

/// A number of 53 bits times a power of two stands unrounded, and bounds what it bounds.
proof fn lemma_double_between(n: nat, bits: nat, shift: nat)
    requires
        bits <= 0x20_0000_0000_0000,
    ensures
        n <= bits * pow2(shift) ==> double_of(n) <= bits * pow2(shift),
        n >= bits * pow2(shift) ==> double_of(n) >= bits * pow2(shift),
{
    let t = excess_bits(n);
    let p = pow2(t);
    lemma_excess_bits(n);
    lemma_pow2_pos(t);
    lemma_pow2_pos(shift);
    lemma2_to64();
    let bound = bits * pow2(shift);
    if t <= shift {
        let multiple = bits * pow2((shift - t) as nat);
        lemma_pow2_adds((shift - t) as nat, t);
        assert(multiple * p == bound) by (nonlinear_arith)
            requires
                multiple == bits * pow2((shift - t) as nat),
                bound == bits * pow2(shift),
                pow2(shift) == pow2((shift - t) as nat) * p,
        ;
        lemma_nearest_even_between(n, p, multiple);
        if n <= bound {
            assert(nearest_even(n, p) * p <= multiple * p) by (nonlinear_arith)
                requires
                    nearest_even(n, p) <= multiple,
            ;
        }
        if n >= bound {
            assert(nearest_even(n, p) * p >= multiple * p) by (nonlinear_arith)
                requires
                    nearest_even(n, p) >= multiple,
            ;
        }
    } else {
        // The excess is larger than the shift, so `n` is at least 2^52 * p, and the bound is not
        // above that.
        lemma_pow2_adds((t - shift - 1) as nat, shift + 1);
        lemma_pow2_unfold(shift + 1);
        lemma_pow2_pos((t - shift - 1) as nat);
        assert(p >= 2 * pow2(shift)) by (nonlinear_arith)
            requires
                p == pow2((t - shift - 1) as nat) * pow2(shift + 1),
                pow2(shift + 1) == 2 * pow2(shift),
                pow2((t - shift - 1) as nat) >= 1,
        ;
        assert(bound <= 0x20_0000_0000_0000 * pow2(shift)) by (nonlinear_arith)
            requires
                bound == bits * pow2(shift),
                bits <= 0x20_0000_0000_0000,
        ;
        assert(bound <= 0x10_0000_0000_0000 * p);
        lemma_nearest_even_between(n, p, 0x10_0000_0000_0000);
        assert(nearest_even(n, p) * p >= 0x10_0000_0000_0000 * p) by (nonlinear_arith)
            requires
                nearest_even(n, p) >= 0x10_0000_0000_0000,
        ;
        if n <= bound {
            assert(n == 0x10_0000_0000_0000 * p);
            assert(n / p == 0x10_0000_0000_0000 && n % p == 0) by {
                vstd::arithmetic::div_mod::lemma_fundamental_div_mod_converse(
                    n as int,
                    p as int,
                    0x10_0000_0000_0000,
                    0,
                );
            }
        }
    }
}

proof fn lemma_double_size(n: nat)
    ensures
        double_of(n) <= 2 * n,
{
    let t = excess_bits(n);
    lemma_excess_bits(n);
    lemma_pow2_pos(t);
    lemma2_to64();
    lemma_nearest_even_bounds(n, pow2(t));
}

proof fn lemma_doublings(num: nat, goal: nat)
    requires
        0 < num,
    ensures
        num * pow2(doublings(num, goal)) >= goal,
        num < goal ==> num * pow2(doublings(num, goal)) < 2 * goal,
    decreases (if num < goal { goal - num } else { 0 }),
{
    lemma2_to64();
    if num < goal {
        lemma_doublings(2 * num, goal);
        let s = doublings(2 * num, goal);
        lemma_pow2_unfold(s + 1);
        assert(num * pow2(s + 1) == 2 * num * pow2(s)) by (nonlinear_arith)
            requires
                pow2(s + 1) == 2 * pow2(s),
        ;
        if 2 * num >= goal {
            assert(s == 0);
            assert(2 * num * pow2(s) == 2 * num) by (nonlinear_arith)
                requires
                    pow2(s) == 1,
            ;
        }
    } else {
        assert(num * pow2(0) == num);
    }
}

/// For `k` below 1000 the quotient takes at least 53 doublings.
proof fn lemma_many_doublings(k: nat)
    requires
        0 < k < 1000,
    ensures
        doublings(k, quotient_goal()) >= 53,
{
    let s = doublings(k, quotient_goal());
    lemma_doublings(k, quotient_goal());
    lemma2_to64();
    lemma2_to64_rest();
    if s <= 52 {
        if s < 52 {
            vstd::arithmetic::power2::lemma_pow2_strictly_increases(s, 52);
        }
        assert(k * pow2(s) < quotient_goal()) by (nonlinear_arith)
            requires
                k < 1000,
                pow2(s) <= 0x10_0000_0000_0000,
                quotient_goal() == 1000 * 0x10_0000_0000_0000,
        ;
    }
}

/// The fraction lies in [0.5, 1), within one unit of the exact `0.5 + k / 2000`.
proof fn lemma_fraction_bits(k: nat)
    requires
        k < 1000,
    ensures
        0x10_0000_0000_0000 <= fraction_bits(k) < 0x20_0000_0000_0000,
        0 < k ==> quotient_bits(k) <= 2 * quotient_goal(),
        1000 * (fraction_bits(k) - 0x10_0000_0000_0000) <= k * 0x10_0000_0000_0000 + 1000,
        k * 0x10_0000_0000_0000 <= 1000 * (fraction_bits(k) - 0x10_0000_0000_0000) + 1000,
{
    if k > 0 {
        let s = doublings(k, quotient_goal());
        lemma_many_doublings(k);
        lemma_doublings(k, quotient_goal());
        let p = pow2((s - 52) as nat);
        let q = quotient_bits(k);
        let f = nearest_even(q, p);
        lemma2_to64();
        lemma2_to64_rest();
        lemma_pow2_pos((s - 52) as nat);
        lemma_pow2_adds(52, (s - 52) as nat);
        lemma_nearest_even_bounds(k * pow2(s), 1000);
        lemma_nearest_even_bounds(q, p);
        assert(k * pow2(s) == k * 0x10_0000_0000_0000 * p) by (nonlinear_arith)
            requires
                pow2(s) == 0x10_0000_0000_0000 * p,
        ;
        assert(2 * (f * p) <= 2 * q + p);
        assert(2 * q <= 2 * (f * p) + p);
        assert(2 * (q * 1000) <= 2 * (k * 0x10_0000_0000_0000 * p) + 1000);
        assert(2 * (k * 0x10_0000_0000_0000 * p) <= 2 * (q * 1000) + 1000);
        assert(1000 * f <= k * 0x10_0000_0000_0000 + 1000) by (nonlinear_arith)
            requires
                2000 * (f * p) <= 2 * (k * 0x10_0000_0000_0000 * p) + 2000 * p,
                p > 0,
        ;
        assert(k * 0x10_0000_0000_0000 <= 1000 * f + 1000) by (nonlinear_arith)
            requires
                2 * (k * 0x10_0000_0000_0000 * p) <= 2000 * (f * p) + 2000 * p,
                p > 0,
        ;
    }
}

/// How far `n` times `den` is from `num`.
pub open spec fn distance(num: nat, den: nat, n: nat) -> nat {
    if num >= n * den {
        (num - n * den) as nat
    } else {
        (n * den - num) as nat
    }
}

/// No integer is nearer to a quotient than the one that it is rounded to, and where another one is
/// as near it is rounded to the even one.
pub proof fn rounding_is_to_the_nearest(num: nat, den: nat, other: nat)
    requires
        den > 0,
    ensures
        distance(num, den, nearest_even(num, den)) <= distance(num, den, other),
        other != nearest_even(num, den) && distance(num, den, other) == distance(
            num,
            den,
            nearest_even(num, den),
        ) ==> nearest_even(num, den) % 2 == 0,
{
    let down = num / den;
    let rest = num % den;
    vstd::arithmetic::div_mod::lemma_fundamental_div_mod(num as int, den as int);
    assert(num == down * den + rest) by (nonlinear_arith)
        requires
            num == den * down + rest,
    ;
    assert((down + 1) * den == down * den + den) by (nonlinear_arith);
    if other < down {
        assert(other * den + den <= down * den) by (nonlinear_arith)
            requires
                other + 1 <= down,
        ;
    }
    if other > down + 1 {
        assert(other * den >= (down + 1) * den + den) by (nonlinear_arith)
            requires
                other >= down + 2,
        ;
    }
}

/// `bits` has no more than 53 bits, all of them where the power of two is above the first, and no
/// other number times that power is nearer to `n`.
pub open spec fn is_nearest_of_53_bits(n: nat, bits: nat, shift: nat) -> bool {
    &&& bits <= 0x20_0000_0000_0000
    &&& shift > 0 ==> bits >= 0x10_0000_0000_0000
    &&& forall|other: nat|
        distance(n, pow2(shift), bits) <= #[trigger] distance(n, pow2(shift), other)
}

/// A number is held as one of at most 53 bits times a power of two, the smallest such power that it
/// takes; it is the nearest of these, and a number of 53 bits is held as it is.
pub proof fn numbers_are_held_in_53_bits(n: nat)
    ensures
        n < 0x20_0000_0000_0000 ==> double_of(n) == n,
        exists|bits: nat, shift: nat| #[trigger]
            is_nearest_of_53_bits(n, bits, shift) && double_of(n) == bits * pow2(shift),
{
    let shift = excess_bits(n);
    let bits = nearest_even(n, pow2(shift));
    lemma2_to64();
    lemma_pow2_pos(shift);
    lemma_excess_bits(n);
    lemma_nearest_even_between(n, pow2(shift), 0x20_0000_0000_0000);
    lemma_nearest_even_between(n, pow2(shift), 0x10_0000_0000_0000);
    if n < 0x20_0000_0000_0000 {
        short_delays_are_doubles(n);
    }
    assert forall|other: nat|
        distance(n, pow2(shift), bits) <= #[trigger] distance(n, pow2(shift), other) by {
        rounding_is_to_the_nearest(n, pow2(shift), other);
    }
    assert(is_nearest_of_53_bits(n, bits, shift));
}

/// The fraction that a seed selects is within 2^-53 of `0.5 + k / 2000`, where `k` is the seed's last
/// three digits.
pub proof fn fractions_are_by_the_last_three_digits(seed: nat)
    ensures
        ({
            let k = (seed % 1000) as int;
            let exact = (1000 + k) * 0x10_0000_0000_0000;
            &&& 1000 * fraction_bits(seed % 1000) <= exact + 1000
            &&& exact <= 1000 * fraction_bits(seed % 1000) + 1000
        }),
{
    lemma_fraction_bits(seed % 1000);
}

/// A scaled delay is the product of the delay and the fraction, each as it is held, cut to whole
/// milliseconds.
pub proof fn scaling_cuts_the_product(delay: nat, seed: nat)
    ensures
        ({
            let product = double_of(double_of(delay) * fraction_bits(seed % 1000));
            &&& scaled(delay, seed) * 0x20_0000_0000_0000 <= product
            &&& product < (scaled(delay, seed) + 1) * 0x20_0000_0000_0000
        }),
{
}

/// The fraction that a seed selects, in units of two to the power of -53, is at least a half and
/// below one.
pub proof fn fraction_is_from_half_to_one(seed: nat)
    ensures
        0x10_0000_0000_0000 <= fraction_bits(seed % 1000) < 0x20_0000_0000_0000,
{
    lemma_fraction_bits(seed % 1000);
}

/// A larger `k` gives no smaller a fraction.
proof fn lemma_fraction_grows(k: nat, larger: nat)
    requires
        k <= larger < 1000,
    ensures
        fraction_bits(k) <= fraction_bits(larger),
{
    if k < larger {
        lemma_fraction_bits(k);
        lemma_fraction_bits(larger);
    }
}

/// A larger number is not rounded to a smaller one.
proof fn lemma_nearest_even_grows(num: nat, larger: nat, den: nat)
    requires
        den > 0,
        num <= larger,
    ensures
        nearest_even(num, den) <= nearest_even(larger, den),
{
    let a = num / den;
    let b = larger / den;
    vstd::arithmetic::div_mod::lemma_fundamental_div_mod(num as int, den as int);
    vstd::arithmetic::div_mod::lemma_fundamental_div_mod(larger as int, den as int);
    vstd::arithmetic::div_mod::lemma_div_is_ordered(num as int, larger as int, den as int);
    if a == b {
        assert(num % den <= larger % den);
    }
}

/// The double of a larger number is not smaller.
proof fn lemma_double_grows(n: nat, larger: nat)
    requires
        n <= larger,
    ensures
        double_of(n) <= double_of(larger),
{
    let t = excess_bits(n);
    let u = excess_bits(larger);
    lemma_excess_bits(n);
    lemma_excess_bits(larger);
    lemma_pow2_pos(t);
    if t == u {
        lemma_nearest_even_grows(n, larger, pow2(t));
        assert(nearest_even(n, pow2(t)) * pow2(t) <= nearest_even(larger, pow2(t)) * pow2(t))
            by (nonlinear_arith)
            requires
                nearest_even(n, pow2(t)) <= nearest_even(larger, pow2(t)),
        ;
    } else if t < u {
        lemma_pow2_unfold(t + 1);
        if t + 1 < u {
            vstd::arithmetic::power2::lemma_pow2_strictly_increases(t + 1, u);
        }
        lemma_double_between(n, 0x10_0000_0000_0000, u);
        lemma_double_between(larger, 0x10_0000_0000_0000, u);
    } else {
        lemma_pow2_unfold(u + 1);
        if u + 1 < t {
            vstd::arithmetic::power2::lemma_pow2_strictly_increases(u + 1, t);
        }
    }
}

/// A number and its double differ by at most one part in 2^53.
proof fn lemma_double_close(n: nat)
    ensures
        0x20_0000_0000_0000 * double_of(n) <= 0x20_0000_0000_0001 * n,
        0x1f_ffff_ffff_ffff * n <= 0x20_0000_0000_0000 * double_of(n),
{
    let t = excess_bits(n);
    lemma_excess_bits(n);
    lemma_pow2_pos(t);
    lemma2_to64();
    lemma_nearest_even_bounds(n, pow2(t));
}

/// By a half, a double is scaled exactly.
proof fn lemma_half_is_exact(delay: nat)
    ensures
        double_of(double_of(delay) * 0x10_0000_0000_0000) == double_of(delay)
            * 0x10_0000_0000_0000,
{
    let t = excess_bits(delay);
    let p = pow2(t);
    let bits = nearest_even(delay, p);
    lemma_excess_bits(delay);
    lemma_pow2_pos(t);
    lemma_nearest_even_between(delay, p, 0x20_0000_0000_0000);
    lemma2_to64();
    lemma2_to64_rest();
    lemma_pow2_adds(t, 52);
    assert(bits * p * 0x10_0000_0000_0000 == bits * (p * 0x10_0000_0000_0000)) by (nonlinear_arith);
    lemma_double_between(double_of(delay) * 0x10_0000_0000_0000, bits, t + 52);
}

/// A longer delay is not scaled to a shorter one, and a delay grows with the last three digits of
/// the seed.
pub proof fn scaling_keeps_order(delay: nat, longer: nat, seed: nat, other: nat)
    requires
        delay <= longer,
        seed % 1000 <= other % 1000,
    ensures
        scaled(delay, seed) <= scaled(longer, other),
{
    let f = fraction_bits(seed % 1000);
    let g = fraction_bits(other % 1000);
    let a = double_of(delay);
    let b = double_of(longer);
    lemma_double_grows(delay, longer);
    lemma_fraction_grows(seed % 1000, other % 1000);
    assert(a * f <= b * g) by (nonlinear_arith)
        requires
            a <= b,
            f <= g,
    ;
    lemma_double_grows(a * f, b * g);
    vstd::arithmetic::div_mod::lemma_div_is_ordered(
        double_of(a * f) as int,
        double_of(b * g) as int,
        0x20_0000_0000_0000,
    );
}

/// Scaling strictly shortens a delay.
pub proof fn scaling_shortens(delay: nat, seed: nat)
    requires
        delay > 0,
    ensures
        scaled(delay, seed) < delay,
{
    let m = fraction_bits(seed % 1000);
    let a = double_of(delay);
    let b = double_of(a * m);
    lemma_fraction_bits(seed % 1000);
    lemma_double_close(delay);
    lemma_double_close(a * m);
    assert(m <= 0x1f_fc00_0000_0000);
    assert(0x20_0000_0000_0000 * (a * m) <= 0x20_0000_0000_0001 * (delay * m)) by (nonlinear_arith)
        requires
            0x20_0000_0000_0000 * a <= 0x20_0000_0000_0001 * delay,
    ;
    assert(delay * m <= delay * 0x1f_fc00_0000_0000) by (nonlinear_arith)
        requires
            m <= 0x1f_fc00_0000_0000,
    ;
    assert(b < 0x20_0000_0000_0000 * delay);
}

/// Scaling keeps at least half of a delay as double precision holds it, and half of the delay
/// itself unless the fraction is a half and the delay was rounded down to a smaller half.
pub proof fn scaling_keeps_half(delay: nat, seed: nat)
    ensures
        double_of(delay) / 2 <= scaled(delay, seed),
        seed % 1000 == 0 ==> scaled(delay, seed) == double_of(delay) / 2,
        seed % 1000 != 0 || delay / 2 <= double_of(delay) / 2 ==> delay / 2 <= scaled(delay, seed),
{
    let m = fraction_bits(seed % 1000);
    let a = double_of(delay);
    let b = double_of(a * m);
    lemma_half_is_exact(delay);
    scaling_keeps_order(delay, delay, 0, seed);
    assert(scaled(delay, 0) == double_of(delay) / 2);
    if seed % 1000 != 0 {
        lemma_fraction_bits(seed % 1000);
        lemma_double_close(delay);
        lemma_double_close(a * m);
        assert(m >= 0x10_0300_0000_0000);
        assert(0x1f_ffff_ffff_ffff * (delay * m) <= 0x20_0000_0000_0000 * (a * m))
            by (nonlinear_arith)
            requires
                0x1f_ffff_ffff_ffff * delay <= 0x20_0000_0000_0000 * a,
        ;
        assert(delay * m >= delay * 0x10_0300_0000_0000) by (nonlinear_arith)
            requires
                m >= 0x10_0300_0000_0000,
        ;
        assert(b >= 0x10_0000_0000_0000 * delay);
    }
}

/// A delay below 2^40 milliseconds is scaled by `0.5 + k / 2000`, where `k` is the seed's last three
/// digits, and cut to whole milliseconds; where that is a whole number it may be one less.
pub proof fn scaling_is_by_the_fraction(delay: nat, seed: nat)
    requires
        delay < 0x100_0000_0000,
    ensures
        2000 * scaled(delay, seed) <= delay * (1000 + seed % 1000),
        delay * (1000 + seed % 1000) <= 2000 * (scaled(delay, seed) + 1),
{
    let k = seed % 1000;
    let m = fraction_bits(k);
    let n = delay * m;
    let b = double_of(n);
    lemma_fraction_bits(k);
    short_delays_are_doubles(delay);
    lemma_double_close(n);
    assert(1000 * n <= delay * (1000 + k) * 0x10_0000_0000_0000 + 1000 * delay) by (nonlinear_arith)
        requires
            n == delay * m,
            1000 * (m - 0x10_0000_0000_0000) <= k * 0x10_0000_0000_0000 + 1000,
    ;
    assert(delay * (1000 + k) * 0x10_0000_0000_0000 <= 1000 * n + 1000 * delay) by (nonlinear_arith)
        requires
            n == delay * m,
            k * 0x10_0000_0000_0000 <= 1000 * (m - 0x10_0000_0000_0000) + 1000,
    ;
    assert(n <= delay * 0x20_0000_0000_0000) by (nonlinear_arith)
        requires
            n == delay * m,
            m <= 0x20_0000_0000_0000,
    ;
    let exact = delay * (1000 + k);
    assert(2000 * b <= exact * 0x20_0000_0000_0000 + 4000 * delay);
    assert(exact * 0x20_0000_0000_0000 <= 2000 * b + 4000 * delay);
}

/// Below 2^53 a delay is a double.
pub proof fn short_delays_are_doubles(delay: nat)
    requires
        delay < 0x20_0000_0000_0000,
    ensures
        double_of(delay) == delay,
{
    lemma2_to64();
    lemma_nearest_even_bounds(delay, 1);
}

fn round_div(num: u128, den: u128) -> (nearest: u128)
    requires
        0 < den < 0x4000_0000_0000_0000_0000_0000_0000_0000,
    ensures
        nearest == nearest_even(num as nat, den as nat),
{
    let down = num / den;
    let rest = num % den;
    if 2 * rest < den || (2 * rest == den && down % 2 == 0) {
        down
    } else {
        proof {
            vstd::arithmetic::div_mod::lemma_fundamental_div_mod(num as int, den as int);
            assert(down < u128::MAX) by (nonlinear_arith)
                requires
                    num == den * down + rest,
                    num <= u128::MAX,
                    den >= 1,
                    rest > 0,
            ;
        }
        down + 1
    }
}

fn round_double(n: u128) -> (nearest: u128)
    requires
        n < 0x40_0000_0000_0000_0000_0000_0000_0000,
    ensures
        nearest == double_of(n as nat),
        nearest <= 2 * n,
{
    let mut rest = n;
    let mut power: u128 = 1;
    let ghost mut t: nat = 0;
    proof {
        lemma2_to64();
    }
    while rest >= 0x20_0000_0000_0000
        invariant
            power == pow2(t),
            power * rest <= n,
            excess_bits(n as nat) == t + excess_bits(rest as nat),
            n < 0x40_0000_0000_0000_0000_0000_0000_0000,
            power >= 1,
        decreases rest,
    {
        proof {
            lemma_pow2_unfold(t + 1);
            assert(power * 2 * (rest / 2) <= power * rest) by (nonlinear_arith)
                requires
                    2 * (rest / 2) <= rest,
            ;
            assert(power <= n) by (nonlinear_arith)
                requires
                    power * rest <= n,
                    rest >= 1,
            ;
        }
        rest = rest / 2;
        power = power * 2;
        proof {
            t = t + 1;
        }
    }
    proof {
        lemma_double_size(n as nat);
        assert(power <= n || power == 1) by {
            if t > 0 {
                lemma_excess_bits(n as nat);
            }
        }
    }
    let nearest = round_div(n, power);
    nearest * power
}

fn fraction(k: u64) -> (bits: u128)
    requires
        k < 1000,
    ensures
        bits == fraction_bits(k as nat),
        bits < 0x20_0000_0000_0000,
{
    proof {
        lemma_fraction_bits(k as nat);
    }
    if k == 0 {
        return 0x10_0000_0000_0000;
    }
    let goal: u128 = 4_503_599_627_370_496_000;
    let mut num: u128 = k as u128;
    let mut power: u128 = 1;
    let ghost mut t: nat = 0;
    proof {
        lemma2_to64();
    }
    while num < goal
        invariant
            0 < k,
            num == k * power,
            power == pow2(t),
            1 <= power <= num < 2 * goal,
            goal == quotient_goal(),
            doublings(k as nat, quotient_goal()) == t + doublings(num as nat, quotient_goal()),
        decreases (if num < goal { goal - num } else { 0 }),
    {
        proof {
            lemma_pow2_unfold(t + 1);
            assert(k * (power * 2) == 2 * (k * power)) by (nonlinear_arith);
        }
        num = num * 2;
        power = power * 2;
        proof {
            t = t + 1;
        }
    }
    let bits = round_div(num, 1000);
    proof {
        lemma_many_doublings(k as nat);
        lemma2_to64_rest();
        lemma_pow2_subtracts(52, t);
        lemma_pow2_pos((t - 52) as nat);
    }
    0x10_0000_0000_0000 + round_div(bits, power / 0x10_0000_0000_0000)
}

/// Scales `delay` by the fraction that `seed` selects.
pub fn scale(delay: u64, seed: u64) -> (result: u64)
    ensures
        result == scaled(delay as nat, seed as nat),
{
    let whole = round_double(delay as u128);
    let bits = fraction(seed % 1000);
    proof {
        lemma2_to64();
        lemma2_to64_rest();
        lemma_double_between(delay as nat, 1, 64);
        lemma_fraction_bits((seed % 1000) as nat);
        assert(whole * bits <= 0x1_0000_0000_0000_0000 * 0x1f_ffff_ffff_ffff) by (nonlinear_arith)
            requires
                0 <= whole <= 0x1_0000_0000_0000_0000,
                0 <= bits <= 0x1f_ffff_ffff_ffff,
        ;
        assert(0x1_0000_0000_0000_0000 == pow2(64));
        lemma_double_between((whole * bits) as nat, 0x1f_ffff_ffff_ffff, 64);
    }
    let product = round_double(whole * bits);
    (product / 0x20_0000_0000_0000) as u64
}

} // verus!
