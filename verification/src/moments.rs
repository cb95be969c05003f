//! Mean and sum of squares of a sample, in exact arithmetic.
//!
//! The statistics of a sensor carry a mean and a sum of squares that are brought up to date
//! reading by reading, and joined two by two. Here is why that is right: computed without
//! rounding, both ways give the mean of all readings, and the sum of the squares of what they are
//! off it.

use crate::binary64;
use crate::binary64::{Binary64, EXACT_WHOLE, FRACTIONS, INFINITY_BITS, NEG_INFINITY_BITS, ONE_BITS, SIGN_BIT};
use crate::types::{Moments, SensorStats};
use vstd::prelude::*;

verus! {

/// How many readings a sample has, their mean, and the sum of the squares of what they are off
/// the mean.
pub ghost struct ExactMoments {
    pub count: nat,
    pub mean: real,
    pub m2: real,
}

/// The sum of the readings.
pub open spec fn total(xs: Seq<real>) -> real
    decreases xs.len(),
{
    if xs.len() == 0 {
        0 as real
    } else {
        total(xs.drop_last()) + xs.last()
    }
}

/// The sum of the squares of what the readings are off `c`.
pub open spec fn squares_off(xs: Seq<real>, c: real) -> real
    decreases xs.len(),
{
    if xs.len() == 0 {
        0 as real
    } else {
        squares_off(xs.drop_last(), c) + (xs.last() - c) * (xs.last() - c)
    }
}

impl ExactMoments {
    /// Whether these are the moments of the readings `xs`: the mean times the count is their sum.
    pub open spec fn are_of(self, xs: Seq<real>) -> bool {
        &&& self.count == xs.len()
        &&& self.mean * (xs.len() as real) == total(xs)
        &&& self.m2 == squares_off(xs, self.mean)
    }

    /// Whether `next` is what the reading `x` makes of these: with `delta` for `x` less the
    /// mean, the mean grows by `delta` over the new count, and the sum of squares by `delta`
    /// times `x` less the new mean.
    pub open spec fn steps_to(self, x: real, next: ExactMoments) -> bool {
        let delta = x - self.mean;
        &&& next.count == self.count + 1
        &&& (next.mean - self.mean) * (next.count as real) == delta
        &&& next.m2 == self.m2 + delta * (x - next.mean)
    }

    /// Whether `joint` is what these and `other` make together: with `delta` for the difference
    /// of the means, the mean grows by `delta` times the share of the other count, and the sums
    /// of squares add up, and with them the square of `delta` times the product of the counts
    /// over their sum.
    pub open spec fn join_to(self, other: ExactMoments, joint: ExactMoments) -> bool {
        let delta = other.mean - self.mean;
        let a = self.count as real;
        let b = other.count as real;
        &&& joint.count == self.count + other.count
        &&& (joint.mean - self.mean) * (a + b) == delta * b
        &&& (joint.m2 - self.m2 - other.m2) * (a + b) == (delta * delta) * (a * b)
    }
}

/// A product of differences, multiplied out.
proof fn lemma_spread(p: real, q: real, r: real, t: real)
    by (nonlinear_arith)
    ensures
        (p - q) * (r - t) == p * r - p * t - q * r + q * t,
{
}

/// A product with a sum, multiplied out.
proof fn lemma_share(p: real, q: real, r: real)
    by (nonlinear_arith)
    ensures
        p * (q + r) == p * q + p * r,
        (q + r) * p == q * p + r * p,
        (q - r) * p == q * p - r * p,
        p * q == q * p,
{
}

/// Products of three can be taken in any order.
proof fn lemma_regroup(p: real, q: real, r: real)
    by (nonlinear_arith)
    ensures
        p * (q * r) == q * (p * r),
        (p * q) * r == p * (q * r),
{
}

/// A product is ordered by its factor where the other is positive.
proof fn lemma_cancel(p: real, q: real, n: real)
    by (nonlinear_arith)
    requires
        n > 0 as real,
        p * n <= q * n,
    ensures
        p <= q,
{
}

/// No square is negative.
proof fn lemma_square(p: real)
    by (nonlinear_arith)
    ensures
        p * p >= 0 as real,
{
}

/// No product of two that are not negative is negative.
proof fn lemma_product(p: real, q: real)
    by (nonlinear_arith)
    requires
        p >= 0 as real,
        q >= 0 as real,
    ensures
        p * q >= 0 as real,
{
}

/// One is neutral, and zero takes all away.
proof fn lemma_units(p: real)
    by (nonlinear_arith)
    ensures
        (1 as real) * p == p,
        (0 as real) * p == 0 as real,
        p * (0 as real) == 0 as real,
{
}

/// The sum of the squares of the readings.
spec fn squares(xs: Seq<real>) -> real
    decreases xs.len(),
{
    if xs.len() == 0 {
        0 as real
    } else {
        squares(xs.drop_last()) + xs.last() * xs.last()
    }
}

/// The squares off `c`, from the sum of the readings and the sum of their squares.
proof fn lemma_squares_off(xs: Seq<real>, c: real)
    ensures
        squares_off(xs, c) == squares(xs) - c * total(xs) - c * total(xs) + (xs.len() as real) * (c
            * c),
    decreases xs.len(),
{
    if xs.len() == 0 {
        lemma_units(c);
        lemma_units(c * c);
    } else {
        let ys = xs.drop_last();
        let x = xs.last();
        lemma_squares_off(ys, c);
        lemma_spread(x, c, x, c);
        lemma_share(c, total(ys), x);
        lemma_share(x, c, c);
        lemma_share(c * c, ys.len() as real, 1 as real);
        lemma_units(c * c);
        assert(xs.len() as real == ys.len() as real + 1 as real);
    }
}

/// Of the moments of a sample, the sum of squares follows from the sums.
proof fn lemma_m2(m: ExactMoments, xs: Seq<real>)
    requires
        m.mean * (xs.len() as real) == total(xs),
    ensures
        squares_off(xs, m.mean) == squares(xs) - m.mean * total(xs),
{
    let n = xs.len() as real;
    lemma_squares_off(xs, m.mean);
    lemma_regroup(n, m.mean, m.mean);
    lemma_share(n, m.mean, m.mean);
    assert(n * (m.mean * m.mean) == m.mean * (n * m.mean));
}

/// The sums of two samples together.
proof fn lemma_sums(xs: Seq<real>, ys: Seq<real>)
    ensures
        total(xs + ys) == total(xs) + total(ys),
        squares(xs + ys) == squares(xs) + squares(ys),
    decreases ys.len(),
{
    if ys.len() == 0 {
        assert(xs + ys =~= xs);
    } else {
        lemma_sums(xs, ys.drop_last());
        assert((xs + ys).drop_last() =~= xs + ys.drop_last());
    }
}

/// Adding a reading to the moments of a sample gives the moments of the sample with it, where
/// nothing is rounded.
pub proof fn law_running_update_is_exact(
    m: ExactMoments,
    xs: Seq<real>,
    x: real,
    next: ExactMoments,
)
    requires
        m.are_of(xs),
        m.steps_to(x, next),
    ensures
        next.are_of(xs.push(x)),
{
    let ys = xs.push(x);
    let n = xs.len() as real;
    let k = ys.len() as real;
    let mu = m.mean;
    let nu = next.mean;
    let s = total(xs);
    assert(ys.drop_last() =~= xs);
    assert(total(ys) == s + x);
    assert(squares(ys) == squares(xs) + x * x);
    assert(k == n + 1 as real);
    lemma_share(nu, n, 1 as real);
    lemma_share(mu, n, 1 as real);
    lemma_share(k, nu, mu);
    lemma_share(nu - mu, k, k);
    lemma_share(nu, k, k);
    lemma_share(mu, k, k);
    lemma_units(nu);
    lemma_units(mu);
    lemma_share(nu, 1 as real, n);
    lemma_share(mu, 1 as real, n);
    assert((nu - mu) * k == nu * k - mu * k);
    assert(mu * k == mu * n + mu);
    assert(nu * k == s + x);
    lemma_m2(m, xs);
    lemma_m2(next, ys);
    // mu (s + x) == mu nu k == nu (mu n) + mu nu == nu s + mu nu
    lemma_regroup(mu, nu, k);
    assert(mu * (s + x) == nu * (mu * k));
    lemma_share(nu, s, mu);
    lemma_share(mu, s, x);
    lemma_share(nu, s, x);
    lemma_share(nu, mu, x);
    lemma_share(x, nu, mu);
    lemma_spread(x, mu, x, nu);
}

/// What the means `mu` of `a` readings and `nu` of `b` readings take off the squares, and by how
/// much that is more than what the common mean takes off, both times the number of readings.
proof fn lemma_gap(mu: real, a: real, nu: real, b: real)
    ensures
        (mu * (mu * a) + nu * (nu * b)) * (a + b) - (mu * a + nu * b) * (mu * a + nu * b) == ((nu
            - mu) * (nu - mu)) * (a * b),
{
    let s1 = mu * a;
    let s2 = nu * b;
    let ab = a * b;
    // (mu s1 + nu s2) (a + b)
    lemma_share(mu * s1 + nu * s2, a, b);
    lemma_share(a, mu * s1, nu * s2);
    lemma_share(b, mu * s1, nu * s2);
    lemma_share(mu * s1 + nu * s2, a, a);
    lemma_share(mu * s1 + nu * s2, b, b);
    // (mu s1) a == s1 s1, and (nu s2) b == s2 s2
    lemma_regroup(mu, s1, a);
    lemma_regroup(s1, mu, a);
    lemma_regroup(nu, s2, b);
    lemma_regroup(s2, nu, b);
    assert((mu * s1) * a == s1 * s1);
    assert((nu * s2) * b == s2 * s2);
    // (s1 + s2) (s1 + s2)
    lemma_share(s1 + s2, s1, s2);
    lemma_share(s1, s1, s2);
    lemma_share(s2, s1, s2);
    // (mu s1) b == (mu mu) ab, and (nu s2) a == (nu nu) ab
    lemma_regroup(mu, s1, b);
    lemma_regroup(mu, a, b);
    lemma_regroup(mu, mu, ab);
    assert((mu * s1) * b == (mu * mu) * ab);
    lemma_regroup(nu, s2, a);
    lemma_regroup(nu, b, a);
    lemma_share(a, b, b);
    lemma_regroup(nu, nu, ab);
    assert((nu * s2) * a == (nu * nu) * ab);
    // s1 s2 == (mu nu) ab
    lemma_regroup(mu, a, s2);
    lemma_regroup(a, nu, b);
    lemma_regroup(mu, nu, ab);
    assert(s1 * s2 == (mu * nu) * ab);
    // (nu - mu) (nu - mu) ab
    lemma_spread(nu, mu, nu, mu);
    lemma_share(mu, nu, nu);
    lemma_share(ab, nu * nu + mu * mu, nu * mu + mu * nu);
    lemma_share(ab, nu * nu, mu * mu);
    lemma_share(ab, nu * mu, mu * nu);
}

/// Joining the moments of two samples gives the moments of all their readings, where nothing is
/// rounded.
pub proof fn law_parallel_update_is_exact(
    m: ExactMoments,
    xs: Seq<real>,
    o: ExactMoments,
    ys: Seq<real>,
    joint: ExactMoments,
)
    requires
        m.are_of(xs),
        o.are_of(ys),
        xs.len() + ys.len() > 0,
        m.join_to(o, joint),
    ensures
        joint.are_of(xs + ys),
{
    let a = xs.len() as real;
    let b = ys.len() as real;
    let n = a + b;
    let mu = m.mean;
    let nu = o.mean;
    let al = joint.mean;
    let s1 = total(xs);
    let s2 = total(ys);
    lemma_sums(xs, ys);
    assert((xs + ys).len() as real == n);
    // the mean
    lemma_share(n, al, mu);
    lemma_share(mu, a, b);
    lemma_share(b, nu, mu);
    assert(al * n == s1 + s2);
    // the squares
    lemma_m2(m, xs);
    lemma_m2(o, ys);
    lemma_m2(joint, xs + ys);
    lemma_gap(mu, a, nu, b);
    let gap = mu * s1 + nu * s2 - al * (s1 + s2);
    lemma_share(n, mu * s1 + nu * s2, al * (s1 + s2));
    lemma_regroup(al, s1 + s2, n);
    lemma_regroup(s1 + s2, al, n);
    assert((al * (s1 + s2)) * n == (s1 + s2) * (s1 + s2));
    let found = joint.m2 - m.m2 - o.m2;
    assert(found * n == gap * n);
    lemma_cancel(found, gap, n);
    lemma_cancel(gap, found, n);
}

/// No reading makes the sum of squares smaller, where nothing is rounded.
pub proof fn law_squares_only_grow(m: ExactMoments, x: real, next: ExactMoments)
    requires
        m.steps_to(x, next),
    ensures
        next.m2 >= m.m2,
{
    let n = m.count as real;
    let k = next.count as real;
    let p = next.mean - m.mean;
    assert(k == n + 1 as real);
    // x - m.mean == p k, and x - next.mean == p n
    lemma_share(p, n, 1 as real);
    lemma_share(p, 1 as real, n);
    lemma_units(p);
    assert(x - next.mean == p * n);
    lemma_regroup(p, k, p * n);
    lemma_regroup(k, p, n);
    lemma_regroup(p, p, k * n);
    lemma_square(p);
    lemma_product(k, n);
    lemma_product(p * p, k * n);
}

/// The sum of readings that lie between two bounds.
proof fn lemma_total_lies_between(xs: Seq<real>, low: real, high: real)
    requires
        forall|i: int| #![trigger xs[i]] 0 <= i < xs.len() ==> low <= xs[i] <= high,
    ensures
        low * (xs.len() as real) <= total(xs) <= high * (xs.len() as real),
    decreases xs.len(),
{
    if xs.len() == 0 {
        lemma_units(low);
        lemma_units(high);
    } else {
        let ys = xs.drop_last();
        let n = ys.len() as real;
        assert forall|i: int| #![trigger ys[i]] 0 <= i < ys.len() implies low <= ys[i] <= high by {
            assert(ys[i] == xs[i]);
        }
        lemma_total_lies_between(ys, low, high);
        assert(xs.len() as real == n + 1 as real);
        lemma_share(low, n, 1 as real);
        lemma_share(low, 1 as real, n);
        lemma_share(high, n, 1 as real);
        lemma_share(high, 1 as real, n);
        lemma_units(low);
        lemma_units(high);
        assert(xs.last() == xs[xs.len() - 1]);
    }
}

/// The mean lies between any two bounds of the readings, such as the least and the largest, where
/// nothing is rounded.
pub proof fn law_mean_lies_between(m: ExactMoments, xs: Seq<real>, low: real, high: real)
    requires
        m.are_of(xs),
        xs.len() > 0,
        forall|i: int| #![trigger xs[i]] 0 <= i < xs.len() ==> low <= xs[i] <= high,
    ensures
        low <= m.mean <= high,
{
    lemma_total_lies_between(xs, low, high);
    lemma_cancel(low, m.mean, xs.len() as real);
    lemma_cancel(m.mean, high, xs.len() as real);
}

/// Whether a double is neither infinite nor no number at all.
pub open spec fn is_finite(d: Binary64) -> bool {
    -(INFINITY_BITS as int) < d.rank() < INFINITY_BITS
}

/// How often the smallest positive double goes into the one that stands on the given place above
/// zero.
pub open spec fn steps_up_to(place: nat) -> nat {
    let exponent = place / FRACTIONS as nat;
    let fraction = place % FRACTIONS as nat;
    if exponent == 0 {
        fraction
    } else {
        (FRACTIONS as nat + fraction) * vstd::arithmetic::power2::pow2((exponent - 1) as nat)
    }
}

/// How often the smallest positive double goes into a finite double.
pub open spec fn steps_in(d: Binary64) -> int {
    if d.rank() >= 0 {
        steps_up_to(d.rank() as nat) as int
    } else {
        -(steps_up_to((-d.rank()) as nat) as int)
    }
}

/// The number that a finite double stands for: the smallest positive double is one over two to
/// the power of 1074.
pub open spec fn value(d: Binary64) -> real {
    steps_in(d) as real / vstd::arithmetic::power2::pow2(1074) as real
}

/// The numbers that doubles stand for.
pub open spec fn values(xs: Seq<Binary64>) -> Seq<real> {
    Seq::new(xs.len(), |i: int| value(xs[i]))
}

/// The moments that the statistics of a sensor stand for.
pub open spec fn moments_in(s: SensorStats) -> ExactMoments {
    ExactMoments { count: s.count as nat, mean: value(s.mean), m2: value(s.m2) }
}

/// The moments of so many readings that were handed in.
pub open spec fn moments_of(count: nat, m: Moments) -> ExactMoments {
    ExactMoments { count, mean: value(m.mean), m2: value(m.m2) }
}

/// Whether mean and sum of squares are those of the readings `xs`, all of them finite.
pub open spec fn sums_up(s: SensorStats, xs: Seq<Binary64>) -> bool {
    &&& is_finite(s.mean) && is_finite(s.m2)
    &&& forall|i: int| #![trigger xs[i]] 0 <= i < xs.len() ==> is_finite(xs[i])
    &&& moments_in(s).are_of(values(xs))
}

/// Zero over anything positive is zero.
proof fn lemma_zero_over(n: real)
    by (nonlinear_arith)
    requires
        n > 0 as real,
    ensures
        (0 as real) / n == 0 as real,
{
}

/// The double whose bits are all zero stands for zero.
proof fn lemma_zero_bits()
    ensures
        value(Binary64 { bits: 0 }) == 0 as real,
{
    vstd::arithmetic::power2::lemma_pow2_pos(1074);
    lemma_zero_over(vstd::arithmetic::power2::pow2(1074) as real);
}

/// Before the first reading, mean and sum of squares are those of no reading.
pub proof fn law_empty_sums_up_nothing()
    ensures
        sums_up(SensorStats::empty(), Seq::<Binary64>::empty()),
{
    lemma_zero_bits();
    lemma_units(0 as real);
}

/// Adding readings one by one keeps mean and sum of squares those of the readings so far, as long
/// as the moments that are handed in were computed without rounding.
pub proof fn law_update_keeps_moments(
    s: SensorStats,
    xs: Seq<Binary64>,
    x: Binary64,
    next: Moments,
)
    requires
        s.count < u64::MAX,
        sums_up(s, xs),
        is_finite(x),
        s.count > 0 ==> is_finite(next.mean) && is_finite(next.m2) && moments_in(s).steps_to(
            value(x),
            moments_of((s.count + 1) as nat, next),
        ),
    ensures
        sums_up(s.with_reading(x, next), xs.push(x)),
{
    let v = value(x);
    assert(values(xs.push(x)) =~= values(xs).push(v));
    if s.count == 0 {
        let one = seq![v];
        assert(values(xs).push(v) =~= one);
        assert(one.drop_last() =~= Seq::<real>::empty());
        lemma_zero_bits();
        lemma_units(v);
        lemma_share(v, 1 as real, 1 as real);
        lemma_spread(v, v, v, v);
        reveal_with_fuel(total, 2);
        reveal_with_fuel(squares_off, 2);
    } else {
        law_running_update_is_exact(
            moments_in(s),
            values(xs),
            v,
            moments_of((s.count + 1) as nat, next),
        );
    }
}

/// Joining two samples gives the mean and the sum of squares of all their readings, as long as
/// the moments that are handed in were computed without rounding.
pub proof fn law_merge_keeps_moments(
    s: SensorStats,
    xs: Seq<Binary64>,
    t: SensorStats,
    ys: Seq<Binary64>,
    joint: Moments,
)
    requires
        sums_up(s, xs),
        sums_up(t, ys),
        xs.len() + ys.len() <= EXACT_WHOLE,
        s.count > 0 && t.count > 0 ==> is_finite(joint.mean) && is_finite(joint.m2) && moments_in(
            s,
        ).join_to(moments_in(t), moments_of((s.count + t.count) as nat, joint)),
    ensures
        sums_up(s.joined(t, joint), xs + ys),
{
    assert(values(xs + ys) =~= values(xs) + values(ys));
    if s.count == 0 {
        assert(values(xs + ys) =~= values(ys));
    } else if t.count == 0 {
        assert(values(xs + ys) =~= values(xs));
    } else {
        binary64::law_small_numbers_are_doubles(xs.len());
        binary64::law_small_numbers_are_doubles(ys.len());
        binary64::law_small_numbers_are_doubles(xs.len() + ys.len());
        law_parallel_update_is_exact(
            moments_in(s),
            values(xs),
            moments_in(t),
            values(ys),
            moments_of((s.count + t.count) as nat, joint),
        );
    }
}

/// A double that stands higher holds more.
proof fn lemma_steps_increase(a: nat, b: nat)
    requires
        a < b,
    ensures
        steps_up_to(a) < steps_up_to(b),
{
    let one = FRACTIONS as nat;
    let (e, f) = (a / one, a % one);
    let (g, h) = (b / one, b % one);
    if e == 0 && g > 0 {
        let scale = vstd::arithmetic::power2::pow2((g - 1) as nat);
        vstd::arithmetic::power2::lemma_pow2_pos((g - 1) as nat);
        assert(f < (one + h) * scale) by (nonlinear_arith)
            requires
                f < one,
                scale >= 1,
        ;
    } else if e > 0 && e == g {
        let scale = vstd::arithmetic::power2::pow2((e - 1) as nat);
        vstd::arithmetic::power2::lemma_pow2_pos((e - 1) as nat);
        assert((one + f) * scale < (one + h) * scale) by (nonlinear_arith)
            requires
                f < h,
                scale >= 1,
        ;
    } else if e > 0 {
        let low = vstd::arithmetic::power2::pow2((e - 1) as nat);
        let high = vstd::arithmetic::power2::pow2((g - 1) as nat);
        vstd::arithmetic::power2::lemma_pow2_pos((e - 1) as nat);
        vstd::arithmetic::power2::lemma_pow2_unfold(e);
        if e < g - 1 {
            vstd::arithmetic::power2::lemma_pow2_strictly_increases(e, (g - 1) as nat);
        }
        assert((one + f) * low < (one + h) * high) by (nonlinear_arith)
            requires
                f < one,
                low >= 1,
                high >= 2 * low,
        ;
    }
}

/// What is divided can be multiplied again.
proof fn lemma_divided(p: real, n: real)
    by (nonlinear_arith)
    requires
        n > 0 as real,
    ensures
        (p / n) * n == p,
{
}

/// Finite doubles are ordered as the numbers are that they stand for.
pub proof fn law_order_is_that_of_the_numbers(a: Binary64, b: Binary64)
    requires
        is_finite(a),
        is_finite(b),
    ensures
        a.at_most(b) <==> value(a) <= value(b),
        a.below(b) <==> value(a) < value(b),
{
    let n = vstd::arithmetic::power2::pow2(1074) as real;
    vstd::arithmetic::power2::lemma_pow2_pos(1074);
    let (x, y) = (steps_in(a), steps_in(b));
    lemma_divided(x as real, n);
    lemma_divided(y as real, n);
    let (r, t) = (a.rank(), b.rank());
    if r < t {
        lemma_places_increase(a, b);
    } else if t < r {
        lemma_places_increase(b, a);
    }
    if x <= y {
        lemma_cancel(value(a), value(b), n);
    }
    if y <= x {
        lemma_cancel(value(b), value(a), n);
    }
}

/// Of two doubles, the one that stands lower holds less.
proof fn lemma_places_increase(a: Binary64, b: Binary64)
    requires
        a.rank() < b.rank(),
    ensures
        steps_in(a) < steps_in(b),
{
    let (r, t) = (a.rank(), b.rank());
    if r >= 0 {
        lemma_steps_increase(r as nat, t as nat);
    } else if t < 0 {
        lemma_steps_increase((-t) as nat, (-r) as nat);
    } else {
        lemma_steps_increase(0, (-r) as nat);
        if t > 0 {
            lemma_steps_increase(0, t as nat);
        }
    }
}

/// The mean lies between the extremes, and no sum of squares is negative, where nothing is
/// rounded.
pub proof fn law_mean_lies_between_the_extremes(s: SensorStats, xs: Seq<Binary64>)
    requires
        s.covers(xs),
        sums_up(s, xs),
        xs.len() > 0,
    ensures
        s.min.at_most(s.mean),
        s.mean.at_most(s.max),
        value(s.m2) >= 0 as real,
{
    let lo = xs.index_of(s.min);
    let hi = xs.index_of(s.max);
    assert(xs[lo] == s.min && xs[hi] == s.max);
    let vs = values(xs);
    assert forall|i: int| #![trigger vs[i]] 0 <= i < vs.len() implies value(s.min) <= vs[i]
        <= value(s.max) by {
        assert(vs[i] == value(xs[i]));
        law_order_is_that_of_the_numbers(s.min, xs[i]);
        law_order_is_that_of_the_numbers(xs[i], s.max);
    }
    law_mean_lies_between(moments_in(s), vs, value(s.min), value(s.max));
    law_order_is_that_of_the_numbers(s.min, s.mean);
    law_order_is_that_of_the_numbers(s.mean, s.max);
    lemma_squares_off_is_no_less_than_zero(vs, value(s.mean));
}

/// No sum of squares is negative.
proof fn lemma_squares_off_is_no_less_than_zero(xs: Seq<real>, c: real)
    ensures
        squares_off(xs, c) >= 0 as real,
    decreases xs.len(),
{
    if xs.len() > 0 {
        lemma_squares_off_is_no_less_than_zero(xs.drop_last(), c);
        lemma_square(xs.last() - c);
    }
}

/// A product of whole numbers is the same product of numbers.
proof fn lemma_product_of_wholes(a: nat, b: int)
    ensures
        (a * b) as real == (a as real) * (b as real),
    decreases a,
{
    if a == 0 {
        lemma_units(b as real);
        assert(a * b == 0) by (nonlinear_arith)
            requires
                a == 0,
        ;
    } else {
        let c = (a - 1) as nat;
        lemma_product_of_wholes(c, b);
        assert(a * b == c * b + b) by (nonlinear_arith)
            requires
                a == c + 1,
        ;
        lemma_share(b as real, c as real, 1 as real);
        lemma_units(b as real);
        assert(a as real == c as real + 1 as real);
    }
}

/// How often the smallest positive double goes into the whole part of a double, and into what
/// is one more.
proof fn lemma_whole_part_in_steps(d: Binary64)
    requires
        d.bits < INFINITY_BITS,
    ensures
        ({
            let w = d.whole_part();
            let one = vstd::arithmetic::power2::pow2(1074) as int;
            &&& d.bits as int / FRACTIONS as int >= 1087 ==> steps_in(d)
                >= 0x1_0000_0000_0000_0000 * one
            &&& (d.bits as int / (FRACTIONS as int)) < 1087 ==> 0 <= w < 0x1_0000_0000_0000_0000
                && w * one <= steps_in(d) < (w + 1) * one
        }),
{
    let bits = d.bits as int;
    let unit = FRACTIONS as int;
    let e = bits / unit;
    let f = bits % unit;
    let digits = unit + f;
    let w = d.whole_part();
    let one = vstd::arithmetic::power2::pow2(1074) as int;
    vstd::arithmetic::power2::lemma2_to64();
    vstd::arithmetic::power2::lemma2_to64_rest();
    vstd::arithmetic::power2::lemma_pow2_pos(1074);
    vstd::arithmetic::power2::lemma_pow2_adds(53, 1021);
    if e == 0 {
        vstd::arithmetic::power2::lemma_pow2_strictly_increases(52, 1074);
        assert(w * one == 0 && (w + 1) * one == one) by (nonlinear_arith)
            requires
                w == 0,
        ;
    } else {
        let scale = vstd::arithmetic::power2::pow2((e - 1) as nat) as int;
        vstd::arithmetic::power2::lemma_pow2_pos((e - 1) as nat);
        assert(steps_in(d) == digits * scale);
        if e < 1023 {
            let top = vstd::arithmetic::power2::pow2(1021) as int;
            if e - 1 < 1021 {
                vstd::arithmetic::power2::lemma_pow2_strictly_increases((e - 1) as nat, 1021);
            }
            assert(0 <= digits * scale < (2 * unit) * top) by (nonlinear_arith)
                requires
                    0 < digits < 2 * unit,
                    0 < scale <= top,
            ;
            assert(w * one == 0 && (w + 1) * one == one) by (nonlinear_arith)
                requires
                    w == 0,
            ;
        } else if e < 1075 {
            let cut = vstd::arithmetic::power2::pow2((1075 - e) as nat) as int;
            vstd::arithmetic::power2::lemma_pow2_pos((1075 - e) as nat);
            vstd::arithmetic::power2::lemma_pow2_adds((1075 - e) as nat, (e - 1) as nat);
            vstd::arithmetic::div_mod::lemma_fundamental_div_mod(digits, cut);
            let rest = digits % cut;
            assert(w == digits / cut);
            assert(w * one <= digits * scale < (w + 1) * one) by (nonlinear_arith)
                requires
                    one == cut * scale,
                    digits == cut * w + rest,
                    0 <= rest < cut,
                    scale > 0,
            ;
            assert(0 <= w <= digits) by (nonlinear_arith)
                requires
                    digits == cut * w + rest,
                    0 <= rest < cut,
                    cut >= 1,
                    digits >= 0,
            ;
        } else {
            let over = vstd::arithmetic::power2::pow2((e - 1075) as nat) as int;
            vstd::arithmetic::power2::lemma_pow2_pos((e - 1075) as nat);
            vstd::arithmetic::power2::lemma_pow2_adds((e - 1075) as nat, 1074);
            assert(scale == over * one);
            if e < 1087 {
                if e < 1086 {
                    vstd::arithmetic::power2::lemma_pow2_strictly_increases(
                        (e - 1075) as nat,
                        11,
                    );
                }
                assert(w == digits * over);
                assert(digits * scale == w * one && 0 <= w < 0x1_0000_0000_0000_0000)
                    by (nonlinear_arith)
                    requires
                        w == digits * over,
                        scale == over * one,
                        0 < digits < 0x20_0000_0000_0000,
                        0 < over <= 0x800,
                ;
                assert(w * one < (w + 1) * one) by (nonlinear_arith)
                    requires
                        one > 0,
                ;
            } else {
                if e > 1087 {
                    vstd::arithmetic::power2::lemma_pow2_strictly_increases(
                        12,
                        (e - 1075) as nat,
                    );
                }
                assert(digits * scale >= 0x1_0000_0000_0000_0000 * one) by (nonlinear_arith)
                    requires
                        scale == over * one,
                        digits >= 0x10_0000_0000_0000,
                        over >= 0x1000,
                        one > 0,
                ;
            }
        }
    }
}

/// Products with a positive number are ordered as their factors.
proof fn lemma_ordered(p: real, q: real, n: real)
    by (nonlinear_arith)
    requires
        n > 0 as real,
        p <= q,
    ensures
        p * n <= q * n,
{
}

/// The sign of a finite double tells on which side of zero its number lies.
proof fn lemma_sign(d: Binary64)
    requires
        is_finite(d),
    ensures
        d.rank() > 0 <==> value(d) > 0 as real,
        d.rank() < 0 <==> value(d) < 0 as real,
{
    lemma_zero_bits();
    law_order_is_that_of_the_numbers(d, Binary64 { bits: 0 });
    law_order_is_that_of_the_numbers(Binary64 { bits: 0 }, d);
}

/// A double is cut to a whole number by leaving out its fraction: of a double that is not
/// negative the whole part is the largest whole number that is not above it, and of one that is
/// past the largest `u64`, that one. A negative double is cut to zero.
pub proof fn law_whole_part_leaves_out_the_fraction(d: Binary64)
    requires
        !d.not_a_number(),
    ensures
        forall|n: u64| #[trigger]
            call_ensures(Binary64::to_whole, (&d,), n) ==> n == d.whole_part(),
        is_finite(d) && value(d) <= 0 as real ==> d.whole_part() == 0,
        is_finite(d) && 0 as real <= value(d) < 0x1_0000_0000_0000_0000int as real ==> (
        d.whole_part() as real) <= value(d) < (d.whole_part() + 1) as real,
        is_finite(d) && value(d) >= 0x1_0000_0000_0000_0000int as real ==> d.whole_part()
            == u64::MAX,
        d.bits == INFINITY_BITS ==> d.whole_part() == u64::MAX,
        d.bits == NEG_INFINITY_BITS ==> d.whole_part() == 0,
{
    let one = vstd::arithmetic::power2::pow2(1074) as int;
    let w = d.whole_part();
    let big = 0x1_0000_0000_0000_0000int;
    vstd::arithmetic::power2::lemma_pow2_pos(1074);
    lemma_divided(steps_in(d) as real, one as real);
    lemma_units(one as real);
    if d.bits < INFINITY_BITS {
        lemma_whole_part_in_steps(d);
        if d.bits as int / FRACTIONS as int >= 1087 {
            lemma_product_of_wholes(big as nat, one);
            lemma_cancel(big as real, value(d), one as real);
        } else {
            lemma_product_of_wholes(w as nat, one);
            lemma_product_of_wholes((w + 1) as nat, one);
            lemma_cancel(w as real, value(d), one as real);
            if (w + 1) as real <= value(d) {
                lemma_ordered((w + 1) as real, value(d), one as real);
            }
            lemma_sign(d);
        }
    } else if d.bits >= SIGN_BIT && is_finite(d) {
        lemma_sign(d);
    }
}

/// The bits of zero and of one stand for zero and one.
pub proof fn law_zero_and_one()
    ensures
        value(Binary64 { bits: 0 }) == 0 as real,
        value(Binary64 { bits: ONE_BITS }) == 1 as real,
        is_finite(Binary64 { bits: 0 }),
        is_finite(Binary64 { bits: ONE_BITS }),
{
    let one = vstd::arithmetic::power2::pow2(1074) as int;
    let d = Binary64 { bits: ONE_BITS };
    lemma_zero_bits();
    vstd::arithmetic::power2::lemma2_to64();
    vstd::arithmetic::power2::lemma2_to64_rest();
    vstd::arithmetic::power2::lemma_pow2_pos(1074);
    vstd::arithmetic::power2::lemma_pow2_adds(52, 1022);
    assert(steps_in(d) == one);
    lemma_divided(one as real, one as real);
    lemma_units(one as real);
    lemma_cancel(value(d), 1 as real, one as real);
    lemma_cancel(1 as real, value(d), one as real);
}

} // verus!
