//! Doubles, carried by their bits and ordered as doubles are.

use vstd::prelude::*;

verus! {

/// The bits of positive infinity; the patterns above it, up to the sign bit, are not numbers.
pub const INFINITY_BITS: u64 = 0x7FF0_0000_0000_0000;

/// The bits of negative infinity.
pub const NEG_INFINITY_BITS: u64 = 0xFFF0_0000_0000_0000;

/// The bits of one.
pub const ONE_BITS: u64 = 0x3FF0_0000_0000_0000;

/// The sign bit.
pub const SIGN_BIT: u64 = 0x8000_0000_0000_0000;

/// The number of fractions between a power of two and the next, which are the low bits of a
/// double.
pub const FRACTIONS: u64 = 0x10_0000_0000_0000;

/// Up to this number, a double holds every whole number.
pub const EXACT_WHOLE: u64 = 0x20_0000_0000_0000;

/// The distance between two doubles next to each other near the whole number `n`, or 1 where
/// that is less.
pub open spec fn spacing(n: nat) -> nat
    decreases n,
{
    if n < EXACT_WHOLE {
        1
    } else {
        2 * spacing(n / 2)
    }
}

/// The double that is nearest to the whole number `n`, the even one of two.
pub open spec fn nearest(n: nat) -> nat {
    let unit = spacing(n);
    let below = n / unit;
    let rest = n % unit;
    if 2 * rest > unit || (2 * rest == unit && below % 2 == 1) {
        (below + 1) * unit
    } else {
        below * unit
    }
}

/// A whole number, held to what a `u64` can hold.
pub open spec fn held(n: nat) -> u64 {
    if n <= u64::MAX {
        n as u64
    } else {
        u64::MAX
    }
}

/// Small whole numbers are doubles themselves.
pub proof fn law_small_numbers_are_doubles(n: nat)
    requires
        n <= EXACT_WHOLE,
    ensures
        nearest(n) == n,
{
    reveal_with_fuel(spacing, 2);
    if n < EXACT_WHOLE {
        assert(spacing(n) == 1);
        assert((n / 1) * 1 == n);
    } else {
        assert(spacing(n) == 2);
    }
}

/// The double that is nearest to a whole number.
pub fn nearest_whole(n: u128) -> (d: u128)
    requires
        n <= 0x2_0000_0000_0000_2000,
    ensures
        d == nearest(n as nat),
{
    let mut below: u128 = n;
    let mut unit: u128 = 1;
    while below >= EXACT_WHOLE as u128
        invariant
            n <= 0x2_0000_0000_0000_2000,
            unit > 0,
            below == n / unit,
            below * unit <= n,
            spacing(n as nat) == unit * spacing(below as nat),
        decreases below,
    {
        proof {
            let b = below as int;
            let u = unit as int;
            assert(u <= 0x2000) by (nonlinear_arith)
                requires
                    b >= 0x20_0000_0000_0000,
                    b * u <= 0x2_0000_0000_0000_2000,
                    u > 0,
            ;
            vstd::arithmetic::div_mod::lemma_div_denominator(n as int, u, 2);
            assert((b / 2) * (2 * u) <= b * u) by (nonlinear_arith)
                requires
                    b >= 0,
                    u > 0,
            ;
            let s = spacing((b / 2) as nat) as int;
            assert(u * (2 * s) == (2 * u) * s) by (nonlinear_arith);
            assert(u * 2 == 2 * u);
        }
        below = below / 2;
        unit = 2 * unit;
    }
    let rest: u128 = n % unit;
    proof {
        let b = below as int;
        let u = unit as int;
        let s = spacing(below as nat) as int;
        assert(u * s == u) by (nonlinear_arith)
            requires
                s == 1,
        ;
        lemma_spacing_is_small(n as nat);
        assert((b + 1) * u <= 0x2_0000_0000_0000_2000 + 0x4000) by (nonlinear_arith)
            requires
                b * u <= 0x2_0000_0000_0000_2000,
                0 < u <= 0x4000,
        ;
        assert(rest < unit);
    }
    if 2 * rest > unit || (2 * rest == unit && below % 2 == 1) {
        (below + 1) * unit
    } else {
        below * unit
    }
}

/// The double that is nearest to a `u64` lies near it.
pub proof fn law_nearest_is_near(n: u64)
    ensures
        nearest(n as nat) <= n + 0x1000,
{
    reveal_with_fuel(spacing, 13);
    let m = n as int;
    let unit = spacing(n as nat) as int;
    assert(0 < unit <= 0x1000);
    assert((m / unit + 1) * unit <= m + unit && (m / unit) * unit <= m) by (nonlinear_arith)
        requires
            m >= 0,
            unit > 0,
    ;
}

/// Near numbers that the sum of two counts can reach, doubles are not far apart.
proof fn lemma_spacing_is_small(n: nat)
    requires
        n <= 0x2_0000_0000_0000_2000,
    ensures
        spacing(n) <= 0x4000,
{
    reveal_with_fuel(spacing, 15);
}

/// How often a number can be halved until it is one.
pub open spec fn halvings(m: nat) -> nat
    decreases m,
{
    if m < 2 {
        0
    } else {
        1 + halvings(m / 2)
    }
}

/// The bits of the double that is nearest to the whole number `n`: the exponent tells how often
/// it can be halved, and below stand its binary digits, as many as there is room for. The first
/// of them is always one and runs over into the exponent.
pub open spec fn bits_of_whole(n: nat) -> int {
    let m = nearest(n);
    let k = halvings(m);
    if m == 0 {
        0
    } else if k <= 52 {
        (1022 + k) * FRACTIONS + m * vstd::arithmetic::power2::pow2((52 - k) as nat)
    } else {
        (1022 + k) * FRACTIONS + m / vstd::arithmetic::power2::pow2((k - 52) as nat)
    }
}

/// A number lies between the power of two that its halvings tell and the next.
proof fn lemma_halvings(m: nat)
    requires
        m > 0,
    ensures
        vstd::arithmetic::power2::pow2(halvings(m)) <= m < vstd::arithmetic::power2::pow2(
            halvings(m) + 1,
        ),
    decreases m,
{
    vstd::arithmetic::power2::lemma2_to64();
    vstd::arithmetic::power2::lemma_pow2_unfold(halvings(m) + 1);
    if m >= 2 {
        lemma_halvings(m / 2);
        vstd::arithmetic::power2::lemma_pow2_unfold(halvings(m));
    }
}

/// The distance between doubles is a power of two, and where it is not 1, a number holds it as
/// often as a double has digits for.
proof fn lemma_spacing_is_a_power(n: nat) -> (j: nat)
    ensures
        spacing(n) == vstd::arithmetic::power2::pow2(j),
        n < EXACT_WHOLE ==> j == 0,
        n >= EXACT_WHOLE ==> FRACTIONS <= n / spacing(n) < EXACT_WHOLE,
    decreases n,
{
    vstd::arithmetic::power2::lemma2_to64();
    if n < EXACT_WHOLE {
        0
    } else {
        let i = lemma_spacing_is_a_power(n / 2);
        vstd::arithmetic::power2::lemma_pow2_unfold(i + 1);
        vstd::arithmetic::power2::lemma_pow2_pos(i);
        let half = spacing(n / 2);
        vstd::arithmetic::div_mod::lemma_div_denominator(n as int, 2, half as int);
        if n / 2 < EXACT_WHOLE {
            assert(half == 1);
        }
        i + 1
    }
}

/// A nearest double that has more digits than there is room for ends in zeros.
proof fn lemma_nearest_ends_in_zeros(n: nat)
    requires
        halvings(nearest(n)) > 52,
    ensures
        nearest(n) % vstd::arithmetic::power2::pow2((halvings(nearest(n)) - 52) as nat) == 0,
{
    let m = nearest(n);
    let k = halvings(m);
    let j = lemma_spacing_is_a_power(n);
    let unit = spacing(n);
    let below = n / unit;
    vstd::arithmetic::power2::lemma2_to64();
    vstd::arithmetic::power2::lemma2_to64_rest();
    vstd::arithmetic::power2::lemma_pow2_pos(j);
    if n <= EXACT_WHOLE {
        law_small_numbers_are_doubles(n);
        lemma_halvings(m);
        if k > 53 {
            vstd::arithmetic::power2::lemma_pow2_strictly_increases(53, k);
        }
        assert(n == EXACT_WHOLE && k == 53);
        let two = vstd::arithmetic::power2::pow2((k - 52) as nat);
        assert((k - 52) as nat == 1 && two == 2);
        assert(m % two == 0) by (nonlinear_arith)
            requires
                m == 0x20_0000_0000_0000,
                two == 2,
        ;
    } else {
        let q: nat = if m == below * unit {
            below
        } else {
            below + 1
        };
        assert(m == q * unit);
        assert(0 < m) by (nonlinear_arith)
            requires
                m == q * unit,
                q > 0,
                unit > 0,
        ;
        lemma_halvings(m);
        let few = vstd::arithmetic::power2::pow2((k - 52) as nat);
        vstd::arithmetic::power2::lemma_pow2_pos((k - 52) as nat);
        if q < EXACT_WHOLE {
            vstd::arithmetic::power2::lemma_pow2_adds(53, j);
            assert(q * unit < EXACT_WHOLE * unit) by (nonlinear_arith)
                requires
                    q < EXACT_WHOLE,
                    unit > 0,
            ;
            if k > 53 + j {
                vstd::arithmetic::power2::lemma_pow2_strictly_increases(53 + j, k);
            }
            assert(k - 52 <= j);
            let rest = vstd::arithmetic::power2::pow2((j - (k - 52)) as nat);
            vstd::arithmetic::power2::lemma_pow2_adds((k - 52) as nat, (j - (k - 52)) as nat);
            assert(m == (q * rest) * few) by (nonlinear_arith)
                requires
                    m == q * unit,
                    unit == few * rest,
            ;
            vstd::arithmetic::div_mod::lemma_mod_multiples_basic((q * rest) as int, few as int);
            assert(m as int == ((q * rest) as int) * (few as int));
        } else {
            vstd::arithmetic::power2::lemma_pow2_adds(53, j);
            if k > 53 + j {
                vstd::arithmetic::power2::lemma_pow2_strictly_increases(53 + j, k);
            } else if k + 1 < 53 + j {
                vstd::arithmetic::power2::lemma_pow2_strictly_increases(k + 1, 53 + j);
            }
            assert(k == 53 + j);
            vstd::arithmetic::power2::lemma_pow2_adds(52, j + 1);
            assert(q * unit == EXACT_WHOLE * unit) by (nonlinear_arith)
                requires
                    q == EXACT_WHOLE,
            ;
            assert(m == vstd::arithmetic::power2::pow2(52) * few);
            vstd::arithmetic::div_mod::lemma_mod_multiples_basic(
                vstd::arithmetic::power2::pow2(52) as int,
                few as int,
            );
        }
    }
}

/// The double that is nearest to a whole number is that number again, as far as a double can
/// hold it.
pub proof fn law_bits_of_whole(n: u64)
    ensures
        0 <= bits_of_whole(n as nat) < SIGN_BIT,
        (Binary64 { bits: bits_of_whole(n as nat) as u64 }).whole_part() == held(
            nearest(n as nat),
        ),
{
    let m = nearest(n as nat);
    let k = halvings(m);
    let bits = bits_of_whole(n as nat);
    let one = FRACTIONS as int;
    vstd::arithmetic::power2::lemma2_to64();
    vstd::arithmetic::power2::lemma2_to64_rest();
    if m > 0 {
        lemma_halvings(m);
        law_nearest_is_near(n);
        if k > 64 {
            if k > 65 {
                vstd::arithmetic::power2::lemma_pow2_strictly_increases(65, k);
            }
            vstd::arithmetic::power2::lemma_pow2_unfold(65);
        }
        assert(k <= 64);
        vstd::arithmetic::power2::lemma_pow2_unfold(k + 1);
        let low = vstd::arithmetic::power2::pow2(k) as int;
        let digits: int = bits - (1022 + k) * one;
        if k <= 52 {
            let scale = vstd::arithmetic::power2::pow2((52 - k) as nat) as int;
            vstd::arithmetic::power2::lemma_pow2_pos((52 - k) as nat);
            vstd::arithmetic::power2::lemma_pow2_adds(k, (52 - k) as nat);
            assert(one <= m * scale < 2 * one) by (nonlinear_arith)
                requires
                    low <= m < 2 * low,
                    low * scale == one,
                    scale > 0,
            ;
            assert(digits == m * scale);
            if k < 52 {
                vstd::arithmetic::div_mod::lemma_div_multiples_vanish(m as int, scale);
                assert(m * scale == scale * m) by (nonlinear_arith);
            }
        } else {
            let scale = vstd::arithmetic::power2::pow2((k - 52) as nat) as int;
            vstd::arithmetic::power2::lemma_pow2_pos((k - 52) as nat);
            vstd::arithmetic::power2::lemma_pow2_adds(52, (k - 52) as nat);
            lemma_nearest_ends_in_zeros(n as nat);
            let part = m as int / scale;
            vstd::arithmetic::div_mod::lemma_fundamental_div_mod(m as int, scale);
            assert(part * scale == m) by (nonlinear_arith)
                requires
                    m == scale * part + 0,
            ;
            assert(one <= part < 2 * one) by (nonlinear_arith)
                requires
                    part * scale == m,
                    low <= m < 2 * low,
                    low == one * scale,
                    scale > 0,
            ;
            assert(digits == part);
        }
        assert(one <= digits < 2 * one);
        assert(bits / one == 1023 + k && bits % one == digits - one);
        let d = Binary64 { bits: bits as u64 };
        let scale = vstd::arithmetic::power2::pow2((if k >= 52 {
            k - 52
        } else {
            52 - k
        }) as nat) as int;
        if k == 64 {
            assert(d.whole_part() == u64::MAX);
        } else {
            if k < 63 {
                vstd::arithmetic::power2::lemma_pow2_strictly_increases(k + 1, 64);
            }
            assert(m <= u64::MAX);
            if k > 52 {
                assert(d.whole_part() == digits * scale);
            } else if k == 52 {
                assert(scale == 1);
                assert(m * scale == m && digits * scale == digits) by (nonlinear_arith)
                    requires
                        scale == 1,
                ;
                assert(d.whole_part() == digits * scale);
            } else {
                assert(d.whole_part() == digits / scale);
            }
        }
    }
}

/// A power of two.
fn two_to(k: u64) -> (p: u64)
    requires
        k < 64,
    ensures
        p == vstd::arithmetic::power2::pow2(k as nat),
        p > 0,
{
    let mut p: u64 = 1;
    let mut i: u64 = 0;
    proof {
        vstd::arithmetic::power2::lemma2_to64();
    }
    while i < k
        invariant
            i <= k < 64,
            p == vstd::arithmetic::power2::pow2(i as nat),
            p > 0,
        decreases k - i,
    {
        proof {
            vstd::arithmetic::power2::lemma_pow2_unfold((i + 1) as nat);
            vstd::arithmetic::power2::lemma2_to64();
            if i + 1 < 63 {
                vstd::arithmetic::power2::lemma_pow2_strictly_increases((i + 1) as nat, 63);
            }
            vstd::arithmetic::power2::lemma2_to64_rest();
        }
        p = 2 * p;
        i += 1;
    }
    p
}

/// A double, by its bits.
#[derive(Clone, Copy, Debug, PartialEq, Eq, Structural)]
pub struct Binary64 {
    pub bits: u64,
}

impl Binary64 {
    /// Where the double stands on the number line, as a whole number: of two doubles that are
    /// numbers, the smaller one stands lower, and the two zeros stand on the same place.
    pub open spec fn rank(self) -> int {
        if self.bits < SIGN_BIT {
            self.bits as int
        } else {
            SIGN_BIT - self.bits
        }
    }

    /// Whether the pattern is no number.
    pub open spec fn not_a_number(self) -> bool {
        self.rank() > INFINITY_BITS || self.rank() < -(INFINITY_BITS as int)
    }

    /// `self < other`, which is false where either is no number.
    pub open spec fn below(self, other: Self) -> bool {
        !self.not_a_number() && !other.not_a_number() && self.rank() < other.rank()
    }

    /// `self <= other`, which is false where either is no number.
    pub open spec fn at_most(self, other: Self) -> bool {
        !self.not_a_number() && !other.not_a_number() && self.rank() <= other.rank()
    }

    /// The smaller of two doubles, passing over one that is no number.
    pub open spec fn smaller(self, other: Self) -> Self {
        if self.not_a_number() {
            other
        } else if other.below(self) {
            other
        } else {
            self
        }
    }

    /// The larger of two doubles, passing over one that is no number.
    pub open spec fn larger(self, other: Self) -> Self {
        if self.not_a_number() {
            other
        } else if self.below(other) {
            other
        } else {
            self
        }
    }

    /// The double without its fraction, held to what a `u64` can hold: zero where it is negative
    /// or no number.
    pub open spec fn whole_part(self) -> int {
        let exponent = self.bits as int / FRACTIONS as int;
        let digits = FRACTIONS as int + self.bits as int % FRACTIONS as int;
        if self.not_a_number() || self.bits >= SIGN_BIT || exponent < 1023 {
            0
        } else if exponent >= 1087 {
            u64::MAX as int
        } else if exponent >= 1075 {
            digits * vstd::arithmetic::power2::pow2((exponent - 1075) as nat)
        } else {
            digits / (vstd::arithmetic::power2::pow2((1075 - exponent) as nat) as int)
        }
    }

    /// The double without its fraction, held to what a `u64` can hold.
    pub fn to_whole(&self) -> (n: u64)
        ensures
            n == self.whole_part(),
    {
        if self.is_nan() || self.bits >= SIGN_BIT {
            return 0;
        }
        let exponent: u64 = self.bits / FRACTIONS;
        let digits: u64 = FRACTIONS + self.bits % FRACTIONS;
        if exponent < 1023 {
            0
        } else if exponent >= 1087 {
            u64::MAX
        } else if exponent >= 1075 {
            let scale: u64 = two_to(exponent - 1075);
            proof {
                vstd::arithmetic::power2::lemma2_to64();
                if exponent - 1075 < 11 {
                    vstd::arithmetic::power2::lemma_pow2_strictly_increases(
                        (exponent - 1075) as nat,
                        11,
                    );
                }
                let d = digits as int;
                let p = scale as int;
                assert(d * p <= u64::MAX) by (nonlinear_arith)
                    requires
                        0 <= d < 0x20_0000_0000_0000,
                        0 < p <= 2048,
                ;
            }
            digits * scale
        } else {
            digits / two_to(1075 - exponent)
        }
    }

    /// The double with the given bits.
    pub fn from_bits(bits: u64) -> (d: Self)
        ensures
            d.bits == bits,
    {
        Binary64 { bits }
    }

    /// Positive zero.
    pub fn zero() -> (d: Self)
        ensures
            d == (Binary64 { bits: 0 }),
    {
        Binary64 { bits: 0 }
    }

    /// Whether the pattern is no number.
    pub fn is_nan(&self) -> (b: bool)
        ensures
            b == self.not_a_number(),
    {
        if self.bits < SIGN_BIT {
            self.bits > INFINITY_BITS
        } else {
            self.bits - SIGN_BIT > INFINITY_BITS
        }
    }

    /// `self < other`.
    pub fn lt(&self, other: &Self) -> (b: bool)
        ensures
            b == self.below(*other),
    {
        if self.is_nan() || other.is_nan() {
            return false;
        }
        match (self.bits < SIGN_BIT, other.bits < SIGN_BIT) {
            (true, true) => self.bits < other.bits,
            (true, false) => false,
            (false, true) => self.bits != SIGN_BIT || other.bits != 0,
            (false, false) => other.bits < self.bits,
        }
    }

    /// `self <= other`.
    pub fn le(&self, other: &Self) -> (b: bool)
        ensures
            b == self.at_most(*other),
    {
        if self.is_nan() || other.is_nan() {
            return false;
        }
        !other.lt(self)
    }

    /// The smaller of two doubles, passing over one that is no number.
    pub fn min(self, other: Self) -> (d: Self)
        ensures
            d == self.smaller(other),
    {
        if self.is_nan() || other.lt(&self) {
            other
        } else {
            self
        }
    }

    /// The larger of two doubles, passing over one that is no number.
    pub fn max(self, other: Self) -> (d: Self)
        ensures
            d == self.larger(other),
    {
        if self.is_nan() || self.lt(&other) {
            other
        } else {
            self
        }
    }
}

/// Doubles are ordered by their bits: those without the sign bit upwards, those with it
/// downwards and below the others, but for the two zeros, which are equal. A pattern past that of
/// infinity is no number, and lies neither below nor above anything.
pub proof fn law_doubles_are_ordered_by_their_bits(
    a: &Binary64,
    b: &Binary64,
    none: bool,
    lt: bool,
    le: bool,
)
    requires
        call_ensures(Binary64::is_nan, (a,), none),
        call_ensures(Binary64::lt, (a, b), lt),
        call_ensures(Binary64::le, (a, b), le),
    ensures
        none <==> 0x7FF0_0000_0000_0000 < a.bits < 0x8000_0000_0000_0000 || a.bits
            > 0xFFF0_0000_0000_0000,
        none ==> !lt && !le,
        0x7FF0_0000_0000_0000 < b.bits < 0x8000_0000_0000_0000 || b.bits > 0xFFF0_0000_0000_0000
            ==> !lt && !le,
        a.bits <= 0x7FF0_0000_0000_0000 && b.bits <= 0x7FF0_0000_0000_0000 ==> (lt <==> a.bits
            < b.bits) && (le <==> a.bits <= b.bits),
        0x8000_0000_0000_0000 <= a.bits <= 0xFFF0_0000_0000_0000 && 0x8000_0000_0000_0000 <= b.bits
            <= 0xFFF0_0000_0000_0000 ==> (lt <==> a.bits > b.bits) && (le <==> a.bits >= b.bits),
        0x8000_0000_0000_0000 <= a.bits <= 0xFFF0_0000_0000_0000 && b.bits <= 0x7FF0_0000_0000_0000
            ==> le && (lt <==> !(a.bits == 0x8000_0000_0000_0000 && b.bits == 0)),
        a.bits <= 0x7FF0_0000_0000_0000 && 0x8000_0000_0000_0000 <= b.bits <= 0xFFF0_0000_0000_0000
            ==> !lt && (le <==> a.bits == 0 && b.bits == 0x8000_0000_0000_0000),
{
}

/// The smaller and the larger of two doubles are among the two, and on their sides of both; one
/// that is no number is passed over.
pub proof fn law_extremes_are_among_the_two(
    a: Binary64,
    b: Binary64,
    none_a: bool,
    none_b: bool,
    low: Binary64,
    high: Binary64,
    below: bool,
    above: bool,
)
    requires
        call_ensures(Binary64::min, (a, b), low),
        call_ensures(Binary64::max, (a, b), high),
        call_ensures(Binary64::is_nan, (&a,), none_a),
        call_ensures(Binary64::is_nan, (&b,), none_b),
        call_ensures(Binary64::lt, (&b, &a), below),
        call_ensures(Binary64::lt, (&a, &b), above),
    ensures
        none_a ==> low == b && high == b,
        none_b && !none_a ==> low == a && high == a,
        !none_a && !none_b ==> low == (if below {
            b
        } else {
            a
        }) && high == (if above {
            b
        } else {
            a
        }),
{
}

/// The double that is nearest to a whole number is off it by no more than half the distance of
/// the doubles around it, and of two it is the even one: that distance is 1 for small numbers,
/// and twice that of half the number for large ones.
pub proof fn law_the_nearest_double_is_nearest(n: u128, d: u128)
    requires
        call_ensures(nearest_whole, (n,), d),
    ensures
        ({
            let unit = spacing(n as nat) as int;
            &&& unit > 0
            &&& d as int % unit == 0
            &&& 2 * (d - n) <= unit
            &&& 2 * (n - d) <= unit
            &&& 2 * (d - n) == unit || 2 * (n - d) == unit ==> (d as int / unit) % 2 == 0
        }),
        n < EXACT_WHOLE ==> spacing(n as nat) == 1 && d == n,
        n >= EXACT_WHOLE ==> spacing(n as nat) == 2 * spacing((n / 2) as nat),
{
    let unit = spacing(n as nat) as int;
    let m = n as int;
    let j = lemma_spacing_is_a_power(n as nat);
    vstd::arithmetic::power2::lemma_pow2_pos(j);
    let below = m / unit;
    let rest = m % unit;
    vstd::arithmetic::div_mod::lemma_fundamental_div_mod(m, unit);
    assert(unit * below == below * unit && (below + 1) * unit == below * unit + unit)
        by (nonlinear_arith);
    vstd::arithmetic::div_mod::lemma_mod_multiples_basic(below, unit);
    vstd::arithmetic::div_mod::lemma_mod_multiples_basic(below + 1, unit);
    vstd::arithmetic::div_mod::lemma_div_multiples_vanish(below, unit);
    vstd::arithmetic::div_mod::lemma_div_multiples_vanish(below + 1, unit);
    assert(unit * (below + 1) == (below + 1) * unit) by (nonlinear_arith);
    assert(0 <= rest < unit);
    if n < EXACT_WHOLE {
        law_small_numbers_are_doubles(n as nat);
    }
}

/// Larger numbers have no smaller distance between doubles.
proof fn lemma_spacing_grows(a: nat, b: nat)
    requires
        a <= b,
    ensures
        spacing(a) <= spacing(b),
        spacing(a) != spacing(b) ==> 2 * spacing(a) <= spacing(b),
    decreases b,
{
    if b >= EXACT_WHOLE {
        if a >= EXACT_WHOLE {
            lemma_spacing_grows(a / 2, b / 2);
        } else {
            let j = lemma_spacing_is_a_power(b / 2);
            vstd::arithmetic::power2::lemma_pow2_pos(j);
        }
    }
}

/// The double that is nearest to a whole number grows with the number, and only that of zero is
/// zero.
pub proof fn law_nearest_keeps_the_order(a: nat, b: nat)
    requires
        a <= b,
    ensures
        nearest(a) <= nearest(b),
        a > 0 ==> nearest(a) > 0,
{
    let u = spacing(a) as int;
    let v = spacing(b) as int;
    let i = lemma_spacing_is_a_power(a);
    let j = lemma_spacing_is_a_power(b);
    vstd::arithmetic::power2::lemma2_to64();
    vstd::arithmetic::power2::lemma_pow2_pos(i);
    vstd::arithmetic::power2::lemma_pow2_pos(j);
    lemma_spacing_grows(a, b);
    let (p, q) = (a as int / u, b as int / v);
    let (x, y) = (nearest(a) as int, nearest(b) as int);
    vstd::arithmetic::div_mod::lemma_fundamental_div_mod(a as int, u);
    vstd::arithmetic::div_mod::lemma_fundamental_div_mod(b as int, v);
    assert(x == p * u || x == (p + 1) * u);
    assert(y == q * v || y == (q + 1) * v);
    assert(q * v <= (q + 1) * v && p * u <= (p + 1) * u) by (nonlinear_arith)
        requires
            u > 0,
            v > 0,
    ;
    if a < EXACT_WHOLE {
        law_small_numbers_are_doubles(a);
    } else {
        assert(p * u > 0) by (nonlinear_arith)
            requires
                p >= FRACTIONS,
                u > 0,
        ;
    }
    if u == v {
        vstd::arithmetic::div_mod::lemma_div_is_ordered(a as int, b as int, u);
        if p < q {
            assert((p + 1) * u <= q * u) by (nonlinear_arith)
                requires
                    p + 1 <= q,
                    u > 0,
            ;
        }
    } else if a < EXACT_WHOLE && b < EXACT_WHOLE {
    } else {
        assert(p < EXACT_WHOLE) by {
            if a < EXACT_WHOLE {
                assert(u == 1);
            }
        }
        assert(q >= FRACTIONS);
        assert((p + 1) * u <= EXACT_WHOLE * u) by (nonlinear_arith)
            requires
                p + 1 <= EXACT_WHOLE,
                u > 0,
        ;
        assert(EXACT_WHOLE * u <= q * v) by (nonlinear_arith)
            requires
                q >= 0x10_0000_0000_0000,
                EXACT_WHOLE == 0x20_0000_0000_0000,
                v >= 2 * u,
                u > 0,
        ;
    }
}

} // verus!
