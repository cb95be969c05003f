//! Readings, the statistics of one sensor over a window, and the frame of a window.

use crate::binary64;
use crate::binary64::{Binary64, EXACT_WHOLE, INFINITY_BITS, NEG_INFINITY_BITS};
use std::collections::HashMap;
use vstd::prelude::*;

verus! {

/// A point in time, as the clock of the system tells it.
#[derive(Clone, Copy, Debug, PartialEq, Eq, Structural)]
pub enum FrameTime {
    /// Some time before the Unix epoch.
    BeforeEpoch,
    /// So long after the Unix epoch.
    SinceEpoch { secs: u64, nanos: u32 },
}

/// One reading of one sensor.
#[derive(Clone, Debug)]
pub struct ReadingEnvelope {
    pub sensor_id: String,
    pub ts: FrameTime,
    /// The scalar that is aggregated.
    pub value: Binary64,
}

impl ReadingEnvelope {
    /// Puts a reading together.
    pub fn new(sensor_id: String, ts: FrameTime, value: Binary64) -> (r: Self)
        ensures
            r.sensor_id == sensor_id,
            r.ts == ts,
            r.value == value,
    {
        ReadingEnvelope { sensor_id, ts, value }
    }
}

/// A reading that lies far from the others of its window.
#[derive(Clone, Debug)]
pub struct AnomalyRecord {
    pub sensor_id: String,
    pub ts: FrameTime,
    pub value: Binary64,
    /// How far, in standard deviations.
    pub z: Binary64,
}

/// The running mean and the running sum of squared deviations of a sample.
///
/// They are computed in floating point and handed in; `moments` shows what they are of a sample
/// where nothing is rounded.
#[derive(Clone, Copy, Debug, PartialEq, Eq, Structural)]
pub struct Moments {
    pub mean: Binary64,
    pub m2: Binary64,
}

/// The sum of two counts, each taken as a double and added as doubles, as a count again.
pub open spec fn joint_count(a: u64, b: u64) -> u64 {
    binary64::held(
        binary64::nearest(binary64::nearest(a as nat) + binary64::nearest(b as nat)),
    )
}

/// The sum of two counts, each taken as a double and added as doubles, as a count again.
fn join_counts(a: u64, b: u64) -> (n: u64)
    ensures
        n == joint_count(a, b),
{
    proof {
        binary64::law_nearest_is_near(a);
        binary64::law_nearest_is_near(b);
    }
    let sum: u128 = binary64::nearest_whole(
        binary64::nearest_whole(a as u128) + binary64::nearest_whole(b as u128),
    );
    if sum <= u64::MAX as u128 {
        sum as u64
    } else {
        u64::MAX
    }
}

/// The statistics of one sensor over a window.
#[derive(Clone, Copy, Debug, PartialEq, Eq, Structural)]
pub struct SensorStats {
    pub count: u64,
    pub min: Binary64,
    pub max: Binary64,
    pub mean: Binary64,
    pub m2: Binary64,
}

impl SensorStats {
    /// The statistics of no reading at all.
    pub open spec fn empty() -> Self {
        SensorStats {
            count: 0,
            min: Binary64 { bits: INFINITY_BITS },
            max: Binary64 { bits: NEG_INFINITY_BITS },
            mean: Binary64 { bits: 0 },
            m2: Binary64 { bits: 0 },
        }
    }

    /// The statistics with the reading `x` added, where `next` are the moments that come of it.
    pub open spec fn with_reading(self, x: Binary64, next: Moments) -> Self {
        if self.count == 0 {
            SensorStats { count: 1, min: x, max: x, mean: x, m2: Binary64 { bits: 0 } }
        } else {
            SensorStats {
                count: (self.count + 1) as u64,
                min: if x.below(self.min) {
                    x
                } else {
                    self.min
                },
                max: if self.max.below(x) {
                    x
                } else {
                    self.max
                },
                mean: next.mean,
                m2: next.m2,
            }
        }
    }

    /// The statistics of two samples together, where `joint` are the moments that come of it.
    pub open spec fn joined(self, other: Self, joint: Moments) -> Self {
        if self.count == 0 {
            other
        } else if other.count == 0 {
            self
        } else {
            SensorStats {
                count: joint_count(self.count, other.count),
                min: self.min.smaller(other.min),
                max: self.max.larger(other.max),
                mean: joint.mean,
                m2: joint.m2,
            }
        }
    }

    /// Whether the count and the extremes are those of the readings `xs`.
    pub open spec fn covers(self, xs: Seq<Binary64>) -> bool {
        &&& self.count == xs.len()
        &&& xs.len() > 0 ==> xs.contains(self.min) && xs.contains(self.max)
        &&& forall|i: int|
            #![trigger xs[i]]
            0 <= i < xs.len() ==> self.min.at_most(xs[i]) && xs[i].at_most(self.max)
    }

    /// Adds the reading `x`.
    ///
    /// `next` are the moments that come of it: with `delta` for `x` less the mean so far, the
    /// mean grows by `delta` over the new count, and the sum of squares by `delta` times `x`
    /// less the new mean. The first reading needs none.
    pub fn update(&mut self, x: Binary64, next: Moments)
        requires
            old(self).count < u64::MAX,
        ensures
            *final(self) == old(self).with_reading(x, next),
    {
        if self.count == 0 {
            self.count = 1;
            self.min = x;
            self.max = x;
            self.mean = x;
            self.m2 = Binary64::zero();
            return ;
        }
        self.count += 1;
        if x.lt(&self.min) {
            self.min = x;
        }
        if self.max.lt(&x) {
            self.max = x;
        }
        self.mean = next.mean;
        self.m2 = next.m2;
    }

    /// Joins two samples.
    ///
    /// `joint` are the moments that come of it: with `delta` for the difference of the means,
    /// and the counts taken as doubles, the mean grows by `delta` times the share of the other
    /// count, and the sums of squares add up, and with them the square of `delta` times the
    /// product of the counts over their sum. An empty sample needs none.
    pub fn merge(self, other: Self, joint: Moments) -> (s: Self)
        ensures
            s == self.joined(other, joint),
    {
        if self.count == 0 {
            return other;
        }
        if other.count == 0 {
            return self;
        }
        SensorStats {
            count: join_counts(self.count, other.count),
            min: self.min.min(other.min),
            max: self.max.max(other.max),
            mean: joint.mean,
            m2: joint.m2,
        }
    }

    /// The variance of the sample: zero for fewer than two readings, else `quotient`, which is
    /// the sum of squares over one less than the count.
    pub fn variance_sample(&self, quotient: Binary64) -> (v: Binary64)
        ensures
            v == (if self.count <= 1 {
                Binary64 { bits: 0 }
            } else {
                quotient
            }),
    {
        if self.count <= 1 {
            Binary64::zero()
        } else {
            quotient
        }
    }

    /// The standard deviation of the sample: zero for fewer than two readings, else `root`,
    /// which is the square root of the variance.
    pub fn stddev_sample(&self, root: Binary64) -> (d: Binary64)
        ensures
            d == (if self.count <= 1 {
                Binary64 { bits: 0 }
            } else {
                root
            }),
    {
        if self.count <= 1 {
            Binary64::zero()
        } else {
            root
        }
    }
}

impl Default for SensorStats {
    fn default() -> (s: Self)
        ensures
            s == SensorStats::empty(),
    {
        SensorStats {
            count: 0,
            min: Binary64::from_bits(INFINITY_BITS),
            max: Binary64::from_bits(NEG_INFINITY_BITS),
            mean: Binary64::zero(),
            m2: Binary64::zero(),
        }
    }
}

/// The statistics of all sensors over one window.
#[derive(Clone, Debug)]
pub struct AggregatedFrame {
    pub window_id: u64,
    pub window_start: FrameTime,
    pub window_end: FrameTime,
    pub per_sensor: HashMap<String, SensorStats>,
    pub anomalies: Vec<AnomalyRecord>,
}

/// Before the first reading, the statistics are those of no reading.
pub proof fn law_empty_covers_nothing()
    ensures
        SensorStats::empty().covers(Seq::<Binary64>::empty()),
{
}

/// Adding readings one by one keeps count and extremes those of the readings so far.
pub proof fn law_update_covers(s: SensorStats, xs: Seq<Binary64>, x: Binary64, next: Moments)
    requires
        s.covers(xs),
        !x.not_a_number(),
        s.count < u64::MAX,
    ensures
        s.with_reading(x, next).covers(xs.push(x)),
{
    let after = s.with_reading(x, next);
    let ys = xs.push(x);
    assert(ys[xs.len() as int] == x);
    if xs.len() > 0 {
        let lo = xs.index_of(s.min);
        let hi = xs.index_of(s.max);
        assert(ys[lo] == s.min);
        assert(ys[hi] == s.max);
        assert(xs[lo] == s.min && xs[hi] == s.max);
    }
    assert forall|i: int| #![trigger ys[i]] 0 <= i < ys.len() implies after.min.at_most(ys[i])
        && ys[i].at_most(after.max) by {
        if i < xs.len() {
            assert(ys[i] == xs[i]);
        }
    }
}

/// Joining two samples gives the count and the extremes of all their readings, whatever way the
/// readings were shared out.
pub proof fn law_merge_covers_both(
    s: SensorStats,
    xs: Seq<Binary64>,
    t: SensorStats,
    ys: Seq<Binary64>,
    joint: Moments,
)
    requires
        s.covers(xs),
        t.covers(ys),
        xs.len() + ys.len() <= EXACT_WHOLE,
    ensures
        s.joined(t, joint).covers(xs + ys),
{
    let after = s.joined(t, joint);
    let all = xs + ys;
    binary64::law_small_numbers_are_doubles(xs.len());
    binary64::law_small_numbers_are_doubles(ys.len());
    binary64::law_small_numbers_are_doubles(xs.len() + ys.len());
    if xs.len() == 0 {
        assert(all =~= ys);
    } else if ys.len() == 0 {
        assert(all =~= xs);
    } else {
        let a = xs.index_of(s.min);
        let b = xs.index_of(s.max);
        let c = ys.index_of(t.min);
        let d = ys.index_of(t.max);
        assert(xs[a] == s.min && xs[b] == s.max && ys[c] == t.min && ys[d] == t.max);
        assert(all[a] == s.min && all[b] == s.max);
        assert(all[xs.len() + c] == t.min && all[xs.len() + d] == t.max);
        assert forall|i: int| #![trigger all[i]] 0 <= i < all.len() implies after.min.at_most(
            all[i],
        ) && all[i].at_most(after.max) by {
            if i < xs.len() {
                assert(all[i] == xs[i]);
            } else {
                assert(all[i] == ys[i - xs.len()]);
            }
        }
    }
}

/// Joining with an empty sample changes nothing.
pub proof fn law_merge_with_empty(s: SensorStats, joint: Moments)
    ensures
        s.count > 0 ==> s.joined(SensorStats::empty(), joint) == s,
        SensorStats::empty().joined(s, joint) == s,
{
}

/// A reading counts once. The first one is the least, the largest and the mean, with no squares;
/// a later one takes over the moments that are handed in with it, and becomes an extreme exactly
/// where it lies beyond that extreme.
pub proof fn law_a_reading_counts_once(s: &mut SensorStats, x: Binary64, next: Moments)
    requires
        call_ensures(SensorStats::update, (s, x, next), ()),
        old(s).count < u64::MAX,
    ensures
        final(s).count == old(s).count + 1,
        old(s).count == 0 ==> final(s).min == x && final(s).max == x && final(s).mean == x && final(
            s).m2.bits == 0,
        old(s).count > 0 ==> {
            &&& final(s).mean == next.mean
            &&& final(s).m2 == next.m2
            &&& x.below(old(s).min) ==> final(s).min == x
            &&& !x.below(old(s).min) ==> final(s).min == old(s).min
            &&& old(s).max.below(x) ==> final(s).max == x
            &&& !old(s).max.below(x) ==> final(s).max == old(s).max
            &&& x.not_a_number() ==> final(s).min == old(s).min && final(s).max == old(s).max
        },
{
}

/// Two samples together have the extremes of both, the count of both as far as doubles hold it,
/// and the moments that are handed in; with an empty sample, the other one stays as it is.
/// The doubles that are nearest to the counts, and to the sum of these, are `near_a`, `near_b`
/// and `near`.
pub proof fn law_samples_join(
    a: SensorStats,
    b: SensorStats,
    joint: Moments,
    s: SensorStats,
    near_a: u128,
    near_b: u128,
    near: u128,
)
    requires
        call_ensures(SensorStats::merge, (a, b, joint), s),
        call_ensures(binary64::nearest_whole, (a.count as u128,), near_a),
        call_ensures(binary64::nearest_whole, (b.count as u128,), near_b),
        call_ensures(binary64::nearest_whole, ((near_a + near_b) as u128,), near),
        near_a + near_b <= u128::MAX,
    ensures
        a.count == 0 ==> s == b,
        a.count > 0 && b.count == 0 ==> s == a,
        a.count > 0 && b.count > 0 ==> {
            &&& s.mean == joint.mean
            &&& s.m2 == joint.m2
            &&& a.count + b.count <= EXACT_WHOLE ==> s.count == a.count + b.count
            &&& near <= u64::MAX ==> s.count == near
            &&& near > u64::MAX ==> s.count == u64::MAX
            &&& s.min == a.min || s.min == b.min
            &&& s.max == a.max || s.max == b.max
            &&& !a.min.not_a_number() && !b.min.not_a_number() ==> s.min.at_most(a.min)
                && s.min.at_most(b.min)
            &&& !a.max.not_a_number() && !b.max.not_a_number() ==> a.max.at_most(s.max)
                && b.max.at_most(s.max)
            &&& a.min.not_a_number() ==> s.min == b.min
            &&& b.min.not_a_number() && !a.min.not_a_number() ==> s.min == a.min
            &&& a.max.not_a_number() ==> s.max == b.max
            &&& b.max.not_a_number() && !a.max.not_a_number() ==> s.max == a.max
        },
{
    if a.count + b.count <= EXACT_WHOLE {
        binary64::law_small_numbers_are_doubles(a.count as nat);
        binary64::law_small_numbers_are_doubles(b.count as nat);
        binary64::law_small_numbers_are_doubles((a.count + b.count) as nat);
    }
}

/// Fewer than two readings do not vary; of more, variance and standard deviation are what is
/// handed in.
pub proof fn law_few_readings_do_not_vary(s: &SensorStats, x: Binary64, v: Binary64, d: Binary64)
    requires
        call_ensures(SensorStats::variance_sample, (s, x), v),
        call_ensures(SensorStats::stddev_sample, (s, x), d),
    ensures
        s.count < 2 ==> v.bits == 0 && d.bits == 0,
        s.count >= 2 ==> v == x && d == x,
{
}

} // verus!
