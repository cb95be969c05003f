//! How long a sensor reader sleeps between two polls.
//!
//! The governor watches the backlog of the sensor, the fill of the queue behind it and the time
//! that producers and consumers have waited, and picks a mode and a sleep. It decides; the
//! arithmetic on fill ratios is done by the caller, who hands in its outcome as a
//! `ControlSample`.

use crate::binary64;
use crate::binary64::{Binary64, EXACT_WHOLE, INFINITY_BITS, NEG_INFINITY_BITS, ONE_BITS};
use crate::buffer::BufferStats;
use crate::moments;
use vstd::prelude::*;

verus! {

/// A wish from outside that goes before the governor's own choice.
#[derive(Clone, Copy, Debug, PartialEq, Eq, Structural)]
pub enum GovernorOverride {
    /// Leave the choice to the governor.
    Unset,
    /// Sleep no longer than this many microseconds, and do not go into economy.
    ClampMaxSleep(u64),
    /// Poll as fast as allowed.
    ForceFastRecovery,
}

/// What the governor is after.
#[derive(Clone, Copy, Debug, PartialEq, Eq, Structural)]
pub enum GovernorMode {
    FastRecovery,
    Tracking,
    Economy,
    FailSafe,
}

/// The limits and gains of a governor.
#[derive(Clone, Copy, Debug, PartialEq, Eq, Structural)]
pub struct AdaptivePollingConfig {
    pub min_sleep_us: u64,
    pub nominal_sleep_us: u64,
    pub max_sleep_us: u64,
    pub target_fill_ratio: Binary64,
    pub high_fill_ratio: Binary64,
    pub low_fill_ratio: Binary64,
    pub soft_sensor_threshold: usize,
    pub hard_sensor_threshold: usize,
    pub step_up_us: u64,
    pub step_down_us: u64,
    pub kp_us_per_fill: Binary64,
    pub ki_us_per_fill: Binary64,
    pub integral_limit: Binary64,
    pub ewma_alpha: Binary64,
}

/// The sleep that is chosen where nothing can be controlled.
pub const FAIL_SAFE_SLEEP_US: u64 = 1_000;

/// The bits of 0.03, the fill that a governor aims at.
pub const TARGET_FILL_BITS: u64 = 0x3F9E_B851_EB85_1EB8;

/// The bits of 0.25, the fill from which on a governor recovers fast.
pub const HIGH_FILL_BITS: u64 = 0x3FD0_0000_0000_0000;

/// The bits of 0.01, the fill up to which a governor may go into economy.
pub const LOW_FILL_BITS: u64 = 0x3F84_7AE1_47AE_147B;

/// The bits of 2000, the proportional gain in microseconds.
pub const KP_BITS: u64 = 0x409F_4000_0000_0000;

/// The bits of 80, the integral gain in microseconds.
pub const KI_BITS: u64 = 0x4054_0000_0000_0000;

/// The bits of 0.2, the weight of a new fill ratio in the smoothed one.
pub const ALPHA_BITS: u64 = 0x3FC9_9999_9999_999A;

/// Whether a double lies between zero and one, both included.
pub open spec fn is_ratio(d: Binary64) -> bool {
    (Binary64 { bits: 0 }).at_most(d) && d.at_most(Binary64 { bits: ONE_BITS })
}

/// Whether a double lies between zero and one, both included.
fn check_ratio(d: &Binary64) -> (b: bool)
    ensures
        b == is_ratio(*d),
{
    Binary64::zero().le(d) && d.le(&Binary64::from_bits(ONE_BITS))
}

impl AdaptivePollingConfig {
    /// The configuration that a governor falls back to.
    pub open spec fn standard() -> Self {
        AdaptivePollingConfig {
            min_sleep_us: 25,
            nominal_sleep_us: 100,
            max_sleep_us: 1_000,
            target_fill_ratio: Binary64 { bits: TARGET_FILL_BITS },
            high_fill_ratio: Binary64 { bits: HIGH_FILL_BITS },
            low_fill_ratio: Binary64 { bits: LOW_FILL_BITS },
            soft_sensor_threshold: 8,
            hard_sensor_threshold: 24,
            step_up_us: 25,
            step_down_us: 75,
            kp_us_per_fill: Binary64 { bits: KP_BITS },
            ki_us_per_fill: Binary64 { bits: KI_BITS },
            integral_limit: Binary64 { bits: ONE_BITS },
            ewma_alpha: Binary64 { bits: ALPHA_BITS },
        }
    }

    /// Whether a governor can work with the configuration: the sleeps, the fill ratios and the
    /// sensor thresholds are in order, no sleep is zero, and every ratio is one.
    pub open spec fn valid(self) -> bool {
        &&& 0 < self.min_sleep_us <= self.nominal_sleep_us <= self.max_sleep_us
        &&& is_ratio(self.low_fill_ratio)
        &&& is_ratio(self.target_fill_ratio)
        &&& is_ratio(self.high_fill_ratio)
        &&& is_ratio(self.ewma_alpha)
        &&& self.low_fill_ratio.at_most(self.target_fill_ratio)
        &&& self.target_fill_ratio.at_most(self.high_fill_ratio)
        &&& self.soft_sensor_threshold <= self.hard_sensor_threshold
    }

    /// Whether a governor can work with the configuration.
    pub fn is_valid(&self) -> (b: bool)
        ensures
            b == self.valid(),
    {
        self.min_sleep_us != 0 && self.nominal_sleep_us >= self.min_sleep_us && self.max_sleep_us
            >= self.nominal_sleep_us && check_ratio(&self.low_fill_ratio) && check_ratio(
            &self.target_fill_ratio,
        ) && check_ratio(&self.high_fill_ratio) && check_ratio(&self.ewma_alpha)
            && !self.target_fill_ratio.lt(&self.low_fill_ratio) && !self.high_fill_ratio.lt(
            &self.target_fill_ratio,
        ) && self.soft_sensor_threshold <= self.hard_sensor_threshold
    }
}

impl Default for AdaptivePollingConfig {
    fn default() -> (cfg: Self)
        ensures
            cfg == AdaptivePollingConfig::standard(),
            cfg.valid(),
    {
        AdaptivePollingConfig {
            min_sleep_us: 25,
            nominal_sleep_us: 100,
            max_sleep_us: 1_000,
            target_fill_ratio: Binary64 { bits: TARGET_FILL_BITS },
            high_fill_ratio: Binary64 { bits: HIGH_FILL_BITS },
            low_fill_ratio: Binary64 { bits: LOW_FILL_BITS },
            soft_sensor_threshold: 8,
            hard_sensor_threshold: 24,
            step_up_us: 25,
            step_down_us: 75,
            kp_us_per_fill: Binary64 { bits: KP_BITS },
            ki_us_per_fill: Binary64 { bits: KI_BITS },
            integral_limit: Binary64 { bits: ONE_BITS },
            ewma_alpha: Binary64 { bits: ALPHA_BITS },
        }
    }
}

/// The outcome of the arithmetic on fill ratios for one update.
///
/// With `len` readings in a queue of `capacity`, a previous smoothed ratio `s` and a previous
/// integral `i`, and the names of the configuration, the caller computes in doubles
/// - `fill_ratio` as `len / capacity`,
/// - `smoothed_fill_ratio` as `(1 - ewma_alpha) * s + ewma_alpha * fill_ratio`,
/// - `integral_error` as `i + error`, held between plus and minus `integral_limit`, where
///   `error` is `target_fill_ratio - smoothed_fill_ratio`,
/// - `control_us` as `nominal_sleep_us + kp_us_per_fill * error + ki_us_per_fill *
///   integral_error`.
///
/// The last two are not looked at where the update is an emergency, and none of them where the
/// queue has no capacity.
#[derive(Clone, Copy, Debug, PartialEq, Eq, Structural)]
pub struct ControlSample {
    pub fill_ratio: Binary64,
    pub smoothed_fill_ratio: Binary64,
    pub integral_error: Binary64,
    pub control_us: Binary64,
}

/// What a governor tells about itself.
#[derive(Clone, Copy, Debug, PartialEq, Eq, Structural)]
pub struct GovernorStats {
    pub mode: GovernorMode,
    pub current_sleep_us: u64,
    pub updates: u64,
    pub mode_switches: u64,
    pub fast_recovery_entries: u64,
    pub economy_entries: u64,
    pub tracking_entries: u64,
    pub fail_safe_entries: u64,
    pub last_fill_ratio: Binary64,
    pub smoothed_fill_ratio: Binary64,
    pub last_sensor_available: usize,
    pub last_push_wait_delta_ns: u128,
    pub last_pop_wait_delta_ns: u128,
}

/// All that a governor remembers.
pub ghost struct GovernorState {
    pub cfg: AdaptivePollingConfig,
    pub mode: GovernorMode,
    pub current_sleep_us: int,
    pub integral_error: Binary64,
    pub prev_push_wait_ns_total: int,
    pub prev_pop_wait_ns_total: int,
    pub updates: int,
    pub mode_switches: int,
    pub fast_recovery_entries: int,
    pub economy_entries: int,
    pub tracking_entries: int,
    pub fail_safe_entries: int,
    pub last_fill_ratio: Binary64,
    pub smoothed_fill_ratio: Binary64,
    pub last_sensor_available: int,
    pub last_push_wait_delta_ns: int,
    pub last_pop_wait_delta_ns: int,
}

/// `a - b`, or zero where that is negative.
pub open spec fn excess(a: int, b: int) -> int {
    if a >= b {
        a - b
    } else {
        0
    }
}

/// The smaller of two numbers.
pub open spec fn lesser(a: int, b: int) -> int {
    if a <= b {
        a
    } else {
        b
    }
}

/// The larger of two numbers.
pub open spec fn greater(a: int, b: int) -> int {
    if a >= b {
        a
    } else {
        b
    }
}

/// Whether the reader must poll as fast as allowed: someone asked for it, the sensor is about
/// to overflow, the queue is filling up, or a producer had to wait since the last update.
pub open spec fn is_emergency(
    cfg: AdaptivePollingConfig,
    sensor_available: int,
    smoothed: Binary64,
    push_wait: int,
    wish: GovernorOverride,
) -> bool {
    ||| wish is ForceFastRecovery
    ||| sensor_available >= cfg.hard_sensor_threshold
    ||| cfg.high_fill_ratio.at_most(smoothed)
    ||| push_wait > 0
}

/// Whether the reader may take it easy.
///
/// It goes into economy when the queue is nearly empty, the sensor has little to give and the
/// consumers wait longer than the producers; it stays there, under looser bounds, while no
/// producer waits. A wish from outside keeps it out.
pub open spec fn is_economy(
    cfg: AdaptivePollingConfig,
    mode: GovernorMode,
    sensor_available: int,
    smoothed: Binary64,
    push_wait: int,
    pop_wait: int,
    wish: GovernorOverride,
) -> bool {
    &&& wish is Unset
    &&& {
        ||| {
            &&& smoothed.at_most(cfg.low_fill_ratio)
            &&& sensor_available <= cfg.soft_sensor_threshold / 2
            &&& pop_wait > push_wait
        }
        ||| {
            &&& mode is Economy
            &&& smoothed.at_most(cfg.target_fill_ratio)
            &&& sensor_available <= cfg.soft_sensor_threshold
            &&& push_wait == 0
        }
    }
}

/// The sleep that the control law proposes: what it comes to, held between the two sleep limits,
/// each taken as a double, and cut to a whole number; zero where it comes to no number.
pub open spec fn proposed_sleep(cfg: AdaptivePollingConfig, control_us: Binary64) -> int {
    if control_us.not_a_number() {
        0
    } else {
        lesser(
            greater(
                control_us.whole_part(),
                binary64::held(binary64::nearest(cfg.min_sleep_us as nat)) as int,
            ),
            binary64::held(binary64::nearest(cfg.max_sleep_us as nat)) as int,
        )
    }
}

/// The sleep that comes of the proposed one.
///
/// Economy lengthens it, up to the longest sleep. Otherwise it is shortened, down to the
/// shortest sleep, while the queue is over its target or the sensor has a backlog, and else
/// held near the nominal one. A clamp goes last, but never below the shortest sleep.
pub open spec fn shaped_sleep(
    cfg: AdaptivePollingConfig,
    proposed_us: int,
    economy: bool,
    sensor_available: int,
    smoothed: Binary64,
    wish: GovernorOverride,
) -> int {
    let chosen = if economy {
        lesser(proposed_us + cfg.step_up_us, cfg.max_sleep_us as int)
    } else if cfg.target_fill_ratio.below(smoothed) || sensor_available
        >= cfg.soft_sensor_threshold {
        greater(excess(proposed_us, cfg.step_down_us as int), cfg.min_sleep_us as int)
    } else {
        lesser(proposed_us, cfg.nominal_sleep_us + cfg.step_up_us)
    };
    match wish {
        GovernorOverride::ClampMaxSleep(limit) => lesser(
            chosen,
            greater(limit as int, cfg.min_sleep_us as int),
        ),
        _ => chosen,
    }
}

impl GovernorState {
    /// The state of a governor that has not been updated yet.
    pub open spec fn initial(cfg: AdaptivePollingConfig) -> Self {
        GovernorState {
            cfg,
            mode: GovernorMode::Tracking,
            current_sleep_us: cfg.nominal_sleep_us as int,
            integral_error: Binary64 { bits: 0 },
            prev_push_wait_ns_total: 0,
            prev_pop_wait_ns_total: 0,
            updates: 0,
            mode_switches: 0,
            fast_recovery_entries: 0,
            economy_entries: 0,
            tracking_entries: 1,
            fail_safe_entries: 0,
            last_fill_ratio: Binary64 { bits: 0 },
            smoothed_fill_ratio: Binary64 { bits: 0 },
            last_sensor_available: 0,
            last_push_wait_delta_ns: 0,
            last_pop_wait_delta_ns: 0,
        }
    }

    /// The state after a switch to `next`; a switch to the mode at hand is none.
    pub open spec fn in_mode(self, next: GovernorMode) -> Self {
        if self.mode == next {
            self
        } else {
            GovernorState {
                mode: next,
                mode_switches: self.mode_switches + 1,
                fast_recovery_entries: self.fast_recovery_entries + if next is FastRecovery {
                    1int
                } else {
                    0
                },
                tracking_entries: self.tracking_entries + if next is Tracking {
                    1int
                } else {
                    0
                },
                economy_entries: self.economy_entries + if next is Economy {
                    1int
                } else {
                    0
                },
                fail_safe_entries: self.fail_safe_entries + if next is FailSafe {
                    1int
                } else {
                    0
                },
                ..self
            }
        }
    }

    /// How much longer producers have waited in all than at the last update.
    pub open spec fn push_wait_since(self, stats: BufferStats) -> int {
        excess(stats.push_wait_ns_total as int, self.prev_push_wait_ns_total)
    }

    /// How much longer consumers have waited in all than at the last update.
    pub open spec fn pop_wait_since(self, stats: BufferStats) -> int {
        excess(stats.pop_wait_ns_total as int, self.prev_pop_wait_ns_total)
    }

    /// The state after a look at a queue that cannot hold anything.
    pub open spec fn without_queue(self, sensor_available: int) -> Self {
        GovernorState {
            updates: self.updates + 1,
            current_sleep_us: FAIL_SAFE_SLEEP_US as int,
            last_fill_ratio: Binary64 { bits: 0 },
            smoothed_fill_ratio: Binary64 { bits: 0 },
            last_sensor_available: sensor_available,
            last_push_wait_delta_ns: 0,
            last_pop_wait_delta_ns: 0,
            ..self.in_mode(GovernorMode::FailSafe)
        }
    }

    /// The state once the figures of an update are taken down and before anything is decided.
    pub open spec fn observed(
        self,
        sensor_available: int,
        stats: BufferStats,
        sample: ControlSample,
    ) -> Self {
        GovernorState {
            updates: self.updates + 1,
            prev_push_wait_ns_total: stats.push_wait_ns_total as int,
            prev_pop_wait_ns_total: stats.pop_wait_ns_total as int,
            last_fill_ratio: sample.fill_ratio,
            smoothed_fill_ratio: sample.smoothed_fill_ratio,
            last_sensor_available: sensor_available,
            last_push_wait_delta_ns: self.push_wait_since(stats),
            last_pop_wait_delta_ns: self.pop_wait_since(stats),
            ..self
        }
    }

    /// The state after an emergency.
    pub open spec fn recovering(self) -> Self {
        GovernorState {
            integral_error: Binary64 { bits: 0 },
            current_sleep_us: self.cfg.min_sleep_us as int,
            ..self.in_mode(GovernorMode::FastRecovery)
        }
    }

    /// The state after an ordinary update.
    pub open spec fn controlled(self, sample: ControlSample, wish: GovernorOverride) -> Self {
        let economy = is_economy(
            self.cfg,
            self.mode,
            self.last_sensor_available,
            self.smoothed_fill_ratio,
            self.last_push_wait_delta_ns,
            self.last_pop_wait_delta_ns,
            wish,
        );
        let sleep = shaped_sleep(
            self.cfg,
            proposed_sleep(self.cfg, sample.control_us),
            economy,
            self.last_sensor_available,
            self.smoothed_fill_ratio,
            wish,
        );
        let settled = GovernorState { integral_error: sample.integral_error, ..self }.in_mode(
            if economy {
                GovernorMode::Economy
            } else {
                GovernorMode::Tracking
            },
        );
        if sleep == 0 {
            GovernorState {
                current_sleep_us: FAIL_SAFE_SLEEP_US as int,
                ..settled.in_mode(GovernorMode::FailSafe)
            }
        } else {
            GovernorState { current_sleep_us: sleep, ..settled }
        }
    }

    /// The state after an update.
    pub open spec fn updated(
        self,
        sensor_available: int,
        stats: BufferStats,
        sample: ControlSample,
        wish: GovernorOverride,
    ) -> Self {
        let seen = self.observed(sensor_available, stats, sample);
        if stats.capacity == 0 {
            self.without_queue(sensor_available)
        } else if is_emergency(
            self.cfg,
            sensor_available,
            sample.smoothed_fill_ratio,
            self.push_wait_since(stats),
            wish,
        ) {
            seen.recovering()
        } else {
            seen.controlled(sample, wish)
        }
    }

    /// How often the governor has gone into a mode.
    pub open spec fn entries_into(self, mode: GovernorMode) -> int {
        match mode {
            GovernorMode::FastRecovery => self.fast_recovery_entries,
            GovernorMode::Tracking => self.tracking_entries,
            GovernorMode::Economy => self.economy_entries,
            GovernorMode::FailSafe => self.fail_safe_entries,
        }
    }

    /// What holds of every governor: its configuration is valid, the number of switches is that
    /// of the entries into all the modes, less the one that it started in, no update makes more
    /// than two of them, and the mode at hand was entered.
    pub open spec fn consistent(self) -> bool {
        &&& self.cfg.valid()
        &&& self.mode_switches + 1 == self.fast_recovery_entries + self.economy_entries
            + self.tracking_entries + self.fail_safe_entries
        &&& 0 <= self.fast_recovery_entries
        &&& 0 <= self.economy_entries
        &&& 1 <= self.tracking_entries
        &&& 0 <= self.fail_safe_entries
        &&& 0 <= self.mode_switches <= 2 * self.updates
        &&& self.entries_into(self.mode) >= 1
    }

    /// Whether the counters can take one more update.
    pub open spec fn has_room(self) -> bool {
        self.updates < u64::MAX && self.mode_switches + 2 <= u64::MAX
    }
}

/// Decides how long a sensor reader sleeps between two polls.
pub struct AdaptivePollingGovernor {
    cfg: AdaptivePollingConfig,
    mode: GovernorMode,
    current_sleep_us: u64,
    integral_error: Binary64,
    prev_push_wait_ns_total: u128,
    prev_pop_wait_ns_total: u128,
    updates: u64,
    mode_switches: u64,
    fast_recovery_entries: u64,
    economy_entries: u64,
    tracking_entries: u64,
    fail_safe_entries: u64,
    last_fill_ratio: Binary64,
    smoothed_fill_ratio: Binary64,
    last_sensor_available: usize,
    last_push_wait_delta_ns: u128,
    last_pop_wait_delta_ns: u128,
}

impl View for AdaptivePollingGovernor {
    type V = GovernorState;

    closed spec fn view(&self) -> GovernorState {
        GovernorState {
            cfg: self.cfg,
            mode: self.mode,
            current_sleep_us: self.current_sleep_us as int,
            integral_error: self.integral_error,
            prev_push_wait_ns_total: self.prev_push_wait_ns_total as int,
            prev_pop_wait_ns_total: self.prev_pop_wait_ns_total as int,
            updates: self.updates as int,
            mode_switches: self.mode_switches as int,
            fast_recovery_entries: self.fast_recovery_entries as int,
            economy_entries: self.economy_entries as int,
            tracking_entries: self.tracking_entries as int,
            fail_safe_entries: self.fail_safe_entries as int,
            last_fill_ratio: self.last_fill_ratio,
            smoothed_fill_ratio: self.smoothed_fill_ratio,
            last_sensor_available: self.last_sensor_available as int,
            last_push_wait_delta_ns: self.last_push_wait_delta_ns as int,
            last_pop_wait_delta_ns: self.last_pop_wait_delta_ns as int,
        }
    }
}

impl AdaptivePollingGovernor {
    /// Starts a governor, with the standard configuration where `cfg` is not valid.
    pub fn new(cfg: AdaptivePollingConfig) -> (g: Self)
        ensures
            g@.consistent(),
            g@ == GovernorState::initial(
                if cfg.valid() {
                    cfg
                } else {
                    AdaptivePollingConfig::standard()
                },
            ),
    {
        let cfg = if cfg.is_valid() {
            cfg
        } else {
            AdaptivePollingConfig::default()
        };
        AdaptivePollingGovernor {
            current_sleep_us: cfg.nominal_sleep_us,
            cfg,
            mode: GovernorMode::Tracking,
            integral_error: Binary64::zero(),
            prev_push_wait_ns_total: 0,
            prev_pop_wait_ns_total: 0,
            updates: 0,
            mode_switches: 0,
            fast_recovery_entries: 0,
            economy_entries: 0,
            tracking_entries: 1,
            fail_safe_entries: 0,
            last_fill_ratio: Binary64::zero(),
            smoothed_fill_ratio: Binary64::zero(),
            last_sensor_available: 0,
            last_push_wait_delta_ns: 0,
            last_pop_wait_delta_ns: 0,
        }
    }

    /// The configuration at work.
    pub fn cfg(&self) -> (cfg: AdaptivePollingConfig)
        ensures
            cfg == self@.cfg,
    {
        self.cfg
    }

    /// The integral of the error so far.
    pub fn integral_error(&self) -> (e: Binary64)
        ensures
            e == self@.integral_error,
    {
        self.integral_error
    }

    /// Switches to `next` and counts the switch, unless that is the mode at hand.
    fn set_mode(&mut self, next: GovernorMode)
        requires
            old(self)@.mode_switches < u64::MAX,
            next is FastRecovery ==> old(self)@.fast_recovery_entries < u64::MAX,
            next is Tracking ==> old(self)@.tracking_entries < u64::MAX,
            next is Economy ==> old(self)@.economy_entries < u64::MAX,
            next is FailSafe ==> old(self)@.fail_safe_entries < u64::MAX,
        ensures
            final(self)@ == old(self)@.in_mode(next),
    {
        if self.mode != next {
            self.mode_switches += 1;
            self.mode = next;
            match next {
                GovernorMode::FastRecovery => self.fast_recovery_entries += 1,
                GovernorMode::Tracking => self.tracking_entries += 1,
                GovernorMode::Economy => self.economy_entries += 1,
                GovernorMode::FailSafe => self.fail_safe_entries += 1,
            }
        }
    }

    /// Whether the update that is about to come is an emergency, for which no control sample is
    /// needed but the smoothed fill ratio.
    pub fn needs_fast_recovery(
        &self,
        sensor_available: usize,
        stats: &BufferStats,
        smoothed_fill_ratio: Binary64,
        override_mode: GovernorOverride,
    ) -> (b: bool)
        ensures
            b == is_emergency(
                self@.cfg,
                sensor_available as int,
                smoothed_fill_ratio,
                self@.push_wait_since(*stats),
                override_mode,
            ),
    {
        matches!(override_mode, GovernorOverride::ForceFastRecovery) || sensor_available
            >= self.cfg.hard_sensor_threshold || self.cfg.high_fill_ratio.le(&smoothed_fill_ratio)
            || stats.push_wait_ns_total > self.prev_push_wait_ns_total
    }

    /// Takes one look at the sensor and the queue and picks the sleep, in microseconds.
    pub fn update(
        &mut self,
        sensor_available: usize,
        stats: &BufferStats,
        sample: ControlSample,
    ) -> (sleep_us: u64)
        requires
            old(self)@.consistent(),
            old(self)@.has_room(),
        ensures
            final(self)@ == old(self)@.updated(
                sensor_available as int,
                *stats,
                sample,
                GovernorOverride::Unset,
            ),
            final(self)@.consistent(),
            sleep_us == final(self)@.current_sleep_us,
    {
        self.update_with_override(sensor_available, stats, GovernorOverride::Unset, sample)
    }

    /// Takes one look at the sensor and the queue, under a wish from outside, and picks the
    /// sleep, in microseconds.
    pub fn update_with_override(
        &mut self,
        sensor_available: usize,
        stats: &BufferStats,
        override_mode: GovernorOverride,
        sample: ControlSample,
    ) -> (sleep_us: u64)
        requires
            old(self)@.consistent(),
            old(self)@.has_room(),
        ensures
            final(self)@ == old(self)@.updated(
                sensor_available as int,
                *stats,
                sample,
                override_mode,
            ),
            final(self)@.consistent(),
            sleep_us == final(self)@.current_sleep_us,
    {
        self.updates += 1;

        if stats.capacity == 0 {
            self.set_mode(GovernorMode::FailSafe);
            self.current_sleep_us = FAIL_SAFE_SLEEP_US;
            self.last_fill_ratio = Binary64::zero();
            self.smoothed_fill_ratio = Binary64::zero();
            self.last_sensor_available = sensor_available;
            self.last_push_wait_delta_ns = 0;
            self.last_pop_wait_delta_ns = 0;
            return self.current_sleep_us;
        }
        let emergency = self.needs_fast_recovery(
            sensor_available,
            stats,
            sample.smoothed_fill_ratio,
            override_mode,
        );
        let push_wait_delta_ns = stats.push_wait_ns_total.saturating_sub(
            self.prev_push_wait_ns_total,
        );
        let pop_wait_delta_ns = stats.pop_wait_ns_total.saturating_sub(self.prev_pop_wait_ns_total);
        self.prev_push_wait_ns_total = stats.push_wait_ns_total;
        self.prev_pop_wait_ns_total = stats.pop_wait_ns_total;

        self.last_fill_ratio = sample.fill_ratio;
        self.smoothed_fill_ratio = sample.smoothed_fill_ratio;
        self.last_sensor_available = sensor_available;
        self.last_push_wait_delta_ns = push_wait_delta_ns;
        self.last_pop_wait_delta_ns = pop_wait_delta_ns;

        if emergency {
            self.set_mode(GovernorMode::FastRecovery);
            self.integral_error = Binary64::zero();
            self.current_sleep_us = self.cfg.min_sleep_us;
            return self.current_sleep_us;
        }
        self.integral_error = sample.integral_error;
        let mut proposed: u64 = self.proposal(sample.control_us);

        let economy_allowed = !matches!(
            override_mode,
            GovernorOverride::ClampMaxSleep(_) | GovernorOverride::ForceFastRecovery
        );

        let can_enter_economy = economy_allowed && self.smoothed_fill_ratio.le(
            &self.cfg.low_fill_ratio,
        ) && sensor_available <= self.cfg.soft_sensor_threshold / 2 && pop_wait_delta_ns
            > push_wait_delta_ns;

        let should_stay_economy = economy_allowed && self.mode == GovernorMode::Economy
            && self.smoothed_fill_ratio.le(&self.cfg.target_fill_ratio) && sensor_available
            <= self.cfg.soft_sensor_threshold && push_wait_delta_ns == 0;

        if can_enter_economy || should_stay_economy {
            self.set_mode(GovernorMode::Economy);
            proposed = lower(proposed.saturating_add(self.cfg.step_up_us), self.cfg.max_sleep_us);
        } else {
            self.set_mode(GovernorMode::Tracking);
            if self.cfg.target_fill_ratio.lt(&self.smoothed_fill_ratio) || sensor_available
                >= self.cfg.soft_sensor_threshold {
                proposed =
                higher(proposed.saturating_sub(self.cfg.step_down_us), self.cfg.min_sleep_us);
            } else {
                proposed =
                lower(proposed, self.cfg.nominal_sleep_us.saturating_add(self.cfg.step_up_us));
            }
        }

        if let GovernorOverride::ClampMaxSleep(max_sleep_us) = override_mode {
            proposed = lower(proposed, higher(max_sleep_us, self.cfg.min_sleep_us));
        }
        if proposed == 0 {
            self.set_mode(GovernorMode::FailSafe);
            self.current_sleep_us = FAIL_SAFE_SLEEP_US;
        } else {
            self.current_sleep_us = proposed;
        }

        self.current_sleep_us
    }

    /// The sleep that the control law proposes.
    fn proposal(&self, control_us: Binary64) -> (us: u64)
        ensures
            us == proposed_sleep(self@.cfg, control_us),
    {
        if control_us.is_nan() {
            return 0;
        }
        lower(
            higher(control_us.to_whole(), limit_as_double(self.cfg.min_sleep_us)),
            limit_as_double(self.cfg.max_sleep_us),
        )
    }

    /// What the governor tells about itself.
    pub fn stats(&self) -> (s: GovernorStats)
        ensures
            s.mode == self@.mode,
            s.current_sleep_us == self@.current_sleep_us,
            s.updates == self@.updates,
            s.mode_switches == self@.mode_switches,
            s.fast_recovery_entries == self@.fast_recovery_entries,
            s.economy_entries == self@.economy_entries,
            s.tracking_entries == self@.tracking_entries,
            s.fail_safe_entries == self@.fail_safe_entries,
            s.last_fill_ratio == self@.last_fill_ratio,
            s.smoothed_fill_ratio == self@.smoothed_fill_ratio,
            s.last_sensor_available == self@.last_sensor_available,
            s.last_push_wait_delta_ns == self@.last_push_wait_delta_ns,
            s.last_pop_wait_delta_ns == self@.last_pop_wait_delta_ns,
    {
        GovernorStats {
            mode: self.mode,
            current_sleep_us: self.current_sleep_us,
            updates: self.updates,
            mode_switches: self.mode_switches,
            fast_recovery_entries: self.fast_recovery_entries,
            economy_entries: self.economy_entries,
            tracking_entries: self.tracking_entries,
            fail_safe_entries: self.fail_safe_entries,
            last_fill_ratio: self.last_fill_ratio,
            smoothed_fill_ratio: self.smoothed_fill_ratio,
            last_sensor_available: self.last_sensor_available,
            last_push_wait_delta_ns: self.last_push_wait_delta_ns,
            last_pop_wait_delta_ns: self.last_pop_wait_delta_ns,
        }
    }
}

/// A sleep limit, taken as a double.
fn limit_as_double(us: u64) -> (d: u64)
    ensures
        d == binary64::held(binary64::nearest(us as nat)),
{
    let d: u128 = binary64::nearest_whole(us as u128);
    if d <= u64::MAX as u128 {
        d as u64
    } else {
        u64::MAX
    }
}

/// The smaller of two sleeps.
fn lower(a: u64, b: u64) -> (m: u64)
    ensures
        m == lesser(a as int, b as int),
{
    if a <= b {
        a
    } else {
        b
    }
}

/// The larger of two sleeps.
fn higher(a: u64, b: u64) -> (m: u64)
    ensures
        m == greater(a as int, b as int),
{
    if a >= b {
        a
    } else {
        b
    }
}

/// Every update counts once, leaves the configuration alone and keeps the books of the modes.
pub proof fn law_update_keeps_the_books(
    s: GovernorState,
    sensor_available: int,
    stats: BufferStats,
    sample: ControlSample,
    wish: GovernorOverride,
)
    requires
        s.consistent(),
    ensures
        ({
            let after = s.updated(sensor_available, stats, sample, wish);
            &&& after.cfg == s.cfg
            &&& after.updates == s.updates + 1
            &&& s.mode_switches <= after.mode_switches <= s.mode_switches + 2
            &&& after.consistent()
            &&& after.mode != s.mode ==> after.mode_switches > s.mode_switches
        }),
{
}

/// What the control law proposes lies between the two sleep limits, as long as it comes to a
/// number and doubles can hold the limits.
pub proof fn law_proposal_stays_in_bounds(cfg: AdaptivePollingConfig, control_us: Binary64)
    requires
        cfg.valid(),
        cfg.max_sleep_us <= EXACT_WHOLE,
        !control_us.not_a_number(),
    ensures
        cfg.min_sleep_us <= proposed_sleep(cfg, control_us) <= cfg.max_sleep_us,
{
    binary64::law_small_numbers_are_doubles(cfg.min_sleep_us as nat);
    binary64::law_small_numbers_are_doubles(cfg.max_sleep_us as nat);
}

/// With a queue to watch, the sleep stays between the two limits, as long as the control law
/// comes to a number and doubles can hold the limits.
pub proof fn law_sleep_stays_in_bounds(
    s: GovernorState,
    sensor_available: int,
    stats: BufferStats,
    sample: ControlSample,
    wish: GovernorOverride,
)
    requires
        s.consistent(),
        stats.capacity > 0,
        s.cfg.max_sleep_us <= EXACT_WHOLE,
        !sample.control_us.not_a_number(),
    ensures
        s.cfg.min_sleep_us <= s.updated(
            sensor_available,
            stats,
            sample,
            wish,
        ).current_sleep_us <= s.cfg.max_sleep_us,
{
    law_proposal_stays_in_bounds(s.cfg, sample.control_us);
}

/// As long as the control law comes to a number and doubles can hold the sleep limits, the
/// governor falls into fail-safe exactly when there is no queue to watch, and then sleeps the
/// fail-safe sleep.
pub proof fn law_fail_safe_is_for_a_missing_queue(
    s: GovernorState,
    sensor_available: int,
    stats: BufferStats,
    sample: ControlSample,
    wish: GovernorOverride,
)
    requires
        s.consistent(),
        s.cfg.max_sleep_us <= EXACT_WHOLE,
        !sample.control_us.not_a_number(),
    ensures
        ({
            let after = s.updated(sensor_available, stats, sample, wish);
            &&& after.mode is FailSafe <==> stats.capacity == 0
            &&& after.mode is FailSafe ==> after.current_sleep_us == FAIL_SAFE_SLEEP_US
        }),
{
    law_proposal_stays_in_bounds(s.cfg, sample.control_us);
}

/// Pressure of any kind (a producer that waited, a sensor at its hard threshold, a queue filled
/// to the high mark, a wish from outside), and nothing else, brings fast recovery, and with it
/// the shortest sleep.
pub proof fn law_pressure_brings_fast_recovery(
    s: GovernorState,
    sensor_available: int,
    stats: BufferStats,
    sample: ControlSample,
    wish: GovernorOverride,
)
    requires
        s.consistent(),
        stats.capacity > 0,
    ensures
        ({
            let after = s.updated(sensor_available, stats, sample, wish);
            let pressure = stats.push_wait_ns_total > s.prev_push_wait_ns_total
                || sensor_available >= s.cfg.hard_sensor_threshold
                || s.cfg.high_fill_ratio.at_most(sample.smoothed_fill_ratio)
                || wish is ForceFastRecovery;
            &&& after.mode is FastRecovery <==> pressure
            &&& after.mode is FastRecovery ==> after.current_sleep_us == s.cfg.min_sleep_us
        }),
{
}

/// A clamp caps the sleep, though never below the shortest one, and keeps the governor out of
/// economy.
pub proof fn law_clamp_caps_the_sleep(
    s: GovernorState,
    sensor_available: int,
    stats: BufferStats,
    sample: ControlSample,
    limit: u64,
)
    requires
        s.consistent(),
        stats.capacity > 0,
        s.cfg.max_sleep_us <= EXACT_WHOLE,
        !sample.control_us.not_a_number(),
    ensures
        ({
            let after = s.updated(
                sensor_available,
                stats,
                sample,
                GovernorOverride::ClampMaxSleep(limit),
            );
            &&& after.current_sleep_us <= greater(limit as int, s.cfg.min_sleep_us as int)
            &&& !(after.mode is Economy)
        }),
{
    law_proposal_stays_in_bounds(s.cfg, sample.control_us);
}

/// Economy never shortens the proposed sleep. While tracking, the sleep is at most the proposed
/// one and at most a step over the nominal one, or it is a step short of the proposed one,
/// though not below the shortest sleep.
pub proof fn law_economy_relaxes_the_sleep(
    s: GovernorState,
    sensor_available: int,
    stats: BufferStats,
    sample: ControlSample,
    wish: GovernorOverride,
)
    requires
        s.consistent(),
        stats.capacity > 0,
        s.cfg.max_sleep_us <= EXACT_WHOLE,
        !sample.control_us.not_a_number(),
    ensures
        ({
            let after = s.updated(sensor_available, stats, sample, wish);
            let proposed = proposed_sleep(s.cfg, sample.control_us);
            &&& after.mode is Economy ==> after.current_sleep_us == lesser(
                proposed + s.cfg.step_up_us,
                s.cfg.max_sleep_us as int,
            ) && after.current_sleep_us >= proposed
            &&& after.mode is Tracking ==> after.current_sleep_us <= lesser(
                proposed,
                s.cfg.nominal_sleep_us + s.cfg.step_up_us,
            ) || after.current_sleep_us <= greater(
                proposed - s.cfg.step_down_us,
                s.cfg.min_sleep_us as int,
            )
        }),
{
    law_proposal_stays_in_bounds(s.cfg, sample.control_us);
}

/// While the queue stays slack, the sensor has nothing to give and only consumers wait, every
/// update ends in economy.
pub proof fn law_slack_keeps_economy(
    s: GovernorState,
    sensor_available: int,
    stats: BufferStats,
    sample: ControlSample,
)
    requires
        s.consistent(),
        stats.capacity > 0,
        sensor_available == 0,
        s.cfg.hard_sensor_threshold > 0,
        stats.push_wait_ns_total <= s.prev_push_wait_ns_total,
        stats.pop_wait_ns_total > s.prev_pop_wait_ns_total,
        sample.smoothed_fill_ratio.at_most(s.cfg.low_fill_ratio),
        sample.smoothed_fill_ratio.below(s.cfg.high_fill_ratio),
        s.cfg.max_sleep_us <= EXACT_WHOLE,
        !sample.control_us.not_a_number(),
    ensures
        s.updated(sensor_available, stats, sample, GovernorOverride::Unset).mode is Economy,
{
    law_proposal_stays_in_bounds(s.cfg, sample.control_us);
}

/// A reader is eased only where there is slack. Economy is entered only while the queue is at
/// most at its low mark, the sensor has at most half its soft threshold to give, consumers waited
/// longer than producers since the last update and nobody wishes otherwise; it is kept only while
/// that holds, or the queue is at most at its target, the sensor at most at its soft threshold and
/// no producer waited. Where that is so, and there is no pressure and the control law comes to a
/// number, the reader is eased.
pub proof fn law_economy_is_for_slack_alone(
    g: &mut AdaptivePollingGovernor,
    sensor_available: usize,
    stats: &BufferStats,
    wish: GovernorOverride,
    sample: ControlSample,
    sleep_us: u64,
)
    requires
        call_ensures(
            AdaptivePollingGovernor::update_with_override,
            (g, sensor_available, stats, wish, sample),
            sleep_us,
        ),
        old(g)@.consistent(),
        stats.capacity > 0,
    ensures
        ({
            let cfg = old(g)@.cfg;
            let pushed = stats.push_wait_ns_total - old(g)@.prev_push_wait_ns_total;
            let popped = stats.pop_wait_ns_total - old(g)@.prev_pop_wait_ns_total;
            let slack = sample.smoothed_fill_ratio.at_most(cfg.low_fill_ratio) && 2
                * sensor_available <= cfg.soft_sensor_threshold && popped > 0 && popped > pushed;
            let eased = old(g)@.mode is Economy && sample.smoothed_fill_ratio.at_most(
                cfg.target_fill_ratio,
            ) && sensor_available <= cfg.soft_sensor_threshold && pushed <= 0;
            let pressed = pushed > 0 || sensor_available >= cfg.hard_sensor_threshold
                || cfg.high_fill_ratio.at_most(sample.smoothed_fill_ratio);
            &&& final(g)@.mode is Economy ==> wish is Unset && !pressed && (slack || eased)
            &&& wish is Unset && !pressed && (slack || eased) && !sample.control_us.not_a_number()
                ==> final(g)@.mode is Economy
        }),
{
    if !sample.control_us.not_a_number() {
        lemma_proposal_is_positive(old(g)@.cfg, sample.control_us);
    }
}

/// A proposal that comes of a number is no sleep of zero.
proof fn lemma_proposal_is_positive(cfg: AdaptivePollingConfig, control_us: Binary64)
    requires
        cfg.valid(),
        !control_us.not_a_number(),
    ensures
        proposed_sleep(cfg, control_us) > 0,
{
    binary64::law_nearest_keeps_the_order(cfg.min_sleep_us as nat, cfg.max_sleep_us as nat);
}

/// A cap on the sleep does nothing but cap it: of two governors in the same state, of which one
/// is left alone and tracks, the capped one sleeps as long, or as long as the cap where that is
/// shorter, though never less than the shortest sleep, and remembers the same else. In an
/// emergency, and without a queue, a cap changes nothing.
pub proof fn law_a_cap_only_caps(
    g: &mut AdaptivePollingGovernor,
    h: &mut AdaptivePollingGovernor,
    sensor_available: usize,
    stats: &BufferStats,
    sample: ControlSample,
    limit: u64,
    free_us: u64,
    capped_us: u64,
)
    requires
        call_ensures(
            AdaptivePollingGovernor::update_with_override,
            (g, sensor_available, stats, GovernorOverride::Unset, sample),
            free_us,
        ),
        call_ensures(
            AdaptivePollingGovernor::update_with_override,
            (h, sensor_available, stats, GovernorOverride::ClampMaxSleep(limit), sample),
            capped_us,
        ),
        old(g)@ == old(h)@,
        old(g)@.consistent(),
    ensures
        final(g)@.mode is FastRecovery || stats.capacity == 0 ==> final(h)@ == final(g)@
            && capped_us == free_us,
        final(g)@.mode is Tracking ==> {
            &&& free_us <= limit ==> capped_us == free_us
            &&& limit < free_us && old(g)@.cfg.min_sleep_us <= limit ==> capped_us == limit
            &&& limit < old(g)@.cfg.min_sleep_us <= free_us ==> capped_us
                == old(g)@.cfg.min_sleep_us
            &&& final(h)@ == (GovernorState { current_sleep_us: capped_us as int, ..final(g)@ })
        },
        final(h)@.mode is Economy ==> false,
{
}

/// Of two caps, the tighter one gives the sleep under the looser one, or the cap itself where
/// that is shorter, though never less than the shortest sleep.
pub proof fn law_caps_are_ordered(
    g: &mut AdaptivePollingGovernor,
    h: &mut AdaptivePollingGovernor,
    sensor_available: usize,
    stats: &BufferStats,
    sample: ControlSample,
    tight: u64,
    loose: u64,
    tight_us: u64,
    loose_us: u64,
)
    requires
        call_ensures(
            AdaptivePollingGovernor::update_with_override,
            (g, sensor_available, stats, GovernorOverride::ClampMaxSleep(tight), sample),
            tight_us,
        ),
        call_ensures(
            AdaptivePollingGovernor::update_with_override,
            (h, sensor_available, stats, GovernorOverride::ClampMaxSleep(loose), sample),
            loose_us,
        ),
        old(g)@ == old(h)@,
        old(g)@.consistent(),
        tight <= loose,
        final(h)@.mode is Tracking,
    ensures
        loose_us <= tight ==> tight_us == loose_us,
        tight < loose_us && old(g)@.cfg.min_sleep_us <= tight ==> tight_us == tight,
        tight < old(g)@.cfg.min_sleep_us <= loose_us ==> tight_us == old(g)@.cfg.min_sleep_us,
        final(g)@.mode is Tracking,
{
}

/// What the control law proposes is what it comes to, without its fraction, held between the
/// two sleep limits.
proof fn lemma_proposal_is(
    cfg: AdaptivePollingConfig,
    control_us: Binary64,
    low: int,
    high: int,
    proposed: int,
)
    requires
        cfg.valid(),
        !control_us.not_a_number(),
        low == binary64::nearest(cfg.min_sleep_us as nat),
        high == binary64::nearest(cfg.max_sleep_us as nat),
        control_us.bits == NEG_INFINITY_BITS ==> proposed == held_us(low),
        control_us.bits == INFINITY_BITS ==> proposed == held_us(high),
        moments::is_finite(control_us) ==> {
            let us = moments::value(control_us);
            &&& us <= low as real ==> proposed == held_us(low)
            &&& us >= high as real ==> proposed == held_us(high)
            &&& low as real <= us < high as real ==> proposed as real <= us < (proposed
                + 1) as real
        },
    ensures
        proposed == proposed_sleep(cfg, control_us),
{
    let big = 0x1_0000_0000_0000_0000int;
    binary64::law_nearest_keeps_the_order(cfg.min_sleep_us as nat, cfg.max_sleep_us as nat);
    lemma_nearest_is_held(cfg.min_sleep_us);
    lemma_nearest_is_held(cfg.max_sleep_us);
    moments::law_whole_part_leaves_out_the_fraction(control_us);
    if moments::is_finite(control_us) {
        let us = moments::value(control_us);
        let w = control_us.whole_part();
        if us <= low as real {
            assert(w <= low);
        } else if us >= high as real {
            assert(us >= big as real || w >= high);
        } else {
            assert(us < big as real);
            assert(w == proposed);
        }
    }
}

/// A double next to a `u64` is at most one past the largest.
proof fn lemma_nearest_is_held(n: u64)
    ensures
        binary64::nearest(n as nat) <= 0x1_0000_0000_0000_0000,
{
    let top = u64::MAX as nat;
    binary64::law_nearest_keeps_the_order(n as nat, top);
    reveal_with_fuel(binary64::spacing, 13);
    assert(binary64::spacing(top) == 0x800);
    assert(top / 0x800 == 0x1F_FFFF_FFFF_FFFF && top % 0x800 == 0x7FF);
    assert(binary64::nearest(top) == 0x1_0000_0000_0000_0000);
}

/// A number of microseconds, held to what a `u64` can hold.
spec fn held_us(us: int) -> int {
    if us <= u64::MAX {
        us
    } else {
        u64::MAX as int
    }
}

/// The sleep, exactly. With `low` and `high` for the doubles nearest to the two sleep limits, and
/// `proposed` for what the control law comes to, held between these and without its fraction, or
/// the largest number of microseconds where it is past that: in economy it is a step up from there, though at most
/// the longest sleep; while tracking with a backlog it is a step down from there, though at least
/// the shortest sleep; while tracking without one it is that, though at most a step up from the
/// nominal sleep. While tracking, a cap is kept, though not below the shortest sleep.
pub proof fn law_sleep_is_exact(
    g: &mut AdaptivePollingGovernor,
    sensor_available: usize,
    stats: &BufferStats,
    wish: GovernorOverride,
    sample: ControlSample,
    sleep_us: u64,
    low: u128,
    high: u128,
    proposed: int,
)
    requires
        call_ensures(
            AdaptivePollingGovernor::update_with_override,
            (g, sensor_available, stats, wish, sample),
            sleep_us,
        ),
        old(g)@.consistent(),
        stats.capacity > 0,
        call_ensures(binary64::nearest_whole, (old(g)@.cfg.min_sleep_us as u128,), low),
        call_ensures(binary64::nearest_whole, (old(g)@.cfg.max_sleep_us as u128,), high),
        !sample.control_us.not_a_number(),
        sample.control_us.bits == INFINITY_BITS ==> proposed == (if high <= u64::MAX {
            high as int
        } else {
            u64::MAX as int
        }),
        sample.control_us.bits == NEG_INFINITY_BITS ==> proposed == (if low <= u64::MAX {
            low as int
        } else {
            u64::MAX as int
        }),
        moments::is_finite(sample.control_us) ==> {
            let us = moments::value(sample.control_us);
            &&& us <= low as real ==> proposed == (if low <= u64::MAX {
                low as int
            } else {
                u64::MAX as int
            })
            &&& us >= high as real ==> proposed == (if high <= u64::MAX {
                high as int
            } else {
                u64::MAX as int
            })
            &&& low as real <= us < high as real ==> proposed as real <= us < (proposed
                + 1) as real
        },
    ensures
        ({
            let cfg = old(g)@.cfg;
            let backlog = cfg.target_fill_ratio.below(sample.smoothed_fill_ratio)
                || sensor_available >= cfg.soft_sensor_threshold;
            let plain: int = if backlog {
                if proposed - cfg.step_down_us >= cfg.min_sleep_us {
                    proposed - cfg.step_down_us
                } else {
                    cfg.min_sleep_us as int
                }
            } else if proposed <= cfg.nominal_sleep_us + cfg.step_up_us {
                proposed
            } else {
                cfg.nominal_sleep_us + cfg.step_up_us
            };
            &&& final(g)@.mode is FastRecovery ==> sleep_us == cfg.min_sleep_us
            &&& final(g)@.mode is Economy ==> sleep_us == (if proposed + cfg.step_up_us
                <= cfg.max_sleep_us {
                proposed + cfg.step_up_us
            } else {
                cfg.max_sleep_us as int
            })
            &&& final(g)@.mode is Tracking ==> match wish {
                GovernorOverride::ClampMaxSleep(limit) => sleep_us == (if plain <= limit || plain
                    <= cfg.min_sleep_us {
                    plain
                } else if limit >= cfg.min_sleep_us {
                    limit as int
                } else {
                    cfg.min_sleep_us as int
                }),
                _ => sleep_us == plain,
            }
            &&& !(final(g)@.mode is FailSafe)
        }),
{
    lemma_proposal_is(
        old(g)@.cfg,
        sample.control_us,
        low as int,
        high as int,
        proposed,
    );
    lemma_proposal_is_positive(old(g)@.cfg, sample.control_us);
}

/// Where the control law comes to no number, the reader sleeps the fail-safe sleep, unless there
/// is pressure, a backlog, which brings the shortest sleep, or slack, which brings one step.
pub proof fn law_no_number_brings_fail_safe(
    g: &mut AdaptivePollingGovernor,
    sensor_available: usize,
    stats: &BufferStats,
    wish: GovernorOverride,
    sample: ControlSample,
    sleep_us: u64,
)
    requires
        call_ensures(
            AdaptivePollingGovernor::update_with_override,
            (g, sensor_available, stats, wish, sample),
            sleep_us,
        ),
        old(g)@.consistent(),
        stats.capacity > 0,
        sample.control_us.not_a_number(),
    ensures
        ({
            let cfg = old(g)@.cfg;
            let backlog = cfg.target_fill_ratio.below(sample.smoothed_fill_ratio)
                || sensor_available >= cfg.soft_sensor_threshold;
            &&& final(g)@.mode is FailSafe ==> sleep_us == 1_000
            &&& final(g)@.mode is FastRecovery || final(g)@.mode is Tracking ==> sleep_us
                == cfg.min_sleep_us
            &&& final(g)@.mode is Tracking ==> backlog
            &&& final(g)@.mode is Economy ==> 0 < sleep_us && sleep_us == (if cfg.step_up_us
                <= cfg.max_sleep_us {
                cfg.step_up_us
            } else {
                cfg.max_sleep_us
            })
            &&& final(g)@.mode is FailSafe ==> !backlog || cfg.step_up_us == 0
        }),
{
}

/// Without a queue to watch, the reader sleeps the fail-safe sleep, and nothing is learned but
/// what the sensor has to give.
pub proof fn law_nothing_is_learned_without_a_queue(
    g: &mut AdaptivePollingGovernor,
    sensor_available: usize,
    stats: &BufferStats,
    wish: GovernorOverride,
    sample: ControlSample,
    sleep_us: u64,
)
    requires
        call_ensures(
            AdaptivePollingGovernor::update_with_override,
            (g, sensor_available, stats, wish, sample),
            sleep_us,
        ),
        old(g)@.consistent(),
        stats.capacity == 0,
    ensures
        sleep_us == 1_000,
        final(g)@.mode is FailSafe,
        final(g)@.integral_error == old(g)@.integral_error,
        final(g)@.prev_push_wait_ns_total == old(g)@.prev_push_wait_ns_total,
        final(g)@.prev_pop_wait_ns_total == old(g)@.prev_pop_wait_ns_total,
        final(g)@.last_fill_ratio.bits == 0,
        final(g)@.smoothed_fill_ratio.bits == 0,
        final(g)@.last_push_wait_delta_ns == 0,
        final(g)@.last_pop_wait_delta_ns == 0,
        final(g)@.last_sensor_available == sensor_available,
{
}

/// With a queue to watch, an update takes down what it was told: the totals of the waits, what
/// they have grown by, the fill ratios, and what the sensor has to give. The integral is taken
/// over too, or cleared in an emergency. What is told is what the governor was updated to.
pub proof fn law_figures_are_taken_down(
    g: &mut AdaptivePollingGovernor,
    sensor_available: usize,
    stats: &BufferStats,
    wish: GovernorOverride,
    sample: ControlSample,
    sleep_us: u64,
)
    requires
        call_ensures(
            AdaptivePollingGovernor::update_with_override,
            (g, sensor_available, stats, wish, sample),
            sleep_us,
        ),
        old(g)@.consistent(),
        stats.capacity > 0,
    ensures
        final(g)@.prev_push_wait_ns_total == stats.push_wait_ns_total,
        final(g)@.prev_pop_wait_ns_total == stats.pop_wait_ns_total,
        stats.push_wait_ns_total >= old(g)@.prev_push_wait_ns_total ==> old(
            g,
        )@.prev_push_wait_ns_total + final(g)@.last_push_wait_delta_ns == stats.push_wait_ns_total,
        stats.push_wait_ns_total < old(g)@.prev_push_wait_ns_total ==> final(g)@.last_push_wait_delta_ns == 0,
        stats.pop_wait_ns_total >= old(g)@.prev_pop_wait_ns_total ==> old(g)@.prev_pop_wait_ns_total
            + final(g)@.last_pop_wait_delta_ns == stats.pop_wait_ns_total,
        stats.pop_wait_ns_total < old(g)@.prev_pop_wait_ns_total ==> final(g)@.last_pop_wait_delta_ns == 0,
        final(g)@.last_fill_ratio == sample.fill_ratio,
        final(g)@.smoothed_fill_ratio == sample.smoothed_fill_ratio,
        final(g)@.last_sensor_available == sensor_available,
        final(g)@.mode is FastRecovery ==> final(g)@.integral_error.bits == 0,
        !(final(g)@.mode is FastRecovery) ==> final(g)@.integral_error == sample.integral_error,
        final(g)@.updates == old(g)@.updates + 1,
        final(g)@.cfg == old(g)@.cfg,
        sleep_us == final(g)@.current_sleep_us,
{
}

/// A switch of the mode is counted, once, for the mode that was entered; an update that keeps
/// the mode counts none. Only a control law that comes to no number makes two switches at once.
pub proof fn law_switches_are_counted(
    g: &mut AdaptivePollingGovernor,
    sensor_available: usize,
    stats: &BufferStats,
    wish: GovernorOverride,
    sample: ControlSample,
    sleep_us: u64,
)
    requires
        call_ensures(
            AdaptivePollingGovernor::update_with_override,
            (g, sensor_available, stats, wish, sample),
            sleep_us,
        ),
        old(g)@.consistent(),
        stats.capacity == 0 || !sample.control_us.not_a_number(),
    ensures
        ({
            let switched = final(g)@.mode != old(g)@.mode;
            &&& final(g)@.mode_switches - old(g)@.mode_switches == if switched {
                1int
            } else {
                0
            }
            &&& final(g)@.fast_recovery_entries - old(g)@.fast_recovery_entries == if switched
                && final(g)@.mode is FastRecovery {
                1int
            } else {
                0
            }
            &&& final(g)@.tracking_entries - old(g)@.tracking_entries == if switched && final(g)@.mode is Tracking {
                1int
            } else {
                0
            }
            &&& final(g)@.economy_entries - old(g)@.economy_entries == if switched && final(g)@.mode is Economy {
                1int
            } else {
                0
            }
            &&& final(g)@.fail_safe_entries - old(g)@.fail_safe_entries == if switched && final(g)@.mode is FailSafe {
                1int
            } else {
                0
            }
        }),
{
    if stats.capacity > 0 {
        lemma_proposal_is_positive(old(g)@.cfg, sample.control_us);
    }
}

/// An update that nobody wishes anything of is an update with that wish.
pub proof fn law_no_wish_is_a_plain_update(
    g: &mut AdaptivePollingGovernor,
    h: &mut AdaptivePollingGovernor,
    sensor_available: usize,
    stats: &BufferStats,
    sample: ControlSample,
    plain_us: u64,
    unset_us: u64,
)
    requires
        call_ensures(
            AdaptivePollingGovernor::update,
            (g, sensor_available, stats, sample),
            plain_us,
        ),
        call_ensures(
            AdaptivePollingGovernor::update_with_override,
            (h, sensor_available, stats, GovernorOverride::Unset, sample),
            unset_us,
        ),
        old(g)@ == old(h)@,
    ensures
        final(g)@ == final(h)@,
        plain_us == unset_us,
{
}

/// Whether an update will be an emergency is known beforehand.
pub proof fn law_emergencies_are_foreseen(
    g: &mut AdaptivePollingGovernor,
    before: &AdaptivePollingGovernor,
    sensor_available: usize,
    stats: &BufferStats,
    wish: GovernorOverride,
    sample: ControlSample,
    sleep_us: u64,
    foreseen: bool,
)
    requires
        call_ensures(
            AdaptivePollingGovernor::needs_fast_recovery,
            (before, sensor_available, stats, sample.smoothed_fill_ratio, wish),
            foreseen,
        ),
        call_ensures(
            AdaptivePollingGovernor::update_with_override,
            (g, sensor_available, stats, wish, sample),
            sleep_us,
        ),
        old(g)@ == before@,
        old(g)@.consistent(),
        stats.capacity > 0,
    ensures
        foreseen <==> final(g)@.mode is FastRecovery,
        foreseen <==> (wish is ForceFastRecovery || sensor_available
            >= before@.cfg.hard_sensor_threshold || before@.cfg.high_fill_ratio.at_most(
            sample.smoothed_fill_ratio,
        ) || stats.push_wait_ns_total > before@.prev_push_wait_ns_total),
{
}

/// A configuration is valid when its sleeps are in order and none is zero, its sensor thresholds
/// are in order, and its fill ratios are in order and, like its weight, between zero and one.
pub proof fn law_valid_is_in_order(cfg: AdaptivePollingConfig, b: bool)
    requires
        call_ensures(AdaptivePollingConfig::is_valid, (&cfg,), b),
    ensures
        b <==> {
            &&& 1 <= cfg.min_sleep_us
            &&& cfg.min_sleep_us <= cfg.nominal_sleep_us
            &&& cfg.nominal_sleep_us <= cfg.max_sleep_us
            &&& cfg.soft_sensor_threshold <= cfg.hard_sensor_threshold
            &&& moments::is_finite(cfg.low_fill_ratio)
            &&& moments::is_finite(cfg.target_fill_ratio)
            &&& moments::is_finite(cfg.high_fill_ratio)
            &&& moments::is_finite(cfg.ewma_alpha)
            &&& 0 as real <= moments::value(cfg.low_fill_ratio)
            &&& moments::value(cfg.low_fill_ratio) <= moments::value(cfg.target_fill_ratio)
            &&& moments::value(cfg.target_fill_ratio) <= moments::value(cfg.high_fill_ratio)
            &&& moments::value(cfg.high_fill_ratio) <= 1 as real
            &&& 0 as real <= moments::value(cfg.ewma_alpha) <= 1 as real
        },
{
    lemma_ratio(cfg.low_fill_ratio);
    lemma_ratio(cfg.target_fill_ratio);
    lemma_ratio(cfg.high_fill_ratio);
    lemma_ratio(cfg.ewma_alpha);
    if is_ratio(cfg.low_fill_ratio) && is_ratio(cfg.target_fill_ratio) {
        moments::law_order_is_that_of_the_numbers(cfg.low_fill_ratio, cfg.target_fill_ratio);
    }
    if is_ratio(cfg.target_fill_ratio) && is_ratio(cfg.high_fill_ratio) {
        moments::law_order_is_that_of_the_numbers(cfg.target_fill_ratio, cfg.high_fill_ratio);
    }
}

/// A ratio is a number between zero and one.
proof fn lemma_ratio(d: Binary64)
    ensures
        is_ratio(d) <==> moments::is_finite(d) && 0 as real <= moments::value(d) <= 1 as real,
{
    moments::law_zero_and_one();
    if moments::is_finite(d) {
        moments::law_order_is_that_of_the_numbers(Binary64 { bits: 0 }, d);
        moments::law_order_is_that_of_the_numbers(d, Binary64 { bits: ONE_BITS });
    }
}

/// A new governor tracks at the nominal sleep, under its configuration or, where that is not
/// valid, under the standard one, and has met nothing yet.
pub proof fn law_a_new_governor_has_met_nothing(
    cfg: AdaptivePollingConfig,
    b: bool,
    g: AdaptivePollingGovernor,
)
    requires
        call_ensures(AdaptivePollingConfig::is_valid, (&cfg,), b),
        call_ensures(AdaptivePollingGovernor::new, (cfg,), g),
    ensures
        b ==> g@.cfg == cfg,
        !b ==> g@.cfg == AdaptivePollingConfig::standard(),
        g@.mode is Tracking,
        g@.current_sleep_us == g@.cfg.nominal_sleep_us,
        g@.integral_error.bits == 0 && g@.last_fill_ratio.bits == 0
            && g@.smoothed_fill_ratio.bits == 0,
        g@.prev_push_wait_ns_total == 0 && g@.prev_pop_wait_ns_total == 0,
        g@.last_push_wait_delta_ns == 0 && g@.last_pop_wait_delta_ns == 0,
        g@.last_sensor_available == 0,
        g@.updates == 0 && g@.mode_switches == 0,
        g@.tracking_entries == 1,
        g@.fast_recovery_entries == 0 && g@.economy_entries == 0 && g@.fail_safe_entries == 0,
{
}

/// What a governor tells of an update is what came of it.
pub proof fn law_updates_are_told(
    g: &mut AdaptivePollingGovernor,
    after: &AdaptivePollingGovernor,
    sensor_available: usize,
    stats: &BufferStats,
    wish: GovernorOverride,
    sample: ControlSample,
    sleep_us: u64,
    told: GovernorStats,
)
    requires
        call_ensures(
            AdaptivePollingGovernor::update_with_override,
            (g, sensor_available, stats, wish, sample),
            sleep_us,
        ),
        call_ensures(AdaptivePollingGovernor::stats, (after,), told),
        after@ == final(g)@,
        old(g)@.consistent(),
    ensures
        told.current_sleep_us == sleep_us,
        told.updates == old(g)@.updates + 1,
        told.last_sensor_available == sensor_available,
        stats.capacity > 0 ==> told.last_fill_ratio == sample.fill_ratio
            && told.smoothed_fill_ratio == sample.smoothed_fill_ratio,
        told.mode is FastRecovery ==> told.current_sleep_us == old(g)@.cfg.min_sleep_us,
        told.mode_switches + 1 == told.fast_recovery_entries + told.economy_entries
            + told.tracking_entries + told.fail_safe_entries,
        stats.capacity > 0 && stats.push_wait_ns_total >= old(g)@.prev_push_wait_ns_total
            ==> old(g)@.prev_push_wait_ns_total + told.last_push_wait_delta_ns
            == stats.push_wait_ns_total,
        stats.capacity > 0 && stats.pop_wait_ns_total >= old(g)@.prev_pop_wait_ns_total ==> old(
            g,
        )@.prev_pop_wait_ns_total + told.last_pop_wait_delta_ns == stats.pop_wait_ns_total,
{
}

/// A governor gives out the configuration and the integral that it works with.
pub proof fn law_settings_are_given_out(
    g: &AdaptivePollingGovernor,
    cfg: AdaptivePollingConfig,
    integral: Binary64,
)
    requires
        call_ensures(AdaptivePollingGovernor::cfg, (g,), cfg),
        call_ensures(AdaptivePollingGovernor::integral_error, (g,), integral),
    ensures
        cfg == g@.cfg,
        integral == g@.integral_error,
{
}

} // verus!
