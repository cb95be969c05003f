use azure_gateway::binary64::Binary64;
use azure_gateway::buffer::BufferStats;
use azure_gateway::governor::{
    AdaptivePollingConfig, AdaptivePollingGovernor, ControlSample, GovernorMode, GovernorOverride,
    GovernorStats,
};
use std::time::Duration;

fn double(d: Binary64) -> f64 {
    f64::from_bits(d.bits)
}

fn bits(x: f64) -> Binary64 {
    Binary64::from_bits(x.to_bits())
}

/// A governor together with the arithmetic on fill ratios.
struct Driver {
    gov: AdaptivePollingGovernor,
}

impl Driver {
    fn new(cfg: AdaptivePollingConfig) -> Self {
        Driver { gov: AdaptivePollingGovernor::new(cfg) }
    }

    fn cfg(&self) -> AdaptivePollingConfig {
        self.gov.cfg()
    }

    fn stats(&self) -> GovernorStats {
        self.gov.stats()
    }

    fn sample(&self, stats: &BufferStats) -> ControlSample {
        let cfg = self.gov.cfg();
        let fill = if stats.capacity == 0 {
            0.0
        } else {
            stats.len as f64 / stats.capacity as f64
        };
        let alpha = double(cfg.ewma_alpha);
        let smoothed = (1.0 - alpha) * double(self.gov.stats().smoothed_fill_ratio) + alpha * fill;
        let error = double(cfg.target_fill_ratio) - smoothed;
        let limit = double(cfg.integral_limit);
        let integral = (double(self.gov.integral_error()) + error).clamp(-limit, limit);
        let delta = double(cfg.kp_us_per_fill) * error + double(cfg.ki_us_per_fill) * integral;
        ControlSample {
            fill_ratio: bits(fill),
            smoothed_fill_ratio: bits(smoothed),
            integral_error: bits(integral),
            control_us: bits(cfg.nominal_sleep_us as f64 + delta),
        }
    }

    fn update(&mut self, sensor_available: usize, stats: &BufferStats) -> Duration {
        let sample = self.sample(stats);
        Duration::from_micros(self.gov.update(sensor_available, stats, sample))
    }

    fn update_with_override(
        &mut self,
        sensor_available: usize,
        stats: &BufferStats,
        wish: GovernorOverride,
    ) -> Duration {
        let sample = self.sample(stats);
        Duration::from_micros(self.gov.update_with_override(sensor_available, stats, wish, sample))
    }
}

fn stats(
    capacity: usize,
    len: usize,
    push_wait_ns_total: u128,
    pop_wait_ns_total: u128,
) -> BufferStats {
    BufferStats {
        capacity,
        len,
        high_watermark: len,
        total_pushed: 0,
        total_popped: 0,
        push_wait_count: 0,
        pop_wait_count: 0,
        push_wait_ns_total,
        pop_wait_ns_total,
        is_shutdown: false,
    }
}

/// Fixed sleep ignores queue and sensor telemetry; adaptive does not.
#[test]
fn push_wait_activity_forces_fast_recovery_not_fixed_sleep() {
    let mut g = Driver::new(AdaptivePollingConfig::default());
    let fixed_us = g.cfg().nominal_sleep_us;
    g.update(0, &stats(1024, 0, 0, 0));
    let d = g.update(0, &stats(1024, 0, 5000, 0));
    assert_eq!(g.stats().mode, GovernorMode::FastRecovery);
    assert_eq!(d.as_micros(), g.cfg().min_sleep_us as u128);
    assert_ne!(d.as_micros(), fixed_us as u128);
}

#[test]
fn high_buffer_fill_triggers_fast_recovery() {
    let mut g = Driver::new(AdaptivePollingConfig::default());
    let cap = 1000usize;
    let len = (cap as f64 * (double(g.cfg().high_fill_ratio) + 0.05)) as usize;
    for _ in 0..30 {
        g.update(0, &stats(cap, len, 0, 0));
    }
    assert_eq!(g.stats().mode, GovernorMode::FastRecovery);
    assert_eq!(g.stats().current_sleep_us, g.cfg().min_sleep_us);
}

#[test]
fn sensor_backlog_at_hard_threshold_triggers_fast_recovery() {
    let mut g = Driver::new(AdaptivePollingConfig::default());
    let hard = g.cfg().hard_sensor_threshold;
    g.update(hard, &stats(4096, 0, 0, 0));
    assert_eq!(g.stats().mode, GovernorMode::FastRecovery);
}

#[test]
fn economy_relaxes_sleep_when_consumer_runs_ahead_of_producers() {
    let mut g = Driver::new(AdaptivePollingConfig::default());
    let cap = 10_000usize;
    let nominal = g.cfg().nominal_sleep_us;
    for i in 0..50 {
        let pop_ns = (i as u128 + 1) * 1_000_000u128;
        g.update(0, &stats(cap, 0, 0, pop_ns));
    }
    assert_eq!(g.stats().mode, GovernorMode::Economy);
    assert!(
        g.stats().current_sleep_us > nominal,
        "economy should grow sleep above nominal; got {}",
        g.stats().current_sleep_us
    );
    assert!(g.stats().current_sleep_us <= g.cfg().max_sleep_us);
}

#[test]
fn force_fast_recovery_override_matches_emergency_sleep() {
    let mut g = Driver::new(AdaptivePollingConfig::default());
    g.update_with_override(0, &stats(1000, 0, 0, 0), GovernorOverride::ForceFastRecovery);
    assert_eq!(g.stats().mode, GovernorMode::FastRecovery);
    assert_eq!(g.stats().current_sleep_us, g.cfg().min_sleep_us);
}

#[test]
fn clamp_max_sleep_caps_proposed_duration() {
    let mut cfg = AdaptivePollingConfig::default();
    cfg.max_sleep_us = 10_000;
    let mut g = Driver::new(cfg);
    for i in 0..30 {
        let pop_ns = (i as u128 + 1) * 1_000_000u128;
        g.update_with_override(
            0,
            &stats(10_000, 0, 0, pop_ns),
            GovernorOverride::ClampMaxSleep(80),
        );
    }
    assert!(g.stats().current_sleep_us <= 80);
}

#[test]
fn burst_then_idle_produces_distinct_modes_and_sleep_range() {
    let mut g = Driver::new(AdaptivePollingConfig::default());
    let cap = 1000usize;
    for step in 1u32..=6 {
        let push_ns = u128::from(step) * 50_000u128;
        g.update(0, &stats(cap, 20, push_ns, 0));
    }
    assert!(g.stats().fast_recovery_entries >= 1);
    let min_seen = g.stats().current_sleep_us;
    let push_floor = 6 * 50_000u128;
    for i in 0..55 {
        let pop_ns = (i as u128 + 1) * 1_000_000u128;
        g.update(0, &stats(cap, 1, push_floor, pop_ns));
    }
    assert!(g.stats().economy_entries >= 1);
    assert!(g.stats().current_sleep_us > min_seen);
    assert!(g.stats().mode_switches >= 1);
}

#[test]
fn standard_configuration_holds_the_documented_numbers() {
    let cfg = AdaptivePollingConfig::default();
    assert_eq!(cfg.min_sleep_us, 25);
    assert_eq!(cfg.nominal_sleep_us, 100);
    assert_eq!(cfg.max_sleep_us, 1_000);
    assert_eq!(double(cfg.target_fill_ratio), 0.03);
    assert_eq!(double(cfg.high_fill_ratio), 0.25);
    assert_eq!(double(cfg.low_fill_ratio), 0.01);
    assert_eq!(cfg.soft_sensor_threshold, 8);
    assert_eq!(cfg.hard_sensor_threshold, 24);
    assert_eq!(cfg.step_up_us, 25);
    assert_eq!(cfg.step_down_us, 75);
    assert_eq!(double(cfg.kp_us_per_fill), 2_000.0);
    assert_eq!(double(cfg.ki_us_per_fill), 80.0);
    assert_eq!(double(cfg.integral_limit), 1.0);
    assert_eq!(double(cfg.ewma_alpha), 0.2);
    assert!(cfg.is_valid());
}

#[test]
fn invalid_configurations_give_way_to_the_standard_one() {
    let standard = AdaptivePollingConfig::default();
    let mut broken: Vec<AdaptivePollingConfig> = Vec::new();
    for _ in 0..11 {
        broken.push(standard);
    }
    broken[0].min_sleep_us = 0;
    broken[1].nominal_sleep_us = 24;
    broken[2].max_sleep_us = 99;
    broken[3].low_fill_ratio = bits(-0.5);
    broken[4].target_fill_ratio = bits(f64::NAN);
    broken[5].high_fill_ratio = bits(1.5);
    broken[6].ewma_alpha = bits(1.0000000000000002);
    broken[7].low_fill_ratio = bits(0.04);
    broken[8].target_fill_ratio = bits(0.26);
    broken[9].soft_sensor_threshold = 25;
    broken[10].ewma_alpha = bits(f64::NEG_INFINITY);
    for cfg in broken {
        assert!(!cfg.is_valid());
        assert_eq!(AdaptivePollingGovernor::new(cfg).cfg(), standard);
    }
    let mut odd = standard;
    odd.low_fill_ratio = bits(-0.0);
    odd.ewma_alpha = bits(1.0);
    odd.integral_limit = bits(f64::NAN);
    assert!(odd.is_valid());
    assert_eq!(AdaptivePollingGovernor::new(odd).cfg(), odd);
}

#[test]
fn a_new_governor_tracks_at_the_nominal_sleep() {
    let s = AdaptivePollingGovernor::new(AdaptivePollingConfig::default()).stats();
    assert_eq!(s.mode, GovernorMode::Tracking);
    assert_eq!(s.current_sleep_us, 100);
    assert_eq!(s.updates, 0);
    assert_eq!(s.mode_switches, 0);
    assert_eq!(s.tracking_entries, 1);
    assert_eq!(s.fast_recovery_entries + s.economy_entries + s.fail_safe_entries, 0);
}

#[test]
fn a_queue_without_capacity_brings_fail_safe() {
    let mut g = Driver::new(AdaptivePollingConfig::default());
    g.update(3, &stats(100, 50, 0, 70));
    let d = g.update(5, &stats(0, 0, 900, 900));
    let s = g.stats();
    assert_eq!(d.as_micros(), 1_000);
    assert_eq!(s.mode, GovernorMode::FailSafe);
    assert_eq!(s.fail_safe_entries, 1);
    assert_eq!(s.last_sensor_available, 5);
    assert_eq!(double(s.smoothed_fill_ratio), 0.0);
    assert_eq!(s.last_push_wait_delta_ns, 0);
    assert_eq!(s.last_pop_wait_delta_ns, 0);
    // The totals of the update without a queue were not taken down.
    g.update(0, &stats(100, 0, 10, 100));
    assert_eq!(g.stats().last_push_wait_delta_ns, 10);
    assert_eq!(g.stats().last_pop_wait_delta_ns, 30);
}

#[test]
fn tracking_sleeps_follow_the_control_law() {
    let mut g = Driver::new(AdaptivePollingConfig::default());
    // error 0.03, integral 0.03: 100 + 60 + 2.4, held at a step over the nominal sleep.
    assert_eq!(g.update(0, &stats(1000, 0, 0, 0)).as_micros(), 125);
    assert_eq!(g.stats().mode, GovernorMode::Tracking);
    // A sensor at its soft threshold shortens 100 + 60 + 4.8 by a step down.
    assert_eq!(g.update(8, &stats(1000, 0, 0, 0)).as_micros(), 89);
    // Smoothed to 0.2 * 0.2 = 0.04, over the target: error -0.01, integral 0.05.
    let d = g.update(0, &stats(1000, 200, 0, 0));
    assert_eq!(double(g.stats().last_fill_ratio), 0.2);
    assert_eq!(d.as_micros(), 25);
    assert_eq!(g.stats().mode_switches, 0);
    assert_eq!(g.stats().updates, 3);
}

#[test]
fn economy_lengthens_a_sleep_by_one_step() {
    let mut g = Driver::new(AdaptivePollingConfig::default());
    // 100 + 60 + 2.4, cut to 162, and a step up.
    assert_eq!(g.update(0, &stats(1000, 0, 0, 1)).as_micros(), 187);
    assert_eq!(g.stats().mode, GovernorMode::Economy);
    // No consumer waits any more, but slack keeps economy.
    g.update(8, &stats(1000, 0, 0, 1));
    assert_eq!(g.stats().mode, GovernorMode::Economy);
    g.update(9, &stats(1000, 0, 0, 1));
    assert_eq!(g.stats().mode, GovernorMode::Tracking);
    assert_eq!(g.stats().mode_switches, 2);
    assert_eq!(g.stats().tracking_entries, 2);
    assert_eq!(g.stats().economy_entries, 1);
}

#[test]
fn a_clamp_below_the_shortest_sleep_gives_the_shortest_sleep() {
    let mut g = Driver::new(AdaptivePollingConfig::default());
    let d = g.update_with_override(
        0,
        &stats(1000, 0, 0, 1),
        GovernorOverride::ClampMaxSleep(3),
    );
    assert_eq!(d.as_micros(), 25);
    assert_eq!(g.stats().mode, GovernorMode::Tracking);
}

#[test]
fn a_control_law_without_a_number_brings_fail_safe() {
    let mut g = AdaptivePollingGovernor::new(AdaptivePollingConfig::default());
    let sample = ControlSample {
        fill_ratio: bits(0.0),
        smoothed_fill_ratio: bits(0.0),
        integral_error: bits(0.5),
        control_us: bits(f64::NAN),
    };
    assert_eq!(g.update(0, &stats(10, 0, 0, 0), sample), 1_000);
    assert_eq!(g.stats().mode, GovernorMode::FailSafe);
    assert_eq!(double(g.integral_error()), 0.5);
}

#[test]
fn proposals_are_clamped_and_cut_as_doubles_are() {
    let mut cfg = AdaptivePollingConfig::default();
    cfg.step_up_us = 0;
    let limits = [
        (25u64, 100u64, 1_000u64),
        (1, 1, 1),
        (9_007_199_254_740_993, 9_007_199_254_740_995, u64::MAX),
        (u64::MAX - 5, u64::MAX - 3, u64::MAX),
        (3, u64::MAX - 1024, u64::MAX - 1023),
    ];
    for (min, nominal, max) in limits {
        cfg.min_sleep_us = min;
        cfg.nominal_sleep_us = nominal;
        cfg.max_sleep_us = max;
        for control in [
            0.0, -0.0, -7.5, 0.99, 1.0, 25.0, 25.9, 26.0, 999.999, 1_000.0, 1_000.5, 1e15, 1e16,
            1.8446744073709552e19, 1.8446744073709550e19, 1e300, f64::INFINITY,
            f64::NEG_INFINITY, 5e-324, 4503599627370497.5, 9007199254740993.0,
        ] {
            let mut g = AdaptivePollingGovernor::new(cfg);
            // Slack and waiting consumers: economy, which with no step gives the proposal, up
            // to the longest sleep.
            let sample = ControlSample {
                fill_ratio: bits(0.0),
                smoothed_fill_ratio: bits(0.0),
                integral_error: bits(0.0),
                control_us: bits(control),
            };
            let expected = (control.clamp(min as f64, max as f64) as u64).min(max);
            assert_eq!(g.update(0, &stats(10, 0, 0, 1), sample), expected, "{control} {max}");
            assert_eq!(g.stats().mode, GovernorMode::Economy);
        }
    }
}

#[test]
fn emergency_clears_the_integral() {
    let mut g = Driver::new(AdaptivePollingConfig::default());
    g.update(0, &stats(1000, 0, 0, 0));
    assert!(double(g.gov.integral_error()) > 0.0);
    assert!(g.gov.needs_fast_recovery(24, &stats(1000, 0, 0, 0), bits(0.0), GovernorOverride::Unset));
    assert!(!g.gov.needs_fast_recovery(23, &stats(1000, 0, 0, 0), bits(0.2), GovernorOverride::Unset));
    g.update(24, &stats(1000, 0, 0, 0));
    assert_eq!(double(g.gov.integral_error()), 0.0);
}

#[test]
fn entries_add_up_to_switches() {
    let mut g = Driver::new(AdaptivePollingConfig::default());
    for i in 0..200usize {
        let cap = if i % 17 == 0 { 0 } else { 100 };
        let push = (i / 13) as u128;
        g.update((i * 7) % 30, &stats(cap, (i * 3) % 20, push, (i * 2) as u128));
        let s = g.stats();
        assert_eq!(
            s.mode_switches + 1,
            s.fast_recovery_entries + s.economy_entries + s.tracking_entries + s.fail_safe_entries
        );
        let entries = match s.mode {
            GovernorMode::FastRecovery => s.fast_recovery_entries,
            GovernorMode::Economy => s.economy_entries,
            GovernorMode::Tracking => s.tracking_entries,
            GovernorMode::FailSafe => s.fail_safe_entries,
        };
        assert!(entries >= 1);
        assert!(s.mode == GovernorMode::FailSafe || s.current_sleep_us >= 25);
        assert!(s.current_sleep_us <= 1_000);
        assert_eq!(s.updates, i as u64 + 1);
    }
}
