//! Scenarios in which adaptive polling differs from a fixed sleep, with the telemetry that the
//! governor sees held fixed.

use azure_gateway::binary64::Binary64;
use azure_gateway::buffer::BufferStats;
use azure_gateway::governor::{
    AdaptivePollingConfig, AdaptivePollingGovernor, ControlSample, GovernorMode,
};
use std::time::Duration;

fn buffer(
    capacity: usize,
    len: usize,
    push_wait_ns_total: u128,
    pop_wait_ns_total: u128,
) -> BufferStats {
    BufferStats {
        capacity,
        len,
        high_watermark: len,
        total_pushed: 0,
        total_popped: 0,
        push_wait_count: 0,
        pop_wait_count: 0,
        push_wait_ns_total,
        pop_wait_ns_total,
        is_shutdown: false,
    }
}

fn double(d: Binary64) -> f64 {
    f64::from_bits(d.bits)
}

/// One update, with the arithmetic on fill ratios done first.
fn update(gov: &mut AdaptivePollingGovernor, sensor_available: usize, stats: &BufferStats) -> Duration {
    let cfg = gov.cfg();
    let fill = stats.len as f64 / stats.capacity as f64;
    let alpha = double(cfg.ewma_alpha);
    let smoothed = (1.0 - alpha) * double(gov.stats().smoothed_fill_ratio) + alpha * fill;
    let error = double(cfg.target_fill_ratio) - smoothed;
    let limit = double(cfg.integral_limit);
    let integral = (double(gov.integral_error()) + error).clamp(-limit, limit);
    let delta = double(cfg.kp_us_per_fill) * error + double(cfg.ki_us_per_fill) * integral;
    let control = cfg.nominal_sleep_us as f64 + delta;
    let sample = ControlSample {
        fill_ratio: Binary64::from_bits(fill.to_bits()),
        smoothed_fill_ratio: Binary64::from_bits(smoothed.to_bits()),
        integral_error: Binary64::from_bits(integral.to_bits()),
        control_us: Binary64::from_bits(control.to_bits()),
    };
    Duration::from_micros(gov.update(sensor_available, stats, sample))
}

/// The same sleep every tick, whatever the queue and the sensor say.
fn static_sleep_us(fixed_us: u64, steps: usize) -> u128 {
    u128::from(fixed_us) * steps as u128
}

#[test]
fn adaptive_sum_sleep_exceeds_static_under_slack_pop_bias() {
    let cfg = AdaptivePollingConfig::default();
    let fixed = cfg.nominal_sleep_us;
    let cap = 10_000usize;
    let steps = 40usize;

    let mut gov = AdaptivePollingGovernor::new(cfg);
    let mut adaptive_total_us: u128 = 0;
    for i in 0..steps {
        let pop_ns = (i as u128 + 1) * 1_000_000u128;
        let d = update(&mut gov, 0, &buffer(cap, 0, 0, pop_ns));
        adaptive_total_us += d.as_micros();
    }

    let static_total_us = static_sleep_us(fixed, steps);
    assert_eq!(gov.stats().mode, GovernorMode::Economy);
    assert!(
        adaptive_total_us > static_total_us,
        "under repeated slack + pop-biased waits, adaptive should lengthen sleep vs nominal static; adaptive={adaptive_total_us} static={static_total_us}"
    );
}

#[test]
fn adaptive_drops_to_min_sleep_on_push_pressure_static_stays_flat() {
    let cfg = AdaptivePollingConfig::default();
    let fixed = cfg.nominal_sleep_us;
    let cap = 2048usize;

    let mut gov = AdaptivePollingGovernor::new(cfg);
    update(&mut gov, 0, &buffer(cap, 0, 0, 0));
    let d = update(&mut gov, 0, &buffer(cap, 0, 999_999, 0));
    assert_eq!(d.as_micros(), gov.cfg().min_sleep_us as u128);

    let static_always = Duration::from_micros(fixed);
    assert_ne!(
        d.as_micros(),
        static_always.as_micros(),
        "static policy at nominal would not react to push-wait pressure"
    );
}

#[test]
fn phased_workload_produces_multiple_governor_modes() {
    let mut gov = AdaptivePollingGovernor::new(AdaptivePollingConfig::default());
    let cap = 1000usize;

    for step in 1u32..=8 {
        let push_ns = u128::from(step) * 40_000u128;
        update(&mut gov, 0, &buffer(cap, 15, push_ns, 0));
    }
    let push_floor = 8 * 40_000u128;
    for i in 0..35 {
        let pop_ns = (i as u128 + 1) * 1_000_000u128;
        update(&mut gov, 0, &buffer(cap, 1, push_floor, pop_ns));
    }

    let s = gov.stats();
    assert!(
        s.fast_recovery_entries >= 1 && s.economy_entries >= 1,
        "expected both FastRecovery and Economy in a phased trace, got FR={} Econ={}",
        s.fast_recovery_entries,
        s.economy_entries
    );
    assert!(
        s.mode_switches >= 2,
        "mode switches should be visible for a dynamic policy; got {}",
        s.mode_switches
    );
}

#[test]
fn sensor_backlog_crossing_hard_threshold_switches_to_fast_recovery() {
    let cfg = AdaptivePollingConfig::default();
    let hard = cfg.hard_sensor_threshold;
    let mut gov = AdaptivePollingGovernor::new(cfg);
    update(&mut gov, hard.saturating_sub(1).max(0), &buffer(4096, 0, 0, 0));
    assert_ne!(gov.stats().mode, GovernorMode::FastRecovery);

    update(&mut gov, hard, &buffer(4096, 0, 0, 0));
    assert_eq!(gov.stats().mode, GovernorMode::FastRecovery);
}
