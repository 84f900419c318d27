use vector_plus::adjust::{adjust, try_adjust, CapStatus};
use vector_plus::errors::ConfigError;
use vector_plus::schema::{build, VolatilityConfig};
use vector_plus::validate::{validate, ValidationError, ValidationWarning};

const WEI: u128 = 1_000_000_000_000_000_000;
const MAX_5_ETH: u128 = 5_000_000_000_000_000_000;
const MIN_TENTH_ETH: u128 = 100_000_000_000_000_000;
const NOW: u64 = 1_700_000_000;

fn sample(baseline: u64, current: u64, conservative: bool) -> VolatilityConfig {
    build(baseline, current, MAX_5_ETH, MIN_TENTH_ETH, conservative, NOW)
}

#[test]
fn build_fills_every_field() {
    let cfg = sample(300, 350, false);
    assert_eq!(cfg.baseline_volatility, 300);
    assert_eq!(cfg.current_volatility, 350);
    assert_eq!(cfg.max_execution_size, MAX_5_ETH);
    assert_eq!(cfg.min_execution_size, MIN_TENTH_ETH);
    assert!(!cfg.conservative_mode);
    assert_eq!(cfg.last_update_time, NOW);
}

#[test]
fn build_derives_thresholds() {
    let cfg = sample(300, 350, false);
    assert_eq!(cfg.volatility_threshold, 2 * 300);
    assert_eq!(cfg.emergency_threshold, 4 * 300);
    let other = sample(777, 0, true);
    assert_eq!(other.volatility_threshold, 1554);
    assert_eq!(other.emergency_threshold, 3108);
}

#[test]
fn validate_clean_config_reports_nothing() {
    let cfg = sample(300, 300, false);
    let report = validate(&cfg, NOW + 10);
    assert!(report.warnings.is_empty());
    assert!(report.errors.is_empty());
    assert!(report.is_valid());
}

#[test]
fn validate_emergency_yields_error() {
    let cfg = sample(300, 1201, false);
    let report = validate(&cfg, NOW);
    assert!(report.errors.len() >= 1);
    assert_eq!(report.errors[0], ValidationError::ExceedsEmergencyThreshold);
    assert!(!report.is_valid());
}

#[test]
fn validate_far_above_baseline_warns() {
    let cfg = sample(300, 901, false);
    let report = validate(&cfg, NOW);
    assert_eq!(report.warnings, vec![ValidationWarning::VolatilityFarAboveBaseline]);
    assert!(report.errors.is_empty());
    assert!(report.is_valid());
}

#[test]
fn validate_size_order_error() {
    let cfg = build(300, 300, MIN_TENTH_ETH, MAX_5_ETH, false, NOW);
    let report = validate(&cfg, NOW);
    assert_eq!(report.errors, vec![ValidationError::MaxNotAboveMin]);
}

#[test]
fn validate_equal_sizes_is_an_error() {
    let cfg = build(300, 300, WEI, WEI, false, NOW);
    let report = validate(&cfg, NOW);
    assert_eq!(report.errors, vec![ValidationError::MaxNotAboveMin]);
}

#[test]
fn validate_stale_config_warns() {
    let cfg = sample(300, 300, false);
    let report = validate(&cfg, NOW + 3601);
    assert_eq!(report.warnings, vec![ValidationWarning::ConfigurationStale]);
    assert!(report.is_valid());
}

#[test]
fn validate_one_hour_old_is_not_stale() {
    let cfg = sample(300, 300, false);
    let report = validate(&cfg, NOW + 3600);
    assert!(report.warnings.is_empty());
}

#[test]
fn validate_future_timestamp_is_not_stale() {
    let cfg = sample(300, 300, false);
    let report = validate(&cfg, NOW - 100);
    assert!(report.warnings.is_empty());
}

#[test]
fn validate_reports_warnings_and_errors_together() {
    let cfg = build(300, 1300, MIN_TENTH_ETH, MAX_5_ETH, false, NOW);
    let report = validate(&cfg, NOW + 4000);
    assert_eq!(
        report.warnings,
        vec![
            ValidationWarning::VolatilityFarAboveBaseline,
            ValidationWarning::ConfigurationStale
        ]
    );
    assert_eq!(
        report.errors,
        vec![
            ValidationError::ExceedsEmergencyThreshold,
            ValidationError::MaxNotAboveMin
        ]
    );
}

#[test]
fn adjust_at_baseline_keeps_the_amount() {
    let cfg = sample(300, 300, false);
    let r = adjust(WEI, &cfg);
    assert_eq!(r.adjustment_factor_percent, 100);
    assert_eq!(r.adjusted_amount, WEI);
    assert_eq!(r.final_amount, WEI);
    assert_eq!(r.capped, CapStatus::Uncapped);
}

#[test]
fn adjust_low_volatility_boosts() {
    let cfg = sample(300, 150, false);
    let r = adjust(WEI, &cfg);
    assert_eq!(r.adjustment_factor_percent, 125);
    assert_eq!(r.adjusted_amount, WEI / 100 * 125);
    assert_eq!(r.capped, CapStatus::Uncapped);
}

#[test]
fn adjust_high_volatility_reduction_is_clamped() {
    let cfg = sample(300, 700, false);
    let r = adjust(WEI, &cfg);
    assert_eq!(r.adjustment_factor_percent, 50);
    assert_eq!(r.adjusted_amount, WEI / 2);
}

#[test]
fn adjust_zero_current_gives_maximum_boost() {
    let cfg = sample(300, 0, false);
    let r = adjust(WEI, &cfg);
    assert_eq!(r.adjustment_factor_percent, 150);
}

#[test]
fn adjust_conservative_mode_scales_down_in_normal_regime() {
    let cfg = sample(300, 450, true);
    let r = adjust(WEI, &cfg);
    assert_eq!(r.adjustment_factor_percent, 90);
    let relaxed = sample(300, 450, false);
    assert_eq!(adjust(WEI, &relaxed).adjustment_factor_percent, 100);
}

#[test]
fn adjust_caps_at_maximum() {
    let cfg = sample(300, 300, false);
    let r = adjust(10 * WEI, &cfg);
    assert_eq!(r.adjusted_amount, 10 * WEI);
    assert_eq!(r.final_amount, MAX_5_ETH);
    assert_eq!(r.capped, CapStatus::AtMax);
}

#[test]
fn adjust_raises_to_minimum() {
    let cfg = sample(300, 700, false);
    let r = adjust(MIN_TENTH_ETH, &cfg);
    assert_eq!(r.adjusted_amount, MIN_TENTH_ETH / 2);
    assert_eq!(r.final_amount, MIN_TENTH_ETH);
    assert_eq!(r.capped, CapStatus::AtMin);
}

#[test]
fn adjust_final_amount_stays_within_bounds() {
    let amounts = [1u128, MIN_TENTH_ETH, WEI, 3 * WEI, 40 * WEI];
    let currents = [0u64, 150, 300, 450, 601, 700, 5000];
    for &amount in amounts.iter() {
        for &current in currents.iter() {
            let cfg = sample(300, current, false);
            let r = adjust(amount, &cfg);
            assert!(r.final_amount >= r.min_allowed);
            assert!(r.final_amount <= r.max_allowed);
        }
    }
}

#[test]
fn try_adjust_rejects_zero_baseline() {
    let cfg = build(0, 0, MAX_5_ETH, MIN_TENTH_ETH, false, NOW);
    let r = try_adjust(WEI, &cfg);
    assert_eq!(r, Err(ConfigError::PreconditionViolation));
}

#[test]
fn try_adjust_rejects_an_amount_too_large_to_scale() {
    let cfg = sample(300, 300, false);
    let r = try_adjust(u128::MAX / 150 + 1, &cfg);
    assert_eq!(r, Err(ConfigError::PreconditionViolation));
}

#[test]
fn into_result_fails_exactly_on_errors() {
    let clean = sample(300, 300, false);
    assert_eq!(validate(&clean, NOW).into_result(), Ok(()));
    let stale_only = validate(&clean, NOW + 9999);
    assert_eq!(stale_only.into_result(), Ok(()));
    let broken = build(300, 300, MIN_TENTH_ETH, MAX_5_ETH, false, NOW);
    assert_eq!(
        validate(&broken, NOW).into_result(),
        Err(ConfigError::ValidationFailure)
    );
}

#[test]
fn try_adjust_rejects_zero_amount() {
    let cfg = sample(300, 300, false);
    assert_eq!(try_adjust(0, &cfg), Err(ConfigError::PreconditionViolation));
}

#[test]
fn try_adjust_accepts_ordinary_input() {
    let cfg = sample(300, 350, false);
    let r = try_adjust(WEI, &cfg).unwrap();
    assert_eq!(r.adjustment_factor_percent, 100);
}

#[test]
fn end_to_end_normal_regime() {
    let cfg = build(300, 350, MAX_5_ETH, MIN_TENTH_ETH, false, NOW);
    let report = validate(&cfg, NOW + 5);
    assert!(report.warnings.is_empty());
    assert!(report.errors.is_empty());
    let amount = 2_500_000_000_000_000_000u128;
    let r = adjust(amount, &cfg);
    assert_eq!(r.adjustment_factor_percent, 100);
    assert_eq!(r.adjusted_amount, amount);
    assert_eq!(r.final_amount, amount);
    assert_eq!(r.capped, CapStatus::Uncapped);
}

#[test]
fn messages_are_descriptive() {
    assert_eq!(
        ValidationError::ExceedsEmergencyThreshold.message(),
        "Current volatility exceeds emergency threshold"
    );
    assert_eq!(
        ValidationError::MaxNotAboveMin.message(),
        "Max execution size must be greater than min execution size"
    );
    assert_eq!(
        ValidationWarning::VolatilityFarAboveBaseline.message(),
        "Current volatility is more than 3x baseline - consider conservative mode"
    );
    assert_eq!(
        ValidationWarning::ConfigurationStale.message(),
        "Configuration is more than 1 hour old"
    );
    assert_eq!(ConfigError::MalformedInput.message(), "Invalid JSON format");
    assert_eq!(
        ConfigError::ValidationFailure.message(),
        "Configuration validation failed"
    );
}
