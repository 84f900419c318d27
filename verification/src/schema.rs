//! The configuration record and its builder.

use vstd::prelude::*;

verus! {

/// One volatility configuration record: the single persisted entity.
///
/// Volatilities and thresholds are in basis points; the two execution sizes
/// are integers in minor units (10^-18 of a whole unit); `last_update_time`
/// is Unix seconds.
#[derive(Clone, Copy, Debug, PartialEq, Eq, Structural)]
pub struct VolatilityConfig {
    pub baseline_volatility: u64,
    pub current_volatility: u64,
    pub max_execution_size: u128,
    pub min_execution_size: u128,
    pub volatility_threshold: u64,
    pub conservative_mode: bool,
    pub emergency_threshold: u64,
    pub last_update_time: u64,
}

impl VolatilityConfig {
    /// The derived thresholds agree with the baseline, as the builder
    /// leaves them.
    pub open spec fn derived_consistent(self) -> bool {
        &&& self.volatility_threshold == 2 * self.baseline_volatility
        &&& self.emergency_threshold == 4 * self.baseline_volatility
    }
}

/// The record `build` returns for the given inputs.
pub open spec fn spec_build(
    baseline_volatility: u64,
    current_volatility: u64,
    max_execution_size: u128,
    min_execution_size: u128,
    conservative_mode: bool,
    now: u64,
) -> VolatilityConfig {
    VolatilityConfig {
        baseline_volatility,
        current_volatility,
        max_execution_size,
        min_execution_size,
        volatility_threshold: (2 * baseline_volatility) as u64,
        conservative_mode,
        emergency_threshold: (4 * baseline_volatility) as u64,
        last_update_time: now,
    }
}

/// Derives a full configuration record from the user-supplied baseline
/// inputs, filling the two thresholds and the timestamp.
///
/// The builder checks no bound between the two sizes: building an
/// inconsistent record is legal, and consistency is enforced only at
/// validation time. `now` is the caller's wall-clock reading in Unix
/// seconds.
pub fn build(
    baseline_volatility: u64,
    current_volatility: u64,
    max_execution_size: u128,
    min_execution_size: u128,
    conservative_mode: bool,
    now: u64,
) -> (cfg: VolatilityConfig)
    requires
        baseline_volatility <= u64::MAX / 4,
    ensures
        cfg == spec_build(
            baseline_volatility,
            current_volatility,
            max_execution_size,
            min_execution_size,
            conservative_mode,
            now,
        ),
        cfg.derived_consistent(),
{
    VolatilityConfig {
        baseline_volatility,
        current_volatility,
        max_execution_size,
        min_execution_size,
        volatility_threshold: baseline_volatility * 2,
        conservative_mode,
        emergency_threshold: baseline_volatility * 4,
        last_update_time: now,
    }
}

/// Every record the builder produces carries the two derived thresholds:
/// `volatility_threshold` is twice the baseline and `emergency_threshold`
/// four times the baseline.
pub proof fn lemma_build_thresholds(
    baseline_volatility: u64,
    current_volatility: u64,
    max_execution_size: u128,
    min_execution_size: u128,
    conservative_mode: bool,
    now: u64,
)
    requires
        baseline_volatility <= u64::MAX / 4,
    ensures
        spec_build(
            baseline_volatility,
            current_volatility,
            max_execution_size,
            min_execution_size,
            conservative_mode,
            now,
        ).volatility_threshold == 2 * baseline_volatility,
        spec_build(
            baseline_volatility,
            current_volatility,
            max_execution_size,
            min_execution_size,
            conservative_mode,
            now,
        ).emergency_threshold == 4 * baseline_volatility,
{
}

} // verus!
