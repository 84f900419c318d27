//! The adjustment calculator: a bounded, volatility-scaled execution
//! amount from a trade amount and a configuration record.

use vstd::prelude::*;
use crate::errors::ConfigError;
use crate::schema::VolatilityConfig;

verus! {

/// Whether the clamp to the configured bounds changed the adjusted amount.
#[derive(Clone, Copy, Debug, PartialEq, Eq, Structural)]
pub enum CapStatus {
    /// The adjusted amount already lay within the bounds.
    Uncapped,
    /// The adjusted amount was cut down to the maximum.
    AtMax,
    /// The adjusted amount was raised to the minimum.
    AtMin,
}

/// Everything one adjustment computes. Amounts are in minor units.
#[derive(Clone, Copy, Debug, PartialEq, Eq, Structural)]
pub struct AdjustmentResult {
    pub adjustment_factor_percent: u64,
    pub adjusted_amount: u128,
    pub final_amount: u128,
    pub min_allowed: u128,
    pub max_allowed: u128,
    pub capped: CapStatus,
}

/// The integer adjustment factor, in percent, for the record's volatility
/// regime. Low volatility boosts the trade up to 150%, high volatility cuts
/// it down to 50%, and the normal regime keeps 100% unless conservative
/// mode scales it to 90%. All ratios use floor division on basis points.
/// Meaningful only for a positive baseline.
pub open spec fn spec_factor(cfg: VolatilityConfig) -> int {
    if cfg.current_volatility <= cfg.baseline_volatility {
        let boost = (cfg.baseline_volatility - cfg.current_volatility) * 50
            / (cfg.baseline_volatility as int);
        100 + (if boost > 50 { 50 as int } else { boost })
    } else if cfg.current_volatility > cfg.volatility_threshold {
        let reduction = (cfg.current_volatility - cfg.baseline_volatility) * 50
            / (cfg.baseline_volatility as int);
        100 - (if reduction > 50 { 50 as int } else { reduction })
    } else {
        if cfg.conservative_mode {
            90 as int
        } else {
            100 as int
        }
    }
}

/// The amount scaled by the factor, floor-divided back to percent.
pub open spec fn spec_adjusted(amount: u128, cfg: VolatilityConfig) -> int {
    amount * spec_factor(cfg) / 100
}

/// Clamp as the calculator applies it: raise to `lo`, then cut to `hi`.
/// When `lo > hi` the cut wins and the result is `hi`.
pub open spec fn spec_clamp(a: int, lo: int, hi: int) -> int {
    let raised = if a < lo {
        lo
    } else {
        a
    };
    if raised > hi {
        hi
    } else {
        raised
    }
}

/// The final execution amount: the adjusted amount clamped to the
/// configured size bounds.
pub open spec fn spec_final(amount: u128, cfg: VolatilityConfig) -> int {
    spec_clamp(
        spec_adjusted(amount, cfg),
        cfg.min_execution_size as int,
        cfg.max_execution_size as int,
    )
}

/// Which bound, if any, the clamp applied.
pub open spec fn spec_capped(amount: u128, cfg: VolatilityConfig) -> CapStatus {
    let adjusted = spec_adjusted(amount, cfg);
    let fin = spec_final(amount, cfg);
    if fin == cfg.max_execution_size && fin != adjusted {
        CapStatus::AtMax
    } else if fin == cfg.min_execution_size && fin != adjusted {
        CapStatus::AtMin
    } else {
        CapStatus::Uncapped
    }
}

/// The complete result `adjust` returns.
pub open spec fn spec_adjust(amount: u128, cfg: VolatilityConfig) -> AdjustmentResult {
    AdjustmentResult {
        adjustment_factor_percent: spec_factor(cfg) as u64,
        adjusted_amount: spec_adjusted(amount, cfg) as u128,
        final_amount: spec_final(amount, cfg) as u128,
        min_allowed: cfg.min_execution_size,
        max_allowed: cfg.max_execution_size,
        capped: spec_capped(amount, cfg),
    }
}

/// Computes the bounded, volatility-scaled execution amount for a trade of
/// `amount` minor units under `cfg`.
///
/// A zero baseline makes the regime ratios undefined, so the caller must
/// reject such a record first; `try_adjust` does that check. The bound on
/// `amount` is what the 128-bit scaling arithmetic forces.
pub fn adjust(amount: u128, cfg: &VolatilityConfig) -> (r: AdjustmentResult)
    requires
        cfg.baseline_volatility > 0,
        amount > 0,
        amount <= u128::MAX / 150,
    ensures
        r == spec_adjust(amount, *cfg),
        50 <= r.adjustment_factor_percent <= 150,
{
    let base = cfg.baseline_volatility as u128;
    let cur = cfg.current_volatility as u128;

    let adjustment_factor: u64 = if cfg.current_volatility <= cfg.baseline_volatility {
        let boost = (base - cur) * 50 / base;
        let boost = if boost > 50 {
            50
        } else {
            boost
        };
        100 + (boost as u64)
    } else if cfg.current_volatility > cfg.volatility_threshold {
        let reduction = (cur - base) * 50 / base;
        let reduction = if reduction > 50 {
            50
        } else {
            reduction
        };
        100 - (reduction as u64)
    } else {
        if cfg.conservative_mode {
            90
        } else {
            100
        }
    };

    proof {
        assert(adjustment_factor == spec_factor(*cfg));
        vstd::arithmetic::mul::lemma_mul_inequality(
            amount as int,
            u128::MAX as int / 150,
            adjustment_factor as int,
        );
        vstd::arithmetic::mul::lemma_mul_inequality(
            adjustment_factor as int,
            150,
            u128::MAX as int / 150,
        );
        vstd::arithmetic::div_mod::lemma_fundamental_div_mod(u128::MAX as int, 150);
        assert(amount * adjustment_factor <= u128::MAX);
    }
    let adjusted_amount = amount * (adjustment_factor as u128) / 100;

    let min_allowed = cfg.min_execution_size;
    let max_allowed = cfg.max_execution_size;

    let raised = if adjusted_amount < min_allowed {
        min_allowed
    } else {
        adjusted_amount
    };
    let final_amount = if raised > max_allowed {
        max_allowed
    } else {
        raised
    };

    let capped = if final_amount == max_allowed && final_amount != adjusted_amount {
        CapStatus::AtMax
    } else if final_amount == min_allowed && final_amount != adjusted_amount {
        CapStatus::AtMin
    } else {
        CapStatus::Uncapped
    };

    AdjustmentResult {
        adjustment_factor_percent: adjustment_factor,
        adjusted_amount,
        final_amount,
        min_allowed,
        max_allowed,
        capped,
    }
}

/// `adjust` behind its precondition checks: rejects a zero baseline, a
/// non-positive amount, and an amount too large for the scaling
/// arithmetic, instead of computing nonsensical output.
pub fn try_adjust(amount: u128, cfg: &VolatilityConfig) -> (r: Result<
    AdjustmentResult,
    ConfigError,
>)
    ensures
        (r is Ok) <==> (cfg.baseline_volatility > 0 && 0 < amount && amount <= u128::MAX / 150),
        r matches Ok(a) ==> a == spec_adjust(amount, *cfg),
        r matches Err(e) ==> e == ConfigError::PreconditionViolation,
{
    if cfg.baseline_volatility == 0 || amount == 0 || amount > u128::MAX / 150 {
        Err(ConfigError::PreconditionViolation)
    } else {
        Ok(adjust(amount, cfg))
    }
}

/// Clamping lands inside the bounds whenever the bounds are ordered.
pub proof fn lemma_clamp_within(a: int, lo: int, hi: int)
    requires
        lo <= hi,
    ensures
        lo <= spec_clamp(a, lo, hi) <= hi,
{
}

/// The final amount always lies within `[min_allowed, max_allowed]`
/// inclusive, whatever the adjusted amount, provided the record's minimum
/// does not exceed its maximum.
pub proof fn lemma_final_within_bounds(amount: u128, cfg: VolatilityConfig)
    requires
        cfg.min_execution_size <= cfg.max_execution_size,
    ensures
        cfg.min_execution_size <= spec_final(amount, cfg) <= cfg.max_execution_size,
{
    lemma_clamp_within(
        spec_adjusted(amount, cfg),
        cfg.min_execution_size as int,
        cfg.max_execution_size as int,
    );
}

} // verus!
