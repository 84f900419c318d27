//! The configuration validator: a fixed rule set producing ordered
//! warnings and errors.

use vstd::prelude::*;
use crate::errors::ConfigError;
use crate::schema::VolatilityConfig;

verus! {

/// A non-fatal finding: the record is usable but questionable.
#[derive(Clone, Copy, Debug, PartialEq, Eq, Structural)]
pub enum ValidationWarning {
    /// Current volatility is more than three times the baseline.
    VolatilityFarAboveBaseline,
    /// More than one hour has passed since `last_update_time`.
    ConfigurationStale,
}

/// A fatal finding: the record must not be used.
#[derive(Clone, Copy, Debug, PartialEq, Eq, Structural)]
pub enum ValidationError {
    /// Current volatility exceeds the emergency threshold.
    ExceedsEmergencyThreshold,
    /// The maximum execution size does not exceed the minimum.
    MaxNotAboveMin,
}

/// Rule 1: warn when current volatility is more than 3x the baseline.
pub open spec fn warns_far_above_baseline(cfg: VolatilityConfig) -> bool {
    cfg.current_volatility > 3 * cfg.baseline_volatility
}

/// Rule 2: error when current volatility exceeds the emergency threshold.
pub open spec fn errs_emergency(cfg: VolatilityConfig) -> bool {
    cfg.current_volatility > cfg.emergency_threshold
}

/// Rule 3: error when the maximum size does not exceed the minimum.
pub open spec fn errs_size_order(cfg: VolatilityConfig) -> bool {
    cfg.max_execution_size <= cfg.min_execution_size
}

/// Rule 4: warn when the record is stale, that is more than one hour old.
pub open spec fn warns_stale(cfg: VolatilityConfig, now: u64) -> bool {
    now - cfg.last_update_time > 3600
}

/// The warnings `validate` reports, in rule order.
pub open spec fn expected_warnings(cfg: VolatilityConfig, now: u64) -> Seq<ValidationWarning> {
    (if warns_far_above_baseline(cfg) {
        seq![ValidationWarning::VolatilityFarAboveBaseline]
    } else {
        Seq::empty()
    }) + (if warns_stale(cfg, now) {
        seq![ValidationWarning::ConfigurationStale]
    } else {
        Seq::empty()
    })
}

/// The errors `validate` reports, in rule order.
pub open spec fn expected_errors(cfg: VolatilityConfig) -> Seq<ValidationError> {
    (if errs_emergency(cfg) {
        seq![ValidationError::ExceedsEmergencyThreshold]
    } else {
        Seq::empty()
    }) + (if errs_size_order(cfg) {
        seq![ValidationError::MaxNotAboveMin]
    } else {
        Seq::empty()
    })
}

/// The complete outcome of one validation pass: every warning and every
/// error, so the caller sees the whole diagnostic picture at once.
pub struct ValidationReport {
    pub warnings: Vec<ValidationWarning>,
    pub errors: Vec<ValidationError>,
}

impl ValidationReport {
    /// A report with no errors means the record is valid; warnings alone
    /// do not fail validation.
    pub fn is_valid(&self) -> (r: bool)
        ensures
            r <==> self.errors@.len() == 0,
    {
        self.errors.len() == 0
    }

    /// The overall verdict the caller must surface: a failure exactly when
    /// the report holds at least one error, while warnings alone pass.
    pub fn into_result(&self) -> (r: Result<(), ConfigError>)
        ensures
            (r is Ok) <==> self.errors@.len() == 0,
            r matches Err(e) ==> e == ConfigError::ValidationFailure,
    {
        if self.errors.len() == 0 {
            Ok(())
        } else {
            Err(ConfigError::ValidationFailure)
        }
    }
}

/// Inspects a loaded record against the fixed rule set. All four rules are
/// evaluated independently, never short-circuited, and the findings come
/// back in rule order. `now` is the caller's wall-clock reading in Unix
/// seconds; a record stamped in the future is not stale.
pub fn validate(cfg: &VolatilityConfig, now: u64) -> (r: ValidationReport)
    ensures
        r.warnings@ == expected_warnings(*cfg, now),
        r.errors@ == expected_errors(*cfg),
{
    let mut warnings: Vec<ValidationWarning> = Vec::new();
    let mut errors: Vec<ValidationError> = Vec::new();

    if (cfg.current_volatility as u128) > 3 * (cfg.baseline_volatility as u128) {
        warnings.push(ValidationWarning::VolatilityFarAboveBaseline);
    }
    if cfg.current_volatility > cfg.emergency_threshold {
        errors.push(ValidationError::ExceedsEmergencyThreshold);
    }
    if cfg.max_execution_size <= cfg.min_execution_size {
        errors.push(ValidationError::MaxNotAboveMin);
    }
    if now > cfg.last_update_time && now - cfg.last_update_time > 3600 {
        warnings.push(ValidationWarning::ConfigurationStale);
    }

    proof {
        assert(warnings@ =~= expected_warnings(*cfg, now));
        assert(errors@ =~= expected_errors(*cfg));
    }
    ValidationReport { warnings, errors }
}

impl ValidationWarning {
    /// A descriptive message for reporting to the caller.
    pub fn message(&self) -> (m: &'static str)
        ensures
            *self is VolatilityFarAboveBaseline ==> m@ == "Current volatility is more than 3x baseline - consider conservative mode"@,
            *self is ConfigurationStale ==> m@ == "Configuration is more than 1 hour old"@,
    {
        match self {
            ValidationWarning::VolatilityFarAboveBaseline => {
                "Current volatility is more than 3x baseline - consider conservative mode"
            },
            ValidationWarning::ConfigurationStale => "Configuration is more than 1 hour old",
        }
    }
}

impl ValidationError {
    /// A descriptive message for reporting to the caller.
    pub fn message(&self) -> (m: &'static str)
        ensures
            *self is ExceedsEmergencyThreshold ==> m@ == "Current volatility exceeds emergency threshold"@,
            *self is MaxNotAboveMin ==> m@ == "Max execution size must be greater than min execution size"@,
    {
        match self {
            ValidationError::ExceedsEmergencyThreshold => {
                "Current volatility exceeds emergency threshold"
            },
            ValidationError::MaxNotAboveMin => {
                "Max execution size must be greater than min execution size"
            },
        }
    }
}

/// A fresh, internally consistent record sitting at its own baseline
/// validates cleanly: no warnings and no errors.
pub proof fn lemma_validate_clean(cfg: VolatilityConfig, now: u64)
    requires
        cfg.derived_consistent(),
        cfg.current_volatility == cfg.baseline_volatility,
        cfg.max_execution_size > cfg.min_execution_size,
        now - cfg.last_update_time <= 3600,
    ensures
        expected_warnings(cfg, now) =~= Seq::<ValidationWarning>::empty(),
        expected_errors(cfg) =~= Seq::<ValidationError>::empty(),
{
}

/// A record whose current volatility exceeds its emergency threshold
/// draws at least one error.
pub proof fn lemma_validate_emergency(cfg: VolatilityConfig)
    requires
        cfg.current_volatility > cfg.emergency_threshold,
    ensures
        expected_errors(cfg).len() >= 1,
        expected_errors(cfg)[0] == ValidationError::ExceedsEmergencyThreshold,
{
}

} // verus!
