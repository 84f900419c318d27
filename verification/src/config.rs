//! The tool-wide configuration: network selection, contract addresses and
//! per-strategy defaults.

use vstd::prelude::*;
use vstd::string::StringExecFns;

verus! {

/// The top-level tool configuration.
pub struct VectorPlusConfig {
    pub network: String,
    pub rpc_url: Option<String>,
    pub contracts: ContractConfig,
    pub defaults: DefaultConfig,
}

/// Optional addresses of the deployed calculator contracts.
pub struct ContractConfig {
    pub volatility_calculator: Option<String>,
    pub twap_executor: Option<String>,
    pub options_calculator: Option<String>,
}

/// Default parameters for each strategy family.
pub struct DefaultConfig {
    pub volatility: VolatilityDefaults,
    pub twap: TwapDefaults,
    pub options: OptionsDefaults,
}

/// Defaults for the volatility strategy. The sizes are minor-unit decimal
/// strings, as persisted.
pub struct VolatilityDefaults {
    pub baseline_volatility: u64,
    pub max_execution_size: String,
    pub min_execution_size: String,
    pub conservative_mode: bool,
}

/// Defaults for the time-weighted average price strategy.
pub struct TwapDefaults {
    pub duration: u64,
    pub intervals: u32,
    pub randomize_execution: bool,
    pub adaptive_intervals: bool,
}

/// Defaults for the options strategy, rates in basis points.
pub struct OptionsDefaults {
    pub default_expiration_hours: u64,
    pub implied_volatility: u64,
    pub risk_free_rate: u64,
}

impl Default for VectorPlusConfig {
    /// The stock configuration: mainnet, no contract addresses, and the
    /// documented per-strategy defaults.
    fn default() -> (r: Self)
        ensures
            r.network@ == "mainnet"@,
            r.rpc_url is None,
            r.contracts.volatility_calculator is None,
            r.contracts.twap_executor is None,
            r.contracts.options_calculator is None,
            r.defaults.volatility.baseline_volatility == 300,
            r.defaults.volatility.max_execution_size@ == "5000000000000000000"@,
            r.defaults.volatility.min_execution_size@ == "100000000000000000"@,
            r.defaults.volatility.conservative_mode == false,
            r.defaults.twap.duration == 7200,
            r.defaults.twap.intervals == 12,
            r.defaults.twap.randomize_execution == true,
            r.defaults.twap.adaptive_intervals == true,
            r.defaults.options.default_expiration_hours == 168,
            r.defaults.options.implied_volatility == 8000,
            r.defaults.options.risk_free_rate == 300,
    {
        VectorPlusConfig {
            network: String::from_str("mainnet"),
            rpc_url: None,
            contracts: ContractConfig {
                volatility_calculator: None,
                twap_executor: None,
                options_calculator: None,
            },
            defaults: DefaultConfig {
                volatility: VolatilityDefaults {
                    baseline_volatility: 300,
                    max_execution_size: String::from_str("5000000000000000000"),
                    min_execution_size: String::from_str("100000000000000000"),
                    conservative_mode: false,
                },
                twap: TwapDefaults {
                    duration: 7200,
                    intervals: 12,
                    randomize_execution: true,
                    adaptive_intervals: true,
                },
                options: OptionsDefaults {
                    default_expiration_hours: 168,
                    implied_volatility: 8000,
                    risk_free_rate: 300,
                },
            },
        }
    }
}

} // verus!
