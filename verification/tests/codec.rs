use vector_plus::codec::{from_json, to_json};
use vector_plus::config::VectorPlusConfig;
use vector_plus::digits::{scan_number, u128_to_dec_string};
use vector_plus::errors::ConfigError;
use vector_plus::schema::build;
use vector_plus::utils::ensure_file_exists;

const MAX_5_ETH: u128 = 5_000_000_000_000_000_000;
const MIN_TENTH_ETH: u128 = 100_000_000_000_000_000;
const NOW: u64 = 1_700_000_000;

#[test]
fn to_json_writes_the_canonical_document() {
    let cfg = build(300, 350, MAX_5_ETH, MIN_TENTH_ETH, false, NOW);
    let expected = "{\"baseline_volatility\":300,\"current_volatility\":350,\"max_execution_size\":\"5000000000000000000\",\"min_execution_size\":\"100000000000000000\",\"volatility_threshold\":600,\"conservative_mode\":false,\"emergency_threshold\":1200,\"last_update_time\":1700000000}";
    assert_eq!(to_json(&cfg), expected);
}

#[test]
fn json_round_trip_is_lossless() {
    let cfg = build(300, 350, MAX_5_ETH, MIN_TENTH_ETH, false, NOW);
    assert_eq!(from_json(&to_json(&cfg)), Ok(cfg));
    let edge = build(
        u64::MAX / 4,
        0,
        u128::MAX,
        0,
        true,
        u64::MAX,
    );
    assert_eq!(from_json(&to_json(&edge)), Ok(edge));
}

#[test]
fn to_json_output_is_valid_json_for_other_readers() {
    let cfg = build(300, 350, MAX_5_ETH, MIN_TENTH_ETH, true, NOW);
    let text = to_json(&cfg);
    let value: serde_json::Value = serde_json::from_str(&text).unwrap();
    assert_eq!(value["baseline_volatility"].as_u64(), Some(300));
    assert_eq!(value["current_volatility"].as_u64(), Some(350));
    assert_eq!(value["max_execution_size"].as_str(), Some("5000000000000000000"));
    assert_eq!(value["min_execution_size"].as_str(), Some("100000000000000000"));
    assert_eq!(value["volatility_threshold"].as_u64(), Some(600));
    assert_eq!(value["conservative_mode"].as_bool(), Some(true));
    assert_eq!(value["emergency_threshold"].as_u64(), Some(1200));
    assert_eq!(value["last_update_time"].as_u64(), Some(NOW));
    assert_eq!(value.as_object().unwrap().len(), 8);
}

#[test]
fn from_json_rejects_malformed_documents() {
    let cfg = build(300, 350, MAX_5_ETH, MIN_TENTH_ETH, false, NOW);
    let good = to_json(&cfg);
    assert!(from_json(&good).is_ok());

    let cases = [
        String::new(),
        "{}".to_string(),
        "not json at all".to_string(),
        good.replacen(":300", ":0300", 1),
        good.replacen("300", "-300", 1),
        good.replace("\"5000000000000000000\"", "\"5.0\""),
        good.replace("false", "maybe"),
        format!(" {good}"),
        format!("{good} "),
        format!("{good}}}"),
        good[..good.len() - 1].to_string(),
        good.replace("baseline_volatility", "Baseline_volatility"),
        good.replacen(":300", ": 300", 1),
        good.replacen("{", "{\n  ", 1),
    ];
    for text in cases.iter() {
        assert_eq!(from_json(text), Err(ConfigError::MalformedInput), "case: {text}");
    }
}

#[test]
fn from_json_requires_the_canonical_field_order() {
    let reordered = "{\"current_volatility\":350,\"baseline_volatility\":300,\"max_execution_size\":\"5000000000000000000\",\"min_execution_size\":\"100000000000000000\",\"volatility_threshold\":600,\"conservative_mode\":false,\"emergency_threshold\":1200,\"last_update_time\":1700000000}";
    assert_eq!(from_json(reordered), Err(ConfigError::MalformedInput));
}

#[test]
fn from_json_accepts_inconsistent_records() {
    let text = "{\"baseline_volatility\":300,\"current_volatility\":9999,\"max_execution_size\":\"1\",\"min_execution_size\":\"2\",\"volatility_threshold\":0,\"conservative_mode\":true,\"emergency_threshold\":0,\"last_update_time\":0}";
    let cfg = from_json(text).unwrap();
    assert_eq!(cfg.current_volatility, 9999);
    assert_eq!(cfg.max_execution_size, 1);
    assert_eq!(cfg.min_execution_size, 2);
    assert_eq!(cfg.volatility_threshold, 0);
}

#[test]
fn dec_strings_render_canonically() {
    assert_eq!(u128_to_dec_string(0), "0");
    assert_eq!(u128_to_dec_string(7), "7");
    assert_eq!(u128_to_dec_string(120045), "120045");
    assert_eq!(
        u128_to_dec_string(u128::MAX),
        "340282366920938463463374607431768211455"
    );
}

#[test]
fn scan_number_reads_canonical_numbers_only() {
    assert_eq!(scan_number("123,", 0), Some((123, 3)));
    assert_eq!(scan_number("0,", 0), Some((0, 1)));
    assert_eq!(scan_number("42", 0), Some((42, 2)));
    assert_eq!(scan_number("a42", 1), Some((42, 3)));
    assert_eq!(scan_number("0123", 0), None);
    assert_eq!(scan_number("x", 0), None);
    assert_eq!(scan_number("", 0), None);
    assert_eq!(scan_number("340282366920938463463374607431768211455", 0), Some((u128::MAX, 39)));
    assert_eq!(scan_number("340282366920938463463374607431768211456", 0), None);
}

#[test]
fn default_tool_config_matches_the_documented_values() {
    let cfg = VectorPlusConfig::default();
    assert_eq!(cfg.network, "mainnet");
    assert!(cfg.rpc_url.is_none());
    assert!(cfg.contracts.volatility_calculator.is_none());
    assert_eq!(cfg.defaults.volatility.baseline_volatility, 300);
    assert_eq!(cfg.defaults.volatility.max_execution_size, "5000000000000000000");
    assert_eq!(cfg.defaults.volatility.min_execution_size, "100000000000000000");
    assert!(!cfg.defaults.volatility.conservative_mode);
    assert_eq!(cfg.defaults.twap.duration, 7200);
    assert_eq!(cfg.defaults.twap.intervals, 12);
    assert!(cfg.defaults.twap.randomize_execution);
    assert!(cfg.defaults.twap.adaptive_intervals);
    assert_eq!(cfg.defaults.options.default_expiration_hours, 168);
    assert_eq!(cfg.defaults.options.implied_volatility, 8000);
    assert_eq!(cfg.defaults.options.risk_free_rate, 300);
}

#[test]
fn ensure_file_exists_reports_missing_paths() {
    assert_eq!(ensure_file_exists("."), Ok(()));
    assert_eq!(
        ensure_file_exists("surely/not/a/real/path.json"),
        Err(ConfigError::MissingFile)
    );
}
