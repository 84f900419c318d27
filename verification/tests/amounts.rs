use vector_plus::utils::{format_wei_to_eth, parse_eth_amount};

const WEI: u128 = 1_000_000_000_000_000_000;

#[test]
fn formats_whole_amounts_without_a_dot() {
    assert_eq!(format_wei_to_eth(0), "0");
    assert_eq!(format_wei_to_eth(5 * WEI), "5");
    assert_eq!(format_wei_to_eth(120 * WEI), "120");
}

#[test]
fn formats_fractions_without_trailing_zeros() {
    assert_eq!(format_wei_to_eth(2_500_000_000_000_000_000), "2.5");
    assert_eq!(format_wei_to_eth(100_000_000_000_000_000), "0.1");
    assert_eq!(format_wei_to_eth(1), "0.000000000000000001");
    assert_eq!(
        format_wei_to_eth(u128::MAX),
        "340282366920938463463.374607431768211455"
    );
}

#[test]
fn formatting_then_parsing_returns_the_amount() {
    let samples = [0u128, 1, 10, WEI, WEI + 1, 2_500_000_000_000_000_000, u128::MAX];
    for &wei in samples.iter() {
        assert_eq!(parse_eth_amount(&format_wei_to_eth(wei)), Some(wei));
    }
}

#[test]
fn parses_integer_amounts() {
    assert_eq!(parse_eth_amount("5"), Some(5 * WEI));
    assert_eq!(parse_eth_amount("0"), Some(0));
    assert_eq!(parse_eth_amount("007"), Some(7 * WEI));
}

#[test]
fn parses_fractional_amounts() {
    assert_eq!(parse_eth_amount("5.0"), Some(5 * WEI));
    assert_eq!(parse_eth_amount("2.5"), Some(2_500_000_000_000_000_000));
    assert_eq!(parse_eth_amount("0.1"), Some(100_000_000_000_000_000));
    assert_eq!(parse_eth_amount("5."), Some(5 * WEI));
    assert_eq!(parse_eth_amount("0.000000000000000001"), Some(1));
}

#[test]
fn truncates_past_the_eighteenth_fractional_digit() {
    assert_eq!(parse_eth_amount("0.0000000000000000019"), Some(1));
    assert_eq!(parse_eth_amount("1.000000000000000000999"), Some(WEI));
}

#[test]
fn rejects_text_that_is_not_a_decimal_amount() {
    assert_eq!(parse_eth_amount(""), None);
    assert_eq!(parse_eth_amount("."), None);
    assert_eq!(parse_eth_amount(".5"), None);
    assert_eq!(parse_eth_amount("-1"), None);
    assert_eq!(parse_eth_amount("1e3"), None);
    assert_eq!(parse_eth_amount("1.5.2"), None);
    assert_eq!(parse_eth_amount("1,5"), None);
    assert_eq!(parse_eth_amount("five"), None);
}

#[test]
fn covers_the_whole_minor_unit_range() {
    assert_eq!(
        parse_eth_amount("340282366920938463463.374607431768211455"),
        Some(u128::MAX)
    );
    assert_eq!(parse_eth_amount("340282366920938463463.374607431768211456"), None);
    assert_eq!(parse_eth_amount("340282366920938463464"), None);
}
