use trade_engine::market::MarketData;
use trade_engine::quote_line::{parse_market_line, read_market_data};

fn parsed(line: &str) -> Option<(String, u64)> {
    parse_market_line(line).map(|d| (d.symbol, d.price))
}

#[test]
fn whole_price() {
    assert_eq!(parsed("AAPL,150"), Some(("AAPL".to_string(), 15_000)));
}

#[test]
fn price_with_one_decimal() {
    assert_eq!(parsed("AAPL,150.5"), Some(("AAPL".to_string(), 15_050)));
}

#[test]
fn price_with_two_decimals() {
    assert_eq!(parsed("MSFT,280.25"), Some(("MSFT".to_string(), 28_025)));
    assert_eq!(parsed("MSFT,0.07"), Some(("MSFT".to_string(), 7)));
}

#[test]
fn price_texts_in_whole_cents() {
    assert_eq!(parsed("AAPL,150.000"), Some(("AAPL".to_string(), 15_000)));
    assert_eq!(parsed("AAPL,150.250"), Some(("AAPL".to_string(), 15_025)));
    assert_eq!(parsed("AAPL,150."), Some(("AAPL".to_string(), 15_000)));
    assert_eq!(parsed("AAPL,.5"), Some(("AAPL".to_string(), 50)));
    assert_eq!(parsed("AAPL,+150"), Some(("AAPL".to_string(), 15_000)));
    assert_eq!(parsed("AAPL,+.05"), Some(("AAPL".to_string(), 5)));
    assert_eq!(parsed("AAPL,007.10"), Some(("AAPL".to_string(), 710)));
}

#[test]
fn malformed_lines_are_skipped() {
    assert_eq!(parsed("AAPL,abc"), None);
    assert_eq!(parsed("symbol,price"), None);
    assert_eq!(parsed("AAPL,"), None);
    assert_eq!(parsed("AAPL,."), None);
    assert_eq!(parsed("AAPL,+"), None);
    assert_eq!(parsed("AAPL,++1"), None);
    assert_eq!(parsed("AAPL,1.2.3"), None);
    assert_eq!(parsed(",150"), None);
    assert_eq!(parsed("AAPL,1,2"), None);
    assert_eq!(parsed("AAPL 150"), None);
    assert_eq!(parsed(""), None);
}

#[test]
fn sub_cent_exponent_and_negative_prices_are_skipped() {
    assert_eq!(parsed("AAPL,150.255"), None);
    assert_eq!(parsed("AAPL,150.0001"), None);
    assert_eq!(parsed("AAPL,1e2"), None);
    assert_eq!(parsed("AAPL,inf"), None);
    assert_eq!(parsed("AAPL,NaN"), None);
    assert_eq!(parsed("AAPL,-3"), None);
}

#[test]
fn largest_price_fits_and_one_more_does_not() {
    assert_eq!(parsed("X,184467440737095516.15"), Some(("X".to_string(), u64::MAX)));
    assert_eq!(parsed("X,184467440737095516.16"), None);
    assert_eq!(parsed("X,99999999999999999999999"), None);
}

#[test]
fn file_lines_become_a_snapshot() {
    let lines = vec![
        "AAPL,150.00".to_string(),
        "junk".to_string(),
        "MSFT,280".to_string(),
        "GOOG,n/a".to_string(),
    ];
    let data = read_market_data(&lines);
    assert_eq!(
        data,
        vec![
            MarketData { symbol: "AAPL".to_string(), price: 15_000 },
            MarketData { symbol: "MSFT".to_string(), price: 28_000 },
        ]
    );
    assert!(read_market_data(&[]).is_empty());
}
