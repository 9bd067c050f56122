use trade_engine::holdings::Holding;
use trade_engine::market::{find_market_price, MarketData};
use trade_engine::order::{execution_price, Order, OrderType};
use trade_engine::portfolio::{Portfolio, Settlement};

fn quote(symbol: &str, price: u64) -> MarketData {
    MarketData { symbol: symbol.to_string(), price }
}

fn order(symbol: &str, quantity: i32, order_type: OrderType) -> Order {
    Order { symbol: symbol.to_string(), quantity, order_type }
}

fn held(p: &Portfolio, symbol: &str) -> i32 {
    p.holding(&symbol.to_string())
}

fn snapshot() -> Vec<MarketData> {
    vec![quote("AAPL", 15_000), quote("MSFT", 28_000)]
}

#[test]
fn three_order_session() {
    let market = snapshot();
    let mut p = Portfolio::new(1_000_000);

    let r = p.submit_order(&order("AAPL", 1, OrderType::Market), &market);
    assert_eq!(r, Settlement::Bought);
    assert_eq!(p.holdings, vec![Holding { symbol: "AAPL".to_string(), quantity: 1 }]);
    assert_eq!(p.cash, 985_000);
    assert_eq!(p.calculate_profit_loss(&market), Some(0));

    let r = p.submit_order(&order("MSFT", 2, OrderType::Limit(28_000)), &market);
    assert_eq!(r, Settlement::Bought);
    assert_eq!(held(&p, "AAPL"), 1);
    assert_eq!(held(&p, "MSFT"), 2);
    assert_eq!(p.holdings.len(), 2);
    assert_eq!(p.cash, 929_000);
    assert_eq!(p.calculate_profit_loss(&market), Some(0));

    let before = p.clone();
    let r = p.submit_order(&order("AAPL", -1, OrderType::Limit(28_000)), &market);
    assert_eq!(r, Settlement::LimitNotMet);
    assert_eq!(p, before);
    assert_eq!(p.cash, 929_000);
}

#[test]
fn buy_takes_exact_value_out_of_cash() {
    let mut p = Portfolio::new(100_000);
    let r = p.execute_order(&order("AAPL", 3, OrderType::Market), 12_345);
    assert_eq!(r, Settlement::Bought);
    assert_eq!(p.cash, 100_000 - 3 * 12_345);
    assert_eq!(held(&p, "AAPL"), 3);
    assert_eq!(p.initial_cash, 100_000);
}

#[test]
fn sell_puts_exact_value_into_cash() {
    let mut p = Portfolio::new(100_000);
    p.execute_order(&order("AAPL", 5, OrderType::Market), 1_000);
    let r = p.execute_order(&order("AAPL", -2, OrderType::Market), 1_500);
    assert_eq!(r, Settlement::Sold);
    assert_eq!(p.cash, 100_000 - 5_000 + 3_000);
    assert_eq!(held(&p, "AAPL"), 3);
}

#[test]
fn buy_with_exactly_enough_cash_goes_through() {
    let mut p = Portfolio::new(30_000);
    let r = p.execute_order(&order("AAPL", 2, OrderType::Market), 15_000);
    assert_eq!(r, Settlement::Bought);
    assert_eq!(p.cash, 0);
}

#[test]
fn buy_without_enough_cash_changes_nothing() {
    let mut p = Portfolio::new(29_999);
    let before = p.clone();
    let r = p.execute_order(&order("AAPL", 2, OrderType::Market), 15_000);
    assert_eq!(r, Settlement::InsufficientCash);
    assert_eq!(p, before);
    assert!(p.holdings.is_empty());
}

#[test]
fn sell_without_enough_shares_changes_nothing() {
    let mut p = Portfolio::new(100_000);
    p.execute_order(&order("AAPL", 1, OrderType::Market), 1_000);
    let before = p.clone();
    let r = p.execute_order(&order("AAPL", -2, OrderType::Market), 1_000);
    assert_eq!(r, Settlement::InsufficientShares);
    assert_eq!(p, before);
}

#[test]
fn sell_of_symbol_never_held_adds_no_entry() {
    let mut p = Portfolio::new(100_000);
    let r = p.execute_order(&order("IBM", -1, OrderType::Market), 1_000);
    assert_eq!(r, Settlement::InsufficientShares);
    assert!(p.holdings.is_empty());
    assert_eq!(p.cash, 100_000);
}

#[test]
fn selling_everything_leaves_a_zero_entry() {
    let mut p = Portfolio::new(100_000);
    p.execute_order(&order("AAPL", 4, OrderType::Market), 1_000);
    let r = p.execute_order(&order("AAPL", -4, OrderType::Market), 1_000);
    assert_eq!(r, Settlement::Sold);
    assert_eq!(p.holdings, vec![Holding { symbol: "AAPL".to_string(), quantity: 0 }]);
    assert_eq!(p.cash, 100_000);
}

#[test]
fn holdings_stay_nonnegative_over_a_run() {
    let mut p = Portfolio::new(50_000);
    let orders = vec![
        order("AAPL", 3, OrderType::Market),
        order("AAPL", -5, OrderType::Market),
        order("AAPL", -3, OrderType::Market),
        order("AAPL", -1, OrderType::Market),
        order("MSFT", -1, OrderType::Market),
    ];
    for o in &orders {
        p.execute_order(o, 1_000);
        assert!(held(&p, "AAPL") >= 0);
        assert!(held(&p, "MSFT") >= 0);
    }
    assert_eq!(held(&p, "AAPL"), 0);
    assert_eq!(p.cash, 50_000);
}

#[test]
fn zero_quantity_is_a_no_op() {
    let mut p = Portfolio::new(10_000);
    let before = p.clone();
    assert_eq!(p.execute_order(&order("AAPL", 0, OrderType::Market), 100), Settlement::NoOp);
    assert_eq!(p, before);
    assert_eq!(
        p.execute_order(&order("AAPL", 0, OrderType::Limit(100)), 100),
        Settlement::NoOp
    );
    assert_eq!(p, before);
}

#[test]
fn limit_buy_executes_at_or_below_its_bound() {
    for market in [0u64, 9_999, 10_000] {
        let mut p = Portfolio::new(100_000);
        let r = p.execute_order(&order("AAPL", 1, OrderType::Limit(10_000)), market);
        assert_eq!(r, Settlement::Bought);
    }
    let mut p = Portfolio::new(100_000);
    let before = p.clone();
    let r = p.execute_order(&order("AAPL", 1, OrderType::Limit(10_000)), 10_001);
    assert_eq!(r, Settlement::LimitNotMet);
    assert_eq!(p, before);
}

#[test]
fn limit_sell_executes_at_or_above_its_bound() {
    for market in [10_000u64, 10_001, u64::MAX] {
        let mut p = Portfolio::new(0);
        p.execute_order(&order("AAPL", 1, OrderType::Market), 0);
        let r = p.execute_order(&order("AAPL", -1, OrderType::Limit(10_000)), market);
        assert_eq!(r, Settlement::Sold);
    }
    let mut p = Portfolio::new(0);
    p.execute_order(&order("AAPL", 1, OrderType::Market), 0);
    let before = p.clone();
    let r = p.execute_order(&order("AAPL", -1, OrderType::Limit(10_000)), 9_999);
    assert_eq!(r, Settlement::LimitNotMet);
    assert_eq!(p, before);
}

#[test]
fn limit_order_settles_at_its_bound() {
    let mut p = Portfolio::new(100_000);
    let r = p.execute_order(&order("AAPL", 2, OrderType::Limit(30_000)), 28_000);
    assert_eq!(r, Settlement::Bought);
    assert_eq!(p.cash, 40_000);
    assert_eq!(execution_price(&order("AAPL", 2, OrderType::Limit(30_000)), 28_000), Some(30_000));
    assert_eq!(execution_price(&order("AAPL", -2, OrderType::Limit(30_000)), 28_000), None);
    assert_eq!(execution_price(&order("AAPL", -2, OrderType::Market), 28_000), Some(28_000));
}

#[test]
fn order_without_quote_is_skipped() {
    let market = snapshot();
    let mut p = Portfolio::new(100_000);
    let before = p.clone();
    let r = p.submit_order(&order("IBM", 1, OrderType::Market), &market);
    assert_eq!(r, Settlement::MarketDataMissing);
    assert_eq!(p, before);
}

#[test]
fn first_quote_of_a_symbol_wins() {
    let market = vec![quote("AAPL", 100), quote("MSFT", 200), quote("AAPL", 300)];
    assert_eq!(find_market_price(&market, &"AAPL".to_string()), Some(100));
    assert_eq!(find_market_price(&market, &"MSFT".to_string()), Some(200));
    assert_eq!(find_market_price(&market, &"IBM".to_string()), None);
    assert_eq!(find_market_price(&[], &"AAPL".to_string()), None);
}

#[test]
fn holding_overflow_is_rejected() {
    let mut p = Portfolio::new(10);
    assert_eq!(p.execute_order(&order("X", i32::MAX, OrderType::Market), 0), Settlement::Bought);
    let before = p.clone();
    assert_eq!(p.execute_order(&order("X", 1, OrderType::Market), 0), Settlement::HoldingOverflow);
    assert_eq!(p, before);
}

#[test]
fn cash_overflow_is_rejected() {
    let mut p = Portfolio::new(u64::MAX);
    assert_eq!(p.execute_order(&order("X", 1, OrderType::Market), 0), Settlement::Bought);
    let before = p.clone();
    assert_eq!(p.execute_order(&order("X", -1, OrderType::Market), 1), Settlement::CashOverflow);
    assert_eq!(p, before);
}
