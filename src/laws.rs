use vstd::prelude::*;

use crate::holdings::{held, holdings_map, lemma_map_nonnegative};
use crate::market::MarketData;
use crate::order::{Order, OrderType, limit_favorable};
use crate::portfolio::{Portfolio, Settlement, market_value};

verus! {

/// Cash moves by exactly the order's value: an accepted buy of `quantity`
/// shares at `price` takes `price * quantity` out of cash, an accepted sell
/// puts `price * -quantity` in, and any other outcome leaves cash and
/// holdings exactly as they were. A buy or sell that cash and shares cover
/// is accepted unless its result would not fit the integer types: a holding
/// above `i32::MAX` or a cash balance above `u64::MAX`.
pub proof fn lemma_cash_conservation(
    before: Portfolio,
    after: Portfolio,
    symbol: Seq<char>,
    quantity: int,
    price: u64,
    r: Settlement,
)
    requires
        before.settled(after, symbol, quantity, price, r),
    ensures
        r == Settlement::Bought ==> quantity > 0 && after.cash == before.cash - price * quantity,
        r == Settlement::Sold ==> quantity < 0 && after.cash == before.cash + price * (-quantity),
        !(r == Settlement::Bought || r == Settlement::Sold) ==> after.cash == before.cash
            && after.holdings == before.holdings,
{
}

/// No holding is ever negative: every account made by `Portfolio::new` is
/// well formed, every method keeps it so (a sell goes through only when the
/// holding covers it), and a well-formed account holds no negative count of
/// any symbol.
pub proof fn lemma_no_negative_holdings(p: Portfolio, symbol: Seq<char>)
    requires
        p.wf(),
    ensures
        p.holding_of(symbol) >= 0,
{
    lemma_map_nonnegative(p.holdings@, symbol);
}

/// A buy at a limit executes for every market price at or below the limit
/// and for none above it; a sell at a limit executes for every market price
/// at or above the limit and for none below it.
pub proof fn lemma_limit_execution(
    before: Portfolio,
    after: Portfolio,
    order: Order,
    limit: u64,
    market_price: u64,
    r: Settlement,
)
    requires
        before.executed(after, order, market_price, r),
        order.order_type == OrderType::Limit(limit),
    ensures
        order.quantity > 0 ==> (r != Settlement::LimitNotMet <==> market_price <= limit),
        order.quantity < 0 ==> (r != Settlement::LimitNotMet <==> market_price >= limit),
{
}

/// With no holdings, profit or loss is cash less the initial cash, whatever
/// the quotes.
pub proof fn lemma_valuation_without_holdings(p: Portfolio, quotes: Seq<MarketData>)
    requires
        p.holdings_view() == Map::<Seq<char>, int>::empty(),
    ensures
        p.profit_loss(quotes) == p.cash - p.initial_cash,
{
    let h = p.holdings@;
    if h.len() > 0 {
        assert(holdings_map(h).contains_key(h.last().symbol@));
    }
    assert(market_value(h, quotes) == 0);
}

/// An order of zero shares, or a limit order whose bound the market price
/// does not meet, leaves the account exactly as it was.
pub proof fn lemma_inert_orders(
    before: Portfolio,
    after: Portfolio,
    order: Order,
    market_price: u64,
    r: Settlement,
)
    requires
        before.executed(after, order, market_price, r),
        order.quantity == 0 || (order.order_type matches OrderType::Limit(limit)
            && !limit_favorable(order.quantity as int, limit, market_price)),
    ensures
        after == before,
{
}

/// Executing one order keeps every holding non-negative: a buy adds shares,
/// and a sell goes through only when the holding covers it.
pub proof fn lemma_execution_keeps_holdings_nonnegative(
    before: Portfolio,
    after: Portfolio,
    order: Order,
    market_price: u64,
    r: Settlement,
)
    requires
        before.executed(after, order, market_price, r),
        forall|s: Seq<char>| #[trigger] held(before.holdings_view(), s) >= 0,
    ensures
        forall|s: Seq<char>| #[trigger] held(after.holdings_view(), s) >= 0,
{
    assert forall|s: Seq<char>| #[trigger] held(after.holdings_view(), s) >= 0 by {
        assert(held(before.holdings_view(), s) >= 0);
        assert(held(before.holdings_view(), order.symbol@) >= 0);
    }
}

/// Over any run of orders from an account without negative holdings (such
/// as a new one), with `states[i + 1]` the account after executing
/// `orders[i]` at `prices[i]`, no holding is negative after any order.
pub proof fn lemma_run_keeps_holdings_nonnegative(
    states: Seq<Portfolio>,
    orders: Seq<Order>,
    prices: Seq<u64>,
    outcomes: Seq<Settlement>,
)
    requires
        states.len() == orders.len() + 1,
        prices.len() == orders.len(),
        outcomes.len() == orders.len(),
        forall|s: Seq<char>| #[trigger] held(states[0].holdings_view(), s) >= 0,
        forall|i: int|
            0 <= i < orders.len() ==> #[trigger] states[i].executed(
                states[i + 1],
                orders[i],
                prices[i],
                outcomes[i],
            ),
    ensures
        forall|i: int, s: Seq<char>|
            0 <= i < states.len() ==> #[trigger] held(states[i].holdings_view(), s) >= 0,
    decreases orders.len(),
{
    if orders.len() > 0 {
        let n = orders.len() - 1;
        lemma_run_keeps_holdings_nonnegative(
            states.drop_last(),
            orders.drop_last(),
            prices.drop_last(),
            outcomes.drop_last(),
        );
        assert(states.drop_last()[n] == states[n]);
        assert(states[n].executed(states[n + 1], orders[n], prices[n], outcomes[n]));
        lemma_execution_keeps_holdings_nonnegative(
            states[n],
            states[n + 1],
            orders[n],
            prices[n],
            outcomes[n],
        );
        assert forall|i: int, s: Seq<char>|
            0 <= i < states.len() implies #[trigger] held(states[i].holdings_view(), s) >= 0 by {
            if i < states.len() - 1 {
                assert(states.drop_last()[i] == states[i]);
            }
        }
    }
}

} // verus!
