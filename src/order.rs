use vstd::prelude::*;

verus! {

/// How an order executes: at the market price, or only when the market price
/// is no worse than a bound (in cents).
#[derive(Clone, Copy, Debug, PartialEq, Eq, Structural)]
pub enum OrderType {
    Market,
    Limit(u64),
}

/// A buy (positive quantity) or a sell (negative quantity) of one symbol.
#[derive(Clone, Debug, PartialEq, Eq)]
pub struct Order {
    pub symbol: String,
    pub quantity: i32,
    pub order_type: OrderType,
}

/// Whether a limit order with bound `limit` is favorable at `market_price`:
/// a buy pays at most the bound, a sell gets at least the bound.
pub open spec fn limit_favorable(quantity: int, limit: u64, market_price: u64) -> bool {
    (quantity > 0 && market_price <= limit) || (quantity < 0 && market_price >= limit)
}

/// The price at which an order of this type and quantity executes when the
/// market stands at `market_price`, or `None` when it does not execute.
/// A market order executes at the market price; a favorable limit order
/// executes at its bound.
pub open spec fn execution_price_of(order_type: OrderType, quantity: int, market_price: u64) -> Option<u64> {
    match order_type {
        OrderType::Market => Some(market_price),
        OrderType::Limit(limit) => if limit_favorable(quantity, limit, market_price) {
            Some(limit)
        } else {
            None
        },
    }
}

/// Decides whether `order` executes at `market_price`, and at which price.
pub fn execution_price(order: &Order, market_price: u64) -> (r: Option<u64>)
    ensures
        r == execution_price_of(order.order_type, order.quantity as int, market_price),
{
    match order.order_type {
        OrderType::Market => Some(market_price),
        OrderType::Limit(limit_price) => {
            if (order.quantity > 0 && market_price <= limit_price) || (order.quantity < 0
                && market_price >= limit_price) {
                Some(limit_price)
            } else {
                None
            }
        },
    }
}

} // verus!
