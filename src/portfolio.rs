use vstd::prelude::*;

use crate::holdings::{
    Holding,
    counts_nonnegative,
    held,
    holdings_map,
    lemma_map_absent,
    lemma_map_lookup,
    lemma_map_push,
    lemma_map_update,
    symbols_unique,
};
use crate::market::{MarketData, find_market_price, price_in};
use crate::order::{Order, execution_price, execution_price_of};

verus! {

/// What became of one order.
#[derive(Clone, Copy, Debug, PartialEq, Eq, Structural)]
pub enum Settlement {
    /// A buy executed: cash went down, the holding went up.
    Bought,
    /// A sell executed: the holding went down, cash went up.
    Sold,
    /// The order's quantity is zero: nothing to do.
    NoOp,
    /// A limit order whose bound the market price does not meet.
    LimitNotMet,
    /// The snapshot has no quote for the order's symbol.
    MarketDataMissing,
    /// A buy that costs more than the cash at hand.
    InsufficientCash,
    /// A sell of more shares than are held.
    InsufficientShares,
    /// A buy after which the holding would not fit its integer type.
    HoldingOverflow,
    /// A sell after which the cash balance would not fit its integer type.
    CashOverflow,
}

/// One account: cash in cents, the shares held of each symbol, and the cash
/// it started with, against which profit and loss are measured.
#[derive(Clone, Debug, PartialEq, Eq)]
pub struct Portfolio {
    pub cash: u64,
    pub holdings: Vec<Holding>,
    pub initial_cash: u64,
}

/// The value in cents of `quantity` shares at `price` cents each.
pub open spec fn order_value(price: u64, quantity: int) -> int {
    price * (if quantity < 0 {
        -quantity
    } else {
        quantity
    })
}

/// Sum over the holdings of price times count, with the snapshot's price for
/// each symbol; a symbol without a quote adds nothing.
pub open spec fn market_value(h: Seq<Holding>, quotes: Seq<MarketData>) -> int
    decreases h.len(),
{
    if h.len() == 0 {
        0
    } else {
        market_value(h.drop_last(), quotes) + match price_in(quotes, h.last().symbol@) {
            Some(price) => price * h.last().quantity,
            None => 0,
        }
    }
}

impl Portfolio {
    /// Symbols are unique among the holdings and no count is negative.
    pub open spec fn wf(&self) -> bool {
        symbols_unique(self.holdings@) && counts_nonnegative(self.holdings@)
    }

    /// The holdings as a map from symbol to share count.
    pub open spec fn holdings_view(&self) -> Map<Seq<char>, int> {
        holdings_map(self.holdings@)
    }

    /// The count held of `symbol`, zero where there is no entry.
    pub open spec fn holding_of(&self, symbol: Seq<char>) -> int {
        held(self.holdings_view(), symbol)
    }

    /// Profit or loss in cents against `quotes`: value of the holdings plus
    /// cash, less the initial cash.
    pub open spec fn profit_loss(&self, quotes: Seq<MarketData>) -> int {
        market_value(self.holdings@, quotes) + self.cash - self.initial_cash
    }

    /// What settling `quantity` shares of `symbol` at `price` comes to.
    pub open spec fn settlement_of(&self, symbol: Seq<char>, quantity: int, price: u64) -> Settlement {
        let total = order_value(price, quantity);
        if quantity > 0 {
            if self.cash < total {
                Settlement::InsufficientCash
            } else if self.holding_of(symbol) + quantity > i32::MAX {
                Settlement::HoldingOverflow
            } else {
                Settlement::Bought
            }
        } else if quantity < 0 {
            if self.holding_of(symbol) < -quantity {
                Settlement::InsufficientShares
            } else if self.cash + total > u64::MAX {
                Settlement::CashOverflow
            } else {
                Settlement::Sold
            }
        } else {
            Settlement::NoOp
        }
    }

    /// `after` is `self` once `quantity` shares of `symbol` have settled at
    /// `price` with outcome `r`: a buy moves the value out of cash and the
    /// shares into the holding, a sell the other way, and any other outcome
    /// leaves the account exactly as it was.
    pub open spec fn settled(
        &self,
        after: Portfolio,
        symbol: Seq<char>,
        quantity: int,
        price: u64,
        r: Settlement,
    ) -> bool {
        let total = order_value(price, quantity);
        &&& r == self.settlement_of(symbol, quantity, price)
        &&& r == Settlement::Bought ==> after.cash == self.cash - total
        &&& r == Settlement::Sold ==> after.cash == self.cash + total
        &&& (r == Settlement::Bought || r == Settlement::Sold) ==> {
            &&& after.holdings_view() == self.holdings_view().insert(
                symbol,
                self.holding_of(symbol) + quantity,
            )
            &&& after.initial_cash == self.initial_cash
        }
        &&& !(r == Settlement::Bought || r == Settlement::Sold) ==> after == *self
    }

    /// `after` is `self` once `order` has been executed with the market at
    /// `market_price`, with outcome `r`. An order of zero shares does nothing
    /// whatever its type.
    pub open spec fn executed(&self, after: Portfolio, order: Order, market_price: u64, r: Settlement) -> bool {
        if order.quantity == 0 {
            r == Settlement::NoOp && after == *self
        } else {
            match execution_price_of(order.order_type, order.quantity as int, market_price) {
                Some(price) => self.settled(after, order.symbol@, order.quantity as int, price, r),
                None => r == Settlement::LimitNotMet && after == *self,
            }
        }
    }

    /// A new account with `initial_cash` cents and no holdings.
    pub fn new(initial_cash: u64) -> (r: Portfolio)
        ensures
            r.wf(),
            r.cash == initial_cash,
            r.initial_cash == initial_cash,
            r.holdings@.len() == 0,
            r.holdings_view() == Map::<Seq<char>, int>::empty(),
    {
        Portfolio { cash: initial_cash, holdings: Vec::new(), initial_cash }
    }

    /// The index of the entry for `symbol`, if there is one.
    fn find_holding(&self, symbol: &String) -> (r: Option<usize>)
        ensures
            r matches Some(i) ==> i < self.holdings@.len() && self.holdings@[i as int].symbol@
                == symbol@,
            r is None ==> forall|i: int|
                0 <= i < self.holdings@.len() ==> self.holdings@[i].symbol@ != symbol@,
    {
        let mut i: usize = 0;
        while i < self.holdings.len()
            invariant
                0 <= i <= self.holdings@.len(),
                forall|j: int| 0 <= j < i ==> self.holdings@[j].symbol@ != symbol@,
            decreases self.holdings@.len() - i,
        {
            if self.holdings[i].symbol.eq(symbol) {
                return Some(i);
            }
            i = i + 1;
        }
        None
    }

    /// The number of shares held of `symbol`; zero where there is no entry.
    pub fn holding(&self, symbol: &String) -> (r: i32)
        requires
            self.wf(),
        ensures
            r as int == self.holding_of(symbol@),
    {
        match self.find_holding(symbol) {
            Some(i) => {
                proof {
                    lemma_map_lookup(self.holdings@, i as int);
                }
                self.holdings[i].quantity
            },
            None => {
                proof {
                    lemma_map_absent(self.holdings@, symbol@);
                }
                0
            },
        }
    }

    /// Settles `order` at `execution_price`: a buy goes through when the cash
    /// covers its value, a sell when the holding covers its quantity; either
    /// moves cash and shares together, and a rejected order changes nothing.
    pub fn process_order(&mut self, order: &Order, execution_price: u64) -> (r: Settlement)
        requires
            old(self).wf(),
        ensures
            final(self).wf(),
            old(self).settled(*final(self), order.symbol@, order.quantity as int, execution_price, r),
    {
        let quantity = order.quantity;
        let shares: u64 = if quantity < 0 {
            (0i64 - quantity as i64) as u64
        } else {
            quantity as u64
        };
        proof {
            assert((execution_price as int) * (shares as int) <= 0xffff_ffff_ffff_ffffint
                * 0x8000_0000int) by (nonlinear_arith)
                requires
                    execution_price <= 0xffff_ffff_ffff_ffffint,
                    shares <= 0x8000_0000int,
            ;
        }
        let total: u128 = (execution_price as u128) * (shares as u128);
        assert(total as int == order_value(execution_price, quantity as int));
        let index = self.find_holding(&order.symbol);
        let current: i32 = match index {
            Some(i) => self.holdings[i].quantity,
            None => 0,
        };
        proof {
            match index {
                Some(i) => lemma_map_lookup(self.holdings@, i as int),
                None => lemma_map_absent(self.holdings@, order.symbol@),
            }
        }
        assert(current as int == self.holding_of(order.symbol@));
        if quantity > 0 {
            if (self.cash as u128) < total {
                return Settlement::InsufficientCash;
            }
            if current > i32::MAX - quantity {
                return Settlement::HoldingOverflow;
            }
            let updated: i32 = current + quantity;
            match index {
                Some(i) => {
                    let symbol = self.holdings[i].symbol.clone();
                    let entry = Holding { symbol, quantity: updated };
                    proof {
                        lemma_map_update(self.holdings@, i as int, entry);
                    }
                    self.holdings.set(i, entry);
                },
                None => {
                    let entry = Holding { symbol: order.symbol.clone(), quantity: updated };
                    proof {
                        lemma_map_push(self.holdings@, entry);
                    }
                    self.holdings.push(entry);
                },
            }
            self.cash = self.cash - total as u64;
            Settlement::Bought
        } else if quantity < 0 {
            if (current as i64) < 0i64 - quantity as i64 {
                return Settlement::InsufficientShares;
            }
            if (self.cash as u128) + total > u64::MAX as u128 {
                return Settlement::CashOverflow;
            }
            let updated: i32 = current + quantity;
            if let Some(i) = index {
                let symbol = self.holdings[i].symbol.clone();
                let entry = Holding { symbol, quantity: updated };
                proof {
                    lemma_map_update(self.holdings@, i as int, entry);
                }
                self.holdings.set(i, entry);
            }
            self.cash = self.cash + total as u64;
            Settlement::Sold
        } else {
            Settlement::NoOp
        }
    }
    /// Executes `order` when the market stands at `market_price`: a market
    /// order settles at that price, a favorable limit order at its bound, and
    /// an unfavorable limit order is skipped without a change.
    pub fn execute_order(&mut self, order: &Order, market_price: u64) -> (r: Settlement)
        requires
            old(self).wf(),
        ensures
            final(self).wf(),
            old(self).executed(*final(self), *order, market_price, r),
    {
        if order.quantity == 0 {
            return Settlement::NoOp;
        }
        match execution_price(order, market_price) {
            Some(price) => self.process_order(order, price),
            None => Settlement::LimitNotMet,
        }
    }

    /// Executes `order` against the price that `market_data` quotes for its
    /// symbol; without a quote the order is skipped without a change.
    pub fn submit_order(&mut self, order: &Order, market_data: &[MarketData]) -> (r: Settlement)
        requires
            old(self).wf(),
        ensures
            final(self).wf(),
            match price_in(market_data@, order.symbol@) {
                Some(market_price) => old(self).executed(*final(self), *order, market_price, r),
                None => r == Settlement::MarketDataMissing && *final(self) == *old(self),
            },
    {
        match find_market_price(market_data, &order.symbol) {
            Some(market_price) => self.execute_order(order, market_price),
            None => Settlement::MarketDataMissing,
        }
    }

    /// Profit or loss in cents against `current_market_data`: each holding
    /// valued at the first quote of its symbol (nothing without a quote),
    /// plus cash, less the initial cash. `None` when the figure does not fit
    /// an `i128`.
    pub fn calculate_profit_loss(&self, current_market_data: &[MarketData]) -> (r: Option<i128>)
        requires
            self.wf(),
        ensures
            r == (if self.profit_loss(current_market_data@) <= i128::MAX {
                Some(self.profit_loss(current_market_data@) as i128)
            } else {
                None::<i128>
            }),
    {
        let mut total: u128 = 0;
        let mut i: usize = 0;
        while i < self.holdings.len()
            invariant
                0 <= i <= self.holdings@.len(),
                self.wf(),
                total as int == market_value(self.holdings@.subrange(0, i as int), current_market_data@),
            decreases self.holdings@.len() - i,
        {
            let entry = &self.holdings[i];
            let ghost prefix = self.holdings@.subrange(0, i + 1);
            assert(prefix.drop_last() =~= self.holdings@.subrange(0, i as int));
            assert(prefix.last() == self.holdings@[i as int]);
            match find_market_price(current_market_data, &entry.symbol) {
                Some(price) => {
                    let count: u64 = entry.quantity as u64;
                    proof {
                        assert((price as int) * (count as int) <= 0xffff_ffff_ffff_ffffint
                            * 0x8000_0000int) by (nonlinear_arith)
                            requires
                                price <= 0xffff_ffff_ffff_ffffint,
                                count <= 0x8000_0000int,
                        ;
                    }
                    let value: u128 = (price as u128) * (count as u128);
                    if total > u128::MAX - value {
                        proof {
                            lemma_market_value_prefix(self.holdings@, current_market_data@, i + 1);
                        }
                        return None;
                    }
                    total = total + value;
                },
                None => {},
            }
            i = i + 1;
        }
        assert(self.holdings@.subrange(0, i as int) =~= self.holdings@);
        let cash = self.cash;
        let initial = self.initial_cash;
        if cash >= initial {
            let gain: u128 = (cash - initial) as u128;
            if total > (i128::MAX as u128) - gain {
                None
            } else {
                Some((total + gain) as i128)
            }
        } else {
            let shortfall: u128 = (initial - cash) as u128;
            if total >= shortfall {
                let net: u128 = total - shortfall;
                if net > i128::MAX as u128 {
                    None
                } else {
                    Some(net as i128)
                }
            } else {
                Some(0i128 - (shortfall - total) as i128)
            }
        }
    }
}

/// With no negative count, the value of the first `n` holdings is at most
/// the value of them all.
pub proof fn lemma_market_value_prefix(h: Seq<Holding>, quotes: Seq<MarketData>, n: int)
    requires
        counts_nonnegative(h),
        0 <= n <= h.len(),
    ensures
        market_value(h.subrange(0, n), quotes) <= market_value(h, quotes),
    decreases h.len(),
{
    if n == h.len() {
        assert(h.subrange(0, n) =~= h);
    } else {
        let prefix = h.drop_last();
        assert forall|i: int| 0 <= i < prefix.len() implies prefix[i].quantity >= 0 by {
            assert(prefix[i] == h[i]);
        }
        lemma_market_value_prefix(prefix, quotes, n);
        assert(prefix.subrange(0, n) =~= h.subrange(0, n));
        assert(h.last().quantity >= 0);
        match price_in(quotes, h.last().symbol@) {
            Some(price) => {
                assert(price * h.last().quantity >= 0) by (nonlinear_arith)
                    requires
                        price >= 0,
                        h.last().quantity >= 0,
                ;
            },
            None => {},
        }
    }
}

} // verus!
