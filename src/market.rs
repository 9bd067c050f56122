use vstd::prelude::*;

verus! {

/// One quote of a market snapshot: a symbol and its last price, in cents.
#[derive(Clone, Debug, PartialEq, Eq)]
pub struct MarketData {
    pub symbol: String,
    pub price: u64,
}

/// The price that a snapshot gives to `symbol`: that of the first quote
/// with this symbol, or `None` when no quote has it.
pub open spec fn price_in(quotes: Seq<MarketData>, symbol: Seq<char>) -> Option<u64>
    decreases quotes.len(),
{
    if quotes.len() == 0 {
        None
    } else if quotes[0].symbol@ == symbol {
        Some(quotes[0].price)
    } else {
        price_in(quotes.drop_first(), symbol)
    }
}

/// Looks `symbol` up in a snapshot; the first matching quote wins.
pub fn find_market_price(market_data: &[MarketData], symbol: &String) -> (r: Option<u64>)
    ensures
        r == price_in(market_data@, symbol@),
{
    let mut i: usize = 0;
    assert(market_data@.subrange(0, market_data@.len() as int) =~= market_data@);
    while i < market_data.len()
        invariant
            0 <= i <= market_data@.len(),
            price_in(market_data@, symbol@) == price_in(
                market_data@.subrange(i as int, market_data@.len() as int),
                symbol@,
            ),
        decreases market_data@.len() - i,
    {
        let quote = &market_data[i];
        assert(market_data@.subrange(i as int, market_data@.len() as int).drop_first()
            =~= market_data@.subrange(i + 1, market_data@.len() as int));
        if quote.symbol.eq(symbol) {
            return Some(quote.price);
        }
        i = i + 1;
    }
    None
}

} // verus!
