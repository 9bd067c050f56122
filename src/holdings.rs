use vstd::prelude::*;

verus! {

/// The number of shares of one symbol that an account holds.
#[derive(Clone, Debug, PartialEq, Eq)]
pub struct Holding {
    pub symbol: String,
    pub quantity: i32,
}

/// What a list of holdings says of each symbol: the share count of the
/// symbol's entry. Symbols without an entry are not in the map's domain.
pub open spec fn holdings_map(h: Seq<Holding>) -> Map<Seq<char>, int>
    decreases h.len(),
{
    if h.len() == 0 {
        Map::empty()
    } else {
        holdings_map(h.drop_last()).insert(h.last().symbol@, h.last().quantity as int)
    }
}

/// No two entries share a symbol.
pub open spec fn symbols_unique(h: Seq<Holding>) -> bool {
    forall|i: int, j: int| 0 <= i < j < h.len() ==> h[i].symbol@ != h[j].symbol@
}

/// No entry holds a negative count.
pub open spec fn counts_nonnegative(h: Seq<Holding>) -> bool {
    forall|i: int| 0 <= i < h.len() ==> h[i].quantity >= 0
}

/// The count held of `symbol`; a symbol without an entry counts as zero.
pub open spec fn held(m: Map<Seq<char>, int>, symbol: Seq<char>) -> int {
    if m.contains_key(symbol) {
        m[symbol]
    } else {
        0
    }
}

/// With unique symbols, each entry's count is what the map gives its symbol.
pub proof fn lemma_map_lookup(h: Seq<Holding>, i: int)
    requires
        symbols_unique(h),
        0 <= i < h.len(),
    ensures
        holdings_map(h).contains_key(h[i].symbol@),
        holdings_map(h)[h[i].symbol@] == h[i].quantity as int,
    decreases h.len(),
{
    if i < h.len() - 1 {
        let prefix = h.drop_last();
        assert(prefix[i] == h[i]);
        lemma_map_lookup(prefix, i);
        assert(h[i].symbol@ != h[h.len() - 1].symbol@);
    }
}

/// A symbol that no entry has is not in the map.
pub proof fn lemma_map_absent(h: Seq<Holding>, symbol: Seq<char>)
    requires
        forall|i: int| 0 <= i < h.len() ==> h[i].symbol@ != symbol,
    ensures
        !holdings_map(h).contains_key(symbol),
    decreases h.len(),
{
    if h.len() > 0 {
        let prefix = h.drop_last();
        assert forall|i: int| 0 <= i < prefix.len() implies prefix[i].symbol@ != symbol by {
            assert(prefix[i] == h[i]);
        }
        lemma_map_absent(prefix, symbol);
        assert(h[h.len() - 1].symbol@ != symbol);
    }
}

/// Appending an entry sets its symbol's count in the map.
pub proof fn lemma_map_push(h: Seq<Holding>, x: Holding)
    ensures
        holdings_map(h.push(x)) == holdings_map(h).insert(x.symbol@, x.quantity as int),
{
    assert(h.push(x).drop_last() =~= h);
}

/// Replacing the count of an entry sets its symbol's count in the map.
pub proof fn lemma_map_update(h: Seq<Holding>, i: int, x: Holding)
    requires
        symbols_unique(h),
        0 <= i < h.len(),
        x.symbol@ == h[i].symbol@,
    ensures
        holdings_map(h.update(i, x)) == holdings_map(h).insert(x.symbol@, x.quantity as int),
    decreases h.len(),
{
    let h2 = h.update(i, x);
    let prefix = h.drop_last();
    if i == h.len() - 1 {
        assert(h2.drop_last() =~= prefix);
        assert(holdings_map(h2) =~= holdings_map(h).insert(x.symbol@, x.quantity as int));
    } else {
        assert(h2.drop_last() =~= prefix.update(i, x));
        assert(prefix[i] == h[i]);
        lemma_map_update(prefix, i, x);
        assert(h[i].symbol@ != h[h.len() - 1].symbol@);
        assert(holdings_map(h2) =~= holdings_map(h).insert(x.symbol@, x.quantity as int));
    }
}

/// Entries without negative counts give a map without negative counts.
pub proof fn lemma_map_nonnegative(h: Seq<Holding>, symbol: Seq<char>)
    requires
        counts_nonnegative(h),
    ensures
        held(holdings_map(h), symbol) >= 0,
    decreases h.len(),
{
    if h.len() > 0 {
        let prefix = h.drop_last();
        assert forall|i: int| 0 <= i < prefix.len() implies prefix[i].quantity >= 0 by {
            assert(prefix[i] == h[i]);
        }
        lemma_map_nonnegative(prefix, symbol);
    }
}

} // verus!
