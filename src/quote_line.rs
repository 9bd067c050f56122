use vstd::prelude::*;

use crate::market::MarketData;

verus! {

/// A decimal digit.
pub open spec fn is_digit(c: char) -> bool {
    '0' <= c <= '9'
}

/// The value of a decimal digit.
pub open spec fn digit_value(c: char) -> int {
    c as int - '0' as int
}

/// A run of decimal digits, possibly empty.
pub open spec fn digits_only(s: Seq<char>) -> bool {
    forall|i: int| 0 <= i < s.len() ==> is_digit(#[trigger] s[i])
}

/// The number that a run of decimal digits writes; the empty run writes 0.
pub open spec fn digits_value(s: Seq<char>) -> int
    decreases s.len(),
{
    if s.len() == 0 {
        0
    } else {
        digits_value(s.drop_last()) * 10 + digit_value(s.last())
    }
}

/// A price text without its sign: one leading `+` is dropped.
pub open spec fn unsigned_text(t: Seq<char>) -> Seq<char> {
    if t.len() > 0 && t[0] == '+' {
        t.drop_first()
    } else {
        t
    }
}

/// `p` is the decimal point of `body`: digits before it, digits after it,
/// and at least one digit in all (`150.`, `.5`, `150.25`).
pub open spec fn decimal_point(body: Seq<char>, p: int) -> bool {
    &&& 0 <= p < body.len()
    &&& body.len() >= 2
    &&& body[p] == '.'
    &&& digits_only(body.subrange(0, p))
    &&& digits_only(body.subrange(p + 1, body.len() as int))
}

/// The cents that the first two decimals write (`5` is 50, `05` is 5).
pub open spec fn fraction_cents(frac: Seq<char>) -> int {
    if frac.len() == 0 {
        0
    } else if frac.len() == 1 {
        digit_value(frac[0]) * 10
    } else {
        digit_value(frac[0]) * 10 + digit_value(frac[1])
    }
}

/// Every decimal after the second is a zero: the fraction is whole cents.
pub open spec fn whole_cents(frac: Seq<char>) -> bool {
    forall|i: int| 2 <= i < frac.len() ==> #[trigger] frac[i] == '0'
}

/// The cents that a price text writes. A price text is an optional `+`,
/// then decimal digits with at most one decimal point anywhere among them
/// and at least one digit (`150`, `+150`, `150.`, `.5`, `150.250`).
///
/// Two kinds of text that a float parser would accept are no price here,
/// so that a quote is never rounded: a fraction of a cent (`150.255`, any
/// decimal after the second that is not zero), and an exponent, `inf` or
/// `NaN`. A negative price (`-3`) is no price either, since prices are never
/// negative.
pub open spec fn price_cents(t: Seq<char>) -> Option<int> {
    body_cents(unsigned_text(t))
}

/// The cents that an unsigned price text writes (see `price_cents`).
pub open spec fn body_cents(body: Seq<char>) -> Option<int> {
    if body.len() > 0 && digits_only(body) {
        Some(digits_value(body) * 100)
    } else if exists|p: int| decimal_point(body, p) {
        decimal_cents(body, choose|p: int| decimal_point(body, p))
    } else {
        None
    }
}

/// The cents that `body` writes with its decimal point at `p`, when the
/// decimals are whole cents.
pub open spec fn decimal_cents(body: Seq<char>, p: int) -> Option<int> {
    let frac = body.subrange(p + 1, body.len() as int);
    if whole_cents(frac) {
        Some(digits_value(body.subrange(0, p)) * 100 + fraction_cents(frac))
    } else {
        None
    }
}

/// A number of cents, when there is one and it fits a `u64`.
pub open spec fn cents_fitting(cents: Option<int>) -> Option<u64> {
    match cents {
        Some(c) => if 0 <= c <= u64::MAX {
            Some(c as u64)
        } else {
            None
        },
        None => None,
    }
}

/// `k` is the one comma of `line`.
pub open spec fn sole_comma(line: Seq<char>, k: int) -> bool {
    &&& 0 <= k < line.len()
    &&& line[k] == ','
    &&& forall|j: int| 0 <= j < line.len() && j != k ==> line[j] != ','
}

/// A quote line is `symbol,price`: exactly one comma, a non-empty symbol
/// before it, and after it a price text whose cents fit a `u64`.
pub open spec fn quote_of_line(line: Seq<char>) -> Option<(Seq<char>, u64)> {
    if exists|k: int| sole_comma(line, k) {
        let k = choose|k: int| sole_comma(line, k);
        let symbol = line.subrange(0, k);
        match cents_fitting(price_cents(line.subrange(k + 1, line.len() as int))) {
            Some(cents) => if symbol.len() > 0 {
                Some((symbol, cents))
            } else {
                None
            },
            None => None,
        }
    } else {
        None
    }
}

/// The digits of a prefix write a number no larger than the whole run.
proof fn lemma_digits_value_prefix(s: Seq<char>, m: int)
    requires
        0 <= m <= s.len(),
        digits_only(s),
    ensures
        0 <= digits_value(s.subrange(0, m)) <= digits_value(s),
    decreases s.len(),
{
    if m == s.len() {
        assert(s.subrange(0, m) =~= s);
        if s.len() > 0 {
            let prefix = s.drop_last();
            assert forall|i: int| 0 <= i < prefix.len() implies is_digit(#[trigger] prefix[i]) by {
                assert(prefix[i] == s[i]);
            }
            lemma_digits_value_prefix(prefix, m - 1);
            assert(prefix.subrange(0, m - 1) =~= prefix);
            assert(is_digit(s[s.len() - 1]));
        }
    } else {
        let prefix = s.drop_last();
        assert forall|i: int| 0 <= i < prefix.len() implies is_digit(#[trigger] prefix[i]) by {
            assert(prefix[i] == s[i]);
        }
        lemma_digits_value_prefix(prefix, m);
        assert(prefix.subrange(0, m) =~= s.subrange(0, m));
        lemma_digits_value_prefix(prefix, prefix.len() as int);
        assert(prefix.subrange(0, prefix.len() as int) =~= prefix);
        assert(is_digit(s[s.len() - 1]));
    }
}

/// Whether `line` holds only digits from `from` to `to`.
fn digits_between(line: &str, from: usize, to: usize) -> (r: bool)
    requires
        from <= to <= line@.len(),
    ensures
        r == digits_only(line@.subrange(from as int, to as int)),
{
    let mut i: usize = from;
    while i < to
        invariant
            from <= i <= to <= line@.len(),
            forall|j: int| from <= j < i ==> is_digit(#[trigger] line@[j]),
        decreases to - i,
    {
        let c = line.get_char(i);
        if !('0' <= c && c <= '9') {
            assert(line@.subrange(from as int, to as int)[i - from] == c);
            return false;
        }
        i = i + 1;
    }
    assert forall|j: int| 0 <= j < to - from implies is_digit(
        #[trigger] line@.subrange(from as int, to as int)[j],
    ) by {
        assert(line@.subrange(from as int, to as int)[j] == line@[from + j]);
    }
    true
}

/// Whether `line` holds only zeros from `from` to `to`.
fn zeros_between(line: &str, from: usize, to: usize) -> (r: bool)
    requires
        from <= to <= line@.len(),
    ensures
        r == (forall|j: int| from <= j < to ==> #[trigger] line@[j] == '0'),
{
    let mut i: usize = from;
    while i < to
        invariant
            from <= i <= to <= line@.len(),
            forall|j: int| from <= j < i ==> #[trigger] line@[j] == '0',
        decreases to - i,
    {
        if line.get_char(i) != '0' {
            return false;
        }
        i = i + 1;
    }
    true
}

/// The number that the digits of `line` from `from` to `to` write, when it
/// fits a `u64`.
fn digits_number(line: &str, from: usize, to: usize) -> (r: Option<u64>)
    requires
        from <= to <= line@.len(),
        digits_only(line@.subrange(from as int, to as int)),
    ensures
        digits_value(line@.subrange(from as int, to as int)) >= 0,
        r == (if digits_value(line@.subrange(from as int, to as int)) <= u64::MAX {
            Some(digits_value(line@.subrange(from as int, to as int)) as u64)
        } else {
            None::<u64>
        }),
{
    let ghost whole = line@.subrange(from as int, to as int);
    let mut value: u64 = 0;
    let mut i: usize = from;
    assert(whole.subrange(0, 0) =~= Seq::<char>::empty());
    proof {
        lemma_digits_value_prefix(whole, 0);
        lemma_digits_value_prefix(whole, whole.len() as int);
        assert(whole.subrange(0, whole.len() as int) =~= whole);
    }
    while i < to
        invariant
            from <= i <= to <= line@.len(),
            whole == line@.subrange(from as int, to as int),
            digits_only(whole),
            digits_value(whole) >= 0,
            value as int == digits_value(whole.subrange(0, i - from)),
        decreases to - i,
    {
        let c = line.get_char(i);
        assert(whole[i - from] == c);
        assert(is_digit(c));
        let d: u64 = (c as u64) - ('0' as u64);
        let ghost next = whole.subrange(0, i - from + 1);
        assert(next.drop_last() =~= whole.subrange(0, i - from));
        assert(next.last() == c);
        let wide: u128 = (value as u128) * 10 + (d as u128);
        assert(wide as int == digits_value(next));
        if wide > u64::MAX as u128 {
            proof {
                lemma_digits_value_prefix(whole, i - from + 1);
            }
            return None;
        }
        value = wide as u64;
        i = i + 1;
    }
    assert(whole.subrange(0, to - from) =~= whole);
    Some(value)
}

/// The value of the digit at `i` of `line`.
fn digit_at(line: &str, i: usize) -> (r: u64)
    requires
        i < line@.len(),
        is_digit(line@[i as int]),
    ensures
        r as int == digit_value(line@[i as int]),
        r <= 9,
{
    let c = line.get_char(i);
    (c as u64) - ('0' as u64)
}

/// The index of the first `.` of `line` from `from` to `to`, or `to`.
fn first_dot(line: &str, from: usize, to: usize) -> (r: usize)
    requires
        from <= to <= line@.len(),
    ensures
        from <= r <= to,
        r < to ==> line@[r as int] == '.',
        forall|j: int| from <= j < r ==> line@[j] != '.',
{
    let mut i: usize = from;
    while i < to
        invariant
            from <= i <= to <= line@.len(),
            forall|j: int| from <= j < i ==> line@[j] != '.',
        decreases to - i,
    {
        if line.get_char(i) == '.' {
            return i;
        }
        i = i + 1;
    }
    to
}

/// The first `.` of a text decides where its decimal point can be: nowhere
/// else, and there exactly when digits stand on both sides of it.
proof fn lemma_first_dot(body: Seq<char>, q: int)
    requires
        0 <= q <= body.len(),
        q < body.len() ==> body[q] == '.',
        forall|j: int| 0 <= j < q ==> body[j] != '.',
    ensures
        forall|p: int| decimal_point(body, p) ==> p == q,
        (exists|p: int| decimal_point(body, p)) == (q < body.len() && decimal_point(body, q)),
{
    assert forall|p: int| decimal_point(body, p) implies p == q by {
        if p > q {
            assert(body.subrange(0, p)[q] == body[q]);
        }
    }
}

/// The cents that the price text of `line` from `from` to `to` writes,
/// when it is a price and the cents fit a `u64`.
fn price_between(line: &str, from: usize, to: usize) -> (r: Option<u64>)
    requires
        from <= to <= line@.len(),
    ensures
        r == cents_fitting(price_cents(line@.subrange(from as int, to as int))),
{
    let start: usize = if from < to && line.get_char(from) == '+' {
        from + 1
    } else {
        from
    };
    assert(unsigned_text(line@.subrange(from as int, to as int)) =~= line@.subrange(
        start as int,
        to as int,
    ));
    unsigned_price_between(line, start, to)
}

/// The cents that the unsigned price text of `line` from `from` to `to`
/// writes, when it is a price and the cents fit a `u64`.
fn unsigned_price_between(line: &str, from: usize, to: usize) -> (r: Option<u64>)
    requires
        from <= to <= line@.len(),
    ensures
        r == cents_fitting(body_cents(line@.subrange(from as int, to as int))),
{
    let ghost body = line@.subrange(from as int, to as int);
    if from < to && digits_between(line, from, to) {
        return match digits_number(line, from, to) {
            Some(whole) => with_cents(whole, 0),
            None => None,
        };
    }
    let p = first_dot(line, from, to);
    let ghost q = p - from;
    proof {
        if p < to {
            assert(body[q] == line@[p as int]);
        }
        assert forall|j: int| 0 <= j < q implies body[j] != '.' by {
            assert(body[j] == line@[from + j]);
        }
        lemma_first_dot(body, q);
        assert(body.subrange(0, q) =~= line@.subrange(from as int, p as int));
        if p < to {
            assert(body.subrange(q + 1, body.len() as int) =~= line@.subrange(p + 1, to as int));
        }
    }
    if p == to || to - from < 2 || !digits_between(line, from, p) || !digits_between(
        line,
        p + 1,
        to,
    ) {
        return None;
    }
    decimal_price_between(line, from, p, to)
}

/// The cents that the digits of `line` from `from` to `to`, with a decimal
/// point at `p`, write, when the decimals are whole cents and the cents fit
/// a `u64`.
fn decimal_price_between(line: &str, from: usize, p: usize, to: usize) -> (r: Option<u64>)
    requires
        from <= p < to <= line@.len(),
        decimal_point(line@.subrange(from as int, to as int), p - from),
    ensures
        r == cents_fitting(decimal_cents(line@.subrange(from as int, to as int), p - from)),
{
    let ghost body = line@.subrange(from as int, to as int);
    let ghost q = p - from;
    let ghost frac = body.subrange(q + 1, body.len() as int);
    assert(body.subrange(0, q) =~= line@.subrange(from as int, p as int));
    assert(frac =~= line@.subrange(p + 1, to as int));
    let frac_start = p + 1;
    if to - frac_start > 2 && !zeros_between(line, frac_start + 2, to) {
        proof {
            let j = choose|j: int| frac_start + 2 <= j < to && #[trigger] line@[j] != '0';
            assert(frac[j - frac_start] == line@[j]);
        }
        return None;
    }
    assert(whole_cents(frac)) by {
        assert forall|i: int| 2 <= i < frac.len() implies #[trigger] frac[i] == '0' by {
            assert(frac[i] == line@[frac_start + i]);
        }
    }
    let fraction: u64 = if to - frac_start == 0 {
        0
    } else if to - frac_start == 1 {
        assert(frac[0] == line@[frac_start as int]);
        digit_at(line, frac_start) * 10
    } else {
        assert(frac[0] == line@[frac_start as int]);
        assert(frac[1] == line@[frac_start + 1]);
        digit_at(line, frac_start) * 10 + digit_at(line, frac_start + 1)
    };
    assert(fraction as int == fraction_cents(frac));
    match digits_number(line, from, p) {
        Some(whole) => with_cents(whole, fraction),
        None => None,
    }
}

/// `whole` units and `fraction` cents, as cents, when they fit a `u64`.
fn with_cents(whole: u64, fraction: u64) -> (r: Option<u64>)
    requires
        fraction <= 99,
    ensures
        r == (if whole * 100 + fraction <= u64::MAX {
            Some((whole * 100 + fraction) as u64)
        } else {
            None::<u64>
        }),
{
    let cents: u128 = (whole as u128) * 100 + (fraction as u128);
    if cents > u64::MAX as u128 {
        None
    } else {
        Some(cents as u64)
    }
}

/// The quotes that `lines` give, in order; lines that are no quote line
/// give none.
pub open spec fn quotes_of_lines(lines: Seq<String>) -> Seq<(Seq<char>, u64)>
    decreases lines.len(),
{
    if lines.len() == 0 {
        Seq::empty()
    } else {
        let earlier = quotes_of_lines(lines.drop_last());
        match quote_of_line(lines.last()@) {
            Some(quote) => earlier.push(quote),
            None => earlier,
        }
    }
}

/// Reads one line of market data, `symbol,price`, into a quote; `None` for
/// a line that is not one (see `quote_of_line`), so that a malformed line is
/// skipped rather than read as a zero price.
pub fn parse_market_line(line: &str) -> (r: Option<MarketData>)
    ensures
        match quote_of_line(line@) {
            Some((symbol, price)) => r matches Some(d) && d.symbol@ == symbol && d.price == price,
            None => r is None,
        },
{
    let n = line.unicode_len();
    let mut comma: Option<usize> = None;
    let mut i: usize = 0;
    while i < n
        invariant
            i <= n == line@.len(),
            comma matches Some(k) ==> k < i && line@[k as int] == ',' && forall|j: int|
                0 <= j < i && j != k ==> line@[j] != ',',
            comma is None ==> forall|j: int| 0 <= j < i ==> line@[j] != ',',
        decreases n - i,
    {
        if line.get_char(i) == ',' {
            if let Some(first) = comma {
                proof {
                    assert forall|k: int| !sole_comma(line@, k) by {
                        if sole_comma(line@, k) {
                            if k == first {
                                assert(line@[i as int] != ',');
                            } else {
                                assert(line@[first as int] != ',');
                            }
                        }
                    }
                }
                return None;
            }
            comma = Some(i);
        }
        i = i + 1;
    }
    match comma {
        None => {
            proof {
                assert forall|k: int| !sole_comma(line@, k) by {
                    if 0 <= k < line@.len() {
                        assert(line@[k] != ',');
                    }
                }
            }
            None
        },
        Some(k) => {
            proof {
                assert(sole_comma(line@, k as int));
                assert forall|other: int| sole_comma(line@, other) implies other == k by {
                    if other != k {
                        assert(line@[other] != ',');
                    }
                }
            }
            if k == 0 {
                return None;
            }
            match price_between(line, k + 1, n) {
                Some(price) => {
                    let symbol = line.substring_char(0, k).to_string();
                    Some(MarketData { symbol, price })
                },
                None => {
                        None
                },
            }
        },
    }
}

/// Reads the lines of a market data file into a snapshot, skipping every
/// line that is not `symbol,price`.
pub fn read_market_data(lines: &[String]) -> (r: Vec<MarketData>)
    ensures
        r@.len() == quotes_of_lines(lines@).len(),
        forall|i: int|
            0 <= i < r@.len() ==> (r@[i].symbol@, r@[i].price) == #[trigger] quotes_of_lines(
                lines@,
            )[i],
{
    let mut data: Vec<MarketData> = Vec::new();
    let mut i: usize = 0;
    while i < lines.len()
        invariant
            0 <= i <= lines@.len(),
            data@.len() == quotes_of_lines(lines@.subrange(0, i as int)).len(),
            forall|j: int|
                0 <= j < data@.len() ==> (data@[j].symbol@, data@[j].price)
                    == #[trigger] quotes_of_lines(lines@.subrange(0, i as int))[j],
        decreases lines@.len() - i,
    {
        let ghost seen = lines@.subrange(0, i + 1);
        assert(seen.drop_last() =~= lines@.subrange(0, i as int));
        assert(seen.last() == lines@[i as int]);
        match parse_market_line(lines[i].as_str()) {
            Some(quote) => {
                data.push(quote);
            },
            None => {},
        }
        i = i + 1;
    }
    assert(lines@.subrange(0, i as int) =~= lines@);
    data
}

} // verus!
