//! Decimal amounts and the extraction of price entries.

use vstd::prelude::*;
use crate::text::{first_or_empty, first_text, texts_view};

verus! {

/// A non-negative decimal amount: `mantissa / 10^scale`.
#[derive(Clone, Copy, Debug, PartialEq, Eq, Structural)]
pub struct Decimal {
    pub mantissa: u64,
    pub scale: usize,
}

/// A decimal digit.
pub open spec fn is_digit(c: char) -> bool {
    '0' <= c && c <= '9'
}

/// Every character is a decimal digit.
pub open spec fn all_digits(s: Seq<char>) -> bool {
    forall|i: int| 0 <= i < s.len() ==> is_digit(#[trigger] s[i])
}

/// The number a run of decimal digits writes.
pub open spec fn digits_value(s: Seq<char>) -> int
    decreases s.len(),
{
    if s.len() == 0 {
        0
    } else {
        digits_value(s.drop_last()) * 10 + (s.last() as int - '0' as int)
    }
}

/// The position of the first '.' at or after `i`, or the length.
pub open spec fn dot_from(s: Seq<char>, i: int) -> int
    decreases s.len() - i,
{
    if i >= s.len() || i < 0 {
        s.len() as int
    } else if s[i] == '.' {
        i
    } else {
        dot_from(s, i + 1)
    }
}

/// The digits before the decimal point.
pub open spec fn whole_part(s: Seq<char>) -> Seq<char> {
    s.take(dot_from(s, 0))
}

/// The digits after the decimal point; empty when there is no point.
pub open spec fn fraction_part(s: Seq<char>) -> Seq<char> {
    let d = dot_from(s, 0);
    if d < s.len() {
        s.skip(d + 1)
    } else {
        Seq::empty()
    }
}

/// Digits with at most one decimal point, and at least one digit.
pub open spec fn is_decimal_text(s: Seq<char>) -> bool {
    &&& all_digits(whole_part(s))
    &&& all_digits(fraction_part(s))
    &&& whole_part(s).len() + fraction_part(s).len() > 0
}

/// The amount a text writes, when it is a decimal whose digits fit in a `u64`.
pub open spec fn decimal_of(s: Seq<char>) -> Option<Decimal> {
    let digits = whole_part(s) + fraction_part(s);
    if is_decimal_text(s) && digits_value(digits) <= u64::MAX {
        Some(Decimal { mantissa: digits_value(digits) as u64, scale: fraction_part(s).len() as usize })
    } else {
        None
    }
}

proof fn lemma_prefix_value_le(d: Seq<char>, k: int)
    requires
        all_digits(d),
        0 <= k <= d.len(),
    ensures
        digits_value(d.take(k)) <= digits_value(d),
    decreases d.len() - k,
{
    if k < d.len() {
        lemma_prefix_value_le(d, k + 1);
        assert(d.take(k + 1).drop_last() =~= d.take(k));
        lemma_value_nonneg(d.take(k));
    } else {
        assert(d.take(k) =~= d);
    }
}

proof fn lemma_value_nonneg(d: Seq<char>)
    requires
        all_digits(d),
    ensures
        digits_value(d) >= 0,
    decreases d.len(),
{
    if d.len() > 0 {
        lemma_value_nonneg(d.drop_last());
    }
}

/// Parses a decimal amount such as `3.50`, `12` or `.5`.
pub fn parse_decimal(s: &str) -> (r: Option<Decimal>)
    ensures
        r == decimal_of(s@),
{
    let n = s.unicode_len();
    let mut d: usize = 0;
    while d < n && s.get_char(d) != '.'
        invariant
            n == s@.len(),
            d <= n,
            dot_from(s@, 0) == dot_from(s@, d as int),
        decreases n - d,
    {
        d = d + 1;
    }
    let ghost whole = whole_part(s@);
    let ghost frac = fraction_part(s@);
    let ghost digits = whole + frac;
    let m: usize = if d < n { n - 1 } else { n };
    assert(digits.len() == m);
    let mut acc: u64 = 0;
    let mut j: usize = 0;
    while j < m
        invariant
            n == s@.len(),
            d <= n,
            d == dot_from(s@, 0),
            whole == s@.take(d as int),
            frac == fraction_part(s@),
            digits == whole + frac,
            digits.len() == m,
            j <= m,
            acc == digits_value(digits.take(j as int)),
            forall|k: int| 0 <= k < j ==> is_digit(#[trigger] digits[k]),
        decreases m - j,
    {
        let c = if j < d { s.get_char(j) } else { s.get_char(j + 1) };
        assert(c == digits[j as int]);
        if !('0' <= c && c <= '9') {
            proof {
                if j < d {
                    assert(whole[j as int] == c);
                } else {
                    assert(frac[j - d] == c);
                }
            }
            return None;
        }
        assert(digits.take(j + 1).drop_last() =~= digits.take(j as int));
        let v = (c as u32 - '0' as u32) as u64;
        if acc > (u64::MAX - v) / 10 {
            proof {
                if all_digits(whole) && all_digits(frac) {
                    assert(all_digits(digits));
                    lemma_prefix_value_le(digits, j + 1);
                }
            }
            return None;
        }
        acc = acc * 10 + v;
        j = j + 1;
    }
    if m == 0 {
        return None;
    }
    proof {
        assert(digits.take(m as int) =~= digits);
        assert forall|k: int| 0 <= k < whole.len() implies is_digit(#[trigger] whole[k]) by {
            assert(whole[k] == digits[k]);
        }
        assert forall|k: int| 0 <= k < frac.len() implies is_digit(#[trigger] frac[k]) by {
            assert(frac[k] == digits[whole.len() + k]);
        }
    }
    Some(Decimal { mantissa: acc, scale: m - d })
}

/// A price row as found on the page: the text of each value element and of
/// each description element.
pub struct RawPrice {
    pub values: Vec<String>,
    pub descs: Vec<String>,
}

/// A price entry of a menu: a descriptive tag and an amount.
#[derive(Debug)]
pub struct Price {
    pub tag: String,
    pub price: Decimal,
}

impl View for Price {
    type V = (Seq<char>, Decimal);

    open spec fn view(&self) -> (Seq<char>, Decimal) {
        (self.tag@, self.price)
    }
}

/// The first amount among value texts that parses.
pub open spec fn first_decimal(values: Seq<Seq<char>>) -> Option<Decimal>
    decreases values.len(),
{
    if values.len() == 0 {
        None
    } else {
        match decimal_of(values[0]) {
            Some(d) => Some(d),
            None => first_decimal(values.skip(1)),
        }
    }
}

/// The entry a price row gives: its first parsable amount with the first
/// description text, or nothing when no amount parses.
pub open spec fn price_entry(raw: RawPrice) -> Option<(Seq<char>, Decimal)> {
    match first_decimal(texts_view(raw.values@)) {
        Some(d) => Some((first_or_empty(texts_view(raw.descs@)), d)),
        None => None,
    }
}

/// A row none of whose value texts is a decimal gives no entry.
pub proof fn lemma_unparsable_row_gives_nothing(raw: RawPrice)
    requires
        forall|i: int| 0 <= i < raw.values@.len() ==> decimal_of(#[trigger] raw.values@[i]@) is None,
    ensures
        price_entry(raw) is None,
{
    lemma_no_first_decimal(texts_view(raw.values@));
}

proof fn lemma_no_first_decimal(values: Seq<Seq<char>>)
    requires
        forall|i: int| 0 <= i < values.len() ==> decimal_of(#[trigger] values[i]) is None,
    ensures
        first_decimal(values) is None,
    decreases values.len(),
{
    if values.len() > 0 {
        assert(decimal_of(values[0]) is None);
        let rest = values.skip(1);
        assert forall|i: int| 0 <= i < rest.len() implies decimal_of(#[trigger] rest[i]) is None by {
            assert(rest[i] == values[i + 1]);
        }
        lemma_no_first_decimal(rest);
    }
}

/// A row whose first value text is a decimal gives exactly one entry with
/// that amount and the first description text, which is empty when the row
/// has no description.
pub proof fn lemma_decimal_row_gives_entry(raw: RawPrice)
    requires
        raw.values@.len() > 0,
        decimal_of(raw.values@[0]@) is Some,
    ensures
        price_entry(raw) == Some((first_or_empty(texts_view(raw.descs@)), decimal_of(raw.values@[0]@)->0)),
        raw.descs@.len() == 0 ==> price_entry(raw) == Some((Seq::<char>::empty(), decimal_of(raw.values@[0]@)->0)),
{
    assert(texts_view(raw.values@)[0] == raw.values@[0]@);
}

/// The entries of a list of price rows, in order, rows without an amount left out.
pub open spec fn price_entries(rows: Seq<RawPrice>) -> Seq<(Seq<char>, Decimal)>
    decreases rows.len(),
{
    if rows.len() == 0 {
        Seq::empty()
    } else {
        match price_entry(rows.last()) {
            Some(e) => price_entries(rows.drop_last()).push(e),
            None => price_entries(rows.drop_last()),
        }
    }
}

/// The views of a list of prices.
pub open spec fn prices_view(v: Seq<Price>) -> Seq<(Seq<char>, Decimal)> {
    v.map_values(|p: Price| p@)
}

/// Extracts the price entry of one row.
pub fn extract_price(raw: &RawPrice) -> (r: Option<Price>)
    ensures
        match r {
            Some(p) => price_entry(*raw) == Some(p@),
            None => price_entry(*raw) is None,
        },
{
    let ghost vals = texts_view(raw.values@);
    let mut i: usize = 0;
    assert(vals.skip(0) =~= vals);
    while i < raw.values.len()
        invariant
            vals == texts_view(raw.values@),
            i <= raw.values@.len(),
            first_decimal(vals) == first_decimal(vals.skip(i as int)),
        decreases raw.values@.len() - i,
    {
        assert(vals.skip(i as int).skip(1) =~= vals.skip(i + 1));
        match parse_decimal(raw.values[i].as_str()) {
            Some(d) => {
                return Some(Price { tag: first_text(&raw.descs), price: d });
            },
            None => {},
        }
        i = i + 1;
    }
    None
}

/// Extracts the price entries of all rows of a menu item, in page order.
pub fn extract_prices(rows: &Vec<RawPrice>) -> (r: Vec<Price>)
    ensures
        prices_view(r@) == price_entries(rows@),
{
    let mut out: Vec<Price> = Vec::new();
    let mut i: usize = 0;
    while i < rows.len()
        invariant
            i <= rows@.len(),
            prices_view(out@) == price_entries(rows@.take(i as int)),
        decreases rows@.len() - i,
    {
        assert(rows@.take(i + 1).drop_last() =~= rows@.take(i as int));
        match extract_price(&rows[i]) {
            Some(p) => {
                out.push(p);
                assert(prices_view(out@) =~= price_entries(rows@.take(i as int)).push(p@));
            },
            None => {},
        }
        i = i + 1;
    }
    assert(rows@.take(rows@.len() as int) =~= rows@);
    out
}

} // verus!
