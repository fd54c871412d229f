//! Resolution of short `day.month` texts to calendar dates.

use vstd::prelude::*;
use crate::price::{all_digits, digits_value, dot_from, is_digit};

verus! {

/// A calendar day; as a point in time it stands for midnight UTC of that day.
#[derive(Clone, Copy, Debug, PartialEq, Eq, Structural)]
pub struct Date {
    pub year: i32,
    pub month: u32,
    pub day: u32,
}

/// The earliest year a calendar date can have.
pub const MIN_YEAR: i32 = -262143;

/// The latest year a calendar date can have.
pub const MAX_YEAR: i32 = 262142;

pub open spec fn is_leap_year(y: int) -> bool {
    (y % 4 == 0 && y % 100 != 0) || y % 400 == 0
}

pub open spec fn days_in_month(y: int, m: int) -> int {
    if m == 2 {
        if is_leap_year(y) { 29 } else { 28 }
    } else if m == 4 || m == 6 || m == 9 || m == 11 {
        30
    } else {
        31
    }
}

/// A day of the proleptic Gregorian calendar within the supported years.
pub open spec fn is_calendar_date(y: int, m: int, d: int) -> bool {
    &&& MIN_YEAR <= y <= MAX_YEAR
    &&& 1 <= m <= 12
    &&& 1 <= d <= days_in_month(y, m)
}

/// Relies on chrono::NaiveDate::from_ymd_opt: it gives a date exactly when
/// the year lies in chrono's range and the month and day name an existing
/// day of the Gregorian calendar.
#[verifier::external_body]
fn calendar_date_exists(year: i32, month: u32, day: u32) -> (r: bool)
    ensures
        r == is_calendar_date(year as int, month as int, day as int),
{
    chrono::NaiveDate::from_ymd_opt(year, month, day).is_some()
}

pub open spec fn is_space(c: char) -> bool {
    c == ' ' || c == '\t' || c == '\n' || c == '\r'
}

/// The first position at or after `i` that holds no whitespace.
pub open spec fn skip_space(s: Seq<char>, i: int) -> int
    decreases s.len() - i,
{
    if 0 <= i < s.len() && is_space(s[i]) {
        skip_space(s, i + 1)
    } else {
        i
    }
}

/// The end of `s.take(k)` once trailing whitespace is dropped.
pub open spec fn trim_end(s: Seq<char>, k: int) -> int
    decreases k,
{
    if 0 < k <= s.len() && is_space(s[k - 1]) {
        trim_end(s, k - 1)
    } else {
        k
    }
}

/// `s` without leading and trailing whitespace.
pub open spec fn trimmed(s: Seq<char>) -> Seq<char> {
    let a = skip_space(s, 0);
    let b = trim_end(s, s.len() as int);
    if a < b {
        s.subrange(a, b)
    } else {
        Seq::empty()
    }
}

/// One or two decimal digits.
pub open spec fn is_group(g: Seq<char>) -> bool {
    1 <= g.len() <= 2 && all_digits(g)
}

/// The day and month a text `d.m` or `d.m.` writes, each one or two digits.
pub open spec fn day_month(core: Seq<char>) -> Option<(int, int)> {
    let p = dot_from(core, 0);
    let day = core.take(p);
    let rest = if p < core.len() { core.skip(p + 1) } else { Seq::empty() };
    let month = if rest.len() > 0 && rest.last() == '.' { rest.drop_last() } else { rest };
    if p < core.len() && is_group(day) && is_group(month) {
        Some((digits_value(day), digits_value(month)))
    } else {
        None
    }
}

/// The date a `day.month` text names in the given year, surrounding
/// whitespace aside; `None` when the text is no such pair or the day does
/// not exist in that year.
pub open spec fn date_of(text: Seq<char>, year: i32) -> Option<Date> {
    match day_month(trimmed(text)) {
        Some((d, m)) => if is_calendar_date(year as int, m, d) {
            Some(Date { year, month: m as u32, day: d as u32 })
        } else {
            None
        },
        None => None,
    }
}

proof fn lemma_trim_end_le(s: Seq<char>, k: int)
    ensures
        trim_end(s, k) <= k,
    decreases k,
{
    if 0 < k <= s.len() && is_space(s[k - 1]) {
        lemma_trim_end_le(s, k - 1);
    }
}

/// A text of one or two day digits, a dot, one or two month digits and,
/// optionally, a closing dot, resolves in any year to midnight of that day
/// and month of that year when the day exists there, and to nothing otherwise.
pub proof fn lemma_day_month_text_resolves(day: Seq<char>, month: Seq<char>, closing_dot: bool, year: i32)
    requires
        is_group(day),
        is_group(month),
    ensures
        ({
            let text = if closing_dot { day + seq!['.'] + month + seq!['.'] } else { day + seq!['.'] + month };
            date_of(text, year) == if is_calendar_date(year as int, digits_value(month), digits_value(day)) {
                Some(Date { year, month: digits_value(month) as u32, day: digits_value(day) as u32 })
            } else {
                None
            }
        }),
{
    let text = if closing_dot { day + seq!['.'] + month + seq!['.'] } else { day + seq!['.'] + month };
    let p = day.len() as int;
    assert(is_digit(day[0]));
    assert(text[0] == day[0]);
    assert(skip_space(text, 0) == 0);
    let last = text.len() - 1;
    if closing_dot {
        assert(text[last] == '.');
    } else {
        assert(text[last] == month[month.len() - 1]);
        assert(is_digit(month[month.len() - 1]));
    }
    assert(trim_end(text, text.len() as int) == text.len());
    assert(trimmed(text) =~= text);
    assert(text[p] == '.');
    assert(dot_from(text, p) == p);
    if p == 2 {
        assert(text[1] == day[1]);
        assert(is_digit(day[1]));
        assert(dot_from(text, 1) == p);
    }
    assert(text[0] != '.');
    assert(dot_from(text, 0) == p);
    assert(text.take(p) =~= day);
    let rest = text.skip(p + 1);
    if closing_dot {
        assert(rest.drop_last() =~= month);
    } else {
        assert(rest =~= month);
        assert(rest.last() == month[month.len() - 1]);
    }
    lemma_digit_groups_fit(day);
    lemma_digit_groups_fit(month);
}

/// Resolution depends on the text and the year alone: resolving the same
/// text in the same year twice gives the same date.
pub proof fn lemma_resolution_is_repeatable(first: Seq<char>, second: Seq<char>, year: i32)
    requires
        first == second,
    ensures
        date_of(first, year) == date_of(second, year),
{
}

proof fn lemma_digit_groups_fit(g: Seq<char>)
    requires
        is_group(g),
    ensures
        0 <= digits_value(g) <= 99,
{
    assert(is_digit(g[0]));
    assert(g.take(1).drop_last() =~= Seq::<char>::empty());
    assert(g.take(1).last() == g[0]);
    assert(digits_value(Seq::<char>::empty()) == 0);
    assert(digits_value(g.take(1)) == g[0] as int - '0' as int);
    if g.len() == 2 {
        assert(is_digit(g[1]));
        assert(g.last() == g[1]);
        assert(g.drop_last() =~= g.take(1));
    } else {
        assert(g.take(1) =~= g);
    }
}

fn space(c: char) -> (r: bool)
    ensures
        r == is_space(c),
{
    c == ' ' || c == '\t' || c == '\n' || c == '\r'
}

fn group_value(g: &str) -> (r: Option<u32>)
    ensures
        match r {
            Some(v) => is_group(g@) && v == digits_value(g@),
            None => !is_group(g@),
        },
{
    let n = g.unicode_len();
    if n == 0 || n > 2 {
        return None;
    }
    let c0 = g.get_char(0);
    if !('0' <= c0 && c0 <= '9') {
        assert(!is_digit(g@[0]));
        return None;
    }
    let v0 = c0 as u32 - '0' as u32;
    let ghost first = g@.take(1);
    assert(first.drop_last() =~= Seq::<char>::empty());
    assert(first.last() == c0);
    assert(digits_value(Seq::<char>::empty()) == 0);
    assert(digits_value(first) == v0);
    if n == 1 {
        assert(first =~= g@);
        return Some(v0);
    }
    let c1 = g.get_char(1);
    if !('0' <= c1 && c1 <= '9') {
        assert(!is_digit(g@[1]));
        return None;
    }
    let v1 = c1 as u32 - '0' as u32;
    assert(g@.drop_last() =~= first);
    Some(v0 * 10 + v1)
}

/// Resolves a `day.month` text, such as `24.12` or `24.12.`, to midnight of
/// that day in `year`; the year is taken as given, whatever the month.
pub fn resolve_date(text: &str, year: i32) -> (r: Option<Date>)
    ensures
        r == date_of(text@, year),
{
    let ghost s = text@;
    let n = text.unicode_len();
    let mut a: usize = 0;
    while a < n && space(text.get_char(a))
        invariant
            n == s.len(),
            s == text@,
            a <= n,
            skip_space(s, 0) == skip_space(s, a as int),
        decreases n - a,
    {
        a = a + 1;
    }
    if a == n {
        proof {
            lemma_trim_end_le(s, n as int);
        }
        assert(trimmed(s) =~= Seq::<char>::empty());
        return None;
    }
    let mut b: usize = n;
    while space(text.get_char(b - 1))
        invariant
            n == s.len(),
            s == text@,
            a < b <= n,
            !is_space(s[a as int]),
            trim_end(s, n as int) == trim_end(s, b as int),
        decreases b,
    {
        b = b - 1;
    }
    let core = text.substring_char(a, b);
    assert(core@ == trimmed(s));
    let len = b - a;
    let mut p: usize = 0;
    while p < len && core.get_char(p) != '.'
        invariant
            len == core@.len(),
            p <= len,
            dot_from(core@, 0) == dot_from(core@, p as int),
        decreases len - p,
    {
        p = p + 1;
    }
    if p == len {
        return None;
    }
    let month_end: usize = if len > p + 1 && core.get_char(len - 1) == '.' { len - 1 } else { len };
    let ghost rest = core@.skip(p + 1);
    assert(month_end == len - 1 ==> rest.drop_last() =~= core@.subrange(p + 1, month_end as int));
    assert(month_end == len ==> rest =~= core@.subrange(p + 1, month_end as int));
    let day = group_value(core.substring_char(0, p));
    let month = group_value(core.substring_char(p + 1, month_end));
    match (day, month) {
        (Some(d), Some(m)) => {
            if calendar_date_exists(year, m, d) {
                Some(Date { year, month: m, day: d })
            } else {
                None
            }
        },
        _ => None,
    }
}

} // verus!
