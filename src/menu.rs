//! Assembly of menu records from the values read off a weekly menu page.

use vstd::prelude::*;
use crate::date::{date_of, resolve_date, Date};
use crate::label::{elements_view, item_label, label_of_item, Label};
use crate::price::{extract_prices, price_entries, prices_view, Price, RawPrice};
use crate::text::{first_or_empty, first_text, remove_soft_breaks, texts_view, without_soft_breaks};

verus! {

/// One item column of a day panel, as found on the page: the text of each
/// title element and each description element, the attribute values of each
/// label element, and the price rows.
pub struct RawItem {
    pub titles: Vec<String>,
    pub descriptions: Vec<String>,
    pub labels: Vec<Vec<String>>,
    pub prices: Vec<RawPrice>,
}

/// One day panel: the text of its date label and its item columns in page order.
pub struct RawDay {
    pub date_text: String,
    pub items: Vec<RawItem>,
}

/// A menu record: one item of one day.
#[derive(Debug)]
pub struct Menu {
    pub title: String,
    pub description: String,
    pub date: Date,
    pub channel: usize,
    pub label: Label,
    pub prices: Vec<Price>,
}

/// `m` is the record of the item `raw` in column `channel` of the panel of `date`.
pub open spec fn menu_built_from(m: Menu, date: Date, channel: int, raw: RawItem) -> bool {
    &&& m.title@ == without_soft_breaks(first_or_empty(texts_view(raw.titles@)))
    &&& m.description@ == without_soft_breaks(first_or_empty(texts_view(raw.descriptions@)))
    &&& m.date == date
    &&& m.channel == channel
    &&& m.label == item_label(elements_view(raw.labels@))
    &&& prices_view(m.prices@) == price_entries(raw.prices@)
}

/// `ms` holds one record per item column of a panel, in column order.
pub open spec fn day_built_from(ms: Seq<Menu>, date: Date, items: Seq<RawItem>) -> bool {
    &&& ms.len() == items.len()
    &&& forall|i: int| 0 <= i < items.len() ==> menu_built_from(#[trigger] ms[i], date, i, items[i])
}

/// The panels whose date label resolves in `year`, in page order, with their dates.
pub open spec fn resolved_days(days: Seq<RawDay>, year: i32) -> Seq<(Date, Seq<RawItem>)>
    decreases days.len(),
{
    if days.len() == 0 {
        Seq::empty()
    } else {
        match date_of(days.last().date_text@, year) {
            Some(d) => resolved_days(days.drop_last(), year).push((d, days.last().items@)),
            None => resolved_days(days.drop_last(), year),
        }
    }
}

/// `batches` holds, for each panel whose date resolves, the records of its items.
pub open spec fn menus_built_from(batches: Seq<Vec<Menu>>, days: Seq<RawDay>, year: i32) -> bool {
    let resolved = resolved_days(days, year);
    &&& batches.len() == resolved.len()
    &&& forall|k: int|
        0 <= k < resolved.len() ==> day_built_from(
            #[trigger] batches[k]@,
            resolved[k].0,
            resolved[k].1,
        )
}

/// A panel whose date label does not resolve adds no records: the resolved
/// panels of a page are those of the panels before it.
pub proof fn lemma_unresolved_panel_adds_nothing(days: Seq<RawDay>, day: RawDay, year: i32)
    requires
        date_of(day.date_text@, year) is None,
    ensures
        resolved_days(days.push(day), year) == resolved_days(days, year),
{
    assert(days.push(day).drop_last() =~= days);
}

/// A panel whose date label resolves adds exactly one batch, which holds its
/// items under that date.
pub proof fn lemma_resolved_panel_adds_one_batch(days: Seq<RawDay>, day: RawDay, year: i32)
    requires
        date_of(day.date_text@, year) is Some,
    ensures
        resolved_days(days.push(day), year) == resolved_days(days, year).push(
            (date_of(day.date_text@, year)->0, day.items@),
        ),
{
    assert(days.push(day).drop_last() =~= days);
}

/// Builds the record of one item column.
pub fn build_menu(date: Date, channel: usize, raw: &RawItem) -> (m: Menu)
    ensures
        menu_built_from(m, date, channel as int, *raw),
{
    let title = first_text(&raw.titles);
    let description = first_text(&raw.descriptions);
    Menu {
        title: remove_soft_breaks(title.as_str()),
        description: remove_soft_breaks(description.as_str()),
        date,
        channel,
        label: label_of_item(&raw.labels),
        prices: extract_prices(&raw.prices),
    }
}

/// Builds the records of all item columns of one panel, numbering the
/// columns from zero.
pub fn extract_day(date: Date, items: &Vec<RawItem>) -> (r: Vec<Menu>)
    ensures
        day_built_from(r@, date, items@),
{
    let mut out: Vec<Menu> = Vec::new();
    let mut i: usize = 0;
    while i < items.len()
        invariant
            i <= items@.len(),
            out@.len() == i,
            forall|k: int| 0 <= k < i ==> menu_built_from(#[trigger] out@[k], date, k, items@[k]),
        decreases items@.len() - i,
    {
        let m = build_menu(date, i, &items[i]);
        out.push(m);
        i = i + 1;
    }
    out
}

/// Builds the records of every panel whose date label resolves in `year`,
/// one batch per such panel in page order; other panels give nothing.
pub fn extract_menus(days: &Vec<RawDay>, year: i32) -> (r: Vec<Vec<Menu>>)
    ensures
        menus_built_from(r@, days@, year),
{
    let mut out: Vec<Vec<Menu>> = Vec::new();
    let mut i: usize = 0;
    while i < days.len()
        invariant
            i <= days@.len(),
            menus_built_from(out@, days@.take(i as int), year),
        decreases days@.len() - i,
    {
        let ghost before = resolved_days(days@.take(i as int), year);
        assert(days@.take(i + 1).drop_last() =~= days@.take(i as int));
        assert(days@.take(i + 1).last() == days@[i as int]);
        let day = &days[i];
        match resolve_date(day.date_text.as_str(), year) {
            Some(date) => {
                let batch = extract_day(date, &day.items);
                let ghost old_out = out@;
                out.push(batch);
                let ghost after = resolved_days(days@.take(i + 1), year);
                assert(after == before.push((date, day.items@)));
                assert forall|k: int| 0 <= k < after.len() implies day_built_from(
                    #[trigger] out@[k]@,
                    after[k].0,
                    after[k].1,
                ) by {
                    if k < before.len() {
                        assert(out@[k] == old_out[k]);
                    }
                }
            },
            None => {},
        }
        i = i + 1;
    }
    assert(days@.take(days@.len() as int) =~= days@);
    out
}

} // verus!
