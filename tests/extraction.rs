use menu_scraper::date::{resolve_date, Date, MAX_YEAR, MIN_YEAR};
use menu_scraper::label::{find_label_token, label_of_item, Label};
use menu_scraper::menu::{build_menu, extract_day, extract_menus, RawDay, RawItem};
use menu_scraper::price::{extract_price, extract_prices, parse_decimal, Decimal, RawPrice};
use menu_scraper::text::{first_text, remove_soft_breaks, same_text};

fn strings(parts: &[&str]) -> Vec<String> {
    parts.iter().map(|s| s.to_string()).collect()
}

fn item(title: &str, labels: Vec<Vec<String>>, prices: Vec<RawPrice>) -> RawItem {
    RawItem { titles: strings(&[title]), descriptions: vec![], labels, prices }
}

fn price(value: &str, desc: &str) -> RawPrice {
    RawPrice { values: strings(&[value]), descs: strings(&[desc]) }
}

#[test]
fn classify_known_tokens() {
    assert_eq!(Label::classify("vegan"), Label::Vegan);
    assert_eq!(Label::classify("vegetarian"), Label::Vegetarian);
    assert_eq!(Label::classify("one-climate"), Label::OneClimate);
}

#[test]
fn classify_unknown_tokens_gives_missing() {
    assert_eq!(Label::classify("Vegan"), Label::Missing);
    assert_eq!(Label::classify("vega"), Label::Missing);
    assert_eq!(Label::classify(""), Label::Missing);
    assert_eq!(Label::classify("vegan "), Label::Missing);
}

#[test]
fn classify_twice_gives_same_label() {
    for t in ["vegan", "vegetarian", "one-climate", "fish"] {
        assert_eq!(Label::classify(t), Label::classify(t));
    }
}

#[test]
fn label_from_string() {
    assert_eq!(Label::from("vegetarian".to_string()), Label::Vegetarian);
    assert_eq!(Label::from("meat".to_string()), Label::Missing);
}

#[test]
fn label_wire_codes() {
    assert_eq!(Label::Missing.code(), 0);
    assert_eq!(Label::Vegetarian.code(), 1);
    assert_eq!(Label::Vegan.code(), 2);
    assert_eq!(Label::OneClimate.code(), 3);
}

#[test]
fn label_token_in_class_list() {
    assert_eq!(find_label_token("label label-vegan"), Some("vegan".to_string()));
    assert_eq!(find_label_token("label-vegetarian"), Some("vegetarian".to_string()));
    assert_eq!(find_label_token("label-vegan label-vegetarian"), Some("vegetarian".to_string()));
    assert_eq!(find_label_token("label-one-climate"), Some("one".to_string()));
    assert_eq!(find_label_token("label label-"), None);
    assert_eq!(find_label_token("label"), None);
    assert_eq!(find_label_token(""), None);
}

#[test]
fn item_label_uses_first_element_only() {
    let elements = vec![strings(&["label label-vegan"]), strings(&["label label-vegetarian"])];
    assert_eq!(label_of_item(&elements), Label::Vegan);
    assert_eq!(label_of_item(&vec![]), Label::Missing);
    assert_eq!(label_of_item(&vec![strings(&["label"]), strings(&["label-vegan"])]), Label::Missing);
    assert_eq!(label_of_item(&vec![strings(&["x", "label label-vegan"])]), Label::Vegan);
}

#[test]
fn decimals_parse() {
    assert_eq!(parse_decimal("3.50"), Some(Decimal { mantissa: 350, scale: 2 }));
    assert_eq!(parse_decimal("12"), Some(Decimal { mantissa: 12, scale: 0 }));
    assert_eq!(parse_decimal(".5"), Some(Decimal { mantissa: 5, scale: 1 }));
    assert_eq!(parse_decimal("3."), Some(Decimal { mantissa: 3, scale: 0 }));
    assert_eq!(parse_decimal("0"), Some(Decimal { mantissa: 0, scale: 0 }));
    assert_eq!(
        parse_decimal("18446744073709551615"),
        Some(Decimal { mantissa: u64::MAX, scale: 0 })
    );
}

#[test]
fn non_decimals_fail() {
    for s in ["n/a", "", ".", "1.2.3", "-1", "3,50", " 3.50", "18446744073709551616", "1e3"] {
        assert_eq!(parse_decimal(s), None, "{s}");
    }
}

#[test]
fn price_with_unparsable_value_is_dropped() {
    assert!(extract_price(&price("n/a", "Student")).is_none());
    let empty = RawPrice { values: vec![], descs: strings(&["Student"]) };
    assert!(extract_price(&empty).is_none());
}

#[test]
fn price_takes_first_parsable_value() {
    let raw = RawPrice { values: strings(&["n/a", "2.00", "3.00"]), descs: strings(&["Staff", "Guest"]) };
    let p = extract_price(&raw).unwrap();
    assert_eq!(p.price, Decimal { mantissa: 200, scale: 2 });
    assert_eq!(p.tag, "Staff");
}

#[test]
fn price_keeps_empty_tag() {
    let raw = RawPrice { values: strings(&["4.10"]), descs: vec![] };
    let p = extract_price(&raw).unwrap();
    assert_eq!(p.tag, "");
    assert_eq!(p.price, Decimal { mantissa: 410, scale: 2 });
}

#[test]
fn prices_keep_page_order() {
    let rows = vec![price("2.00", "Student"), price("n/a", "Staff"), price("5.5", "Guest")];
    let ps = extract_prices(&rows);
    assert_eq!(ps.len(), 2);
    assert_eq!(ps[0].tag, "Student");
    assert_eq!(ps[1].tag, "Guest");
    assert_eq!(ps[1].price, Decimal { mantissa: 55, scale: 1 });
}

#[test]
fn soft_breaks_are_removed() {
    assert_eq!(remove_soft_breaks("Gemüse-\nsuppe"), "Gemüsesuppe");
    assert_eq!(remove_soft_breaks("a-b\nc"), "a-b\nc");
    assert_eq!(remove_soft_breaks("-\n-\n"), "");
    assert_eq!(remove_soft_breaks("--\n\n"), "-\n");
    assert_eq!(remove_soft_breaks(""), "");
}

#[test]
fn text_helpers() {
    assert_eq!(first_text(&vec![]), "");
    assert_eq!(first_text(&strings(&["a", "b"])), "a");
    assert!(same_text("äb", "äb"));
    assert!(!same_text("ab", "abc"));
    assert!(!same_text("ab", "ac"));
}

#[test]
fn dates_resolve_in_reference_year() {
    assert_eq!(resolve_date("24.12", 2024), Some(Date { year: 2024, month: 12, day: 24 }));
    assert_eq!(resolve_date("24.12.", 2024), Some(Date { year: 2024, month: 12, day: 24 }));
    assert_eq!(resolve_date(" 24.12.\n ", 2024), Some(Date { year: 2024, month: 12, day: 24 }));
    assert_eq!(resolve_date("1.3", 2023), Some(Date { year: 2023, month: 3, day: 1 }));
    assert_eq!(resolve_date("29.02", 2024), Some(Date { year: 2024, month: 2, day: 29 }));
}

#[test]
fn early_month_keeps_reference_year() {
    // A January day seen in December still resolves in the reference year.
    assert_eq!(resolve_date("05.01", 2024), Some(Date { year: 2024, month: 1, day: 5 }));
}

#[test]
fn invalid_dates_fail() {
    for s in ["29.02", "32.01", "31.04", "00.01", "10.13", "10.0", "24-12", "", "  ", "24.12.2024", "123.1", "1.123", ".12", "24.", "a.b", "24..12"] {
        assert_eq!(resolve_date(s, 2023), None, "{s:?}");
    }
}

#[test]
fn resolving_twice_gives_same_date() {
    assert_eq!(resolve_date("24.12", 2024), resolve_date("24.12", 2024));
    assert_eq!(resolve_date("x", 2024), resolve_date("x", 2024));
}

#[test]
fn single_item_page() {
    let days = vec![RawDay {
        date_text: "24.12".to_string(),
        items: vec![item("Soup", vec![], vec![price("3.50", "Student")])],
    }];
    let batches = extract_menus(&days, 2024);
    assert_eq!(batches.len(), 1);
    assert_eq!(batches[0].len(), 1);
    let m = &batches[0][0];
    assert_eq!(m.title, "Soup");
    assert_eq!(m.description, "");
    assert_eq!(m.date, Date { year: 2024, month: 12, day: 24 });
    assert_eq!(m.channel, 0);
    assert_eq!(m.label, Label::Missing);
    assert_eq!(m.prices.len(), 1);
    assert_eq!(m.prices[0].tag, "Student");
    assert_eq!(m.prices[0].price, Decimal { mantissa: 350, scale: 2 });
}

#[test]
fn vegan_label_span() {
    let raw = item("Curry", vec![strings(&["label label-vegan"])], vec![]);
    let m = build_menu(Date { year: 2024, month: 5, day: 6 }, 3, &raw);
    assert_eq!(m.label, Label::Vegan);
    assert_eq!(m.label.code(), 2);
    assert_eq!(m.channel, 3);
}

#[test]
fn unparsable_price_is_omitted() {
    let raw = item("Pasta", vec![], vec![price("n/a", "Student"), price("4.00", "Guest")]);
    let m = build_menu(Date { year: 2024, month: 5, day: 6 }, 0, &raw);
    assert_eq!(m.prices.len(), 1);
    assert_eq!(m.prices[0].tag, "Guest");
    let only = item("Pasta", vec![], vec![price("n/a", "Student")]);
    let m = build_menu(Date { year: 2024, month: 5, day: 6 }, 0, &only);
    assert!(m.prices.is_empty());
    assert_eq!(m.title, "Pasta");
}

#[test]
fn title_and_description_are_cleaned() {
    let raw = RawItem {
        titles: strings(&["Kartoffel-\nsuppe", "ignored"]),
        descriptions: strings(&["mit Brot-\nwürfeln"]),
        labels: vec![],
        prices: vec![],
    };
    let m = build_menu(Date { year: 2024, month: 1, day: 2 }, 0, &raw);
    assert_eq!(m.title, "Kartoffelsuppe");
    assert_eq!(m.description, "mit Brotwürfeln");
}

#[test]
fn channels_number_columns() {
    let items = vec![item("A", vec![], vec![]), item("B", vec![], vec![]), item("C", vec![], vec![])];
    let ms = extract_day(Date { year: 2024, month: 1, day: 2 }, &items);
    assert_eq!(ms.len(), 3);
    for (i, m) in ms.iter().enumerate() {
        assert_eq!(m.channel, i);
    }
    assert_eq!(ms[2].title, "C");
}

#[test]
fn unresolved_panels_are_skipped() {
    let days = vec![
        RawDay { date_text: "Montag".to_string(), items: vec![item("A", vec![], vec![])] },
        RawDay { date_text: "25.12.".to_string(), items: vec![item("B", vec![], vec![]), item("C", vec![], vec![])] },
        RawDay { date_text: "30.02".to_string(), items: vec![item("D", vec![], vec![])] },
        RawDay { date_text: "26.12".to_string(), items: vec![] },
    ];
    let batches = extract_menus(&days, 2024);
    assert_eq!(batches.len(), 2);
    assert_eq!(batches[0].len(), 2);
    assert_eq!(batches[0][0].title, "B");
    assert_eq!(batches[0][1].channel, 1);
    assert_eq!(batches[0][0].date, Date { year: 2024, month: 12, day: 25 });
    assert!(batches[1].is_empty());
}

#[test]
fn empty_page_gives_nothing() {
    assert!(extract_menus(&vec![], 2024).is_empty());
}

#[test]
fn year_range_bounds() {
    assert_eq!(resolve_date("1.1", MAX_YEAR), Some(Date { year: MAX_YEAR, month: 1, day: 1 }));
    assert_eq!(resolve_date("1.1", MIN_YEAR), Some(Date { year: MIN_YEAR, month: 1, day: 1 }));
    assert_eq!(resolve_date("1.1", MAX_YEAR + 1), None);
    assert_eq!(resolve_date("1.1", MIN_YEAR - 1), None);
}

#[test]
fn leap_years_follow_gregorian_rule() {
    assert_eq!(resolve_date("29.2", 2000), Some(Date { year: 2000, month: 2, day: 29 }));
    assert_eq!(resolve_date("29.2", 1900), None);
    assert_eq!(resolve_date("29.2", -4), Some(Date { year: -4, month: 2, day: 29 }));
    for year in [1999, 2023, 2024] {
        for month in 1..=12u32 {
            for day in 1..=31u32 {
                let text = format!("{day}.{month}");
                let exists = chrono::NaiveDate::from_ymd_opt(year, month, day).is_some();
                assert_eq!(resolve_date(&text, year).is_some(), exists, "{text} {year}");
            }
        }
    }
}
