use invoice_extract::columns::nearest_anchor;
use invoice_extract::coords::coords;
use invoice_extract::errors::ExtractError;
use invoice_extract::extract::extract_document;
use invoice_extract::fragments::RawFragment;
use invoice_extract::history::PriceHistory;
use invoice_extract::names::normalize_name;
use invoice_extract::price::Price;
use invoice_extract::rows::{add_item, Row};
use invoice_extract::scanner::{step, ScanState};

fn chars(s: &str) -> Vec<char> {
    s.chars().collect()
}

fn frag(style: &str, text: &str) -> RawFragment {
    RawFragment { style: Some(chars(style)), token: chars(text), leading: Some(chars(text)) }
}

fn heading(style: &str, text: &str) -> RawFragment {
    RawFragment { style: Some(chars(style)), token: chars(text), leading: None }
}

fn run_scanner(tokens: &[&str]) -> ScanState {
    let mut s = ScanState::Start;
    for t in tokens {
        s = step(s, &chars(t));
    }
    s
}

#[test]
fn scanner_full_header_enters_table() {
    let s = run_scanner(&[
        "Supplied",
        "Line",
        "Description",
        "Ordered",
        "Supplied",
        "Price",
        "Amount",
    ]);
    assert_eq!(s, ScanState::InTable);
}

#[test]
fn scanner_mismatch_resets_and_does_not_recover() {
    let s = run_scanner(&[
        "Supplied",
        "Line",
        "Description",
        "X",
        "Ordered",
        "Supplied",
        "Price",
        "Amount",
    ]);
    assert_ne!(s, ScanState::InTable);
    assert_eq!(s, ScanState::Start);
}

#[test]
fn scanner_subtotal_terminator_leaves_table() {
    let s = step(ScanState::InTable, &chars("Sub\u{A0}Total:"));
    assert_eq!(s, ScanState::Start);
}

#[test]
fn scanner_registered_office_prefix_leaves_table() {
    let s = step(ScanState::InTable, &chars("Registered\u{A0}Office:\u{A0}Somewhere 12"));
    assert_eq!(s, ScanState::Start);
}

#[test]
fn scanner_other_text_stays_in_table() {
    let s = step(ScanState::InTable, &chars("Lamb Leg"));
    assert_eq!(s, ScanState::InTable);
}

#[test]
fn coords_reads_top_and_left() {
    let r = coords(&chars("top:108px;left:18px"));
    assert_eq!(r, Some((18000, 108000)));
}

#[test]
fn coords_reads_fractional_pixels() {
    let r = coords(&chars("position:absolute;top:10.5px;left:0px"));
    assert_eq!(r, Some((0, 10500)));
}

#[test]
fn coords_missing_left_fails() {
    assert_eq!(coords(&chars("top:10px")), None);
}

#[test]
fn coords_non_numeric_fails() {
    assert_eq!(coords(&chars("top:abcpx;left:1px")), None);
}

#[test]
fn nearest_anchor_tie_picks_lowest_index() {
    assert_eq!(nearest_anchor(&vec![10, 20], 15), 0);
}

#[test]
fn nearest_anchor_picks_closest() {
    assert_eq!(nearest_anchor(&vec![10, 20, 70], 24), 1);
}

#[test]
fn normalize_name_strips_repeated_markers() {
    assert_eq!(normalize_name(&chars("* ~ (Sub) Lamb")), chars("Lamb"));
}

#[test]
fn normalize_name_keeps_plain_text() {
    assert_eq!(normalize_name(&chars("Beans")), chars("Beans"));
}

#[test]
fn normalize_name_keeps_lone_marker() {
    assert_eq!(normalize_name(&chars("* ")), chars("* "));
}

#[test]
fn add_item_pads_to_six_cells() {
    let mut items: Vec<Row> = Vec::new();
    add_item(vec![Some(chars("1")), Some(chars("Beans"))], &mut items);
    assert_eq!(items.len(), 1);
    let row = &items[0];
    assert_eq!(row.line, Some(chars("1")));
    assert_eq!(row.description, Some(chars("Beans")));
    assert_eq!(row.ordered, None);
    assert_eq!(row.supplied, None);
    assert_eq!(row.price, None);
    assert_eq!(row.amount, None);
}

#[test]
fn add_item_drops_empty_item() {
    let mut items: Vec<Row> = Vec::new();
    add_item(Vec::new(), &mut items);
    assert!(items.is_empty());
}

#[test]
fn empty_document_yields_no_items() {
    let r = extract_document(Some(chars("2024-01-01")), Vec::new()).unwrap();
    assert!(r.is_empty());
}

#[test]
fn empty_page_contributes_nothing() {
    let mut pages = vec![Vec::new()];
    pages.extend(sample_document());
    let r = extract_document(Some(chars("2024-01-01")), pages).unwrap();
    assert_eq!(r.len(), 2);
}

#[test]
fn normalize_name_strips_leading_spaces() {
    assert_eq!(normalize_name(&chars("  * Foo")), chars("Foo"));
}

#[test]
fn missing_date_is_structural_error() {
    let r = extract_document(None, Vec::new());
    let e = r.unwrap_err();
    assert!(matches!(e, ExtractError::MissingDateMeta));
    assert!(e.is_structural());
    assert!(!e.is_format());
    assert!(!e.is_io());
}

#[test]
fn io_error_kind_is_neither_structural_nor_format() {
    let e = ExtractError::Io(chars("unreadable"));
    assert!(e.is_io());
    assert!(!e.is_structural());
    assert!(!e.is_format());
}

#[test]
fn missing_style_is_structural_error() {
    let pages = vec![vec![RawFragment {
        style: None,
        token: chars("Supplied"),
        leading: None,
    }]];
    let r = extract_document(Some(chars("2024-01-01")), pages);
    assert!(matches!(r.unwrap_err(), ExtractError::MissingPosition(None)));
}

#[test]
fn bad_style_is_structural_error() {
    let pages = vec![vec![RawFragment {
        style: Some(chars("top:abcpx;left:1px")),
        token: chars("Supplied"),
        leading: None,
    }]];
    let r = extract_document(Some(chars("2024-01-01")), pages);
    assert!(matches!(r.unwrap_err(), ExtractError::MissingPosition(Some(_))));
}

fn header_fragments() -> Vec<RawFragment> {
    vec![
        heading("top:10px;left:10px", "Supplied"),
        heading("top:10px;left:60px", "Line"),
        heading("top:10px;left:110px", "Description"),
        heading("top:10px;left:160px", "Ordered"),
        heading("top:10px;left:210px", "Supplied"),
        heading("top:10px;left:260px", "Price"),
        heading("top:10px;left:310px", "Amount"),
    ]
}

fn sample_document() -> Vec<Vec<RawFragment>> {
    let mut page = header_fragments();
    // First item row: fixes the first-row y and the column anchors.
    page.push(frag("top:20px;left:10px", "1"));
    page.push(frag("top:20px;left:60px", "* Lamb Leg 1kg - 0.75kg"));
    page.push(frag("top:20px;left:110px", "1"));
    page.push(frag("top:20px;left:160px", "1"));
    page.push(frag("top:20px;left:210px", "$10.00/Kg"));
    page.push(frag("top:20px;left:260px", "$7.50"));
    // Second item row.
    page.push(frag("top:30px;left:10px", "2"));
    page.push(frag("top:30px;left:60px", "Green\u{A0}Beans"));
    page.push(frag("top:30px;left:110px", "1"));
    page.push(frag("top:30px;left:160px", "1"));
    page.push(frag("top:30px;left:210px", "$3.40"));
    page.push(frag("top:30px;left:260px", "$3.40"));
    // Terminator.
    page.push(frag("top:40px;left:10px", "Sub\u{A0}Total:"));
    vec![page]
}

#[test]
fn end_to_end_extracts_two_items() {
    let r = extract_document(Some(chars("2024-01-01")), sample_document()).unwrap();
    assert_eq!(r.len(), 2);
    assert_eq!(r[0].date, chars("2024-01-01"));
    assert_eq!(r[0].name, chars("Lamb Leg 1kg - 0.75kg"));
    assert_eq!(r[0].price, Price(7, 50));
    assert_eq!(r[1].date, chars("2024-01-01"));
    assert_eq!(r[1].name, chars("Green Beans"));
    assert_eq!(r[1].price, Price(3, 40));
}

#[test]
fn end_to_end_out_of_order_fragments_are_linearized() {
    // The same document with the second row's fragments shuffled; sorting
    // by (y, x) must restore reading order.
    let mut page = header_fragments();
    page.push(frag("top:20px;left:10px", "1"));
    page.push(frag("top:20px;left:60px", "Beans"));
    page.push(frag("top:20px;left:110px", "1"));
    page.push(frag("top:20px;left:160px", "1"));
    page.push(frag("top:20px;left:210px", "$3.40"));
    page.push(frag("top:30px;left:210px", "$5.00"));
    page.push(frag("top:30px;left:10px", "2"));
    page.push(frag("top:30px;left:60px", "Corn"));
    let r = extract_document(Some(chars("2024-01-02")), vec![page]).unwrap();
    assert_eq!(r.len(), 2);
    assert_eq!(r[0].name, chars("Beans"));
    assert_eq!(r[0].price, Price(3, 40));
    assert_eq!(r[1].name, chars("Corn"));
    assert_eq!(r[1].price, Price(5, 0));
}

#[test]
fn broken_header_yields_no_items() {
    let mut page = header_fragments();
    // Break the header by inserting a stray token inside the sequence.
    page.insert(3, heading("top:10px;left:135px", "X"));
    page.push(frag("top:20px;left:60px", "Beans"));
    page.push(frag("top:20px;left:210px", "$3.40"));
    let r = extract_document(Some(chars("2024-01-01")), vec![page]).unwrap();
    assert!(r.is_empty());
}

#[test]
fn rows_missing_price_cell_are_dropped() {
    let mut page = header_fragments();
    page.push(frag("top:20px;left:10px", "1"));
    page.push(frag("top:20px;left:60px", "Beans"));
    page.push(frag("top:20px;left:110px", "1"));
    page.push(frag("top:20px;left:160px", "1"));
    page.push(frag("top:20px;left:210px", "$3.40"));
    // Second row has no price cell.
    page.push(frag("top:30px;left:10px", "2"));
    page.push(frag("top:30px;left:60px", "Corn"));
    let r = extract_document(Some(chars("2024-01-01")), vec![page]).unwrap();
    assert_eq!(r.len(), 1);
    assert_eq!(r[0].name, chars("Beans"));
}

#[test]
fn history_overwrites_only_the_same_date() {
    let docs = [
        ("2024-01-01", sample_document()),
        ("2024-01-02", sample_document()),
    ];
    let mut history = PriceHistory::new();
    for (date, doc) in docs {
        for rec in extract_document(Some(chars(date)), doc).unwrap() {
            history.add_record(&rec);
        }
    }
    // A third document reuses a name on the first date with a new price.
    let mut page = header_fragments();
    page.push(frag("top:20px;left:10px", "1"));
    page.push(frag("top:20px;left:60px", "Green\u{A0}Beans"));
    page.push(frag("top:20px;left:110px", "1"));
    page.push(frag("top:20px;left:160px", "1"));
    page.push(frag("top:20px;left:210px", "$9.99"));
    for rec in extract_document(Some(chars("2024-01-01")), vec![page]).unwrap() {
        history.add_record(&rec);
    }
    let beans = chars("Green Beans");
    assert_eq!(history.lookup(&beans, &chars("2024-01-01")), Some(Price(9, 99)));
    assert_eq!(history.lookup(&beans, &chars("2024-01-02")), Some(Price(3, 40)));
    let lamb = chars("Lamb Leg 1kg - 0.75kg");
    assert_eq!(history.lookup(&lamb, &chars("2024-01-01")), Some(Price(7, 50)));
    assert_eq!(history.lookup(&chars("nothing"), &chars("2024-01-01")), None);
    // Two items on each of two dates; the overwrite kept no extra entry.
    assert_eq!(history.len(), 4);
}

#[test]
fn pages_keep_document_order() {
    // The table continues on a second page whose coordinates restart near
    // the top; pages are sorted within themselves but concatenated in
    // document order, so the continuation row is still inside the table.
    let mut first = header_fragments();
    first.push(frag("top:20px;left:10px", "1"));
    first.push(frag("top:20px;left:60px", "Beans"));
    first.push(frag("top:20px;left:110px", "1"));
    first.push(frag("top:20px;left:160px", "1"));
    first.push(frag("top:20px;left:210px", "$3.40"));
    let second = vec![
        frag("top:5px;left:10px", "2"),
        frag("top:5px;left:60px", "Corn"),
        frag("top:5px;left:110px", "1"),
        frag("top:5px;left:160px", "1"),
        frag("top:5px;left:210px", "$5.00"),
    ];
    let r = extract_document(Some(chars("2024-01-01")), vec![first, second]).unwrap();
    assert_eq!(r.len(), 2);
    assert_eq!(r[1].name, chars("Corn"));
    assert_eq!(r[1].price, Price(5, 0));
}

#[test]
fn second_table_section_rebuilds_anchors() {
    // Two table sections in one document, at different column positions;
    // anchors from the first section must not leak into the second.
    let mut page = header_fragments();
    page.push(frag("top:20px;left:10px", "1"));
    page.push(frag("top:20px;left:60px", "Beans"));
    page.push(frag("top:20px;left:110px", "1"));
    page.push(frag("top:20px;left:160px", "1"));
    page.push(frag("top:20px;left:210px", "$3.40"));
    page.push(frag("top:40px;left:10px", "Sub\u{A0}Total:"));
    // Second section, shifted 500px down and 5px right.
    let shift = |y: i32, x: i32| format!("top:{}px;left:{}px", y + 500, x + 5);
    page.push(heading(&shift(10, 10), "Supplied"));
    page.push(heading(&shift(10, 60), "Line"));
    page.push(heading(&shift(10, 110), "Description"));
    page.push(heading(&shift(10, 160), "Ordered"));
    page.push(heading(&shift(10, 210), "Supplied"));
    page.push(heading(&shift(10, 260), "Price"));
    page.push(heading(&shift(10, 310), "Amount"));
    page.push(frag(&shift(20, 10), "1"));
    page.push(frag(&shift(20, 60), "Corn"));
    page.push(frag(&shift(20, 110), "1"));
    page.push(frag(&shift(20, 160), "1"));
    page.push(frag(&shift(20, 210), "$5.00"));
    let r = extract_document(Some(chars("2024-01-03")), vec![page]).unwrap();
    assert_eq!(r.len(), 2);
    assert_eq!(r[0].name, chars("Beans"));
    assert_eq!(r[1].name, chars("Corn"));
    assert_eq!(r[1].price, Price(5, 0));
}
