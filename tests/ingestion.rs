use well_data::ingest::{ingest, Dataset, IngestError, Sheet};
use well_data::numeric::{integer_text, parse_year};
use well_data::record::{
    extract_record, resolve_columns, Cell, CellValue, Columns, Timestamp, DATE_HEADER,
    LIQUID_HEADER, NAME_HEADER, OIL_HEADER, TEMPERATURE_HEADER,
};

fn text(s: &str) -> Cell {
    Cell { value: CellValue::Text(s.to_string()), stamp: None }
}

fn integer(i: i64) -> Cell {
    Cell { value: CellValue::Int(i), stamp: None }
}

fn float(bits: u64, shown: &str) -> Cell {
    Cell { value: CellValue::Float { bits, shown: shown.to_string() }, stamp: None }
}

fn when(secs: i64) -> Cell {
    Cell { value: CellValue::Other, stamp: Some(Timestamp { secs, nanos: 0 }) }
}

fn empty() -> Cell {
    Cell { value: CellValue::Empty, stamp: None }
}

fn full_header() -> Vec<Cell> {
    vec![
        text(NAME_HEADER),
        text(DATE_HEADER),
        text(LIQUID_HEADER),
        text(OIL_HEADER),
        text(TEMPERATURE_HEADER),
    ]
}

fn sheet(name: &str, rows: Vec<Vec<Cell>>) -> Sheet {
    Sheet { name: name.to_string(), rows }
}

fn loaded(sheets: &Vec<Sheet>) -> Dataset {
    match ingest(sheets) {
        Ok(d) => d,
        Err(e) => panic!("ingestion failed: {:?}", e),
    }
}

#[test]
fn parse_year_reads_base_ten_integers() {
    assert_eq!(parse_year("2020"), Some(2020));
    assert_eq!(parse_year("+7"), Some(7));
    assert_eq!(parse_year("-15"), Some(-15));
    assert_eq!(parse_year("007"), Some(7));
    assert_eq!(parse_year("2147483647"), Some(i32::MAX));
    assert_eq!(parse_year("-2147483648"), Some(i32::MIN));
}

#[test]
fn parse_year_rejects_other_names() {
    assert_eq!(parse_year("Notes"), None);
    assert_eq!(parse_year(""), None);
    assert_eq!(parse_year("-"), None);
    assert_eq!(parse_year("+"), None);
    assert_eq!(parse_year("20 20"), None);
    assert_eq!(parse_year(" 2020"), None);
    assert_eq!(parse_year("+-1"), None);
    assert_eq!(parse_year("2147483648"), None);
    assert_eq!(parse_year("-2147483649"), None);
    assert_eq!(parse_year("99999999999999999999"), None);
}

#[test]
fn integer_text_matches_to_string() {
    assert_eq!(integer_text(0), "0");
    assert_eq!(integer_text(-42), "-42");
    assert_eq!(integer_text(1234567), "1234567");
    assert_eq!(integer_text(i64::MIN), i64::MIN.to_string());
    assert_eq!(integer_text(i64::MAX), i64::MAX.to_string());
}

#[test]
fn resolver_needs_name_and_date_columns() {
    assert_eq!(resolve_columns(&vec![text(NAME_HEADER), text("PdLiq")]), None);
    assert_eq!(resolve_columns(&vec![text(DATE_HEADER)]), None);
    assert_eq!(
        resolve_columns(&full_header()),
        Some(Columns { name: 0, date: 1, liquid: Some(2), oil: Some(3), temperature: Some(4) })
    );
}

#[test]
fn resolver_ignores_non_text_headers_and_takes_last_duplicate() {
    let header = vec![integer(5), text(DATE_HEADER), text(NAME_HEADER), empty(), text(NAME_HEADER)];
    assert_eq!(
        resolve_columns(&header),
        Some(Columns { name: 4, date: 1, liquid: None, oil: None, temperature: None })
    );
    // the temperature header is matched exactly: a Latin T does not count
    let latin = vec![text(NAME_HEADER), text(DATE_HEADER), text("Temperature")];
    assert_eq!(resolve_columns(&latin).unwrap().temperature, None);
}

#[test]
fn well_names_come_from_text_and_numbers() {
    let cols = Columns { name: 0, date: 1, liquid: Some(2), oil: None, temperature: Some(7) };
    let r = extract_record(&vec![integer(-17), when(86400), float(4, "0.5")], &cols, 2020).unwrap();
    assert_eq!(r.well_name, "-17");
    assert_eq!(r.timestamp, Some(Timestamp { secs: 86400, nanos: 0 }));
    assert_eq!(r.liquid_rate, Some(4));
    assert_eq!(r.oil_rate, None);
    assert_eq!(r.temperature, None);
    assert_eq!(r.sheet_year, 2020);
    let f = extract_record(&vec![float(9, "12.5"), text("x"), integer(3)], &cols, 2021).unwrap();
    assert_eq!(f.well_name, "12.5");
    assert_eq!(f.timestamp, None);
    // an integer is not a floating-point measurement
    assert_eq!(f.liquid_rate, None);
}

#[test]
fn rows_without_a_readable_name_are_dropped() {
    let cols = Columns { name: 0, date: 1, liquid: None, oil: None, temperature: None };
    assert!(extract_record(&vec![empty(), when(0)], &cols, 2020).is_none());
    assert!(extract_record(&vec![when(5), when(0)], &cols, 2020).is_none());
    assert!(extract_record(&vec![], &cols, 2020).is_none());
}

#[test]
fn non_year_sheet_contributes_nothing() {
    let sheets = vec![
        sheet("2020", vec![full_header(), vec![text("A7"), when(10), float(1, "1"), empty(), empty()]]),
        sheet(
            "2021",
            vec![vec![text(NAME_HEADER), text("PdLiq")], vec![text("A7"), float(2, "2")]],
        ),
        sheet("Notes", vec![full_header(), vec![text("N1"), when(20), empty(), empty(), empty()]]),
    ];
    let d = loaded(&sheets);
    assert_eq!(d.records.len(), 1);
    assert_eq!(d.records[0].well_name, "A7");
    assert_eq!(d.records[0].sheet_year, 2020);
    assert_eq!(d.years, vec![2020]);
    assert_eq!(d.wells, vec!["A7".to_string()]);
}

#[test]
fn missing_oil_column_gives_no_oil_rate() {
    let header = vec![text(NAME_HEADER), text(DATE_HEADER), text(LIQUID_HEADER), text(TEMPERATURE_HEADER)];
    let sheets = vec![sheet(
        "2021",
        vec![
            header,
            vec![text("A7"), when(1), float(11, "1.1"), float(12, "1.2")],
            vec![text("B2"), when(2), float(21, "2.1"), float(22, "2.2")],
        ],
    )];
    let d = loaded(&sheets);
    assert_eq!(d.records.len(), 2);
    for r in &d.records {
        assert_eq!(r.oil_rate, None);
        assert_eq!(r.sheet_year, 2021);
    }
    assert_eq!(d.records[0].liquid_rate, Some(11));
    assert_eq!(d.records[1].temperature, Some(22));
}

#[test]
fn empty_year_sheet_stops_ingestion() {
    let sheets = vec![
        sheet("Notes", vec![]),
        sheet("2020", vec![full_header()]),
        sheet("2021", vec![]),
        sheet("2022", vec![]),
    ];
    match ingest(&sheets) {
        Err(IngestError::EmptySheet(name)) => assert_eq!(name, "2021"),
        Ok(_) => panic!("an empty year sheet must fail"),
    }
}

#[test]
fn header_only_sheet_adds_its_year() {
    let d = loaded(&vec![sheet("2019", vec![full_header()])]);
    assert!(d.records.is_empty());
    assert_eq!(d.years, vec![2019]);
    assert!(d.wells.is_empty());
}

#[test]
fn years_and_wells_are_sorted_without_repeats() {
    let row = |w: &str| vec![text(w), when(0), empty(), empty(), empty()];
    let sheets = vec![
        sheet("2022", vec![full_header(), row("b"), row("B"), row("a")]),
        sheet("2020", vec![full_header(), row("a"), row("A10"), row("A2")]),
        sheet("2022", vec![full_header(), row("b")]),
    ];
    let d = loaded(&sheets);
    assert_eq!(d.records.len(), 7);
    assert_eq!(d.years, vec![2020, 2022]);
    let wells: Vec<&str> = d.wells.iter().map(|s| s.as_str()).collect();
    assert_eq!(wells, vec!["A10", "A2", "B", "a", "b"]);
}

#[test]
fn records_keep_sheet_and_row_order() {
    let sheets = vec![
        sheet("2021", vec![full_header(), vec![text("Z"), when(5), empty(), empty(), empty()]]),
        sheet("2020", vec![full_header(), vec![text("Y"), when(4), empty(), empty(), empty()]]),
    ];
    let d = loaded(&sheets);
    assert_eq!(d.records[0].well_name, "Z");
    assert_eq!(d.records[0].sheet_year, 2021);
    assert_eq!(d.records[1].well_name, "Y");
    assert_eq!(d.records[1].sheet_year, 2020);
}

#[test]
fn non_year_sheets_do_not_change_the_result() {
    let year = sheet("2020", vec![full_header(), vec![text("A"), when(1), empty(), empty(), empty()]]);
    let a = loaded(&vec![year.clone()]);
    let b = loaded(&vec![
        sheet("Notes", vec![full_header(), vec![text("N"), when(2), empty(), empty(), empty()]]),
        year,
        sheet("Summary", vec![]),
    ]);
    assert_eq!(a.records, b.records);
    assert_eq!(a.years, b.years);
    assert_eq!(a.wells, b.wells);
}
