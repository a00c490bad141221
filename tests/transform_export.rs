use well_data::export::{plan_export, sanitize_sheet_name, timestamp_text, SheetPlan};
use well_data::record::{Record, Timestamp};
use well_data::text::compare_text;
use well_data::transform::{contains_name, filter_records, sort_records, wells_of};

fn rec(well: &str, year: i32, secs: Option<i64>) -> Record {
    Record {
        well_name: well.to_string(),
        timestamp: secs.map(|s| Timestamp { secs: s, nanos: 0 }),
        liquid_rate: None,
        oil_rate: None,
        temperature: None,
        sheet_year: year,
    }
}

fn names(v: &[&str]) -> Vec<String> {
    v.iter().map(|s| s.to_string()).collect()
}

#[test]
fn filter_keeps_later_year_only() {
    let records = vec![rec("A7", 2020, Some(1)), rec("A7", 2021, Some(2))];
    let kept = filter_records(&records, 2021, &names(&["A7"]));
    assert_eq!(kept, vec![rec("A7", 2021, Some(2))]);
}

#[test]
fn filter_needs_a_selected_well() {
    let records = vec![rec("A7", 2021, None), rec("B1", 2021, None), rec("A70", 2022, None)];
    let kept = filter_records(&records, 2000, &names(&["B1", "A70"]));
    assert_eq!(kept, vec![rec("B1", 2021, None), rec("A70", 2022, None)]);
    assert!(filter_records(&records, 2000, &vec![]).is_empty());
}

#[test]
fn filter_is_monotone_in_start_year() {
    let records = vec![
        rec("A", 2019, None),
        rec("B", 2020, None),
        rec("A", 2021, None),
        rec("A", 2022, None),
    ];
    let sel = names(&["A", "B"]);
    let early = filter_records(&records, 2020, &sel);
    let late = filter_records(&records, 2021, &sel);
    assert_eq!(early.len(), 3);
    assert_eq!(late.len(), 2);
    for r in &late {
        assert!(early.contains(r));
    }
}

#[test]
fn sort_orders_by_well_then_time_absent_first() {
    let records = vec![
        rec("B", 2020, Some(5)),
        rec("A", 2020, Some(9)),
        rec("A", 2021, None),
        rec("A", 2020, Some(3)),
        rec("B", 2020, None),
    ];
    let sorted = sort_records(&records);
    assert_eq!(
        sorted,
        vec![
            rec("A", 2021, None),
            rec("A", 2020, Some(3)),
            rec("A", 2020, Some(9)),
            rec("B", 2020, None),
            rec("B", 2020, Some(5)),
        ]
    );
}

#[test]
fn sort_is_stable_for_equal_keys() {
    let records = vec![rec("W", 2022, Some(7)), rec("V", 2020, None), rec("W", 2020, Some(7)), rec("W", 2021, Some(7))];
    let sorted = sort_records(&records);
    let years: Vec<i32> = sorted.iter().map(|r| r.sheet_year).collect();
    assert_eq!(years, vec![2020, 2022, 2020, 2021]);
}

#[test]
fn sort_uses_nanoseconds_within_a_second() {
    let mut a = rec("A", 2020, Some(10));
    a.timestamp = Some(Timestamp { secs: 10, nanos: 500 });
    let b = rec("A", 2020, Some(10));
    let sorted = sort_records(&vec![a.clone(), b.clone()]);
    assert_eq!(sorted, vec![b, a]);
}

#[test]
fn sorting_twice_changes_nothing() {
    let records = vec![rec("C", 1, Some(2)), rec("A", 1, None), rec("C", 1, Some(1)), rec("B", 2, Some(0))];
    let once = sort_records(&records);
    let twice = sort_records(&once);
    assert_eq!(once, twice);
}

#[test]
fn wells_of_lists_distinct_names_in_order() {
    let records = vec![rec("b", 1, None), rec("A", 1, None), rec("b", 2, None), rec("B", 1, None)];
    assert_eq!(wells_of(&records), names(&["A", "B", "b"]));
}

#[test]
fn text_order_is_by_code_point() {
    assert!(compare_text("A7", "A70") < 0);
    assert!(compare_text("B", "a") < 0);
    assert!(compare_text("b", "a") > 0);
    assert_eq!(compare_text("Тemp", "Тemp"), 0);
    assert!(compare_text("", "x") < 0);
    assert!(contains_name(&names(&["x", "y"]), "y"));
    assert!(!contains_name(&names(&["x", "y"]), "z"));
}

#[test]
fn sanitize_replaces_forbidden_characters() {
    assert_eq!(sanitize_sheet_name("A/7*B"), "A_7_B");
    assert_eq!(sanitize_sheet_name("a\\b?c[d]e"), "a_b_c_d_e");
    assert_eq!(sanitize_sheet_name("plain"), "plain");
}

#[test]
fn sanitize_truncates_to_thirty_characters() {
    let long = "ABCDEFGHIJKLMNOPQRSTUVWXYZ01234";
    let name = format!("{}5678", long);
    assert_eq!(name.chars().count(), 35);
    assert_eq!(sanitize_sheet_name(&name), &long[..30]);
    // characters, not bytes
    let cyr = "Ж".repeat(35);
    assert_eq!(sanitize_sheet_name(&cyr), "Ж".repeat(30));
}

#[test]
fn sanitize_is_idempotent() {
    for w in ["A/7*B", "ABCDEFGHIJKLMNOPQRSTUVWXYZ0123456789", "[x]"] {
        let once = sanitize_sheet_name(w);
        assert_eq!(sanitize_sheet_name(&once), once);
    }
}

#[test]
fn export_of_no_wells_has_no_sheets() {
    let records = vec![rec("A7", 2020, None)];
    assert!(plan_export(&records, 2000, &vec![]).is_empty());
    assert!(plan_export(&vec![], 2000, &names(&["A7"])).is_empty());
}

#[test]
fn export_plans_one_sheet_per_well() {
    let records = vec![
        rec("B/1", 2021, Some(4)),
        rec("A7", 2019, Some(1)),
        rec("A7", 2021, Some(3)),
        rec("A7", 2020, Some(2)),
        rec("C", 2021, Some(2)),
        rec("B/1", 2020, None),
    ];
    let plan = plan_export(&records, 2020, &names(&["A7", "B/1", "Z"]));
    assert_eq!(
        plan,
        vec![
            SheetPlan {
                title: "A7".to_string(),
                well_name: "A7".to_string(),
                rows: vec![rec("A7", 2020, Some(2)), rec("A7", 2021, Some(3))],
            },
            SheetPlan {
                title: "B_1".to_string(),
                well_name: "B/1".to_string(),
                rows: vec![rec("B/1", 2020, None), rec("B/1", 2021, Some(4))],
            },
        ]
    );
}

#[test]
fn timestamp_text_formats_date_and_time() {
    assert_eq!(
        timestamp_text(&Timestamp { secs: 1431648000, nanos: 0 }).unwrap(),
        "2015-05-15 00:00:00"
    );
    assert_eq!(
        timestamp_text(&Timestamp { secs: 1609459199, nanos: 999_000_000 }).unwrap(),
        "2020-12-31 23:59:59"
    );
    assert_eq!(timestamp_text(&Timestamp { secs: -1, nanos: 0 }).unwrap(), "1969-12-31 23:59:59");
    assert_eq!(timestamp_text(&Timestamp { secs: i64::MAX, nanos: 0 }), None);
}

#[test]
fn timestamp_text_covers_years_one_to_9999() {
    assert_eq!(
        timestamp_text(&Timestamp { secs: -62_135_596_800, nanos: 0 }).unwrap(),
        "0001-01-01 00:00:00"
    );
    assert_eq!(
        timestamp_text(&Timestamp { secs: 253_402_300_799, nanos: 999_999_999 }).unwrap(),
        "9999-12-31 23:59:59"
    );
}

#[test]
fn raising_start_year_never_adds_rows_or_sheets() {
    let records = vec![rec("A", 2019, Some(1)), rec("B", 2021, Some(2)), rec("A", 2022, None)];
    let sel = names(&["A", "B"]);
    let early = plan_export(&records, 2019, &sel);
    let late = plan_export(&records, 2022, &sel);
    assert_eq!(early.len(), 2);
    assert_eq!(late.len(), 1);
    for sheet in &late {
        let same = early.iter().find(|e| e.well_name == sheet.well_name).unwrap();
        for r in &sheet.rows {
            assert!(same.rows.contains(r));
        }
    }
}

#[test]
fn sorted_input_is_exported_in_its_own_order() {
    let records = vec![rec("A", 2020, None), rec("A", 2020, Some(1)), rec("B", 2021, Some(0))];
    let plan = plan_export(&records, 2020, &names(&["A", "B"]));
    assert_eq!(plan[0].rows, records[..2].to_vec());
    assert_eq!(plan[1].rows, records[2..].to_vec());
}
