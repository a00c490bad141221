use well_data::ingest::Dataset;
use well_data::job::{
    final_progress, sheet_progress, sheet_row_progress, well_progress, well_row_progress,
    Fraction, Job, Message, Observer, Outcome,
};
use well_data::record::Record;

fn dataset(n: usize, years: Vec<i32>) -> Dataset {
    let mut d = Dataset::new();
    for i in 0..n {
        d.records.push(Record {
            well_name: format!("W{}", i),
            timestamp: None,
            liquid_rate: None,
            oil_rate: None,
            temperature: None,
            sheet_year: 2020,
        });
    }
    d.years = years;
    d
}

#[test]
fn progress_reports_fractions_and_text() {
    let p = sheet_progress(2, 5, "2021");
    assert_eq!(p.global, Fraction { done: 2, total: 5 });
    assert_eq!(p.local, Fraction { done: 0, total: 1 });
    assert_eq!(p.text, "sheet '2021': reading");
    let w = well_progress(0, 3, "A7");
    assert_eq!(w.global, Fraction { done: 0, total: 3 });
    assert_eq!(w.text, "writing well A7");
    let f = final_progress("saving");
    assert_eq!(f.global, Fraction { done: 1, total: 1 });
    assert_eq!(f.local, Fraction { done: 1, total: 1 });
    assert_eq!(f.text, "saving");
}

#[test]
fn row_progress_comes_in_batches() {
    let g = Fraction { done: 1, total: 2 };
    assert!(sheet_row_progress(g, 0, 12000, "s").is_some());
    assert!(sheet_row_progress(g, 4999, 12000, "s").is_none());
    let p = sheet_row_progress(g, 10000, 12000, "s").unwrap();
    assert_eq!(p.local, Fraction { done: 10000, total: 12000 });
    assert_eq!(p.global, g);
    assert!(well_row_progress(g, 500, 600, "w").is_some());
    assert!(well_row_progress(g, 501, 600, "w").is_none());
}

#[test]
fn job_sends_nothing_after_its_outcome() {
    let mut job = Job::start();
    assert!(job.running());
    assert!(matches!(job.report(final_progress("x")), Some(Message::Progress(_))));
    match job.finish(Outcome::Saved("out.xlsx".to_string())) {
        Some(Message::Saved(p)) => assert_eq!(p, "out.xlsx"),
        other => panic!("unexpected {:?}", other),
    }
    assert!(!job.running());
    assert!(job.report(final_progress("late")).is_none());
    assert!(job.finish(Outcome::Failed("again".to_string())).is_none());
}

#[test]
fn job_failure_becomes_error_message() {
    let mut job = Job::start();
    match job.finish(Outcome::Failed("disk full".to_string())) {
        Some(Message::Error(e)) => assert_eq!(e, "disk full"),
        other => panic!("unexpected {:?}", other),
    }
}

#[test]
fn observer_takes_one_terminal_message() {
    let mut o = Observer::new();
    assert_eq!(o.status, "no file chosen");
    o.begin();
    assert!(o.busy && o.listening());
    o.receive(Message::Progress(sheet_progress(1, 4, "2020")));
    assert_eq!(o.global, Fraction { done: 1, total: 4 });
    assert_eq!(o.status, "sheet '2020': reading");
    o.receive(Message::Loaded(dataset(3, vec![2019, 2021])));
    assert!(!o.busy && !o.listening());
    assert_eq!(o.records.len(), 3);
    assert_eq!(o.start_year, Some(2019));
    assert_eq!(o.status, "loaded 3 records");
    o.receive(Message::Error("late".to_string()));
    o.receive(Message::Progress(final_progress("late")));
    assert_eq!(o.status, "loaded 3 records");
    assert_eq!(o.global, Fraction { done: 1, total: 4 });
}

#[test]
fn observer_reports_saved_and_error() {
    let mut o = Observer::new();
    o.begin();
    o.receive(Message::Saved("/tmp/r.xlsx".to_string()));
    assert_eq!(o.status, "saved to /tmp/r.xlsx");
    assert!(!o.busy);
    o.begin();
    assert_eq!(o.status, "starting...");
    o.receive(Message::Error("bad file".to_string()));
    assert_eq!(o.status, "ERROR: bad file");
    assert!(!o.listening());
}

#[test]
fn loaded_without_years_keeps_start_year() {
    let mut o = Observer::new();
    o.begin();
    o.receive(Message::Loaded(dataset(0, vec![])));
    assert_eq!(o.start_year, None);
    assert_eq!(o.status, "loaded 0 records");
}

#[test]
fn export_needs_records_year_and_wells() {
    let mut o = Observer::new();
    assert_eq!(o.check_export(2), None);
    assert_eq!(o.status, "no file chosen");
    o.records = dataset(1, vec![]).records;
    assert_eq!(o.check_export(2), None);
    assert_eq!(o.status, "choose a start year");
    o.start_year = Some(2020);
    assert_eq!(o.check_export(0), None);
    assert_eq!(o.status, "choose wells");
    assert_eq!(o.check_export(1), Some(2020));
}

#[test]
fn new_observer_starts_with_no_progress() {
    let o = Observer::new();
    assert_eq!(o.global, Fraction { done: 0, total: 1 });
    assert_eq!(o.local, Fraction { done: 0, total: 1 });
    assert!(!o.busy);
    assert!(o.years.is_empty() && o.wells.is_empty() && o.records.is_empty());
}

#[test]
fn error_after_load_keeps_the_loaded_lists() {
    let mut o = Observer::new();
    o.begin();
    let mut d = dataset(2, vec![2020, 2021]);
    d.wells = vec!["A".to_string(), "B".to_string()];
    o.receive(Message::Loaded(d));
    o.begin();
    o.receive(Message::Progress(sheet_progress(0, 2, "x")));
    o.receive(Message::Error("disk".to_string()));
    assert_eq!(o.years, vec![2020, 2021]);
    assert_eq!(o.wells, vec!["A".to_string(), "B".to_string()]);
    assert_eq!(o.records.len(), 2);
    assert_eq!(o.global, Fraction { done: 0, total: 2 });
}

#[test]
fn failed_export_check_changes_only_the_status() {
    let mut o = Observer::new();
    o.records = dataset(1, vec![]).records;
    o.years = vec![2020];
    let before_years = o.years.clone();
    assert_eq!(o.check_export(3), None);
    assert_eq!(o.years, before_years);
    assert_eq!(o.global, Fraction { done: 0, total: 1 });
    assert!(!o.busy && !o.listening());
}
