//! The export engine: one output sheet per well, under a name the output
//! format accepts, with the well's records in order.
use vstd::prelude::*;

use crate::ingest::has_well;
use crate::record::{records_view, Record, RecordView, Timestamp};
use crate::text::{
    holds_text, push_char, strictly_ascending_text, text_equals, views_of,
};
use crate::transform::{
    filter_records, filtered, in_key_order, lemma_filter_sub_multiset, lemma_filtered_in_order,
    lemma_sort_keeps_records, lemma_sort_of_ordered, sort_records, sorted_by_key, wells_of,
};

verus! {

/// Longest worksheet name that the export writes.
pub const MAX_TITLE_LEN: usize = 30;

/// Characters that worksheet names may not hold.
pub open spec fn is_forbidden(c: char) -> bool {
    c == '/' || c == '\\' || c == '?' || c == '*' || c == '[' || c == ']'
}

pub open spec fn replace_forbidden(s: Seq<char>) -> Seq<char> {
    s.map_values(|c: char| if is_forbidden(c) { '_' } else { c })
}

/// The worksheet name for a well: forbidden characters become `_`, and
/// only the first thirty characters are kept.
pub open spec fn sheet_title(w: Seq<char>) -> Seq<char> {
    let r = replace_forbidden(w);
    if r.len() > MAX_TITLE_LEN {
        r.take(MAX_TITLE_LEN as int)
    } else {
        r
    }
}

/// Turns a well name into a worksheet name.
pub fn sanitize_sheet_name(name: &str) -> (r: String)
    ensures
        r@ == sheet_title(name@),
{
    let n: usize = name.unicode_len();
    let limit: usize = if n > MAX_TITLE_LEN { MAX_TITLE_LEN } else { n };
    let mut out = String::new();
    let mut i: usize = 0;
    while i < limit
        invariant
            n == name@.len(),
            limit <= n,
            i <= limit,
            out@ == replace_forbidden(name@).take(i as int),
        decreases limit - i,
    {
        let c = name.get_char(i);
        let d = if c == '/' || c == '\\' || c == '?' || c == '*' || c == '[' || c == ']' {
            '_'
        } else {
            c
        };
        push_char(&mut out, d);
        assert(out@ =~= replace_forbidden(name@).take(i + 1));
        i = i + 1;
    }
    assert(out@ =~= sheet_title(name@));
    out
}

/// The records of one well, in their order.
pub open spec fn of_well(s: Seq<RecordView>, w: Seq<char>) -> Seq<RecordView>
    decreases s.len(),
{
    if s.len() == 0 {
        Seq::empty()
    } else {
        let prev = of_well(s.drop_last(), w);
        if s.last().well_name == w {
            prev.push(s.last())
        } else {
            prev
        }
    }
}

/// What the export writes for one well.
#[derive(Clone, Debug, PartialEq)]
pub struct SheetPlan {
    pub title: String,
    pub well_name: String,
    pub rows: Vec<Record>,
}

pub open spec fn plan_wells(p: Seq<SheetPlan>) -> Seq<String> {
    p.map_values(|s: SheetPlan| s.well_name)
}

/// The records that an export keeps, in the order it writes them.
pub open spec fn export_rows(records: Seq<RecordView>, start_year: i32, selected: Seq<String>) -> Seq<
    RecordView,
> {
    sorted_by_key(filtered(records, start_year, selected))
}

fn rows_of_well(sorted: &Vec<Record>, w: &str) -> (r: Vec<Record>)
    ensures
        records_view(r@) == of_well(records_view(sorted@), w@),
{
    let ghost s = records_view(sorted@);
    let mut out: Vec<Record> = Vec::new();
    let mut i: usize = 0;
    while i < sorted.len()
        invariant
            i <= sorted@.len(),
            s == records_view(sorted@),
            records_view(out@) == of_well(s.take(i as int), w@),
        decreases sorted@.len() - i,
    {
        let ghost t = s.take(i + 1);
        assert(t.drop_last() =~= s.take(i as int));
        if text_equals(sorted[i].well_name.as_str(), w) {
            let ghost before = records_view(out@);
            out.push(sorted[i].copy());
            assert(records_view(out@) =~= before.push(s[i as int]));
        }
        i = i + 1;
    }
    assert(s.take(i as int) =~= s);
    out
}

/// Plans an export: keeps the records of the selected wells from the start
/// year on, orders them, and gives one sheet per well present, in
/// ascending order of well name. An empty selection gives no sheet.
pub fn plan_export(records: &Vec<Record>, start_year: i32, selected: &Vec<String>) -> (r: Vec<
    SheetPlan,
>)
    ensures
        strictly_ascending_text(views_of(plan_wells(r@))),
        forall|w: Seq<char>| #[trigger]
            holds_text(plan_wells(r@), w) == has_well(
                export_rows(records_view(records@), start_year, selected@),
                w,
            ),
        forall|i: int|
            0 <= i < r@.len() ==> {
                &&& (#[trigger] r@[i]).title@ == sheet_title(r@[i].well_name@)
                &&& records_view(r@[i].rows@) == of_well(
                    export_rows(records_view(records@), start_year, selected@),
                    r@[i].well_name@,
                )
            },
{
    let kept = filter_records(records, start_year, selected);
    let sorted = sort_records(&kept);
    let wells = wells_of(&sorted);
    let ghost s = records_view(sorted@);
    let mut out: Vec<SheetPlan> = Vec::new();
    let mut i: usize = 0;
    while i < wells.len()
        invariant
            i <= wells@.len(),
            s == records_view(sorted@),
            s == export_rows(records_view(records@), start_year, selected@),
            plan_wells(out@) == wells@.take(i as int),
            forall|k: int|
                0 <= k < out@.len() ==> {
                    &&& (#[trigger] out@[k]).title@ == sheet_title(out@[k].well_name@)
                    &&& records_view(out@[k].rows@) == of_well(s, out@[k].well_name@)
                },
        decreases wells@.len() - i,
    {
        let w = &wells[i];
        let plan = SheetPlan {
            title: sanitize_sheet_name(w.as_str()),
            well_name: w.clone(),
            rows: rows_of_well(&sorted, w.as_str()),
        };
        let ghost before = out@;
        assert(plan.well_name == wells@[i as int]);
        out.push(plan);
        assert(plan_wells(out@) =~= plan_wells(before).push(wells@[i as int]));
        assert(wells@.take(i + 1) =~= wells@.take(i as int).push(wells@[i as int]));
        i = i + 1;
    }
    assert(wells@.take(i as int) =~= wells@);
    out
}

/// A time from 0001-01-01 00:00:00 to 9999-12-31 23:59:59, outside a leap
/// second.
pub open spec fn in_calendar(secs: i64, nanos: u32) -> bool {
    -62_135_596_800 <= secs <= 253_402_300_799 && nanos < 1_000_000_000
}

/// Names the text that chrono writes for a date and time under the pattern
/// `%Y-%m-%d %H:%M:%S`, for the given seconds and nanoseconds since
/// 1970-01-01 00:00:00.
pub uninterp spec fn datetime_text(secs: i64, nanos: u32) -> Seq<char>;

/// Relies on chrono's `DateTime::from_timestamp`, which gives `None` when the
/// day falls outside its calendar or the nanoseconds are no valid fraction
/// of that second, and on formatting the naive part of its result with
/// `%Y-%m-%d %H:%M:%S`.
#[verifier::external_body]
fn chrono_datetime_text(secs: i64, nanos: u32) -> (r: Option<String>)
    ensures
        r matches Some(s) ==> s@ == datetime_text(secs, nanos),
        in_calendar(secs, nanos) ==> r is Some,
{
    match chrono::DateTime::from_timestamp(secs, nanos) {
        Some(d) => Some(d.naive_utc().format("%Y-%m-%d %H:%M:%S").to_string()),
        None => None,
    }
}

/// The text written in the date column for a timestamp, as
/// `YYYY-MM-DD HH:MM:SS`; `None` for a time outside the calendar's range.
pub fn timestamp_text(t: &Timestamp) -> (r: Option<String>)
    ensures
        r matches Some(s) ==> s@ == datetime_text(t.secs, t.nanos),
        in_calendar(t.secs, t.nanos) ==> r is Some,
{
    chrono_datetime_text(t.secs, t.nanos)
}

/// Sanitizing a worksheet name that is already sanitized and short enough
/// changes nothing; so sanitizing twice is sanitizing once.
pub proof fn lemma_sheet_title_idempotent(w: Seq<char>)
    ensures
        sheet_title(sheet_title(w)) == sheet_title(w),
{
    let t = sheet_title(w);
    assert(replace_forbidden(t) =~= t);
}

/// Raising the start year never adds a written row: with the same records
/// and selection, the rows exported for the later year, counted with
/// repeats, are among those for the earlier year, and every well that gets
/// a sheet for the later year gets one for the earlier year.
pub proof fn lemma_export_monotone(
    records: Seq<RecordView>,
    start_a: i32,
    start_b: i32,
    selected: Seq<String>,
)
    requires
        start_a <= start_b,
    ensures
        export_rows(records, start_b, selected).to_multiset().subset_of(
            export_rows(records, start_a, selected).to_multiset(),
        ),
        forall|w: Seq<char>| #[trigger]
            has_well(export_rows(records, start_b, selected), w) ==> has_well(
                export_rows(records, start_a, selected),
                w,
            ),
{
    broadcast use vstd::seq_lib::group_to_multiset_ensures;

    let fa = filtered(records, start_a, selected);
    let fb = filtered(records, start_b, selected);
    lemma_sort_keeps_records(fa);
    lemma_sort_keeps_records(fb);
    lemma_filter_sub_multiset(records, start_a, start_b, selected);
    let ea = export_rows(records, start_a, selected);
    let eb = export_rows(records, start_b, selected);
    assert forall|w: Seq<char>| #[trigger] has_well(eb, w) implies has_well(ea, w) by {
        let k = choose|k: int| 0 <= k < eb.len() && eb[k].well_name == w;
        assert(eb.contains(eb[k]));
        assert(eb.to_multiset().count(eb[k]) > 0);
        assert(ea.to_multiset().count(eb[k]) > 0);
        assert(ea.contains(eb[k]));
        let j = choose|j: int| 0 <= j < ea.len() && ea[j] == eb[k];
        assert(ea[j].well_name == w);
    }
}

/// Records that are already in key order are exported in their own order:
/// the rows are just the kept records, unsorted.
pub proof fn lemma_export_of_ordered(records: Seq<RecordView>, start_year: i32, selected: Seq<String>)
    requires
        in_key_order(records),
    ensures
        export_rows(records, start_year, selected) == filtered(records, start_year, selected),
{
    lemma_filtered_in_order(records, start_year, selected);
    lemma_sort_of_ordered(filtered(records, start_year, selected));
}

} // verus!
