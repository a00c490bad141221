//! The ingestion engine: year sheets in, records and the sets of years and
//! well names out.
use vstd::prelude::*;

use crate::numeric::{parse_year, year_of};
use crate::record::{
    column_of, columns_of, DATE_HEADER, NAME_HEADER, OIL_HEADER, extract_record, record_of, records_view, resolve_columns, Cell, Columns, Record,
    RecordView,
};
use crate::sets::{insert_name, insert_year, strictly_ascending};
use crate::text::{holds_text, strictly_ascending_text, views_of};

verus! {

/// A sheet of the workbook: its name and its rows, header row first.
#[derive(Clone, Debug, PartialEq)]
pub struct Sheet {
    pub name: String,
    pub rows: Vec<Vec<Cell>>,
}

/// Why an ingestion stops.
#[derive(Clone, Debug, PartialEq)]
pub enum IngestError {
    /// A year sheet without any row, not even a header; it carries the sheet's name.
    EmptySheet(String),
}

/// Records of a run of data rows, in row order; rows whose well-name cell
/// cannot be read are left out.
pub open spec fn rows_records(rows: Seq<Vec<Cell>>, cols: Columns, year: i32) -> Seq<RecordView>
    decreases rows.len(),
{
    if rows.len() == 0 {
        Seq::empty()
    } else {
        let prev = rows_records(rows.drop_last(), cols, year);
        match record_of(rows.last()@, cols, year) {
            Some(r) => prev.push(r),
            None => prev,
        }
    }
}

/// The year of a sheet that takes part: its name is a year, it has a
/// header row, and the header names the well-name and date columns.
pub open spec fn accepted_year(name: Seq<char>, rows: Seq<Vec<Cell>>) -> Option<i32> {
    match year_of(name) {
        Some(y) => if rows.len() > 0 && columns_of(rows[0]@) is Some {
            Some(y as i32)
        } else {
            None
        },
        None => None,
    }
}

/// A year sheet without a header row, which stops the whole ingestion.
pub open spec fn sheet_fails(name: Seq<char>, rows: Seq<Vec<Cell>>) -> bool {
    year_of(name) is Some && rows.len() == 0
}

/// The records one sheet contributes.
pub open spec fn sheet_records(name: Seq<char>, rows: Seq<Vec<Cell>>) -> Seq<RecordView> {
    match accepted_year(name, rows) {
        Some(y) => rows_records(rows.subrange(1, rows.len() as int), columns_of(rows[0]@)->0, y),
        None => Seq::empty(),
    }
}

/// The records of a whole workbook, sheet after sheet.
pub open spec fn workbook_records(sheets: Seq<Sheet>) -> Seq<RecordView>
    decreases sheets.len(),
{
    if sheets.len() == 0 {
        Seq::empty()
    } else {
        workbook_records(sheets.drop_last()) + sheet_records(
            sheets.last().name@,
            sheets.last().rows@,
        )
    }
}

/// Some record has this well name.
pub open spec fn has_well(recs: Seq<RecordView>, w: Seq<char>) -> bool {
    exists|k: int| 0 <= k < recs.len() && #[trigger] recs[k].well_name == w
}

pub proof fn lemma_has_well_push(recs: Seq<RecordView>, r: RecordView)
    ensures
        forall|w: Seq<char>| #[trigger]
            has_well(recs.push(r), w) <==> (has_well(recs, w) || r.well_name == w),
{
    assert forall|w: Seq<char>| #[trigger]
        has_well(recs.push(r), w) <==> (has_well(recs, w) || r.well_name == w) by {
        let n = recs.push(r);
        if has_well(n, w) {
            let k = choose|k: int| 0 <= k < n.len() && n[k].well_name == w;
            if k < recs.len() {
                assert(recs[k].well_name == w);
            }
        }
        if has_well(recs, w) {
            let k = choose|k: int| 0 <= k < recs.len() && recs[k].well_name == w;
            assert(n[k].well_name == w);
        }
        if r.well_name == w {
            assert(n[recs.len() as int].well_name == w);
        }
    }
}

/// What an ingestion has gathered so far.
#[derive(Debug)]
pub struct Dataset {
    pub records: Vec<Record>,
    pub years: Vec<i32>,
    pub wells: Vec<String>,
}

impl Dataset {
    /// The sets are strictly ascending, and the well set holds exactly the
    /// well names of the records.
    pub open spec fn wf(&self) -> bool {
        &&& strictly_ascending(self.years@)
        &&& strictly_ascending_text(views_of(self.wells@))
        &&& forall|w: Seq<char>| #[trigger]
            holds_text(self.wells@, w) == has_well(records_view(self.records@), w)
    }

    pub fn new() -> (r: Dataset)
        ensures
            r.wf(),
            r.records@.len() == 0,
            r.years@.len() == 0,
            r.wells@.len() == 0,
    {
        Dataset { records: Vec::new(), years: Vec::new(), wells: Vec::new() }
    }

    fn add_rows(&mut self, rows: &Vec<Vec<Cell>>, cols: &Columns, year: i32)
        requires
            old(self).wf(),
            rows@.len() > 0,
        ensures
            final(self).wf(),
            records_view(final(self).records@) == records_view(old(self).records@)
                + rows_records(rows@.subrange(1, rows@.len() as int), *cols, year),
            final(self).years@ == old(self).years@,
    {
        let ghost start = records_view(self.records@);
        let mut r: usize = 1;
        while r < rows.len()
            invariant
                1 <= r <= rows@.len(),
                self.wf(),
                self.years@ == old(self).years@,
                start == records_view(old(self).records@),
                records_view(self.records@) == start + rows_records(
                    rows@.subrange(1, r as int),
                    *cols,
                    year,
                ),
            decreases rows@.len() - r,
        {
            let ghost sub = rows@.subrange(1, r + 1);
            assert(sub.drop_last() =~= rows@.subrange(1, r as int));
            assert(sub.last() == rows@[r as int]);
            match extract_record(&rows[r], cols, year) {
                Some(rec) => {
                    let ghost before = records_view(self.records@);
                    insert_name(&mut self.wells, rec.well_name.clone());
                    self.records.push(rec);
                    proof {
                        assert(records_view(self.records@) =~= before.push(rec@));
                        lemma_has_well_push(before, rec@);
                    }
                },
                None => {},
            }
            r = r + 1;
        }
        assert(rows@.subrange(1, r as int) =~= rows@.subrange(1, rows@.len() as int));
    }

    /// Takes in one sheet of the workbook. A sheet whose name is not a year,
    /// or whose header lacks the well-name or the date column, adds nothing;
    /// a year sheet with no row at all is an error.
    pub fn add_sheet(&mut self, name: &str, rows: &Vec<Vec<Cell>>) -> (r: Result<(), IngestError>)
        requires
            old(self).wf(),
        ensures
            match r {
                Ok(()) => {
                    &&& !sheet_fails(name@, rows@)
                    &&& final(self).wf()
                    &&& records_view(final(self).records@) == records_view(old(self).records@)
                        + sheet_records(name@, rows@)
                    &&& forall|y: i32| #[trigger]
                        final(self).years@.contains(y) <==> (old(self).years@.contains(y)
                            || accepted_year(name@, rows@) == Some(y))
                },
                Err(IngestError::EmptySheet(n)) => sheet_fails(name@, rows@) && n@ == name@,
            },
    {
        let year: i32 = match parse_year(name) {
            Some(y) => y,
            None => {
                assert(records_view(self.records@) =~= records_view(self.records@)
                    + sheet_records(name@, rows@));
                return Ok(());
            },
        };
        if rows.len() == 0 {
            return Err(IngestError::EmptySheet(name.to_string()));
        }
        match resolve_columns(&rows[0]) {
            Some(cols) => {
                insert_year(&mut self.years, year);
                self.add_rows(rows, &cols, year);
                Ok(())
            },
            None => {
                assert(records_view(self.records@) =~= records_view(self.records@)
                    + sheet_records(name@, rows@));
                Ok(())
            },
        }
    }
}

/// Reads a whole workbook: every sheet in order, stopping at the first year
/// sheet that has no row.
pub fn ingest(sheets: &Vec<Sheet>) -> (r: Result<Dataset, IngestError>)
    ensures
        match r {
            Ok(d) => {
                &&& d.wf()
                &&& forall|i: int| 0 <= i < sheets@.len() ==> !sheet_fails(
                    #[trigger] sheets@[i].name@,
                    sheets@[i].rows@,
                )
                &&& records_view(d.records@) == workbook_records(sheets@)
                &&& forall|y: i32| #[trigger]
                    d.years@.contains(y) <==> exists|i: int|
                        0 <= i < sheets@.len() && accepted_year(
                            #[trigger] sheets@[i].name@,
                            sheets@[i].rows@,
                        ) == Some(y)
            },
            Err(IngestError::EmptySheet(n)) => exists|i: int|
                0 <= i < sheets@.len() && sheet_fails(#[trigger] sheets@[i].name@, sheets@[i].rows@)
                    && n@ == sheets@[i].name@ && forall|j: int|
                    0 <= j < i ==> !sheet_fails(#[trigger] sheets@[j].name@, sheets@[j].rows@),
        },
{
    let mut d = Dataset::new();
    let mut i: usize = 0;
    assert(records_view(d.records@) =~= workbook_records(sheets@.take(0)));
    while i < sheets.len()
        invariant
            i <= sheets@.len(),
            d.wf(),
            forall|j: int| 0 <= j < i ==> !sheet_fails(
                #[trigger] sheets@[j].name@,
                sheets@[j].rows@,
            ),
            records_view(d.records@) == workbook_records(sheets@.take(i as int)),
            forall|y: i32| #[trigger]
                d.years@.contains(y) <==> exists|j: int|
                    0 <= j < i && accepted_year(#[trigger] sheets@[j].name@, sheets@[j].rows@)
                        == Some(y),
        decreases sheets@.len() - i,
    {
        let sheet = &sheets[i];
        let ghost prev_years = d.years@;
        match d.add_sheet(sheet.name.as_str(), &sheet.rows) {
            Ok(()) => {},
            Err(e) => {
                assert(sheet_fails(sheets@[i as int].name@, sheets@[i as int].rows@));
                return Err(e);
            },
        }
        proof {
            let t = sheets@.take(i + 1);
            assert(t.drop_last() =~= sheets@.take(i as int));
            assert(t.last() == sheets@[i as int]);
            assert forall|y: i32| #[trigger]
                d.years@.contains(y) <==> exists|j: int|
                    0 <= j < i + 1 && accepted_year(#[trigger] sheets@[j].name@, sheets@[j].rows@)
                        == Some(y) by {
                if d.years@.contains(y) && !prev_years.contains(y) {
                    assert(accepted_year(sheets@[i as int].name@, sheets@[i as int].rows@) == Some(y));
                }
            }
        }
        i = i + 1;
    }
    assert(sheets@.take(i as int) =~= sheets@);
    Ok(d)
}

/// A sheet whose name is not a year contributes no record, adds no year and
/// does not stop the ingestion.
pub proof fn lemma_non_year_sheet_adds_nothing(name: Seq<char>, rows: Seq<Vec<Cell>>)
    requires
        year_of(name) is None,
    ensures
        sheet_records(name, rows).len() == 0,
        accepted_year(name, rows) is None,
        !sheet_fails(name, rows),
{
}

pub proof fn lemma_rows_records_year(rows: Seq<Vec<Cell>>, cols: Columns, year: i32)
    ensures
        forall|i: int|
            0 <= i < rows_records(rows, cols, year).len() ==> (#[trigger] rows_records(
                rows,
                cols,
                year,
            )[i]).sheet_year == year,
    decreases rows.len(),
{
    if rows.len() > 0 {
        lemma_rows_records_year(rows.drop_last(), cols, year);
    }
}

/// Every record of a sheet carries the year that the sheet's name reads as.
pub proof fn lemma_records_carry_sheet_year(name: Seq<char>, rows: Seq<Vec<Cell>>)
    ensures
        forall|i: int|
            0 <= i < sheet_records(name, rows).len() ==> year_of(name) == Some(
                (#[trigger] sheet_records(name, rows)[i]).sheet_year as int,
            ),
{
    if let Some(y) = accepted_year(name, rows) {
        lemma_rows_records_year(
            rows.subrange(1, rows.len() as int),
            columns_of(rows[0]@)->0,
            y,
        );
    }
}

/// A sheet whose header lacks the well-name or the date column contributes
/// no record and does not stop the ingestion.
pub proof fn lemma_sheet_without_columns_adds_nothing(name: Seq<char>, rows: Seq<Vec<Cell>>)
    requires
        rows.len() > 0,
        column_of(rows[0]@, NAME_HEADER@) is None || column_of(rows[0]@, DATE_HEADER@) is None,
    ensures
        sheet_records(name, rows).len() == 0,
        accepted_year(name, rows) is None,
        !sheet_fails(name, rows),
{
}

pub proof fn lemma_rows_without_oil(rows: Seq<Vec<Cell>>, cols: Columns, year: i32)
    requires
        cols.oil is None,
    ensures
        forall|i: int|
            0 <= i < rows_records(rows, cols, year).len() ==> (#[trigger] rows_records(
                rows,
                cols,
                year,
            )[i]).oil_rate is None,
    decreases rows.len(),
{
    if rows.len() > 0 {
        lemma_rows_without_oil(rows.drop_last(), cols, year);
    }
}

/// A sheet whose header has no oil-rate column gives records without an
/// oil rate; it is no error.
pub proof fn lemma_sheet_without_oil_column(name: Seq<char>, rows: Seq<Vec<Cell>>)
    requires
        rows.len() > 0,
        column_of(rows[0]@, OIL_HEADER@) is None,
    ensures
        !sheet_fails(name, rows),
        forall|i: int|
            0 <= i < sheet_records(name, rows).len() ==> (#[trigger] sheet_records(
                name,
                rows,
            )[i]).oil_rate is None,
{
    if let Some(y) = accepted_year(name, rows) {
        lemma_rows_without_oil(rows.subrange(1, rows.len() as int), columns_of(rows[0]@)->0, y);
    }
}

/// The sheets whose names are years, in workbook order.
pub open spec fn year_sheets(sheets: Seq<Sheet>) -> Seq<Sheet>
    decreases sheets.len(),
{
    if sheets.len() == 0 {
        Seq::empty()
    } else {
        let prev = year_sheets(sheets.drop_last());
        if year_of(sheets.last().name@) is Some {
            prev.push(sheets.last())
        } else {
            prev
        }
    }
}

proof fn lemma_records_from_year_sheets(sheets: Seq<Sheet>)
    ensures
        workbook_records(sheets) == workbook_records(year_sheets(sheets)),
    decreases sheets.len(),
{
    if sheets.len() > 0 {
        let d = sheets.drop_last();
        lemma_records_from_year_sheets(d);
        let last = sheets.last();
        if year_of(last.name@) is Some {
            assert(year_sheets(d).push(last).drop_last() =~= year_sheets(d));
        } else {
            assert(workbook_records(d) + sheet_records(last.name@, last.rows@) =~= workbook_records(
                d,
            ));
        }
    }
}

proof fn lemma_year_sheets_members(sheets: Seq<Sheet>)
    ensures
        forall|sh: Sheet| #[trigger]
            year_sheets(sheets).contains(sh) <==> (sheets.contains(sh) && year_of(sh.name@) is Some),
    decreases sheets.len(),
{
    if sheets.len() > 0 {
        let d = sheets.drop_last();
        lemma_year_sheets_members(d);
        let p = year_sheets(d);
        assert forall|sh: Sheet| #[trigger]
            year_sheets(sheets).contains(sh) <==> (sheets.contains(sh) && year_of(sh.name@) is Some) by {
            if sheets.contains(sh) {
                let k = choose|k: int| 0 <= k < sheets.len() && sheets[k] == sh;
                if k < d.len() {
                    assert(d[k] == sh);
                }
            }
            if d.contains(sh) {
                let k = choose|k: int| 0 <= k < d.len() && d[k] == sh;
                assert(sheets[k] == sh);
            }
            if year_of(sheets.last().name@) is Some {
                let n = p.push(sheets.last());
                if n.contains(sh) {
                    let k = choose|k: int| 0 <= k < n.len() && n[k] == sh;
                    if k < p.len() {
                        assert(p[k] == sh);
                    }
                }
                if p.contains(sh) {
                    let k = choose|k: int| 0 <= k < p.len() && p[k] == sh;
                    assert(n[k] == sh);
                }
                if sh == sheets.last() {
                    assert(n[p.len() as int] == sh);
                }
            }
        }
    }
}

/// Whether some sheet stops the ingestion.
pub open spec fn workbook_fails(sheets: Seq<Sheet>) -> bool {
    exists|i: int| 0 <= i < sheets.len() && sheet_fails(#[trigger] sheets[i].name@, sheets[i].rows@)
}

/// Whether some sheet takes part with year `y`.
pub open spec fn has_year(sheets: Seq<Sheet>, y: i32) -> bool {
    exists|i: int|
        0 <= i < sheets.len() && accepted_year(#[trigger] sheets[i].name@, sheets[i].rows@) == Some(y)
}

proof fn lemma_outcome_from_year_sheets(sheets: Seq<Sheet>)
    ensures
        workbook_fails(sheets) == workbook_fails(year_sheets(sheets)),
        forall|y: i32| #[trigger] has_year(sheets, y) == has_year(year_sheets(sheets), y),
{
    lemma_year_sheets_members(sheets);
    let ys = year_sheets(sheets);
    if workbook_fails(sheets) {
        let i = choose|i: int|
            0 <= i < sheets.len() && sheet_fails(#[trigger] sheets[i].name@, sheets[i].rows@);
        assert(sheets.contains(sheets[i]));
        assert(ys.contains(sheets[i]));
        let j = choose|j: int| 0 <= j < ys.len() && ys[j] == sheets[i];
        assert(sheet_fails(ys[j].name@, ys[j].rows@));
    }
    if workbook_fails(ys) {
        let j = choose|j: int| 0 <= j < ys.len() && sheet_fails(#[trigger] ys[j].name@, ys[j].rows@);
        assert(ys.contains(ys[j]));
        let i = choose|i: int| 0 <= i < sheets.len() && sheets[i] == ys[j];
        assert(sheet_fails(sheets[i].name@, sheets[i].rows@));
    }
    assert forall|y: i32| #[trigger] has_year(sheets, y) == has_year(ys, y) by {
        if has_year(sheets, y) {
            let i = choose|i: int|
                0 <= i < sheets.len() && accepted_year(#[trigger] sheets[i].name@, sheets[i].rows@)
                    == Some(y);
            assert(sheets.contains(sheets[i]));
            assert(ys.contains(sheets[i]));
            let j = choose|j: int| 0 <= j < ys.len() && ys[j] == sheets[i];
            assert(accepted_year(ys[j].name@, ys[j].rows@) == Some(y));
        }
        if has_year(ys, y) {
            let j = choose|j: int|
                0 <= j < ys.len() && accepted_year(#[trigger] ys[j].name@, ys[j].rows@) == Some(y);
            assert(ys.contains(ys[j]));
            let i = choose|i: int| 0 <= i < sheets.len() && sheets[i] == ys[j];
            assert(accepted_year(sheets[i].name@, sheets[i].rows@) == Some(y));
        }
    }
}

/// Sheets whose names are not years do not matter: two workbooks with the
/// same year sheets, in the same order, give the same records, the same
/// years, and fail alike, whatever other sheets they hold.
pub proof fn lemma_non_year_sheets_do_not_matter(a: Seq<Sheet>, b: Seq<Sheet>)
    requires
        year_sheets(a) == year_sheets(b),
    ensures
        workbook_records(a) == workbook_records(b),
        workbook_fails(a) == workbook_fails(b),
        forall|y: i32| #[trigger] has_year(a, y) == has_year(b, y),
{
    lemma_records_from_year_sheets(a);
    lemma_records_from_year_sheets(b);
    lemma_outcome_from_year_sheets(a);
    lemma_outcome_from_year_sheets(b);
}

} // verus!
