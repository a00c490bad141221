//! Cells, records and the column resolver.
//!
//! Measurements are binary64 values in the workbook; here they travel as
//! their IEEE-754 bit patterns (`u64`), untouched, since nothing in the
//! pipeline computes with them.
use vstd::prelude::*;

use crate::numeric::{decimal_text, integer_text};
use crate::text::text_equals;

verus! {

/// Header of the well-identifier column.
pub const NAME_HEADER: &'static str = "@Name( )";

/// Header of the date column.
pub const DATE_HEADER: &'static str = "Date";

/// Header of the liquid-rate column.
pub const LIQUID_HEADER: &'static str = "PdLiq";

/// Header of the oil-rate column.
pub const OIL_HEADER: &'static str = "PdOil";

/// Header of the temperature column; its first letter is the Cyrillic `Т`.
pub const TEMPERATURE_HEADER: &'static str = "Тemperature";

/// A naive date and time: seconds since 1970-01-01 00:00:00 and the
/// fraction of the second in nanoseconds (at or above 10^9 in a leap second).
#[derive(Clone, Copy, Debug, PartialEq, Eq)]
pub struct Timestamp {
    pub secs: i64,
    pub nanos: u32,
}

/// What a cell of the workbook holds.
#[derive(Clone, Debug, PartialEq)]
pub enum CellValue {
    Empty,
    Text(String),
    Int(i64),
    /// A floating-point cell: its bit pattern and its default decimal rendering.
    Float { bits: u64, shown: String },
    /// Booleans, errors, durations and the other kinds the pipeline does not read.
    Other,
}

/// A cell, with the date and time it can be read as, if any.
#[derive(Clone, Debug, PartialEq)]
pub struct Cell {
    pub value: CellValue,
    pub stamp: Option<Timestamp>,
}

/// One measurement row of one well.
#[derive(Clone, Debug, PartialEq)]
pub struct Record {
    pub well_name: String,
    pub timestamp: Option<Timestamp>,
    pub liquid_rate: Option<u64>,
    pub oil_rate: Option<u64>,
    pub temperature: Option<u64>,
    pub sheet_year: i32,
}

pub ghost struct RecordView {
    pub well_name: Seq<char>,
    pub timestamp: Option<Timestamp>,
    pub liquid_rate: Option<u64>,
    pub oil_rate: Option<u64>,
    pub temperature: Option<u64>,
    pub sheet_year: i32,
}

impl View for Record {
    type V = RecordView;

    open spec fn view(&self) -> RecordView {
        RecordView {
            well_name: self.well_name@,
            timestamp: self.timestamp,
            liquid_rate: self.liquid_rate,
            oil_rate: self.oil_rate,
            temperature: self.temperature,
            sheet_year: self.sheet_year,
        }
    }
}

pub open spec fn records_view(v: Seq<Record>) -> Seq<RecordView> {
    v.map_values(|r: Record| r@)
}

impl Record {
    /// A copy of the record.
    pub fn copy(&self) -> (r: Record)
        ensures
            r@ == self@,
    {
        Record {
            well_name: self.well_name.clone(),
            timestamp: self.timestamp,
            liquid_rate: self.liquid_rate,
            oil_rate: self.oil_rate,
            temperature: self.temperature,
            sheet_year: self.sheet_year,
        }
    }
}

/// Positions of the columns that one sheet exposes.
#[derive(Clone, Copy, Debug, PartialEq, Eq)]
pub struct Columns {
    pub name: usize,
    pub date: usize,
    pub liquid: Option<usize>,
    pub oil: Option<usize>,
    pub temperature: Option<usize>,
}

pub open spec fn is_text(c: Cell, t: Seq<char>) -> bool {
    c.value matches CellValue::Text(s) && s@ == t
}

/// The column headed `t`: the last textual header cell equal to it, as a
/// later entry of a name-to-index map replaces an earlier one.
pub open spec fn column_of(h: Seq<Cell>, t: Seq<char>) -> Option<int>
    decreases h.len(),
{
    if h.len() == 0 {
        None
    } else if is_text(h.last(), t) {
        Some(h.len() - 1)
    } else {
        column_of(h.drop_last(), t)
    }
}

pub open spec fn as_index(o: Option<int>) -> Option<usize> {
    match o {
        Some(i) => Some(i as usize),
        None => None,
    }
}

/// The columns of a sheet with the given header row; `None` when the
/// well-name or the date column is missing.
pub open spec fn columns_of(h: Seq<Cell>) -> Option<Columns> {
    match (column_of(h, NAME_HEADER@), column_of(h, DATE_HEADER@)) {
        (Some(n), Some(d)) => Some(
            Columns {
                name: n as usize,
                date: d as usize,
                liquid: as_index(column_of(h, LIQUID_HEADER@)),
                oil: as_index(column_of(h, OIL_HEADER@)),
                temperature: as_index(column_of(h, TEMPERATURE_HEADER@)),
            },
        ),
        _ => None,
    }
}

fn find_column(header: &Vec<Cell>, t: &str) -> (r: Option<usize>)
    ensures
        r matches Some(i) ==> column_of(header@, t@) == Some(i as int),
        r is None ==> column_of(header@, t@) is None,
{
    let mut i: usize = header.len();
    assert(header@.take(i as int) =~= header@);
    while i > 0
        invariant
            i <= header@.len(),
            column_of(header@, t@) == column_of(header@.take(i as int), t@),
        decreases i,
    {
        let hit = match &header[i - 1].value {
            CellValue::Text(s) => text_equals(s.as_str(), t),
            _ => false,
        };
        assert(header@.take(i as int).last() == header@[i - 1]);
        if hit {
            return Some(i - 1);
        }
        assert(header@.take(i as int).drop_last() =~= header@.take(i - 1));
        i = i - 1;
    }
    None
}

/// Finds the columns of a sheet from its header row. Only textual cells
/// name a column; a sheet without the well-name or the date column gives
/// `None`.
pub fn resolve_columns(header: &Vec<Cell>) -> (r: Option<Columns>)
    ensures
        r == columns_of(header@),
{
    let name = find_column(header, NAME_HEADER);
    let date = find_column(header, DATE_HEADER);
    match (name, date) {
        (Some(n), Some(d)) => {
            let liquid = find_column(header, LIQUID_HEADER);
            let oil = find_column(header, OIL_HEADER);
            let temperature = find_column(header, TEMPERATURE_HEADER);
            Some(Columns { name: n, date: d, liquid, oil, temperature })
        },
        _ => None,
    }
}

/// The well name a cell gives: text as it is, numbers in their default
/// decimal rendering, nothing for other kinds.
pub open spec fn well_text(c: Cell) -> Option<Seq<char>> {
    match c.value {
        CellValue::Text(s) => Some(s@),
        CellValue::Int(i) => Some(decimal_text(i as int)),
        CellValue::Float { shown, .. } => Some(shown@),
        _ => None,
    }
}

/// The number in an optional column of a row: only floating-point cells count.
pub open spec fn number_at(row: Seq<Cell>, col: Option<usize>) -> Option<u64> {
    match col {
        Some(i) => if i < row.len() {
            match row[i as int].value {
                CellValue::Float { bits, .. } => Some(bits),
                _ => None,
            }
        } else {
            None
        },
        None => None,
    }
}

pub open spec fn stamp_at(row: Seq<Cell>, i: usize) -> Option<Timestamp> {
    if i < row.len() {
        row[i as int].stamp
    } else {
        None
    }
}

/// The record a data row yields, if its well-name cell can be read.
pub open spec fn record_of(row: Seq<Cell>, cols: Columns, year: i32) -> Option<RecordView> {
    if cols.name < row.len() {
        match well_text(row[cols.name as int]) {
            Some(w) => Some(
                RecordView {
                    well_name: w,
                    timestamp: stamp_at(row, cols.date),
                    liquid_rate: number_at(row, cols.liquid),
                    oil_rate: number_at(row, cols.oil),
                    temperature: number_at(row, cols.temperature),
                    sheet_year: year,
                },
            ),
            None => None,
        }
    } else {
        None
    }
}

fn number_in(row: &Vec<Cell>, col: Option<usize>) -> (r: Option<u64>)
    ensures
        r == number_at(row@, col),
{
    match col {
        Some(i) => if i < row.len() {
            match &row[i].value {
                CellValue::Float { bits, .. } => Some(*bits),
                _ => None,
            }
        } else {
            None
        },
        None => None,
    }
}

/// Reads one data row of a sheet of the given year.
pub fn extract_record(row: &Vec<Cell>, cols: &Columns, year: i32) -> (r: Option<Record>)
    ensures
        match r {
            Some(rec) => record_of(row@, *cols, year) == Some(rec@),
            None => record_of(row@, *cols, year) is None,
        },
{
    if cols.name >= row.len() {
        return None;
    }
    let well_name = match &row[cols.name].value {
        CellValue::Text(s) => s.clone(),
        CellValue::Int(i) => integer_text(*i),
        CellValue::Float { shown, .. } => shown.clone(),
        _ => {
            return None;
        },
    };
    let timestamp = if cols.date < row.len() {
        row[cols.date].stamp
    } else {
        None
    };
    Some(
        Record {
            well_name,
            timestamp,
            liquid_rate: number_in(row, cols.liquid),
            oil_rate: number_in(row, cols.oil),
            temperature: number_in(row, cols.temperature),
            sheet_year: year,
        },
    )
}

} // verus!
