use vstd::prelude::*;

use crate::codec::{push_digits, spec_digits};
use crate::dates::{
    days_in_month, format_mdy, is_weekend, mdy_of, spec_days_in_month, spec_is_weekend, ymd_valid,
    Ymd,
};
use vstd::string::StringExecFns;

verus! {

/// One timelog entry to place on the monthly sheet.
pub struct TimeLog {
    pub sheet_id: Option<i32>,
    pub task: String,
    pub in_office: String,
    pub hrs: String,
    pub sheet_name: String,
}

/// Which block of the sheet a grid range addresses.
pub enum GridRangeType {
    Header,
    Date,
}

/// How a cell is filled: highlight style, text, or both.
pub enum CellDataType {
    StyleOnly,
    StyleAndValue,
    ValueOnly,
}

/// The library's model of a sheet grid range: the plain values the request
/// needs. The caller maps it onto the spreadsheet service's own range type.
pub struct GridSpan {
    pub sheet_id: Option<i32>,
    pub start_row_index: i32,
    pub end_row_index: i32,
    pub start_column_index: i32,
    pub end_column_index: i32,
}

/// The library's model of one sheet cell: whether it carries the weekend
/// highlight, and its text if any. The caller maps it onto the spreadsheet
/// service's cell type, where the highlight becomes a background colour.
pub struct CellModel {
    pub styled: bool,
    pub value: Option<String>,
}

/// One row of cells of the monthly sheet.
pub struct RowModel {
    pub cells: Vec<CellModel>,
}

/// A cell carrying `s` and no styling.
pub open spec fn value_cell(c: CellModel, s: Seq<char>) -> bool {
    !c.styled && (c.value matches Some(v) && v@ == s)
}

/// A cell carrying only the highlight.
pub open spec fn style_cell(c: CellModel) -> bool {
    c.styled && c.value is None
}

/// A highlighted cell carrying `s`.
pub open spec fn style_value_cell(c: CellModel, s: Seq<char>) -> bool {
    c.styled && (c.value matches Some(v) && v@ == s)
}

/// Today's row: the date and the day's entry, column by column.
pub open spec fn current_row_shape(r: RowModel, t: TimeLog, date: Ymd) -> bool {
    &&& r.cells@.len() == 4
    &&& value_cell(r.cells@[0], mdy_of(date))
    &&& value_cell(r.cells@[1], t.in_office@)
    &&& value_cell(r.cells@[2], t.task@)
    &&& value_cell(r.cells@[3], t.hrs@)
}

/// A weekend row: the highlighted date and a highlighted strip of cells.
pub open spec fn weekend_row_shape(r: RowModel, date: Ymd) -> bool {
    &&& r.cells@.len() == 26
    &&& style_value_cell(r.cells@[0], mdy_of(date))
    &&& forall|i: int| 1 <= i < 26 ==> style_cell(#[trigger] r.cells@[i])
}

/// Any other day's row: just the date.
pub open spec fn normal_row_shape(r: RowModel, date: Ymd) -> bool {
    &&& r.cells@.len() == 1
    &&& value_cell(r.cells@[0], mdy_of(date))
}

/// The header row of the sheet.
pub open spec fn header_row_shape(r: RowModel) -> bool {
    &&& r.cells@.len() == 4
    &&& value_cell(r.cells@[0], "Date"@)
    &&& value_cell(r.cells@[1], "In Office"@)
    &&& value_cell(r.cells@[2], "Task"@)
    &&& value_cell(r.cells@[3], "hrs"@)
}

impl TimeLog {
    pub fn new(
        sheet_id: Option<i32>,
        task: String,
        in_office: String,
        hrs: String,
        sheet_name: String,
    ) -> (t: TimeLog)
        ensures
            t.sheet_id == sheet_id,
            t.task@ == task@,
            t.in_office@ == in_office@,
            t.hrs@ == hrs@,
            t.sheet_name@ == sheet_name@,
    {
        TimeLog { sheet_id, task, in_office, hrs, sheet_name }
    }

    /// The grid range of the header block or of the date block.
    pub fn get_grid_range(&self, grid_range_type: GridRangeType, end_row_index: i32) -> (g:
        GridSpan)
        ensures
            g.sheet_id == self.sheet_id,
            g.end_row_index == end_row_index,
            grid_range_type is Header ==> g.start_row_index == 0 && g.start_column_index == 0
                && g.end_column_index == 4,
            grid_range_type is Date ==> g.start_row_index == 1 && g.start_column_index == 0
                && g.end_column_index == 26,
    {
        match grid_range_type {
            GridRangeType::Header => GridSpan {
                sheet_id: self.sheet_id,
                start_row_index: 0,
                end_row_index,
                start_column_index: 0,
                end_column_index: 4,
            },
            GridRangeType::Date => GridSpan {
                sheet_id: self.sheet_id,
                start_row_index: 1,
                end_row_index,
                start_column_index: 0,
                end_column_index: 26,
            },
        }
    }

    /// One cell, filled according to `cell_data_type`.
    pub fn get_cell_data(&self, cell_data_type: CellDataType, value: Option<String>) -> (c:
        CellModel)
        ensures
            c.styled == !(cell_data_type is ValueOnly),
            cell_data_type is StyleOnly ==> c.value is None,
            !(cell_data_type is StyleOnly) ==> c.value == value,
    {
        match cell_data_type {
            CellDataType::StyleOnly => CellModel { styled: true, value: None },
            CellDataType::StyleAndValue => CellModel { styled: true, value },
            CellDataType::ValueOnly => CellModel { styled: false, value },
        }
    }

    /// Today's row of the sheet.
    pub fn get_current_row_data(&self, current_day: Ymd) -> (r: RowModel)
        requires
            ymd_valid(current_day),
        ensures
            current_row_shape(r, *self, current_day),
    {
        let mut cells: Vec<CellModel> = Vec::new();
        cells.push(self.get_cell_data(CellDataType::ValueOnly, Some(format_mdy(current_day))));
        cells.push(self.get_cell_data(CellDataType::ValueOnly, Some(self.in_office.clone())));
        cells.push(self.get_cell_data(CellDataType::ValueOnly, Some(self.task.clone())));
        cells.push(self.get_cell_data(CellDataType::ValueOnly, Some(self.hrs.clone())));
        RowModel { cells }
    }

    /// A weekend row: the highlighted date, then 25 highlighted cells.
    pub fn get_weekend_row_data(&self, current_day: Ymd) -> (r: RowModel)
        requires
            ymd_valid(current_day),
        ensures
            weekend_row_shape(r, current_day),
    {
        let mut cells: Vec<CellModel> = Vec::new();
        cells.push(self.get_cell_data(CellDataType::StyleAndValue, Some(format_mdy(current_day))));
        let mut i: usize = 0;
        while i < 25
            invariant
                i <= 25,
                cells@.len() == i + 1,
                style_value_cell(cells@[0], mdy_of(current_day)),
                forall|k: int| 1 <= k < cells@.len() ==> style_cell(#[trigger] cells@[k]),
            decreases 25 - i,
        {
            cells.push(self.get_cell_data(CellDataType::StyleOnly, None));
            i = i + 1;
        }
        RowModel { cells }
    }

    /// An ordinary day's row: just the date.
    pub fn get_normal_row_data(&self, current_day: Ymd) -> (r: RowModel)
        requires
            ymd_valid(current_day),
        ensures
            normal_row_shape(r, current_day),
    {
        let mut cells: Vec<CellModel> = Vec::new();
        cells.push(self.get_cell_data(CellDataType::ValueOnly, Some(format_mdy(current_day))));
        RowModel { cells }
    }

    /// The header row of a freshly created sheet.
    pub fn get_header_row_data(&self) -> (r: RowModel)
        ensures
            header_row_shape(r),
    {
        let mut cells: Vec<CellModel> = Vec::new();
        cells.push(self.get_cell_data(CellDataType::ValueOnly, Some("Date".to_owned())));
        cells.push(self.get_cell_data(CellDataType::ValueOnly, Some("In Office".to_owned())));
        cells.push(self.get_cell_data(CellDataType::ValueOnly, Some("Task".to_owned())));
        cells.push(self.get_cell_data(CellDataType::ValueOnly, Some("hrs".to_owned())));
        RowModel { cells }
    }

    /// Every row of the month that `today` falls in, in day order: today's
    /// full entry, highlighted weekend rows, and a date-only row for every
    /// other day.
    pub fn month_rows(&self, today: Ymd) -> (rows: Vec<RowModel>)
        requires
            ymd_valid(today),
            1 <= today.year,
        ensures
            rows@.len() == spec_days_in_month(today.year as int, today.month as int),
            forall|i: int|
                0 <= i < rows@.len() ==> {
                    let date = Ymd { year: today.year, month: today.month, day: (i + 1) as u8 };
                    if i + 1 == today.day {
                        current_row_shape(#[trigger] rows@[i], *self, date)
                    } else if spec_is_weekend(today.year as int, today.month as int, i + 1) {
                        weekend_row_shape(rows@[i], date)
                    } else {
                        normal_row_shape(rows@[i], date)
                    }
                },
    {
        let last = days_in_month(today.year, today.month);
        let mut rows: Vec<RowModel> = Vec::new();
        let mut day: u8 = 1;
        while day <= last
            invariant
                1 <= day <= last + 1,
                28 <= last <= 31,
                last as int == spec_days_in_month(today.year as int, today.month as int),
                ymd_valid(today),
                1 <= today.year,
                rows@.len() == day - 1,
                forall|i: int|
                    0 <= i < rows@.len() ==> {
                        let date = Ymd {
                            year: today.year,
                            month: today.month,
                            day: (i + 1) as u8,
                        };
                        if i + 1 == today.day {
                            current_row_shape(#[trigger] rows@[i], *self, date)
                        } else if spec_is_weekend(today.year as int, today.month as int, i + 1) {
                            weekend_row_shape(rows@[i], date)
                        } else {
                            normal_row_shape(rows@[i], date)
                        }
                    },
            decreases last + 1 - day,
        {
            let date = Ymd { year: today.year, month: today.month, day };
            if day == today.day {
                rows.push(self.get_current_row_data(date));
            } else if is_weekend(today.year, today.month, day) {
                rows.push(self.get_weekend_row_data(date));
            } else {
                rows.push(self.get_normal_row_data(date));
            }
            day = day + 1;
        }
        rows
    }
}

/// The cell range of an existing sheet that one day's entry updates:
/// columns B through D of the day's row.
pub open spec fn update_range_of(sheet_name: Seq<char>, day: int) -> Seq<char> {
    sheet_name + "!B"@ + spec_digits((day + 1) as nat) + ":D"@ + spec_digits((day + 1) as nat)
}

pub fn update_range_for(sheet_name: &str, day: u32) -> (r: String)
    requires
        1 <= day <= 31,
    ensures
        r@ == update_range_of(sheet_name@, day as int),
{
    let mut out = sheet_name.to_owned();
    out.append("!B");
    push_digits(&mut out, (day + 1) as u64);
    out.append(":D");
    push_digits(&mut out, (day + 1) as u64);
    assert(out@ =~= update_range_of(sheet_name@, day as int));
    out
}

} // verus!
