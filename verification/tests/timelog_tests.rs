use deskflow::dates::Ymd;
use deskflow::timelog::{update_range_for, CellDataType, GridRangeType, TimeLog};

fn timelog() -> TimeLog {
    TimeLog::new(
        Some(7),
        "worked on things".to_string(),
        "WFH".to_string(),
        "8".to_string(),
        "Oct(2026)".to_string(),
    )
}

#[test]
fn new_keeps_all_fields() {
    let t = timelog();
    assert_eq!(t.sheet_id, Some(7));
    assert_eq!(t.task, "worked on things");
    assert_eq!(t.in_office, "WFH");
    assert_eq!(t.hrs, "8");
    assert_eq!(t.sheet_name, "Oct(2026)");
}

#[test]
fn header_grid_range_covers_four_columns() {
    let g = timelog().get_grid_range(GridRangeType::Header, 1);
    assert_eq!(g.sheet_id, Some(7));
    assert_eq!(g.start_row_index, 0);
    assert_eq!(g.end_row_index, 1);
    assert_eq!(g.start_column_index, 0);
    assert_eq!(g.end_column_index, 4);
}

#[test]
fn date_grid_range_covers_the_highlight_strip() {
    let g = timelog().get_grid_range(GridRangeType::Date, 32);
    assert_eq!(g.start_row_index, 1);
    assert_eq!(g.end_row_index, 32);
    assert_eq!(g.end_column_index, 26);
}

#[test]
fn cell_data_variants_fill_style_and_value() {
    let t = timelog();
    let style_only = t.get_cell_data(CellDataType::StyleOnly, Some("ignored".to_string()));
    assert!(style_only.styled);
    assert!(style_only.value.is_none());

    let both = t.get_cell_data(CellDataType::StyleAndValue, Some("x".to_string()));
    assert!(both.styled);
    assert_eq!(both.value, Some("x".to_string()));

    let value_only = t.get_cell_data(CellDataType::ValueOnly, Some("y".to_string()));
    assert!(!value_only.styled);
    assert_eq!(value_only.value, Some("y".to_string()));
}

#[test]
fn current_row_holds_date_office_task_and_hours() {
    let t = timelog();
    let row = t.get_current_row_data(Ymd { year: 2026, month: 10, day: 9 });
    assert_eq!(row.cells.len(), 4);
    assert_eq!(row.cells[0].value, Some("10/09/2026".to_string()));
    assert_eq!(row.cells[1].value, Some("WFH".to_string()));
    assert_eq!(row.cells[2].value, Some("worked on things".to_string()));
    assert_eq!(row.cells[3].value, Some("8".to_string()));
    assert!(row.cells.iter().all(|c| !c.styled));
}

#[test]
fn weekend_row_is_a_highlighted_strip() {
    let t = timelog();
    let row = t.get_weekend_row_data(Ymd { year: 2026, month: 10, day: 3 });
    assert_eq!(row.cells.len(), 26);
    assert_eq!(row.cells[0].value, Some("10/03/2026".to_string()));
    assert!(row.cells.iter().all(|c| c.styled));
    assert!(row.cells[1..].iter().all(|c| c.value.is_none()));
}

#[test]
fn normal_row_is_just_the_date() {
    let t = timelog();
    let row = t.get_normal_row_data(Ymd { year: 2026, month: 10, day: 12 });
    assert_eq!(row.cells.len(), 1);
    assert_eq!(row.cells[0].value, Some("10/12/2026".to_string()));
    assert!(!row.cells[0].styled);
}

#[test]
fn header_row_names_the_columns() {
    let row = timelog().get_header_row_data();
    let values: Vec<String> = row.cells.iter().map(|c| c.value.clone().unwrap()).collect();
    assert_eq!(values, vec!["Date", "In Office", "Task", "hrs"]);
}

#[test]
fn month_rows_cover_october_2026() {
    let t = timelog();
    let today = Ymd { year: 2026, month: 10, day: 9 };
    let rows = t.month_rows(today);
    assert_eq!(rows.len(), 31);
    // day 9 is today: the full entry
    assert_eq!(rows[8].cells.len(), 4);
    assert_eq!(rows[8].cells[0].value, Some("10/09/2026".to_string()));
    // day 10 is a Saturday: the highlighted strip
    assert_eq!(rows[9].cells.len(), 26);
    assert!(rows[9].cells[0].styled);
    assert_eq!(rows[9].cells[0].value, Some("10/10/2026".to_string()));
    // day 11 is a Sunday
    assert_eq!(rows[10].cells.len(), 26);
    // day 12 is a Monday: date only
    assert_eq!(rows[11].cells.len(), 1);
    assert_eq!(rows[11].cells[0].value, Some("10/12/2026".to_string()));
}

#[test]
fn update_range_addresses_the_days_row() {
    assert_eq!(update_range_for("Oct(2026)", 8), "Oct(2026)!B9:D9");
    assert_eq!(update_range_for("Feb(2024)", 29), "Feb(2024)!B30:D30");
}
