use paycalc::calendar::AnchorSpec;
use paycalc::cell::Cell;
use paycalc::config::{Config, TimeWindow, Type};
use paycalc::date::{Month, Weekday};
use paycalc::failure::Failure;
use paycalc::grid::CellGrid;
use paycalc::ledger::ConfigLedger;

#[test]
fn cell_insert_is_idempotent() {
    let mut once = Cell::new();
    once.insert("shift".to_string());
    let mut twice = Cell::new();
    twice.insert("shift".to_string());
    twice.insert("shift".to_string());
    assert_eq!(once.config_names, twice.config_names);
    assert_eq!(once.selected, twice.selected);
    assert!(once.contains("shift"));
    assert_eq!(once.config_names.len(), 1);
}

#[test]
fn cell_remove_absent_is_noop() {
    let mut cell = Cell::new();
    cell.insert("kept".to_string());
    let before = cell.config_names.clone();
    cell.remove("absent");
    assert_eq!(cell.config_names, before);
    cell.remove("kept");
    assert!(!cell.contains("kept"));
    assert!(cell.config_names.is_empty());
}

#[test]
fn cell_names_stay_sorted() {
    let mut cell = Cell::new();
    for name in ["pear", "apple", "quince", "banana"] {
        cell.insert(name.to_string());
    }
    assert_eq!(cell.config_names, vec!["apple", "banana", "pear", "quince"]);
    assert!(cell.contains("banana"));
    assert!(!cell.contains("cherry"));
}

#[test]
fn cell_clear_variants() {
    let mut cell = Cell::new();
    cell.select(true);
    cell.insert("a".to_string());
    cell.clear_added();
    assert!(cell.selected);
    assert!(cell.config_names.is_empty());

    cell.insert("b".to_string());
    cell.clear();
    assert!(!cell.selected);
    assert!(cell.config_names.is_empty());

    cell.select(true);
    cell.deselect();
    assert!(!cell.selected);
}

#[test]
fn grid_bounds_are_checked() {
    let mut grid = CellGrid::new();
    assert!(grid.get_cell(0).is_ok());
    assert!(grid.get_cell(41).is_ok());
    assert_eq!(grid.get_cell(42).err(), Some(Failure::Cell(42)));
    assert_eq!(grid.set_selected(42, true), Err(Failure::Cell(42)));
    assert_eq!(grid.remove_name_at(99, "x"), Err(Failure::Cell(99)));
}

#[test]
fn grid_assignment_and_counts() {
    let mut grid = CellGrid::new();
    grid.set_selected(3, true).unwrap();
    grid.set_selected(17, true).unwrap();
    grid.assign_to_selected("night");
    assert_eq!(grid.usage_count("night"), 2);
    assert_eq!(grid.usage_count("day"), 0);
    assert!(grid.get_cell(3).unwrap().contains("night"));
    assert!(!grid.get_cell(4).unwrap().contains("night"));

    // Deselect keeps assignments; clearing the names keeps selection.
    grid.deselect();
    assert_eq!(grid.usage_count("night"), 2);
    assert!(!grid.get_cell(3).unwrap().selected);

    grid.remove_name_at(3, "night").unwrap();
    assert_eq!(grid.usage_count("night"), 1);

    grid.remove_name("night");
    assert_eq!(grid.usage_count("night"), 0);
}

#[test]
fn grid_clear_resets_everything() {
    let mut grid = CellGrid::new();
    grid.set_selected(0, true).unwrap();
    grid.assign_to_selected("x");
    grid.clear_cells();
    assert_eq!(grid.usage_count("x"), 0);
    assert!(!grid.get_cell(0).unwrap().selected);
}

#[test]
fn grid_select_weekday_column() {
    let mut grid = CellGrid::new();
    let anchor = AnchorSpec { year: 2024, month: Month::January, offset: 1 };
    grid.select_weekday(&anchor, Weekday::Monday);
    // January 2024: the highlighted window is January 1 (a Monday, cell 1)
    // through January 31; Mondays sit in column 1.
    for row in 0..6 {
        let position = row * 7 + 1;
        let selected = grid.get_cell(position).unwrap().selected;
        // Cells 1, 8, 15, 22, 29 are highlighted Mondays; cell 36 is
        // February 5, outside the window.
        assert_eq!(selected, position <= 29, "position {position}");
    }
    // No other column was touched.
    assert!(!grid.get_cell(0).unwrap().selected);
    assert!(!grid.get_cell(2).unwrap().selected);
}

fn flat(pay: u32) -> Config {
    Config { rate_type: Type::PerTime, pay }
}

fn hourly(pay: u32, bh: u8, bm: u8, eh: u8, em: u8) -> Config {
    Config { rate_type: Type::PerHour(TimeWindow::from_hm(bh, bm, eh, em).unwrap()), pay }
}

#[test]
fn ledger_insert_get_overwrite() {
    let mut ledger = ConfigLedger::new();
    ledger.insert("alpha".to_string(), flat(100));
    ledger.insert("beta".to_string(), hourly(1200, 9, 0, 17, 0));
    assert_eq!(ledger.len(), 2);
    assert_eq!(ledger.get("alpha"), Some(&flat(100)));
    assert!(ledger.get("gamma").is_none());

    // The later push wins outright.
    ledger.insert("alpha".to_string(), flat(250));
    assert_eq!(ledger.len(), 2);
    assert_eq!(ledger.get("alpha"), Some(&flat(250)));
}

#[test]
fn ledger_iterates_in_name_order() {
    let mut ledger = ConfigLedger::new();
    for name in ["pear", "apple", "quince", "banana"] {
        ledger.insert(name.to_string(), flat(1));
    }
    let mut names = Vec::new();
    for i in 0..ledger.len() {
        names.push(ledger.entry_at(i).0.clone());
    }
    assert_eq!(names, vec!["apple", "banana", "pear", "quince"]);
}

#[test]
fn ledger_remove_deletes_entry() {
    let mut ledger = ConfigLedger::new();
    ledger.insert("alpha".to_string(), flat(100));
    ledger.insert("beta".to_string(), flat(200));
    ledger.remove("alpha");
    assert_eq!(ledger.len(), 1);
    assert!(ledger.get("alpha").is_none());
    assert_eq!(ledger.get("beta"), Some(&flat(200)));
    // Removing an absent name changes nothing.
    ledger.remove("alpha");
    assert_eq!(ledger.len(), 1);
}

#[test]
fn total_value_sums_all_entries() {
    let mut grid = CellGrid::new();
    let mut ledger = ConfigLedger::new();

    // Three cells carry the flat configuration, two the hourly one.
    grid.set_selected(0, true).unwrap();
    grid.set_selected(1, true).unwrap();
    grid.set_selected(2, true).unwrap();
    grid.assign_to_selected("flat");
    grid.deselect();
    grid.set_selected(3, true).unwrap();
    grid.set_selected(4, true).unwrap();
    grid.assign_to_selected("hours");

    ledger.insert("flat".to_string(), flat(1000));
    ledger.insert("hours".to_string(), hourly(1200, 9, 0, 17, 0));

    // 1000 * 3 + 1200 * 2 * 480 / 60 = 3000 + 19200.
    assert_eq!(ledger.total_value(&grid), Some(22200));
}

#[test]
fn removal_keeps_ledger_and_grid_consistent() {
    let mut grid = CellGrid::new();
    let mut ledger = ConfigLedger::new();

    grid.set_selected(0, true).unwrap();
    grid.set_selected(1, true).unwrap();
    grid.assign_to_selected("gone");
    grid.assign_to_selected("kept");

    ledger.insert("gone".to_string(), flat(500));
    ledger.insert("kept".to_string(), flat(30));
    assert_eq!(ledger.total_value(&grid), Some(2 * 500 + 2 * 30));

    // The orchestrator removes the entry, then the name from every cell.
    ledger.remove("gone");
    grid.remove_name("gone");

    assert_eq!(grid.usage_count("gone"), 0);
    assert!(ledger.get("gone").is_none());
    assert_eq!(ledger.total_value(&grid), Some(2 * 30));
    // The other name is untouched.
    assert_eq!(grid.usage_count("kept"), 2);
}

#[test]
fn empty_ledger_totals_zero() {
    let grid = CellGrid::new();
    let ledger = ConfigLedger::new();
    assert_eq!(ledger.total_value(&grid), Some(0));
}
