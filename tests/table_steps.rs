use penguins::{drop_nulls, select_columns, split_feature_label, Cell, PipelineError, Table};

fn names(list: &[&str]) -> Vec<String> {
    list.iter().map(|s| s.to_string()).collect()
}

fn num(v: f64) -> Cell<f64> {
    Cell::Num(v)
}

fn text(s: &str) -> Cell<f64> {
    Cell::Text(s.to_string())
}

fn sample() -> Table<f64> {
    Table::new(
        names(&["species", "bill_length_mm", "bill_depth_mm"]),
        vec![
            vec![text("Adelie"), num(39.1), num(18.7)],
            vec![text("Gentoo"), Cell::Null, num(17.4)],
            vec![Cell::Null, num(40.3), num(18.0)],
            vec![text("Chinstrap"), num(46.5), num(17.9)],
        ],
    )
    .unwrap()
}

#[test]
fn new_rejects_ragged_rows() {
    let r = Table::new(names(&["a", "b"]), vec![vec![num(1.0), num(2.0)], vec![num(3.0)]]);
    assert!(matches!(r, Err(PipelineError::DimensionMismatch)));
}

#[test]
fn new_accepts_well_formed_rows() {
    let t = Table::new(names(&["a", "b"]), vec![vec![num(1.0), num(2.0)]]).unwrap();
    assert_eq!(t.height(), 1);
    assert_eq!(t.width(), 2);
}

#[test]
fn drop_nulls_keeps_complete_rows_in_order() {
    let t = sample();
    let c = drop_nulls(&t);
    assert_eq!(c.names, t.names);
    assert_eq!(c.rows.len(), 2);
    assert_eq!(c.rows[0], vec![text("Adelie"), num(39.1), num(18.7)]);
    assert_eq!(c.rows[1], vec![text("Chinstrap"), num(46.5), num(17.9)]);
    for row in &c.rows {
        assert!(row.iter().all(|cell| *cell != Cell::Null));
        assert!(t.rows.contains(row));
    }
}

#[test]
fn drop_nulls_is_idempotent() {
    let once = drop_nulls(&sample());
    let twice = drop_nulls(&once);
    assert_eq!(once.rows, twice.rows);
    assert_eq!(once.names, twice.names);
}

#[test]
fn drop_nulls_leaves_clean_table_unchanged() {
    let t = Table::new(names(&["a"]), vec![vec![num(1.0)], vec![num(2.0)]]).unwrap();
    let c = drop_nulls(&t);
    assert_eq!(c.rows, t.rows);
}

#[test]
fn drop_nulls_may_drop_everything() {
    let t = Table::new(names(&["a"]), vec![vec![Cell::<f64>::Null], vec![Cell::Null]]).unwrap();
    let c = drop_nulls(&t);
    assert_eq!(c.rows.len(), 0);
    assert_eq!(c.names, names(&["a"]));
}

#[test]
fn column_position_finds_first_match() {
    let t = Table::new(names(&["x", "y", "x"]), vec![vec![num(1.0), num(2.0), num(3.0)]]).unwrap();
    assert_eq!(t.column_position(&"x".to_string()), Some(0));
    assert_eq!(t.column_position(&"y".to_string()), Some(1));
    assert_eq!(t.column_position(&"z".to_string()), None);
}

#[test]
fn select_columns_uses_requested_order() {
    let t = sample();
    let s = select_columns(&t, &names(&["bill_depth_mm", "species"])).unwrap();
    assert_eq!(s.names, names(&["bill_depth_mm", "species"]));
    assert_eq!(s.rows.len(), 4);
    assert_eq!(s.rows[0], vec![num(18.7), text("Adelie")]);
    assert_eq!(s.rows[2], vec![num(18.0), Cell::Null]);
}

#[test]
fn select_columns_reports_missing_name() {
    let r = select_columns(&sample(), &names(&["species", "island"]));
    assert!(matches!(r, Err(PipelineError::ColumnNotFound)));
}

#[test]
fn split_gives_both_projections() {
    let t = sample();
    let (f, l) = split_feature_label(&t, &names(&["bill_length_mm", "bill_depth_mm"]), &names(&["species"])).unwrap();
    assert_eq!(f.names, names(&["bill_length_mm", "bill_depth_mm"]));
    assert_eq!(l.names, names(&["species"]));
    assert_eq!(f.rows.len(), t.rows.len());
    assert_eq!(l.rows.len(), t.rows.len());
    assert_eq!(f.rows[3], vec![num(46.5), num(17.9)]);
    assert_eq!(l.rows[3], vec![text("Chinstrap")]);
}

#[test]
fn split_reports_missing_label() {
    let r = split_feature_label(&sample(), &names(&["bill_length_mm"]), &names(&["sex"]));
    assert!(matches!(r, Err(PipelineError::ColumnNotFound)));
}
