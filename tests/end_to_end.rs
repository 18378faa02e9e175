use penguins::{drop_nulls, flatten, label_codes, prepare_dataset, split_feature_label, Cell, PipelineError, Table};

fn names(list: &[&str]) -> Vec<String> {
    list.iter().map(|s| s.to_string()).collect()
}

fn record(id: &str, bill_length: Option<f64>, depth: f64, flipper: f64, mass: f64, sex: &str) -> Vec<Cell<f64>> {
    vec![
        Cell::Text(id.to_string()),
        Cell::Text("Adelie".to_string()),
        Cell::Text("Torgersen".to_string()),
        match bill_length {
            Some(v) => Cell::Num(v),
            None => Cell::Null,
        },
        Cell::Num(depth),
        Cell::Num(flipper),
        Cell::Num(mass),
        Cell::Text(sex.to_string()),
        Cell::Text("2007".to_string()),
    ]
}

fn penguins_sample() -> Table<f64> {
    Table::new(
        names(&[
            "rowid",
            "species",
            "island",
            "bill_length_mm",
            "bill_depth_mm",
            "flipper_length_mm",
            "body_mass_g",
            "sex",
            "year",
        ]),
        vec![
            record("1", Some(39.1), 18.7, 181.0, 3750.0, "male"),
            record("2", Some(39.5), 17.4, 186.0, 3800.0, "female"),
            record("3", Some(40.3), 18.0, 195.0, 3250.0, "female"),
            record("4", None, 19.0, 190.0, 3500.0, "female"),
            record("5", Some(36.7), 19.3, 193.0, 3450.0, "female"),
            record("6", Some(39.3), 20.6, 190.0, 3650.0, "male"),
            record("7", Some(38.9), 17.8, 181.0, 3625.0, "female"),
        ],
    )
    .unwrap()
}

fn feature_names() -> Vec<String> {
    names(&["bill_length_mm", "bill_depth_mm", "flipper_length_mm", "body_mass_g"])
}

#[test]
fn sample_pipeline_step_by_step() {
    let t = penguins_sample();
    let clean = drop_nulls(&t);
    assert_eq!(clean.rows.len(), 6);
    let ids: Vec<Cell<f64>> = clean.rows.iter().map(|r| r[0].duplicate()).collect();
    let expected: Vec<Cell<f64>> = ["1", "2", "3", "5", "6", "7"].iter().map(|s| Cell::Text(s.to_string())).collect();
    assert_eq!(ids, expected);

    let (features, labels) = split_feature_label(&clean, &feature_names(), &names(&["species"])).unwrap();
    let x = flatten(&features).unwrap();
    assert_eq!((x.rows, x.cols), (6, 4));
    assert_eq!(x.data.len(), 24);
    assert_eq!(x.data[0..4].to_vec(), vec![39.1, 18.7, 181.0, 3750.0]);
    assert_eq!(x.data[12..16].to_vec(), vec![36.7, 19.3, 193.0, 3450.0]);

    let y = label_codes(&labels, 0).unwrap();
    let y: Vec<f64> = y.iter().map(|c| *c as f64).collect();
    assert_eq!(y, vec![1.0; 6]);
}

#[test]
fn sample_pipeline_in_one_call() {
    let (x, y) = prepare_dataset(&penguins_sample(), &feature_names(), &"species".to_string()).unwrap();
    assert_eq!(x.data.len(), 24);
    assert_eq!(x.data[0..4].to_vec(), vec![39.1, 18.7, 181.0, 3750.0]);
    assert_eq!(y, vec![1; 6]);
}

#[test]
fn pipeline_reports_missing_label_column() {
    let r = prepare_dataset(&penguins_sample(), &feature_names(), &"genus".to_string());
    assert!(matches!(r, Err(PipelineError::ColumnNotFound)));
}

#[test]
fn pipeline_reports_text_feature() {
    let mut f = feature_names();
    f.push("island".to_string());
    let r = prepare_dataset(&penguins_sample(), &f, &"species".to_string());
    assert!(matches!(r, Err(PipelineError::TypeMismatch)));
}

#[test]
fn pipeline_reports_unknown_species() {
    let mut t = penguins_sample();
    t.rows[6][1] = Cell::Text("Emperor".to_string());
    let r = prepare_dataset(&t, &feature_names(), &"species".to_string());
    assert!(matches!(r, Err(PipelineError::UnknownCategory)));
}
