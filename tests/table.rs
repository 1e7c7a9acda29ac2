use pretty_table::{Table, TableError};

fn strings(v: &[&str]) -> Vec<String> {
    v.iter().map(|s| s.to_string()).collect()
}

#[test]
fn it_works() {
    let result = 2 + 2;
    assert_eq!(result, 4);
}

#[test]
fn new_table_holds_only_headers() {
    let t = Table::new(strings(&["a", "b", "c"]));
    assert_eq!(t.rows().len(), 1);
    assert_eq!(t.rows()[0], strings(&["a", "b", "c"]));
    assert_eq!(t.num_cols(), 3);
}

#[test]
fn new_table_with_no_headers() {
    let t = Table::new(Vec::new());
    assert_eq!(t.rows().len(), 1);
    assert_eq!(t.num_cols(), 0);
}

#[test]
fn short_row_is_refused() {
    let mut t = Table::new(strings(&["a", "b"]));
    let r = t.add_row(strings(&["x"]));
    assert!(matches!(r, Err(TableError::WrongNumberCols)));
    assert_eq!(t.rows().len(), 1);
}

#[test]
fn long_row_is_refused() {
    let mut t = Table::new(strings(&["a", "b"]));
    t.add_row(strings(&["x", "y"])).unwrap();
    let r = t.add_row(strings(&["x", "y", "z"]));
    assert!(matches!(r, Err(TableError::WrongNumberCols)));
    assert_eq!(t.rows().len(), 2);
}

#[test]
fn matching_row_is_added() {
    let mut t = Table::new(strings(&["a", "b"]));
    assert!(t.add_row(strings(&["x", "y"])).is_ok());
    assert_eq!(t.rows().len(), 2);
    assert!(t.add_row(strings(&["p", "q"])).is_ok());
    assert_eq!(t.rows().len(), 3);
    assert_eq!(t.rows()[2], strings(&["p", "q"]));
}
