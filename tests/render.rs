use pretty_table::{Table, TableError};

fn strings(v: &[&str]) -> Vec<String> {
    v.iter().map(|s| s.to_string()).collect()
}

fn table(headers: &[&str], rows: &[&[&str]]) -> Table {
    let mut t = Table::new(strings(headers));
    for r in rows {
        t.add_row(strings(r)).unwrap();
    }
    t
}

#[test]
fn pretty_two_columns_align() {
    let t = table(&["A", "B"], &[&["x", "y"]]);
    let out = t.output_pretty_table(Some(20)).unwrap();
    let lines: Vec<&str> = out.lines().collect();
    assert_eq!(lines.len(), 5);
    for l in &lines {
        assert_eq!(l.chars().count(), lines[0].chars().count());
    }
    assert_eq!(
        out,
        "+========+========+\n| A      | B      |\n+========+========+\n| x      | y      |\n+--------+--------+\n"
    );
}

#[test]
fn pretty_too_narrow() {
    let h = "h".repeat(50);
    let t = table(&[&h, &h, &h, &h, &h], &[]);
    assert!(matches!(t.output_pretty_table(Some(10)), Err(TableError::NotEnoughCols)));
}

#[test]
fn pretty_zero_width() {
    let t = table(&["A"], &[]);
    assert!(matches!(t.pretty_table_at(0), Err(TableError::NotEnoughCols)));
}

#[test]
fn pretty_narrowest_fit_is_exact() {
    // (1 + 3) * 2 + 1 = 9 columns: fits at 9, not at 8.
    let t = table(&["A", "B"], &[]);
    assert!(matches!(t.pretty_table_at(8), Err(TableError::NotEnoughCols)));
    let out = t.pretty_table_at(9).unwrap();
    assert_eq!(out, "+===+===+\n| A | B |\n+===+===+\n");
}

#[test]
fn pretty_width_grows_columns() {
    // width 21: (21 - 1) / 2 = 10, total 21, spacing 9, wrap 7
    let t = table(&["A", "B"], &[]);
    let out = t.pretty_table_at(21).unwrap();
    assert_eq!(out.lines().next().unwrap(), "+=========+=========+");
}

#[test]
fn pretty_long_cell_wraps() {
    let t = table(&["A", "B"], &[&["hello world foo", "y"]]);
    let out = t.output_pretty_table(Some(20)).unwrap();
    assert_eq!(
        out,
        "+========+========+\n| A      | B      |\n+========+========+\n| hello  | y      |\n| world  |        |\n| foo    |        |\n+--------+--------+\n"
    );
}

#[test]
fn pretty_row_height_is_tallest_cell() {
    let t = table(&["A", "B"], &[&["aa bb", "cc dd ee ff"]]);
    let out = t.pretty_table_at(13).unwrap();
    // spacing 5, wrap 3: "cc dd ee ff" takes four lines, "aa bb" two.
    let lines: Vec<&str> = out.lines().collect();
    assert_eq!(lines.len(), 3 + 4 + 1);
    assert_eq!(lines[3], "| aa  | cc  |");
    assert_eq!(lines[4], "| bb  | dd  |");
    assert_eq!(lines[5], "|     | ee  |");
    assert_eq!(lines[6], "|     | ff  |");
    assert_eq!(lines[7], "+-----+-----+");
}

#[test]
fn pretty_drops_carriage_returns() {
    let t = table(&["A", "B"], &[&["a\r\nb", "c"]]);
    let out = t.pretty_table_at(20).unwrap();
    assert!(!out.contains('\r'));
    assert!(out.contains("| a      | c      |\n| b      |        |\n"));
}

#[test]
fn pretty_one_column() {
    let t = table(&["Name"], &[&["x"]]);
    let out = t.pretty_table_at(10).unwrap();
    assert_eq!(out, "+=========+\n| Name    |\n+=========+\n| x       |\n+---------+\n");
}

#[test]
fn html_escapes_cells() {
    let t = table(&["a"], &[&["<b>x</b>"]]);
    let out = t.output_table_html(None);
    assert!(out.contains("&lt;b&gt;x&lt;/b&gt;"));
    assert!(!out.contains("<b>"));
}

#[test]
fn html_exact_with_caption() {
    let t = table(&["a", "b"], &[&["1", "2"]]);
    let out = t.output_table_html(Some("T&C".to_string()));
    assert_eq!(
        out,
        "<p>T&amp;C</p>\n<table>\n<th>a</th><th>b</th>\n<tr>\n<td>\n1</td>\n<td>2</td>\n</tr>\n</table>\n"
    );
}

#[test]
fn html_without_rows() {
    let t = table(&["a"], &[]);
    assert_eq!(t.output_table_html(None), "<table>\n<th>a</th>\n</table>\n");
}

#[test]
fn csv_exact_quoting() {
    let t = table(&["a", "b"], &[&["x,y", "q\""]]);
    assert_eq!(t.output_csv(), "a,b\n\"x,y\",\"q\"\"\"\n");
}

#[test]
fn csv_round_trip() {
    let t = table(
        &["name", "note"],
        &[&["a,b", "say \"hi\""], &["line\nbreak", "plain"], &["", "x"]],
    );
    let out = t.output_csv();
    let mut rdr = csv::ReaderBuilder::new()
        .has_headers(false)
        .from_reader(out.as_bytes());
    let back: Vec<Vec<String>> = rdr
        .records()
        .map(|r| r.unwrap().iter().map(|s| s.to_string()).collect())
        .collect();
    assert_eq!(&back, t.rows());
}

#[test]
fn json_exact() {
    let t = table(&["a", "b"], &[&["1", "2"]]);
    assert_eq!(
        t.output_json(),
        "[\n  {\n    \"a\": \"1\",\n    \"b\": \"2\"\n  }\n]"
    );
}

#[test]
fn json_no_rows() {
    let t = table(&["a", "b"], &[]);
    assert_eq!(t.output_json(), "[]");
}

#[test]
fn json_records_keyed_by_headers() {
    let t = table(&["k1", "k\"2"], &[&["1", "x"], &["2", "y\\z"], &["3", ""]]);
    let v: serde_json::Value = serde_json::from_str(&t.output_json()).unwrap();
    let arr = v.as_array().unwrap();
    assert_eq!(arr.len(), 3);
    for (i, rec) in arr.iter().enumerate() {
        let obj = rec.as_object().unwrap();
        let mut keys: Vec<&String> = obj.keys().collect();
        keys.sort();
        assert_eq!(keys, vec!["k\"2", "k1"]);
        assert_eq!(obj["k1"], t.rows()[i + 1][0].as_str());
        assert_eq!(obj["k\"2"], t.rows()[i + 1][1].as_str());
    }
}
