//! End-to-end: ingestion plans executed against a real store.

use nq::loader::Config;
use nq::csv::load_csv;
use nq::json::load_json;
use nq::ltsv::load_ltsv;
use nq::pattern::{load_regex, unmatched_lines};
use nq::simple::load_simple;
use nq::plan::Ingestion;
use nq::errors::AppError;

use rusqlite::types::Value;
use rusqlite::Connection;

fn apply(plan: &Ingestion) -> Connection {
    let conn = Connection::open_in_memory().unwrap();
    conn.execute(&plan.clear, []).unwrap();
    conn.execute(&plan.create, []).unwrap();
    for ins in &plan.inserts {
        conn.execute(&ins.sql, rusqlite::params_from_iter(ins.params.iter())).unwrap();
    }
    conn
}

fn all_rows(conn: &Connection, query: &str) -> Vec<Vec<Value>> {
    let mut stmt = conn.prepare(query).unwrap();
    let ncols = stmt.column_count();
    let rows = stmt
        .query_map([], |row| {
            let mut out: Vec<Value> = Vec::new();
            for i in 0..ncols {
                out.push(row.get(i).unwrap());
            }
            Ok(out)
        })
        .unwrap();
    rows.map(|r| r.unwrap()).collect()
}

#[test]
fn csv_round_trip_with_inference() {
    let text = "a,b,c\n1,2.5,x\n2,3,y\n";
    let plan = load_csv(text, None, &Config { guess_lines: Some(2), no_header: false }).unwrap();
    let conn = apply(&plan);
    let rows = all_rows(&conn, "SELECT typeof(a), typeof(b), typeof(c), a, b, c FROM n ORDER BY a");
    assert_eq!(rows.len(), 2);
    assert_eq!(rows[0][0], Value::Text("integer".to_owned()));
    assert_eq!(rows[0][1], Value::Text("real".to_owned()));
    assert_eq!(rows[0][2], Value::Text("text".to_owned()));
    assert_eq!(rows[0][3], Value::Integer(1));
    assert_eq!(rows[0][4], Value::Real(2.5));
    assert_eq!(rows[0][5], Value::Text("x".to_owned()));
    assert_eq!(rows[1][3], Value::Integer(2));
    assert_eq!(rows[1][4], Value::Real(3.0));
    assert_eq!(rows[1][5], Value::Text("y".to_owned()));
}

#[test]
fn csv_grouping_separators_are_normalized() {
    let text = "a\n\"1,234\"\n";
    let plan = load_csv(text, None, &Config { guess_lines: Some(1), no_header: false }).unwrap();
    let conn = apply(&plan);
    let rows = all_rows(&conn, "SELECT typeof(a), a FROM n");
    assert_eq!(rows[0][0], Value::Text("integer".to_owned()));
    assert_eq!(rows[0][1], Value::Integer(1234));
}

#[test]
fn csv_without_inference_keeps_integer_columns() {
    let text = "a\nhello\n";
    let plan = load_csv(text, None, &Config { guess_lines: None, no_header: false }).unwrap();
    assert!(plan.create.contains("'a' integer"));
    let conn = apply(&plan);
    let rows = all_rows(&conn, "SELECT typeof(a), a FROM n");
    // the value does not look like an integer, so the store keeps it as text
    assert_eq!(rows[0][0], Value::Text("text".to_owned()));
    assert_eq!(rows[0][1], Value::Text("hello".to_owned()));
}

#[test]
fn csv_synthetic_header() {
    let text = "1,2\n3,4\n";
    let plan = load_csv(text, None, &Config { guess_lines: None, no_header: true }).unwrap();
    assert!(plan.create.contains("'a'"));
    assert!(plan.create.contains("'b'"));
    // with no header line, the first record is data
    assert_eq!(plan.inserts.len(), 2);
    let conn = apply(&plan);
    let rows = all_rows(&conn, "SELECT a, b FROM n ORDER BY a");
    assert_eq!(rows[0][0], Value::Integer(1));
    assert_eq!(rows[1][1], Value::Integer(4));
}

#[test]
fn csv_custom_delimiter() {
    let text = "a;b\n1;2\n";
    let plan = load_csv(text, Some(b';'), &Config { guess_lines: None, no_header: false }).unwrap();
    let conn = apply(&plan);
    let rows = all_rows(&conn, "SELECT a, b FROM n");
    assert_eq!(rows[0][0], Value::Integer(1));
    assert_eq!(rows[0][1], Value::Integer(2));
}

#[test]
fn csv_empty_input_has_no_header() {
    let r = load_csv("", None, &Config { guess_lines: None, no_header: false });
    assert!(matches!(r, Err(AppError::Fixed("Header not found"))));
}

#[test]
fn csv_quoted_cells_are_unquoted() {
    // the parser resolves the quoting: a plan built from the raw text
    // unchanged would keep the quote characters
    let text = "a,b,c\n\"x\"\"y\",e,f\n";
    let plan = load_csv(text, None, &Config { guess_lines: None, no_header: false }).unwrap();
    assert_eq!(plan.inserts[0].params[0], "x\"y");
    assert_eq!(plan.inserts[0].params[1], "e");
    assert_eq!(plan.inserts[0].params[2], "f");
}

#[test]
fn csv_duplicate_header_names_are_preserved() {
    let text = "a,a\n1,2\n";
    let plan = load_csv(text, None, &Config { guess_lines: None, no_header: false }).unwrap();
    assert_eq!(plan.create, "CREATE TABLE n ('a' integer,'a' integer)");
}

#[test]
fn csv_non_ascii_delimiter_is_rejected() {
    let r = load_csv("a\n1\n", Some(0xC3), &Config { guess_lines: None, no_header: false });
    assert!(matches!(r, Err(AppError::Fixed("Invalid delimiter"))));
}

#[test]
fn csv_lone_open_quote_at_the_end_is_rejected() {
    let cfg = Config { guess_lines: None, no_header: false };
    for text in ["\"", "a,\"", "a\n\"", "\"\r", "a,b\n1,\""] {
        let r = load_csv(text, None, &cfg);
        assert!(matches!(r, Err(AppError::Fixed("Unterminated quoted field"))));
    }
    // an ordinary closing quote at the end still parses
    let plan = load_csv("a\n\"x\"", None, &cfg).unwrap();
    assert_eq!(plan.inserts[0].params[0], "x");
}

#[test]
fn regex_skipped_lines_are_reported() {
    let skipped = unmatched_lines("no!\n12\nalso not\n34\n", r"^\d+$").unwrap();
    assert_eq!(skipped, vec!["no!", "also not"]);
    assert!(matches!(unmatched_lines("x", "(bad"), Err(AppError::Regex(_))));
}

#[test]
fn csv_malformed_quote_reports_the_parser_error() {
    let text = "a,b\nx\"y,z\n";
    let r = load_csv(text, None, &Config { guess_lines: None, no_header: false });
    assert!(matches!(r, Err(AppError::Csv(_))));
}

#[test]
fn ltsv_empty_text_plans_no_rows() {
    let plan = load_ltsv("");
    assert_eq!(plan.inserts.len(), 0);
    assert_eq!(plan.create, "CREATE TABLE n ()");
}

#[test]
fn json_smallest_sampling_window_reads_one_value() {
    let text = "{\"a\":1}\n{\"b\":2}";
    let plan = load_json(text, &Config { guess_lines: Some(0), no_header: false }).unwrap();
    assert!(plan.create.contains("'a'"));
    assert!(!plan.create.contains("'b'"));
    // the second object has no recognized key left, so its row is all NULLs
    assert_eq!(plan.inserts.len(), 2);
    assert_eq!(plan.inserts[1].sql, "INSERT INTO n DEFAULT VALUES");
    let conn = apply(&plan);
    let rows = all_rows(&conn, "SELECT a FROM n ORDER BY a IS NULL");
    assert_eq!(rows, vec![vec![Value::Text("1".to_owned())], vec![Value::Null]]);
}

#[test]
fn json_rows_bind_only_the_recognized_subset() {
    // the key first seen after the window is dropped from the row, not fatal
    let text = "{\"a\":1}\n{\"a\":2,\"b\":3}";
    let plan = load_json(text, &Config { guess_lines: Some(0), no_header: false }).unwrap();
    let conn = apply(&plan);
    let rows = all_rows(&conn, "SELECT a FROM n ORDER BY a");
    assert_eq!(rows, vec![
        vec![Value::Text("1".to_owned())],
        vec![Value::Text("2".to_owned())],
    ]);
}

#[test]
fn json_nested_objects_flatten() {
    let text = "{\"x\":1}\n{\"y\":{\"z\":2}}";
    let plan = load_json(text, &Config { guess_lines: None, no_header: false }).unwrap();
    let conn = apply(&plan);
    let rows = all_rows(&conn, "SELECT x, y_z FROM n ORDER BY x IS NULL");
    assert_eq!(rows.len(), 2);
    assert_eq!(rows[0][0], Value::Text("1".to_owned()));
    assert_eq!(rows[0][1], Value::Null);
    assert_eq!(rows[1][0], Value::Null);
    assert_eq!(rows[1][1], Value::Text("2".to_owned()));
}

#[test]
fn json_scalars_and_arrays_do_not_make_rows() {
    let text = "1 [2,3] {\"a\":4} \"s\"";
    let plan = load_json(text, &Config { guess_lines: None, no_header: false }).unwrap();
    assert_eq!(plan.inserts.len(), 1);
    let conn = apply(&plan);
    let rows = all_rows(&conn, "SELECT a FROM n");
    assert_eq!(rows, vec![vec![Value::Text("4".to_owned())]]);
}

#[test]
fn json_booleans_become_bits_and_arrays_stay_null() {
    let text = "{\"a\":true,\"b\":false,\"c\":[1],\"d\":null,\"e\":\"t\"}";
    let plan = load_json(text, &Config { guess_lines: None, no_header: false }).unwrap();
    let conn = apply(&plan);
    let rows = all_rows(&conn, "SELECT a, b, c, d, e FROM n");
    assert_eq!(rows[0][0], Value::Text("1".to_owned()));
    assert_eq!(rows[0][1], Value::Text("0".to_owned()));
    assert_eq!(rows[0][2], Value::Null);
    assert_eq!(rows[0][3], Value::Null);
    assert_eq!(rows[0][4], Value::Text("t".to_owned()));
}

#[test]
fn json_malformed_input_fails() {
    let r = load_json("{\"a\":", &Config { guess_lines: None, no_header: false });
    assert!(matches!(r, Err(AppError::Json(_))));
}

#[test]
fn json_header_sampling_window_drops_late_keys() {
    // a key first appearing after the sampling window is lost to the schema,
    // and the late row still inserts (all NULLs)
    let text = "{\"a\":1}\n{\"a\":2}\n{\"b\":3}";
    let plan = load_json(text, &Config { guess_lines: Some(1), no_header: false }).unwrap();
    assert!(plan.create.contains("'a'"));
    assert!(!plan.create.contains("'b'"));
    let conn = apply(&plan);
    let rows = all_rows(&conn, "SELECT COUNT(*), COUNT(a) FROM n");
    assert_eq!(rows[0][0], Value::Integer(3));
    assert_eq!(rows[0][1], Value::Integer(2));
}

#[test]
fn ltsv_union_header_and_per_row_keys() {
    let text = "a:1\tb:2\na:3\tc:4\n";
    let plan = load_ltsv(text);
    for name in ["'a'", "'b'", "'c'"] {
        assert!(plan.create.contains(name));
    }
    let conn = apply(&plan);
    let rows = all_rows(&conn, "SELECT a, b, c FROM n ORDER BY a");
    assert_eq!(rows.len(), 2);
    assert_eq!(rows[0], vec![
        Value::Text("1".to_owned()),
        Value::Text("2".to_owned()),
        Value::Null,
    ]);
    assert_eq!(rows[1], vec![
        Value::Text("3".to_owned()),
        Value::Null,
        Value::Text("4".to_owned()),
    ]);
}

#[test]
fn ltsv_empty_keys_are_skipped() {
    let text = "a:1\t:skipme\tb:2\n";
    let plan = load_ltsv(text);
    assert!(!plan.create.contains("skipme"));
    let conn = apply(&plan);
    let rows = all_rows(&conn, "SELECT a, b FROM n");
    assert_eq!(rows[0][0], Value::Text("1".to_owned()));
    assert_eq!(rows[0][1], Value::Text("2".to_owned()));
}

#[test]
fn ltsv_value_may_hold_colons() {
    let text = "url:http://x/y\n";
    let plan = load_ltsv(text);
    let conn = apply(&plan);
    let rows = all_rows(&conn, "SELECT url FROM n");
    assert_eq!(rows[0][0], Value::Text("http://x/y".to_owned()));
}

#[test]
fn regex_schema_comes_from_first_matching_line() {
    let text = "no match here!\n12 34\n56 78\n";
    let plan = load_regex(text, r"^(\d+) (\d+)$").unwrap().unwrap();
    assert!(plan.create.contains("'a'"));
    assert!(plan.create.contains("'b'"));
    let conn = apply(&plan);
    let rows = all_rows(&conn, "SELECT a, b FROM n ORDER BY a");
    assert_eq!(rows.len(), 2);
    assert_eq!(rows[0][0], Value::Text("12".to_owned()));
    assert_eq!(rows[1][1], Value::Text("78".to_owned()));
}

#[test]
fn regex_missing_group_fails_with_few_columns() {
    let text = "ab cd\nef\n";
    let r = load_regex(text, r"^(\w+)( (\w+))?$");
    assert!(matches!(r, Err(AppError::FewColumns)));
}

#[test]
fn regex_without_any_match_plans_nothing() {
    let r = load_regex("x\ny\n", r"^\d+$").unwrap();
    assert!(r.is_none());
}

#[test]
fn regex_bad_pattern_reports_its_error() {
    let r = load_regex("x", "(unclosed");
    assert!(matches!(r, Err(AppError::Regex(_))));
}

#[test]
fn simple_splits_on_whitespace_runs() {
    let text = "name  value\nx 1\ny\t2\n";
    let plan = load_simple(text, &Config { guess_lines: None, no_header: false }).unwrap();
    let conn = apply(&plan);
    let rows = all_rows(&conn, "SELECT name, value FROM n ORDER BY name");
    assert_eq!(rows.len(), 2);
    assert_eq!(rows[0][0], Value::Text("x".to_owned()));
    assert_eq!(rows[0][1], Value::Text("1".to_owned()));
    assert_eq!(rows[1][1], Value::Text("2".to_owned()));
}

#[test]
fn simple_last_column_keeps_trailing_text() {
    let text = "a b\n1 two words  here\n";
    let plan = load_simple(text, &Config { guess_lines: None, no_header: false }).unwrap();
    assert_eq!(plan.inserts[0].params[1], "two words  here");
}

#[test]
fn simple_short_rows_are_padded() {
    let text = "a b c\n1\n";
    let plan = load_simple(text, &Config { guess_lines: None, no_header: false }).unwrap();
    assert_eq!(plan.inserts[0].params, vec!["1", "", ""]);
}

#[test]
fn simple_empty_input_has_no_lines() {
    let r = load_simple("", &Config { guess_lines: None, no_header: false });
    assert!(matches!(r, Err(AppError::Fixed("No lines"))));
}

#[test]
fn quoted_column_name_survives_the_round_trip() {
    let text = "o'clock\n5\n";
    let plan = load_csv(text, None, &Config { guess_lines: Some(1), no_header: false }).unwrap();
    let conn = apply(&plan);
    let rows = all_rows(&conn, "SELECT \"o'clock\" FROM n");
    assert_eq!(rows[0][0], Value::Integer(5));
    // the stored column name is exactly the header cell
    let names = all_rows(&conn, "SELECT name FROM pragma_table_info('n')");
    assert_eq!(names[0][0], Value::Text("o'clock".to_owned()));
}
