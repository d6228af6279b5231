//! Statement-text generation, the loader options, and the small helpers.

use nq::app_options::AppOptions;
use nq::loader::{alpha_header, Config};
use nq::pipeline::plan_ingestion;
use nq::simple::Reader;
use nq::sql::{create_table_sql, drop_table_sql, insert_named_sql, insert_values, qs};
use nq::text::{split_lines, str_chars};
use nq::types::{parse_input, Format, Input, Type};
use nq::ui::Progress;

#[test]
fn placeholder_lists() {
    assert_eq!(qs(0), "");
    assert_eq!(qs(1), "?");
    assert_eq!(qs(3), "?,?,?");
}

#[test]
fn insert_statement_shapes() {
    assert_eq!(insert_values(2), "INSERT INTO n VALUES(?,?)");
    let names = vec![str_chars("a"), str_chars("b c")];
    assert_eq!(insert_named_sql(&names), "INSERT INTO n ('a','b c') VALUES (?,?)");
    assert_eq!(drop_table_sql(), "DROP TABLE IF EXISTS n");
}

#[test]
fn table_ddl_quotes_and_types() {
    let names = vec![str_chars("a"), str_chars("b's"), str_chars("c")];
    let types = vec![Type::Int, Type::Real, Type::Text];
    assert_eq!(
        create_table_sql(&names, &types),
        "CREATE TABLE n ('a' integer,'b''s' real,'c' text)"
    );
}

#[test]
fn synthetic_names_run_through_both_alphabets() {
    let h = alpha_header(3);
    assert_eq!(h, vec!["a", "b", "c"]);
    let h = alpha_header(28);
    assert_eq!(h[25], "z");
    assert_eq!(h[26], "A");
    assert_eq!(h[27], "B");
    // the alphabet caps the synthetic header
    assert_eq!(alpha_header(100).len(), 52);
}

#[test]
fn reader_splits_with_and_without_bound() {
    let r = Reader::new();
    assert_eq!(r.split("a b  c", None), vec!["a", "b", "c"]);
    assert_eq!(r.split("a b  c d", Some(2)), vec!["a", "b  c d"]);
    assert_eq!(r.split(" a", None), vec!["", "a"]);
    assert_eq!(r.split("a\t", None), vec!["a", ""]);
    assert_eq!(r.split("abc", Some(1)), vec!["abc"]);
    assert_eq!(r.split("a b", Some(0)), Vec::<String>::new());
}

#[test]
fn reader_header_takes_the_first_line() {
    let r = Reader::new();
    assert_eq!(r.header("x y\n1 2\n").unwrap(), vec!["x", "y"]);
    assert!(r.header("").is_err());
}

#[test]
fn progress_reports_every_hundredth_row() {
    let mut p = Progress::new();
    let mut due_count = 0;
    for _ in 0..250 {
        if p.progress() {
            due_count += 1;
        }
    }
    assert_eq!(due_count, 2);
    assert!(p.complete());
    let mut p = Progress::new();
    for _ in 0..100 {
        p.progress();
    }
    assert!(!p.complete());
}

#[test]
fn input_classification() {
    assert!(matches!(parse_input("-"), Input::Stdin));
    assert!(matches!(parse_input("x.csv"), Input::File("x.csv")));
}

#[test]
fn options_select_the_format() {
    let base = AppOptions {
        arg_csv: "f.csv".to_owned(),
        flag_c: None,
        flag_d: None,
        flag_e: None,
        flag_g: None,
        flag_r: None,
        flag_j: false,
        flag_l: false,
        flag_n: false,
        flag_q: None,
        flag_s: false,
        flag_version: false,
        flag_R: false,
        arg_sqlite_options: vec![],
    };
    assert!(matches!(base.format(), Format::Csv(None)));
    let o = AppOptions { flag_d: Some(';'), ..base };
    assert!(matches!(o.format(), Format::Csv(Some(b';'))));
    let o = AppOptions { flag_l: true, ..o };
    assert!(matches!(o.format(), Format::Ltsv));
    let o = AppOptions { flag_j: true, flag_l: false, ..o };
    assert!(matches!(o.format(), Format::Json));
    let o = AppOptions { flag_s: true, flag_j: false, ..o };
    assert!(matches!(o.format(), Format::Simple));
    let o = AppOptions { flag_s: false, flag_r: Some("^x$".to_owned()), ..o };
    match o.format() {
        Format::Regex(p) => assert_eq!(p, "^x$"),
        other => panic!("unexpected format {:?}", other),
    }
}

#[test]
fn dispatcher_reaches_each_loader() {
    let cfg = Config { guess_lines: None, no_header: false };
    let p = plan_ingestion("a\n1\n", &Format::Csv(None), &cfg).unwrap().unwrap();
    assert!(p.create.contains("'a' integer"));
    let p = plan_ingestion("{\"k\":1}", &Format::Json, &cfg).unwrap().unwrap();
    assert!(p.create.contains("'k' text"));
    let p = plan_ingestion("k:1\n", &Format::Ltsv, &cfg).unwrap().unwrap();
    assert!(p.create.contains("'k' text"));
    let p = plan_ingestion("1\n", &Format::Regex(r"^(\d+)$".to_owned()), &cfg).unwrap().unwrap();
    assert!(p.create.contains("'a' text"));
    let p = plan_ingestion("k v\n1 2\n", &Format::Simple, &cfg).unwrap().unwrap();
    assert!(p.create.contains("'k' text"));
}

#[test]
fn line_splitting_handles_carriage_returns() {
    let to_strings = |v: Vec<Vec<char>>| -> Vec<String> {
        v.iter().map(|l| l.iter().collect()).collect()
    };
    assert_eq!(to_strings(split_lines(&str_chars("a\r\nb\nc"))), vec!["a", "b", "c"]);
    assert_eq!(to_strings(split_lines(&str_chars("x\n"))), vec!["x"]);
    assert_eq!(to_strings(split_lines(&str_chars("a\r"))), vec!["a\r"]);
    assert_eq!(to_strings(split_lines(&str_chars(""))), Vec::<String>::new());
    assert_eq!(to_strings(split_lines(&str_chars("\n"))), vec![""]);
}
