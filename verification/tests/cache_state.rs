//! The cache-freshness decision and the format fingerprint.

use nq::cache::{cache_state, Mtime, State};
use nq::types::Format;

fn t(secs: u64, nanos: u32) -> Mtime {
    Mtime { secs, nanos }
}

#[test]
fn stdin_never_has_a_cache() {
    let stored = "Csv(None)".to_owned();
    let s = cache_state(false, true, true, t(1, 0), t(2, 0), &stored, &Format::Csv(None));
    assert_eq!(s, State::Nothing);
}

#[test]
fn ephemeral_target_never_has_a_cache() {
    let stored = "Csv(None)".to_owned();
    let s = cache_state(true, false, true, t(1, 0), t(2, 0), &stored, &Format::Csv(None));
    assert_eq!(s, State::Nothing);
}

#[test]
fn missing_cache_file_means_first_run() {
    let stored = "Csv(None)".to_owned();
    let s = cache_state(true, true, false, t(1, 0), t(2, 0), &stored, &Format::Csv(None));
    assert_eq!(s, State::Nothing);
}

#[test]
fn strictly_older_input_with_same_format_is_fresh() {
    let stored = "Csv(None)".to_owned();
    let s = cache_state(true, true, true, t(1, 0), t(2, 0), &stored, &Format::Csv(None));
    assert_eq!(s, State::Fresh);
    assert!(s.is_fresh());
    // nanosecond precision participates in the comparison
    let s = cache_state(true, true, true, t(1, 1), t(1, 2), &stored, &Format::Csv(None));
    assert_eq!(s, State::Fresh);
}

#[test]
fn equal_timestamps_are_conservatively_stale() {
    let stored = "Csv(None)".to_owned();
    let s = cache_state(true, true, true, t(5, 7), t(5, 7), &stored, &Format::Csv(None));
    assert_eq!(s, State::Stale);
    assert!(!s.is_fresh());
}

#[test]
fn newer_input_is_stale() {
    let stored = "Csv(None)".to_owned();
    let s = cache_state(true, true, true, t(3, 0), t(2, 0), &stored, &Format::Csv(None));
    assert_eq!(s, State::Stale);
}

#[test]
fn changed_delimiter_flips_fresh_to_stale() {
    let stored = Format::Csv(Some(b',')).to_sql_literal();
    let fresh = cache_state(true, true, true, t(1, 0), t(2, 0), &stored, &Format::Csv(Some(b',')));
    assert_eq!(fresh, State::Fresh);
    let flipped = cache_state(
        true,
        true,
        true,
        t(1, 0),
        t(2, 0),
        &stored,
        &Format::Csv(Some(b';')),
    );
    assert_eq!(flipped, State::Stale);
}

#[test]
fn changed_format_is_stale() {
    let stored = Format::Json.to_sql_literal();
    let s = cache_state(true, true, true, t(1, 0), t(2, 0), &stored, &Format::Ltsv);
    assert_eq!(s, State::Stale);
}

#[test]
fn fingerprints_render_each_descriptor() {
    assert_eq!(Format::Csv(None).to_sql_literal(), "Csv(None)");
    assert_eq!(Format::Csv(Some(44)).to_sql_literal(), "Csv(Some(44))");
    assert_eq!(Format::Csv(Some(b'\t')).to_sql_literal(), "Csv(Some(9))");
    assert_eq!(Format::Json.to_sql_literal(), "Json");
    assert_eq!(Format::Ltsv.to_sql_literal(), "Ltsv");
    assert_eq!(Format::Regex("^a$".to_owned()).to_sql_literal(), "Regex(^a$)");
    assert_eq!(Format::Simple.to_sql_literal(), "Simple");
}
