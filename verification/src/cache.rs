//! The cache-freshness state machine: whether a previously materialized
//! table can be reused, from file timestamps and the stored fingerprint.

use vstd::prelude::*;

use crate::types::{format_literal, lemma_csv_literal_injective, Format};

verus! {

/// Whether the cached table can be reused (`Fresh`), must be rebuilt
/// (`Stale`), or does not exist at all (`Nothing`).
#[derive(Clone, Copy, Debug, PartialEq, Eq, Structural)]
pub enum State {
    Fresh,
    Nothing,
    Stale,
}

impl State {
    /// Whether ingestion can be skipped entirely.
    pub fn is_fresh(self) -> (r: bool)
        ensures
            r == (self == State::Fresh),
    {
        matches!(self, State::Fresh)
    }
}

/// A file modification time: seconds and subsecond nanoseconds.
#[derive(Clone, Copy, Debug, PartialEq, Eq, Structural)]
pub struct Mtime {
    pub secs: u64,
    pub nanos: u32,
}

/// Strictly earlier, seconds first.
pub open spec fn earlier(a: Mtime, b: Mtime) -> bool {
    a.secs < b.secs || (a.secs == b.secs && a.nanos < b.nanos)
}

/// The cache state, from the external facts alone: standard input and
/// ephemeral targets never have a reusable cache, a missing cache file means
/// a first run, and an existing one is reusable exactly when the input is
/// strictly older than it and was ingested under the same format; ties are
/// conservatively stale.
pub open spec fn spec_cache_state(
    input_is_file: bool,
    target_is_file: bool,
    cache_exists: bool,
    input_mtime: Mtime,
    cache_mtime: Mtime,
    stored: Seq<char>,
    format: Format,
) -> State {
    if !input_is_file || !target_is_file || !cache_exists {
        State::Nothing
    } else if earlier(input_mtime, cache_mtime) && stored == format_literal(format) {
        State::Fresh
    } else {
        State::Stale
    }
}

/// Decides the cache state, as `spec_cache_state` describes.
pub fn cache_state(
    input_is_file: bool,
    target_is_file: bool,
    cache_exists: bool,
    input_mtime: Mtime,
    cache_mtime: Mtime,
    stored_format: &String,
    format: &Format,
) -> (r: State)
    ensures
        r == spec_cache_state(
            input_is_file,
            target_is_file,
            cache_exists,
            input_mtime,
            cache_mtime,
            stored_format@,
            *format,
        ),
{
    if !input_is_file || !target_is_file || !cache_exists {
        return State::Nothing;
    }
    let strictly_older = input_mtime.secs < cache_mtime.secs || (input_mtime.secs
        == cache_mtime.secs && input_mtime.nanos < cache_mtime.nanos);
    let lit = format.to_sql_literal();
    if strictly_older && stored_format.eq(&lit) {
        State::Fresh
    } else {
        State::Stale
    }
}

/// Freshness holds exactly when the input is strictly older than the cache
/// and the stored format text equals the requested format's fingerprint.
pub proof fn lemma_fresh_iff(
    input_is_file: bool,
    target_is_file: bool,
    cache_exists: bool,
    input_mtime: Mtime,
    cache_mtime: Mtime,
    stored: Seq<char>,
    format: Format,
)
    ensures
        spec_cache_state(
            input_is_file,
            target_is_file,
            cache_exists,
            input_mtime,
            cache_mtime,
            stored,
            format,
        ) == State::Fresh <==> {
            &&& input_is_file
            &&& target_is_file
            &&& cache_exists
            &&& earlier(input_mtime, cache_mtime)
            &&& stored == format_literal(format)
        },
{
}

/// Changing only the CSV delimiter turns a would-be-fresh cache stale: the
/// stored fingerprint of one delimiter never matches another's.
pub proof fn lemma_delimiter_flips_freshness(
    input_mtime: Mtime,
    cache_mtime: Mtime,
    stored: Seq<char>,
    d1: Option<u8>,
    d2: Option<u8>,
)
    requires
        spec_cache_state(
            true,
            true,
            true,
            input_mtime,
            cache_mtime,
            stored,
            Format::Csv(d1),
        ) == State::Fresh,
        d1 != d2,
    ensures
        spec_cache_state(
            true,
            true,
            true,
            input_mtime,
            cache_mtime,
            stored,
            Format::Csv(d2),
        ) == State::Stale,
{
    if stored == format_literal(Format::Csv(d2)) {
        lemma_csv_literal_injective(d1, d2);
    }
}

/// The statement that counts the fingerprint table.
pub fn meta_count_sql() -> (r: String)
    ensures
        r@ == "SELECT COUNT(*) FROM sqlite_master WHERE type = 'table' AND name = 'meta'"@,
{
    String::from_str("SELECT COUNT(*) FROM sqlite_master WHERE type = 'table' AND name = 'meta'")
}

/// The statement that creates the fingerprint table.
pub fn meta_create_sql() -> (r: String)
    ensures
        r@ == "CREATE TABLE meta (name TEXT PRIMARY KEY, value TEXT);"@,
{
    String::from_str("CREATE TABLE meta (name TEXT PRIMARY KEY, value TEXT);")
}

/// The statement that reads the stored format fingerprint.
pub fn meta_select_format_sql() -> (r: String)
    ensures
        r@ == "SELECT value FROM meta WHERE name = 'format'"@,
{
    String::from_str("SELECT value FROM meta WHERE name = 'format'")
}

/// The statement that updates the stored fingerprint; the new fingerprint is
/// its one bound parameter.
pub fn meta_update_format_sql() -> (r: String)
    ensures
        r@ == "UPDATE meta SET value = ? WHERE name = 'format';"@,
{
    String::from_str("UPDATE meta SET value = ? WHERE name = 'format';")
}

/// The statement that writes a first fingerprint; the fingerprint is its one
/// bound parameter.
pub fn meta_insert_format_sql() -> (r: String)
    ensures
        r@ == "INSERT INTO meta VALUES('format', ?);"@,
{
    String::from_str("INSERT INTO meta VALUES('format', ?);")
}

} // verus!
