//! The library's error kind, wrapping the parser crates' own errors where a
//! stage delegates to one.

use vstd::prelude::*;

verus! {

#[verifier::external_type_specification]
#[verifier::external_body]
pub struct ExCsvError(quick_csv::error::Error);

#[verifier::external_type_specification]
#[verifier::external_body]
pub struct ExJsonError(serde_json::Error);

#[verifier::external_type_specification]
#[verifier::external_body]
pub struct ExRegexError(regex::Error);

/// Why an ingestion failed.
#[derive(Debug)]
pub enum AppError {
    /// The CSV parser rejected the input.
    Csv(quick_csv::error::Error),
    /// A row offered fewer columns than the locked-in header.
    FewColumns,
    /// A fixed description of a malformed input.
    Fixed(&'static str),
    /// The JSON parser rejected the input.
    Json(serde_json::Error),
    /// The pattern did not compile.
    Regex(regex::Error),
}

pub type AppResult<T> = Result<T, AppError>;

pub type AppResultU = Result<(), AppError>;

} // verus!
