//! The ingestion dispatcher: one format descriptor in, one ingestion plan
//! out, each format under its own loader's contract.

use vstd::prelude::*;

use crate::csv::{csv_load_ok, load_csv};
use crate::errors::AppError;
use crate::json::{json_parse_ok, json_plan_ok, json_values_of, load_json, sample_limit};
use crate::loader::Config;
use crate::ltsv::{load_ltsv, ltsv_plan_ok};
use crate::pattern::{load_regex, rex_load_ok};
use crate::plan::Ingestion;
use crate::simple::{load_simple, simple_plan_ok};
use crate::text::lines_of;
use crate::types::Format;

verus! {

/// Builds the ingestion plan for the requested format. A plan of nothing
/// (only possible for the regex format) means no row matched: there is
/// nothing to ingest and no schema to replace.
pub fn plan_ingestion(text: &str, format: &Format, config: &Config) -> (r: Result<
    Option<Ingestion>,
    AppError,
>)
    ensures
        format is Csv ==> (r matches Ok(p) ==> p is Some) && csv_load_ok(
            if r is Ok {
                Ok(r->Ok_0->Some_0)
            } else {
                Err(r->Err_0)
            },
            text@,
            format->Csv_0,
            *config,
        ),
        format is Json ==> {
            &&& (r is Ok <==> json_parse_ok(text@))
            &&& (r matches Ok(p) ==> p matches Some(g) && json_plan_ok(
                g,
                json_values_of(text@),
                sample_limit(*config),
            ))
            &&& (r matches Err(e) ==> e matches AppError::Json(_))
        },
        format is Ltsv ==> (r matches Ok(p) && p matches Some(g) && ltsv_plan_ok(g, text@)),
        format is Regex ==> rex_load_ok(r, format->Regex_0@, text@),
        format is Simple ==> {
            &&& (r is Ok <==> lines_of(text@).len() > 0)
            &&& (r matches Ok(p) ==> p matches Some(g) && simple_plan_ok(
                g,
                text@,
                config.no_header,
            ))
            &&& (r matches Err(e) ==> e matches AppError::Fixed(m) && m@ == "No lines"@)
        },
{
    match format {
        Format::Csv(delimiter) => {
            match load_csv(text, *delimiter, config) {
                Ok(g) => Ok(Option::Some(g)),
                Err(e) => Err(e),
            }
        },
        Format::Json => {
            match load_json(text, config) {
                Ok(g) => Ok(Option::Some(g)),
                Err(e) => Err(e),
            }
        },
        Format::Ltsv => Ok(Option::Some(load_ltsv(text))),
        Format::Regex(pat) => load_regex(text, pat.as_str()),
        Format::Simple => {
            match load_simple(text, config) {
                Ok(g) => Ok(Option::Some(g)),
                Err(e) => Err(e),
            }
        },
    }
}

} // verus!
