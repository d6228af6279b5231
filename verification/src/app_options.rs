//! The command-line options, and how they select the ingestion format.

use vstd::prelude::*;

use crate::types::Format;

verus! {

/// The parsed command line, one field per flag or argument.
#[allow(non_snake_case)]
pub struct AppOptions {
    pub arg_csv: String,
    pub flag_c: Option<String>,
    pub flag_d: Option<char>,
    pub flag_e: Option<String>,
    pub flag_g: Option<usize>,
    pub flag_r: Option<String>,
    pub flag_j: bool,
    pub flag_l: bool,
    pub flag_n: bool,
    pub flag_q: Option<String>,
    pub flag_s: bool,
    pub flag_version: bool,
    pub flag_R: bool,
    pub arg_sqlite_options: Vec<String>,
}

impl AppOptions {
    /// The requested format: LTSV, JSON, simple and regex flags in that
    /// order of precedence, and CSV (with the delimiter's byte, if one was
    /// given) as the default.
    pub fn format(&self) -> (r: Format)
        ensures
            self.flag_l ==> r is Ltsv,
            !self.flag_l && self.flag_j ==> r is Json,
            !self.flag_l && !self.flag_j && self.flag_s ==> r is Simple,
            !self.flag_l && !self.flag_j && !self.flag_s && self.flag_r is Some ==> (
            r matches Format::Regex(p) && p@ == self.flag_r->Some_0@),
            !self.flag_l && !self.flag_j && !self.flag_s && self.flag_r is None ==> (
            r matches Format::Csv(d) && (self.flag_d is None <==> d is None) && (
            self.flag_d matches Some(c) ==> d == Some(c as u8))),
    {
        if self.flag_l {
            Format::Ltsv
        } else if self.flag_j {
            Format::Json
        } else if self.flag_s {
            Format::Simple
        } else if let Option::Some(format) = &self.flag_r {
            Format::Regex(format.clone())
        } else {
            match self.flag_d {
                Option::Some(c) => Format::Csv(Option::Some(
                    #[verifier::truncate] (c as u8),
                )),
                Option::None => Format::Csv(Option::None),
            }
        }
    }
}

} // verus!
