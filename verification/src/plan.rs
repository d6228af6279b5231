//! The ingestion plan: the statements an ingestion executes against the
//! store, in order, with every value as a bound parameter.

use vstd::prelude::*;

verus! {

/// One parameterized insert: the statement text and the values bound to its
/// placeholders, in placeholder order.
pub struct Insert {
    pub sql: String,
    pub params: Vec<String>,
}

/// Everything one ingestion writes: drop the previous table, create the new
/// one, then run the inserts in order.
pub struct Ingestion {
    /// Clears the previous materialization (drop-if-exists).
    pub clear: String,
    /// The table DDL.
    pub create: String,
    /// The row inserts, in input order.
    pub inserts: Vec<Insert>,
}

} // verus!
