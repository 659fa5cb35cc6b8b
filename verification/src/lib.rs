//! Statistics over a chronological activity log of work sessions.
//!
//! The library maps instants to logical days under a configurable day-start
//! hour, parses delimited log lines into validated session records, repairs
//! missing resource names with a reverse-pass backfill, and filters and
//! aggregates records over inclusive time ranges. A small companion module
//! styles terminal text with ANSI escapes.

use vstd::prelude::*;

pub mod date_util;
pub mod kra_history;
pub mod rainbow;
pub mod text;
pub mod timestamp;

use crate::kra_history::read_kra_history;
use crate::kra_history::spec_read_history;
use crate::kra_history::ErrView;
use crate::kra_history::ItemView;
use crate::kra_history::KraHistoryError;

verus! {

/// Loads a history from raw log text and discards it: succeeds exactly
/// when the whole text ingests cleanly.
pub fn f(content: &str) -> (r: Result<(), KraHistoryError>)
    ensures
        r is Ok <==> spec_read_history(content@) is Ok,
        r matches Err(e) ==> spec_read_history(content@) == Err::<Seq<ItemView>, ErrView>(e@),
{
    match read_kra_history(content) {
        Ok(_) => Ok(()),
        Err(e) => Err(e),
    }
}

} // verus!

