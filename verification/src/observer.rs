use crate::indexer::IndexStats;
use crate::text::{contains_chars, occurs, starts_with_chars, to_chars};
use vstd::prelude::*;

verus! {

/// The counts that are pushed to whoever watches the server.
#[derive(Debug, Clone, Copy, PartialEq, Eq, Structural)]
pub struct StatsPush {
    pub indexed_files: usize,
    pub total_symbols: usize,
    pub unique_names: usize,
    pub is_watching: bool,
}

/// The counts of `stats` that are pushed.
pub open spec fn pushed_stats(stats: IndexStats) -> StatsPush {
    StatsPush {
        indexed_files: stats.indexed_files_count,
        total_symbols: stats.total_symbols,
        unique_names: stats.unique_symbol_names,
        is_watching: stats.is_watching,
    }
}

/// See `pushed_stats`.
pub fn stats_push(stats: &IndexStats) -> (r: StatsPush)
    ensures
        r == pushed_stats(*stats),
{
    StatsPush {
        indexed_files: stats.indexed_files_count,
        total_symbols: stats.total_symbols,
        unique_names: stats.unique_symbol_names,
        is_watching: stats.is_watching,
    }
}

/// A message is handed on as it is where it is an object with a type
/// already: where it starts with `{` and holds `"type"`. Any other message
/// is a line of the log.
pub open spec fn is_structured(message: Seq<char>) -> bool {
    "{"@.is_prefix_of(message) && occurs(message, "\"type\""@)
}

/// See `is_structured`.
pub fn is_structured_message(message: &str) -> (r: bool)
    ensures
        r == is_structured(message@),
{
    let chars = to_chars(message);
    starts_with_chars(chars.as_slice(), to_chars("{").as_slice()) && contains_chars(
        chars.as_slice(),
        to_chars("\"type\"").as_slice(),
    )
}

} // verus!
