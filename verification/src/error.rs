//! Error taxonomy of the corpus core.

use vstd::prelude::*;

verus! {

/// Failures surfaced by the corpus core.
///
/// Startup-fatal conditions (a bad provenance destination) and malformed
/// inputs each get their own variant so callers can match on the cause.
#[derive(Debug, Clone, Copy, PartialEq, Eq, Structural)]
pub enum CorpusError {
    /// The provenance destination is a regular file, not a directory.
    DestinationIsFile,
    /// The provenance destination directory already holds entries.
    DestinationNotEmpty,
    /// A piece carries a language index outside the supported table.
    UnknownLanguage,
    /// A shard's provenance record is too large for one journal block.
    OversizedRecord,
}

} // verus!
