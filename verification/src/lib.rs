//! Core engine of a global package/environment manager: reconciles a declared
//! set of exposed executables against the launcher scripts actually present in
//! a shared binary directory, and keeps a per-environment ledger of the
//! mutations that were performed.

use vstd::prelude::*;

pub mod channel;
pub mod classify;
pub mod dirs;
pub mod ledger;
pub mod names;
pub mod records;
pub mod state;
pub mod strutil;
pub mod sync;

verus! {

/// The errors this library surfaces to its callers.  Each variant carries the
/// offending path or input string, so that reports stay descriptive.
#[derive(Debug)]
pub enum GlobalError {
    /// The home/root directory could not be determined.
    LocationUnresolvable,
    /// Listing or creating a directory failed.
    DirectoryUnreadable(String),
    /// A package-record file exists but failed to parse.
    MetadataCorrupt(String),
    /// An environment metadata directory yielded zero records.
    NoMetadataFound(String),
    /// A malformed channel specification was handed to the normalizer.
    ChannelUrlInvalid(String),
}

} // verus!
