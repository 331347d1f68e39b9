//! The crate's error taxonomy. No error in resource or page processing is
//! fatal to a whole mirror run; callers skip, fall back or continue.

use vstd::prelude::*;

verus! {

#[derive(Clone, Copy, Debug, PartialEq, Eq, Structural)]
pub enum MirrorError {
    /// The reference could not be resolved to a fetchable http(s) URL.
    InvalidUrl,
    /// The transfer failed or returned a non-success status.
    Transport,
    /// Image bytes could not be decoded; callers keep the original bytes.
    Decode,
    /// The persisted ledger could not be read or written.
    Persistence,
}

} // verus!
