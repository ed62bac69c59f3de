//! The error taxonomy of the installation pipeline.

use vstd::prelude::*;

verus! {

/// Everything that can go wrong during a run.
///
/// `Format` covers unparsable manifest or ledger text, `Validation` a manifest
/// that violates an invariant (with the offending field named), `Io` filesystem
/// failures, `Http` a non-2xx response (status plus a truncated body snippet),
/// `NameResolution` a download with no derivable destination file name,
/// `Integrity` a content-hash or source-identity mismatch, `NotFound` and
/// `NoFiles` resolver-side failures, and `Busy` a run request while another
/// run is active.
#[derive(Clone, Debug)]
pub enum InstallError {
    Format { message: String },
    Validation { field: String, message: String },
    Io { message: String },
    Http { status: u16, snippet: String },
    NameResolution,
    Integrity { expected: String, actual: String, path: String },
    NotFound { message: String },
    NoFiles,
    Busy,
}

} // verus!
