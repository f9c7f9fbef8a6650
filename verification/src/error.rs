use vstd::prelude::*;

verus! {

/// The failures this library distinguishes.
#[derive(Debug)]
pub enum Error {
    /// An I/O failure with no path context, such as a traversal that
    /// could not start. The payload is the underlying message.
    IoErr(String),
    /// An I/O failure scoped to one entry: the underlying message and
    /// the offending path.
    EntryErr(String, String),
    /// An integrity check failed: the recomputed digest differs from the
    /// stored baseline.
    ManifestCheckFail,
}

} // verus!
