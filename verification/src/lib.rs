// A file-integrity monitor's core: deterministic, content-addressed
// digests of filesystem subtrees, captured baselines in an exact
// per-path table or a probabilistic checkpoint filter, and the checks
// that re-verify a subtree against a baseline and report what changed.
//
// The library works on plain entry values; walking directories, reading
// file bytes and encoding manifests for storage happen outside it.

pub mod accum;
pub mod bloom;
pub mod entry;
pub mod error;
pub mod hashing;
pub mod laws;
pub mod manifest;
pub mod order;
pub mod scanner;
pub mod strategy;

pub use entry::Entry;
pub use entry::EntryKind;
pub use error::Error;
pub use manifest::Manifest;
pub use scanner::Scanner;
