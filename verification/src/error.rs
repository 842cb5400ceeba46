//! The closed set of failures a decode can report.
use vstd::prelude::*;

verus! {

/// Error type of every parser in this crate.
///
/// `InsufficientBytes` means the buffer is shorter than the structure being
/// parsed requires, at any nesting level. `InvalidFormat` is raised by the
/// text-form conversions (a txid that is not 64 hex digits); the binary
/// parsers never raise it.
#[derive(Debug, PartialEq, Eq, Clone)]
pub enum BitcoinError {
    InsufficientBytes,
    InvalidFormat,
}

} // verus!
