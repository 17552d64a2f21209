//! Error taxonomy for the scanner.

use vstd::prelude::*;

verus! {

/// Why a buffer was rejected, or why a search could not start.
#[derive(Clone, Copy, Debug, PartialEq, Eq, Structural)]
pub enum ScanError {
    /// OS-level open/read failure (produced by the I/O shell, never by the core).
    IOError,
    /// The buffer does not begin with the DOS "MZ" magic.
    NotAPEFile,
    /// The buffer is too short, the NT-header offset points outside the buffer,
    /// or the NT signature is wrong.
    InvalidFormat,
    /// The machine-type field is neither x86 nor x64.
    UnsupportedArchitecture,
    /// A zero-length pattern was handed to the matcher.
    PatternEmpty,
}

} // verus!
