//! The error taxonomy of a sweep run.

use vstd::prelude::*;

verus! {

/// Everything that can go wrong in a sweep.
///
/// The first three are fatal and reported before any probing begins; a
/// `ProbeExecutionError` is isolated to the one target whose check could not
/// be run or read, and never aborts the rest of the run.
#[derive(Clone, Copy, Debug, PartialEq, Eq, Structural)]
pub enum SweepError {
    /// Zero input modes, or more than one, were selected.
    InvalidInputCombination,
    /// A range boundary is not a valid IPv4 address.
    AddressParseError,
    /// The target file could not be read.
    FileReadError,
    /// The external reachability check could not be launched, or its output
    /// could not be interpreted.
    ProbeExecutionError,
}

/// The one-line diagnostic text of each error.
pub open spec fn error_text(e: SweepError) -> Seq<char> {
    match e {
        SweepError::InvalidInputCombination => "wrong arguments: supply exactly one input method"@,
        SweepError::AddressParseError => "not a valid IPv4 address"@,
        SweepError::FileReadError => "the target file could not be read"@,
        SweepError::ProbeExecutionError => "the reachability check could not be run or understood"@,
    }
}

impl SweepError {
    /// The diagnostic to print for this error.
    pub fn message(&self) -> (r: String)
        ensures
            r@ == error_text(*self),
    {
        match self {
            SweepError::InvalidInputCombination => "wrong arguments: supply exactly one input method".to_owned(),
            SweepError::AddressParseError => "not a valid IPv4 address".to_owned(),
            SweepError::FileReadError => "the target file could not be read".to_owned(),
            SweepError::ProbeExecutionError => "the reachability check could not be run or understood".to_owned(),
        }
    }
}

} // verus!
