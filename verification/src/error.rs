//! Errors of the converter.

use vstd::prelude::*;

verus! {

/// Why an argument could not be converted.
#[derive(Clone, Copy, Debug, PartialEq, Eq, Structural)]
pub enum ConvError {
    /// The argument is neither an integer nor a date expression in one
    /// of the two accepted formats.
    UnparseableDate,
    /// An integer argument does not correspond to a supported calendar
    /// date once interpreted as seconds or milliseconds.
    OutOfRangeTimestamp,
}

impl ConvError {
    /// A printable description; the unparseable-date text names the two
    /// accepted formats.
    pub fn message(&self) -> (r: String)
        ensures
            *self == ConvError::UnparseableDate ==> r@
                == "Either %Y-%m-%d %H:%M:%S or %Y-%m-%d time format should be used!"@,
            *self == ConvError::OutOfRangeTimestamp ==> r@
                == "timestamp does not correspond to a supported calendar date"@,
    {
        match self {
            ConvError::UnparseableDate => String::from_str(
                "Either %Y-%m-%d %H:%M:%S or %Y-%m-%d time format should be used!",
            ),
            ConvError::OutOfRangeTimestamp => String::from_str(
                "timestamp does not correspond to a supported calendar date",
            ),
        }
    }
}

} // verus!
