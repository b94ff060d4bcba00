//! Why a track string could not be read.

use std::num::ParseFloatError;
use vstd::prelude::*;

verus! {

#[verifier::external_type_specification]
#[verifier::external_body]
pub struct ExParseFloatError(ParseFloatError);

/// `Clone` of `ParseFloatError`, which the derived `Clone` of
/// [`TrackParseError`] calls; nothing is claimed of its result.
pub assume_specification[ <ParseFloatError as Clone>::clone ](e: &ParseFloatError) -> ParseFloatError;

/// Why a track string could not be read.
#[derive(Debug, Clone, PartialEq)]
pub enum TrackParseError {
    /// The text does not have the shape of a track.
    UnknownFormat,
    /// A number of the text could not be read.
    InvalidNumber(ParseFloatError),
}

} // verus!
