//! The errors that a run's configuration can give.
use vstd::prelude::*;

use crate::ansi_colors::Tier;

verus! {

/// A configuration that cannot be carried out.
#[derive(Debug)]
pub enum ConfigError {
    /// A colour description that none of the accepted forms matches.
    UnparsableColor(String),
    /// A colour description in the form of a name that no colour has.
    UnknownColorName(String),
    /// A character asked to be invisible that has no background colour.
    InvisibleWithoutBackground(char),
    /// A terminal tier that this library does not render for.
    UnsupportedTier(Tier),
    /// A pattern that does not compile.
    BadPattern(String),
}

} // verus!
