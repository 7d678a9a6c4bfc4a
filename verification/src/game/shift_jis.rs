//! Strings the game stores in Shift JIS, held decoded.

use vstd::prelude::*;

verus! {

/// A string from the game's memory, decoded from Shift JIS.
#[derive(Clone, Debug, PartialEq, Eq, Hash)]
pub struct MeleeString(pub String);

} // verus!
