//! The Slippi version a replay was recorded with.

use vstd::prelude::*;

verus! {

/// A Slippi version: major, minor and build numbers.
#[derive(Clone, Copy, Debug, PartialEq, Eq, Structural)]
pub struct Version(pub u8, pub u8, pub u8);

impl Version {
    /// Whether this version is at least `major.minor`.
    pub open spec fn spec_gte(self, major: u8, minor: u8) -> bool {
        self.0 > major || (self.0 == major && self.1 >= minor)
    }

    /// Whether this version is at least `major.minor`.
    pub fn gte(&self, major: u8, minor: u8) -> (r: bool)
        ensures
            r == self.spec_gte(major, minor),
    {
        self.0 > major || (self.0 == major && self.1 >= minor)
    }
}

/// Information about the Slippi build that recorded a game.
#[derive(Clone, Copy, Debug, PartialEq, Eq, Structural)]
pub struct Slippi {
    pub version: Version,
}

} // verus!
