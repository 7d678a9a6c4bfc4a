//! Frame data: what the game data needs of it.

use vstd::prelude::*;
use crate::game::Port;

verus! {

/// A port in use, and whether the character there has a follower (Nana, for the Ice Climbers).
#[derive(Clone, Copy, Debug, PartialEq, Eq, Structural)]
pub struct PortOccupancy {
    pub port: Port,
    pub follower: bool,
}

} // verus!
