//! A single game of Super Smash Brothers Melee.

use vstd::prelude::*;
use crate::frame::PortOccupancy;
use crate::io::slippi::{Slippi, Version};
use crate::game::shift_jis::MeleeString;

pub mod shift_jis;
pub mod bytes;
pub mod metadata;
pub mod metadata_laws;
pub mod number_laws;

pub use bytes::Bytes;
pub use metadata::{Metadata, MetadataNames, MetadataPlatform, MetadataPlayer};

verus! {

/// How many ports the game supports.
pub const NUM_PORTS: usize = 4;

/// Some modes allow more characters than ports, e.g. Cruel Melee.
pub const MAX_PLAYERS: usize = 6;

/// Since ICs are unique mechanically, sometimes we need to treat them specially.
pub const ICE_CLIMBERS: u8 = 14;

/// The error returned when a number is not the discriminant of any variant.
#[derive(Clone, Copy, Debug, PartialEq, Eq)]
pub struct TryFromPrimitiveError<P> {
    pub number: P,
}

/// A slot that can be occupied by a player.
#[derive(Clone, Copy, Debug, PartialEq, Eq, Structural, PartialOrd, Ord)]
pub enum Port {
    P1,
    P2,
    P3,
    P4,
}

impl Port {
    /// The number this port is stored as (`P1` is 0).
    pub open spec fn spec_number(self) -> u8 {
        match self {
            Port::P1 => 0,
            Port::P2 => 1,
            Port::P3 => 2,
            Port::P4 => 3,
        }
    }

    /// The port stored as `n`, if any.
    pub open spec fn spec_from_number(n: u8) -> Option<Port> {
        if n == 0 {
            Some(Port::P1)
        } else if n == 1 {
            Some(Port::P2)
        } else if n == 2 {
            Some(Port::P3)
        } else if n == 3 {
            Some(Port::P4)
        } else {
            None
        }
    }

    /// The name of the port, as displayed: "P1" to "P4".
    pub open spec fn spec_name(self) -> Seq<char> {
        match self {
            Port::P1 => seq!['P', '1'],
            Port::P2 => seq!['P', '2'],
            Port::P3 => seq!['P', '3'],
            Port::P4 => seq!['P', '4'],
        }
    }

    /// The port whose name is `s`, if any.
    pub open spec fn spec_parse(s: Seq<char>) -> Option<Port> {
        if s == seq!['P', '1'] {
            Some(Port::P1)
        } else if s == seq!['P', '2'] {
            Some(Port::P2)
        } else if s == seq!['P', '3'] {
            Some(Port::P3)
        } else if s == seq!['P', '4'] {
            Some(Port::P4)
        } else {
            None
        }
    }

    /// Parses a port name; anything but "P1" to "P4" is refused with "invalid port: " followed
    /// by the input.
    pub fn parse(s: &str) -> (r: Result<Self, String>)
        ensures
            match Self::spec_parse(s@) {
                Some(p) => r == Ok::<Port, String>(p),
                None => r matches Err(msg) && msg@ == "invalid port: "@ + s@,
            },
    {
        proof {
            reveal_strlit("invalid port: ");
        }
        if s.unicode_len() == 2 && s.get_char(0) == 'P' {
            let c = s.get_char(1);
            proof {
                assert(s@ =~= seq!['P', c]);
            }
            if c == '1' {
                return Ok(Port::P1);
            } else if c == '2' {
                return Ok(Port::P2);
            } else if c == '3' {
                return Ok(Port::P3);
            } else if c == '4' {
                return Ok(Port::P4);
            }
        }
        let mut msg = String::from_str("invalid port: ");
        msg.append(s);
        Err(msg)
    }

    /// The name of the port: "P1" to "P4".
    pub fn to_string(&self) -> (r: String)
        ensures
            r@ == self.spec_name(),
    {
        let s = match *self {
            Port::P1 => {
                proof { reveal_strlit("P1"); }
                "P1"
            },
            Port::P2 => {
                proof { reveal_strlit("P2"); }
                "P2"
            },
            Port::P3 => {
                proof { reveal_strlit("P3"); }
                "P3"
            },
            Port::P4 => {
                proof { reveal_strlit("P4"); }
                "P4"
            },
        };
        String::from_str(s)
    }
}

/// Parsing the name of a port gives the port back, and no other text parses to that port.
pub proof fn lemma_port_name_round_trip(p: Port, s: Seq<char>)
    ensures
        Port::spec_parse(p.spec_name()) == Some(p),
        Port::spec_parse(s) == Some(p) ==> s == p.spec_name(),
{
    assert(seq!['P', '1'] != seq!['P', '2']);
    assert(seq!['P', '1'][1] != seq!['P', '3'][1]);
    assert(seq!['P', '1'][1] != seq!['P', '4'][1]);
    assert(seq!['P', '2'][1] != seq!['P', '3'][1]);
    assert(seq!['P', '2'][1] != seq!['P', '4'][1]);
    assert(seq!['P', '3'][1] != seq!['P', '4'][1]);
}

/// Converting a port to its number (`u8::from`) and back (`Port::try_from`) gives the port,
/// and no other number converts to it.
pub proof fn lemma_port_number_round_trip(p: Port, n: u8)
    ensures
        Port::spec_from_number(p.spec_number()) == Some(p),
        Port::spec_from_number(n) == Some(p) ==> n == p.spec_number(),
{
}

impl Default for Port {
    fn default() -> (r: Self)
        ensures
            r == Port::P1,
    {
        Port::P1
    }
}

impl From<Port> for u8 {
    fn from(p: Port) -> (r: u8) {
        match p {
            Port::P1 => 0,
            Port::P2 => 1,
            Port::P3 => 2,
            Port::P4 => 3,
        }
    }
}

impl vstd::std_specs::convert::FromSpecImpl<Port> for u8 {
    open spec fn obeys_from_spec() -> bool {
        true
    }

    open spec fn from_spec(p: Port) -> u8 {
        p.spec_number()
    }
}

impl TryFrom<u8> for Port {
    type Error = TryFromPrimitiveError<u8>;

    fn try_from(n: u8) -> (r: Result<Port, TryFromPrimitiveError<u8>>) {
        match n {
            0 => Ok(Port::P1),
            1 => Ok(Port::P2),
            2 => Ok(Port::P3),
            3 => Ok(Port::P4),
            _ => Err(TryFromPrimitiveError { number: n }),
        }
    }
}

impl vstd::std_specs::convert::TryFromSpecImpl<u8> for Port {
    open spec fn obeys_try_from_spec() -> bool {
        true
    }

    open spec fn try_from_spec(n: u8) -> Result<Port, TryFromPrimitiveError<u8>> {
        match Port::spec_from_number(n) {
            Some(p) => Ok(p),
            None => Err(TryFromPrimitiveError { number: n }),
        }
    }
}

/// How a player is controlled.
#[derive(Clone, Copy, Debug, PartialEq, Eq, Structural)]
pub enum PlayerType {
    Human,
    Cpu,
    Demo,
}

impl PlayerType {
    /// The number the variant is stored as.
    pub open spec fn spec_number(self) -> u8 {
        match self {
            PlayerType::Human => 0,
            PlayerType::Cpu => 1,
            PlayerType::Demo => 2,
        }
    }

    /// The variant stored as `n`, if any.
    pub open spec fn spec_from_number(n: u8) -> Option<PlayerType> {
        if n == 0 {
            Some(PlayerType::Human)
        } else if n == 1 {
            Some(PlayerType::Cpu)
        } else if n == 2 {
            Some(PlayerType::Demo)
        } else {
            None
        }
    }
}

impl TryFrom<u8> for PlayerType {
    type Error = TryFromPrimitiveError<u8>;

    fn try_from(n: u8) -> (r: Result<PlayerType, TryFromPrimitiveError<u8>>) {
        match n {
            0 => Ok(PlayerType::Human),
            1 => Ok(PlayerType::Cpu),
            2 => Ok(PlayerType::Demo),
            _ => Err(TryFromPrimitiveError { number: n }),
        }
    }
}

impl vstd::std_specs::convert::TryFromSpecImpl<u8> for PlayerType {
    open spec fn obeys_try_from_spec() -> bool {
        true
    }

    open spec fn try_from_spec(n: u8) -> Result<PlayerType, TryFromPrimitiveError<u8>> {
        match PlayerType::spec_from_number(n) {
            Some(v) => Ok(v),
            None => Err(TryFromPrimitiveError { number: n }),
        }
    }
}

/// Information about the team a player belongs to.
#[derive(Clone, Copy, Debug, PartialEq, Eq, Structural)]
pub struct Team {
    pub color: u8,
    pub shade: u8,
}

/// Dashback fix type.
#[derive(Clone, Copy, Debug, PartialEq, Eq, Structural)]
pub enum DashBack {
    Ucf,
    Arduino,
}

impl DashBack {
    /// The number the variant is stored as.
    pub open spec fn spec_number(self) -> u32 {
        match self {
            DashBack::Ucf => 1,
            DashBack::Arduino => 2,
        }
    }

    /// The variant stored as `n`, if any.
    pub open spec fn spec_from_number(n: u32) -> Option<DashBack> {
        if n == 1 {
            Some(DashBack::Ucf)
        } else if n == 2 {
            Some(DashBack::Arduino)
        } else {
            None
        }
    }
}

impl TryFrom<u32> for DashBack {
    type Error = TryFromPrimitiveError<u32>;

    fn try_from(n: u32) -> (r: Result<DashBack, TryFromPrimitiveError<u32>>) {
        match n {
            1 => Ok(DashBack::Ucf),
            2 => Ok(DashBack::Arduino),
            _ => Err(TryFromPrimitiveError { number: n }),
        }
    }
}

impl vstd::std_specs::convert::TryFromSpecImpl<u32> for DashBack {
    open spec fn obeys_try_from_spec() -> bool {
        true
    }

    open spec fn try_from_spec(n: u32) -> Result<DashBack, TryFromPrimitiveError<u32>> {
        match DashBack::spec_from_number(n) {
            Some(v) => Ok(v),
            None => Err(TryFromPrimitiveError { number: n }),
        }
    }
}

/// Shield drop fix type.
#[derive(Clone, Copy, Debug, PartialEq, Eq, Structural)]
pub enum ShieldDrop {
    Ucf,
    Arduino,
}

impl ShieldDrop {
    /// The number the variant is stored as.
    pub open spec fn spec_number(self) -> u32 {
        match self {
            ShieldDrop::Ucf => 1,
            ShieldDrop::Arduino => 2,
        }
    }

    /// The variant stored as `n`, if any.
    pub open spec fn spec_from_number(n: u32) -> Option<ShieldDrop> {
        if n == 1 {
            Some(ShieldDrop::Ucf)
        } else if n == 2 {
            Some(ShieldDrop::Arduino)
        } else {
            None
        }
    }
}

impl TryFrom<u32> for ShieldDrop {
    type Error = TryFromPrimitiveError<u32>;

    fn try_from(n: u32) -> (r: Result<ShieldDrop, TryFromPrimitiveError<u32>>) {
        match n {
            1 => Ok(ShieldDrop::Ucf),
            2 => Ok(ShieldDrop::Arduino),
            _ => Err(TryFromPrimitiveError { number: n }),
        }
    }
}

impl vstd::std_specs::convert::TryFromSpecImpl<u32> for ShieldDrop {
    open spec fn obeys_try_from_spec() -> bool {
        true
    }

    open spec fn try_from_spec(n: u32) -> Result<ShieldDrop, TryFromPrimitiveError<u32>> {
        match ShieldDrop::spec_from_number(n) {
            Some(v) => Ok(v),
            None => Err(TryFromPrimitiveError { number: n }),
        }
    }
}

/// The language the game is set to.
#[derive(Clone, Copy, Debug, PartialEq, Eq, Structural)]
pub enum Language {
    Japanese,
    English,
}

impl Language {
    /// The number the variant is stored as.
    pub open spec fn spec_number(self) -> u8 {
        match self {
            Language::Japanese => 0,
            Language::English => 1,
        }
    }

    /// The variant stored as `n`, if any.
    pub open spec fn spec_from_number(n: u8) -> Option<Language> {
        if n == 0 {
            Some(Language::Japanese)
        } else if n == 1 {
            Some(Language::English)
        } else {
            None
        }
    }
}

impl TryFrom<u8> for Language {
    type Error = TryFromPrimitiveError<u8>;

    fn try_from(n: u8) -> (r: Result<Language, TryFromPrimitiveError<u8>>) {
        match n {
            0 => Ok(Language::Japanese),
            1 => Ok(Language::English),
            _ => Err(TryFromPrimitiveError { number: n }),
        }
    }
}

impl vstd::std_specs::convert::TryFromSpecImpl<u8> for Language {
    open spec fn obeys_try_from_spec() -> bool {
        true
    }

    open spec fn try_from_spec(n: u8) -> Result<Language, TryFromPrimitiveError<u8>> {
        match Language::spec_from_number(n) {
            Some(v) => Ok(v),
            None => Err(TryFromPrimitiveError { number: n }),
        }
    }
}

/// How the game ended.
#[derive(Clone, Copy, Debug, PartialEq, Eq, Structural)]
pub enum EndMethod {
    Unresolved,
    Time,
    Game,
    Resolved,
    NoContest,
}

impl EndMethod {
    /// The number the variant is stored as.
    pub open spec fn spec_number(self) -> u8 {
        match self {
            EndMethod::Unresolved => 0,
            EndMethod::Time => 1,
            EndMethod::Game => 2,
            EndMethod::Resolved => 3,
            EndMethod::NoContest => 7,
        }
    }

    /// The variant stored as `n`, if any.
    pub open spec fn spec_from_number(n: u8) -> Option<EndMethod> {
        if n == 0 {
            Some(EndMethod::Unresolved)
        } else if n == 1 {
            Some(EndMethod::Time)
        } else if n == 2 {
            Some(EndMethod::Game)
        } else if n == 3 {
            Some(EndMethod::Resolved)
        } else if n == 7 {
            Some(EndMethod::NoContest)
        } else {
            None
        }
    }
}

impl TryFrom<u8> for EndMethod {
    type Error = TryFromPrimitiveError<u8>;

    fn try_from(n: u8) -> (r: Result<EndMethod, TryFromPrimitiveError<u8>>) {
        match n {
            0 => Ok(EndMethod::Unresolved),
            1 => Ok(EndMethod::Time),
            2 => Ok(EndMethod::Game),
            3 => Ok(EndMethod::Resolved),
            7 => Ok(EndMethod::NoContest),
            _ => Err(TryFromPrimitiveError { number: n }),
        }
    }
}

impl vstd::std_specs::convert::TryFromSpecImpl<u8> for EndMethod {
    open spec fn obeys_try_from_spec() -> bool {
        true
    }

    open spec fn try_from_spec(n: u8) -> Result<EndMethod, TryFromPrimitiveError<u8>> {
        match EndMethod::spec_from_number(n) {
            Some(v) => Ok(v),
            None => Err(TryFromPrimitiveError { number: n }),
        }
    }
}

/// Information about the "Universal Controller Fix" mod.
#[derive(Clone, Copy, Debug, PartialEq, Eq, Structural)]
pub struct Ucf {
    pub dash_back: Option<DashBack>,
    pub shield_drop: Option<ShieldDrop>,
}

/// Netplay name, connect code, and Slippi UID.
#[derive(Clone, Debug, PartialEq, Eq)]
pub struct Netplay {
    pub name: MeleeString,
    pub code: MeleeString,
    /// Slippi UID (added: v3.11)
    pub suid: Option<String>,
}

/// Information about each player such as character, team, stock count, etc.
///
/// The three ratios are single-precision floats, held as the bits of their IEEE 754 form.
#[derive(Clone, Debug, PartialEq)]
pub struct Player {
    pub port: Port,
    pub character: u8,
    /// how the player is controlled
    pub player_type: PlayerType,
    /// starting stock count
    pub stocks: u8,
    pub costume: u8,
    pub team: Option<Team>,
    /// handicap level; affects `offense_ratio` & `defense_ratio`
    pub handicap: u8,
    /// miscellaneous flags (metal, stamina mode, etc)
    pub bitfield: u8,
    /// CPU level
    pub cpu_level: Option<u8>,
    /// percent the player's first stock will start at
    pub damage_start: u16,
    /// percent the player's stocks will start at (including the first, if `damage_start` is zero)
    pub damage_spawn: u16,
    /// knockback multiplier when this player hits another (bits of an `f32`)
    pub offense_ratio: u32,
    /// knockback multiplier when this player is hit (bits of an `f32`)
    pub defense_ratio: u32,
    /// (bits of an `f32`)
    pub model_scale: u32,
    /// UCF info (added: v1.0)
    pub ucf: Option<Ucf>,
    /// in-game name-tag (added: v1.3)
    pub name_tag: Option<MeleeString>,
    /// netplay info (added: v3.9)
    pub netplay: Option<Netplay>,
    /// Slippi user id (same source bytes as SUID when present)
    pub user_id: Option<String>,
}

/// Major & minor scene numbers.
#[derive(Clone, Copy, Debug, PartialEq, Eq, Structural)]
pub struct Scene {
    pub minor: u8,
    pub major: u8,
}

/// Information about the match a game belongs to.
#[derive(Clone, Debug, PartialEq, Eq)]
pub struct Match {
    pub id: String,
    pub game: u32,
    pub tiebreaker: u32,
}

/// Information used to initialize the game such as the game mode, settings, characters & stage.
#[derive(Clone, Debug, PartialEq)]
pub struct Start {
    pub slippi: Slippi,
    pub bitfield: [u8; 4],
    pub is_raining_bombs: bool,
    pub is_teams: bool,
    pub item_spawn_frequency: i8,
    pub self_destruct_score: i8,
    pub stage: u16,
    pub timer: u32,
    pub item_spawn_bitfield: [u8; 5],
    /// (bits of an `f32`)
    pub damage_ratio: u32,
    pub players: Vec<Player>,
    pub random_seed: u32,
    /// Partly-redundant copy of the raw start block, for round-tripping
    pub bytes: Bytes,
    /// (added: v1.5)
    pub is_pal: Option<bool>,
    /// (added: v2.0)
    pub is_frozen_ps: Option<bool>,
    /// (added: v3.7)
    pub scene: Option<Scene>,
    /// (added: v3.12)
    pub language: Option<Language>,
    /// the match this game belongs to (added: v3.14)
    pub match_info: Option<Match>,
    /// Convenience alias for the modern Slippi session / match id.
    pub session_id: Option<String>,
}

/// Player placements.
#[derive(Clone, Copy, Debug, PartialEq, Eq, Structural)]
pub struct PlayerEnd {
    pub port: Port,
    pub placement: u8,
}

/// Information about the end of the game.
#[derive(Clone, Debug, PartialEq, Eq)]
pub struct End {
    /// how the game ended
    pub method: EndMethod,
    /// Partly-redundant copy of the raw end block, for round-tripping
    pub bytes: Bytes,
    /// player who LRAS'd, if any (added: v2.0)
    pub lras_initiator: Option<Option<Port>>,
    /// player-specific data (added: v3.13)
    pub players: Option<Vec<PlayerEnd>>,
}

impl End {
    /// The size in bytes of the end-of-game event in a replay of the given version.
    pub open spec fn spec_size(version: Version) -> usize {
        if version.spec_gte(3, 13) {
            6
        } else if version.spec_gte(2, 0) {
            2
        } else {
            1
        }
    }

    /// The size in bytes of the end-of-game event in a replay of the given version: 6 from
    /// v3.13, 2 from v2.0, else 1.
    pub fn size(version: Version) -> (r: usize)
        ensures
            r == Self::spec_size(version),
            (r == 6) <==> (version.0 > 3 || (version.0 == 3 && version.1 >= 13)),
            (r == 2) <==> (version.0 == 2 || (version.0 == 3 && version.1 < 13)),
            (r == 1) <==> version.0 < 2,
    {
        if version.gte(3, 13) {
            6
        } else if version.gte(2, 0) {
            2
        } else {
            1
        }
    }
}

/// The end-of-game event takes 6 bytes from v3.13 on, 2 bytes from v2.0 up to (not including)
/// v3.13, and 1 byte before v2.0, the minor version compared as a number; so it never shrinks
/// as the version grows.
pub proof fn lemma_end_size(v: Version, w: Version)
    ensures
        (v.0 > 3 || (v.0 == 3 && v.1 >= 13)) ==> End::spec_size(v) == 6,
        (v.0 == 2 || (v.0 == 3 && v.1 < 13)) ==> End::spec_size(v) == 2,
        v.0 < 2 ==> End::spec_size(v) == 1,
        (v.0 < w.0 || (v.0 == w.0 && v.1 <= w.1)) ==> End::spec_size(v) <= End::spec_size(w),
{
}

/// Binary blob of Gecko codes in use.
///
/// Currently unparsed, but still needed for round-tripping.
#[derive(Debug, PartialEq, Eq)]
pub struct GeckoCodes {
    pub bytes: Vec<u8>,
    pub actual_size: u32,
}

/// What every game offers, whether complete or still being recorded.
pub trait Game {
    fn start(&self) -> &Start;

    fn end(&self) -> &Option<End>;

    fn metadata(&self) -> &Option<Metadata>;

    fn gecko_codes(&self) -> &Option<GeckoCodes>;

    /// Duration of the game in frames.
    fn len(&self) -> usize;
}

/// Slippi quirks that we need to track for round-trip integrity.
#[derive(Debug, Clone, Copy, Default, PartialEq, Eq, Structural)]
pub struct Quirks {
    pub double_game_end: bool,
}

/// The ports in use at the start of a game, in the order of its players, each with whether its
/// character is the Ice Climbers (who bring a follower).
pub fn port_occupancy(start: &Start) -> (r: Vec<PortOccupancy>)
    ensures
        r@.len() == start.players@.len(),
        forall|i: int|
            0 <= i < r@.len() ==> (#[trigger] r@[i]).port == start.players@[i].port && r@[i].follower
                == (start.players@[i].character == ICE_CLIMBERS),
{
    let n = start.players.len();
    let mut r: Vec<PortOccupancy> = Vec::new();
    let mut i: usize = 0;
    while i < n
        invariant
            i <= n,
            n == start.players@.len(),
            r@.len() == i,
            forall|j: int|
                0 <= j < i ==> (#[trigger] r@[j]).port == start.players@[j].port && r@[j].follower
                    == (start.players@[j].character == ICE_CLIMBERS),
        decreases n - i,
    {
        let p = &start.players[i];
        r.push(PortOccupancy { port: p.port, follower: p.character == ICE_CLIMBERS });
        i = i + 1;
    }
    r
}

} // verus!
