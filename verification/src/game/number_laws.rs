//! What the stored numbers of the game's enums decode to, and what a port is stored as.
//!
//! Each law speaks of the conversions (`TryFrom` and `From`) through the specifications that
//! their `ensures` use, and names the numbers themselves, so that a renumbering of a variant
//! breaks the law.

use vstd::prelude::*;
use vstd::std_specs::convert::{FromSpec, TryFromSpec};
use crate::game::{TryFromPrimitiveError, DashBack, EndMethod, Language, PlayerType, Port, ShieldDrop};
use crate::text::digit_char;

verus! {

/// A port is stored as its index: `u8::from` gives 0, 1, 2 and 3 for `P1` to `P4`, so never
/// more than 3; `Port::try_from(n)` succeeds exactly for `n < 4`, gives back the port stored
/// as `n`, and otherwise reports `n`. The port stored as `n` is the one named "P" followed by
/// the digit `n + 1`.
pub proof fn lemma_port_numbering(p: Port, n: u8)
    ensures
        <u8 as FromSpec<Port>>::obeys_from_spec(),
        <Port as TryFromSpec<u8>>::obeys_try_from_spec(),
        (<u8 as FromSpec<Port>>::from_spec(p) == 0) <==> p == Port::P1,
        (<u8 as FromSpec<Port>>::from_spec(p) == 1) <==> p == Port::P2,
        (<u8 as FromSpec<Port>>::from_spec(p) == 2) <==> p == Port::P3,
        (<u8 as FromSpec<Port>>::from_spec(p) == 3) <==> p == Port::P4,
        <u8 as FromSpec<Port>>::from_spec(p) < 4,
        <Port as TryFromSpec<u8>>::try_from_spec(n) is Ok <==> n < 4,
        (<Port as TryFromSpec<u8>>::try_from_spec(n) == Ok::<Port, TryFromPrimitiveError<u8>>(p)) <==> n
            == <u8 as FromSpec<Port>>::from_spec(p),
        <Port as TryFromSpec<u8>>::try_from_spec(<u8 as FromSpec<Port>>::from_spec(p)) == Ok::<Port, TryFromPrimitiveError<u8>>(p),
        <Port as TryFromSpec<u8>>::try_from_spec(n) matches Err(e) ==> e.number == n,
        (<Port as TryFromSpec<u8>>::try_from_spec(n) == Ok::<Port, TryFromPrimitiveError<u8>>(p)) ==> p.spec_name()
            == seq!['P', digit_char((n + 1) as nat)],
{
}

/// A player's type is stored as 0 for a human, 1 for a CPU and 2 for a demo player:
/// `PlayerType::try_from(n)` gives each of them back exactly from its number, fails exactly
/// for `n > 2`, and then reports `n`.
pub proof fn lemma_player_type_numbering(n: u8)
    ensures
        <PlayerType as TryFromSpec<u8>>::obeys_try_from_spec(),
        (<PlayerType as TryFromSpec<u8>>::try_from_spec(n) == Ok::<PlayerType, TryFromPrimitiveError<u8>>(
            PlayerType::Human,
        )) <==> n == 0,
        (<PlayerType as TryFromSpec<u8>>::try_from_spec(n) == Ok::<PlayerType, TryFromPrimitiveError<u8>>(
            PlayerType::Cpu,
        )) <==> n == 1,
        (<PlayerType as TryFromSpec<u8>>::try_from_spec(n) == Ok::<PlayerType, TryFromPrimitiveError<u8>>(
            PlayerType::Demo,
        )) <==> n == 2,
        <PlayerType as TryFromSpec<u8>>::try_from_spec(n) is Ok <==> n <= 2,
        <PlayerType as TryFromSpec<u8>>::try_from_spec(n) matches Err(e) ==> e.number == n,
{
}

/// The dash back fix is stored as 1 for UCF and 2 for Arduino: `DashBack::try_from(n)` gives
/// each back exactly from its number, fails for every other number, and then reports it.
pub proof fn lemma_dash_back_numbering(n: u32)
    ensures
        <DashBack as TryFromSpec<u32>>::obeys_try_from_spec(),
        (<DashBack as TryFromSpec<u32>>::try_from_spec(n) == Ok::<DashBack, TryFromPrimitiveError<u32>>(DashBack::Ucf))
            <==> n == 1,
        (<DashBack as TryFromSpec<u32>>::try_from_spec(n) == Ok::<DashBack, TryFromPrimitiveError<u32>>(
            DashBack::Arduino,
        )) <==> n == 2,
        <DashBack as TryFromSpec<u32>>::try_from_spec(n) is Ok <==> (n == 1 || n == 2),
        <DashBack as TryFromSpec<u32>>::try_from_spec(n) matches Err(e) ==> e.number == n,
{
}

/// The shield drop fix is stored as 1 for UCF and 2 for Arduino: `ShieldDrop::try_from(n)`
/// gives each back exactly from its number, fails for every other number, and then reports it.
pub proof fn lemma_shield_drop_numbering(n: u32)
    ensures
        <ShieldDrop as TryFromSpec<u32>>::obeys_try_from_spec(),
        (<ShieldDrop as TryFromSpec<u32>>::try_from_spec(n) == Ok::<ShieldDrop, TryFromPrimitiveError<u32>>(
            ShieldDrop::Ucf,
        )) <==> n == 1,
        (<ShieldDrop as TryFromSpec<u32>>::try_from_spec(n) == Ok::<ShieldDrop, TryFromPrimitiveError<u32>>(
            ShieldDrop::Arduino,
        )) <==> n == 2,
        <ShieldDrop as TryFromSpec<u32>>::try_from_spec(n) is Ok <==> (n == 1 || n == 2),
        <ShieldDrop as TryFromSpec<u32>>::try_from_spec(n) matches Err(e) ==> e.number == n,
{
}

/// The game's language is stored as 0 for Japanese and 1 for English: `Language::try_from(n)`
/// gives each back exactly from its number, fails exactly for `n > 1`, and then reports `n`.
pub proof fn lemma_language_numbering(n: u8)
    ensures
        <Language as TryFromSpec<u8>>::obeys_try_from_spec(),
        (<Language as TryFromSpec<u8>>::try_from_spec(n) == Ok::<Language, TryFromPrimitiveError<u8>>(
            Language::Japanese,
        )) <==> n == 0,
        (<Language as TryFromSpec<u8>>::try_from_spec(n) == Ok::<Language, TryFromPrimitiveError<u8>>(
            Language::English,
        )) <==> n == 1,
        <Language as TryFromSpec<u8>>::try_from_spec(n) is Ok <==> n <= 1,
        <Language as TryFromSpec<u8>>::try_from_spec(n) matches Err(e) ==> e.number == n,
{
}

/// How a game ended is stored as 0 (unresolved), 1 (time), 2 (game), 3 (resolved) or 7 (no
/// contest): `EndMethod::try_from(n)` gives each method back exactly from its number, fails for
/// every other number, and then reports it.
pub proof fn lemma_end_method_numbering(n: u8)
    ensures
        <EndMethod as TryFromSpec<u8>>::obeys_try_from_spec(),
        (<EndMethod as TryFromSpec<u8>>::try_from_spec(n) == Ok::<EndMethod, TryFromPrimitiveError<u8>>(
            EndMethod::Unresolved,
        )) <==> n == 0,
        (<EndMethod as TryFromSpec<u8>>::try_from_spec(n) == Ok::<EndMethod, TryFromPrimitiveError<u8>>(
            EndMethod::Time,
        )) <==> n == 1,
        (<EndMethod as TryFromSpec<u8>>::try_from_spec(n) == Ok::<EndMethod, TryFromPrimitiveError<u8>>(
            EndMethod::Game,
        )) <==> n == 2,
        (<EndMethod as TryFromSpec<u8>>::try_from_spec(n) == Ok::<EndMethod, TryFromPrimitiveError<u8>>(
            EndMethod::Resolved,
        )) <==> n == 3,
        (<EndMethod as TryFromSpec<u8>>::try_from_spec(n) == Ok::<EndMethod, TryFromPrimitiveError<u8>>(
            EndMethod::NoContest,
        )) <==> n == 7,
        <EndMethod as TryFromSpec<u8>>::try_from_spec(n) is Ok <==> (n <= 3 || n == 7),
        <EndMethod as TryFromSpec<u8>>::try_from_spec(n) matches Err(e) ==> e.number == n,
{
}

} // verus!
