//! Writing the metadata block as JSON and reading it back gives the same metadata.

use vstd::prelude::*;
use crate::json::{
    JsonNumber, JsonView, remove_key, keys_sorted, has_key, key_index, map_of,
    obj_of_map, lemma_obj_of_map, lemma_remove_key, lemma_sorted_ext, lemma_map_of_finite,
    lemma_lookup_map_of, lemma_sorted_index, lemma_obj_of_map_of, lookup,
};
use crate::text::{decimal, lemma_parse_decimal, lemma_decimal_injective};
use crate::game::metadata::{
    MetadataPlatform, MetadataNamesView, MetadataPlayerView, MetadataView, take_string_spec,
    take_i32_spec, take_platform_spec, names_from_raw, names_json, character_entry,
    characters_upto, characters_left, characters_json, characters_from_raw, player_from_raw,
    player_json, player_entry, players_upto, players_left, players_json, metadata_from_raw,
    metadata_json,
};

verus! {

/// Whether names can be written and read back: their other entries are sorted by key and hold
/// no "netplay" or "code" entry, which would shadow the named fields.
pub open spec fn names_wf(n: MetadataNamesView) -> bool {
    &&& keys_sorted(n.extra)
    &&& !has_key(n.extra, "netplay"@)
    &&& !has_key(n.extra, "code"@)
}

proof fn lemma_take_string(s: Seq<(Seq<char>, JsonView)>, key: Seq<char>)
    requires
        keys_sorted(s),
    ensures
        keys_sorted(take_string_spec(s, key).1),
        map_of(take_string_spec(s, key).1) == (if take_string_spec(s, key).0 is Some {
            map_of(s).remove(key)
        } else {
            map_of(s)
        }),
{
    lemma_remove_key(s, key);
}

proof fn lemma_take_i32(s: Seq<(Seq<char>, JsonView)>, key: Seq<char>)
    requires
        keys_sorted(s),
    ensures
        keys_sorted(take_i32_spec(s, key).1),
        map_of(take_i32_spec(s, key).1) == (if take_i32_spec(s, key).0 is Some {
            map_of(s).remove(key)
        } else {
            map_of(s)
        }),
{
    lemma_remove_key(s, key);
}

proof fn lemma_take_platform(s: Seq<(Seq<char>, JsonView)>, key: Seq<char>)
    requires
        keys_sorted(s),
    ensures
        keys_sorted(take_platform_spec(s, key).1),
        map_of(take_platform_spec(s, key).1) == (if take_platform_spec(s, key).0 is Some {
            map_of(s).remove(key)
        } else {
            map_of(s)
        }),
{
    lemma_remove_key(s, key);
}

/// Names written as JSON and read back are the same names.
pub proof fn lemma_names_round_trip(n: MetadataNamesView)
    requires
        names_wf(n),
    ensures
        names_from_raw(obj_of_map(names_json(n))) == n,
{
    reveal_strlit("netplay");
    reveal_strlit("code");
    let mm = names_json(n);
    lemma_map_of_finite(n.extra);
    assert(mm.dom().finite()) by {
        let named = Set::<Seq<char>>::empty().insert("netplay"@).insert("code"@);
        assert(mm.dom() =~= map_of(n.extra).dom().union(mm.dom().intersect(named)));
        vstd::set_lib::lemma_set_subset_finite(named, mm.dom().intersect(named));
    }
    let s0 = obj_of_map(mm);
    lemma_obj_of_map(mm);
    lemma_lookup_map_of(s0, "netplay"@);
    lemma_take_string(s0, "netplay"@);
    let (netplay, e1) = take_string_spec(s0, "netplay"@);
    assert("netplay"@.len() == 7);
    assert("code"@.len() == 4);
    assert("netplay"@ != "code"@);
    assert(!map_of(n.extra).contains_key("netplay"@));
    assert(!map_of(n.extra).contains_key("code"@));
    match n.netplay {
        Some(x) => {
            assert(mm.contains_key("netplay"@));
            assert(mm["netplay"@] == JsonView::Str(x));
        },
        None => {
            assert(!mm.contains_key("netplay"@));
        },
    }
    assert(netplay == n.netplay);
    lemma_lookup_map_of(e1, "code"@);
    lemma_take_string(e1, "code"@);
    let (code, e2) = take_string_spec(e1, "code"@);
    match n.code {
        Some(x) => {
            assert(map_of(e1).contains_key("code"@));
            assert(map_of(e1)["code"@] == JsonView::Str(x));
        },
        None => {
            assert(!map_of(e1).contains_key("code"@));
        },
    }
    assert(code == n.code);
    assert(map_of(e2) =~= map_of(n.extra));
    lemma_sorted_ext(e2, n.extra);
}

/// The tail of a sorted object from index `n` on is sorted, and its first key is found first.
proof fn lemma_skip_sorted(s: Seq<(Seq<char>, JsonView)>, n: int)
    requires
        keys_sorted(s),
        0 <= n < s.len(),
    ensures
        keys_sorted(s.skip(n)),
        remove_key(s.skip(n), s[n].0) == s.skip(n + 1),
{
    let t = s.skip(n);
    assert(keys_sorted(t)) by {
        assert forall|a: int, b: int| 0 <= a < b < t.len() implies crate::text::key_lt(
            #[trigger] t[a].0,
            #[trigger] t[b].0,
        ) by {
            assert(crate::text::key_lt(s[a + n].0, s[b + n].0));
        }
    }
    assert(t[0] == s[n]);
    lemma_sorted_index(t, 0);
    assert(t.remove(0) =~= s.skip(n + 1));
}

/// The keys of the "characters" object written for `chars` are the characters' decimal numbers.
proof fn lemma_characters_json_finite(chars: Map<u8, u32>)
    requires
        chars.dom().finite(),
    ensures
        characters_json(chars).dom().finite(),
{
    let f = |c: u8| decimal(c as nat);
    chars.dom().lemma_map_finite(f);
    assert(characters_json(chars).dom() =~= chars.dom().map(f));
}

/// Each entry of the "characters" object written for `chars` is read as one character's count.
proof fn lemma_character_entry(
    chars: Map<u8, u32>,
    obj: Seq<(Seq<char>, JsonView)>,
    i: int,
) -> (c: u8)
    requires
        keys_sorted(obj),
        map_of(obj) == characters_json(chars),
        0 <= i < obj.len(),
    ensures
        chars.contains_key(c),
        obj[i].0 == decimal(c as nat),
        character_entry(obj[i]) == Some((c, chars[c])),
{
    lemma_sorted_index(obj, i);
    assert(map_of(obj).contains_key(obj[i].0));
    let c = choose|c: u8| chars.contains_key(c) && obj[i].0 == decimal(c as nat);
    lemma_parse_decimal(c);
    assert(map_of(obj)[obj[i].0] == obj[i].1);
    c
}

/// The counts and the rest read from the first `n` entries of the "characters" object written
/// for `chars`.
proof fn lemma_characters_fold(chars: Map<u8, u32>, obj: Seq<(Seq<char>, JsonView)>, n: nat)
    requires
        keys_sorted(obj),
        map_of(obj) == characters_json(chars),
        n <= obj.len(),
    ensures
        characters_left(obj, n) == obj.skip(n as int),
        characters_upto(obj, n) == Map::new(
            |c: u8|
                chars.contains_key(c) && exists|j: int|
                    0 <= j < n && (#[trigger] obj[j]).0 == decimal(c as nat),
            |c: u8| chars[c],
        ),
    decreases n,
{
    if n == 0 {
        assert(obj.skip(0) =~= obj);
        assert(characters_upto(obj, n) =~= Map::new(
            |c: u8|
                chars.contains_key(c) && exists|j: int|
                    0 <= j < n && (#[trigger] obj[j]).0 == decimal(c as nat),
            |c: u8| chars[c],
        ));
    } else {
        lemma_characters_fold(chars, obj, (n - 1) as nat);
        let c = lemma_character_entry(chars, obj, n - 1);
        lemma_skip_sorted(obj, n - 1);
        let prev = characters_upto(obj, (n - 1) as nat);
        let target = Map::new(
            |d: u8|
                chars.contains_key(d) && exists|j: int|
                    0 <= j < n && (#[trigger] obj[j]).0 == decimal(d as nat),
            |d: u8| chars[d],
        );
        assert forall|d: u8| #[trigger] target.contains_key(d) == (prev.contains_key(d) || d == c) by {
            if target.contains_key(d) {
                let j = choose|j: int| 0 <= j < n && (#[trigger] obj[j]).0 == decimal(d as nat);
                if j == n - 1 {
                    lemma_decimal_injective(c, d);
                }
            }
            if d == c {
                assert(obj[n - 1].0 == decimal(d as nat));
            }
            if prev.contains_key(d) {
                let j = choose|j: int| 0 <= j < n - 1 && (#[trigger] obj[j]).0 == decimal(d as nat);
                assert(0 <= j < n && obj[j].0 == decimal(d as nat));
            }
        }
        assert(characters_upto(obj, n) =~= target);
    }
}

/// Whether a player can be written and read back: their other entries are sorted by key and
/// hold no "characters" or "names" entry, which would shadow the named fields, and their names
/// can be written and read back.
pub open spec fn player_wf(p: MetadataPlayerView) -> bool {
    &&& keys_sorted(p.extra)
    &&& !has_key(p.extra, "characters"@)
    &&& !has_key(p.extra, "names"@)
    &&& p.characters.dom().finite()
    &&& (p.names matches Some(n) ==> names_wf(n))
}

/// A player written as JSON and read back is the same player.
pub proof fn lemma_player_round_trip(p: MetadataPlayerView)
    requires
        player_wf(p),
    ensures
        player_from_raw(obj_of_map(player_json(p))) == p,
{
    reveal_strlit("characters");
    reveal_strlit("names");
    assert("characters"@.len() == 10);
    assert("names"@.len() == 5);
    assert("characters"@ != "names"@);
    let mm = player_json(p);
    lemma_map_of_finite(p.extra);
    assert(mm.dom().finite()) by {
        let named = Set::<Seq<char>>::empty().insert("characters"@).insert("names"@);
        assert(mm.dom() =~= map_of(p.extra).dom().union(mm.dom().intersect(named)));
        vstd::set_lib::lemma_set_subset_finite(named, mm.dom().intersect(named));
    }
    let s0 = obj_of_map(mm);
    lemma_obj_of_map(mm);
    assert(!map_of(p.extra).contains_key("characters"@));
    assert(!map_of(p.extra).contains_key("names"@));
    lemma_lookup_map_of(s0, "characters"@);
    lemma_lookup_map_of(s0, "names"@);
    let (characters, e1) = characters_from_raw(s0);
    // the characters
    if p.characters.is_empty() {
        assert(!mm.contains_key("characters"@));
        assert(p.characters =~= Map::empty());
        assert(e1 == s0);
        assert(map_of(e1) =~= mm.remove("characters"@));
    } else {
        let cj = characters_json(p.characters);
        lemma_characters_json_finite(p.characters);
        let obj = obj_of_map(cj);
        lemma_obj_of_map(cj);
        assert(mm["characters"@] == JsonView::Object(obj));
        lemma_characters_fold(p.characters, obj, obj.len());
        assert(obj.skip(obj.len() as int).len() == 0);
        assert(characters =~= p.characters) by {
            assert forall|c: u8| #[trigger] p.characters.contains_key(c) implies exists|j: int|
                0 <= j < obj.len() && (#[trigger] obj[j]).0 == decimal(c as nat) by {
                assert(cj.contains_key(decimal(c as nat)));
                let j = key_index(obj, decimal(c as nat));
                assert(obj[j].0 == decimal(c as nat));
            }
        }
        lemma_remove_key(s0, "characters"@);
    }
    assert(characters == p.characters);
    assert(keys_sorted(e1));
    assert(map_of(e1) == mm.remove("characters"@));
    // the names
    lemma_lookup_map_of(e1, "names"@);
    match p.names {
        Some(n) => {
            let nj = names_json(n);
            assert(mm["names"@] == JsonView::Object(obj_of_map(nj)));
            lemma_names_round_trip(n);
            lemma_remove_key(e1, "names"@);
        },
        None => {
            assert(!mm.contains_key("names"@));
        },
    }
    let r = player_from_raw(s0);
    assert(r.names == p.names);
    assert(keys_sorted(r.extra));
    assert(map_of(r.extra) =~= map_of(p.extra));
    lemma_sorted_ext(r.extra, p.extra);
}

/// Reading the name of a platform gives the platform back.
pub proof fn lemma_platform_name_round_trip(p: MetadataPlatform)
    ensures
        MetadataPlatform::spec_from_name(p.spec_name()) == Some(p),
{
    reveal_strlit("dolphin");
    reveal_strlit("network");
    reveal_strlit("nintendont");
    assert("dolphin"@[0] == 'd');
    assert("network"@[0] == 'n');
    assert("nintendont"@.len() == 10);
    assert("dolphin"@.len() == 7);
    assert("network"@.len() == 7);
}

/// The keys of the "players" object written for `ps` are the players' indices in decimal.
proof fn lemma_players_json_finite(ps: Map<u8, MetadataPlayerView>)
    requires
        ps.dom().finite(),
    ensures
        players_json(ps).dom().finite(),
{
    let f = |c: u8| decimal(c as nat);
    ps.dom().lemma_map_finite(f);
    assert(players_json(ps).dom() =~= ps.dom().map(f));
}

/// Each entry of the "players" object written for `ps` is read as one player.
proof fn lemma_player_entry(
    ps: Map<u8, MetadataPlayerView>,
    obj: Seq<(Seq<char>, JsonView)>,
    j: int,
) -> (i: u8)
    requires
        keys_sorted(obj),
        map_of(obj) == players_json(ps),
        0 <= j < obj.len(),
        forall|k: u8| #[trigger] ps.contains_key(k) ==> player_wf(ps[k]),
    ensures
        ps.contains_key(i),
        obj[j].0 == decimal(i as nat),
        player_entry(obj[j]) matches Some((k, o)) && k == i && player_from_raw(o) == ps[i],
{
    lemma_sorted_index(obj, j);
    assert(map_of(obj).contains_key(obj[j].0));
    let i = choose|i: u8| ps.contains_key(i) && obj[j].0 == decimal(i as nat);
    lemma_parse_decimal(i);
    assert(map_of(obj)[obj[j].0] == obj[j].1);
    lemma_player_round_trip(ps[i]);
    i
}

/// The players and the rest read from the first `n` entries of the "players" object written
/// for `ps`.
proof fn lemma_players_fold(ps: Map<u8, MetadataPlayerView>, obj: Seq<(Seq<char>, JsonView)>, n: nat)
    requires
        keys_sorted(obj),
        map_of(obj) == players_json(ps),
        n <= obj.len(),
        forall|k: u8| #[trigger] ps.contains_key(k) ==> player_wf(ps[k]),
    ensures
        players_left(obj, n) == obj.skip(n as int),
        players_upto(obj, n) == Map::new(
            |i: u8|
                ps.contains_key(i) && exists|j: int|
                    0 <= j < n && (#[trigger] obj[j]).0 == decimal(i as nat),
            |i: u8| ps[i],
        ),
    decreases n,
{
    if n == 0 {
        assert(obj.skip(0) =~= obj);
        assert(players_upto(obj, n) =~= Map::new(
            |i: u8|
                ps.contains_key(i) && exists|j: int|
                    0 <= j < n && (#[trigger] obj[j]).0 == decimal(i as nat),
            |i: u8| ps[i],
        ));
    } else {
        lemma_players_fold(ps, obj, (n - 1) as nat);
        let c = lemma_player_entry(ps, obj, n - 1);
        lemma_skip_sorted(obj, n - 1);
        let prev = players_upto(obj, (n - 1) as nat);
        let target = Map::new(
            |d: u8|
                ps.contains_key(d) && exists|j: int|
                    0 <= j < n && (#[trigger] obj[j]).0 == decimal(d as nat),
            |d: u8| ps[d],
        );
        assert forall|d: u8| #[trigger] target.contains_key(d) == (prev.contains_key(d) || d == c) by {
            if target.contains_key(d) {
                let j = choose|j: int| 0 <= j < n && (#[trigger] obj[j]).0 == decimal(d as nat);
                if j == n - 1 {
                    lemma_decimal_injective(c, d);
                }
            }
            if d == c {
                assert(obj[n - 1].0 == decimal(d as nat));
            }
            if prev.contains_key(d) {
                let j = choose|j: int| 0 <= j < n - 1 && (#[trigger] obj[j]).0 == decimal(d as nat);
                assert(0 <= j < n && obj[j].0 == decimal(d as nat));
            }
        }
        assert(players_upto(obj, n) =~= target);
    }
}

/// Whether metadata can be written and read back: its other entries are sorted by key and hold
/// none of "startAt", "playedOn", "lastFrame", "players" and "consoleNick", which would shadow
/// the named fields, and each of its players can be written and read back.
pub open spec fn metadata_wf(v: MetadataView) -> bool {
    &&& keys_sorted(v.extra)
    &&& !has_key(v.extra, "startAt"@)
    &&& !has_key(v.extra, "playedOn"@)
    &&& !has_key(v.extra, "lastFrame"@)
    &&& !has_key(v.extra, "players"@)
    &&& !has_key(v.extra, "consoleNick"@)
    &&& v.players.dom().finite()
    &&& forall|i: u8| #[trigger] v.players.contains_key(i) ==> player_wf(v.players[i])
}

/// The named fields read back from the JSON object written for `v`, and what is left.
proof fn lemma_metadata_named(v: MetadataView)
    requires
        metadata_wf(v),
    ensures
        metadata_json(v).dom().finite(),
        ({
            let mm = metadata_json(v);
            let s0 = obj_of_map(mm);
            let (start_at, e1) = take_string_spec(s0, "startAt"@);
            let (played_on, e2) = take_platform_spec(e1, "playedOn"@);
            let (last_frame, e3) = take_i32_spec(e2, "lastFrame"@);
            let (console_nick, e4) = take_string_spec(e3, "consoleNick"@);
            &&& keys_sorted(s0)
            &&& map_of(s0) == mm
            &&& start_at == v.start_at
            &&& played_on == v.played_on
            &&& last_frame == v.last_frame
            &&& console_nick == v.console_nick
            &&& keys_sorted(e4)
            &&& map_of(e4) == mm.remove("startAt"@).remove("playedOn"@).remove("lastFrame"@).remove(
                "consoleNick"@,
            )
        }),
{
    reveal_strlit("startAt");
    reveal_strlit("playedOn");
    reveal_strlit("lastFrame");
    reveal_strlit("players");
    reveal_strlit("consoleNick");
    assert("startAt"@.len() == 7);
    assert("playedOn"@.len() == 8);
    assert("lastFrame"@.len() == 9);
    assert("players"@.len() == 7);
    assert("consoleNick"@.len() == 11);
    assert("startAt"@[0] == 's');
    assert("players"@[0] == 'p');
    let mm = metadata_json(v);
    lemma_map_of_finite(v.extra);
    assert(mm.dom().finite()) by {
        let named = Set::<Seq<char>>::empty().insert("startAt"@).insert("playedOn"@).insert(
            "lastFrame"@,
        ).insert("players"@).insert("consoleNick"@);
        assert(mm.dom() =~= map_of(v.extra).dom().union(mm.dom().intersect(named)));
        vstd::set_lib::lemma_set_subset_finite(named, mm.dom().intersect(named));
    }
    let s0 = obj_of_map(mm);
    lemma_obj_of_map(mm);
    assert(!map_of(v.extra).contains_key("startAt"@));
    assert(!map_of(v.extra).contains_key("playedOn"@));
    assert(!map_of(v.extra).contains_key("lastFrame"@));
    assert(!map_of(v.extra).contains_key("consoleNick"@));
    // startAt
    lemma_lookup_map_of(s0, "startAt"@);
    lemma_take_string(s0, "startAt"@);
    let (start_at, e1) = take_string_spec(s0, "startAt"@);
    match v.start_at {
        Some(x) => {
            assert(mm["startAt"@] == JsonView::Str(x));
        },
        None => {
            assert(!mm.contains_key("startAt"@));
        },
    }
    assert(start_at == v.start_at);
    assert(map_of(e1) =~= mm.remove("startAt"@));
    // playedOn
    lemma_lookup_map_of(e1, "playedOn"@);
    lemma_take_platform(e1, "playedOn"@);
    let (played_on, e2) = take_platform_spec(e1, "playedOn"@);
    match v.played_on {
        Some(p) => {
            lemma_platform_name_round_trip(p);
            assert(map_of(e1)["playedOn"@] == JsonView::Str(p.spec_name()));
        },
        None => {
            assert(!map_of(e1).contains_key("playedOn"@));
        },
    }
    assert(played_on == v.played_on);
    assert(map_of(e2) =~= mm.remove("startAt"@).remove("playedOn"@));
    // lastFrame
    lemma_lookup_map_of(e2, "lastFrame"@);
    lemma_take_i32(e2, "lastFrame"@);
    let (last_frame, e3) = take_i32_spec(e2, "lastFrame"@);
    match v.last_frame {
        Some(f) => {
            assert(map_of(e2)["lastFrame"@] == JsonView::Number(
                JsonNumber::spec_from_i64(f as i64),
            ));
        },
        None => {
            assert(!map_of(e2).contains_key("lastFrame"@));
        },
    }
    assert(last_frame == v.last_frame);
    assert(map_of(e3) =~= mm.remove("startAt"@).remove("playedOn"@).remove("lastFrame"@));
    // consoleNick
    lemma_lookup_map_of(e3, "consoleNick"@);
    lemma_take_string(e3, "consoleNick"@);
    let (console_nick, e4) = take_string_spec(e3, "consoleNick"@);
    match v.console_nick {
        Some(x) => {
            assert(map_of(e3)["consoleNick"@] == JsonView::Str(x));
        },
        None => {
            assert(!map_of(e3).contains_key("consoleNick"@));
        },
    }
    assert(console_nick == v.console_nick);
    assert(map_of(e4) =~= mm.remove("startAt"@).remove("playedOn"@).remove("lastFrame"@).remove(
        "consoleNick"@,
    ));
}

/// Metadata written as its JSON object (`Metadata::to_raw`) and read back
/// (`Metadata::from_raw`) is the same metadata, where its other entries shadow no named field.
#[verifier::rlimit(30)]
pub proof fn lemma_metadata_round_trip(v: MetadataView)
    requires
        metadata_wf(v),
    ensures
        metadata_from_raw(obj_of_map(metadata_json(v))) == v,
{
    reveal_strlit("startAt");
    reveal_strlit("playedOn");
    reveal_strlit("lastFrame");
    reveal_strlit("players");
    reveal_strlit("consoleNick");
    assert("startAt"@.len() == 7);
    assert("playedOn"@.len() == 8);
    assert("lastFrame"@.len() == 9);
    assert("players"@.len() == 7);
    assert("consoleNick"@.len() == 11);
    assert("startAt"@[0] == 's');
    assert("players"@[0] == 'p');
    lemma_metadata_named(v);
    let mm = metadata_json(v);
    let s0 = obj_of_map(mm);
    let (start_at, e1) = take_string_spec(s0, "startAt"@);
    let (played_on, e2) = take_platform_spec(e1, "playedOn"@);
    let (last_frame, e3) = take_i32_spec(e2, "lastFrame"@);
    let (console_nick, e4) = take_string_spec(e3, "consoleNick"@);
    assert(!map_of(v.extra).contains_key("players"@));
    lemma_lookup_map_of(s0, "players"@);
    let r = metadata_from_raw(s0);
    if v.players.is_empty() {
        assert(!mm.contains_key("players"@));
        assert(v.players =~= Map::empty());
        assert(r.extra == e4);
        assert(map_of(r.extra) =~= map_of(v.extra));
    } else {
        let pj = players_json(v.players);
        lemma_players_json_finite(v.players);
        let obj = obj_of_map(pj);
        lemma_obj_of_map(pj);
        assert(mm["players"@] == JsonView::Object(obj));
        lemma_players_fold(v.players, obj, obj.len());
        assert(obj.skip(obj.len() as int).len() == 0);
        assert(r.players =~= v.players) by {
            assert forall|i: u8| #[trigger] v.players.contains_key(i) implies exists|j: int|
                0 <= j < obj.len() && (#[trigger] obj[j]).0 == decimal(i as nat) by {
                assert(pj.contains_key(decimal(i as nat)));
                let j = key_index(obj, decimal(i as nat));
                assert(obj[j].0 == decimal(i as nat));
            }
        }
        lemma_remove_key(e4, "players"@);
        assert(map_of(r.extra) =~= map_of(v.extra));
    }
    assert(keys_sorted(r.extra));
    lemma_sorted_ext(r.extra, v.extra);
}

// The other direction: a JSON object read as metadata and written back.

/// A names object read and written back is the same object.
pub proof fn lemma_names_raw_round_trip(o: Seq<(Seq<char>, JsonView)>)
    requires
        keys_sorted(o),
    ensures
        obj_of_map(names_json(names_from_raw(o))) == o,
{
    reveal_strlit("netplay");
    reveal_strlit("code");
    assert("netplay"@.len() == 7);
    assert("code"@.len() == 4);
    let v = names_from_raw(o);
    let (netplay, e1) = take_string_spec(o, "netplay"@);
    lemma_take_string(o, "netplay"@);
    lemma_take_string(e1, "code"@);
    lemma_lookup_map_of(o, "netplay"@);
    lemma_lookup_map_of(o, "code"@);
    lemma_lookup_map_of(e1, "code"@);
    assert(names_json(v) =~= map_of(o));
    lemma_obj_of_map_of(o);
}

/// Whether every entry of a "characters" object is a count in the form it is written in: keyed
/// by a character's decimal number, with a count that fits in a `u32`.
pub open spec fn canonical_counts(c: Seq<(Seq<char>, JsonView)>) -> bool {
    forall|i: int|
        0 <= i < c.len() ==> (#[trigger] character_entry(c[i]) matches Some((x, u)) && c[i].0
            == decimal(x as nat) && c[i].1 == JsonView::Number(JsonNumber::PosInt(u as u64)))
}

/// The count stored in `c` under character `x`'s decimal number.
spec fn count_under(c: Seq<(Seq<char>, JsonView)>, x: u8) -> u32 {
    match c[key_index(c, decimal(x as nat))].1 {
        JsonView::Number(JsonNumber::PosInt(u)) => u as u32,
        _ => 0,
    }
}

/// Reading the first `n` entries of a canonical "characters" object.
proof fn lemma_canonical_counts_fold(c: Seq<(Seq<char>, JsonView)>, n: nat)
    requires
        keys_sorted(c),
        canonical_counts(c),
        n <= c.len(),
    ensures
        characters_left(c, n) == c.skip(n as int),
        characters_upto(c, n) == Map::new(
            |x: u8| exists|j: int| 0 <= j < n && (#[trigger] c[j]).0 == decimal(x as nat),
            |x: u8| count_under(c, x),
        ),
    decreases n,
{
    if n == 0 {
        assert(c.skip(0) =~= c);
        assert(characters_upto(c, n) =~= Map::new(
            |x: u8| exists|j: int| 0 <= j < n && (#[trigger] c[j]).0 == decimal(x as nat),
            |x: u8| count_under(c, x),
        ));
    } else {
        lemma_canonical_counts_fold(c, (n - 1) as nat);
        let e = c[n - 1];
        assert(character_entry(c[n - 1]) is Some);
        let (x, u) = character_entry(e)->Some_0;
        lemma_skip_sorted(c, n - 1);
        lemma_sorted_index(c, n - 1);
        assert(count_under(c, x) == u);
        let prev = characters_upto(c, (n - 1) as nat);
        let target = Map::new(
            |y: u8| exists|j: int| 0 <= j < n && (#[trigger] c[j]).0 == decimal(y as nat),
            |y: u8| count_under(c, y),
        );
        assert forall|y: u8| #[trigger] target.contains_key(y) == (prev.contains_key(y) || y == x) by {
            if target.contains_key(y) {
                let j = choose|j: int| 0 <= j < n && (#[trigger] c[j]).0 == decimal(y as nat);
                if j == n - 1 {
                    lemma_decimal_injective(x, y);
                }
            }
            if y == x {
                assert(c[n - 1].0 == decimal(y as nat));
            }
            if prev.contains_key(y) {
                let j = choose|j: int| 0 <= j < n - 1 && (#[trigger] c[j]).0 == decimal(y as nat);
                assert(0 <= j < n && c[j].0 == decimal(y as nat));
            }
        }
        assert(characters_upto(c, n) =~= target);
    }
}

/// A canonical "characters" object is read whole and written back as it was.
proof fn lemma_canonical_counts_round_trip(c: Seq<(Seq<char>, JsonView)>)
    requires
        keys_sorted(c),
        canonical_counts(c),
    ensures
        characters_left(c, c.len()).len() == 0,
        obj_of_map(characters_json(characters_upto(c, c.len()))) == c,
{
    lemma_canonical_counts_fold(c, c.len());
    let chars = characters_upto(c, c.len());
    assert(characters_json(chars) =~= map_of(c)) by {
        assert forall|k: Seq<char>| #[trigger] characters_json(chars).contains_key(k)
            == map_of(c).contains_key(k) by {
            if map_of(c).contains_key(k) {
                let t = key_index(c, k);
                assert(character_entry(c[t]) is Some);
                let x = character_entry(c[t])->Some_0.0;
                assert(chars.contains_key(x));
            }
            if characters_json(chars).contains_key(k) {
                let x = choose|x: u8| chars.contains_key(x) && k == decimal(x as nat);
                let j = choose|j: int| 0 <= j < c.len() && (#[trigger] c[j]).0 == decimal(x as nat);
                assert(c[j].0 == k);
            }
        }
        assert forall|k: Seq<char>| #[trigger] characters_json(chars).contains_key(k)
            implies characters_json(chars)[k] == map_of(c)[k] by {
            let x = choose|x: u8| chars.contains_key(x) && k == decimal(x as nat);
            lemma_parse_decimal(x);
            let j = choose|j: int| 0 <= j < c.len() && (#[trigger] c[j]).0 == decimal(x as nat);
            lemma_sorted_index(c, j);
            assert(character_entry(c[j]) is Some);
        }
    }
    lemma_obj_of_map_of(c);
}

/// Whether a player's object is written back as it was read: sorted, with its names object
/// (where it is one) sorted, and its "characters" object (where it is one) either in canonical
/// form or left whole by reading, and not empty.
pub open spec fn player_raw_ok(raw: Seq<(Seq<char>, JsonView)>) -> bool {
    &&& keys_sorted(raw)
    &&& (lookup(raw, "names"@) matches Some(JsonView::Object(o)) ==> keys_sorted(o))
    &&& (lookup(raw, "characters"@) matches Some(JsonView::Object(c)) ==> {
        &&& keys_sorted(c)
        &&& c.len() > 0
        &&& (canonical_counts(c) || characters_left(c, c.len()) == c)
    })
}

/// A player's object read and written back is the same object, where it is written back as it
/// was read.
pub proof fn lemma_player_raw_round_trip(raw: Seq<(Seq<char>, JsonView)>)
    requires
        player_raw_ok(raw),
    ensures
        obj_of_map(player_json(player_from_raw(raw))) == raw,
{
    reveal_strlit("characters");
    reveal_strlit("names");
    assert("characters"@.len() == 10);
    assert("names"@.len() == 5);
    let v = player_from_raw(raw);
    let (characters, e1) = characters_from_raw(raw);
    lemma_lookup_map_of(raw, "characters"@);
    lemma_lookup_map_of(raw, "names"@);
    match lookup(raw, "characters"@) {
        Some(JsonView::Object(c)) => {
            if canonical_counts(c) {
                lemma_canonical_counts_round_trip(c);
                lemma_remove_key(raw, "characters"@);
                assert(!characters.is_empty()) by {
                    assert(c[0].0 == c[0].0);
                    let x = character_entry(c[0])->Some_0.0;
                    lemma_canonical_counts_fold(c, c.len());
                    assert(characters.contains_key(x));
                }
            } else {
                crate::json::lemma_insert_key(raw, "characters"@, JsonView::Object(c));
                assert(map_of(e1) =~= map_of(raw));
            }
        },
        _ => {},
    }
    assert(keys_sorted(e1));
    lemma_lookup_map_of(e1, "names"@);
    match v.names {
        Some(n) => {
            let o = lookup(raw, "names"@)->Some_0->Object_0;
            lemma_names_raw_round_trip(o);
            lemma_remove_key(e1, "names"@);
        },
        None => {},
    }
    assert(player_json(v) =~= map_of(raw));
    lemma_obj_of_map_of(raw);
}

/// Whether every entry of a "players" object is a player in the form it is written in: keyed
/// by an index's decimal number, with an object that is written back as it was read.
pub open spec fn canonical_players(p: Seq<(Seq<char>, JsonView)>) -> bool {
    forall|i: int|
        0 <= i < p.len() ==> (#[trigger] player_entry(p[i]) matches Some((x, o)) && p[i].0
            == decimal(x as nat) && player_raw_ok(o))
}

/// The player object stored in `p` under index `x`'s decimal number.
spec fn object_under(p: Seq<(Seq<char>, JsonView)>, x: u8) -> Seq<(Seq<char>, JsonView)> {
    match p[key_index(p, decimal(x as nat))].1 {
        JsonView::Object(o) => o,
        _ => Seq::empty(),
    }
}

/// Reading the first `n` entries of a canonical "players" object.
proof fn lemma_canonical_players_fold(p: Seq<(Seq<char>, JsonView)>, n: nat)
    requires
        keys_sorted(p),
        canonical_players(p),
        n <= p.len(),
    ensures
        players_left(p, n) == p.skip(n as int),
        players_upto(p, n) == Map::new(
            |x: u8| exists|j: int| 0 <= j < n && (#[trigger] p[j]).0 == decimal(x as nat),
            |x: u8| player_from_raw(object_under(p, x)),
        ),
    decreases n,
{
    if n == 0 {
        assert(p.skip(0) =~= p);
        assert(players_upto(p, n) =~= Map::new(
            |x: u8| exists|j: int| 0 <= j < n && (#[trigger] p[j]).0 == decimal(x as nat),
            |x: u8| player_from_raw(object_under(p, x)),
        ));
    } else {
        lemma_canonical_players_fold(p, (n - 1) as nat);
        let e = p[n - 1];
        assert(player_entry(p[n - 1]) is Some);
        let (x, o) = player_entry(e)->Some_0;
        lemma_skip_sorted(p, n - 1);
        lemma_sorted_index(p, n - 1);
        assert(object_under(p, x) == o);
        let prev = players_upto(p, (n - 1) as nat);
        let target = Map::new(
            |y: u8| exists|j: int| 0 <= j < n && (#[trigger] p[j]).0 == decimal(y as nat),
            |y: u8| player_from_raw(object_under(p, y)),
        );
        assert forall|y: u8| #[trigger] target.contains_key(y) == (prev.contains_key(y) || y == x) by {
            if target.contains_key(y) {
                let j = choose|j: int| 0 <= j < n && (#[trigger] p[j]).0 == decimal(y as nat);
                if j == n - 1 {
                    lemma_decimal_injective(x, y);
                }
            }
            if y == x {
                assert(p[n - 1].0 == decimal(y as nat));
            }
            if prev.contains_key(y) {
                let j = choose|j: int| 0 <= j < n - 1 && (#[trigger] p[j]).0 == decimal(y as nat);
                assert(0 <= j < n && p[j].0 == decimal(y as nat));
            }
        }
        assert(players_upto(p, n) =~= target);
    }
}

/// A canonical "players" object is read whole and written back as it was.
proof fn lemma_canonical_players_round_trip(p: Seq<(Seq<char>, JsonView)>)
    requires
        keys_sorted(p),
        canonical_players(p),
    ensures
        players_left(p, p.len()).len() == 0,
        obj_of_map(players_json(players_upto(p, p.len()))) == p,
{
    lemma_canonical_players_fold(p, p.len());
    let ps = players_upto(p, p.len());
    assert(players_json(ps) =~= map_of(p)) by {
        assert forall|k: Seq<char>| #[trigger] players_json(ps).contains_key(k)
            == map_of(p).contains_key(k) by {
            if map_of(p).contains_key(k) {
                let t = key_index(p, k);
                assert(player_entry(p[t]) is Some);
                let x = player_entry(p[t])->Some_0.0;
                assert(ps.contains_key(x));
            }
            if players_json(ps).contains_key(k) {
                let x = choose|x: u8| ps.contains_key(x) && k == decimal(x as nat);
                let j = choose|j: int| 0 <= j < p.len() && (#[trigger] p[j]).0 == decimal(x as nat);
                assert(p[j].0 == k);
            }
        }
        assert forall|k: Seq<char>| #[trigger] players_json(ps).contains_key(k)
            implies players_json(ps)[k] == map_of(p)[k] by {
            let x = choose|x: u8| ps.contains_key(x) && k == decimal(x as nat);
            lemma_parse_decimal(x);
            let j = choose|j: int| 0 <= j < p.len() && (#[trigger] p[j]).0 == decimal(x as nat);
            lemma_sorted_index(p, j);
            assert(player_entry(p[j]) is Some);
            lemma_player_raw_round_trip(object_under(p, x));
        }
    }
    lemma_obj_of_map_of(p);
}

/// Whether a metadata object is written back as it was read: sorted, with a "lastFrame" that
/// is a negative integer only where it is below zero (as every JSON number is), and a
/// "players" object (where it is one) that is sorted, not empty, and either in canonical form
/// or left whole by reading.
pub open spec fn metadata_raw_ok(raw: Seq<(Seq<char>, JsonView)>) -> bool {
    &&& keys_sorted(raw)
    &&& (lookup(raw, "lastFrame"@) matches Some(JsonView::Number(JsonNumber::NegInt(i))) ==> i < 0)
    &&& (lookup(raw, "players"@) matches Some(JsonView::Object(p)) ==> {
        &&& keys_sorted(p)
        &&& p.len() > 0
        &&& (canonical_players(p) || players_left(p, p.len()) == p)
    })
}

/// A platform name that reads as a platform is that platform's name.
proof fn lemma_platform_name_of(s: Seq<char>)
    ensures
        MetadataPlatform::spec_from_name(s) matches Some(p) ==> p.spec_name() == s,
{
}

/// The entries written for the four named fields of `v` other than the players.
spec fn scalars_json(v: MetadataView) -> Map<Seq<char>, JsonView> {
    let m0 = Map::<Seq<char>, JsonView>::empty();
    let m1 = match v.start_at {
        Some(s) => m0.insert("startAt"@, JsonView::Str(s)),
        None => m0,
    };
    let m2 = match v.played_on {
        Some(p) => m1.insert("playedOn"@, JsonView::Str(p.spec_name())),
        None => m1,
    };
    let m3 = match v.last_frame {
        Some(f) => m2.insert("lastFrame"@, JsonView::Number(JsonNumber::spec_from_i64(f as i64))),
        None => m2,
    };
    match v.console_nick {
        Some(s) => m3.insert("consoleNick"@, JsonView::Str(s)),
        None => m3,
    }
}

/// The entry written for the players of `v`, if any.
spec fn players_entry_json(v: MetadataView) -> Map<Seq<char>, JsonView> {
    if v.players.is_empty() {
        Map::empty()
    } else {
        Map::empty().insert("players"@, JsonView::Object(obj_of_map(players_json(v.players))))
    }
}

proof fn lemma_metadata_json_parts(v: MetadataView)
    ensures
        metadata_json(v) == scalars_json(v).union_prefer_right(players_entry_json(v)).union_prefer_right(
            map_of(v.extra),
        ),
{
    reveal_strlit("startAt");
    reveal_strlit("playedOn");
    reveal_strlit("lastFrame");
    reveal_strlit("players");
    reveal_strlit("consoleNick");
    assert("startAt"@.len() == 7);
    assert("playedOn"@.len() == 8);
    assert("lastFrame"@.len() == 9);
    assert("players"@.len() == 7);
    assert("consoleNick"@.len() == 11);
    assert("startAt"@[0] == 's');
    assert("players"@[0] == 'p');
    assert(metadata_json(v) =~= scalars_json(v).union_prefer_right(players_entry_json(v))
        .union_prefer_right(map_of(v.extra)));
}

/// The four named fields other than the players, read from `raw` and written back, with what
/// is left after reading them, give `raw` back.
proof fn lemma_scalars_raw(raw: Seq<(Seq<char>, JsonView)>)
    requires
        metadata_raw_ok(raw),
    ensures
        ({
            let v = metadata_from_raw(raw);
            let (start_at, e1) = take_string_spec(raw, "startAt"@);
            let (played_on, e2) = take_platform_spec(e1, "playedOn"@);
            let (last_frame, e3) = take_i32_spec(e2, "lastFrame"@);
            let (console_nick, e4) = take_string_spec(e3, "consoleNick"@);
            &&& keys_sorted(e4)
            &&& scalars_json(v).union_prefer_right(map_of(e4)) == map_of(raw)
            &&& lookup(e4, "players"@) == lookup(raw, "players"@)
        }),
{
    reveal_strlit("startAt");
    reveal_strlit("playedOn");
    reveal_strlit("lastFrame");
    reveal_strlit("players");
    reveal_strlit("consoleNick");
    assert("startAt"@.len() == 7);
    assert("playedOn"@.len() == 8);
    assert("lastFrame"@.len() == 9);
    assert("players"@.len() == 7);
    assert("consoleNick"@.len() == 11);
    assert("startAt"@[0] == 's');
    assert("players"@[0] == 'p');
    let v = metadata_from_raw(raw);
    let (start_at, e1) = take_string_spec(raw, "startAt"@);
    let (played_on, e2) = take_platform_spec(e1, "playedOn"@);
    let (last_frame, e3) = take_i32_spec(e2, "lastFrame"@);
    let (console_nick, e4) = take_string_spec(e3, "consoleNick"@);
    lemma_take_string(raw, "startAt"@);
    lemma_take_platform(e1, "playedOn"@);
    lemma_take_i32(e2, "lastFrame"@);
    lemma_take_string(e3, "consoleNick"@);
    lemma_lookup_map_of(raw, "startAt"@);
    lemma_lookup_map_of(e1, "playedOn"@);
    lemma_lookup_map_of(raw, "playedOn"@);
    lemma_lookup_map_of(e2, "lastFrame"@);
    lemma_lookup_map_of(raw, "lastFrame"@);
    lemma_lookup_map_of(e3, "consoleNick"@);
    lemma_lookup_map_of(raw, "consoleNick"@);
    lemma_lookup_map_of(raw, "players"@);
    lemma_lookup_map_of(e4, "players"@);
    match lookup(e1, "playedOn"@) {
        Some(JsonView::Str(name)) => lemma_platform_name_of(name),
        _ => {},
    }
    assert(scalars_json(v).union_prefer_right(map_of(e4)) =~= map_of(raw));
}

/// A metadata JSON object read (`Metadata::from_raw`) and written back (`Metadata::to_raw`) is
/// the same object, where it is written back as it was read.
pub proof fn lemma_metadata_raw_round_trip(raw: Seq<(Seq<char>, JsonView)>)
    requires
        metadata_raw_ok(raw),
    ensures
        obj_of_map(metadata_json(metadata_from_raw(raw))) == raw,
{
    reveal_strlit("players");
    let v = metadata_from_raw(raw);
    let (start_at, e1) = take_string_spec(raw, "startAt"@);
    let (played_on, e2) = take_platform_spec(e1, "playedOn"@);
    let (last_frame, e3) = take_i32_spec(e2, "lastFrame"@);
    let (console_nick, e4) = take_string_spec(e3, "consoleNick"@);
    lemma_scalars_raw(raw);
    lemma_metadata_json_parts(v);
    lemma_lookup_map_of(raw, "players"@);
    lemma_lookup_map_of(e4, "players"@);
    match lookup(raw, "players"@) {
        Some(JsonView::Object(p)) => {
            if canonical_players(p) {
                lemma_canonical_players_round_trip(p);
                lemma_remove_key(e4, "players"@);
                assert(!v.players.is_empty()) by {
                    let x = player_entry(p[0])->Some_0.0;
                    lemma_canonical_players_fold(p, p.len());
                    assert(v.players.contains_key(x));
                }
                assert(players_entry_json(v).union_prefer_right(map_of(v.extra)) =~= map_of(e4));
            } else {
                crate::json::lemma_insert_key(e4, "players"@, JsonView::Object(p));
                assert(map_of(v.extra) =~= map_of(e4));
                assert(players_entry_json(v).union_prefer_right(map_of(v.extra)) =~= map_of(e4));
            }
        },
        _ => {
            assert(v.players =~= Map::empty());
            assert(players_entry_json(v).union_prefer_right(map_of(v.extra)) =~= map_of(e4));
        },
    }
    assert(metadata_json(v) =~= map_of(raw));
    lemma_obj_of_map_of(raw);
}

} // verus!
