//! The JSON metadata block of a replay: the fields it names, read out of the raw JSON object,
//! with every other entry kept so that the block can be written back.

use vstd::prelude::*;
use std::collections::BTreeMap;
use crate::json::{
    JsonMap, JsonNumber, JsonValue, JsonView, lookup, remove_key, insert_key, keys_sorted,
    map_of, obj_of_map, lemma_json_view, lemma_insert_key, lemma_obj_of_map_of, lemma_map_of_push,
};
use crate::text::{parse_u8, parse_u8_spec, decimal, format_decimal, str_eq, lemma_parse_decimal};

verus! {

broadcast use lemma_json_view;

/// The platform a game was played on, as the metadata names it.
#[derive(Clone, Copy, Debug, PartialEq, Eq, Structural)]
pub enum MetadataPlatform {
    Dolphin,
    Network,
    Nintendont,
}

impl MetadataPlatform {
    /// The name of the platform in the metadata.
    pub open spec fn spec_name(self) -> Seq<char> {
        match self {
            MetadataPlatform::Dolphin => "dolphin"@,
            MetadataPlatform::Network => "network"@,
            MetadataPlatform::Nintendont => "nintendont"@,
        }
    }

    /// The platform with the name `s`, if any.
    pub open spec fn spec_from_name(s: Seq<char>) -> Option<MetadataPlatform> {
        if s == "dolphin"@ {
            Some(MetadataPlatform::Dolphin)
        } else if s == "network"@ {
            Some(MetadataPlatform::Network)
        } else if s == "nintendont"@ {
            Some(MetadataPlatform::Nintendont)
        } else {
            None
        }
    }

    /// The name of the platform in the metadata: "dolphin", "network" or "nintendont".
    pub fn name(&self) -> (r: &'static str)
        ensures
            r@ == self.spec_name(),
    {
        match *self {
            MetadataPlatform::Dolphin => "dolphin",
            MetadataPlatform::Network => "network",
            MetadataPlatform::Nintendont => "nintendont",
        }
    }
}

/// A player's netplay name and connect code, with any other entries of their JSON object.
#[derive(Clone, Debug, Default, PartialEq, Eq)]
pub struct MetadataNames {
    pub netplay: Option<String>,
    pub code: Option<String>,
    pub extra: JsonMap,
}

/// A player's frame count per character and names, with any other entries of their JSON object.
#[derive(Clone, Debug, Default, PartialEq, Eq)]
pub struct MetadataPlayer {
    pub characters: BTreeMap<u8, u32>,
    pub names: Option<MetadataNames>,
    pub extra: JsonMap,
}

/// The metadata block of a replay, with any other entries of its JSON object.
#[derive(Clone, Debug, Default, PartialEq, Eq)]
pub struct Metadata {
    pub start_at: Option<String>,
    pub played_on: Option<MetadataPlatform>,
    pub last_frame: Option<i32>,
    pub players: BTreeMap<u8, MetadataPlayer>,
    pub console_nick: Option<String>,
    pub extra: JsonMap,
}

/// The mathematical form of `MetadataNames`.
pub struct MetadataNamesView {
    pub netplay: Option<Seq<char>>,
    pub code: Option<Seq<char>>,
    pub extra: Seq<(Seq<char>, JsonView)>,
}

/// The mathematical form of `MetadataPlayer`.
pub struct MetadataPlayerView {
    pub characters: Map<u8, u32>,
    pub names: Option<MetadataNamesView>,
    pub extra: Seq<(Seq<char>, JsonView)>,
}

/// The mathematical form of `Metadata`.
pub struct MetadataView {
    pub start_at: Option<Seq<char>>,
    pub played_on: Option<MetadataPlatform>,
    pub last_frame: Option<i32>,
    pub players: Map<u8, MetadataPlayerView>,
    pub console_nick: Option<Seq<char>>,
    pub extra: Seq<(Seq<char>, JsonView)>,
}

/// The characters of an optional string.
pub open spec fn opt_chars(o: Option<String>) -> Option<Seq<char>> {
    match o {
        Some(s) => Some(s@),
        None => None,
    }
}

impl View for MetadataNames {
    type V = MetadataNamesView;

    open spec fn view(&self) -> MetadataNamesView {
        MetadataNamesView {
            netplay: opt_chars(self.netplay),
            code: opt_chars(self.code),
            extra: self.extra@,
        }
    }
}

impl View for MetadataPlayer {
    type V = MetadataPlayerView;

    open spec fn view(&self) -> MetadataPlayerView {
        MetadataPlayerView {
            characters: self.characters@,
            names: match self.names {
                Some(n) => Some(n@),
                None => None,
            },
            extra: self.extra@,
        }
    }
}

/// The players of a metadata block, each in mathematical form.
pub open spec fn player_views(m: Map<u8, MetadataPlayer>) -> Map<u8, MetadataPlayerView> {
    m.map_values(|p: MetadataPlayer| p@)
}

impl View for Metadata {
    type V = MetadataView;

    open spec fn view(&self) -> MetadataView {
        MetadataView {
            start_at: opt_chars(self.start_at),
            played_on: self.played_on,
            last_frame: self.last_frame,
            players: player_views(self.players@),
            console_nick: opt_chars(self.console_nick),
            extra: self.extra@,
        }
    }
}

// Reading the raw JSON object.

/// The string under `key`, and `m` without that entry; or nothing, and `m` unchanged, where the
/// value under `key` is missing or not a string.
pub open spec fn take_string_spec(m: Seq<(Seq<char>, JsonView)>, key: Seq<char>) -> (
    Option<Seq<char>>,
    Seq<(Seq<char>, JsonView)>,
) {
    match lookup(m, key) {
        Some(JsonView::Str(s)) => (Some(s), remove_key(m, key)),
        _ => (None, m),
    }
}

/// The integer under `key` where it fits in an `i32`, and `m` without that entry; or nothing,
/// and `m` unchanged.
pub open spec fn take_i32_spec(m: Seq<(Seq<char>, JsonView)>, key: Seq<char>) -> (
    Option<i32>,
    Seq<(Seq<char>, JsonView)>,
) {
    match lookup(m, key) {
        Some(v) => match v.as_i64() {
            Some(i) => if i32::MIN <= i <= i32::MAX {
                (Some(i as i32), remove_key(m, key))
            } else {
                (None, m)
            },
            None => (None, m),
        },
        None => (None, m),
    }
}

/// The platform named under `key`, and `m` without that entry; or nothing, and `m` unchanged.
pub open spec fn take_platform_spec(m: Seq<(Seq<char>, JsonView)>, key: Seq<char>) -> (
    Option<MetadataPlatform>,
    Seq<(Seq<char>, JsonView)>,
) {
    match lookup(m, key) {
        Some(JsonView::Str(s)) => match MetadataPlatform::spec_from_name(s) {
            Some(p) => (Some(p), remove_key(m, key)),
            None => (None, m),
        },
        _ => (None, m),
    }
}

/// What `MetadataNames::from_raw` reads from `raw`.
pub open spec fn names_from_raw(raw: Seq<(Seq<char>, JsonView)>) -> MetadataNamesView {
    let (netplay, e1) = take_string_spec(raw, "netplay"@);
    let (code, e2) = take_string_spec(e1, "code"@);
    MetadataNamesView { netplay, code, extra: e2 }
}

/// The character and frame count an entry of the "characters" object stands for, if it stands
/// for one: its key is a byte in decimal and its value a count that fits in a `u32`.
pub open spec fn character_entry(e: (Seq<char>, JsonView)) -> Option<(u8, u32)> {
    match parse_u8_spec(e.0) {
        Some(c) => match e.1.as_u64() {
            Some(u) => if u <= u32::MAX {
                Some((c, u as u32))
            } else {
                None
            },
            None => None,
        },
        None => None,
    }
}

/// The frame counts read from the first `n` entries of `s`; a later entry for the same
/// character wins.
pub open spec fn characters_upto(s: Seq<(Seq<char>, JsonView)>, n: nat) -> Map<u8, u32>
    decreases n,
{
    if n == 0 || n > s.len() {
        Map::empty()
    } else {
        let m = characters_upto(s, (n - 1) as nat);
        match character_entry(s[n - 1]) {
            Some((c, u)) => m.insert(c, u),
            None => m,
        }
    }
}

/// What is left of `s` once, for each of its first `n` entries that was read, the entry keyed
/// by the character's decimal number is taken out.
pub open spec fn characters_left(s: Seq<(Seq<char>, JsonView)>, n: nat) -> Seq<
    (Seq<char>, JsonView),
>
    decreases n,
{
    if n == 0 || n > s.len() {
        s
    } else {
        let l = characters_left(s, (n - 1) as nat);
        match character_entry(s[n - 1]) {
            Some((c, u)) => remove_key(l, decimal(c as nat)),
            None => l,
        }
    }
}

/// The frame counts read from `raw`, and `raw` with the "characters" entry taken out, or
/// replaced by what was left of it.
pub open spec fn characters_from_raw(raw: Seq<(Seq<char>, JsonView)>) -> (
    Map<u8, u32>,
    Seq<(Seq<char>, JsonView)>,
) {
    match lookup(raw, "characters"@) {
        Some(JsonView::Object(obj)) => {
            let left = characters_left(obj, obj.len());
            (
                characters_upto(obj, obj.len()),
                if left.len() == 0 {
                    remove_key(raw, "characters"@)
                } else {
                    insert_key(raw, "characters"@, JsonView::Object(left))
                },
            )
        },
        _ => (Map::empty(), raw),
    }
}

/// What `MetadataPlayer::from_raw` reads from `raw`.
pub open spec fn player_from_raw(raw: Seq<(Seq<char>, JsonView)>) -> MetadataPlayerView {
    let (characters, e1) = characters_from_raw(raw);
    let names = match lookup(raw, "names"@) {
        Some(JsonView::Object(obj)) => Some(names_from_raw(obj)),
        _ => None,
    };
    MetadataPlayerView {
        characters,
        names,
        extra: if names is Some {
            remove_key(e1, "names"@)
        } else {
            e1
        },
    }
}

/// The player index and JSON object an entry of the "players" object stands for, if it stands
/// for one: its key is a byte in decimal and its value an object.
pub open spec fn player_entry(e: (Seq<char>, JsonView)) -> Option<(u8, Seq<(Seq<char>, JsonView)>)> {
    match parse_u8_spec(e.0) {
        Some(i) => match e.1 {
            JsonView::Object(o) => Some((i, o)),
            _ => None,
        },
        None => None,
    }
}

/// The players read from the first `n` entries of `s`; a later entry for the same index wins.
pub open spec fn players_upto(s: Seq<(Seq<char>, JsonView)>, n: nat) -> Map<
    u8,
    MetadataPlayerView,
>
    decreases n,
{
    if n == 0 || n > s.len() {
        Map::empty()
    } else {
        let m = players_upto(s, (n - 1) as nat);
        match player_entry(s[n - 1]) {
            Some((i, o)) => m.insert(i, player_from_raw(o)),
            None => m,
        }
    }
}

/// What is left of `s` once, for each of its first `n` entries that was read, the entry keyed
/// by the index's decimal number is taken out.
pub open spec fn players_left(s: Seq<(Seq<char>, JsonView)>, n: nat) -> Seq<
    (Seq<char>, JsonView),
>
    decreases n,
{
    if n == 0 || n > s.len() {
        s
    } else {
        let l = players_left(s, (n - 1) as nat);
        match player_entry(s[n - 1]) {
            Some((i, o)) => remove_key(l, decimal(i as nat)),
            None => l,
        }
    }
}

/// What `Metadata::from_raw` reads from `raw`.
pub open spec fn metadata_from_raw(raw: Seq<(Seq<char>, JsonView)>) -> MetadataView {
    let (start_at, e1) = take_string_spec(raw, "startAt"@);
    let (played_on, e2) = take_platform_spec(e1, "playedOn"@);
    let (last_frame, e3) = take_i32_spec(e2, "lastFrame"@);
    let (console_nick, e4) = take_string_spec(e3, "consoleNick"@);
    let (players, e5) = match lookup(raw, "players"@) {
        Some(JsonView::Object(obj)) => {
            let left = players_left(obj, obj.len());
            (
                players_upto(obj, obj.len()),
                if left.len() == 0 {
                    remove_key(e4, "players"@)
                } else {
                    insert_key(e4, "players"@, JsonView::Object(left))
                },
            )
        },
        _ => (Map::empty(), e4),
    };
    MetadataView { start_at, played_on, last_frame, players, console_nick, extra: e5 }
}

fn take_string(extra: &mut JsonMap, key: &str) -> (r: Option<String>)
    ensures
        (opt_chars(r), final(extra)@) == take_string_spec(old(extra)@, key@),
{
    let found = match extra.get(key) {
        Some(v) => match v.as_str() {
            Some(s) => Some(s.clone()),
            None => None,
        },
        None => None,
    };
    if found.is_some() {
        extra.remove(key);
    }
    found
}

fn take_i32(extra: &mut JsonMap, key: &str) -> (r: Option<i32>)
    ensures
        (r, final(extra)@) == take_i32_spec(old(extra)@, key@),
{
    let found = match extra.get(key) {
        Some(v) => match v.as_i64() {
            Some(i) => match i32::try_from(i) {
                Ok(x) => Some(x),
                Err(_) => None,
            },
            None => None,
        },
        None => None,
    };
    if found.is_some() {
        extra.remove(key);
    }
    found
}

fn take_platform(extra: &mut JsonMap, key: &str) -> (r: Option<MetadataPlatform>)
    ensures
        (r, final(extra)@) == take_platform_spec(old(extra)@, key@),
{
    proof {
        reveal_strlit("dolphin");
        reveal_strlit("network");
        reveal_strlit("nintendont");
    }
    let found = match extra.get(key) {
        Some(v) => match v.as_str() {
            Some(s) => if str_eq(s.as_str(), "dolphin") {
                Some(MetadataPlatform::Dolphin)
            } else if str_eq(s.as_str(), "network") {
                Some(MetadataPlatform::Network)
            } else if str_eq(s.as_str(), "nintendont") {
                Some(MetadataPlatform::Nintendont)
            } else {
                None
            },
            None => None,
        },
        None => None,
    };
    if found.is_some() {
        extra.remove(key);
    }
    found
}

impl MetadataNames {
    /// Reads the netplay name and connect code out of a player's "names" object, where they
    /// are strings; every other entry is kept in `extra`.
    pub fn from_raw(raw: &JsonMap) -> (r: Self)
        ensures
            r@ == names_from_raw(raw@),
    {
        let mut extra = raw.clone_map();
        let netplay = take_string(&mut extra, "netplay");
        let code = take_string(&mut extra, "code");
        MetadataNames { netplay, code, extra }
    }
}

impl MetadataPlayer {
    /// Reads a player's JSON object: the "characters" object, whose entries keyed by a byte in
    /// decimal with a count that fits in a `u32` become frame counts (the rest of it, if any,
    /// stays in `extra`), and the "names" object, where it is one; every other entry is kept
    /// in `extra`.
    pub fn from_raw(raw: &JsonMap) -> (r: Self)
        ensures
            r@ == player_from_raw(raw@),
    {
        let mut extra = raw.clone_map();
        let mut characters: BTreeMap<u8, u32> = BTreeMap::new();
        let ghost e1 = characters_from_raw(raw@).1;
        match raw.get("characters") {
            Some(v) => match v.as_object() {
                Some(raw_characters) => {
                    let ghost obj = raw_characters@;
                    let mut characters_extra = raw_characters.clone_map();
                    let n = raw_characters.len();
                    let mut i: usize = 0;
                    while i < n
                        invariant
                            i <= n,
                            n == obj.len(),
                            obj == raw_characters@,
                            characters@ == characters_upto(obj, i as nat),
                            characters_extra@ == characters_left(obj, i as nat),
                        decreases n - i,
                    {
                        let key = raw_characters.key_at(i);
                        let value = raw_characters.value_at(i);
                        match parse_u8(key.as_str()) {
                            Some(c) => match value.as_u64() {
                                Some(u) => match u32::try_from(u) {
                                    Ok(count) => {
                                        characters.insert(c, count);
                                        let name = format_decimal(c as u64);
                                        characters_extra.remove(name.as_str());
                                    },
                                    Err(_) => {},
                                },
                                None => {},
                            },
                            None => {},
                        }
                        i = i + 1;
                    }
                    if characters_extra.is_empty() {
                        extra.remove("characters");
                    } else {
                        extra.insert(String::from_str("characters"), JsonValue::Object(characters_extra));
                    }
                },
                None => {},
            },
            None => {},
        }
        assert(extra@ == e1);
        let names = match raw.get("names") {
            Some(v) => match v.as_object() {
                Some(obj) => Some(MetadataNames::from_raw(obj)),
                None => None,
            },
            None => None,
        };
        if names.is_some() {
            extra.remove("names");
        }
        MetadataPlayer { characters, names, extra }
    }
}

impl Metadata {
    /// Reads the metadata block from its JSON object: "startAt" and "consoleNick" where they
    /// are strings, "playedOn" where it names a platform, "lastFrame" where it is an integer
    /// that fits in an `i32`, and from the "players" object each entry keyed by a byte in
    /// decimal whose value is an object (the rest of it, if any, stays in `extra`). Every
    /// other entry is kept in `extra`.
    pub fn from_raw(raw: &JsonMap) -> (r: Self)
        ensures
            r@ == metadata_from_raw(raw@),
    {
        let mut extra = raw.clone_map();
        let start_at = take_string(&mut extra, "startAt");
        let played_on = take_platform(&mut extra, "playedOn");
        let last_frame = take_i32(&mut extra, "lastFrame");
        let console_nick = take_string(&mut extra, "consoleNick");
        let mut players: BTreeMap<u8, MetadataPlayer> = BTreeMap::new();
        match raw.get("players") {
            Some(v) => match v.as_object() {
                Some(raw_players) => {
                    let ghost obj = raw_players@;
                    let mut players_extra = raw_players.clone_map();
                    let n = raw_players.len();
                    let mut i: usize = 0;
                    while i < n
                        invariant
                            i <= n,
                            n == obj.len(),
                            obj == raw_players@,
                            player_views(players@) == players_upto(obj, i as nat),
                            players_extra@ == players_left(obj, i as nat),
                        decreases n - i,
                    {
                        let key = raw_players.key_at(i);
                        let value = raw_players.value_at(i);
                        match parse_u8(key.as_str()) {
                            Some(index) => match value.as_object() {
                                Some(player_obj) => {
                                    let player = MetadataPlayer::from_raw(player_obj);
                                    let ghost before = players@;
                                    players.insert(index, player);
                                    proof {
                                        assert(player_views(players@) =~= player_views(before).insert(index, player@));
                                    }
                                    let name = format_decimal(index as u64);
                                    players_extra.remove(name.as_str());
                                },
                                None => {},
                            },
                            None => {},
                        }
                        i = i + 1;
                    }
                    if players_extra.is_empty() {
                        extra.remove("players");
                    } else {
                        extra.insert(String::from_str("players"), JsonValue::Object(players_extra));
                    }
                },
                None => {},
            },
            None => {},
        }
        proof {
            if !(lookup(raw@, "players"@) matches Some(JsonView::Object(_))) {
                assert(player_views(players@) =~= Map::empty());
            }
        }
        Metadata { start_at, played_on, last_frame, players, console_nick, extra }
    }

    /// Whether no field is set, no player is present, and no other entry is kept.
    pub fn is_empty(&self) -> (r: bool)
        ensures
            r == (self@.start_at is None && self@.played_on is None && self@.last_frame is None
                && self@.players.is_empty() && self@.console_nick is None && self@.extra.len()
                == 0),
    {
        proof {
            if self.players@.is_empty() {
                assert(player_views(self.players@) =~= Map::empty());
            }
            if player_views(self.players@).is_empty() {
                assert(self.players@ =~= Map::empty()) by {
                    assert forall|k: u8| !self.players@.contains_key(k) by {
                        if self.players@.contains_key(k) {
                            assert(player_views(self.players@).contains_key(k));
                        }
                    }
                }
            }
        }
        self.start_at.is_none() && self.played_on.is_none() && self.last_frame.is_none()
            && self.players.is_empty() && self.console_nick.is_none() && self.extra.is_empty()
    }
}

// Writing the raw JSON object, as serde writes the metadata with its field names and
// attributes: absent options and empty maps are left out, and the entries of `extra` are
// written last, over any entry of the same key.

/// The bytes below `k`.
pub open spec fn below(k: int) -> Set<u8> {
    Set::new(|c: u8| (c as int) < k)
}

/// The "characters" object written for the frame counts `chars`: each character's decimal
/// number keys its count.
pub open spec fn characters_json(chars: Map<u8, u32>) -> Map<Seq<char>, JsonView> {
    Map::new(
        |k: Seq<char>| exists|c: u8| chars.contains_key(c) && k == decimal(c as nat),
        |k: Seq<char>|
            match parse_u8_spec(k) {
                Some(c) => JsonView::Number(JsonNumber::PosInt(chars[c] as u64)),
                None => JsonView::Null,
            },
    )
}

/// The entries written for a player's names.
pub open spec fn names_json(n: MetadataNamesView) -> Map<Seq<char>, JsonView> {
    let m0 = Map::<Seq<char>, JsonView>::empty();
    let m1 = match n.netplay {
        Some(s) => m0.insert("netplay"@, JsonView::Str(s)),
        None => m0,
    };
    let m2 = match n.code {
        Some(s) => m1.insert("code"@, JsonView::Str(s)),
        None => m1,
    };
    m2.union_prefer_right(map_of(n.extra))
}

/// The entries written for a player.
pub open spec fn player_json(p: MetadataPlayerView) -> Map<Seq<char>, JsonView> {
    let m0 = Map::<Seq<char>, JsonView>::empty();
    let m1 = if p.characters.is_empty() {
        m0
    } else {
        m0.insert("characters"@, JsonView::Object(obj_of_map(characters_json(p.characters))))
    };
    let m2 = match p.names {
        Some(n) => m1.insert("names"@, JsonView::Object(obj_of_map(names_json(n)))),
        None => m1,
    };
    m2.union_prefer_right(map_of(p.extra))
}

/// The "players" object written for `ps`: each player's index in decimal keys their object.
pub open spec fn players_json(ps: Map<u8, MetadataPlayerView>) -> Map<Seq<char>, JsonView> {
    Map::new(
        |k: Seq<char>| exists|i: u8| ps.contains_key(i) && k == decimal(i as nat),
        |k: Seq<char>|
            match parse_u8_spec(k) {
                Some(i) => JsonView::Object(obj_of_map(player_json(ps[i]))),
                None => JsonView::Null,
            },
    )
}

/// The entries `Metadata::to_raw` writes for `v`.
pub open spec fn metadata_json(v: MetadataView) -> Map<Seq<char>, JsonView> {
    let m0 = Map::<Seq<char>, JsonView>::empty();
    let m1 = match v.start_at {
        Some(s) => m0.insert("startAt"@, JsonView::Str(s)),
        None => m0,
    };
    let m2 = match v.played_on {
        Some(p) => m1.insert("playedOn"@, JsonView::Str(p.spec_name())),
        None => m1,
    };
    let m3 = match v.last_frame {
        Some(f) => m2.insert("lastFrame"@, JsonView::Number(JsonNumber::spec_from_i64(f as i64))),
        None => m2,
    };
    let m4 = if v.players.is_empty() {
        m3
    } else {
        m3.insert("players"@, JsonView::Object(obj_of_map(players_json(v.players))))
    };
    let m5 = match v.console_nick {
        Some(s) => m4.insert("consoleNick"@, JsonView::Str(s)),
        None => m4,
    };
    m5.union_prefer_right(map_of(v.extra))
}


/// The "characters" object for the counts below `c + 1` adds the entry for `c`, if any, to
/// that for the counts below `c`.
proof fn lemma_characters_json_step(chars: Map<u8, u32>, c: u8)
    ensures
        characters_json(chars.restrict(below(c + 1))) == (if chars.contains_key(c) {
            characters_json(chars.restrict(below(c as int))).insert(
                decimal(c as nat),
                JsonView::Number(JsonNumber::PosInt(chars[c] as u64)),
            )
        } else {
            characters_json(chars.restrict(below(c as int)))
        }),
{
    let now = characters_json(chars.restrict(below(c + 1)));
    let prev = characters_json(chars.restrict(below(c as int)));
    lemma_parse_decimal(c);
    assert forall|key: Seq<char>| #[trigger] now.contains_key(key) == (prev.contains_key(key) || (
    chars.contains_key(c) && key == decimal(c as nat))) by {
        if now.contains_key(key) {
            let d = choose|d: u8|
                chars.restrict(below(c + 1)).contains_key(d) && key == decimal(d as nat);
            if d != c {
                assert(chars.restrict(below(c as int)).contains_key(d));
            }
        }
        if prev.contains_key(key) {
            let d = choose|d: u8|
                chars.restrict(below(c as int)).contains_key(d) && key == decimal(d as nat);
            assert(chars.restrict(below(c + 1)).contains_key(d));
        }
        if chars.contains_key(c) && key == decimal(c as nat) {
            assert(chars.restrict(below(c + 1)).contains_key(c));
        }
    }
    assert forall|key: Seq<char>| #[trigger] now.contains_key(key) implies now[key] == (
    if chars.contains_key(c) && key == decimal(c as nat) {
        JsonView::Number(JsonNumber::PosInt(chars[c] as u64))
    } else {
        prev[key]
    }) by {
        let d = choose|d: u8|
            chars.restrict(below(c + 1)).contains_key(d) && key == decimal(d as nat);
        lemma_parse_decimal(d);
    }
    if chars.contains_key(c) {
        assert(now =~= prev.insert(
            decimal(c as nat),
            JsonView::Number(JsonNumber::PosInt(chars[c] as u64)),
        ));
    } else {
        assert(now =~= prev);
    }
}

/// The "players" object for the players below `i + 1` adds the entry for `i`, if any, to that
/// for the players below `i`.
proof fn lemma_players_json_step(ps: Map<u8, MetadataPlayerView>, i: u8)
    ensures
        players_json(ps.restrict(below(i + 1))) == (if ps.contains_key(i) {
            players_json(ps.restrict(below(i as int))).insert(
                decimal(i as nat),
                JsonView::Object(obj_of_map(player_json(ps[i]))),
            )
        } else {
            players_json(ps.restrict(below(i as int)))
        }),
{
    let now = players_json(ps.restrict(below(i + 1)));
    let prev = players_json(ps.restrict(below(i as int)));
    lemma_parse_decimal(i);
    assert forall|key: Seq<char>| #[trigger] now.contains_key(key) == (prev.contains_key(key) || (
    ps.contains_key(i) && key == decimal(i as nat))) by {
        if now.contains_key(key) {
            let d = choose|d: u8|
                ps.restrict(below(i + 1)).contains_key(d) && key == decimal(d as nat);
            if d != i {
                assert(ps.restrict(below(i as int)).contains_key(d));
            }
        }
        if prev.contains_key(key) {
            let d = choose|d: u8|
                ps.restrict(below(i as int)).contains_key(d) && key == decimal(d as nat);
            assert(ps.restrict(below(i + 1)).contains_key(d));
        }
        if ps.contains_key(i) && key == decimal(i as nat) {
            assert(ps.restrict(below(i + 1)).contains_key(i));
        }
    }
    assert forall|key: Seq<char>| #[trigger] now.contains_key(key) implies now[key] == (
    if ps.contains_key(i) && key == decimal(i as nat) {
        JsonView::Object(obj_of_map(player_json(ps[i])))
    } else {
        prev[key]
    }) by {
        let d = choose|d: u8| ps.restrict(below(i + 1)).contains_key(d) && key == decimal(d as nat);
        lemma_parse_decimal(d);
    }
    if ps.contains_key(i) {
        assert(now =~= prev.insert(decimal(i as nat), JsonView::Object(obj_of_map(player_json(ps[i])))));
    } else {
        assert(now =~= prev);
    }
}

/// Writes every entry of `extra` into `m`, over any entry of the same key.
fn write_extra(m: &mut JsonMap, extra: &JsonMap)
    ensures
        map_of(final(m)@) == map_of(old(m)@).union_prefer_right(map_of(extra@)),
{
    proof {
        use_type_invariant(&*m);
        use_type_invariant(extra);
    }
    let ghost base = map_of(m@);
    let n = extra.len();
    let mut i: usize = 0;
    assert(map_of(extra@.take(0)) =~= Map::empty());
    assert(base.union_prefer_right(Map::empty()) =~= base);
    while i < n
        invariant
            i <= n,
            n == extra@.len(),
            keys_sorted(extra@),
            keys_sorted(m@),
            map_of(m@) == base.union_prefer_right(map_of(extra@.take(i as int))),
        decreases n - i,
    {
        proof {
            lemma_map_of_push(extra@, i as int);
            lemma_insert_key(m@, extra@[i as int].0, extra@[i as int].1);
        }
        let k = extra.key_at(i).clone();
        let v = extra.value_at(i).clone_value();
        m.insert(k, v);
        proof {
            use_type_invariant(&*m);
            assert(map_of(m@) =~= base.union_prefer_right(map_of(extra@.take(i + 1))));
        }
        i = i + 1;
    }
    assert(extra@.take(n as int) =~= extra@);
}

/// The object written for the frame counts `chars`.
fn characters_to_json(chars: &BTreeMap<u8, u32>) -> (r: JsonMap)
    ensures
        r@ == obj_of_map(characters_json(chars@)),
{
    let mut m = JsonMap::new();
    let mut k: u16 = 0;
    assert(map_of(m@) =~= characters_json(chars@.restrict(below(0))));
    while k < 256
        invariant
            k <= 256,
            map_of(m@) == characters_json(chars@.restrict(below(k as int))),
        decreases 256 - k,
    {
        let c = k as u8;
        let ghost before = map_of(m@);
        match chars.get(&c) {
            Some(count) => {
                let key = format_decimal(c as u64);
                proof {
                    use_type_invariant(&m);
                    lemma_insert_key(m@, key@, JsonView::Number(JsonNumber::PosInt(*count as u64)));
                }
                m.insert(key, JsonValue::Number(JsonNumber::PosInt(*count as u64)));
            },
            None => {},
        }
        proof {
            lemma_characters_json_step(chars@, c);
        }
        k = k + 1;
    }
    proof {
        use_type_invariant(&m);
        assert(chars@.restrict(below(256)) =~= chars@);
        lemma_obj_of_map_of(m@);
    }
    m
}

impl MetadataNames {
    /// The object written for these names.
    fn to_json(&self) -> (r: JsonMap)
        ensures
            r@ == obj_of_map(names_json(self@)),
    {
        let mut m = JsonMap::new();
        let ghost m0 = Map::<Seq<char>, JsonView>::empty();
        assert(map_of(m@) =~= m0);
        match &self.netplay {
            Some(s) => {
                proof {
                    use_type_invariant(&m);
                    lemma_insert_key(m@, "netplay"@, JsonView::Str(s@));
                }
                m.insert(String::from_str("netplay"), JsonValue::String(s.clone()));
            },
            None => {},
        }
        match &self.code {
            Some(s) => {
                proof {
                    use_type_invariant(&m);
                    lemma_insert_key(m@, "code"@, JsonView::Str(s@));
                }
                m.insert(String::from_str("code"), JsonValue::String(s.clone()));
            },
            None => {},
        }
        write_extra(&mut m, &self.extra);
        proof {
            use_type_invariant(&m);
            assert(map_of(m@) =~= names_json(self@));
            lemma_obj_of_map_of(m@);
        }
        m
    }
}

impl MetadataPlayer {
    /// The object written for this player.
    fn to_json(&self) -> (r: JsonMap)
        ensures
            r@ == obj_of_map(player_json(self@)),
    {
        let mut m = JsonMap::new();
        assert(map_of(m@) =~= Map::<Seq<char>, JsonView>::empty());
        if !self.characters.is_empty() {
            let c = characters_to_json(&self.characters);
            proof {
                use_type_invariant(&m);
                lemma_insert_key(m@, "characters"@, JsonView::Object(c@));
            }
            m.insert(String::from_str("characters"), JsonValue::Object(c));
        }
        match &self.names {
            Some(n) => {
                let o = n.to_json();
                proof {
                    use_type_invariant(&m);
                    lemma_insert_key(m@, "names"@, JsonView::Object(o@));
                }
                m.insert(String::from_str("names"), JsonValue::Object(o));
            },
            None => {},
        }
        write_extra(&mut m, &self.extra);
        proof {
            use_type_invariant(&m);
            assert(map_of(m@) =~= player_json(self@));
            lemma_obj_of_map_of(m@);
        }
        m
    }
}

/// The "players" object written for `players`.
fn players_to_json(players: &BTreeMap<u8, MetadataPlayer>) -> (r: JsonMap)
    ensures
        r@ == obj_of_map(players_json(player_views(players@))),
{
    let ghost ps = player_views(players@);
    let mut m = JsonMap::new();
    let mut k: u16 = 0;
    assert(map_of(m@) =~= players_json(ps.restrict(below(0))));
    while k < 256
        invariant
            k <= 256,
            ps == player_views(players@),
            map_of(m@) == players_json(ps.restrict(below(k as int))),
        decreases 256 - k,
    {
        let i = k as u8;
        match players.get(&i) {
            Some(p) => {
                let key = format_decimal(i as u64);
                let o = p.to_json();
                proof {
                    use_type_invariant(&m);
                    lemma_insert_key(m@, key@, JsonView::Object(o@));
                }
                m.insert(key, JsonValue::Object(o));
            },
            None => {},
        }
        proof {
            lemma_players_json_step(ps, i);
        }
        k = k + 1;
    }
    proof {
        use_type_invariant(&m);
        assert(ps.restrict(below(256)) =~= ps);
        lemma_obj_of_map_of(m@);
    }
    m
}

impl Metadata {
    /// Writes the metadata block as its JSON object, as serde writes it: "startAt",
    /// "playedOn", "lastFrame" and "consoleNick" where set, "players" where there is a player
    /// (each keyed by its index in decimal, with "characters" where there is a count, "names"
    /// where set, and its other entries), and last every entry of `extra`, over any entry of
    /// the same key.
    pub fn to_raw(&self) -> (r: JsonMap)
        ensures
            r@ == obj_of_map(metadata_json(self@)),
    {
        let mut m = JsonMap::new();
        assert(map_of(m@) =~= Map::<Seq<char>, JsonView>::empty());
        match &self.start_at {
            Some(s) => {
                proof {
                    use_type_invariant(&m);
                    lemma_insert_key(m@, "startAt"@, JsonView::Str(s@));
                }
                m.insert(String::from_str("startAt"), JsonValue::String(s.clone()));
            },
            None => {},
        }
        match self.played_on {
            Some(p) => {
                let name = String::from_str(p.name());
                proof {
                    use_type_invariant(&m);
                    lemma_insert_key(m@, "playedOn"@, JsonView::Str(name@));
                }
                m.insert(String::from_str("playedOn"), JsonValue::String(name));
            },
            None => {},
        }
        match self.last_frame {
            Some(f) => {
                let n = JsonNumber::from_i64(f as i64);
                proof {
                    use_type_invariant(&m);
                    lemma_insert_key(m@, "lastFrame"@, JsonView::Number(n));
                }
                m.insert(String::from_str("lastFrame"), JsonValue::Number(n));
            },
            None => {},
        }
        proof {
            if self.players@.is_empty() {
                assert(player_views(self.players@) =~= Map::empty());
            } else {
                let k = choose|k: u8| self.players@.contains_key(k);
                assert(player_views(self.players@).contains_key(k));
            }
        }
        if !self.players.is_empty() {
            let o = players_to_json(&self.players);
            proof {
                use_type_invariant(&m);
                lemma_insert_key(m@, "players"@, JsonView::Object(o@));
            }
            m.insert(String::from_str("players"), JsonValue::Object(o));
        }
        match &self.console_nick {
            Some(s) => {
                proof {
                    use_type_invariant(&m);
                    lemma_insert_key(m@, "consoleNick"@, JsonView::Str(s@));
                }
                m.insert(String::from_str("consoleNick"), JsonValue::String(s.clone()));
            },
            None => {},
        }
        write_extra(&mut m, &self.extra);
        proof {
            use_type_invariant(&m);
            assert(map_of(m@) =~= metadata_json(self@));
            lemma_obj_of_map_of(m@);
        }
        m
    }
}

} // verus!
