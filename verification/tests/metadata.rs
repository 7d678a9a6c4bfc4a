use peppi::game::{Metadata, MetadataNames, MetadataPlatform, MetadataPlayer};
use peppi::json::{JsonMap, JsonNumber, JsonValue};
use std::collections::BTreeMap;

fn s(x: &str) -> JsonValue {
    JsonValue::String(x.to_string())
}

fn n(x: u64) -> JsonValue {
    JsonValue::Number(JsonNumber::PosInt(x))
}

fn obj(entries: Vec<(&str, JsonValue)>) -> JsonMap {
    let mut m = JsonMap::new();
    for (k, v) in entries {
        m.insert(k.to_string(), v);
    }
    m
}

fn sample_raw() -> JsonMap {
    obj(vec![
        ("startAt", s("2021-01-01T00:00:00Z")),
        ("lastFrame", JsonValue::Number(JsonNumber::NegInt(-100))),
        ("playedOn", s("dolphin")),
        ("consoleNick", s("Nick")),
        (
            "players",
            JsonValue::Object(obj(vec![
                (
                    "0",
                    JsonValue::Object(obj(vec![
                        ("characters", JsonValue::Object(obj(vec![("9", n(1234))]))),
                        (
                            "names",
                            JsonValue::Object(obj(vec![
                                ("netplay", s("Player")),
                                ("code", s("PLYR#123")),
                            ])),
                        ),
                    ])),
                ),
                ("1", JsonValue::Object(obj(vec![]))),
            ])),
        ),
        ("something", JsonValue::Bool(true)),
    ])
}

#[test]
fn metadata_from_raw_reads_fields() {
    let m = Metadata::from_raw(&sample_raw());
    assert_eq!(m.start_at, Some("2021-01-01T00:00:00Z".to_string()));
    assert_eq!(m.played_on, Some(MetadataPlatform::Dolphin));
    assert_eq!(m.last_frame, Some(-100));
    assert_eq!(m.console_nick, Some("Nick".to_string()));
    assert_eq!(m.players.len(), 2);
    let p0 = &m.players[&0];
    assert_eq!(p0.characters, BTreeMap::from([(9u8, 1234u32)]));
    let names = p0.names.as_ref().unwrap();
    assert_eq!(names.netplay, Some("Player".to_string()));
    assert_eq!(names.code, Some("PLYR#123".to_string()));
    assert!(names.extra.is_empty());
    assert!(p0.extra.is_empty());
    assert_eq!(m.players[&1].names, None);
    assert_eq!(m.extra, obj(vec![("something", JsonValue::Bool(true))]));
    assert!(!m.is_empty());
}

#[test]
fn metadata_to_raw_gives_back_raw() {
    let raw = sample_raw();
    assert_eq!(Metadata::from_raw(&raw).to_raw(), raw);
}

#[test]
fn metadata_round_trip() {
    let m = Metadata::from_raw(&sample_raw());
    assert_eq!(Metadata::from_raw(&m.to_raw()), m);
}

#[test]
fn metadata_fields_of_wrong_kind_stay_extra() {
    let raw = obj(vec![
        ("startAt", n(5)),
        ("playedOn", s("DOLPHIN")),
        ("lastFrame", n(1 << 40)),
        ("consoleNick", JsonValue::Null),
        ("players", JsonValue::Array(vec![])),
    ]);
    let m = Metadata::from_raw(&raw);
    assert_eq!(m.start_at, None);
    assert_eq!(m.played_on, None);
    assert_eq!(m.last_frame, None);
    assert_eq!(m.console_nick, None);
    assert!(m.players.is_empty());
    assert_eq!(m.extra, raw);
}

#[test]
fn metadata_players_partly_read() {
    let raw = obj(vec![(
        "players",
        JsonValue::Object(obj(vec![
            ("2", JsonValue::Object(obj(vec![]))),
            ("x", n(1)),
            ("3", n(4)),
        ])),
    )]);
    let m = Metadata::from_raw(&raw);
    assert_eq!(m.players.keys().copied().collect::<Vec<u8>>(), vec![2]);
    assert_eq!(
        m.extra,
        obj(vec![("players", JsonValue::Object(obj(vec![("x", n(1)), ("3", n(4))])))])
    );
}

#[test]
fn metadata_platform_names() {
    for (name, p) in [
        ("dolphin", MetadataPlatform::Dolphin),
        ("network", MetadataPlatform::Network),
        ("nintendont", MetadataPlatform::Nintendont),
    ] {
        assert_eq!(p.name(), name);
        let m = Metadata::from_raw(&obj(vec![("playedOn", s(name))]));
        assert_eq!(m.played_on, Some(p));
        assert!(m.extra.is_empty());
    }
}

#[test]
fn empty_metadata() {
    let m = Metadata::from_raw(&JsonMap::new());
    assert!(m.is_empty());
    assert!(m.to_raw().is_empty());
}

#[test]
fn player_characters_keys_and_counts() {
    let raw = obj(vec![(
        "characters",
        JsonValue::Object(obj(vec![
            ("1", n(10)),
            ("01", n(20)),
            ("+2", n(30)),
            ("3", JsonValue::Number(JsonNumber::NegInt(-1))),
            ("4", n(1 << 33)),
            ("300", n(1)),
        ])),
    )]);
    let p = MetadataPlayer::from_raw(&raw);
    // sorted keys: "+2", "01", "1", "3", "300", "4": "1" comes after "01" and wins
    assert_eq!(p.characters, BTreeMap::from([(1u8, 10u32), (2u8, 30u32)]));
    // "1" and "2" were taken out; "01" and "+2" stay, their canonical names having been removed
    assert_eq!(
        p.extra,
        obj(vec![(
            "characters",
            JsonValue::Object(obj(vec![
                ("+2", n(30)),
                ("01", n(20)),
                ("3", JsonValue::Number(JsonNumber::NegInt(-1))),
                ("4", n(1 << 33)),
                ("300", n(1)),
            ])),
        )])
    );
}

#[test]
fn player_characters_fully_read() {
    let raw = obj(vec![
        ("characters", JsonValue::Object(obj(vec![("20", n(100)), ("2", n(5))]))),
        ("other", s("kept")),
    ]);
    let p = MetadataPlayer::from_raw(&raw);
    assert_eq!(p.characters, BTreeMap::from([(2u8, 5u32), (20u8, 100u32)]));
    assert_eq!(p.names, None);
    assert_eq!(p.extra, obj(vec![("other", s("kept"))]));
}

#[test]
fn names_from_raw_reads_strings() {
    let raw = obj(vec![("netplay", s("A")), ("code", n(3)), ("x", JsonValue::Null)]);
    let names = MetadataNames::from_raw(&raw);
    assert_eq!(names.netplay, Some("A".to_string()));
    assert_eq!(names.code, None);
    assert_eq!(names.extra, obj(vec![("code", n(3)), ("x", JsonValue::Null)]));
}

#[test]
fn metadata_to_raw_writes_extra_last() {
    let m = Metadata {
        start_at: Some("t".to_string()),
        played_on: Some(MetadataPlatform::Network),
        last_frame: Some(7),
        players: BTreeMap::new(),
        console_nick: None,
        extra: obj(vec![("startAt", n(1))]),
    };
    assert_eq!(
        m.to_raw(),
        obj(vec![("startAt", n(1)), ("playedOn", s("network")), ("lastFrame", n(7))])
    );
}

#[test]
fn metadata_raw_round_trip_with_extra_entries() {
    let raw = obj(vec![
        ("lastFrame", n(5)),
        ("playedOn", s("nintendont")),
        (
            "players",
            JsonValue::Object(obj(vec![(
                "3",
                JsonValue::Object(obj(vec![
                    ("characters", JsonValue::Object(obj(vec![("01", n(9))]))),
                    ("names", JsonValue::Object(obj(vec![("netplay", n(1)), ("other", s("x"))]))),
                    ("custom", JsonValue::Array(vec![n(1), s("y")])),
                ])),
            )])),
        ),
        ("zzz", JsonValue::Number(JsonNumber::Float(2.5f64.to_bits()))),
    ]);
    let m = Metadata::from_raw(&raw);
    assert_eq!(m.players[&3].characters, BTreeMap::from([(1u8, 9u32)]));
    assert_eq!(m.to_raw(), raw);
}

#[test]
fn metadata_empty_players_object_is_not_written_back() {
    let raw = obj(vec![("players", JsonValue::Object(JsonMap::new()))]);
    let m = Metadata::from_raw(&raw);
    assert!(m.is_empty());
    assert_eq!(m.to_raw(), JsonMap::new());
}

#[test]
fn metadata_default_is_empty() {
    let m = Metadata::default();
    assert!(m.is_empty());
    assert_eq!(m.to_raw(), JsonMap::new());
    assert_eq!(Metadata::from_raw(&m.to_raw()), m);
}

#[test]
fn metadata_built_round_trip() {
    let mut players = BTreeMap::new();
    players.insert(
        200u8,
        MetadataPlayer {
            characters: BTreeMap::from([(0u8, 1u32), (255u8, u32::MAX)]),
            names: Some(MetadataNames {
                netplay: None,
                code: Some("AB#1".to_string()),
                extra: obj(vec![("flag", JsonValue::Bool(false))]),
            }),
            extra: obj(vec![("kept", n(2))]),
        },
    );
    let m = Metadata {
        start_at: None,
        played_on: Some(MetadataPlatform::Dolphin),
        last_frame: Some(i32::MIN),
        players,
        console_nick: Some("c".to_string()),
        extra: obj(vec![("other", JsonValue::Null)]),
    };
    let raw = m.to_raw();
    assert_eq!(raw.get("lastFrame"), Some(&JsonValue::Number(JsonNumber::NegInt(i32::MIN as i64))));
    assert_eq!(Metadata::from_raw(&raw), m);
}
