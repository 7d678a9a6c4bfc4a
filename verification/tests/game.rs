use peppi::frame::PortOccupancy;
use peppi::game::bytes::Bytes;
use peppi::game::{
    port_occupancy, DashBack, End, EndMethod, Language, Player, PlayerType, Port, ShieldDrop,
    Start, TryFromPrimitiveError, ICE_CLIMBERS,
};
use peppi::io::slippi::{Slippi, Version};

#[test]
fn port_parse_accepts_names() {
    assert_eq!(Port::parse("P1"), Ok(Port::P1));
    assert_eq!(Port::parse("P2"), Ok(Port::P2));
    assert_eq!(Port::parse("P3"), Ok(Port::P3));
    assert_eq!(Port::parse("P4"), Ok(Port::P4));
}

#[test]
fn port_parse_refuses_others() {
    assert_eq!(Port::parse("P5"), Err("invalid port: P5".to_string()));
    assert_eq!(Port::parse("p1"), Err("invalid port: p1".to_string()));
    assert_eq!(Port::parse(""), Err("invalid port: ".to_string()));
    assert_eq!(Port::parse("P1 "), Err("invalid port: P1 ".to_string()));
}

#[test]
fn port_name_round_trip() {
    for p in [Port::P1, Port::P2, Port::P3, Port::P4] {
        assert_eq!(Port::parse(&p.to_string()), Ok(p));
    }
    assert_eq!(Port::P3.to_string(), "P3");
}

#[test]
fn port_default_is_p1() {
    assert_eq!(Port::default(), Port::P1);
}

#[test]
fn port_numbers() {
    assert_eq!(u8::from(Port::P1), 0);
    assert_eq!(u8::from(Port::P4), 3);
    assert_eq!(Port::try_from(2u8), Ok(Port::P3));
    assert_eq!(Port::try_from(4u8), Err(TryFromPrimitiveError { number: 4u8 }));
    for p in [Port::P1, Port::P2, Port::P3, Port::P4] {
        assert_eq!(Port::try_from(u8::from(p)), Ok(p));
    }
}

#[test]
fn port_order() {
    assert!(Port::P1 < Port::P2);
    assert!(Port::P4 > Port::P3);
}

#[test]
fn enum_numbers() {
    assert_eq!(PlayerType::try_from(1u8), Ok(PlayerType::Cpu));
    assert_eq!(PlayerType::try_from(3u8), Err(TryFromPrimitiveError { number: 3u8 }));
    assert_eq!(DashBack::try_from(2u32), Ok(DashBack::Arduino));
    assert_eq!(DashBack::try_from(0u32), Err(TryFromPrimitiveError { number: 0u32 }));
    assert_eq!(ShieldDrop::try_from(1u32), Ok(ShieldDrop::Ucf));
    assert_eq!(Language::try_from(0u8), Ok(Language::Japanese));
    assert_eq!(Language::try_from(2u8), Err(TryFromPrimitiveError { number: 2u8 }));
    assert_eq!(EndMethod::try_from(7u8), Ok(EndMethod::NoContest));
    assert_eq!(EndMethod::try_from(3u8), Ok(EndMethod::Resolved));
    assert_eq!(EndMethod::try_from(4u8), Err(TryFromPrimitiveError { number: 4u8 }));
}

#[test]
fn end_size_by_version() {
    assert_eq!(End::size(Version(3, 13, 0)), 6);
    assert_eq!(End::size(Version(3, 16, 0)), 6);
    assert_eq!(End::size(Version(4, 0, 0)), 6);
    assert_eq!(End::size(Version(3, 12, 9)), 2);
    assert_eq!(End::size(Version(2, 0, 0)), 2);
    assert_eq!(End::size(Version(1, 14, 0)), 1);
    assert_eq!(End::size(Version(0, 1, 0)), 1);
}

#[test]
fn version_gte() {
    assert!(Version(3, 13, 0).gte(3, 13));
    assert!(Version(3, 13, 0).gte(2, 200));
    assert!(!Version(3, 12, 5).gte(3, 13));
    assert!(!Version(2, 99, 0).gte(3, 0));
}

fn player(port: Port, character: u8) -> Player {
    Player {
        port,
        character,
        player_type: PlayerType::Human,
        stocks: 4,
        costume: 0,
        team: None,
        handicap: 9,
        bitfield: 192,
        cpu_level: None,
        damage_start: 0,
        damage_spawn: 0,
        offense_ratio: 1.0f32.to_bits(),
        defense_ratio: 1.0f32.to_bits(),
        model_scale: 1.0f32.to_bits(),
        ucf: None,
        name_tag: None,
        netplay: None,
        user_id: None,
    }
}

fn start(players: Vec<Player>) -> Start {
    Start {
        slippi: Slippi { version: Version(3, 16, 0) },
        bitfield: [50, 1, 134, 76],
        is_raining_bombs: false,
        is_teams: false,
        item_spawn_frequency: -1,
        self_destruct_score: -1,
        stage: 8,
        timer: 480,
        item_spawn_bitfield: [255, 255, 255, 255, 255],
        damage_ratio: 1.0f32.to_bits(),
        players,
        random_seed: 39656,
        bytes: Bytes(vec![]),
        is_pal: Some(false),
        is_frozen_ps: Some(false),
        scene: None,
        language: None,
        match_info: None,
        session_id: None,
    }
}

#[test]
fn port_occupancy_marks_ice_climbers() {
    let s = start(vec![player(Port::P1, 9), player(Port::P3, ICE_CLIMBERS)]);
    assert_eq!(
        port_occupancy(&s),
        vec![
            PortOccupancy { port: Port::P1, follower: false },
            PortOccupancy { port: Port::P3, follower: true },
        ]
    );
}

#[test]
fn port_occupancy_of_no_players() {
    assert_eq!(port_occupancy(&start(vec![])), vec![]);
}

#[test]
fn bytes_to_base64() {
    assert_eq!(Bytes(vec![1, 2, 3]).to_base64(), "AQID");
    assert_eq!(Bytes(vec![]).to_base64(), "");
    assert_eq!(Bytes(b"hello".to_vec()).to_base64(), "aGVsbG8=");
}

#[test]
fn bytes_from_base64() {
    assert_eq!(Bytes::from_base64("AQID"), Ok(Bytes(vec![1, 2, 3])));
    assert_eq!(Bytes::from_base64("aGVsbG8="), Ok(Bytes(b"hello".to_vec())));
    assert_eq!(Bytes::from_base64("!!!!"), Err("invalid base64".to_string()));
    assert_eq!(Bytes::from_base64("aGVsbG8"), Err("invalid base64".to_string()));
}

#[test]
fn bytes_base64_round_trip() {
    let b = Bytes((0..=255u8).collect());
    assert_eq!(Bytes::from_base64(&b.to_base64()), Ok(b.clone()));
}

#[test]
fn bytes_debug_shows_length() {
    assert_eq!(Bytes(vec![7; 42]).fmt_debug(), "Bytes { len: 42 }");
    assert_eq!(Bytes(vec![]).fmt_debug(), "Bytes { len: 0 }");
}
