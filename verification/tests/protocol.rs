use oneko_desktop::protocol::{
    clone_peers, clone_styles, CatRenderSnapshot, CatStyle, ClientMessage, Coord, LobbyConfig,
    PeerSnapshot, ServerMessage, DEFAULT_ENDPOINT,
};
use oneko_desktop::sanitize::{
    sanitize_cats, sanitize_cursor, sanitize_name, sanitize_renders, sanitize_room_code,
};

fn coord(v: f32) -> Coord {
    Coord { bits: v.to_bits() }
}

fn style(body: u32) -> CatStyle {
    CatStyle { body, outline: 0, opacity: 255 }
}

fn render(x: f32, y: f32, sprite_x: u8, sprite_y: u8) -> CatRenderSnapshot {
    CatRenderSnapshot { x: coord(x), y: coord(y), sprite_x, sprite_y }
}

#[test]
fn the_usual_relay_is_known() {
    assert_eq!(DEFAULT_ENDPOINT, "wss://oneko.nosh.zip/");
}

#[test]
fn cats_are_white_by_default() {
    let cat = CatStyle::default();
    assert_eq!(cat.body, 0x00ff_ffff);
    assert_eq!(cat.outline, 0);
    assert_eq!(cat.opacity, 255);
}

#[test]
fn blank_peers_have_nothing() {
    let peer = PeerSnapshot::default();
    assert_eq!(peer.id, "");
    assert_eq!(peer.display_name, "");
    assert_eq!(peer.cursor_x, coord(0.0));
    assert_eq!(peer.cursor_y, coord(0.0));
    assert!(!peer.locked);
    assert!(peer.cats.is_empty());
    assert!(peer.renders.is_empty());
    let lobby = LobbyConfig::default();
    assert_eq!(lobby.endpoint, "");
    assert_eq!(lobby.room_code, "");
    assert_eq!(lobby.display_name, "");
    assert_eq!(CatRenderSnapshot::default(), render(0.0, 0.0, 0, 0));
}

#[test]
fn clones_hold_the_same() {
    let peer = PeerSnapshot {
        id: "a1".to_string(),
        display_name: "Ann".to_string(),
        cursor_x: coord(0.25),
        cursor_y: coord(0.75),
        locked: true,
        cats: vec![style(1), style(2)],
        renders: vec![render(0.5, 0.5, 3, 3)],
    };
    let copies = clone_peers(&vec![peer]);
    assert_eq!(copies.len(), 1);
    assert_eq!(copies[0].id, "a1");
    assert_eq!(copies[0].display_name, "Ann");
    assert_eq!(copies[0].cursor_y, coord(0.75));
    assert!(copies[0].locked);
    assert_eq!(copies[0].cats, vec![style(1), style(2)]);
    assert_eq!(copies[0].renders, vec![render(0.5, 0.5, 3, 3)]);
    assert_eq!(clone_styles(&copies[0].cats), vec![style(1), style(2)]);
    let message = ServerMessage::Joined {
        client_id: "a1".to_string(),
        room_code: "000123".to_string(),
        peers: copies,
    };
    match message.clone() {
        ServerMessage::Joined { client_id, room_code, peers } => {
            assert_eq!(client_id, "a1");
            assert_eq!(room_code, "000123");
            assert_eq!(peers.len(), 1);
        }
        _ => panic!("another message"),
    }
    let request = ClientMessage::JoinRoom {
        room_code: "000123".to_string(),
        display_name: "Bob".to_string(),
        cats: vec![style(7)],
    };
    match request.clone() {
        ClientMessage::JoinRoom { room_code, display_name, cats } => {
            assert_eq!(room_code, "000123");
            assert_eq!(display_name, "Bob");
            assert_eq!(cats, vec![style(7)]);
        }
        _ => panic!("another message"),
    }
}

#[test]
fn coordinates_are_judged_like_floats() {
    let values = [
        0.0f32,
        -0.0,
        1.0,
        0.5,
        1.0e-45,
        -1.0e-45,
        f32::MIN_POSITIVE,
        -0.25,
        1.000_000_1,
        0.999_999_94,
        2.0,
        -1.0,
        f32::MAX,
        f32::MIN,
        f32::INFINITY,
        f32::NEG_INFINITY,
        f32::NAN,
        -f32::NAN,
    ];
    for v in values {
        let expected = v.is_finite() && v >= 0.0 && v <= 1.0;
        assert_eq!(coord(v).is_in_unit(), expected, "{v}");
    }
    let mut bits = 0u32;
    for _ in 0..100_000 {
        let v = f32::from_bits(bits);
        assert_eq!(Coord { bits }.is_in_unit(), v.is_finite() && v >= 0.0 && v <= 1.0);
        bits = bits.wrapping_add(42_949);
    }
}

#[test]
fn names_are_trimmed_and_cleaned() {
    assert_eq!(sanitize_name("  Ann  "), Some("Ann".to_string()));
    assert_eq!(sanitize_name("\u{3000}猫\u{a0}"), Some("猫".to_string()));
    assert_eq!(sanitize_name("A\u{7}n\u{9f}n"), Some("Ann".to_string()));
    assert_eq!(sanitize_name("a b"), Some("a b".to_string()));
    assert_eq!(sanitize_name(""), None);
    assert_eq!(sanitize_name(" \t\n"), None);
}

#[test]
fn names_have_at_most_24_characters() {
    let longest = "é".repeat(24);
    assert_eq!(sanitize_name(&longest), Some(longest.clone()));
    assert_eq!(sanitize_name(&format!("  {longest} ")), Some(longest.clone()));
    assert_eq!(sanitize_name(&"e".repeat(25)), None);
    let with_controls = format!("{}\u{1}", "e".repeat(24));
    assert_eq!(sanitize_name(&with_controls), None);
}

#[test]
fn names_of_control_characters_alone_become_empty() {
    assert_eq!(sanitize_name("\u{1}"), Some(String::new()));
}

#[test]
fn clean_names_are_taken_as_they_are() {
    for name in [" Ann ", "a b c", "\tZoë"] {
        let once = sanitize_name(name).unwrap();
        assert_eq!(sanitize_name(&once), Some(once.clone()));
    }
    let once = sanitize_name("\u{1} a").unwrap();
    assert_eq!(once, " a");
    assert_eq!(sanitize_name(&once), Some("a".to_string()));
}

#[test]
fn room_codes_are_six_digits() {
    assert_eq!(sanitize_room_code("012345"), Some("012345".to_string()));
    assert_eq!(sanitize_room_code(" 999999\n"), Some("999999".to_string()));
    for bad in ["", "12345", "1234567", "12345a", "12 456", "１２３４５６", "-12345", "ééé"] {
        assert_eq!(sanitize_room_code(bad), None, "{bad}");
    }
}

#[test]
fn clients_show_one_to_eight_cats() {
    assert_eq!(sanitize_cats(vec![]), None);
    assert_eq!(sanitize_cats(vec![style(5)]), Some(vec![style(5)]));
    assert_eq!(sanitize_cats(vec![style(5); 8]), Some(vec![style(5); 8]));
    assert_eq!(sanitize_cats(vec![style(5); 9]), None);
}

#[test]
fn cursors_lie_on_the_desktop() {
    assert_eq!(sanitize_cursor(coord(0.5), coord(1.0)), Some((coord(0.5), coord(1.0))));
    assert_eq!(sanitize_cursor(coord(1.5), coord(0.5)), None);
    assert_eq!(sanitize_cursor(coord(0.5), coord(f32::NAN)), None);
    assert_eq!(sanitize_cursor(coord(-0.1), coord(0.5)), None);
}

#[test]
fn drawings_match_the_cats_and_the_sheet() {
    let good = vec![render(0.0, 1.0, 7, 3), render(0.5, 0.5, 0, 0)];
    assert_eq!(sanitize_renders(good.clone(), 2), Some(good.clone()));
    assert_eq!(sanitize_renders(good.clone(), 1), None);
    assert_eq!(sanitize_renders(good, 3), None);
    assert_eq!(sanitize_renders(vec![], 0), Some(vec![]));
    assert_eq!(sanitize_renders(vec![render(0.5, 0.5, 8, 0)], 1), None);
    assert_eq!(sanitize_renders(vec![render(0.5, 0.5, 0, 4)], 1), None);
    assert_eq!(sanitize_renders(vec![render(1.01, 0.5, 0, 0)], 1), None);
    assert_eq!(sanitize_renders(vec![render(0.5, f32::INFINITY, 0, 0)], 1), None);
}

#[test]
fn accepted_room_codes_are_accepted_again() {
    let once = sanitize_room_code("\t004200 ").unwrap();
    assert_eq!(once, "004200");
    assert_eq!(sanitize_room_code(&once), Some(once.clone()));
}
