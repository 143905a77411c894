use oneko_desktop::protocol::{
    CatRenderSnapshot, CatStyle, ClientMessage, Coord, PeerSnapshot, ServerMessage,
};
use oneko_desktop::relay::{client_id, next_id, next_room, room_code, RelayState};
use oneko_desktop::room::{Delivery, Member, Report, RoomState};
use oneko_desktop::sanitize::sanitize_room_code;
use oneko_desktop::session::{
    depart, handle, judge, strike, within_limit, Event, Flow, Outcome, Session, Verdict,
};

const MS: u128 = 1_000_000;

fn coord(v: f32) -> Coord {
    Coord { bits: v.to_bits() }
}

fn cat(body: u32) -> CatStyle {
    CatStyle { body, outline: 0, opacity: 255 }
}

fn render(x: f32, y: f32) -> CatRenderSnapshot {
    CatRenderSnapshot { x: coord(x), y: coord(y), sprite_x: 3, sprite_y: 3 }
}

fn create_as(name: &str) -> Event {
    Event::Request(ClientMessage::CreateRoom {
        display_name: name.to_string(),
        cats: vec![cat(1)],
    })
}

fn join_as(code: &str, name: &str) -> Event {
    Event::Request(ClientMessage::JoinRoom {
        room_code: code.to_string(),
        display_name: name.to_string(),
        cats: vec![cat(2), cat(3)],
    })
}

fn presence_of(x: f32, cats: usize, renders: usize) -> ClientMessage {
    ClientMessage::Presence {
        cursor_x: coord(x),
        cursor_y: coord(0.5),
        locked: true,
        cats: vec![cat(4); cats],
        renders: vec![render(0.25, 0.75); renders],
    }
}

fn presence(x: f32) -> Event {
    Event::Request(presence_of(x, 1, 1))
}

fn explanation(out: &Outcome) -> &str {
    assert_eq!(out.sends.len(), 1);
    explained(&out.sends[0])
}

fn explained(delivery: &Delivery) -> &str {
    match &delivery.message {
        ServerMessage::Error { message } => message,
        other => panic!("no explanation: {other:?}"),
    }
}

fn snapshot_names(delivery: &Delivery) -> Vec<String> {
    match &delivery.message {
        ServerMessage::Snapshot { peers, .. } => {
            peers.iter().map(|p| p.display_name.clone()).collect()
        }
        other => panic!("no snapshot: {other:?}"),
    }
}

fn opened(relay: &mut RelayState, link: u64, name: &str) -> Session {
    let mut session = Session::new(link);
    let out = handle(relay, &mut session, create_as(name), 0);
    assert_eq!(out.flow, Flow::Open);
    session
}

#[test]
fn identifiers_are_the_clock_and_the_number_in_hexadecimal() {
    assert_eq!(client_id(255, 16), "ff10");
    assert_eq!(client_id(0, 0), "00");
    let mut seq = 9;
    let id = next_id(&mut seq);
    assert_eq!(seq, 10);
    assert!(id.ends_with('a'));
    assert_eq!(id.len(), 17);
}

#[test]
fn identifiers_of_different_numbers_differ() {
    let clock = 0x1800_0000_0000_0000u128;
    let ids: Vec<String> = (1..300).map(|n| client_id(clock + 7 * n as u128, n)).collect();
    for i in 0..ids.len() {
        for j in 0..i {
            assert_ne!(ids[i], ids[j]);
        }
        assert!(!ids[i].is_empty());
    }
}

#[test]
fn codes_are_the_last_six_digits_of_the_sum() {
    assert_eq!(room_code(0, 1), "000001");
    assert_eq!(room_code(1_999_999, 2), "000001");
    assert_eq!(room_code(u64::MAX as u128, 1), "000000");
    assert_eq!(room_code(1u128 << 64, 123_456), "123456");
    let mut seq = 0;
    let code = next_room(&mut seq);
    assert_eq!(seq, 1);
    assert_eq!(sanitize_room_code(&code), Some(code.clone()));
}

#[test]
fn codes_of_different_sums_differ() {
    let codes: Vec<String> = (0..200).map(|n| room_code(5, n)).collect();
    for i in 0..codes.len() {
        for j in 0..i {
            assert_ne!(codes[i], codes[j]);
        }
    }
}

fn member(id: &str, link: u64) -> Member {
    Member { peer: PeerSnapshot { id: id.to_string(), ..Default::default() }, link }
}

#[test]
fn rooms_take_members_in_and_let_them_go() {
    let room = RoomState { members: vec![member("a", 1), member("b", 2)] };
    let more = room.with_member(member("c", 3));
    assert_eq!(more.members.len(), 3);
    assert_eq!(more.members[2].peer.id, "c");
    let replaced = more.with_member(member("b", 9));
    assert_eq!(replaced.members.len(), 3);
    assert_eq!(replaced.members[1].link, 9);
    let left = more.without("b");
    assert_eq!(left.members.len(), 2);
    assert_eq!(left.members[1].peer.id, "c");
    assert_eq!(more.without("z").members.len(), 3);
}

#[test]
fn rooms_write_down_reports() {
    let room = RoomState { members: vec![member("a", 1), member("b", 2)] };
    let report = Report {
        cursor_x: coord(0.1),
        cursor_y: coord(0.2),
        locked: true,
        cats: vec![cat(8)],
        renders: vec![render(0.3, 0.4)],
    };
    let after = room.reported("b", report);
    assert_eq!(after.members[0].peer.cursor_x, coord(0.0));
    assert_eq!(after.members[1].peer.cursor_x, coord(0.1));
    assert_eq!(after.members[1].peer.cursor_y, coord(0.2));
    assert!(after.members[1].peer.locked);
    assert_eq!(after.members[1].peer.cats, vec![cat(8)]);
    assert_eq!(after.members[1].peer.renders, vec![render(0.3, 0.4)]);
    assert_eq!(after.members[1].link, 2);
}

#[test]
fn rooms_greet_one_and_tell_the_others() {
    let room = RoomState { members: vec![member("a", 1), member("b", 2)] };
    let hi = ServerMessage::Error { message: "hi".to_string() };
    let out = room.notices("123456", &Some(("b".to_string(), hi)));
    assert_eq!(out.len(), 2);
    assert_eq!(out[0].to, 1);
    assert!(matches!(&out[0].message, ServerMessage::Snapshot { room_code, peers }
        if room_code == "123456" && peers.len() == 2));
    assert_eq!(out[1].to, 2);
    assert_eq!(explained(&out[1]), "hi");
}

#[test]
fn relays_keep_rooms_by_their_code() {
    let mut relay = RelayState::new();
    assert_eq!(relay.occupancy("000001"), None);
    assert!(relay.snapshot("000001").is_empty());
    assert!(relay.broadcast("000001", None).is_empty());
    relay.enter("000001", member("a", 1));
    relay.enter("000001", member("b", 2));
    relay.enter("000002", member("c", 3));
    assert_eq!(relay.occupancy("000001"), Some(2));
    assert_eq!(relay.occupancy("000002"), Some(1));
    assert_eq!(relay.snapshot("000001")[1].id, "b");
    assert_eq!(relay.broadcast("000001", None).len(), 2);
    relay.cleanup("000001", "a");
    assert_eq!(relay.occupancy("000001"), Some(1));
    relay.cleanup("000003", "a");
    relay.cleanup("000001", "b");
    assert_eq!(relay.occupancy("000001"), None);
    assert_eq!(relay.occupancy("000002"), Some(1));
}

#[test]
fn fresh_codes_are_free() {
    let mut relay = RelayState::new();
    for n in 0..50 {
        let code = relay.fresh_room().unwrap();
        assert_eq!(relay.occupancy(&code), None);
        let id = relay.fresh_id().unwrap();
        relay.enter(&code, member(&id, n));
    }
}

#[test]
fn creating_a_room_welcomes_the_client() {
    let mut relay = RelayState::new();
    let mut session = Session::new(7);
    let out = handle(&mut relay, &mut session, create_as("  Ann "), 0);
    assert_eq!(out.flow, Flow::Open);
    assert_eq!(out.sends.len(), 1);
    assert_eq!(out.sends[0].to, 7);
    match &out.sends[0].message {
        ServerMessage::Joined { client_id, room_code, peers } => {
            assert_eq!(*client_id, session.client_id);
            assert_eq!(*room_code, session.room_code);
            assert_eq!(sanitize_room_code(room_code), Some(room_code.clone()));
            assert_eq!(peers.len(), 1);
            assert_eq!(peers[0].id, *client_id);
            assert_eq!(peers[0].display_name, "Ann");
            assert_eq!(peers[0].cats, vec![cat(1)]);
            assert_eq!(peers[0].cursor_x, coord(0.0));
            assert!(peers[0].renders.is_empty());
        }
        other => panic!("no welcome: {other:?}"),
    }
}

#[test]
fn joining_a_room_tells_everyone() {
    let mut relay = RelayState::new();
    let ann = opened(&mut relay, 1, "Ann");
    let mut bob = Session::new(2);
    let out = handle(&mut relay, &mut bob, join_as(&ann.room_code, "Bob"), 0);
    assert_eq!(out.sends.len(), 2);
    assert_eq!(out.sends[0].to, 1);
    assert_eq!(snapshot_names(&out.sends[0]), vec!["Ann", "Bob"]);
    assert_eq!(out.sends[1].to, 2);
    match &out.sends[1].message {
        ServerMessage::Joined { client_id, room_code, peers } => {
            assert_eq!(*client_id, bob.client_id);
            assert_eq!(*room_code, ann.room_code);
            assert_eq!(peers.len(), 2);
        }
        other => panic!("no welcome: {other:?}"),
    }
    assert_ne!(ann.client_id, bob.client_id);
}

#[test]
fn reports_reach_the_room() {
    let mut relay = RelayState::new();
    let ann = opened(&mut relay, 1, "Ann");
    let mut bob = Session::new(2);
    handle(&mut relay, &mut bob, join_as(&ann.room_code, "Bob"), 0);
    let out = handle(&mut relay, &mut bob, presence(0.75), 5 * MS);
    assert_eq!(out.sends.len(), 2);
    for (k, delivery) in out.sends.iter().enumerate() {
        assert_eq!(delivery.to, k as u64 + 1);
        match &delivery.message {
            ServerMessage::Snapshot { room_code, peers } => {
                assert_eq!(*room_code, ann.room_code);
                assert_eq!(peers[1].id, bob.client_id);
                assert_eq!(peers[1].display_name, "Bob");
                assert_eq!(peers[1].cursor_x, coord(0.75));
                assert!(peers[1].locked);
                assert_eq!(peers[1].cats, vec![cat(4)]);
                assert_eq!(peers[1].renders, vec![render(0.25, 0.75)]);
                assert_eq!(peers[0].cursor_x, coord(0.0));
            }
            other => panic!("no snapshot: {other:?}"),
        }
    }
    assert_eq!(bob.last_presence, Some(5 * MS));
}

#[test]
fn reports_keep_their_distance() {
    let mut relay = RelayState::new();
    let mut ann = opened(&mut relay, 1, "Ann");
    assert_eq!(handle(&mut relay, &mut ann, presence(0.1), 100 * MS).sends.len(), 1);
    assert!(handle(&mut relay, &mut ann, presence(0.2), 116 * MS - 1).sends.is_empty());
    assert_eq!(relay.snapshot(&ann.room_code)[0].cursor_x, coord(0.1));
    assert_eq!(handle(&mut relay, &mut ann, presence(0.3), 116 * MS).sends.len(), 1);
    assert_eq!(relay.snapshot(&ann.room_code)[0].cursor_x, coord(0.3));
}

#[test]
fn bad_reports_do_not_count() {
    let mut relay = RelayState::new();
    let mut ann = opened(&mut relay, 1, "Ann");
    let out = handle(&mut relay, &mut ann, presence(1.5), 100 * MS);
    assert_eq!(explanation(&out), "Invalid cursor position");
    assert_eq!(ann.last_presence, None);
    assert_eq!(handle(&mut relay, &mut ann, presence(0.5), 100 * MS).sends.len(), 1);
}

#[test]
fn every_refusal_is_explained() {
    let mut relay = RelayState::new();
    let mut ann = opened(&mut relay, 1, "Ann");
    let room = ann.room_code.clone();
    let id = ann.client_id.clone();
    let cases = vec![
        (
            ClientMessage::CreateRoom { display_name: " ".to_string(), cats: vec![] },
            "Invalid display name",
        ),
        (
            ClientMessage::CreateRoom { display_name: "Ann".to_string(), cats: vec![] },
            "Invalid cat payload",
        ),
        (
            ClientMessage::JoinRoom {
                room_code: "12345".to_string(),
                display_name: String::new(),
                cats: vec![],
            },
            "Invalid room code",
        ),
        (
            ClientMessage::JoinRoom {
                room_code: "123456".to_string(),
                display_name: String::new(),
                cats: vec![],
            },
            "Invalid display name",
        ),
        (
            ClientMessage::JoinRoom {
                room_code: "123456".to_string(),
                display_name: "Ann".to_string(),
                cats: vec![cat(1); 9],
            },
            "Invalid cat payload",
        ),
        (presence_of(0.5, 0, 0), "Invalid cat payload"),
        (presence_of(0.5, 2, 1), "Invalid cat render payload"),
        (presence_of(2.0, 1, 1), "Invalid cursor position"),
    ];
    for (request, message) in cases {
        let out = handle(&mut relay, &mut ann, Event::Request(request), 50 * MS);
        assert_eq!(out.flow, Flow::Open);
        assert_eq!(explanation(&out), message);
        assert_eq!(out.sends[0].to, 1);
        assert_eq!(ann.room_code, room);
        assert_eq!(ann.client_id, id);
        assert_eq!(relay.occupancy(&room), Some(1));
    }
}

#[test]
fn strangers_cannot_report() {
    let mut relay = RelayState::new();
    let mut session = Session::new(1);
    let out = handle(&mut relay, &mut session, presence(0.5), 0);
    assert_eq!(explanation(&out), "Join a room first");
    assert!(matches!(
        judge(&session, presence_of(0.5, 1, 1), 0),
        Verdict::Refuse(message) if message == "Join a room first"
    ));
}

#[test]
fn rooms_that_are_not_there_cannot_be_joined() {
    let mut relay = RelayState::new();
    let mut session = Session::new(1);
    let out = handle(&mut relay, &mut session, join_as("123456", "Bob"), 0);
    assert_eq!(explanation(&out), "Room not found");
    assert_eq!(session.client_id, "");
}

#[test]
fn rooms_hold_sixteen() {
    let mut relay = RelayState::new();
    let ann = opened(&mut relay, 0, "Ann");
    for link in 1..16 {
        let mut guest = Session::new(link);
        let out = handle(&mut relay, &mut guest, join_as(&ann.room_code, "Guest"), 0);
        assert_eq!(out.sends.len(), link as usize + 1);
    }
    assert_eq!(relay.occupancy(&ann.room_code), Some(16));
    let mut late = Session::new(16);
    let out = handle(&mut relay, &mut late, join_as(&ann.room_code, "Late"), 0);
    assert_eq!(explanation(&out), "Room is full");
    assert_eq!(relay.occupancy(&ann.room_code), Some(16));
    assert_eq!(late.client_id, "");
}

#[test]
fn a_client_is_in_one_room() {
    let mut relay = RelayState::new();
    let ann = opened(&mut relay, 1, "Ann");
    let mut bob = Session::new(2);
    handle(&mut relay, &mut bob, join_as(&ann.room_code, "Bob"), 0);
    let out = handle(&mut relay, &mut bob, create_as("Bob"), 0);
    assert_eq!(relay.occupancy(&ann.room_code), Some(1));
    assert_eq!(relay.occupancy(&bob.room_code), Some(1));
    assert_ne!(ann.room_code, bob.room_code);
    assert_eq!(out.sends.len(), 2);
    assert_eq!(out.sends[0].to, 1);
    assert_eq!(snapshot_names(&out.sends[0]), vec!["Ann"]);
    assert!(matches!(&out.sends[1].message, ServerMessage::Joined { .. }));
}

#[test]
fn a_client_that_is_turned_away_has_left() {
    let mut relay = RelayState::new();
    let ann = opened(&mut relay, 1, "Ann");
    let mut bob = Session::new(2);
    handle(&mut relay, &mut bob, join_as(&ann.room_code, "Bob"), 0);
    let nowhere = if ann.room_code == "000000" { "000001" } else { "000000" };
    let out = handle(&mut relay, &mut bob, join_as(nowhere, "Bob"), 0);
    assert_eq!(out.sends.len(), 2);
    assert_eq!(snapshot_names(&out.sends[0]), vec!["Ann"]);
    assert_eq!(explained(&out.sends[1]), "Room not found");
    assert_eq!(out.sends[1].to, 2);
    assert_eq!(relay.occupancy(&ann.room_code), Some(1));
    assert_eq!(bob.room_code, ann.room_code);
    let out = handle(&mut relay, &mut bob, presence(0.9), 0);
    assert_eq!(out.sends.len(), 1);
    assert_eq!(out.sends[0].to, 1);
    assert_eq!(snapshot_names(&out.sends[0]), vec!["Ann"]);
}

#[test]
fn leaving_takes_the_last_room_away() {
    let mut relay = RelayState::new();
    let mut ann = opened(&mut relay, 1, "Ann");
    let mut bob = Session::new(2);
    handle(&mut relay, &mut bob, join_as(&ann.room_code, "Bob"), 0);
    let out = handle(&mut relay, &mut bob, Event::Request(ClientMessage::Leave), 0);
    assert_eq!(out.flow, Flow::Closed);
    assert_eq!(out.sends.len(), 1);
    assert_eq!(out.sends[0].to, 1);
    assert_eq!(snapshot_names(&out.sends[0]), vec!["Ann"]);
    let out = handle(&mut relay, &mut ann, Event::Closed, 0);
    assert_eq!(out.flow, Flow::Closed);
    assert!(out.sends.is_empty());
    assert_eq!(relay.occupancy(&ann.room_code), None);
}

#[test]
fn four_unreadable_messages_in_a_row_end_a_session() {
    let mut relay = RelayState::new();
    let mut ann = opened(&mut relay, 1, "Ann");
    for _ in 0..3 {
        let out = handle(&mut relay, &mut ann, Event::Malformed, 0);
        assert_eq!(out.flow, Flow::Open);
        assert_eq!(explanation(&out), "Invalid request");
    }
    let out = handle(&mut relay, &mut ann, Event::Oversized, 0);
    assert_eq!(out.flow, Flow::Closed);
    assert_eq!(explanation(&out), "Message too large");
    assert_eq!(relay.occupancy(&ann.room_code), None);
}

#[test]
fn a_request_makes_the_count_start_anew() {
    let mut relay = RelayState::new();
    let mut ann = opened(&mut relay, 1, "Ann");
    for _ in 0..3 {
        strike(&mut relay, &mut ann, "Invalid request".to_string());
    }
    assert_eq!(ann.invalid_count, 3);
    handle(&mut relay, &mut ann, Event::Ignored, 0);
    assert_eq!(ann.invalid_count, 3);
    handle(&mut relay, &mut ann, presence(0.5), 0);
    assert_eq!(ann.invalid_count, 0);
    let out = handle(&mut relay, &mut ann, Event::Malformed, 0);
    assert_eq!(out.flow, Flow::Open);
}

#[test]
fn departing_before_entering_does_nothing() {
    let mut relay = RelayState::new();
    let ann = opened(&mut relay, 1, "Ann");
    assert!(depart(&mut relay, &Session::new(2)).is_empty());
    assert_eq!(relay.occupancy(&ann.room_code), Some(1));
}

#[test]
fn other_rooms_are_untouched() {
    let mut relay = RelayState::new();
    let ann = opened(&mut relay, 1, "Ann");
    let mut bob = opened(&mut relay, 2, "Bob");
    handle(&mut relay, &mut bob, presence(0.5), 0);
    handle(&mut relay, &mut bob, Event::Closed, 0);
    assert_eq!(relay.occupancy(&ann.room_code), Some(1));
    assert_eq!(relay.snapshot(&ann.room_code)[0].display_name, "Ann");
    assert_eq!(relay.snapshot(&ann.room_code)[0].cursor_x, coord(0.0));
}

#[test]
fn texts_of_4096_bytes_are_read() {
    assert!(within_limit(""));
    assert!(within_limit(&"a".repeat(4096)));
    assert!(!within_limit(&"a".repeat(4097)));
    assert!(within_limit(&"é".repeat(2048)));
    assert!(!within_limit(&"é".repeat(2049)));
}

#[test]
fn the_relay_stays_in_order_whatever_is_sent() {
    let mut relay = RelayState::new();
    let mut sessions: Vec<Option<Session>> = (0..24).map(|n| Some(Session::new(n))).collect();
    let mut codes: Vec<String> = vec!["123456".to_string()];
    let mut dice = 99u64;
    for step in 0..3000u64 {
        dice = dice.wrapping_mul(6364136223846793005).wrapping_add(1);
        let pick = (dice >> 33) as usize;
        let link = pick % 24;
        let mut session = match sessions[link].take() {
            Some(session) => session,
            None => Session::new(link as u64),
        };
        let event = match pick / 24 % 8 {
            0 => create_as("Ann"),
            1 | 2 | 3 => join_as(&codes[pick / 200 % codes.len()], "Bob"),
            4 => presence(0.5),
            5 => Event::Malformed,
            6 => Event::Request(ClientMessage::Leave),
            _ => Event::Ignored,
        };
        let out = handle(&mut relay, &mut session, event, step as u128 * 5 * MS);
        if out.flow == Flow::Open {
            if !session.room_code.is_empty() {
                codes.push(session.room_code.clone());
            }
            sessions[link] = Some(session);
        }
        let mut seen: Vec<String> = Vec::new();
        codes.sort();
        codes.dedup();
        for code in &codes {
            let peers = relay.snapshot(code);
            assert_eq!(relay.occupancy(code).unwrap_or(0), peers.len());
            assert_ne!(relay.occupancy(code), Some(0));
            assert!(peers.len() <= 16);
            for peer in peers {
                assert!(!seen.contains(&peer.id));
                seen.push(peer.id);
                assert!(!peer.cats.is_empty() && peer.cats.len() <= 8);
                assert!(peer.renders.is_empty() || peer.renders.len() == peer.cats.len());
            }
        }
        for link in 0..24u64 {
            let own: usize = codes
                .iter()
                .map(|c| relay.broadcast(c, None).iter().filter(|d| d.to == link).count())
                .sum();
            assert!(own <= 1);
            if sessions[link as usize].is_none() {
                assert_eq!(own, 0);
            }
        }
        codes.retain(|c| relay.occupancy(c).is_some());
        codes.push("123456".to_string());
    }
}

#[test]
fn codes_that_are_taken_are_passed_over() {
    let mut relay = RelayState::new();
    relay.enter("000007", member("a", 1));
    assert_eq!(relay.unless_taken(room_code(3, 4)), None);
    assert_eq!(relay.unless_taken(room_code(3, 5)), Some("000008".to_string()));
}

#[test]
fn reports_keep_their_distance_in_another_room() {
    let mut relay = RelayState::new();
    let mut ann = opened(&mut relay, 1, "Ann");
    assert_eq!(handle(&mut relay, &mut ann, presence(0.1), 100 * MS).sends.len(), 1);
    handle(&mut relay, &mut ann, create_as("Ann"), 101 * MS);
    assert_eq!(ann.last_presence, Some(100 * MS));
    assert!(handle(&mut relay, &mut ann, presence(0.2), 110 * MS).sends.is_empty());
    assert_eq!(handle(&mut relay, &mut ann, presence(0.3), 116 * MS).sends.len(), 1);
}
