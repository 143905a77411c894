use oneko_desktop::config::{snapshot_shared, Config, Shared};
use oneko_desktop::lobby::{
    after_dialling, handle_server_message, leave_lobby, lobby_endpoint, lobby_url, react, Entry,
    LocalPresence, NetAction, NetCommand,
};
use oneko_desktop::protocol::{
    CatStyle, ClientMessage, Coord, LobbyConfig, PeerSnapshot, ServerMessage, DEFAULT_ENDPOINT,
};

fn lobby(endpoint: &str, room_code: &str) -> LobbyConfig {
    LobbyConfig {
        endpoint: endpoint.to_string(),
        room_code: room_code.to_string(),
        display_name: "Ann".to_string(),
    }
}

fn local(endpoint: &str, room_code: &str) -> LocalPresence {
    LocalPresence {
        lobby: lobby(endpoint, room_code),
        cursor_x: Coord { bits: 1 },
        cursor_y: Coord { bits: 2 },
        locked: true,
        cats: vec![CatStyle::default()],
        renders: vec![],
    }
}

fn shared() -> Shared {
    Shared::new(Config::fresh("Ann"))
}

fn peer(id: &str) -> PeerSnapshot {
    PeerSnapshot { id: id.to_string(), ..Default::default() }
}

#[test]
fn blank_endpoints_mean_the_usual_relay() {
    assert_eq!(lobby_endpoint(""), DEFAULT_ENDPOINT);
    assert_eq!(lobby_endpoint("  \t"), DEFAULT_ENDPOINT);
    assert_eq!(lobby_endpoint(" ws://localhost:8118 "), "ws://localhost:8118");
}

#[test]
fn addresses_are_brought_into_normal_form() {
    assert_eq!(
        lobby_url(&lobby(" WS://Example.COM:8118/a/../b ", "")),
        Some("ws://example.com:8118/b".to_string())
    );
    assert_eq!(lobby_url(&lobby("wss://example.com", "")), Some("wss://example.com/".to_string()));
    assert_eq!(lobby_url(&lobby("", "")), Some(DEFAULT_ENDPOINT.to_string()));
    assert_eq!(lobby_url(&lobby("not a url", "")), None);
    assert_eq!(lobby_url(&lobby("/relative", "")), None);
}

#[test]
fn creating_and_joining_connect() {
    let mut shared = shared();
    match react(&mut shared, NetCommand::Create(lobby("ws://a", "1")), false) {
        NetAction::Connect { url, entry, lobby } => {
            assert_eq!(url, Some("ws://a/".to_string()));
            assert_eq!(entry, Entry::Create);
            assert_eq!(lobby.room_code, "1");
        }
        other => panic!("{other:?}"),
    }
    match react(&mut shared, NetCommand::Join(lobby("nonsense", "1")), true) {
        NetAction::Connect { url, entry, .. } => {
            assert_eq!(url, None);
            assert_eq!(entry, Entry::Join);
        }
        other => panic!("{other:?}"),
    }
}

#[test]
fn leaving_hangs_up_only_where_there_is_a_connection() {
    let mut shared = shared();
    assert!(matches!(
        react(&mut shared, NetCommand::Leave, true),
        NetAction::HangUp(ClientMessage::Leave)
    ));
    assert!(matches!(react(&mut shared, NetCommand::Leave, false), NetAction::Rest));
}

#[test]
fn news_is_exchanged_on_a_connection() {
    let mut shared = shared();
    match react(&mut shared, NetCommand::Sync(local("ws://a", "1")), true) {
        NetAction::Exchange(ClientMessage::Presence { cursor_x, cursor_y, locked, cats, .. }) => {
            assert_eq!(cursor_x, Coord { bits: 1 });
            assert_eq!(cursor_y, Coord { bits: 2 });
            assert!(locked);
            assert_eq!(cats, vec![CatStyle::default()]);
        }
        other => panic!("{other:?}"),
    }
    assert_eq!(shared.lobby.status, "");
}

#[test]
fn without_a_connection_an_empty_status_is_filled() {
    let mut shared = shared();
    react(&mut shared, NetCommand::Sync(local("ws://a", "")), false);
    assert_eq!(shared.lobby.status, "");
    react(&mut shared, NetCommand::Sync(local("", "1")), false);
    assert_eq!(shared.lobby.status, "");
    react(&mut shared, NetCommand::Sync(local("ws://a", "1")), false);
    assert_eq!(shared.lobby.status, "Disconnected");
    shared.lobby.status = "Room is full".to_string();
    react(&mut shared, NetCommand::Sync(local("ws://a", "1")), false);
    assert_eq!(shared.lobby.status, "Room is full");
}

#[test]
fn a_connection_begins_with_a_request() {
    let mut shared = shared();
    shared.lobby.connected = true;
    shared.lobby.peers = vec![peer("x")];
    let mut id = "old".to_string();
    let mut wanted = lobby("ws://a", "123456");
    wanted.display_name = "Bob".to_string();
    match after_dialling(&mut shared, &mut id, true, Entry::Create, &wanted) {
        Some(ClientMessage::CreateRoom { display_name, cats }) => {
            assert_eq!(display_name, "Bob");
            assert_eq!(cats, shared.cfg.cats);
        }
        other => panic!("{other:?}"),
    }
    assert_eq!(id, "");
    assert_eq!(shared.lobby.status, "Connecting");
    assert!(!shared.lobby.connected);
    assert!(shared.lobby.peers.is_empty());
    match after_dialling(&mut shared, &mut id, true, Entry::Join, &wanted) {
        Some(ClientMessage::JoinRoom { room_code, display_name, .. }) => {
            assert_eq!(room_code, "123456");
            assert_eq!(display_name, "Bob");
        }
        other => panic!("{other:?}"),
    }
}

#[test]
fn a_failed_connection_is_noted() {
    let mut shared = shared();
    let mut id = "old".to_string();
    let hello = after_dialling(&mut shared, &mut id, false, Entry::Join, &lobby("ws://a", "1"));
    assert!(hello.is_none());
    assert_eq!(shared.lobby.status, "Connection failed");
    assert_eq!(id, "");
}

#[test]
fn a_welcome_is_taken_in() {
    let mut shared = shared();
    let mut id = String::new();
    let message = ServerMessage::Joined {
        client_id: "me".to_string(),
        room_code: "000042".to_string(),
        peers: vec![peer("me"), peer("you")],
    };
    assert!(handle_server_message(&mut shared, &mut id, message, "Ann"));
    assert_eq!(id, "me");
    assert_eq!(shared.cfg.lobby.room_code, "000042");
    assert_eq!(shared.lobby.client_id, "me");
    assert!(shared.lobby.connected);
    assert_eq!(shared.lobby.status, "Connected to 000042");
    let ui = snapshot_shared(&shared);
    assert_eq!(ui.lobby.peers.len(), 1);
    assert_eq!(ui.lobby.peers[0].id, "you");
}

#[test]
fn a_snapshot_is_taken_in() {
    let mut shared = shared();
    shared.lobby.client_id = "me".to_string();
    let mut id = "me".to_string();
    let message =
        ServerMessage::Snapshot { room_code: "000042".to_string(), peers: vec![peer("you")] };
    assert!(!handle_server_message(&mut shared, &mut id, message, "Ann"));
    assert_eq!(id, "me");
    assert!(shared.lobby.connected);
    assert_eq!(shared.lobby.status, "Connected to 000042");
    assert_eq!(shared.lobby.peers.len(), 1);
    assert_eq!(shared.cfg.lobby.room_code, "");
}

#[test]
fn an_error_is_shown_and_takes_the_peers_away() {
    let mut shared = shared();
    shared.lobby.connected = true;
    shared.lobby.peers = vec![peer("you")];
    let mut id = "me".to_string();
    let message = ServerMessage::Error { message: "Room is full".to_string() };
    assert!(!handle_server_message(&mut shared, &mut id, message, "Ann"));
    assert!(!shared.lobby.connected);
    assert_eq!(shared.lobby.status, "Room is full");
    assert!(snapshot_shared(&shared).lobby.peers.is_empty());
}

#[test]
fn leaving_the_lobby_forgets_it() {
    let mut shared = shared();
    shared.lobby.connected = true;
    shared.lobby.client_id = "me".to_string();
    shared.lobby.peers = vec![peer("you")];
    leave_lobby(&mut shared);
    assert!(!shared.lobby.connected);
    assert_eq!(shared.lobby.client_id, "");
    assert_eq!(shared.lobby.status, "Disconnected");
    assert!(shared.lobby.peers.is_empty());
}
