use oneko_desktop::config::{snapshot_shared, Config, Shared};
use oneko_desktop::cursor::CursorState;
use oneko_desktop::lobby::NetCommand;
use oneko_desktop::pace::{Due, Pace};
use oneko_desktop::protocol::{CatStyle, LobbyConfig};
use oneko_desktop::settings::{
    answer, bytes_response, cats_label, cmd, html_response, json_response, response_status, route,
    selected_label, tray_command, HttpMethod, Route, TrayCommand,
};

const MS: u128 = 1_000_000;

fn shared() -> Shared {
    let mut shared = Shared::new(Config::fresh("Ann"));
    shared.cfg.lobby.room_code = "123456".to_string();
    shared
}

#[test]
fn requests_are_told_apart() {
    assert_eq!(route(HttpMethod::Get, "/"), Route::Page);
    assert_eq!(route(HttpMethod::Get, "/oneko.png"), Route::Picture);
    assert_eq!(route(HttpMethod::Get, "/api/state"), Route::State);
    assert_eq!(route(HttpMethod::Post, "/api/config"), Route::SetConfig);
    assert_eq!(route(HttpMethod::Post, "/api/lobby/create"), Route::CreateLobby);
    assert_eq!(route(HttpMethod::Post, "/api/lobby/join"), Route::JoinLobby);
    assert_eq!(route(HttpMethod::Post, "/api/lobby/leave"), Route::LeaveLobby);
    assert_eq!(route(HttpMethod::Post, "/"), Route::Unknown);
    assert_eq!(route(HttpMethod::Get, "/api/config"), Route::Unknown);
    assert_eq!(route(HttpMethod::Get, "/?"), Route::Unknown);
    assert_eq!(route(HttpMethod::Other, "/"), Route::Unknown);
}

#[test]
fn replies_carry_status_body_and_type() {
    let reply = response_status(418, vec![1, 2], "x/y");
    assert_eq!(reply.status, 418);
    assert_eq!(reply.body, vec![1, 2]);
    assert_eq!(reply.content_type, "x/y");
    let reply = html_response("é", "text/html");
    assert_eq!(reply.status, 200);
    assert_eq!(reply.body, "é".as_bytes());
    let reply = bytes_response(vec![9], "image/png");
    assert_eq!((reply.status, reply.content_type.as_str()), (200, "image/png"));
    let reply = json_response(vec![123, 125]);
    assert_eq!((reply.status, reply.content_type.as_str()), (200, "application/json"));
}

#[test]
fn contents_are_served() {
    let mut shared = shared();
    let a = answer(&mut shared, Route::Page, vec![1], None, "Ann");
    assert_eq!(a.reply.status, 200);
    assert_eq!(a.reply.body, vec![1]);
    assert_eq!(a.reply.content_type, "text/html; charset=utf-8");
    assert!(a.command.is_none() && !a.store);
    let a = answer(&mut shared, Route::Picture, vec![2], None, "Ann");
    assert_eq!(a.reply.content_type, "image/png");
    let a = answer(&mut shared, Route::State, vec![3], None, "Ann");
    assert_eq!(a.reply.content_type, "application/json");
    assert_eq!(a.reply.body, vec![3]);
}

#[test]
fn configurations_are_taken_over() {
    let mut shared = shared();
    let cfg = Config {
        scratch_push: false,
        cats: vec![CatStyle { body: 5, outline: 6, opacity: 7 }],
        lobby: LobbyConfig::default(),
    };
    let a = answer(&mut shared, Route::SetConfig, vec![], Some(cfg), "Ann");
    assert_eq!(a.reply.status, 200);
    assert_eq!(a.reply.body, b"{\"ok\":true}");
    assert_eq!(a.reply.content_type, "application/json");
    assert!(a.store);
    assert!(!shared.cfg.scratch_push);
    assert_eq!(shared.cfg.cats.len(), 1);
    assert_eq!(shared.cfg.lobby.display_name, "Ann");
}

#[test]
fn unreadable_configurations_change_nothing() {
    let mut shared = shared();
    let a = answer(&mut shared, Route::SetConfig, vec![], None, "Ann");
    assert_eq!(a.reply.status, 400);
    assert_eq!(a.reply.body, b"bad config");
    assert_eq!(a.reply.content_type, "text/plain");
    assert!(!a.store);
    assert_eq!(shared.cfg.cats.len(), 2);
}

#[test]
fn unknown_requests_are_not_found() {
    let mut shared = shared();
    let a = answer(&mut shared, Route::Unknown, vec![], None, "Ann");
    assert_eq!(a.reply.status, 404);
    assert_eq!(a.reply.body, b"not found");
    assert_eq!(a.reply.content_type, "text/plain");
    assert!(a.command.is_none() && !a.store);
}

#[test]
fn lobby_requests_become_commands() {
    let mut shared = shared();
    let a = answer(&mut shared, Route::CreateLobby, vec![], None, "Ann");
    assert_eq!(a.reply.body, b"{\"ok\":true}");
    assert!(matches!(a.command, Some(NetCommand::Create(l)) if l.room_code == "123456"));
    let a = answer(&mut shared, Route::JoinLobby, vec![], None, "Ann");
    assert!(matches!(a.command, Some(NetCommand::Join(l)) if l.room_code == "123456"));
    shared.lobby.connected = true;
    shared.lobby.client_id = "me".to_string();
    let a = answer(&mut shared, Route::LeaveLobby, vec![], None, "Ann");
    assert!(matches!(a.command, Some(NetCommand::Leave)));
    assert!(!shared.lobby.connected);
    assert_eq!(shared.lobby.client_id, "");
    assert_eq!(shared.lobby.status, "Disconnected");
    assert_eq!(shared.cfg.lobby.room_code, "123456");
}

#[test]
fn menu_entries_are_in_the_low_bits() {
    assert_eq!(cmd(1001), 1001);
    assert_eq!(cmd(0x7_0000 + 1008), 1008);
    assert_eq!(tray_command(1001), TrayCommand::Exit);
    assert_eq!(tray_command(0x1_0000 + 1008), TrayCommand::Next);
    assert_eq!(tray_command(1009), TrayCommand::Settings);
    assert_eq!(tray_command(0), TrayCommand::Nothing);
}

#[test]
fn menu_labels_count_the_cats() {
    let mut shared = shared();
    shared.select_next("Ann");
    let ui = snapshot_shared(&shared);
    assert_eq!(cats_label(&ui), "Cats: 2");
    assert_eq!(selected_label(&ui), "Selected: 2");
}

#[test]
fn a_cursor_rests_after_a_second_and_a_half() {
    let mut cursor = CursorState::default();
    cursor.update(false, 5000 * MS);
    assert!(!cursor.locked);
    cursor.update(true, 6000 * MS);
    assert!(!cursor.locked);
    assert_eq!(cursor.last_move, Some(6000 * MS));
    cursor.update(false, 7500 * MS - 1);
    assert!(!cursor.locked);
    cursor.update(false, 7500 * MS);
    assert!(cursor.locked);
    cursor.update(true, 7600 * MS);
    assert!(!cursor.locked);
}

#[test]
fn steps_and_news_have_their_intervals() {
    let mut pace = Pace::new(1000 * MS);
    assert_eq!(pace.poll(1000 * MS), Due { net: true, frame: false });
    assert_eq!(pace.poll(1033 * MS - 1), Due { net: false, frame: false });
    assert_eq!(pace.poll(1033 * MS), Due { net: true, frame: false });
    assert_eq!(pace.poll(1100 * MS), Due { net: true, frame: true });
    assert_eq!(pace.poll(1132 * MS), Due { net: false, frame: false });
    assert_eq!(pace.poll(1200 * MS), Due { net: true, frame: true });
}
