use oneko_desktop::config::{
    default_name, load_config, normalize_config, snapshot_shared, Config, LobbyRuntime, Shared,
};
use oneko_desktop::protocol::{CatStyle, LobbyConfig, PeerSnapshot, DEFAULT_ENDPOINT};

fn bare() -> Config {
    Config { scratch_push: false, cats: vec![], lobby: LobbyConfig::default() }
}

fn style(body: u32) -> CatStyle {
    CatStyle { body, outline: 1, opacity: 2 }
}

fn peer(id: &str) -> PeerSnapshot {
    PeerSnapshot { id: id.to_string(), ..Default::default() }
}

#[test]
fn fresh_configurations_have_two_cats() {
    let cfg = Config::fresh("Ann");
    assert!(cfg.scratch_push);
    assert_eq!(
        cfg.cats,
        vec![
            CatStyle { body: 0x00ff_ffff, outline: 0, opacity: 255 },
            CatStyle { body: 0x00f4_d7f7, outline: 0x0024_2424, opacity: 224 },
        ]
    );
    assert_eq!(cfg.lobby.endpoint, DEFAULT_ENDPOINT);
    assert_eq!(cfg.lobby.room_code, "");
    assert_eq!(cfg.lobby.display_name, "Ann");
}

#[test]
fn gaps_are_filled() {
    let cfg = normalize_config(bare(), "Ann");
    assert!(!cfg.scratch_push);
    assert_eq!(cfg.cats, vec![CatStyle::default()]);
    assert_eq!(cfg.lobby.endpoint, DEFAULT_ENDPOINT);
    assert_eq!(cfg.lobby.display_name, "Ann");
}

#[test]
fn what_is_set_is_kept_and_gaps_are_filled_once() {
    let mut cfg = bare();
    cfg.cats = vec![style(3)];
    cfg.lobby.endpoint = "ws://localhost".to_string();
    cfg.lobby.room_code = "123456".to_string();
    let once = normalize_config(cfg, "Ann");
    assert_eq!(once.cats, vec![style(3)]);
    assert_eq!(once.lobby.endpoint, "ws://localhost");
    assert_eq!(once.lobby.room_code, "123456");
    assert_eq!(once.lobby.display_name, "Ann");
    let twice = normalize_config(once.clone(), "Bob");
    assert_eq!(twice.lobby.display_name, "Ann");
    assert_eq!(twice.cats, once.cats);
}

#[test]
fn stored_configurations_are_loaded_and_others_are_fresh() {
    let loaded = load_config(Some(bare()), "Ann");
    assert_eq!(loaded.cats.len(), 1);
    assert!(!loaded.scratch_push);
    let fresh = load_config(None, "Ann");
    assert_eq!(fresh.cats.len(), 2);
    assert!(fresh.scratch_push);
}

#[test]
fn names_come_from_the_system() {
    let some = |s: &str| Some(s.to_string());
    assert_eq!(default_name(some("ann"), some("bob")), "ann");
    assert_eq!(default_name(None, some("bob")), "bob");
    assert_eq!(default_name(None, None), "cat owner");
    assert_eq!(default_name(some("  "), some("bob")), "cat owner");
    assert_eq!(default_name(None, some("\t")), "cat owner");
    assert_eq!(default_name(some(" ann "), None), " ann ");
}

#[test]
fn the_shared_state_begins_disconnected() {
    let shared = Shared::new(Config::fresh("Ann"));
    assert_eq!(shared.selected, 0);
    assert!(!shared.lobby.connected);
    assert_eq!(shared.lobby.status, "");
    assert_eq!(shared.lobby.client_id, "");
    assert!(shared.lobby.peers.is_empty());
    let runtime = LobbyRuntime::default();
    assert!(!runtime.connected);
}

#[test]
fn the_selection_goes_round() {
    let mut shared = Shared::new(Config::fresh("Ann"));
    shared.select_next("Ann");
    assert_eq!(shared.selected, 1);
    shared.select_next("Ann");
    assert_eq!(shared.selected, 0);
}

#[test]
fn the_selection_stays_within_the_cats() {
    let mut shared = Shared::new(Config::fresh("Ann"));
    shared.select_next("Ann");
    let mut cfg = bare();
    cfg.cats = vec![style(9)];
    shared.replace_config(cfg, "Ann");
    assert_eq!(shared.selected, 0);
    assert_eq!(shared.cfg.cats, vec![style(9)]);
    shared.selected = 7;
    assert_eq!(snapshot_shared(&shared).selected, 0);
    shared.tidy("Ann");
    assert_eq!(shared.selected, 0);
    shared.replace_config(bare(), "Ann");
    assert_eq!(shared.cfg.cats, vec![CatStyle::default()]);
    assert_eq!(shared.selected, 0);
}

#[test]
fn the_room_code_is_noted() {
    let mut shared = Shared::new(Config::fresh("Ann"));
    shared.set_room_code("654321".to_string(), "Ann");
    assert_eq!(shared.cfg.lobby.room_code, "654321");
    assert_eq!(shared.cfg.lobby.display_name, "Ann");
}

#[test]
fn the_user_is_not_shown_among_the_peers() {
    let mut shared = Shared::new(Config::fresh("Ann"));
    shared.lobby.client_id = "b".to_string();
    shared.lobby.connected = true;
    shared.lobby.status = "Connected to 000001".to_string();
    shared.lobby.peers = vec![peer("a"), peer("b"), peer("c")];
    let ui = snapshot_shared(&shared);
    let ids: Vec<&str> = ui.lobby.peers.iter().map(|p| p.id.as_str()).collect();
    assert_eq!(ids, vec!["a", "c"]);
    assert!(ui.lobby.connected);
    assert_eq!(ui.lobby.status, "Connected to 000001");
    assert_eq!(ui.lobby.endpoint, DEFAULT_ENDPOINT);
    assert_eq!(ui.lobby.display_name, "Ann");
    assert_eq!(ui.config.cats.len(), 2);
}

#[test]
fn fresh_configurations_have_no_gaps() {
    let fresh = Config::fresh("Ann");
    let normal = normalize_config(fresh.clone(), "Bob");
    assert_eq!(normal.scratch_push, fresh.scratch_push);
    assert_eq!(normal.cats, fresh.cats);
    assert_eq!(normal.lobby.endpoint, fresh.lobby.endpoint);
    assert_eq!(normal.lobby.display_name, "Ann");
}

#[test]
fn tidying_twice_changes_nothing_more() {
    let mut shared = Shared::new(bare());
    shared.selected = 5;
    shared.tidy("Ann");
    assert_eq!(shared.selected, 0);
    assert_eq!(shared.cfg.lobby.display_name, "Ann");
    shared.tidy("Bob");
    assert_eq!(shared.selected, 0);
    assert_eq!(shared.cfg.cats, vec![CatStyle::default()]);
    assert_eq!(shared.cfg.lobby.display_name, "Ann");
}
