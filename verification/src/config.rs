//! The user's configuration, and what the parts of the program share of it.

use crate::protocol::{
    clone_styles, peer_views, CatStyle, LobbyConfig, LobbyConfigView, PeerSnapshot, PeerView,
    DEFAULT_ENDPOINT,
};
use crate::text::{same_text, trimmed};
use vstd::prelude::*;

verus! {

/// What the user can set.
#[derive(Debug)]
pub struct Config {
    /// Whether cats may push the cursor.
    pub scratch_push: bool,
    /// One style for each cat.
    pub cats: Vec<CatStyle>,
    pub lobby: LobbyConfig,
}

/// The contents of a [`Config`].
#[verifier::ext_equal]
pub struct ConfigView {
    pub scratch_push: bool,
    pub cats: Seq<CatStyle>,
    pub lobby: LobbyConfigView,
}

impl View for Config {
    type V = ConfigView;

    open spec fn view(&self) -> ConfigView {
        ConfigView { scratch_push: self.scratch_push, cats: self.cats@, lobby: self.lobby@ }
    }
}

impl Clone for Config {
    fn clone(&self) -> (r: Self)
        ensures
            r@ == self@,
    {
        Config {
            scratch_push: self.scratch_push,
            cats: clone_styles(&self.cats),
            lobby: self.lobby.clone(),
        }
    }
}

/// A white cat with a black outline.
pub open spec fn white_cat() -> CatStyle {
    CatStyle { body: 0x00ff_ffff, outline: 0x0000_0000, opacity: 255 }
}

/// The configuration of a user of the given name who has set nothing.
pub open spec fn fresh_config(name: Seq<char>) -> ConfigView {
    ConfigView {
        scratch_push: true,
        cats: seq![
            white_cat(),
            CatStyle { body: 0x00f4_d7f7, outline: 0x0024_2424, opacity: 224 },
        ],
        lobby: LobbyConfigView {
            endpoint: DEFAULT_ENDPOINT@,
            room_code: Seq::empty(),
            display_name: name,
        },
    }
}

/// A configuration with its gaps filled: at least one cat, a relay and a name.
pub open spec fn normalized(cfg: ConfigView, name: Seq<char>) -> ConfigView {
    ConfigView {
        scratch_push: cfg.scratch_push,
        cats: if cfg.cats.len() == 0 {
            seq![white_cat()]
        } else {
            cfg.cats
        },
        lobby: LobbyConfigView {
            endpoint: if cfg.lobby.endpoint.len() == 0 {
                DEFAULT_ENDPOINT@
            } else {
                cfg.lobby.endpoint
            },
            room_code: cfg.lobby.room_code,
            display_name: if cfg.lobby.display_name.len() == 0 {
                name
            } else {
                cfg.lobby.display_name
            },
        },
    }
}

/// The name for a user who has given none: what the system calls the user, first
/// by the variable of Windows, else by that of Unix; or a stand-in where that is
/// blank or missing.
pub open spec fn chosen_name(username: Option<Seq<char>>, user: Option<Seq<char>>) -> Seq<char> {
    let known = if username is Some {
        username
    } else {
        user
    };
    match known {
        Some(name) if trimmed(name).len() > 0 => name,
        _ => "cat owner"@,
    }
}

/// The name for a user who has given none, from the variables `USERNAME` and
/// `USER`.
pub fn default_name(username: Option<String>, user: Option<String>) -> (r: String)
    ensures
        r@ == chosen_name(username.deep_view(), user.deep_view()),
{
    let known = match username {
        Some(name) => Some(name),
        None => user,
    };
    if let Some(name) = known {
        if !name.as_str().trim().is_empty() {
            return name;
        }
    }
    "cat owner".to_string()
}

impl Config {
    /// The configuration of a user of the given name who has set nothing.
    pub fn fresh(name: &str) -> (r: Config)
        ensures
            r@ == fresh_config(name@),
    {
        let mut cats: Vec<CatStyle> = Vec::new();
        cats.push(Default::default());
        cats.push(CatStyle { body: 0x00f4_d7f7, outline: 0x0024_2424, opacity: 224 });
        let r = Config {
            scratch_push: true,
            cats,
            lobby: LobbyConfig {
                endpoint: DEFAULT_ENDPOINT.to_string(),
                room_code: String::new(),
                display_name: name.to_string(),
            },
        };
        assert(r@ =~= fresh_config(name@));
        r
    }
}

/// Fills the gaps of a configuration.
pub fn normalize_config(cfg: Config, name: &str) -> (r: Config)
    ensures
        r@ == normalized(cfg@, name@),
{
    let mut cfg = cfg;
    if cfg.cats.len() == 0 {
        cfg.cats.push(Default::default());
    }
    if cfg.lobby.endpoint.as_str().is_empty() {
        cfg.lobby.endpoint = DEFAULT_ENDPOINT.to_string();
    }
    if cfg.lobby.display_name.as_str().is_empty() {
        cfg.lobby.display_name = name.to_string();
    }
    cfg
}

/// The configuration to start with: the stored one with its gaps filled, or a
/// fresh one where none could be read.
pub fn load_config(stored: Option<Config>, name: &str) -> (r: Config)
    ensures
        r@ == (match stored {
            Some(cfg) => normalized(cfg@, name@),
            None => fresh_config(name@),
        }),
{
    match stored {
        Some(cfg) => normalize_config(cfg, name),
        None => Config::fresh(name),
    }
}

/// What is known of the lobby at the moment.
#[derive(Debug)]
pub struct LobbyRuntime {
    pub connected: bool,
    pub status: String,
    /// The identifier that the relay has given to this client.
    pub client_id: String,
    pub peers: Vec<PeerSnapshot>,
}

/// The contents of a [`LobbyRuntime`].
#[verifier::ext_equal]
pub struct LobbyRuntimeView {
    pub connected: bool,
    pub status: Seq<char>,
    pub client_id: Seq<char>,
    pub peers: Seq<PeerView>,
}

impl View for LobbyRuntime {
    type V = LobbyRuntimeView;

    open spec fn view(&self) -> LobbyRuntimeView {
        LobbyRuntimeView {
            connected: self.connected,
            status: self.status@,
            client_id: self.client_id@,
            peers: peer_views(self.peers@),
        }
    }
}

impl Default for LobbyRuntime {
    fn default() -> (r: Self)
        ensures
            r@ == (LobbyRuntimeView {
                connected: false,
                status: Seq::empty(),
                client_id: Seq::empty(),
                peers: Seq::empty(),
            }),
    {
        let r = LobbyRuntime {
            connected: false,
            status: String::new(),
            client_id: String::new(),
            peers: Vec::new(),
        };
        assert(r@.peers =~= Seq::empty());
        r
    }
}

/// What the window, the settings page and the network share.
#[derive(Debug)]
pub struct Shared {
    pub cfg: Config,
    /// The cat that the settings page shows.
    pub selected: usize,
    pub lobby: LobbyRuntime,
}

/// The contents of a [`Shared`].
#[verifier::ext_equal]
pub struct SharedView {
    pub cfg: ConfigView,
    pub selected: nat,
    pub lobby: LobbyRuntimeView,
}

impl View for Shared {
    type V = SharedView;

    open spec fn view(&self) -> SharedView {
        SharedView { cfg: self.cfg@, selected: self.selected as nat, lobby: self.lobby@ }
    }
}

impl SharedView {
    /// There is a cat, and the selected one is one of them.
    pub open spec fn valid(self) -> bool {
        self.selected < self.cfg.cats.len()
    }
}

/// What the settings page is told of the lobby.
#[derive(Debug)]
pub struct LobbyView {
    pub endpoint: String,
    pub room_code: String,
    pub display_name: String,
    pub connected: bool,
    pub status: String,
    /// The others in the room.
    pub peers: Vec<PeerSnapshot>,
}

/// What the settings page and the window are told.
#[derive(Debug)]
pub struct UiSnapshot {
    pub config: Config,
    pub selected: usize,
    pub lobby: LobbyView,
}

/// The contents of a [`UiSnapshot`].
#[verifier::ext_equal]
pub struct UiView {
    pub config: ConfigView,
    pub selected: nat,
    pub lobby: LobbyConfigView,
    pub connected: bool,
    pub status: Seq<char>,
    pub peers: Seq<PeerView>,
}

impl View for UiSnapshot {
    type V = UiView;

    open spec fn view(&self) -> UiView {
        UiView {
            config: self.config@,
            selected: self.selected as nat,
            lobby: LobbyConfigView {
                endpoint: self.lobby.endpoint@,
                room_code: self.lobby.room_code@,
                display_name: self.lobby.display_name@,
            },
            connected: self.lobby.connected,
            status: self.lobby.status@,
            peers: peer_views(self.lobby.peers@),
        }
    }
}

/// A selection that stays within the cats: the last one where it lies behind them.
pub open spec fn clamped(selected: nat, cats: nat) -> nat {
    if selected < cats {
        selected
    } else if cats == 0 {
        0
    } else {
        (cats - 1) as nat
    }
}

/// The peers without the one of the given identifier.
pub open spec fn others(peers: Seq<PeerView>, id: Seq<char>) -> Seq<PeerView> {
    peers.filter(|p: PeerView| p.id != id)
}

/// What the settings page and the window are told of a shared state.
pub open spec fn ui_of(shared: SharedView) -> UiView {
    UiView {
        config: shared.cfg,
        selected: clamped(shared.selected, shared.cfg.cats.len()),
        lobby: shared.cfg.lobby,
        connected: shared.lobby.connected,
        status: shared.lobby.status,
        peers: others(shared.lobby.peers, shared.lobby.client_id),
    }
}

/// A shared state after a change to its configuration: the selection is kept within
/// the cats, and gaps are filled.
pub open spec fn tidied(shared: SharedView, name: Seq<char>) -> SharedView {
    SharedView {
        cfg: normalized(shared.cfg, name),
        selected: clamped(shared.selected, shared.cfg.cats.len()),
        lobby: shared.lobby,
    }
}

/// Keeps a selection within the cats.
fn clamp(selected: usize, cats: usize) -> (r: usize)
    ensures
        r == clamped(selected as nat, cats as nat),
{
    if selected < cats {
        selected
    } else if cats == 0 {
        0
    } else {
        cats - 1
    }
}

/// Copies the peers without the one of the given identifier.
fn copy_others(peers: &Vec<PeerSnapshot>, id: &str) -> (r: Vec<PeerSnapshot>)
    ensures
        peer_views(r@) == others(peer_views(peers@), id@),
{
    let ghost all = peer_views(peers@);
    let ghost keep = |p: PeerView| p.id != id@;
    let mut out: Vec<PeerSnapshot> = Vec::new();
    let mut i: usize = 0;
    proof {
        reveal(Seq::filter);
        assert(peer_views(out@) =~= all.take(0).filter(keep));
    }
    while i < peers.len()
        invariant
            i <= peers@.len(),
            all == peer_views(peers@),
            keep == (|p: PeerView| p.id != id@),
            peer_views(out@) == all.take(i as int).filter(keep),
        decreases peers@.len() - i,
    {
        let ghost before = out@;
        proof {
            assert(all.take(i as int + 1) =~= all.take(i as int).push(all[i as int]));
            crate::lists::lemma_filter_push(all.take(i as int), all[i as int], keep);
        }
        if !same_text(&peers[i].id, id) {
            out.push(peers[i].clone());
            assert(peer_views(out@) =~= peer_views(before).push(all[i as int]));
        }
        i += 1;
    }
    assert(all.take(i as int) =~= all);
    out
}

/// What the settings page and the window are told.
pub fn snapshot_shared(shared: &Shared) -> (r: UiSnapshot)
    ensures
        r@ == ui_of(shared@),
{
    UiSnapshot {
        config: shared.cfg.clone(),
        selected: clamp(shared.selected, shared.cfg.cats.len()),
        lobby: LobbyView {
            endpoint: shared.cfg.lobby.endpoint.clone(),
            room_code: shared.cfg.lobby.room_code.clone(),
            display_name: shared.cfg.lobby.display_name.clone(),
            connected: shared.lobby.connected,
            status: shared.lobby.status.clone(),
            peers: copy_others(&shared.lobby.peers, &shared.lobby.client_id),
        },
    }
}

impl Shared {
    /// The shared state at the start.
    pub fn new(cfg: Config) -> (r: Shared)
        ensures
            r@.cfg == cfg@,
            r@.selected == 0,
            r@.lobby == (LobbyRuntimeView {
                connected: false,
                status: Seq::empty(),
                client_id: Seq::empty(),
                peers: Seq::empty(),
            }),
    {
        Shared { cfg, selected: 0, lobby: Default::default() }
    }

    /// Brings the shared state in order after a change to its configuration.
    pub fn tidy(&mut self, name: &str)
        ensures
            final(self)@ == tidied(old(self)@, name@),
    {
        self.selected = clamp(self.selected, self.cfg.cats.len());
        self.cfg = normalize_config(self.cfg.clone(), name);
    }

    /// Takes over a configuration from the settings page.
    pub fn replace_config(&mut self, cfg: Config, name: &str)
        ensures
            final(self)@ == tidied(
                SharedView { cfg: normalized(cfg@, name@), ..old(self)@ },
                name@,
            ),
            final(self)@.lobby == old(self)@.lobby,
    {
        self.cfg = normalize_config(cfg, name);
        self.tidy(name);
    }

    /// Notes the room that the relay has let this client into.
    pub fn set_room_code(&mut self, room_code: String, name: &str)
        ensures
            final(self)@ == tidied(
                SharedView {
                    cfg: ConfigView {
                        lobby: LobbyConfigView { room_code: room_code@, ..old(self)@.cfg.lobby },
                        ..old(self)@.cfg
                    },
                    ..old(self)@
                },
                name@,
            ),
    {
        self.cfg.lobby.room_code = room_code;
        self.tidy(name);
    }

    /// Selects the next cat, and the first one after the last.
    pub fn select_next(&mut self, name: &str)
        requires
            old(self)@.cfg.cats.len() > 0,
            old(self)@.selected < usize::MAX,
        ensures
            final(self)@ == tidied(
                SharedView {
                    selected: (old(self)@.selected + 1) % old(self)@.cfg.cats.len(),
                    ..old(self)@
                },
                name@,
            ),
            old(self)@.selected + 1 < old(self)@.cfg.cats.len() ==> final(self)@.selected == old(
                self,
            )@.selected + 1,
            old(self)@.selected + 1 == old(self)@.cfg.cats.len() ==> final(self)@.selected == 0,
            final(self)@.lobby == old(self)@.lobby,
            final(self)@.cfg.cats == old(self)@.cfg.cats,
    {
        proof {
            let n = self.cfg.cats@.len();
            if self.selected + 1 < n {
                vstd::arithmetic::div_mod::lemma_small_mod((self.selected + 1) as nat, n);
            } else if self.selected + 1 == n {
                vstd::arithmetic::div_mod::lemma_mod_self_0(n as int);
            }
        }
        self.selected = (self.selected + 1) % self.cfg.cats.len();
        self.tidy(name);
    }
}

/// Filling the gaps of a configuration leaves none, so filling them again changes
/// nothing, as long as there is a name to fill in where there was none.
pub proof fn law_normalizing_once_is_enough(
    cfg: ConfigView,
    name: Seq<char>,
    other_name: Seq<char>,
)
    requires
        name.len() > 0 || cfg.lobby.display_name.len() > 0,
    ensures
        normalized(cfg, name).cats.len() > 0,
        normalized(cfg, name).lobby.endpoint.len() > 0,
        normalized(cfg, name).lobby.display_name.len() > 0,
        normalized(normalized(cfg, name), other_name) == normalized(cfg, name),
{
    reveal_strlit("wss://oneko.nosh.zip/");
}

/// The name for a user who has given none is never blank.
pub proof fn law_default_names_are_not_blank(
    username: Option<Seq<char>>,
    user: Option<Seq<char>>,
)
    ensures
        trimmed(chosen_name(username, user)).len() > 0,
        chosen_name(username, user).len() > 0,
{
    reveal_strlit("cat owner");
}

/// A fresh configuration has no gaps to fill, as long as its user has a name.
pub proof fn law_fresh_configs_are_normal(name: Seq<char>, other_name: Seq<char>)
    requires
        name.len() > 0 || other_name.len() == 0,
    ensures
        normalized(fresh_config(name), other_name) == fresh_config(name),
{
    reveal_strlit("wss://oneko.nosh.zip/");
}

/// After every change to the configuration there is a cat, and the selected one is
/// one of them.
pub proof fn law_tidying_makes_valid(shared: SharedView, name: Seq<char>)
    ensures
        tidied(shared, name).valid(),
{
}

/// Tidying a state that was tidied changes nothing more, as long as there was a name
/// to fill in.
pub proof fn law_tidying_once_is_enough(shared: SharedView, name: Seq<char>, other_name: Seq<char>)
    requires
        name.len() > 0 || shared.cfg.lobby.display_name.len() > 0,
    ensures
        tidied(tidied(shared, name), other_name) == tidied(shared, name),
{
    law_normalizing_once_is_enough(shared.cfg, name, other_name);
}

/// The user is not shown among the peers, and everyone else is.
pub proof fn law_the_user_is_not_a_peer(shared: SharedView, peer: PeerView)
    ensures
        ui_of(shared).peers.contains(peer) <==> shared.lobby.peers.contains(peer) && peer.id
            != shared.lobby.client_id,
{
    let keep = |p: PeerView| p.id != shared.lobby.client_id;
    let peers = shared.lobby.peers;
    broadcast use vstd::seq_lib::group_filter_ensures;

    crate::lists::lemma_filter_elements(peers, keep);
    if ui_of(shared).peers.contains(peer) {
        let i = choose|i: int| 0 <= i < ui_of(shared).peers.len() && ui_of(shared).peers[i] == peer;
        assert(keep(peers.filter(keep)[i]));
        assert(peers.contains(peers.filter(keep)[i]));
    }
    if peers.contains(peer) && peer.id != shared.lobby.client_id {
        let i = choose|i: int| 0 <= i < peers.len() && peers[i] == peer;
        assert(keep(peers[i]));
        assert(peers.filter(keep).contains(peers[i]));
    }
}

} // verus!
