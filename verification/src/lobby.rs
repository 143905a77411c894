//! The client's side of the lobby: what it does on a command of the user, and what
//! it makes of what the relay says.

use crate::config::{others, tidied, ui_of, ConfigView, LobbyRuntimeView, Shared, SharedView};
use crate::protocol::{
    clone_styles, CatRenderSnapshot, CatStyle, ClientMessage, ClientMessageView, Coord, LobbyConfig,
    LobbyConfigView, ServerMessage, ServerMessageView, DEFAULT_ENDPOINT,
};
use crate::relay::{snapshot_of, Rooms};
use crate::session::welcome;
use crate::text::trimmed;
use vstd::prelude::*;

verus! {

/// What the user does at the moment, for the others in the room.
#[derive(Debug)]
pub struct LocalPresence {
    pub lobby: LobbyConfig,
    pub cursor_x: Coord,
    pub cursor_y: Coord,
    pub locked: bool,
    pub cats: Vec<CatStyle>,
    pub renders: Vec<CatRenderSnapshot>,
}

/// What the rest of the program asks of the network.
#[derive(Debug)]
pub enum NetCommand {
    /// Exchange news with the relay.
    Sync(LocalPresence),
    /// Open a room.
    Create(LobbyConfig),
    /// Come into a room.
    Join(LobbyConfig),
    /// Go.
    Leave,
}

/// How a client wants to enter a lobby.
#[derive(Clone, Copy, Debug, PartialEq, Eq, Structural)]
pub enum Entry {
    Create,
    Join,
}

/// What the network has to do on a command.
#[derive(Debug)]
pub enum NetAction {
    /// Connect to this address, if there is one, and enter the lobby.
    Connect { url: Option<String>, entry: Entry, lobby: LobbyConfig },
    /// Take leave and hang up.
    HangUp(ClientMessage),
    /// Take in what has arrived, then send this.
    Exchange(ClientMessage),
    /// Nothing.
    Rest,
}

/// The contents of a [`NetAction`].
#[verifier::ext_equal]
pub enum NetActionView {
    Connect { url: Option<Seq<char>>, entry: Entry, lobby: LobbyConfigView },
    HangUp(ClientMessageView),
    Exchange(ClientMessageView),
    Rest,
}

impl View for NetAction {
    type V = NetActionView;

    open spec fn view(&self) -> NetActionView {
        match self {
            NetAction::Connect { url, entry, lobby } => NetActionView::Connect {
                url: url.deep_view(),
                entry: *entry,
                lobby: lobby@,
            },
            NetAction::HangUp(message) => NetActionView::HangUp(message@),
            NetAction::Exchange(message) => NetActionView::Exchange(message@),
            NetAction::Rest => NetActionView::Rest,
        }
    }
}

/// Why an address is none.
#[verifier::external_type_specification]
#[verifier::external_body]
pub struct ExUrlParseError(url::ParseError);

/// The normal form of an absolute URL, as `Url::parse` and `Url::as_str` of the
/// crate `url` give it; nothing for a text that is none.
pub uninterp spec fn url_text(input: Seq<char>) -> Option<Seq<char>>;

/// `Url::parse` of the crate `url`, with the URL handed back as the text that its
/// `as_str` gives. What is claimed is that the result depends on the text alone.
#[verifier::external_body]
fn parse_url(input: &str) -> (r: Result<String, url::ParseError>)
    ensures
        match r {
            Ok(text) => url_text(input@) == Some(text@),
            Err(_) => url_text(input@) is None,
        },
{
    match url::Url::parse(input) {
        Ok(url) => Ok(url.as_str().to_string()),
        Err(error) => Err(error),
    }
}

/// The relay that an endpoint setting names: the setting without white space around
/// it, or the usual relay where it is blank.
pub open spec fn endpoint_of(setting: Seq<char>) -> Seq<char> {
    if trimmed(setting).len() == 0 {
        DEFAULT_ENDPOINT@
    } else {
        trimmed(setting)
    }
}

/// The relay that an endpoint setting names.
pub fn lobby_endpoint(setting: &str) -> (r: &str)
    ensures
        r@ == endpoint_of(setting@),
{
    let rest = setting.trim();
    if rest.is_empty() {
        DEFAULT_ENDPOINT
    } else {
        rest
    }
}

/// The address to connect to for a lobby; none where the setting is no URL.
pub fn lobby_url(lobby: &LobbyConfig) -> (r: Option<String>)
    ensures
        r.deep_view() == url_text(endpoint_of(lobby@.endpoint)),
{
    match parse_url(lobby_endpoint(&lobby.endpoint)) {
        Ok(url) => Some(url),
        Err(_) => None,
    }
}

/// What the network has to do on a command, given whether it has a connection.
pub open spec fn action_for(command: NetCommand, online: bool) -> NetActionView {
    match command {
        NetCommand::Create(lobby) => NetActionView::Connect {
            url: url_text(endpoint_of(lobby@.endpoint)),
            entry: Entry::Create,
            lobby: lobby@,
        },
        NetCommand::Join(lobby) => NetActionView::Connect {
            url: url_text(endpoint_of(lobby@.endpoint)),
            entry: Entry::Join,
            lobby: lobby@,
        },
        NetCommand::Leave => if online {
            NetActionView::HangUp(ClientMessageView::Leave)
        } else {
            NetActionView::Rest
        },
        NetCommand::Sync(local) => if online {
            NetActionView::Exchange(
                ClientMessageView::Presence {
                    cursor_x: local.cursor_x,
                    cursor_y: local.cursor_y,
                    locked: local.locked,
                    cats: local.cats@,
                    renders: local.renders@,
                },
            )
        } else {
            NetActionView::Rest
        },
    }
}

/// The shared state after a command: where the user has set up a lobby and there is
/// no connection, an empty status is filled.
pub open spec fn noted(shared: SharedView, command: NetCommand, online: bool) -> SharedView {
    match command {
        NetCommand::Sync(local) if !online && local.lobby@.room_code.len() > 0
            && local.lobby@.endpoint.len() > 0 && shared.lobby.status.len() == 0 => SharedView {
            lobby: LobbyRuntimeView { status: "Disconnected"@, ..shared.lobby },
            ..shared
        },
        _ => shared,
    }
}

/// Decides what the network has to do on a command.
pub fn react(shared: &mut Shared, command: NetCommand, online: bool) -> (r: NetAction)
    ensures
        r@ == action_for(command, online),
        final(shared)@ == noted(old(shared)@, command, online),
{
    match command {
        NetCommand::Create(lobby) => {
            NetAction::Connect { url: lobby_url(&lobby), entry: Entry::Create, lobby }
        },
        NetCommand::Join(lobby) => {
            NetAction::Connect { url: lobby_url(&lobby), entry: Entry::Join, lobby }
        },
        NetCommand::Leave => if online {
            NetAction::HangUp(ClientMessage::Leave)
        } else {
            NetAction::Rest
        },
        NetCommand::Sync(local) => if online {
            NetAction::Exchange(
                ClientMessage::Presence {
                    cursor_x: local.cursor_x,
                    cursor_y: local.cursor_y,
                    locked: local.locked,
                    cats: local.cats,
                    renders: local.renders,
                },
            )
        } else {
            if !local.lobby.room_code.as_str().is_empty() && !local.lobby.endpoint.as_str().is_empty()
                && shared.lobby.status.as_str().is_empty() {
                shared.lobby.status = "Disconnected".to_string();
            }
            NetAction::Rest
        },
    }
}

/// The shared state when connecting has succeeded or failed.
pub open spec fn dialled(shared: SharedView, up: bool) -> SharedView {
    SharedView {
        lobby: LobbyRuntimeView {
            connected: false,
            status: if up {
                "Connecting"@
            } else {
                "Connection failed"@
            },
            client_id: shared.lobby.client_id,
            peers: Seq::empty(),
        },
        ..shared
    }
}

/// What a client says first on a connection.
pub open spec fn hello(
    entry: Entry,
    lobby: LobbyConfigView,
    cats: Seq<CatStyle>,
) -> ClientMessageView {
    match entry {
        Entry::Create => ClientMessageView::CreateRoom { display_name: lobby.display_name, cats },
        Entry::Join => ClientMessageView::JoinRoom {
            room_code: lobby.room_code,
            display_name: lobby.display_name,
            cats,
        },
    }
}

/// Notes that connecting has succeeded or failed, forgets the identifier of the
/// last connection, and gives what to say first.
pub fn after_dialling(
    shared: &mut Shared,
    client_id: &mut String,
    up: bool,
    entry: Entry,
    lobby: &LobbyConfig,
) -> (r: Option<ClientMessage>)
    ensures
        final(shared)@ == dialled(old(shared)@, up),
        final(client_id)@ == Seq::<char>::empty(),
        r is Some == up,
        r is Some ==> r->0@ == hello(entry, lobby@, old(shared)@.cfg.cats),
        r matches Some(ClientMessage::CreateRoom { display_name, cats }) ==> entry == Entry::Create
            && display_name@ == lobby@.display_name && cats@ == old(shared)@.cfg.cats,
        r matches Some(ClientMessage::JoinRoom { room_code, display_name, cats }) ==> entry
            == Entry::Join && room_code@ == lobby@.room_code && display_name@
            == lobby@.display_name && cats@ == old(shared)@.cfg.cats,
        r matches Some(message) ==> message is CreateRoom || message is JoinRoom,
{
    *client_id = String::new();
    shared.lobby.status = if up {
        "Connecting".to_string()
    } else {
        "Connection failed".to_string()
    };
    shared.lobby.connected = false;
    shared.lobby.peers = Vec::new();
    assert(shared@.lobby.peers =~= Seq::empty());
    assert(shared@ =~= dialled(old(shared)@, up));
    if !up {
        return None;
    }
    let cats = clone_styles(&shared.cfg.cats);
    Some(
        match entry {
            Entry::Create => ClientMessage::CreateRoom {
                display_name: lobby.display_name.clone(),
                cats,
            },
            Entry::Join => ClientMessage::JoinRoom {
                room_code: lobby.room_code.clone(),
                display_name: lobby.display_name.clone(),
                cats,
            },
        },
    )
}

/// The status line in a room.
pub open spec fn connected_to(room_code: Seq<char>) -> Seq<char> {
    "Connected to "@ + room_code
}

/// Writes the status line for a room.
fn write_connected_to(room_code: &str) -> (r: String)
    ensures
        r@ == connected_to(room_code@),
{
    let mut status = "Connected to ".to_string();
    status.append(room_code);
    status
}

/// The shared state after a message of the relay.
pub open spec fn received(
    shared: SharedView,
    message: ServerMessageView,
    name: Seq<char>,
) -> SharedView {
    match message {
        ServerMessageView::Joined { client_id, room_code, peers } => {
            let noted = SharedView {
                cfg: ConfigView {
                    lobby: LobbyConfigView { room_code, ..shared.cfg.lobby },
                    ..shared.cfg
                },
                ..shared
            };
            SharedView {
                lobby: LobbyRuntimeView {
                    connected: true,
                    status: connected_to(room_code),
                    client_id,
                    peers,
                },
                ..tidied(noted, name)
            }
        },
        ServerMessageView::Snapshot { room_code, peers } => SharedView {
            lobby: LobbyRuntimeView {
                connected: true,
                status: connected_to(room_code),
                client_id: shared.lobby.client_id,
                peers,
            },
            ..shared
        },
        ServerMessageView::Error { message } => SharedView {
            lobby: LobbyRuntimeView {
                connected: false,
                status: message,
                client_id: shared.lobby.client_id,
                peers: Seq::empty(),
            },
            ..shared
        },
    }
}

/// Takes in a message of the relay. The result says whether the configuration has
/// changed and is to be stored.
pub fn handle_server_message(
    shared: &mut Shared,
    client_id: &mut String,
    message: ServerMessage,
    name: &str,
) -> (store: bool)
    ensures
        final(shared)@ == received(old(shared)@, message@, name@),
        final(client_id)@ == (match message@ {
            ServerMessageView::Joined { client_id: id, .. } => id,
            _ => old(client_id)@,
        }),
        store == (message@ is Joined),
{
    match message {
        ServerMessage::Joined { client_id: id, room_code, peers } => {
            *client_id = id.clone();
            let status = write_connected_to(&room_code);
            shared.set_room_code(room_code, name);
            shared.lobby.client_id = id;
            shared.lobby.connected = true;
            shared.lobby.status = status;
            shared.lobby.peers = peers;
            true
        },
        ServerMessage::Snapshot { room_code, peers } => {
            shared.lobby.connected = true;
            shared.lobby.status = write_connected_to(&room_code);
            shared.lobby.peers = peers;
            false
        },
        ServerMessage::Error { message } => {
            shared.lobby.connected = false;
            shared.lobby.status = message;
            shared.lobby.peers = Vec::new();
            assert(shared@.lobby.peers =~= Seq::empty());
            false
        },
    }
}

/// The shared state when the user has left the lobby.
pub open spec fn left_lobby(shared: SharedView) -> SharedView {
    SharedView {
        lobby: LobbyRuntimeView {
            connected: false,
            status: "Disconnected"@,
            client_id: Seq::empty(),
            peers: Seq::empty(),
        },
        ..shared
    }
}

/// Forgets the lobby that the user leaves.
pub fn leave_lobby(shared: &mut Shared)
    ensures
        final(shared)@ == left_lobby(old(shared)@),
{
    shared.lobby.connected = false;
    shared.lobby.client_id = String::new();
    shared.lobby.peers = Vec::new();
    shared.lobby.status = "Disconnected".to_string();
    assert(shared@.lobby.peers =~= Seq::empty());
}

/// What the relay tells a client that has come into a room reaches the user: the
/// code of the room is noted in the configuration, the lobby counts as connected,
/// and the user is shown the others in the room.
pub proof fn law_welcomes_are_understood(
    shared: SharedView,
    rooms: Rooms,
    code: Seq<char>,
    id: Seq<char>,
    name: Seq<char>,
)
    ensures
        ({
            let after = received(shared, welcome(rooms, code, id), name);
            &&& after.valid()
            &&& after.cfg.lobby.room_code == code
            &&& after.lobby.connected
            &&& after.lobby.client_id == id
            &&& ui_of(after).peers == others(snapshot_of(rooms, code), id)
        }),
{
}

/// A message of the relay keeps a shared state in order.
pub proof fn law_messages_keep_shared_valid(
    shared: SharedView,
    message: ServerMessageView,
    name: Seq<char>,
)
    requires
        shared.valid(),
    ensures
        received(shared, message, name).valid(),
{
}

/// While the lobby does not count as connected after a message, no peers are shown.
pub proof fn law_no_peers_without_connection(
    shared: SharedView,
    message: ServerMessageView,
    name: Seq<char>,
)
    ensures
        !received(shared, message, name).lobby.connected ==> ui_of(
            received(shared, message, name),
        ).peers == Seq::<crate::protocol::PeerView>::empty(),
{
    reveal(Seq::filter);
}

} // verus!
