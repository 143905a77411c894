//! The settings page and the tray menu: what is asked of them, and what they
//! answer.

use crate::config::{normalized, tidied, Config, Shared, SharedView, UiSnapshot};
use crate::lobby::{leave_lobby, left_lobby, NetCommand};
use crate::protocol::LobbyConfigView;
use crate::text::{numeral, same_text, write_numeral};
use vstd::prelude::*;
use vstd::string::*;
use vstd::utf8::encode_utf8;

verus! {

/// The methods of a request that are told apart.
#[derive(Clone, Copy, Debug, PartialEq, Eq, Structural)]
pub enum HttpMethod {
    Get,
    Post,
    Other,
}

/// What a request asks for.
#[derive(Clone, Copy, Debug, PartialEq, Eq, Structural)]
pub enum Route {
    /// The settings page.
    Page,
    /// The sprite sheet.
    Picture,
    /// The state of the program.
    State,
    /// To take over a configuration.
    SetConfig,
    /// To open a room.
    CreateLobby,
    /// To come into a room.
    JoinLobby,
    /// To leave the room.
    LeaveLobby,
    /// Something that there is not.
    Unknown,
}

/// What a method and a path ask for.
pub open spec fn route_of(method: HttpMethod, url: Seq<char>) -> Route {
    if method == HttpMethod::Get && url == "/"@ {
        Route::Page
    } else if method == HttpMethod::Get && url == "/oneko.png"@ {
        Route::Picture
    } else if method == HttpMethod::Get && url == "/api/state"@ {
        Route::State
    } else if method == HttpMethod::Post && url == "/api/config"@ {
        Route::SetConfig
    } else if method == HttpMethod::Post && url == "/api/lobby/create"@ {
        Route::CreateLobby
    } else if method == HttpMethod::Post && url == "/api/lobby/join"@ {
        Route::JoinLobby
    } else if method == HttpMethod::Post && url == "/api/lobby/leave"@ {
        Route::LeaveLobby
    } else {
        Route::Unknown
    }
}

/// Tells what a request asks for.
pub fn route(method: HttpMethod, url: &str) -> (r: Route)
    ensures
        r == route_of(method, url@),
{
    match method {
        HttpMethod::Get => if same_text(url, "/") {
            Route::Page
        } else if same_text(url, "/oneko.png") {
            Route::Picture
        } else if same_text(url, "/api/state") {
            Route::State
        } else {
            Route::Unknown
        },
        HttpMethod::Post => if same_text(url, "/api/config") {
            Route::SetConfig
        } else if same_text(url, "/api/lobby/create") {
            Route::CreateLobby
        } else if same_text(url, "/api/lobby/join") {
            Route::JoinLobby
        } else if same_text(url, "/api/lobby/leave") {
            Route::LeaveLobby
        } else {
            Route::Unknown
        },
        HttpMethod::Other => Route::Unknown,
    }
}

/// An answer to a request.
#[derive(Debug)]
pub struct Reply {
    pub status: u16,
    pub body: Vec<u8>,
    pub content_type: String,
}

/// The contents of a [`Reply`].
#[verifier::ext_equal]
pub struct ReplyView {
    pub status: u16,
    pub body: Seq<u8>,
    pub content_type: Seq<char>,
}

impl View for Reply {
    type V = ReplyView;

    open spec fn view(&self) -> ReplyView {
        ReplyView {
            status: self.status,
            body: self.body@,
            content_type: self.content_type@,
        }
    }
}

/// An answer of the given status, body and type.
pub fn response_status(status: u16, body: Vec<u8>, content_type: &str) -> (r: Reply)
    ensures
        r@ == (ReplyView { status, body: body@, content_type: content_type@ }),
{
    Reply { status, body, content_type: content_type.to_string() }
}

/// An answer that is a text.
pub fn html_response(body: &str, content_type: &str) -> (r: Reply)
    ensures
        r@ == (ReplyView {
            status: 200,
            body: encode_utf8(body@),
            content_type: content_type@,
        }),
{
    response_status(200, body.as_bytes_vec(), content_type)
}

/// An answer that is made of bytes.
pub fn bytes_response(body: Vec<u8>, content_type: &str) -> (r: Reply)
    ensures
        r@ == (ReplyView { status: 200, body: body@, content_type: content_type@ }),
{
    response_status(200, body, content_type)
}

/// An answer in JSON.
pub fn json_response(body: Vec<u8>) -> (r: Reply)
    ensures
        r@ == (ReplyView { status: 200, body: body@, content_type: "application/json"@ }),
{
    response_status(200, body, "application/json")
}

/// What a request leads to.
#[derive(Debug)]
pub struct Answer {
    pub reply: Reply,
    /// What the network has to do.
    pub command: Option<NetCommand>,
    /// Whether the configuration has changed and is to be stored.
    pub store: bool,
}

/// The answer that says that all went well.
pub open spec fn fine() -> ReplyView {
    ReplyView {
        status: 200,
        body: encode_utf8("{\"ok\":true}"@),
        content_type: "application/json"@,
    }
}

/// The answer to a request. For the page, the picture and the state, `content` is
/// what is asked for; a configuration is accepted where one could be read.
pub open spec fn reply_for(route: Route, content: Seq<u8>, readable: bool) -> ReplyView {
    match route {
        Route::Page => ReplyView {
            status: 200,
            body: content,
            content_type: "text/html; charset=utf-8"@,
        },
        Route::Picture => ReplyView { status: 200, body: content, content_type: "image/png"@ },
        Route::State => ReplyView {
            status: 200,
            body: content,
            content_type: "application/json"@,
        },
        Route::SetConfig => if readable {
            fine()
        } else {
            ReplyView {
                status: 400,
                body: encode_utf8("bad config"@),
                content_type: "text/plain"@,
            }
        },
        Route::CreateLobby | Route::JoinLobby | Route::LeaveLobby => fine(),
        Route::Unknown => ReplyView {
            status: 404,
            body: encode_utf8("not found"@),
            content_type: "text/plain"@,
        },
    }
}

/// The shared state after a request.
pub open spec fn after_request(
    shared: SharedView,
    route: Route,
    config: Option<Config>,
    name: Seq<char>,
) -> SharedView {
    match (route, config) {
        (Route::SetConfig, Some(cfg)) => tidied(
            SharedView { cfg: normalized(cfg@, name), ..shared },
            name,
        ),
        (Route::LeaveLobby, _) => left_lobby(shared),
        _ => shared,
    }
}

/// Whether a command is the one that a request gives to the network.
pub open spec fn commanded(
    route: Route,
    lobby: LobbyConfigView,
    command: Option<NetCommand>,
) -> bool {
    match route {
        Route::CreateLobby => command matches Some(NetCommand::Create(l)) && l@ == lobby,
        Route::JoinLobby => command matches Some(NetCommand::Join(l)) && l@ == lobby,
        Route::LeaveLobby => command matches Some(NetCommand::Leave),
        _ => command is None,
    }
}

/// Answers a request. For the page, the picture and the state, `content` is what is
/// asked for; `config` is the configuration that came with the request, if one
/// could be read; `name` is the name for a user who has given none.
pub fn answer(
    shared: &mut Shared,
    route: Route,
    content: Vec<u8>,
    config: Option<Config>,
    name: &str,
) -> (r: Answer)
    ensures
        r.reply@ == reply_for(route, content@, config is Some),
        final(shared)@ == after_request(old(shared)@, route, config, name@),
        commanded(route, old(shared)@.cfg.lobby, r.command),
        r.store == (route == Route::SetConfig && config is Some),
{
    match route {
        Route::Page => Answer {
            reply: bytes_response(content, "text/html; charset=utf-8"),
            command: None,
            store: false,
        },
        Route::Picture => Answer {
            reply: bytes_response(content, "image/png"),
            command: None,
            store: false,
        },
        Route::State => Answer { reply: json_response(content), command: None, store: false },
        Route::SetConfig => match config {
            Some(cfg) => {
                shared.replace_config(cfg, name);
                Answer { reply: ok_response(), command: None, store: true }
            },
            None => Answer {
                reply: response_status(400, "bad config".as_bytes_vec(), "text/plain"),
                command: None,
                store: false,
            },
        },
        Route::CreateLobby => Answer {
            reply: ok_response(),
            command: Some(NetCommand::Create(shared.cfg.lobby.clone())),
            store: false,
        },
        Route::JoinLobby => Answer {
            reply: ok_response(),
            command: Some(NetCommand::Join(shared.cfg.lobby.clone())),
            store: false,
        },
        Route::LeaveLobby => {
            leave_lobby(shared);
            Answer { reply: ok_response(), command: Some(NetCommand::Leave), store: false }
        },
        Route::Unknown => Answer {
            reply: response_status(404, "not found".as_bytes_vec(), "text/plain"),
            command: None,
            store: false,
        },
    }
}

/// The answer that says that all went well.
fn ok_response() -> (r: Reply)
    ensures
        r@ == fine(),
{
    json_response("{\"ok\":true}".as_bytes_vec())
}

/// The number of the menu entry that ends the program.
pub const CMD_EXIT: usize = 1001;

/// The number of the menu entry that selects the next cat.
pub const CMD_NEXT: usize = 1008;

/// The number of the menu entry that opens the settings page.
pub const CMD_SETTINGS: usize = 1009;

/// What a menu entry asks for.
#[derive(Clone, Copy, Debug, PartialEq, Eq, Structural)]
pub enum TrayCommand {
    Settings,
    Next,
    Exit,
    Nothing,
}

/// The number of a menu entry, which is in the low sixteen bits of a message.
pub fn cmd(id: usize) -> (r: usize)
    ensures
        r == id % 0x1_0000,
{
    assert(id & 0xffff == id % 0x1_0000) by (bit_vector);
    id & 0xffff
}

/// What a menu message asks for.
pub fn tray_command(id: usize) -> (r: TrayCommand)
    ensures
        r == (if id % 0x1_0000 == CMD_SETTINGS {
            TrayCommand::Settings
        } else if id % 0x1_0000 == CMD_NEXT {
            TrayCommand::Next
        } else if id % 0x1_0000 == CMD_EXIT {
            TrayCommand::Exit
        } else {
            TrayCommand::Nothing
        }),
{
    let entry = cmd(id);
    if entry == CMD_SETTINGS {
        TrayCommand::Settings
    } else if entry == CMD_NEXT {
        TrayCommand::Next
    } else if entry == CMD_EXIT {
        TrayCommand::Exit
    } else {
        TrayCommand::Nothing
    }
}

/// A label with a number behind it.
fn numbered(label: &str, n: usize) -> (r: String)
    ensures
        r@ == label@ + numeral(n as nat, 10),
{
    let mut text = label.to_string();
    let digits = write_numeral(n as u128, 10);
    text.append(&digits);
    text
}

/// The menu entry that counts the cats.
pub fn cats_label(state: &UiSnapshot) -> (r: String)
    ensures
        r@ == "Cats: "@ + numeral(state@.config.cats.len(), 10),
{
    numbered("Cats: ", state.config.cats.len())
}

/// The menu entry that names the selected cat, counting from one.
pub fn selected_label(state: &UiSnapshot) -> (r: String)
    requires
        state@.selected < usize::MAX,
    ensures
        r@ == "Selected: "@ + numeral(state@.selected + 1, 10),
{
    numbered("Selected: ", state.selected + 1)
}

/// A request keeps a shared state in order.
pub proof fn law_requests_keep_shared_valid(
    shared: SharedView,
    route: Route,
    config: Option<Config>,
    name: Seq<char>,
)
    requires
        shared.valid(),
    ensures
        after_request(shared, route, config, name).valid(),
{
}

/// A request whose configuration cannot be read, or that asks for something that
/// there is not, changes nothing and is told so.
pub proof fn law_bad_requests_change_nothing(
    shared: SharedView,
    route: Route,
    content: Seq<u8>,
    config: Option<Config>,
    name: Seq<char>,
)
    requires
        reply_for(route, content, config is Some).status != 200,
    ensures
        after_request(shared, route, config, name) == shared,
        route == Route::SetConfig || route == Route::Unknown,
        route == Route::SetConfig ==> reply_for(route, content, config is Some).status == 400,
        route == Route::Unknown ==> reply_for(route, content, config is Some).status == 404,
{
}

/// Only taking over a configuration and leaving the lobby change the shared state.
/// The one takes over everything that the configuration sets and leaves the lobby
/// alone, the other forgets the lobby and leaves the configuration alone.
pub proof fn law_requests_change_what_they_ask_for(
    shared: SharedView,
    route: Route,
    config: Option<Config>,
    name: Seq<char>,
)
    ensures
        ({
            let after = after_request(shared, route, config, name);
            &&& route != Route::SetConfig && route != Route::LeaveLobby ==> after == shared
            &&& config is None && route != Route::LeaveLobby ==> after == shared
            &&& route != Route::LeaveLobby ==> after.lobby == shared.lobby
            &&& route == Route::LeaveLobby ==> after.cfg == shared.cfg && after.selected
                == shared.selected && !after.lobby.connected && after.lobby.peers.len() == 0
                && after.lobby.client_id.len() == 0 && after.lobby.status == "Disconnected"@
            &&& route == Route::SetConfig ==> (config matches Some(cfg) ==> {
                &&& after.cfg.scratch_push == cfg.scratch_push
                &&& after.cfg.lobby.room_code == cfg.lobby.room_code@
                &&& cfg.cats@.len() > 0 ==> after.cfg.cats == cfg.cats@
                &&& cfg.lobby.endpoint@.len() > 0 ==> after.cfg.lobby.endpoint
                    == cfg.lobby.endpoint@
                &&& cfg.lobby.display_name@.len() > 0 ==> after.cfg.lobby.display_name
                    == cfg.lobby.display_name@
                &&& shared.selected < cfg.cats@.len() ==> after.selected == shared.selected
            })
        }),
{
}

/// The page, the picture and the state are handed out as they are, with their types,
/// and every other request that is granted is answered in the same words.
pub proof fn law_replies_hand_out_what_is_asked_for(
    route: Route,
    content: Seq<u8>,
    readable: bool,
)
    ensures
        ({
            let reply = reply_for(route, content, readable);
            &&& route == Route::Page || route == Route::Picture || route == Route::State
                ==> reply.status == 200 && reply.body == content
            &&& route == Route::Page ==> reply.content_type == "text/html; charset=utf-8"@
            &&& route == Route::Picture ==> reply.content_type == "image/png"@
            &&& route == Route::State ==> reply.content_type == "application/json"@
            &&& route == Route::CreateLobby || route == Route::JoinLobby || route
                == Route::LeaveLobby || (route == Route::SetConfig && readable) ==> reply.status
                == 200 && reply.body == encode_utf8("{\"ok\":true}"@) && reply.content_type
                == "application/json"@
            &&& route == Route::SetConfig && !readable ==> reply.status == 400 && reply.body
                == encode_utf8("bad config"@)
            &&& route == Route::Unknown ==> reply.status == 404 && reply.body == encode_utf8(
                "not found"@,
            )
        }),
{
}

/// Opening and joining a room is asked of the network for the lobby as it is set up,
/// leaving is asked for as such, and nothing else is asked of it.
pub proof fn law_the_network_is_asked_for_the_lobby(
    route: Route,
    lobby: LobbyConfigView,
    command: Option<NetCommand>,
)
    requires
        commanded(route, lobby, command),
    ensures
        route == Route::CreateLobby ==> (command matches Some(NetCommand::Create(l))
            && l.endpoint@ == lobby.endpoint && l.room_code@ == lobby.room_code
            && l.display_name@ == lobby.display_name),
        route == Route::JoinLobby ==> (command matches Some(NetCommand::Join(l)) && l.endpoint@
            == lobby.endpoint && l.room_code@ == lobby.room_code && l.display_name@
            == lobby.display_name),
        route == Route::LeaveLobby ==> command matches Some(NetCommand::Leave),
        route != Route::CreateLobby && route != Route::JoinLobby && route != Route::LeaveLobby
            ==> command is None,
{
}

} // verus!
