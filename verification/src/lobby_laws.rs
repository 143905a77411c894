//! What holds between the client, its user and the relay.

use crate::config::{
    law_the_user_is_not_a_peer, normalized, tidied, ui_of, ConfigView, SharedView,
};
use crate::lobby::{
    action_for, dialled, hello, left_lobby, noted, received, url_text, Entry, LocalPresence,
    NetActionView, NetCommand,
};
use crate::protocol::{
    CatStyle, ClientMessageView, LobbyConfig, LobbyConfigView, PeerView, ServerMessageView,
};
use crate::relay::RelayView;
use crate::relay_laws::peers_told;
use crate::room::ReportView;
use crate::room_laws::{law_reports_are_accepted, may_report};
use crate::sanitize::{clean_name, clean_room_code};
use crate::session::{updated, verdict, SessionView, VerdictView};
use crate::text::trimmed;
use vstd::prelude::*;

verus! {

/// What a client says first is what its user wants, and the relay takes it: where
/// the configuration has one to eight cats and the name is acceptable, and for a join
/// the room code too, the relay's verdict is to open or to join a room under that
/// name with exactly those cats. With no cats, or more, it is never that.
pub proof fn law_first_words_are_accepted(
    lobby: LobbyConfigView,
    cats: Seq<CatStyle>,
    session: SessionView,
    now: u128,
)
    ensures
        clean_name(lobby.display_name) is Some && 1 <= cats.len() <= 8 ==> verdict(
            session,
            hello(Entry::Create, lobby, cats),
            now,
        ) == (VerdictView::Create { name: clean_name(lobby.display_name)->0, cats }),
        clean_name(lobby.display_name) is Some && clean_room_code(lobby.room_code) is Some && 1
            <= cats.len() <= 8 ==> verdict(session, hello(Entry::Join, lobby, cats), now) == (
        VerdictView::Join {
            code: clean_room_code(lobby.room_code)->0,
            name: clean_name(lobby.display_name)->0,
            cats,
        }),
        cats.len() == 0 || cats.len() > 8 ==> verdict(
            session,
            hello(Entry::Create, lobby, cats),
            now,
        ) is Refuse && verdict(session, hello(Entry::Join, lobby, cats), now) is Refuse,
{
}

/// What a client says first carries the name and the cats that it was given, and for
/// a join the code as well, letter for letter.
pub proof fn law_first_words_carry_the_configuration(lobby: LobbyConfigView, cats: Seq<CatStyle>)
    ensures
        ({
            let create = hello(Entry::Create, lobby, cats);
            let join = hello(Entry::Join, lobby, cats);
            &&& create is CreateRoom
            &&& create->CreateRoom_display_name == lobby.display_name
            &&& create->CreateRoom_cats == cats
            &&& join is JoinRoom
            &&& join->room_code == lobby.room_code
            &&& join->JoinRoom_display_name == lobby.display_name
            &&& join->JoinRoom_cats == cats
        }),
{
}

/// The requests that the relay takes, and what it makes of them: the cleaned name,
/// the cleaned code and the cats as they were sent.
pub proof fn law_requests_are_taken_as_they_are(
    session: SessionView,
    room_code: Seq<char>,
    display_name: Seq<char>,
    cats: Seq<CatStyle>,
    now: u128,
)
    ensures
        ({
            let request = ClientMessageView::CreateRoom { display_name, cats };
            let ok = clean_name(display_name) is Some && 1 <= cats.len() <= 8;
            &&& ok ==> verdict(session, request, now) == (VerdictView::Create {
                name: clean_name(display_name)->0,
                cats,
            })
            &&& !ok ==> verdict(session, request, now) is Refuse
        }),
        ({
            let request = ClientMessageView::JoinRoom { room_code, display_name, cats };
            let ok = clean_room_code(room_code) is Some && clean_name(display_name) is Some && 1
                <= cats.len() <= 8;
            &&& ok ==> verdict(session, request, now) == (VerdictView::Join {
                code: clean_room_code(room_code)->0,
                name: clean_name(display_name)->0,
                cats,
            })
            &&& !ok ==> verdict(session, request, now) is Refuse
        }),
        verdict(session, ClientMessageView::Leave, now) == VerdictView::Leave,
{
}

/// What the user does is what the relay takes for it: the news of a client that is
/// online carries its cursor, its rest, its cats and their drawings as they are, and
/// where the relay may take them, it takes exactly those.
pub proof fn law_news_is_accepted(local: LocalPresence, session: SessionView, now: u128)
    ensures
        ({
            let action = action_for(NetCommand::Sync(local), true);
            let (x, y) = (local.cursor_x, local.cursor_y);
            &&& action matches NetActionView::Exchange(message)
            &&& message is Presence
            &&& message->cursor_x == x
            &&& message->cursor_y == y
            &&& message->locked == local.locked
            &&& message->Presence_cats == local.cats@
            &&& message->renders == local.renders@
            &&& may_report(session, x, y, local.cats@, local.renders@, now) ==> verdict(
                session,
                message,
                now,
            ) == VerdictView::Update(
                ReportView {
                    cursor_x: x,
                    cursor_y: y,
                    locked: local.locked,
                    cats: local.cats@,
                    renders: local.renders@,
                },
            )
        }),
        action_for(NetCommand::Sync(local), false) is Rest,
{
    law_reports_are_accepted(
        session,
        local.cursor_x,
        local.cursor_y,
        local.locked,
        local.cats@,
        local.renders@,
        now,
    );
}

/// A shared state after a run of messages of the relay.
pub open spec fn received_all(
    shared: SharedView,
    messages: Seq<ServerMessageView>,
    name: Seq<char>,
) -> SharedView
    decreases messages.len(),
{
    if messages.len() == 0 {
        shared
    } else {
        received(received_all(shared, messages.drop_last(), name), messages.last(), name)
    }
}

proof fn lemma_no_welcome(shared: SharedView, messages: Seq<ServerMessageView>, name: Seq<char>)
    requires
        forall|i: int| 0 <= i < messages.len() ==> !(#[trigger] messages[i] is Joined),
    ensures
        received_all(shared, messages, name).cfg == shared.cfg,
        received_all(shared, messages, name).selected == shared.selected,
        received_all(shared, messages, name).lobby.client_id == shared.lobby.client_id,
    decreases messages.len(),
{
    if messages.len() > 0 {
        let rest = messages.drop_last();
        assert forall|i: int| 0 <= i < rest.len() implies !(#[trigger] rest[i] is Joined) by {
            assert(messages[i] == rest[i]);
        }
        lemma_no_welcome(shared, rest, name);
        assert(!(messages[messages.len() - 1] is Joined));
    }
}

/// After a welcome under an identifier, and any number of snapshots and errors after
/// it, the user is never shown among the others: behind a snapshot the peers shown
/// are those of that snapshot with another identifier, in their order, and behind an
/// error there are none. The room of the welcome stays noted.
pub proof fn law_the_user_stays_out_of_the_peers(
    shared: SharedView,
    id: Seq<char>,
    code: Seq<char>,
    first: Seq<PeerView>,
    messages: Seq<ServerMessageView>,
    name: Seq<char>,
)
    requires
        forall|i: int| 0 <= i < messages.len() ==> !(#[trigger] messages[i] is Joined),
    ensures
        ({
            let joined = ServerMessageView::Joined {
                client_id: id,
                room_code: code,
                peers: first,
            };
            let after = received_all(received(shared, joined, name), messages, name);
            let last = if messages.len() == 0 {
                joined
            } else {
                messages.last()
            };
            &&& after.lobby.client_id == id
            &&& after.cfg.lobby.room_code == code
            &&& after.lobby.connected == !(last is Error)
            &&& ui_of(after).peers == (match last {
                ServerMessageView::Joined { peers, .. } => peers.filter(
                    |p: PeerView| p.id != id,
                ),
                ServerMessageView::Snapshot { peers, .. } => peers.filter(
                    |p: PeerView| p.id != id,
                ),
                ServerMessageView::Error { .. } => Seq::empty(),
            })
            &&& ui_of(after).status == (match last {
                ServerMessageView::Joined { .. } => "Connected to "@ + code,
                ServerMessageView::Snapshot { room_code, .. } => "Connected to "@ + room_code,
                ServerMessageView::Error { message } => message,
            })
        }),
{
    let joined = ServerMessageView::Joined { client_id: id, room_code: code, peers: first };
    let welcomed = received(shared, joined, name);
    lemma_no_welcome(welcomed, messages, name);
    let after = received_all(welcomed, messages, name);
    if messages.len() > 0 {
        let before = received_all(welcomed, messages.drop_last(), name);
        assert forall|i: int|
            0 <= i < messages.drop_last().len() implies !(#[trigger] messages.drop_last()[i]
            is Joined) by {
            assert(messages[i] == messages.drop_last()[i]);
        }
        lemma_no_welcome(welcomed, messages.drop_last(), name);
        assert(after == received(before, messages.last(), name));
        assert(!(messages[messages.len() - 1] is Joined));
    }
    reveal(Seq::filter);
    assert(Seq::<PeerView>::empty().filter(|p: PeerView| p.id != id) =~= Seq::empty());
}

/// What one client reports another one is shown: the user of another member of the
/// room, who has taken in the message that the relay then sends it, sees the one that
/// reported with the cursor, the rest, the cats and the drawings of the report.
pub proof fn law_reports_are_shown_to_the_others(
    relay: RelayView,
    session: SessionView,
    report: ReportView,
    now: u128,
    i: int,
    k: int,
    shared: SharedView,
    name: Seq<char>,
)
    requires
        relay.rooms.contains_key(session.room_code),
        0 <= i < relay.rooms[session.room_code].len(),
        0 <= k < relay.rooms[session.room_code].len(),
        relay.rooms[session.room_code][i].peer.id == session.client_id,
        relay.rooms[session.room_code][k].peer.id == shared.lobby.client_id,
        session.client_id != shared.lobby.client_id,
    ensures
        ({
            let members = relay.rooms[session.room_code];
            let sends = updated(relay, session, report, now).sends;
            let ui = ui_of(received(shared, sends[k].message, name));
            &&& sends[k].to == members[k].link
            &&& ui.connected
            &&& ui.peers.contains(
                PeerView {
                    id: session.client_id,
                    display_name: members[i].peer.display_name,
                    cursor_x: report.cursor_x,
                    cursor_y: report.cursor_y,
                    locked: report.locked,
                    cats: report.cats,
                    renders: report.renders,
                },
            )
            &&& forall|j: int|
                0 <= j < ui.peers.len() ==> (#[trigger] ui.peers[j]).id != shared.lobby.client_id
        }),
{
    let members = relay.rooms[session.room_code];
    let sends = updated(relay, session, report, now).sends;
    let after = received(shared, sends[k].message, name);
    let peers = peers_told(sends[k].message);
    let entry = PeerView {
        id: session.client_id,
        display_name: members[i].peer.display_name,
        cursor_x: report.cursor_x,
        cursor_y: report.cursor_y,
        locked: report.locked,
        cats: report.cats,
        renders: report.renders,
    };
    assert(peers[i] == entry);
    assert(after.lobby.peers == peers);
    law_the_user_is_not_a_peer(after, entry);
    let ui = ui_of(after);
    assert forall|j: int| 0 <= j < ui.peers.len() implies (#[trigger] ui.peers[j]).id
        != shared.lobby.client_id by {
        law_the_user_is_not_a_peer(after, ui.peers[j]);
        assert(ui.peers.contains(ui.peers[j]));
    }
}

/// Messages of the relay touch the configuration only by the room of a welcome; of a
/// configuration without gaps everything else stays as it was.
pub proof fn law_messages_touch_only_the_room_code(
    shared: SharedView,
    message: ServerMessageView,
    name: Seq<char>,
)
    ensures
        !(message is Joined) ==> received(shared, message, name).cfg == shared.cfg && received(
            shared,
            message,
            name,
        ).selected == shared.selected && received(shared, message, name).lobby.client_id
            == shared.lobby.client_id,
        message is Joined && shared.valid() && shared.cfg.lobby.endpoint.len() > 0
            && shared.cfg.lobby.display_name.len() > 0 ==> ({
            let after = received(shared, message, name);
            &&& after.selected == shared.selected
            &&& after.cfg.cats == shared.cfg.cats
            &&& after.cfg.scratch_push == shared.cfg.scratch_push
            &&& after.cfg.lobby.endpoint == shared.cfg.lobby.endpoint
            &&& after.cfg.lobby.display_name == shared.cfg.lobby.display_name
        }),
{
}

/// Connecting, or failing to, forgets the peers and says how it went; nothing else
/// changes.
pub proof fn law_dialling_forgets_the_peers(shared: SharedView, up: bool)
    ensures
        ({
            let after = dialled(shared, up);
            &&& after.cfg == shared.cfg
            &&& after.selected == shared.selected
            &&& after.lobby.client_id == shared.lobby.client_id
            &&& after.lobby.peers.len() == 0
            &&& !after.lobby.connected
            &&& up ==> after.lobby.status == "Connecting"@
            &&& !up ==> after.lobby.status == "Connection failed"@
        }),
{
}

/// Leaving the lobby forgets who is in it and under which identifier the user was;
/// the configuration, with the room, stays.
pub proof fn law_leaving_keeps_the_configuration(shared: SharedView)
    ensures
        ({
            let after = left_lobby(shared);
            &&& after.cfg == shared.cfg
            &&& after.selected == shared.selected
            &&& after.lobby.client_id.len() == 0
            &&& after.lobby.peers.len() == 0
            &&& !after.lobby.connected
            &&& after.lobby.status == "Disconnected"@
        }),
{
}

/// A command changes nothing about the shared state but an empty status, and that
/// only when news is due, there is no connection and a lobby is set up.
pub proof fn law_commands_change_only_an_empty_status(
    shared: SharedView,
    command: NetCommand,
    online: bool,
)
    ensures
        ({
            let after = noted(shared, command, online);
            &&& after.cfg == shared.cfg
            &&& after.selected == shared.selected
            &&& after.lobby.connected == shared.lobby.connected
            &&& after.lobby.client_id == shared.lobby.client_id
            &&& after.lobby.peers == shared.lobby.peers
            &&& shared.lobby.status.len() > 0 || online || !(command is Sync)
                ==> after.lobby.status == shared.lobby.status
            &&& command matches NetCommand::Sync(local) ==> (!online
                && shared.lobby.status.len() == 0 && local.lobby@.room_code.len() > 0
                && local.lobby@.endpoint.len() > 0 ==> after.lobby.status == "Disconnected"@)
        }),
{
}

/// Opening and joining a room lead to a connection for the lobby that was asked for,
/// whether there is one or not; leaving leads to a farewell only where there is one.
pub proof fn law_commands_are_carried_out(lobby: LobbyConfig, online: bool)
    ensures
        action_for(NetCommand::Create(lobby), online) matches NetActionView::Connect {
            url,
            entry,
            lobby: l,
        } && entry == Entry::Create && l == lobby@ && url == (if trimmed(
            lobby@.endpoint,
        ).len() == 0 {
            url_text("wss://oneko.nosh.zip/"@)
        } else {
            url_text(trimmed(lobby@.endpoint))
        }),
        action_for(NetCommand::Join(lobby), online) matches NetActionView::Connect {
            url,
            entry,
            lobby: l,
        } && entry == Entry::Join && l == lobby@ && url == (if trimmed(lobby@.endpoint).len()
            == 0 {
            url_text("wss://oneko.nosh.zip/"@)
        } else {
            url_text(trimmed(lobby@.endpoint))
        }),
        online ==> action_for(NetCommand::Leave, online) == NetActionView::HangUp(
            ClientMessageView::Leave,
        ),
        !online ==> action_for(NetCommand::Leave, online) is Rest,
{
}

/// What the user is shown is what is known: the configuration, the selected cat among
/// those that there are, whether and how the lobby is connected, and the others.
pub proof fn law_the_user_is_shown_what_is_known(shared: SharedView)
    ensures
        ({
            let ui = ui_of(shared);
            &&& ui.config == shared.cfg
            &&& ui.lobby == shared.cfg.lobby
            &&& ui.connected == shared.lobby.connected
            &&& ui.status == shared.lobby.status
            &&& ui.peers == shared.lobby.peers.filter(
                |p: PeerView| p.id != shared.lobby.client_id,
            )
            &&& shared.selected < shared.cfg.cats.len() ==> ui.selected == shared.selected
            &&& shared.selected >= shared.cfg.cats.len() > 0 ==> ui.selected + 1
                == shared.cfg.cats.len()
        }),
{
}

/// Filling the gaps of a configuration changes nothing that is set.
pub proof fn law_what_is_set_stays(cfg: ConfigView, name: Seq<char>)
    ensures
        ({
            let after = normalized(cfg, name);
            &&& after.scratch_push == cfg.scratch_push
            &&& after.lobby.room_code == cfg.lobby.room_code
            &&& cfg.cats.len() > 0 ==> after.cats == cfg.cats
            &&& cfg.lobby.endpoint.len() > 0 ==> after.lobby.endpoint == cfg.lobby.endpoint
            &&& cfg.lobby.display_name.len() > 0 ==> after.lobby.display_name
                == cfg.lobby.display_name
            &&& cfg.cats.len() == 0 ==> after.cats.len() == 1
            &&& cfg.lobby.endpoint.len() == 0 ==> after.lobby.endpoint
                == "wss://oneko.nosh.zip/"@
            &&& cfg.lobby.display_name.len() == 0 ==> after.lobby.display_name == name
        }),
{
}

/// A change to the configuration leaves the lobby alone, and the selection too where
/// the selected cat is still there.
pub proof fn law_configuring_leaves_the_lobby_alone(shared: SharedView, name: Seq<char>)
    ensures
        tidied(shared, name).lobby == shared.lobby,
        tidied(shared, name).cfg == normalized(shared.cfg, name),
        shared.valid() ==> tidied(shared, name).selected == shared.selected,
        shared.selected >= shared.cfg.cats.len() > 0 ==> tidied(shared, name).selected + 1
            == shared.cfg.cats.len(),
{
}

} // verus!
