//! What the members of a room are told of each other.

use crate::lists::{lemma_filter_elements, lemma_filter_push};
use crate::protocol::{CatRenderSnapshot, CatStyle, ClientMessageView, Coord};
use crate::relay::{broadcast_of, cleaned, entered, snapshot_of, RelayView, Rooms};
use crate::relay_laws::peers_told;
use crate::room::{
    has_member, peers_of, reported, with_member, without, DeliveryView, MemberView,
    ReportView,
};
use crate::sanitize::{render_ok, renders_ok};
use crate::session::{
    admitted, departed, ended, handled, newcomer, updated, verdict, welcome, EventView, Flow,
    SessionView, Step, VerdictView,
};
use vstd::prelude::*;

verus! {

/// A member that has reported is known by what it reported, field by field,
/// whatever was known of it before; it keeps its identifier, its name and its
/// connection. Of the other members nothing changes.
pub proof fn law_reports_are_taken_as_they_are(
    members: Seq<MemberView>,
    id: Seq<char>,
    report: ReportView,
    i: int,
)
    requires
        0 <= i < members.len(),
    ensures
        ({
            let before = members[i];
            let after = reported(members, id, report)[i];
            &&& reported(members, id, report).len() == members.len()
            &&& after.link == before.link
            &&& after.peer.id == before.peer.id
            &&& after.peer.display_name == before.peer.display_name
            &&& before.peer.id == id ==> {
                &&& after.peer.cursor_x == report.cursor_x
                &&& after.peer.cursor_y == report.cursor_y
                &&& after.peer.locked == report.locked
                &&& after.peer.cats == report.cats
                &&& after.peer.renders == report.renders
            }
            &&& before.peer.id != id ==> after == before
        }),
{
}

/// Of two reports of a member in a row, the second alone counts.
pub proof fn law_the_last_report_counts(
    members: Seq<MemberView>,
    id: Seq<char>,
    first: ReportView,
    second: ReportView,
)
    ensures
        reported(reported(members, id, first), id, second) == reported(members, id, second),
{
    let once = reported(members, id, second);
    let twice = reported(reported(members, id, first), id, second);
    assert forall|i: int| 0 <= i < once.len() implies twice[i] == once[i] by {}
    assert(twice =~= once);
}

/// The reports of two members do not get in each other's way.
pub proof fn law_reports_of_two_members_commute(
    members: Seq<MemberView>,
    id1: Seq<char>,
    report1: ReportView,
    id2: Seq<char>,
    report2: ReportView,
)
    requires
        id1 != id2,
    ensures
        reported(reported(members, id1, report1), id2, report2) == reported(
            reported(members, id2, report2),
            id1,
            report1,
        ),
{
    assert(reported(reported(members, id1, report1), id2, report2) =~= reported(
        reported(members, id2, report2),
        id1,
        report1,
    ));
}

/// What a session that is in a room may report at a time: one to eight cats, a
/// drawing on the desktop and on the sheet for each, the cursor on the desktop, and
/// sixteen milliseconds after the last report that counted.
pub open spec fn may_report(
    session: SessionView,
    cursor_x: Coord,
    cursor_y: Coord,
    cats: Seq<CatStyle>,
    renders: Seq<CatRenderSnapshot>,
    now: u128,
) -> bool {
    &&& session.client_id.len() > 0
    &&& session.room_code.len() > 0
    &&& session.last_presence matches Some(last) ==> now - last >= 16_000_000
    &&& 1 <= cats.len() <= 8
    &&& renders.len() == cats.len()
    &&& forall|i: int|
        0 <= i < renders.len() ==> (#[trigger] renders[i]).x.in_unit() && renders[i].y.in_unit()
            && renders[i].sprite_x < 8 && renders[i].sprite_y < 4
    &&& cursor_x.in_unit()
    &&& cursor_y.in_unit()
}

/// A report that a session may make is taken as it is, and no other is.
pub proof fn law_reports_are_accepted(
    session: SessionView,
    cursor_x: Coord,
    cursor_y: Coord,
    locked: bool,
    cats: Seq<CatStyle>,
    renders: Seq<CatRenderSnapshot>,
    now: u128,
)
    ensures
        ({
            let request = ClientMessageView::Presence {
                cursor_x,
                cursor_y,
                locked,
                cats,
                renders,
            };
            let report = ReportView { cursor_x, cursor_y, locked, cats, renders };
            if may_report(session, cursor_x, cursor_y, cats, renders, now) {
                verdict(session, request, now) == VerdictView::Update(report)
            } else {
                verdict(session, request, now) is Refuse || verdict(session, request, now) is Skip
            }
        }),
{
    if may_report(session, cursor_x, cursor_y, cats, renders, now) {
        assert(renders_ok(renders, cats.len()));
    } else if renders_ok(renders, cats.len()) {
        assert forall|i: int| 0 <= i < renders.len() implies (#[trigger] renders[i]).x.in_unit()
            && renders[i].y.in_unit() && renders[i].sprite_x < 8 && renders[i].sprite_y < 4 by {
            assert(render_ok(renders[i]));
        }
    }
}

/// When a member has sent a report that it may make, everyone in its room is sent
/// one snapshot. In it the member has exactly the cursor, the rest, the cats and the
/// drawings of the report, whatever was known of it before, under its old identifier
/// and name; everyone else is told of as before.
pub proof fn law_the_room_is_told_what_was_sent(
    relay: RelayView,
    session: SessionView,
    cursor_x: Coord,
    cursor_y: Coord,
    locked: bool,
    cats: Seq<CatStyle>,
    renders: Seq<CatRenderSnapshot>,
    now: u128,
    step: Step,
    i: int,
    k: int,
)
    requires
        may_report(session, cursor_x, cursor_y, cats, renders, now),
        handled(
            relay,
            session,
            EventView::Request(
                ClientMessageView::Presence { cursor_x, cursor_y, locked, cats, renders },
            ),
            now,
            step,
        ),
        relay.rooms.contains_key(session.room_code),
        0 <= i < relay.rooms[session.room_code].len(),
        0 <= k < relay.rooms[session.room_code].len(),
    ensures
        ({
            let members = relay.rooms[session.room_code];
            let peers = peers_told(step.sends[k].message);
            &&& step.flow == Flow::Open
            &&& step.sends.len() == members.len()
            &&& step.sends[k].to == members[k].link
            &&& step.sends[k].message is Snapshot
            &&& step.sends[k].message->Snapshot_room_code == session.room_code
            &&& peers.len() == members.len()
            &&& peers[i].id == members[i].peer.id
            &&& peers[i].display_name == members[i].peer.display_name
            &&& members[i].peer.id == session.client_id ==> {
                &&& peers[i].cursor_x == cursor_x
                &&& peers[i].cursor_y == cursor_y
                &&& peers[i].locked == locked
                &&& peers[i].cats == cats
                &&& peers[i].renders == renders
            }
            &&& members[i].peer.id != session.client_id ==> peers[i] == members[i].peer
            &&& step.relay.rooms[session.room_code].len() == members.len()
            &&& step.relay.rooms[session.room_code][i].peer == peers[i]
            &&& step.relay.rooms[session.room_code][i].link == members[i].link
            &&& step.relay.seq == relay.seq
        }),
{
    let fresh = SessionView { invalid_count: 0, ..session };
    law_reports_are_accepted(fresh, cursor_x, cursor_y, locked, cats, renders, now);
    let report = ReportView { cursor_x, cursor_y, locked, cats, renders };
    assert(step == updated(relay, fresh, report, now));
}

/// Two reports in a row leave the relay, and tell the room, what the second alone
/// would have.
pub proof fn law_two_reports_are_as_good_as_the_second(
    relay: RelayView,
    session: SessionView,
    first: ReportView,
    second: ReportView,
    earlier: u128,
    now: u128,
)
    ensures
        ({
            let between = updated(relay, session, first, earlier);
            let after = updated(between.relay, between.session, second, now);
            let alone = updated(relay, session, second, now);
            &&& after.relay == alone.relay
            &&& after.session == alone.session
            &&& after.sends == alone.sends
        }),
{
    let between = updated(relay, session, first, earlier);
    let after = updated(between.relay, between.session, second, now);
    let alone = updated(relay, session, second, now);
    if relay.rooms.contains_key(session.room_code) {
        law_the_last_report_counts(
            relay.rooms[session.room_code],
            session.client_id,
            first,
            second,
        );
    }
    assert(after.relay.rooms =~= alone.relay.rooms);
}

/// A report that comes less than sixteen milliseconds after the last one that
/// counted is passed over in silence.
pub proof fn law_early_reports_are_passed_over(
    relay: RelayView,
    session: SessionView,
    request: ClientMessageView,
    now: u128,
    step: Step,
)
    requires
        request is Presence,
        session.client_id.len() > 0,
        session.room_code.len() > 0,
        session.last_presence matches Some(last) && now - last < 16_000_000,
        handled(relay, session, EventView::Request(request), now, step),
    ensures
        step.relay == relay,
        step.sends.len() == 0,
        step.flow == Flow::Open,
        step.session.last_presence == session.last_presence,
        step.session.client_id == session.client_id,
        step.session.room_code == session.room_code,
{
}

/// What a room is told of its members is what the room knows of them, one for one
/// and in order.
pub proof fn law_snapshots_tell_what_is_known(rooms: Rooms, code: Seq<char>, i: int)
    ensures
        !rooms.contains_key(code) ==> snapshot_of(rooms, code).len() == 0,
        rooms.contains_key(code) ==> snapshot_of(rooms, code).len() == rooms[code].len(),
        rooms.contains_key(code) && 0 <= i < rooms[code].len() ==> snapshot_of(rooms, code)[i]
            == rooms[code][i].peer,
{
}

/// Of a broadcast without a greeting, every member gets a snapshot of the room, on
/// its own connection, in which every member stands.
pub proof fn law_broadcasts_tell_of_everyone(rooms: Rooms, code: Seq<char>, i: int, k: int)
    requires
        rooms.contains_key(code),
        0 <= i < rooms[code].len(),
        0 <= k < rooms[code].len(),
    ensures
        ({
            let sends = broadcast_of(rooms, code, None);
            &&& sends.len() == rooms[code].len()
            &&& sends[k].to == rooms[code][k].link
            &&& sends[k].message is Snapshot
            &&& sends[k].message->Snapshot_room_code == code
            &&& sends[k].message->Snapshot_peers.len() == rooms[code].len()
            &&& sends[k].message->Snapshot_peers[i] == rooms[code][i].peer
        }),
{
}

/// A welcome names the identifier and the room, and everyone who is in it.
pub proof fn law_welcomes_tell_of_everyone(rooms: Rooms, code: Seq<char>, id: Seq<char>, i: int)
    requires
        rooms.contains_key(code),
        0 <= i < rooms[code].len(),
    ensures
        ({
            let message = welcome(rooms, code, id);
            &&& message is Joined
            &&& message->client_id == id
            &&& message->Joined_room_code == code
            &&& message->Joined_peers.len() == rooms[code].len()
            &&& message->Joined_peers[i] == rooms[code][i].peer
        }),
{
}

/// A client comes into a room under the identifier, the name and the cats that it
/// has, on its own connection; its cursor is in the corner, and nothing is drawn of
/// its cats yet.
pub proof fn law_newcomers_are_known_by_name_and_cats(
    session: SessionView,
    id: Seq<char>,
    name: Seq<char>,
    cats: Seq<CatStyle>,
)
    ensures
        ({
            let m = newcomer(session, id, name, cats);
            &&& m.link == session.link
            &&& m.peer.id == id
            &&& m.peer.display_name == name
            &&& m.peer.cats == cats
            &&& m.peer.cursor_x == (Coord { bits: 0 })
            &&& m.peer.cursor_y == (Coord { bits: 0 })
            &&& !m.peer.locked
            &&& m.peer.renders.len() == 0
        }),
{
}

/// A member that comes in displaces nobody: everyone with another identifier stays,
/// in place and unchanged, and behind them or in the place of its own identifier
/// stands the newcomer.
pub proof fn law_newcomers_displace_nobody(members: Seq<MemberView>, m: MemberView, i: int)
    requires
        0 <= i < members.len(),
    ensures
        ({
            let after = with_member(members, m);
            &&& members[i].peer.id != m.peer.id ==> after[i] == members[i]
            &&& members[i].peer.id == m.peer.id ==> after[i] == m && after.len() == members.len()
            &&& members.len() <= after.len() <= members.len() + 1
            &&& after.len() > members.len() ==> after.last() == m
            &&& after.contains(m)
        }),
{
    let after = with_member(members, m);
    if has_member(members, m.peer.id) {
        let j = choose|j: int| 0 <= j < members.len() && (#[trigger] members[j]).peer.id
            == m.peer.id;
        assert(after[j] == m);
    } else {
        assert(members[i].peer.id != m.peer.id);
        assert(after[members.len() as int] == m);
    }
}

/// The room that a client comes into is there afterwards; everyone who was in it is
/// still in it, in place and unchanged, unless it had the newcomer's identifier, and
/// other rooms are left alone.
pub proof fn law_entering_disturbs_nobody(rooms: Rooms, code: Seq<char>, m: MemberView, i: int)
    ensures
        ({
            let after = entered(rooms, code, m);
            &&& after.contains_key(code)
            &&& after[code].contains(m)
            &&& !rooms.contains_key(code) ==> after[code] == seq![m]
            &&& rooms.contains_key(code) && 0 <= i < rooms[code].len() && rooms[code][i].peer.id
                != m.peer.id ==> after[code][i] == rooms[code][i]
            &&& rooms.contains_key(code) && !has_member(rooms[code], m.peer.id) ==> after[code]
                == rooms[code].push(m)
            &&& forall|other: Seq<char>|
                other != code ==> #[trigger] after.contains_key(other) == rooms.contains_key(other)
            &&& forall|other: Seq<char>|
                other != code && rooms.contains_key(other) ==> #[trigger] after[other]
                    == rooms[other]
        }),
{
    let members = if rooms.contains_key(code) {
        rooms[code]
    } else {
        Seq::empty()
    };
    let after = with_member(members, m);
    if members.len() == 0 {
        assert(after =~= seq![m]);
        assert(after[0] == m);
    } else {
        law_newcomers_displace_nobody(members, m, 0);
        if 0 <= i < members.len() {
            law_newcomers_displace_nobody(members, m, i);
        }
    }
}

/// Who is left when a member goes is settled one by one: whoever has the identifier
/// goes, everyone else stays as it was, in the old order.
pub proof fn law_leaving_is_settled_one_by_one(
    members: Seq<MemberView>,
    m: MemberView,
    id: Seq<char>,
)
    ensures
        without(Seq::empty(), id).len() == 0,
        without(members.push(m), id) == (if m.peer.id == id {
            without(members, id)
        } else {
            without(members, id).push(m)
        }),
{
    reveal(Seq::filter);
    lemma_filter_push(members, m, |m: MemberView| m.peer.id != id);
}

proof fn lemma_stays(members: Seq<MemberView>, id: Seq<char>, i: int)
    requires
        0 <= i < members.len(),
        members[i].peer.id != id,
    ensures
        without(members, id).contains(members[i]),
    decreases members.len(),
{
    let rest = members.drop_last();
    assert(members =~= rest.push(members.last()));
    law_leaving_is_settled_one_by_one(rest, members.last(), id);
    let left = without(members, id);
    if i < rest.len() {
        lemma_stays(rest, id, i);
        let j = choose|j: int| 0 <= j < without(rest, id).len() && without(rest, id)[j] == rest[i];
        assert(left[j] == members[i]);
    } else {
        assert(left[left.len() - 1] == members[i]);
    }
}

/// When a client goes, everyone else in its room stays as it was, and nobody has its
/// identifier there any more. The room is there as long as someone is in it.
pub proof fn law_the_others_stay(rooms: Rooms, code: Seq<char>, id: Seq<char>, i: int)
    requires
        rooms.contains_key(code),
        0 <= i < rooms[code].len(),
    ensures
        ({
            let after = cleaned(rooms, code, id);
            &&& rooms[code][i].peer.id != id ==> after.contains_key(code) && after[code].contains(
                rooms[code][i],
            )
            &&& after.contains_key(code) ==> after[code].len() > 0 && !has_member(after[code], id)
            &&& after.contains_key(code) ==> after[code] == without(rooms[code], id)
            &&& forall|k: int|
                after.contains_key(code) && 0 <= k < after[code].len()
                    ==> rooms[code].contains(#[trigger] after[code][k])
            &&& forall|other: Seq<char>|
                other != code ==> #[trigger] after.contains_key(other) == rooms.contains_key(other)
            &&& forall|other: Seq<char>|
                other != code && rooms.contains_key(other) ==> #[trigger] after[other]
                    == rooms[other]
        }),
{
    let members = rooms[code];
    lemma_filter_elements(members, |m: MemberView| m.peer.id != id);
    if members[i].peer.id != id {
        lemma_stays(members, id, i);
    }
}

/// A client that never entered a room leaves none, and nobody is told.
pub proof fn law_strangers_leave_no_room(rooms: Rooms, session: SessionView)
    requires
        session.client_id.len() == 0,
    ensures
        departed(rooms, session).0 == rooms,
        departed(rooms, session).1.len() == 0,
{
}

/// Those whom a client leaves behind are told, each on its own connection, of
/// exactly those who are left; this comes before anything else that its going leads
/// to.
pub proof fn law_those_left_behind_are_told(rooms: Rooms, session: SessionView, i: int, k: int)
    requires
        session.client_id.len() > 0,
        departed(rooms, session).0.contains_key(session.room_code),
        0 <= i < departed(rooms, session).0[session.room_code].len(),
        0 <= k < departed(rooms, session).0[session.room_code].len(),
    ensures
        ({
            let (after, sends) = departed(rooms, session);
            let left = after[session.room_code];
            &&& after == cleaned(rooms, session.room_code, session.client_id)
            &&& sends.len() == left.len()
            &&& sends[k].to == left[k].link
            &&& sends[k].message is Snapshot
            &&& peers_told(sends[k].message).len() == left.len()
            &&& peers_told(sends[k].message)[i] == left[i].peer
        }),
{
}

/// A session that ends takes its client out of its room and tells those who are
/// left, behind what was to be sent already.
pub proof fn law_the_end_is_told(
    relay: RelayView,
    session: SessionView,
    sends: Seq<DeliveryView>,
    k: int,
)
    ensures
        ({
            let step = ended(relay, session, sends);
            let room = session.room_code;
            &&& step.relay.rooms == cleaned(relay.rooms, room, session.client_id)
            &&& step.relay.seq == relay.seq
            &&& step.flow == Flow::Closed
            &&& sends.is_prefix_of(step.sends)
            &&& !step.relay.rooms.contains_key(room) ==> step.sends == sends
            &&& step.relay.rooms.contains_key(room) ==> step.sends.len() == sends.len()
                + step.relay.rooms[room].len()
            &&& step.relay.rooms.contains_key(room) && 0 <= k < step.relay.rooms[room].len() ==> {
                &&& step.sends[sends.len() + k].to == step.relay.rooms[room][k].link
                &&& peers_told(step.sends[sends.len() + k].message) == peers_of(
                    step.relay.rooms[room],
                )
            }
        }),
{
    let step = ended(relay, session, sends);
    let room = session.room_code;
    if !step.relay.rooms.contains_key(room) {
        assert(step.sends =~= sends);
    }
}

/// Coming into a room sends what was to be sent already first, and then one message
/// to each who is there.
pub proof fn law_entering_sends_in_order(
    relay: RelayView,
    session: SessionView,
    sends: Seq<DeliveryView>,
    code: Seq<char>,
    id: Seq<char>,
    name: Seq<char>,
    cats: Seq<CatStyle>,
)
    ensures
        ({
            let step = admitted(relay, session, sends, code, id, name, cats);
            &&& sends.is_prefix_of(step.sends)
            &&& step.sends.len() == sends.len() + step.relay.rooms[code].len()
            &&& step.session.link == session.link
            &&& step.session.client_id == id
            &&& step.session.room_code == code
            &&& step.session.last_presence == session.last_presence
            &&& step.session.invalid_count == session.invalid_count
            &&& step.relay.seq == relay.seq
        }),
{
}

/// A session keeps its connection. Its client's identifier and room change only when
/// it is let into a room, and the relay's numbers are only ever counted up.
pub proof fn law_only_entering_moves_a_client(
    relay: RelayView,
    session: SessionView,
    event: EventView,
    now: u128,
    step: Step,
)
    requires
        handled(relay, session, event, now, step),
    ensures
        step.session.link == session.link,
        step.relay.seq >= relay.seq,
        !(event matches EventView::Request(ClientMessageView::CreateRoom { .. }))
            && !(event matches EventView::Request(ClientMessageView::JoinRoom { .. })) ==> {
            &&& step.session.client_id == session.client_id
            &&& step.session.room_code == session.room_code
            &&& step.relay.seq == relay.seq
        },
        step.session.client_id != session.client_id ==> step.relay.seq > relay.seq,
        event is Ignored ==> step.relay == relay && step.session == session && step.sends.len()
            == 0 && step.flow == Flow::Open,
        event is Closed ==> step.flow == Flow::Closed,
        event == EventView::Request(ClientMessageView::Leave) ==> step.flow == Flow::Closed,
        event is Request && event != EventView::Request(ClientMessageView::Leave) ==> step.flow
            != Flow::Closed,
{
}

} // verus!
