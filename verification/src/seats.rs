//! Where the clients of the relay sit: in one room at most, and in none when they
//! have gone.

use crate::clock::{clock_gave, MAX_NANOS};
use crate::lists::lemma_filter_elements;
use crate::protocol::CatStyle;
use crate::relay::{cleaned, client_id_at, entered, reported_in, RelayView, Rooms, MAX_ROOM_PEERS};
use crate::relay_laws::law_identifiers_are_not_empty;
use crate::room::{has_member, reported, with_member, without, MemberView, ReportView};
use crate::session::{
    admitted, created, departed, drawn_id, handled, joined, newcomer, settled, verdict, EventView,
    Flow, SessionView, Step, VerdictView,
};
use vstd::prelude::*;

verus! {

/// Nobody sits on the connection.
pub open spec fn absent(rooms: Rooms, link: u64) -> bool {
    forall|code: Seq<char>, i: int|
        rooms.contains_key(code) && 0 <= i < rooms[code].len() ==> (
        #[trigger] rooms[code][i]).link != link
}

/// Whoever sits on the connection sits in the given room under the given
/// identifier.
pub open spec fn only_at(rooms: Rooms, link: u64, room: Seq<char>, id: Seq<char>) -> bool {
    forall|code: Seq<char>, i: int|
        rooms.contains_key(code) && 0 <= i < rooms[code].len() && (
        #[trigger] rooms[code][i]).link == link ==> code == room && rooms[code][i].peer.id == id
}

/// The client of a session sits at most where the session says: nowhere before it
/// entered a room, and else in the room that it entered last.
pub open spec fn seated(rooms: Rooms, session: SessionView) -> bool {
    if session.client_id.len() == 0 {
        absent(rooms, session.link)
    } else {
        only_at(rooms, session.link, session.room_code, session.client_id)
    }
}

proof fn lemma_cleaned(
    rooms: Rooms,
    code: Seq<char>,
    id: Seq<char>,
    link: u64,
    room: Seq<char>,
    other: Seq<char>,
)
    ensures
        absent(rooms, link) ==> absent(cleaned(rooms, code, id), link),
        only_at(rooms, link, room, other) ==> only_at(
            cleaned(rooms, code, id),
            link,
            room,
            other,
        ),
        only_at(rooms, link, code, id) ==> absent(cleaned(rooms, code, id), link),
{
    let after = cleaned(rooms, code, id);
    if rooms.contains_key(code) {
        let members = rooms[code];
        let left = without(members, id);
        lemma_filter_elements(members, |m: MemberView| m.peer.id != id);
        assert forall|c: Seq<char>, i: int|
            after.contains_key(c) && 0 <= i < after[c].len() implies exists|j: int|
            0 <= j < rooms[c].len() && rooms.contains_key(c) && rooms[c][j] == (
            #[trigger] after[c][i]) && (c == code ==> after[c][i].peer.id != id) by {
            if c == code {
                assert(after[c] == left);
                assert(members.contains(left[i]));
                let j = choose|j: int| 0 <= j < members.len() && members[j] == left[i];
                assert(rooms[c][j] == after[c][i]);
            } else {
                assert(rooms[c][i] == after[c][i]);
            }
        }
    }
}

proof fn lemma_entered(
    rooms: Rooms,
    code: Seq<char>,
    m: MemberView,
    link: u64,
    room: Seq<char>,
    id: Seq<char>,
)
    ensures
        m.link == link && absent(rooms, link) ==> only_at(
            entered(rooms, code, m),
            link,
            code,
            m.peer.id,
        ),
        m.link != link && absent(rooms, link) ==> absent(entered(rooms, code, m), link),
        m.link != link && only_at(rooms, link, room, id) ==> only_at(
            entered(rooms, code, m),
            link,
            room,
            id,
        ),
{
    let after = entered(rooms, code, m);
    let members = if rooms.contains_key(code) {
        rooms[code]
    } else {
        Seq::empty()
    };
    let more = with_member(members, m);
    assert forall|c: Seq<char>, i: int|
        after.contains_key(c) && 0 <= i < after[c].len() implies (#[trigger] after[c][i]) == m
        && c == code || rooms.contains_key(c) && i < rooms[c].len() && rooms[c][i]
        == after[c][i] by {
        if c == code {
            assert(after[c] == more);
            if !has_member(members, m.peer.id) && i < members.len() {
                assert(more[i] == members[i]);
            }
        }
    }
}

proof fn lemma_reported(
    rooms: Rooms,
    code: Seq<char>,
    id: Seq<char>,
    report: ReportView,
    link: u64,
    room: Seq<char>,
    other: Seq<char>,
)
    ensures
        absent(rooms, link) ==> absent(reported_in(rooms, code, id, report), link),
        only_at(rooms, link, room, other) ==> only_at(
            reported_in(rooms, code, id, report),
            link,
            room,
            other,
        ),
{
    let after = reported_in(rooms, code, id, report);
    assert forall|c: Seq<char>, i: int|
        after.contains_key(c) && 0 <= i < after[c].len() implies rooms.contains_key(c) && i
        < rooms[c].len() && rooms[c][i].link == (#[trigger] after[c][i]).link
        && rooms[c][i].peer.id == after[c][i].peer.id by {
        if c == code {
            assert(after[c] == reported(rooms[c], id, report));
        }
    }
}

/// Where an event can take the client of a session: out of its room, and then
/// perhaps into another one under an identifier that is not empty.
spec fn moved(rooms: Rooms, session: SessionView, step: Step) -> bool {
    let left = departed(rooms, session).0;
    ||| step.relay.rooms == left && step.session.link == session.link && step.session.client_id
        == session.client_id && step.session.room_code == session.room_code
    ||| exists|code: Seq<char>, m: MemberView|
        {
            &&& step.relay.rooms == #[trigger] entered(left, code, m)
            &&& m.link == session.link
            &&& m.peer.id == step.session.client_id
            &&& m.peer.id.len() > 0
            &&& step.session.room_code == code
            &&& step.session.link == session.link
        }
}

proof fn lemma_created_moves(
    relay: RelayView,
    session: SessionView,
    name: Seq<char>,
    cats: Seq<CatStyle>,
    step: Step,
)
    requires
        created(relay, session, name, cats, step),
    ensures
        moved(relay.rooms, session, step),
{
    let (rooms, sends) = departed(relay.rooms, session);
    if relay.seq != u64::MAX {
        let after = RelayView { rooms, seq: (relay.seq + 1) as u64 };
        let id = choose|id: Seq<char>|
            #[trigger] drawn_id(id, after.seq) && settled(
                after,
                session,
                sends,
                id,
                name,
                cats,
                step,
            );
        let clock = choose|clock: u128|
            clock_gave(clock) && clock <= MAX_NANOS && id == #[trigger] client_id_at(
                clock,
                after.seq,
            );
        law_identifiers_are_not_empty(clock, after.seq);
        if step.flow == Flow::Open {
            let code = step.session.room_code;
            assert(step.relay.rooms == entered(rooms, code, newcomer(session, id, name, cats)));
        }
    }
}

proof fn lemma_joined_moves(
    relay: RelayView,
    session: SessionView,
    code: Seq<char>,
    name: Seq<char>,
    cats: Seq<CatStyle>,
    step: Step,
)
    requires
        joined(relay, session, code, name, cats, step),
    ensures
        moved(relay.rooms, session, step),
{
    let (rooms, sends) = departed(relay.rooms, session);
    if rooms.contains_key(code) && rooms[code].len() < MAX_ROOM_PEERS && relay.seq != u64::MAX {
        let after = RelayView { rooms, seq: (relay.seq + 1) as u64 };
        let id = choose|id: Seq<char>|
            #[trigger] drawn_id(id, after.seq) && step == admitted(
                after,
                session,
                sends,
                code,
                id,
                name,
                cats,
            );
        let clock = choose|clock: u128|
            clock_gave(clock) && clock <= MAX_NANOS && id == #[trigger] client_id_at(
                clock,
                after.seq,
            );
        law_identifiers_are_not_empty(clock, after.seq);
        assert(step.relay.rooms == entered(rooms, code, newcomer(session, id, name, cats)));
    }
}

proof fn lemma_moved(rooms: Rooms, session: SessionView, step: Step, other: SessionView)
    requires
        moved(rooms, session, step),
    ensures
        seated(rooms, session) ==> seated(step.relay.rooms, step.session),
        other.link != session.link && seated(rooms, other) ==> seated(step.relay.rooms, other),
{
    let left = departed(rooms, session).0;
    lemma_cleaned(
        rooms,
        session.room_code,
        session.client_id,
        session.link,
        session.room_code,
        session.client_id,
    );
    lemma_cleaned(
        rooms,
        session.room_code,
        session.client_id,
        other.link,
        other.room_code,
        other.client_id,
    );
    if exists|code: Seq<char>, m: MemberView|
        {
            &&& step.relay.rooms == #[trigger] entered(left, code, m)
            &&& m.link == session.link
            &&& m.peer.id == step.session.client_id
            &&& m.peer.id.len() > 0
            &&& step.session.room_code == code
            &&& step.session.link == session.link
        } {
        let (code, m) = choose|code: Seq<char>, m: MemberView|
            {
                &&& step.relay.rooms == #[trigger] entered(left, code, m)
                &&& m.link == session.link
                &&& m.peer.id == step.session.client_id
                &&& m.peer.id.len() > 0
                &&& step.session.room_code == code
                &&& step.session.link == session.link
            };
        lemma_entered(left, code, m, session.link, code, m.peer.id);
        lemma_entered(left, code, m, other.link, other.room_code, other.client_id);
    }
}

proof fn lemma_handled(
    relay: RelayView,
    session: SessionView,
    event: EventView,
    now: u128,
    step: Step,
    other: SessionView,
)
    requires
        handled(relay, session, event, now, step),
    ensures
        seated(relay.rooms, session) ==> seated(step.relay.rooms, step.session),
        seated(relay.rooms, session) && step.flow == Flow::Closed ==> absent(
            step.relay.rooms,
            session.link,
        ),
        other.link != session.link && seated(relay.rooms, other) ==> seated(
            step.relay.rooms,
            other,
        ),
{
    lemma_cleaned(
        relay.rooms,
        session.room_code,
        session.client_id,
        session.link,
        session.room_code,
        session.client_id,
    );
    lemma_cleaned(
        relay.rooms,
        session.room_code,
        session.client_id,
        other.link,
        other.room_code,
        other.client_id,
    );
    if let EventView::Request(request) = event {
        let fresh = SessionView { invalid_count: 0, ..session };
        match verdict(fresh, request, now) {
            VerdictView::Create { name, cats } => {
                lemma_created_moves(relay, fresh, name, cats, step);
                lemma_moved(relay.rooms, fresh, step, other);
            },
            VerdictView::Join { code, name, cats } => {
                lemma_joined_moves(relay, fresh, code, name, cats, step);
                lemma_moved(relay.rooms, fresh, step, other);
            },
            VerdictView::Update(report) => {
                lemma_reported(
                    relay.rooms,
                    session.room_code,
                    session.client_id,
                    report,
                    session.link,
                    session.room_code,
                    session.client_id,
                );
                lemma_reported(
                    relay.rooms,
                    session.room_code,
                    session.client_id,
                    report,
                    other.link,
                    other.room_code,
                    other.client_id,
                );
            },
            _ => {},
        }
    }
}

/// A client is in one room at most, whatever happens on its session: the one that
/// it entered last.
pub proof fn law_clients_sit_in_one_room(
    relay: RelayView,
    session: SessionView,
    event: EventView,
    now: u128,
    step: Step,
)
    requires
        seated(relay.rooms, session),
        handled(relay, session, event, now, step),
    ensures
        seated(step.relay.rooms, step.session),
{
    lemma_handled(relay, session, event, now, step, session);
}

/// What happens on one session moves nobody else: the client of another session
/// still sits at most where that session says.
pub proof fn law_nobody_else_is_moved(
    relay: RelayView,
    session: SessionView,
    event: EventView,
    now: u128,
    step: Step,
    other: SessionView,
)
    requires
        other.link != session.link,
        seated(relay.rooms, other),
        handled(relay, session, event, now, step),
    ensures
        seated(step.relay.rooms, other),
{
    lemma_handled(relay, session, event, now, step, other);
}

/// When a session is over, nothing is left of its client in any room.
pub proof fn law_closed_sessions_leave_nothing(
    relay: RelayView,
    session: SessionView,
    event: EventView,
    now: u128,
    step: Step,
)
    requires
        seated(relay.rooms, session),
        handled(relay, session, event, now, step),
        step.flow == Flow::Closed,
    ensures
        absent(step.relay.rooms, session.link),
{
    lemma_handled(relay, session, event, now, step, session);
}

} // verus!
