//! What holds of the relay whatever its clients send.

use crate::clock::{clock_gave, MAX_NANOS};
use crate::lists::{lemma_filter_elements, lemma_filter_push};
use crate::protocol::{CatStyle, ClientMessageView, PeerView, ServerMessageView};
use crate::relay::{
    broadcast_of, cleaned, client_id_at, entered, first_free, reported_in, room_code_at,
    snapshot_of, RelayView, Rooms, MAX_ROOM_PEERS,
};
use crate::room::{
    has_member, peers_of, reported, reported_peer, with_member, without, DeliveryView, MemberView,
    ReportView,
};
use crate::sanitize::{
    cats_ok, clean_name, clean_room_code, is_room_code, printable, renders_ok, MAX_NAME_LEN,
};
use crate::session::{
    admitted, apology, created, departed, drawn_id, ended, handled, joined, newcomer, settled,
    struck, updated, verdict, welcome, EventView, Flow, SessionView, Step, VerdictView,
    INVALID_LIMIT, PRESENCE_INTERVAL,
};
use crate::text::{
    digit, is_control, is_decimal, is_white_space, numeral, six_digits, trimmed, trimmed_back,
    trimmed_front,
};
use vstd::prelude::*;

verus! {

/// A display name as the relay keeps it: short, and without control characters.
pub open spec fn name_ok(name: Seq<char>) -> bool {
    name.len() <= MAX_NAME_LEN && forall|i: int|
        0 <= i < name.len() ==> !is_control(#[trigger] name[i])
}

/// A peer as the relay keeps it: its name is clean, it shows as many cats as it
/// may, its cursor lies on the desktop, and once it has reported, there is a
/// drawing in order for each of its cats.
pub open spec fn peer_ok(peer: PeerView) -> bool {
    &&& name_ok(peer.display_name)
    &&& cats_ok(peer.cats)
    &&& peer.cursor_x.in_unit()
    &&& peer.cursor_y.in_unit()
    &&& peer.renders.len() == 0 || renders_ok(peer.renders, peer.cats.len())
}

/// No two members have the same identifier.
pub open spec fn distinct_ids(members: Seq<MemberView>) -> bool {
    forall|i: int, j: int|
        0 <= i < j < members.len() ==> (#[trigger] members[i]).peer.id != (
        #[trigger] members[j]).peer.id
}

/// A room has a member and is not overfull, its members can be told apart, and
/// what is known of them is in order.
pub open spec fn room_ok(members: Seq<MemberView>) -> bool {
    &&& 0 < members.len() <= MAX_ROOM_PEERS
    &&& distinct_ids(members)
    &&& forall|i: int| 0 <= i < members.len() ==> peer_ok((#[trigger] members[i]).peer)
}

impl RelayView {
    /// Every room has a code of six digits and is in order.
    pub open spec fn valid(self) -> bool {
        rooms_ok(self.rooms)
    }
}

/// Every room has a code of six digits and is in order.
pub open spec fn rooms_ok(rooms: Rooms) -> bool {
    forall|code: Seq<char>| #[trigger]
        rooms.contains_key(code) ==> is_room_code(code) && room_ok(rooms[code])
}

proof fn lemma_digit_is_decimal(d: nat)
    requires
        d < 10,
    ensures
        is_decimal(digit(d)),
        digit(d) as u32 == 48 + d,
{
}

proof fn lemma_six_digits_is_code(n: nat)
    ensures
        is_room_code(six_digits(n)),
{
    reveal(six_digits);
    lemma_digit_is_decimal(n / 100000 % 10);
    lemma_digit_is_decimal(n / 10000 % 10);
    lemma_digit_is_decimal(n / 1000 % 10);
    lemma_digit_is_decimal(n / 100 % 10);
    lemma_digit_is_decimal(n / 10 % 10);
    lemma_digit_is_decimal(n % 10);
}

proof fn lemma_trim_keeps(s: Seq<char>)
    requires
        s.len() > 0 ==> !is_white_space(s[0]) && !is_white_space(s.last()),
    ensures
        trimmed(s) == s,
{
}

/// A code that the relay has drawn for a room is one that it accepts from a client
/// who wants to come in, just as it is.
pub proof fn law_drawn_codes_are_accepted(clock: u128, seq: u64)
    ensures
        is_room_code(room_code_at(clock, seq)),
        clean_room_code(room_code_at(clock, seq)) == Some(room_code_at(clock, seq)),
{
    let code = room_code_at(clock, seq);
    lemma_six_digits_is_code(
        ((clock % 0x1_0000_0000_0000_0000 + seq) % 0x1_0000_0000_0000_0000 % 1_000_000) as nat,
    );
    assert(is_decimal(code[0]));
    assert(is_decimal(code[5]));
    lemma_trim_keeps(code);
}

proof fn lemma_without(members: Seq<MemberView>, id: Seq<char>)
    ensures
        without(members, id).len() <= members.len(),
        forall|i: int|
            0 <= i < without(members, id).len() ==> members.contains(
                #[trigger] without(members, id)[i],
            ) && without(members, id)[i].peer.id != id,
        distinct_ids(members) ==> distinct_ids(without(members, id)),
        !has_member(members, id) ==> without(members, id) == members,
    decreases members.len(),
{
    let keep = |m: MemberView| m.peer.id != id;
    let left = without(members, id);
    lemma_filter_elements(members, keep);
    if members.len() == 0 {
        reveal(Seq::filter);
        assert(left =~= members);
    } else {
        let rest = members.drop_last();
        let last = members.last();
        assert(members =~= rest.push(last));
        lemma_filter_push(rest, last, keep);
        lemma_without(rest, id);
        let before = without(rest, id);
        if distinct_ids(members) {
            assert forall|i: int, j: int| 0 <= i < j < rest.len() implies (
            #[trigger] rest[i]).peer.id != (#[trigger] rest[j]).peer.id by {
                assert(members[i] == rest[i]);
                assert(members[j] == rest[j]);
            }
            assert forall|i: int, j: int| 0 <= i < j < left.len() implies (
            #[trigger] left[i]).peer.id != (#[trigger] left[j]).peer.id by {
                assert(left[i] == before[i]);
                if j < before.len() {
                    assert(left[j] == before[j]);
                } else {
                    assert(rest.contains(before[i]));
                    let k = choose|k: int| 0 <= k < rest.len() && rest[k] == before[i];
                    assert(members[k] == before[i]);
                    assert(left[j] == members[members.len() - 1]);
                }
            }
        }
        if !has_member(members, id) {
            assert(members[members.len() - 1].peer.id != id);
            assert forall|i: int| 0 <= i < rest.len() implies (#[trigger] rest[i]).peer.id
                != id by {
                assert(members[i] == rest[i]);
            }
            assert(left =~= members);
        }
    }
}

proof fn lemma_cleaned_ok(rooms: Rooms, code: Seq<char>, id: Seq<char>)
    requires
        rooms_ok(rooms),
    ensures
        rooms_ok(cleaned(rooms, code, id)),
{
    if rooms.contains_key(code) {
        let members = rooms[code];
        lemma_without(members, id);
        let left = without(members, id);
        assert forall|i: int| 0 <= i < left.len() implies peer_ok((#[trigger] left[i]).peer) by {
            assert(members.contains(left[i]));
            let j = choose|j: int| 0 <= j < members.len() && members[j] == left[i];
            assert(peer_ok(members[j].peer));
        }
    }
}

proof fn lemma_entered_ok(rooms: Rooms, code: Seq<char>, m: MemberView)
    requires
        rooms_ok(rooms),
        is_room_code(code),
        peer_ok(m.peer),
        rooms.contains_key(code) ==> rooms[code].len() < MAX_ROOM_PEERS,
    ensures
        rooms_ok(entered(rooms, code, m)),
{
    let members = if rooms.contains_key(code) {
        rooms[code]
    } else {
        Seq::empty()
    };
    let after = with_member(members, m);
    if has_member(members, m.peer.id) {
        assert forall|i: int, j: int| 0 <= i < j < after.len() implies (
        #[trigger] after[i]).peer.id != (#[trigger] after[j]).peer.id by {
            assert(members[i].peer.id != members[j].peer.id);
        }
        assert forall|i: int| 0 <= i < after.len() implies peer_ok((#[trigger] after[i]).peer) by {
            assert(peer_ok(members[i].peer));
        }
    } else {
        assert forall|i: int, j: int| 0 <= i < j < after.len() implies (
        #[trigger] after[i]).peer.id != (#[trigger] after[j]).peer.id by {
            assert(members[i].peer.id != m.peer.id);
            if j < members.len() {
                assert(members[i].peer.id != members[j].peer.id);
            }
        }
        assert forall|i: int| 0 <= i < after.len() implies peer_ok((#[trigger] after[i]).peer) by {
            if i < members.len() {
                assert(peer_ok(members[i].peer));
            }
        }
    }
    assert(room_ok(after));
}

proof fn lemma_reported_ok(rooms: Rooms, code: Seq<char>, id: Seq<char>, report: ReportView)
    requires
        rooms_ok(rooms),
        cats_ok(report.cats),
        renders_ok(report.renders, report.cats.len()),
        report.cursor_x.in_unit(),
        report.cursor_y.in_unit(),
    ensures
        rooms_ok(reported_in(rooms, code, id, report)),
{
    if rooms.contains_key(code) {
        let members = rooms[code];
        let after = reported(members, id, report);
        assert forall|i: int, j: int| 0 <= i < j < after.len() implies (
        #[trigger] after[i]).peer.id != (#[trigger] after[j]).peer.id by {
            assert(members[i].peer.id != members[j].peer.id);
        }
        assert forall|i: int| 0 <= i < after.len() implies peer_ok((#[trigger] after[i]).peer) by {
            assert(peer_ok(members[i].peer));
        }
        assert(room_ok(after));
    }
}

proof fn lemma_filter_holds(s: Seq<char>)
    ensures
        printable(s).len() <= s.len(),
        forall|i: int| 0 <= i < printable(s).len() ==> !is_control(#[trigger] printable(s)[i]),
        (forall|i: int| 0 <= i < s.len() ==> !is_control(#[trigger] s[i])) ==> printable(s) == s,
    decreases s.len(),
{
    let keep = |c: char| !is_control(c);
    if s.len() == 0 {
        reveal(Seq::filter);
        assert(printable(s) =~= s);
    } else {
        let rest = s.drop_last();
        assert(s =~= rest.push(s.last()));
        lemma_filter_push(rest, s.last(), keep);
        lemma_filter_holds(rest);
        if forall|i: int| 0 <= i < s.len() ==> !is_control(#[trigger] s[i]) {
            assert forall|i: int| 0 <= i < rest.len() implies !is_control(#[trigger] rest[i]) by {
                assert(s[i] == rest[i]);
            }
            assert(!is_control(s[s.len() - 1]));
            assert(printable(s) =~= s);
        }
    }
}

/// A display name that the relay has taken is short and holds no control
/// characters.
pub proof fn law_names_are_clean(s: Seq<char>)
    ensures
        clean_name(s) matches Some(name) ==> name_ok(name),
{
    lemma_filter_holds(trimmed(s));
}

proof fn lemma_departed_ok(rooms: Rooms, session: SessionView)
    requires
        rooms_ok(rooms),
    ensures
        rooms_ok(departed(rooms, session).0),
{
    lemma_cleaned_ok(rooms, session.room_code, session.client_id);
}

proof fn lemma_newcomer_ok(
    session: SessionView,
    id: Seq<char>,
    name: Seq<char>,
    cats: Seq<CatStyle>,
)
    requires
        name_ok(name),
        cats_ok(cats),
    ensures
        peer_ok(newcomer(session, id, name, cats).peer),
{
    crate::protocol::lemma_unit_bits(crate::protocol::Coord { bits: 0 });
}

/// Whatever happens on whatever session, the relay stays in order: every room has
/// a code of six digits, at least one member and no more than it holds, members
/// that can be told apart, and only what was accepted of them.
pub proof fn law_relay_stays_valid(
    relay: RelayView,
    session: SessionView,
    event: EventView,
    now: u128,
    step: Step,
)
    requires
        relay.valid(),
        handled(relay, session, event, now, step),
    ensures
        step.relay.valid(),
{
    lemma_cleaned_ok(relay.rooms, session.room_code, session.client_id);
    if let EventView::Request(request) = event {
        let session = SessionView { invalid_count: 0, ..session };
        lemma_departed_ok(relay.rooms, session);
        let (rooms, sends) = departed(relay.rooms, session);
        match verdict(session, request, now) {
            VerdictView::Create { name, cats } => {
                if let ClientMessageView::CreateRoom { display_name, .. } = request {
                    law_names_are_clean(display_name);
                }
                if relay.seq != u64::MAX {
                    let after = RelayView { rooms, seq: (relay.seq + 1) as u64 };
                    let id = choose|id: Seq<char>|
                        #[trigger] drawn_id(id, after.seq) && settled(
                            after,
                            session,
                            sends,
                            id,
                            name,
                            cats,
                            step,
                        );
                    lemma_newcomer_ok(session, id, name, cats);
                    if exists|readings: Seq<u128>, code: Seq<char>|
                        {
                            &&& #[trigger] first_free(
                                rooms,
                                after.seq,
                                readings,
                                code,
                                step.relay.seq,
                            )
                            &&& step == admitted(
                                RelayView { rooms, seq: step.relay.seq },
                                session,
                                sends,
                                code,
                                id,
                                name,
                                cats,
                            )
                        } {
                        let (readings, code) = choose|readings: Seq<u128>, code: Seq<char>|
                            {
                                &&& #[trigger] first_free(
                                    rooms,
                                    after.seq,
                                    readings,
                                    code,
                                    step.relay.seq,
                                )
                                &&& step == admitted(
                                    RelayView { rooms, seq: step.relay.seq },
                                    session,
                                    sends,
                                    code,
                                    id,
                                    name,
                                    cats,
                                )
                            };
                        law_drawn_codes_are_accepted(readings.last(), step.relay.seq);
                        lemma_entered_ok(rooms, code, newcomer(session, id, name, cats));
                    }
                }
            },
            VerdictView::Join { code, name, cats } => {
                if let ClientMessageView::JoinRoom { display_name, .. } = request {
                    law_names_are_clean(display_name);
                }
                if rooms.contains_key(code) && rooms[code].len() < MAX_ROOM_PEERS && relay.seq
                    != u64::MAX {
                    let after = RelayView { rooms, seq: (relay.seq + 1) as u64 };
                    let id = choose|id: Seq<char>|
                        #[trigger] drawn_id(id, after.seq) && step == admitted(
                            after,
                            session,
                            sends,
                            code,
                            id,
                            name,
                            cats,
                        );
                    lemma_newcomer_ok(session, id, name, cats);
                    lemma_entered_ok(rooms, code, newcomer(session, id, name, cats));
                }
            },
            VerdictView::Update(report) => {
                lemma_reported_ok(relay.rooms, session.room_code, session.client_id, report);
            },
            _ => {},
        }
    }
}

/// A relay without rooms is in order.
pub proof fn law_empty_relay_is_valid(seq: u64)
    ensures
        (RelayView { rooms: Map::empty(), seq }).valid(),
{
}

proof fn lemma_numeral_injective(a: nat, b: nat, base: nat)
    requires
        2 <= base <= 16,
        numeral(a, base) == numeral(b, base),
    ensures
        a == b,
    decreases a,
{
    lemma_numeral_len(a, base);
    lemma_numeral_len(b, base);
    let s = numeral(a, base);
    let t = numeral(b, base);
    if a < base {
        if b >= base {
            lemma_numeral_len(b / base, base);
        }
        assert(s[0] == digit(a));
        assert(t[0] == digit(b));
    } else {
        if b < base {
            lemma_numeral_len(a / base, base);
        }
        assert(s.last() == digit(a % base));
        assert(t.last() == digit(b % base));
        assert(s.drop_last() =~= numeral(a / base, base));
        assert(t.drop_last() =~= numeral(b / base, base));
        assert(a / base < a) by (nonlinear_arith)
            requires
                a >= base,
                base >= 2,
        ;
        lemma_numeral_injective(a / base, b / base, base);
        assert(0 <= a % base < base && 0 <= b % base < base) by (nonlinear_arith)
            requires
                base >= 2,
        ;
        assert(a == base * (a / base) + a % base) by (nonlinear_arith)
            requires
                base >= 2,
        ;
        assert(b == base * (b / base) + b % base) by (nonlinear_arith)
            requires
                base >= 2,
        ;
    }
}

proof fn lemma_numeral_len(n: nat, base: nat)
    ensures
        numeral(n, base).len() >= 1,
{
    if base >= 2 && n >= base {
        assert(numeral(n, base).len() == numeral(n / base, base).len() + 1);
    }
}

/// Two identifiers that were drawn with different numbers differ, as long as the
/// clock readings are written with equally many digits. (From the year 2006 to the
/// year 2554 they are.)
pub proof fn law_identifiers_differ(clock1: u128, seq1: u64, clock2: u128, seq2: u64)
    requires
        seq1 != seq2,
        numeral(clock1 as nat, 16).len() == numeral(clock2 as nat, 16).len(),
    ensures
        client_id_at(clock1, seq1) != client_id_at(clock2, seq2),
{
    let a = client_id_at(clock1, seq1);
    let b = client_id_at(clock2, seq2);
    if a == b {
        let n = numeral(clock1 as nat, 16).len() as int;
        assert(a.skip(n) =~= numeral(seq1 as nat, 16));
        assert(b.skip(n) =~= numeral(seq2 as nat, 16));
        lemma_numeral_injective(seq1 as nat, seq2 as nat, 16);
    }
}

/// An identifier is never empty, so a session that has one is seen to have one.
pub proof fn law_identifiers_are_not_empty(clock: u128, seq: u64)
    ensures
        client_id_at(clock, seq).len() > 0,
{
    lemma_numeral_len(clock as nat, 16);
}

/// The codes of different numbers below a million differ.
pub proof fn law_codes_differ(a: nat, b: nat)
    requires
        a < 1_000_000,
        b < 1_000_000,
        a != b,
    ensures
        six_digits(a) != six_digits(b),
{
    let s = six_digits(a);
    let t = six_digits(b);
    lemma_six_digits_value(a);
    lemma_six_digits_value(b);
    if s == t {
        assert(code_value(s) == code_value(t));
    }
}

/// The number that a code stands for.
spec fn code_value(s: Seq<char>) -> int {
    (s[0] as int - 48) * 100000 + (s[1] as int - 48) * 10000 + (s[2] as int - 48) * 1000 + (
    s[3] as int - 48) * 100 + (s[4] as int - 48) * 10 + (s[5] as int - 48)
}

proof fn lemma_six_digits_value(n: nat)
    requires
        n < 1_000_000,
    ensures
        code_value(six_digits(n)) == n,
{
    reveal(six_digits);
    let s = six_digits(n);
    assert(s[0] as int - 48 == n / 100000 % 10);
    assert(s[1] as int - 48 == n / 10000 % 10);
    assert(s[2] as int - 48 == n / 1000 % 10);
    assert(s[3] as int - 48 == n / 100 % 10);
    assert(s[4] as int - 48 == n / 10 % 10);
    assert(s[5] as int - 48 == n % 10);
    lemma_split_tens(n as int);
}

proof fn lemma_split_tens(n: int)
    requires
        0 <= n < 1_000_000,
    ensures
        n == (n / 100000 % 10) * 100000 + (n / 10000 % 10) * 10000 + (n / 1000 % 10) * 1000 + (n
            / 100 % 10) * 100 + (n / 10 % 10) * 10 + n % 10,
{
    assert(n / 10 / 10 == n / 100);
    assert(n / 100 / 10 == n / 1000);
    assert(n / 1000 / 10 == n / 10000);
    assert(n / 10000 / 10 == n / 100000);
    assert(n / 100000 % 10 == n / 100000);
}

/// A request that is refused is answered by one explanation to the one who sent
/// it, and leaves every room and the client's own place as they were.
pub proof fn law_refusals_change_nothing(
    relay: RelayView,
    session: SessionView,
    request: ClientMessageView,
    now: u128,
    step: Step,
)
    requires
        verdict(SessionView { invalid_count: 0, ..session }, request, now) is Refuse,
        handled(relay, session, EventView::Request(request), now, step),
    ensures
        step.relay == relay,
        step.session == (SessionView { invalid_count: 0, ..session }),
        step.flow == Flow::Open,
        step.sends.len() == 1,
        step.sends[0].to == session.link,
        step.sends[0].message == (ServerMessageView::Error {
            message: verdict(
                SessionView { invalid_count: 0, ..session },
                request,
                now,
            )->Refuse_0,
        }),
{
}

/// Whether a room is the same before and after.
pub open spec fn same_room(before: Rooms, after: Rooms, code: Seq<char>) -> bool {
    before.contains_key(code) == after.contains_key(code) && (before.contains_key(code)
        ==> before[code] == after[code])
}

/// An event on a session touches no room but the one that its client was in and
/// the one that it comes into.
pub proof fn law_other_rooms_are_untouched(
    relay: RelayView,
    session: SessionView,
    event: EventView,
    now: u128,
    step: Step,
    code: Seq<char>,
)
    requires
        handled(relay, session, event, now, step),
        code != session.room_code,
        code != step.session.room_code,
    ensures
        same_room(relay.rooms, step.relay.rooms, code),
{
}

/// Whoever learns the code of a fresh room can come into it: the code is accepted
/// as it is, the room is there, and there is room in it.
pub proof fn law_fresh_rooms_can_be_joined(
    relay: RelayView,
    session: SessionView,
    name: Seq<char>,
    cats: Seq<CatStyle>,
    step: Step,
    guest: SessionView,
    guest_name: Seq<char>,
    guest_cats: Seq<CatStyle>,
    now: u128,
)
    requires
        created(relay, session, name, cats, step),
        step.flow == Flow::Open,
        clean_name(guest_name) is Some,
        cats_ok(guest_cats),
    ensures
        ({
            let code = step.session.room_code;
            let request = ClientMessageView::JoinRoom {
                room_code: code,
                display_name: guest_name,
                cats: guest_cats,
            };
            &&& verdict(guest, request, now) == (VerdictView::Join {
                code,
                name: clean_name(guest_name)->0,
                cats: guest_cats,
            })
            &&& step.relay.rooms.contains_key(code)
            &&& step.relay.rooms[code].len() == 1
        }),
{
    let (rooms, sends) = departed(relay.rooms, session);
    let after = RelayView { rooms, seq: (relay.seq + 1) as u64 };
    let id = choose|id: Seq<char>|
        #[trigger] drawn_id(id, after.seq) && settled(after, session, sends, id, name, cats, step);
    let (readings, code) = choose|readings: Seq<u128>, code: Seq<char>|
        {
            &&& #[trigger] first_free(rooms, after.seq, readings, code, step.relay.seq)
            &&& step == admitted(
                RelayView { rooms, seq: step.relay.seq },
                session,
                sends,
                code,
                id,
                name,
                cats,
            )
        };
    law_drawn_codes_are_accepted(readings.last(), step.relay.seq);
}

/// A client that asks for a room of its own gets one that was not there, is alone
/// in it and is welcomed; no other room is taken over.
pub proof fn law_fresh_rooms_are_new(
    relay: RelayView,
    session: SessionView,
    name: Seq<char>,
    cats: Seq<CatStyle>,
    step: Step,
)
    requires
        created(relay, session, name, cats, step),
        step.flow == Flow::Open,
    ensures
        ({
            let rooms = departed(relay.rooms, session).0;
            let code = step.session.room_code;
            let id = step.session.client_id;
            &&& !rooms.contains_key(code)
            &&& step.relay.rooms == rooms.insert(code, seq![newcomer(session, id, name, cats)])
            &&& step.sends.drop_last() == departed(relay.rooms, session).1
            &&& step.relay.seq > relay.seq + 1
            &&& drawn_id(id, (relay.seq + 1) as u64)
            &&& step.sends.last() == (DeliveryView {
                to: session.link,
                message: ServerMessageView::Joined {
                    client_id: id,
                    room_code: code,
                    peers: seq![newcomer(session, id, name, cats).peer],
                },
            })
        }),
{
    let (rooms, sends) = departed(relay.rooms, session);
    let after = RelayView { rooms, seq: (relay.seq + 1) as u64 };
    let id = choose|id: Seq<char>|
        #[trigger] drawn_id(id, after.seq) && settled(after, session, sends, id, name, cats, step);
    let code = step.session.room_code;
    let m = newcomer(session, id, name, cats);
    let members = with_member(Seq::empty(), m);
    assert(members =~= seq![m]);
    assert(step.relay.rooms =~= rooms.insert(code, seq![m]));
    assert(peers_of(seq![m]) =~= seq![m.peer]);
    let told = broadcast_of(
        step.relay.rooms,
        code,
        Some((id, welcome(step.relay.rooms, code, id))),
    );
    assert(told.len() == 1);
    assert(step.sends.drop_last() =~= sends);
    assert(step.sends.last() == told[0]);
}

/// A client that gets a room of its own and goes again leaves the rooms as they
/// were.
pub proof fn law_create_then_leave(
    relay: RelayView,
    session: SessionView,
    name: Seq<char>,
    cats: Seq<CatStyle>,
    step: Step,
)
    requires
        session.client_id.len() == 0,
        created(relay, session, name, cats, step),
        step.flow == Flow::Open,
    ensures
        ended(step.relay, step.session, Seq::empty()).relay.rooms == relay.rooms,
{
    let after = RelayView { rooms: relay.rooms, seq: (relay.seq + 1) as u64 };
    let id = choose|id: Seq<char>|
        #[trigger] drawn_id(id, after.seq) && settled(
            after,
            session,
            Seq::empty(),
            id,
            name,
            cats,
            step,
        );
    let code = step.session.room_code;
    let m = newcomer(session, id, name, cats);
    let members = with_member(Seq::empty(), m);
    assert(members =~= seq![m]);
    assert(step.relay.rooms == relay.rooms.insert(code, members));
    lemma_without(members, id);
    let left = without(members, id);
    if left.len() > 0 {
        assert(members.contains(left[0]));
    }
    assert(ended(step.relay, step.session, Seq::empty()).relay.rooms =~= relay.rooms);
}

/// A client that comes into a room and goes again leaves the rooms as they were,
/// provided that no member of the room had its identifier already.
pub proof fn law_join_then_leave(
    relay: RelayView,
    session: SessionView,
    code: Seq<char>,
    name: Seq<char>,
    cats: Seq<CatStyle>,
    step: Step,
)
    requires
        relay.valid(),
        session.client_id.len() == 0,
        joined(relay, session, code, name, cats, step),
        step.session.client_id.len() > 0,
        !has_member(relay.rooms[code], step.session.client_id),
    ensures
        ended(step.relay, step.session, Seq::empty()).relay.rooms == relay.rooms,
{
    let after = RelayView { rooms: relay.rooms, seq: (relay.seq + 1) as u64 };
    let id = choose|id: Seq<char>|
        #[trigger] drawn_id(id, after.seq) && step == admitted(
            after,
            session,
            Seq::empty(),
            code,
            id,
            name,
            cats,
        );
    let m = newcomer(session, id, name, cats);
    let members = relay.rooms[code];
    assert(step.relay.rooms[code] == members.push(m));
    let keep = |m: MemberView| m.peer.id != id;
    lemma_filter_push(members, m, keep);
    lemma_without(members, id);
    assert(without(members.push(m), id) == members);
    assert(ended(step.relay, step.session, Seq::empty()).relay.rooms =~= relay.rooms);
}

/// The peers that a message tells of.
pub open spec fn peers_told(message: ServerMessageView) -> Seq<PeerView> {
    match message {
        ServerMessageView::Joined { peers, .. } => peers,
        ServerMessageView::Snapshot { peers, .. } => peers,
        ServerMessageView::Error { .. } => Seq::empty(),
    }
}

/// Of a broadcast, every member of the room gets exactly one message, and it tells
/// of every member.
pub proof fn law_broadcasts_reach_every_member(rooms: Rooms, code: Seq<char>)
    requires
        rooms.contains_key(code),
    ensures
        broadcast_of(rooms, code, None).len() == rooms[code].len(),
        forall|i: int|
            0 <= i < rooms[code].len() ==> {
                let d = #[trigger] broadcast_of(rooms, code, None)[i];
                &&& d.to == rooms[code][i].link
                &&& d.message == (ServerMessageView::Snapshot {
                    room_code: code,
                    peers: snapshot_of(rooms, code),
                })
            },
{
}

/// When a member reports, everyone in its room is told, itself included, and what
/// they are told of it is what it reported.
pub proof fn law_reports_reach_the_room(
    relay: RelayView,
    session: SessionView,
    report: ReportView,
    now: u128,
    i: int,
    k: int,
)
    requires
        relay.rooms.contains_key(session.room_code),
        0 <= i < relay.rooms[session.room_code].len(),
        relay.rooms[session.room_code][i].peer.id == session.client_id,
        0 <= k < relay.rooms[session.room_code].len(),
    ensures
        ({
            let members = relay.rooms[session.room_code];
            let step = updated(relay, session, report, now);
            &&& step.sends.len() == members.len()
            &&& step.sends[k].to == members[k].link
            &&& peers_told(step.sends[k].message).len() == members.len()
            &&& peers_told(step.sends[k].message)[i] == reported_peer(members[i].peer, report)
        }),
{
}

/// A client that has come into a room is a member of it, on its own connection; it
/// is told its identifier, the code and who is there, and everyone else there is
/// told of it.
pub proof fn law_newcomers_are_announced(
    relay: RelayView,
    session: SessionView,
    code: Seq<char>,
    id: Seq<char>,
    name: Seq<char>,
    cats: Seq<CatStyle>,
    k: int,
)
    requires
        relay.rooms.contains_key(code) ==> distinct_ids(relay.rooms[code]),
        0 <= k < admitted(
            relay,
            session,
            Seq::empty(),
            code,
            id,
            name,
            cats,
        ).relay.rooms[code].len(),
    ensures
        ({
            let step = admitted(relay, session, Seq::empty(), code, id, name, cats);
            let members = step.relay.rooms[code];
            let m = newcomer(session, id, name, cats);
            &&& members.contains(m)
            &&& distinct_ids(members)
            &&& step.sends.len() == members.len()
            &&& step.sends[k].to == members[k].link
            &&& peers_told(step.sends[k].message).contains(m.peer)
            &&& members[k].peer.id == id ==> members[k] == m && step.sends[k].message == welcome(
                step.relay.rooms,
                code,
                id,
            )
            &&& members[k].peer.id != id ==> step.sends[k].message == (
            ServerMessageView::Snapshot {
                room_code: code,
                peers: snapshot_of(step.relay.rooms, code),
            })
        }),
{
    let step = admitted(relay, session, Seq::empty(), code, id, name, cats);
    let before = if relay.rooms.contains_key(code) {
        relay.rooms[code]
    } else {
        Seq::empty()
    };
    let members = step.relay.rooms[code];
    let m = newcomer(session, id, name, cats);
    assert(members == with_member(before, m));
    if has_member(before, id) {
        let j = choose|j: int| 0 <= j < before.len() && (#[trigger] before[j]).peer.id == id;
        assert(members[j] == m);
        assert(peers_of(members)[j] == m.peer);
        assert forall|i: int, j: int| 0 <= i < j < members.len() implies (
        #[trigger] members[i]).peer.id != (#[trigger] members[j]).peer.id by {
            assert(before[i].peer.id != before[j].peer.id);
        }
    } else {
        assert(members[before.len() as int] == m);
        assert(peers_of(members)[before.len() as int] == m.peer);
        assert forall|i: int, j: int| 0 <= i < j < members.len() implies (
        #[trigger] members[i]).peer.id != (#[trigger] members[j]).peer.id by {
            assert(before[i].peer.id != m.peer.id);
            if j < before.len() {
                assert(before[i].peer.id != before[j].peer.id);
            }
        }
        if members[k].peer.id == id {
            assert(k == before.len());
        }
    }
    assert(peers_told(step.sends[k].message) == peers_of(members));
}

/// A guest that asks for a room that is not there, or that is full, is told so, and
/// comes into no room; it has left the one that it was in.
pub proof fn law_guests_are_turned_away(
    relay: RelayView,
    session: SessionView,
    code: Seq<char>,
    name: Seq<char>,
    cats: Seq<CatStyle>,
    step: Step,
)
    requires
        joined(relay, session, code, name, cats, step),
        ({
            let rooms = departed(relay.rooms, session).0;
            !rooms.contains_key(code) || rooms[code].len() >= MAX_ROOM_PEERS
        }),
    ensures
        step.relay == (RelayView { rooms: departed(relay.rooms, session).0, seq: relay.seq }),
        step.session == session,
        step.flow == Flow::Open,
        step.sends.len() > 0,
        step.sends.drop_last() == departed(relay.rooms, session).1,
        step.sends.last() == apology(
            session,
            if departed(relay.rooms, session).0.contains_key(code) {
                "Room is full"@
            } else {
                "Room not found"@
            },
        ),
{
    assert(step.sends.drop_last() =~= departed(relay.rooms, session).1);
}

/// A guest that asks for a room that is there and not full comes into it, and is
/// welcomed there, as long as the relay has a number left.
pub proof fn law_guests_are_let_in(
    relay: RelayView,
    session: SessionView,
    code: Seq<char>,
    name: Seq<char>,
    cats: Seq<CatStyle>,
    step: Step,
)
    requires
        joined(relay, session, code, name, cats, step),
        departed(relay.rooms, session).0.contains_key(code),
        departed(relay.rooms, session).0[code].len() < MAX_ROOM_PEERS,
        relay.seq < u64::MAX,
    ensures
        step.flow == Flow::Open,
        step.session.room_code == code,
        step.session.client_id.len() > 0,
        step.relay.rooms.contains_key(code),
        step.relay.rooms == entered(
            departed(relay.rooms, session).0,
            code,
            newcomer(session, step.session.client_id, name, cats),
        ),
        step.relay.rooms[code].contains(newcomer(session, step.session.client_id, name, cats)),
        departed(relay.rooms, session).1.is_prefix_of(step.sends),
        step.relay.seq == relay.seq + 1,
        drawn_id(step.session.client_id, step.relay.seq),
        step.sends.contains(
            DeliveryView {
                to: session.link,
                message: welcome(step.relay.rooms, code, step.session.client_id),
            },
        ),
{
    let (rooms, sends) = departed(relay.rooms, session);
    let after = RelayView { rooms, seq: (relay.seq + 1) as u64 };
    let id = choose|id: Seq<char>|
        #[trigger] drawn_id(id, after.seq) && step == admitted(
            after,
            session,
            sends,
            code,
            id,
            name,
            cats,
        );
    let clock = choose|clock: u128|
        clock_gave(clock) && clock <= MAX_NANOS && id == #[trigger] client_id_at(
            clock,
            after.seq,
        );
    law_identifiers_are_not_empty(clock, after.seq);
    let m = newcomer(session, id, name, cats);
    let before = rooms[code];
    let members = step.relay.rooms[code];
    assert(members == with_member(before, m));
    let i = if has_member(before, id) {
        choose|j: int| 0 <= j < before.len() && (#[trigger] before[j]).peer.id == id
    } else {
        before.len() as int
    };
    assert(members[i] == m);
    let told = broadcast_of(
        step.relay.rooms,
        code,
        Some((id, welcome(step.relay.rooms, code, id))),
    );
    assert(told[i].to == session.link);
    assert(step.sends[sends.len() + i] == told[i]);
}

/// Every unreadable message is counted and answered, and the session ends when the
/// count is full and not before.
pub proof fn law_unreadable_messages_end_a_session(
    relay: RelayView,
    session: SessionView,
    message: Seq<char>,
)
    requires
        session.is_open(),
    ensures
        ({
            let step = struck(relay, session, message);
            &&& step.session.invalid_count == session.invalid_count + 1
            &&& step.flow == (if session.invalid_count + 1 == INVALID_LIMIT {
                Flow::Closed
            } else {
                Flow::Open
            })
            &&& step.sends.len() >= 1
            &&& step.sends[0] == apology(session, message)
            &&& step.flow == Flow::Open ==> step.relay == relay && step.sends.len() == 1
            &&& step.session.link == session.link
            &&& step.session.client_id == session.client_id
            &&& step.session.room_code == session.room_code
            &&& step.session.last_presence == session.last_presence
        }),
{
}

/// The session before one of the steps that it goes through.
pub open spec fn session_before(session: SessionView, steps: Seq<Step>, i: int) -> SessionView {
    if i == 0 {
        session
    } else {
        steps[i - 1].session
    }
}

/// A session goes through these steps, one for each event, whatever becomes of the
/// relay in between.
pub open spec fn goes_through(
    session: SessionView,
    relays: Seq<RelayView>,
    events: Seq<EventView>,
    times: Seq<u128>,
    steps: Seq<Step>,
) -> bool {
    &&& relays.len() == events.len()
    &&& times.len() == events.len()
    &&& steps.len() == events.len()
    &&& forall|i: int|
        0 <= i < events.len() ==> handled(
            relays[i],
            session_before(session, steps, i),
            #[trigger] events[i],
            times[i],
            steps[i],
        )
}

proof fn lemma_count(
    session: SessionView,
    relays: Seq<RelayView>,
    events: Seq<EventView>,
    times: Seq<u128>,
    steps: Seq<Step>,
    i: int,
)
    requires
        session.is_open(),
        goes_through(session, relays, events, times, steps),
        events.len() <= INVALID_LIMIT - session.invalid_count,
        forall|k: int|
            0 <= k < events.len() ==> (#[trigger] events[k] is Oversized || events[k] is Malformed),
        0 <= i <= events.len(),
    ensures
        session_before(session, steps, i).invalid_count == session.invalid_count + i,
        session_before(session, steps, i).link == session.link,
    decreases i,
{
    if i > 0 {
        lemma_count(session, relays, events, times, steps, i - 1);
        assert(events[i - 1] is Oversized || events[i - 1] is Malformed);
    }
}

/// A session ends with the fourth unreadable message in a row and not before, and
/// every one of them is answered; of a session in which some have come already, as
/// many fewer are put up with.
pub proof fn law_four_unreadable_messages_in_a_row(
    session: SessionView,
    relays: Seq<RelayView>,
    events: Seq<EventView>,
    times: Seq<u128>,
    steps: Seq<Step>,
)
    requires
        session.is_open(),
        goes_through(session, relays, events, times, steps),
        events.len() == INVALID_LIMIT - session.invalid_count,
        forall|i: int|
            0 <= i < events.len() ==> (#[trigger] events[i] is Oversized || events[i] is Malformed),
    ensures
        forall|i: int|
            0 <= i < steps.len() ==> {
                &&& (#[trigger] steps[i]).flow == (if i == steps.len() - 1 {
                    Flow::Closed
                } else {
                    Flow::Open
                })
                &&& steps[i].sends.len() > 0
                &&& steps[i].sends[0] == apology(
                    session,
                    if events[i] is Oversized {
                        "Message too large"@
                    } else {
                        "Invalid request"@
                    },
                )
            },
{
    assert forall|i: int| 0 <= i < steps.len() implies {
        &&& (#[trigger] steps[i]).flow == (if i == steps.len() - 1 {
            Flow::Closed
        } else {
            Flow::Open
        })
        &&& steps[i].sends.len() > 0
        &&& steps[i].sends[0] == apology(
            session,
            if events[i] is Oversized {
                "Message too large"@
            } else {
                "Invalid request"@
            },
        )
    } by {
        lemma_count(session, relays, events, times, steps, i);
        assert(events[i] is Oversized || events[i] is Malformed);
    }
}

/// A request that can be read makes the count of unreadable ones start anew.
pub proof fn law_requests_reset_the_count(
    relay: RelayView,
    session: SessionView,
    request: ClientMessageView,
    now: u128,
    step: Step,
)
    requires
        handled(relay, session, EventView::Request(request), now, step),
    ensures
        step.session.invalid_count == 0,
{
}

/// A report counts only when at least [`PRESENCE_INTERVAL`] has passed since the
/// last one of the session that did. Nothing else that happens on a session changes
/// when that was.
pub proof fn law_reports_keep_their_distance(
    relay: RelayView,
    session: SessionView,
    event: EventView,
    now: u128,
    step: Step,
)
    requires
        handled(relay, session, event, now, step),
    ensures
        ({
            let counts = event matches EventView::Request(request) && verdict(
                SessionView { invalid_count: 0, ..session },
                request,
                now,
            ) is Update;
            &&& counts ==> step.session.last_presence == Some(now)
            &&& counts ==> (session.last_presence matches Some(last) ==> now >= last
                + PRESENCE_INTERVAL)
            &&& !counts ==> step.session.last_presence == session.last_presence
        }),
{
}

proof fn lemma_trimmed_ends(s: Seq<char>)
    ensures
        trimmed_front(s).len() > 0 ==> !is_white_space(trimmed_front(s)[0]),
        trimmed_back(s).len() > 0 ==> !is_white_space(trimmed_back(s).last()),
        trimmed_back(s).len() > 0 ==> s.len() > 0 && trimmed_back(s)[0] == s[0],
    decreases s.len(),
{
    if s.len() > 0 {
        lemma_trimmed_ends(s.drop_first());
        lemma_trimmed_ends(s.drop_last());
    }
}

proof fn lemma_trimmed_twice(s: Seq<char>)
    ensures
        trimmed(trimmed(s)) == trimmed(s),
{
    lemma_trimmed_ends(s);
    lemma_trimmed_ends(trimmed_front(s));
    lemma_trim_keeps(trimmed(s));
}

/// A room code that was accepted is accepted again, just as it is.
pub proof fn law_codes_are_stable(s: Seq<char>)
    ensures
        clean_room_code(s) matches Some(code) ==> clean_room_code(code) == Some(code),
{
    lemma_trimmed_twice(s);
}

/// A display name that was accepted is accepted again, just as it is, unless the
/// control characters that were dropped left it empty or with white space at an
/// end.
pub proof fn law_names_are_stable(s: Seq<char>)
    requires
        clean_name(s) matches Some(name) ==> name.len() > 0 && !is_white_space(name[0])
            && !is_white_space(name.last()),
    ensures
        clean_name(s) matches Some(name) ==> clean_name(name) == Some(name),
{
    if let Some(name) = clean_name(s) {
        lemma_filter_holds(trimmed(s));
        lemma_filter_holds(name);
        lemma_trim_keeps(name);
    }
}

/// White space around a text, and nothing else, is what trimming takes away: the text
/// is white space, then what is left, then white space, and what is left neither
/// begins nor ends with any.
pub proof fn law_trimming_takes_the_ends(s: Seq<char>)
    ensures
        ({
            let t = trimmed(s);
            &&& exists|a: int, b: int|
                #![trigger s.subrange(a, b)]
                {
                    &&& 0 <= a <= b <= s.len()
                    &&& t == s.subrange(a, b)
                    &&& forall|i: int| 0 <= i < a ==> is_white_space(#[trigger] s[i])
                    &&& forall|i: int| b <= i < s.len() ==> is_white_space(#[trigger] s[i])
                }
            &&& t.len() > 0 ==> !is_white_space(t[0]) && !is_white_space(t.last())
        }),
{
    lemma_front(s);
    let front = trimmed_front(s);
    let a = s.len() - front.len();
    lemma_back(front);
    let b = a + trimmed(s).len();
    assert(trimmed(s) =~= s.subrange(a, b));
    assert forall|i: int| b <= i < s.len() implies is_white_space(#[trigger] s[i]) by {
        assert(front[i - a] == s[i]);
    }
    lemma_trimmed_ends(s);
    lemma_trimmed_ends(front);
}

proof fn lemma_front(s: Seq<char>)
    ensures
        trimmed_front(s).len() <= s.len(),
        trimmed_front(s) == s.skip(s.len() - trimmed_front(s).len()),
        forall|i: int|
            0 <= i < s.len() - trimmed_front(s).len() ==> is_white_space(#[trigger] s[i]),
    decreases s.len(),
{
    if s.len() > 0 && is_white_space(s[0]) {
        let rest = s.drop_first();
        lemma_front(rest);
        assert(trimmed_front(s) =~= s.skip(s.len() - trimmed_front(s).len()));
        assert forall|i: int|
            0 <= i < s.len() - trimmed_front(s).len() implies is_white_space(#[trigger] s[i]) by {
            if i > 0 {
                assert(rest[i - 1] == s[i]);
            }
        }
    } else {
        assert(s.skip(0) =~= s);
    }
}

proof fn lemma_back(s: Seq<char>)
    ensures
        trimmed_back(s).len() <= s.len(),
        trimmed_back(s) == s.take(trimmed_back(s).len() as int),
        forall|i: int| trimmed_back(s).len() <= i < s.len() ==> is_white_space(#[trigger] s[i]),
    decreases s.len(),
{
    if s.len() > 0 && is_white_space(s.last()) {
        let rest = s.drop_last();
        lemma_back(rest);
        assert(trimmed_back(s) =~= s.take(trimmed_back(s).len() as int));
        assert forall|i: int| trimmed_back(s).len() <= i < s.len() implies is_white_space(
            #[trigger] s[i],
        ) by {
            if i < s.len() - 1 {
                assert(rest[i] == s[i]);
            }
        }
    } else {
        assert(s.take(s.len() as int) =~= s);
    }
}

/// Names are cleaned character by character: those below 0x20 and those from 0x7f to
/// 0x9f go, every other one stays, in its order.
pub proof fn law_names_are_cleaned_character_by_character(s: Seq<char>, c: char)
    ensures
        printable(Seq::empty()).len() == 0,
        printable(s.push(c)) == (if (c as u32) < 0x20 || 0x7f <= c as u32 <= 0x9f {
            printable(s)
        } else {
            printable(s).push(c)
        }),
{
    reveal(Seq::filter);
    lemma_filter_push(s, c, |c: char| !is_control(c));
}

/// A name is refused exactly when it is blank or longer than 24 characters without the
/// white space around it, and else kept without that and without its control
/// characters. A code is refused unless it is six digits without the white space
/// around it, and else kept without that.
pub proof fn law_names_and_codes_are_judged_by_what_is_left(s: Seq<char>)
    ensures
        clean_name(s) is Some == (1 <= trimmed(s).len() <= 24),
        clean_name(s) is Some ==> clean_name(s)->0 == printable(trimmed(s)),
        clean_room_code(s) is Some == (trimmed(s).len() == 6 && forall|i: int|
            0 <= i < 6 ==> 48 <= (#[trigger] trimmed(s)[i]) as u32 <= 57),
        clean_room_code(s) is Some ==> clean_room_code(s)->0 == trimmed(s),
{
    if trimmed(s).len() == 6 {
        assert(is_room_code(trimmed(s)) <==> forall|i: int|
            0 <= i < 6 ==> 48 <= (#[trigger] trimmed(s)[i]) as u32 <= 57) by {
            if is_room_code(trimmed(s)) {
                assert forall|i: int| 0 <= i < 6 implies 48 <= (#[trigger] trimmed(s)[i]) as u32
                    <= 57 by {
                    assert(is_decimal(trimmed(s)[i]));
                }
            }
        }
    }
}

} // verus!
