//! The rooms of the relay, and the identifiers and codes that it gives out.

use crate::clock::{clock_gave, low_bits, now_seed, MAX_NANOS};
use crate::protocol::{peer_views, PeerSnapshot, PeerView, ServerMessage, ServerMessageView};
use crate::room::{
    delivery_views, greeting_view, notices, peers_of, reported, with_member, without, Delivery,
    DeliveryView, Member, MemberView, Report, ReportView, RoomState,
};
use crate::text::{numeral, six_digits, write_numeral, write_six_digits};
use vstd::hash_map::StringHashMap;
use vstd::prelude::*;

verus! {

/// The most members that a room takes in.
pub const MAX_ROOM_PEERS: usize = 16;

/// The rooms by their code.
pub type Rooms = Map<Seq<char>, Seq<MemberView>>;

/// The contents of a [`RelayState`].
#[verifier::ext_equal]
pub struct RelayView {
    pub rooms: Rooms,
    pub seq: u64,
}

/// The rooms of the relay, and the number that its identifiers are drawn from.
pub struct RelayState {
    rooms: StringHashMap<RoomState>,
    seq: u64,
}

impl View for RelayState {
    type V = RelayView;

    closed spec fn view(&self) -> RelayView {
        RelayView { rooms: self.rooms@.map_values(|r: RoomState| r@), seq: self.seq }
    }
}

/// The client identifier drawn at a clock reading and a number.
pub open spec fn client_id_at(clock: u128, seq: u64) -> Seq<char> {
    numeral(clock as nat, 16) + numeral(seq as nat, 16)
}

/// The room code drawn at a clock reading and a number: the last six digits of
/// their sum in 64 bits.
pub open spec fn room_code_at(clock: u128, seq: u64) -> Seq<char> {
    six_digits(
        ((clock % 0x1_0000_0000_0000_0000 + seq) % 0x1_0000_0000_0000_0000 % 1_000_000) as nat,
    )
}

/// Writes the client identifier for a clock reading and a number.
pub fn client_id(clock: u128, seq: u64) -> (r: String)
    ensures
        r@ == client_id_at(clock, seq),
{
    let mut id = write_numeral(clock, 16);
    let tail = write_numeral(seq as u128, 16);
    id.append(&tail);
    id
}

/// Writes the room code for a clock reading and a number.
pub fn room_code(clock: u128, seq: u64) -> (r: String)
    ensures
        r@ == room_code_at(clock, seq),
{
    let sum: u64 = low_bits(clock).wrapping_add(seq);
    write_six_digits(sum % 1_000_000)
}

/// Draws a client identifier from the clock and the next number.
pub fn next_id(seq: &mut u64) -> (r: String)
    requires
        *old(seq) < u64::MAX,
    ensures
        *final(seq) == *old(seq) + 1,
        exists|clock: u128|
            clock_gave(clock) && clock <= MAX_NANOS && r@ == #[trigger] client_id_at(
                clock,
                *final(seq),
            ),
{
    *seq = *seq + 1;
    client_id(now_seed(), *seq)
}

/// Draws a room code from the clock and the next number.
pub fn next_room(seq: &mut u64) -> (r: String)
    requires
        *old(seq) < u64::MAX,
    ensures
        *final(seq) == *old(seq) + 1,
        exists|clock: u128|
            clock_gave(clock) && clock <= MAX_NANOS && r@ == #[trigger] room_code_at(
                clock,
                *final(seq),
            ),
{
    *seq = *seq + 1;
    room_code(now_seed(), *seq)
}

/// The rooms when a client has gone from a room; a room that it leaves empty goes
/// too.
pub open spec fn cleaned(rooms: Rooms, code: Seq<char>, id: Seq<char>) -> Rooms {
    if rooms.contains_key(code) {
        let left = without(rooms[code], id);
        if left.len() == 0 {
            rooms.remove(code)
        } else {
            rooms.insert(code, left)
        }
    } else {
        rooms
    }
}

/// The rooms when a member has come into a room, which is opened where there is
/// none.
pub open spec fn entered(rooms: Rooms, code: Seq<char>, m: MemberView) -> Rooms {
    let members = if rooms.contains_key(code) {
        rooms[code]
    } else {
        Seq::empty()
    };
    rooms.insert(code, with_member(members, m))
}

/// The rooms when a member of a room has reported.
pub open spec fn reported_in(
    rooms: Rooms,
    code: Seq<char>,
    id: Seq<char>,
    report: ReportView,
) -> Rooms {
    if rooms.contains_key(code) {
        rooms.insert(code, reported(rooms[code], id, report))
    } else {
        rooms
    }
}

/// What is known of the members of a room; nothing of a room that there is not.
pub open spec fn snapshot_of(rooms: Rooms, code: Seq<char>) -> Seq<PeerView> {
    if rooms.contains_key(code) {
        peers_of(rooms[code])
    } else {
        Seq::empty()
    }
}

/// The messages that go out to a room.
pub open spec fn broadcast_of(
    rooms: Rooms,
    code: Seq<char>,
    greeting: Option<(Seq<char>, ServerMessageView)>,
) -> Seq<DeliveryView> {
    if rooms.contains_key(code) {
        notices(code, rooms[code], greeting)
    } else {
        Seq::empty()
    }
}

/// These are readings of the clock, and all codes drawn at them, from the number
/// behind `seq` on, are taken.
pub open spec fn all_taken(rooms: Rooms, seq: u64, readings: Seq<u128>) -> bool {
    seq + readings.len() <= u64::MAX && forall|i: int|
        0 <= i < readings.len() ==> clock_gave(#[trigger] readings[i]) && rooms.contains_key(
            room_code_at(readings[i], (seq + 1 + i) as u64),
        )
}

/// `code` is the first code that was free, drawn at the last of these readings.
pub open spec fn first_free(
    rooms: Rooms,
    seq: u64,
    readings: Seq<u128>,
    code: Seq<char>,
    seq_after: u64,
) -> bool {
    &&& readings.len() > 0
    &&& all_taken(rooms, seq, readings.drop_last())
    &&& clock_gave(readings.last())
    &&& seq_after == seq + readings.len()
    &&& code == room_code_at(readings.last(), seq_after)
    &&& !rooms.contains_key(code)
}

/// All codes drawn at these readings are taken, and the numbers have run out.
pub open spec fn out_of_numbers(rooms: Rooms, seq: u64, readings: Seq<u128>) -> bool {
    all_taken(rooms, seq, readings) && seq + readings.len() == u64::MAX
}

impl RelayState {
    /// A relay without rooms.
    pub fn new() -> (r: RelayState)
        ensures
            r@ == (RelayView { rooms: Map::empty(), seq: 0 }),
    {
        let r = RelayState { rooms: StringHashMap::new(), seq: 0 };
        assert(r@.rooms =~= Map::empty());
        r
    }

    /// What is known of the members of a room.
    pub fn snapshot(&self, room_code: &str) -> (r: Vec<PeerSnapshot>)
        ensures
            peer_views(r@) == snapshot_of(self@.rooms, room_code@),
    {
        match self.rooms.get(room_code) {
            Some(room) => room.peers(),
            None => {
                let none: Vec<PeerSnapshot> = Vec::new();
                assert(peer_views(none@) =~= Seq::empty());
                none
            },
        }
    }

    /// The messages for the members of a room: the greeting for the one that it is
    /// addressed to, a snapshot for the others.
    pub fn broadcast(&self, room_code: &str, joined: Option<(String, ServerMessage)>) -> (r: Vec<
        Delivery,
    >)
        ensures
            delivery_views(r@) == broadcast_of(self@.rooms, room_code@, greeting_view(joined)),
    {
        match self.rooms.get(room_code) {
            Some(room) => room.notices(room_code, &joined),
            None => {
                let none: Vec<Delivery> = Vec::new();
                assert(delivery_views(none@) =~= Seq::empty());
                none
            },
        }
    }

    /// Takes a client out of a room, and the room away with its last member.
    pub fn cleanup(&mut self, room_code: &str, client_id: &str)
        ensures
            final(self)@ == (RelayView {
                rooms: cleaned(old(self)@.rooms, room_code@, client_id@),
                seq: old(self)@.seq,
            }),
    {
        let left = match self.rooms.get(room_code) {
            Some(room) => room.without(client_id),
            None => {
                return;
            },
        };
        if left.members.len() == 0 {
            self.rooms.remove(room_code);
            assert(self@.rooms =~= old(self)@.rooms.remove(room_code@));
        } else {
            let ghost view = left@;
            self.rooms.insert(room_code.to_owned(), left);
            assert(self@.rooms =~= old(self)@.rooms.insert(room_code@, view));
        }
    }

    /// How many members a room has, if there is such a room.
    pub fn occupancy(&self, room_code: &str) -> (r: Option<usize>)
        ensures
            r is Some == self@.rooms.contains_key(room_code@),
            r is Some ==> r->0 == self@.rooms[room_code@].len(),
    {
        match self.rooms.get(room_code) {
            Some(room) => Some(room.members.len()),
            None => None,
        }
    }

    /// Takes a member into a room, which is opened where there is none.
    pub fn enter(&mut self, room_code: &str, member: Member)
        ensures
            final(self)@ == (RelayView {
                rooms: entered(old(self)@.rooms, room_code@, member@),
                seq: old(self)@.seq,
            }),
    {
        let room = match self.rooms.get(room_code) {
            Some(room) => room.with_member(member),
            None => {
                let empty = RoomState { members: Vec::new() };
                assert(empty@ =~= Seq::empty());
                empty.with_member(member)
            },
        };
        let ghost view = room@;
        self.rooms.insert(room_code.to_owned(), room);
        assert(self@.rooms =~= old(self)@.rooms.insert(room_code@, view));
    }

    /// Writes down what a member of a room has reported.
    pub fn report(&mut self, room_code: &str, client_id: &str, report: Report)
        ensures
            final(self)@ == (RelayView {
                rooms: reported_in(old(self)@.rooms, room_code@, client_id@, report@),
                seq: old(self)@.seq,
            }),
    {
        let room = match self.rooms.get(room_code) {
            Some(room) => room.reported(client_id, report),
            None => {
                return;
            },
        };
        let ghost view = room@;
        self.rooms.insert(room_code.to_owned(), room);
        assert(self@.rooms =~= old(self)@.rooms.insert(room_code@, view));
    }

    /// Draws a client identifier, if there is a number left.
    pub fn fresh_id(&mut self) -> (r: Option<String>)
        ensures
            final(self)@.rooms == old(self)@.rooms,
            r is Some == (old(self)@.seq < u64::MAX),
            r is Some ==> final(self)@.seq == old(self)@.seq + 1 && exists|clock: u128|
                clock_gave(clock) && clock <= MAX_NANOS && r->0@ == #[trigger] client_id_at(
                    clock,
                    final(self)@.seq,
                ),
            r is None ==> final(self)@.seq == old(self)@.seq,
    {
        if self.seq == u64::MAX {
            return None;
        }
        let mut seq: u64 = self.seq;
        let id = next_id(&mut seq);
        self.seq = seq;
        assert(self@.rooms == old(self)@.rooms);
        assert(self@.seq == seq);
        Some(id)
    }

    /// A code that was drawn for a room, unless there is a room that has it.
    pub fn unless_taken(&self, code: String) -> (r: Option<String>)
        ensures
            r == (if self@.rooms.contains_key(code@) {
                None
            } else {
                Some(code)
            }),
    {
        if self.rooms.contains_key(&code) {
            None
        } else {
            Some(code)
        }
    }

    /// Draws room codes until one is free. There is none when the numbers run out
    /// before that.
    pub fn fresh_room(&mut self) -> (r: Option<String>)
        ensures
            final(self)@.rooms == old(self)@.rooms,
            r is Some ==> exists|readings: Seq<u128>| #[trigger]
                first_free(old(self)@.rooms, old(self)@.seq, readings, r->0@, final(self)@.seq),
            r is None ==> final(self)@.seq == u64::MAX && exists|readings: Seq<u128>|
                out_of_numbers(old(self)@.rooms, old(self)@.seq, readings),
    {
        let ghost rooms = self@.rooms;
        let ghost start = self.seq;
        let ghost mut readings: Seq<u128> = Seq::empty();
        let mut seq: u64 = self.seq;
        let mut found: Option<String> = None;
        while found.is_none() && seq < u64::MAX
            invariant
                rooms == self@.rooms,
                seq == start + readings.len(),
                found is None ==> all_taken(rooms, start, readings),
                found is Some ==> first_free(rooms, start, readings, found->0@, seq),
            decreases u64::MAX - seq,
        {
            let code = next_room(&mut seq);
            proof {
                let clock = choose|clock: u128|
                    clock_gave(clock) && clock <= MAX_NANOS && code@ == #[trigger] room_code_at(
                        clock,
                        seq,
                    );
                lemma_one_more_reading(rooms, start, readings, clock);
                readings = readings.push(clock);
            }
            found = self.unless_taken(code);
        }
        self.seq = seq;
        proof {
            assert(old(self)@.seq == start);
            assert(old(self)@.rooms == rooms);
            assert(self@.rooms == rooms);
            assert(self@.seq == seq);
            if found is Some {
                assert(first_free(old(self)@.rooms, old(self)@.seq, readings, found->0@, self@.seq));
            }
            if found is None {
                assert(out_of_numbers(rooms, start, readings));
            }
        }
        found
    }
}

/// The code drawn at one more reading is either taken, as those before it, or the
/// first that is free.
proof fn lemma_one_more_reading(rooms: Rooms, seq: u64, readings: Seq<u128>, clock: u128)
    requires
        seq + readings.len() < u64::MAX,
        all_taken(rooms, seq, readings),
        clock_gave(clock),
    ensures
        ({
            let seq_after = (seq + readings.len() + 1) as u64;
            let code = room_code_at(clock, seq_after);
            if rooms.contains_key(code) {
                all_taken(rooms, seq, readings.push(clock))
            } else {
                first_free(rooms, seq, readings.push(clock), code, seq_after)
            }
        }),
{
    let more = readings.push(clock);
    assert(more.drop_last() =~= readings);
    assert(forall|i: int| 0 <= i < readings.len() ==> more[i] == #[trigger] readings[i]);
}

} // verus!
