//! The sessions of the connected clients, and what becomes of each thing that a
//! client sends.

use crate::clock::{clock_gave, MAX_NANOS};
use crate::protocol::{
    blank_peer, CatStyle, ClientMessage, ClientMessageView, PeerSnapshot, PeerView, ServerMessage,
    ServerMessageView,
};
use crate::relay::{
    broadcast_of, cleaned, client_id_at, entered, first_free, out_of_numbers, reported_in,
    snapshot_of, RelayState, RelayView, Rooms, MAX_ROOM_PEERS,
};
use crate::room::{delivery_views, Delivery, DeliveryView, Member, MemberView, Report, ReportView};
use crate::sanitize::{
    cats_ok, clean_name, clean_room_code, renders_ok, sanitize_cats, sanitize_cursor, sanitize_name,
    sanitize_renders, sanitize_room_code,
};
use vstd::prelude::*;

verus! {

/// The longest message that the relay reads, in bytes.
pub const MAX_TEXT_BYTES: usize = 4096;

/// A client's reports count at most once in this many nanoseconds.
pub const PRESENCE_INTERVAL: u128 = 16_000_000;

/// So many unreadable messages in a row end a session.
pub const INVALID_LIMIT: u8 = 4;

/// The relay's side of one connection.
#[derive(Debug)]
pub struct Session {
    /// The number of the connection.
    pub link: u64,
    /// The identifier of the client in the room that it entered last; empty before
    /// it entered one.
    pub client_id: String,
    /// The room that it entered last; empty before it entered one.
    pub room_code: String,
    /// When its last report counted, in nanoseconds of a steady clock.
    pub last_presence: Option<u128>,
    /// How many unreadable messages came in a row.
    pub invalid_count: u8,
}

/// The contents of a [`Session`].
#[verifier::ext_equal]
pub struct SessionView {
    pub link: u64,
    pub client_id: Seq<char>,
    pub room_code: Seq<char>,
    pub last_presence: Option<u128>,
    pub invalid_count: u8,
}

impl View for Session {
    type V = SessionView;

    open spec fn view(&self) -> SessionView {
        SessionView {
            link: self.link,
            client_id: self.client_id@,
            room_code: self.room_code@,
            last_presence: self.last_presence,
            invalid_count: self.invalid_count,
        }
    }
}

impl SessionView {
    /// A session that has not come to its end.
    pub open spec fn is_open(self) -> bool {
        self.invalid_count < INVALID_LIMIT
    }
}

impl Session {
    /// The session of a fresh connection.
    pub fn new(link: u64) -> (r: Session)
        ensures
            r@ == (SessionView {
                link,
                client_id: Seq::empty(),
                room_code: Seq::empty(),
                last_presence: None,
                invalid_count: 0,
            }),
    {
        Session {
            link,
            client_id: String::new(),
            room_code: String::new(),
            last_presence: None,
            invalid_count: 0,
        }
    }
}

/// What arrives on a connection.
#[derive(Debug)]
pub enum Event {
    /// A text longer than the relay reads.
    Oversized,
    /// A text that is no request.
    Malformed,
    /// A frame that carries no text and does not close the connection.
    Ignored,
    /// The connection is closed or broken.
    Closed,
    /// A request.
    Request(ClientMessage),
}

/// The contents of an [`Event`].
#[verifier::ext_equal]
pub enum EventView {
    Oversized,
    Malformed,
    Ignored,
    Closed,
    Request(ClientMessageView),
}

impl View for Event {
    type V = EventView;

    open spec fn view(&self) -> EventView {
        match self {
            Event::Oversized => EventView::Oversized,
            Event::Malformed => EventView::Malformed,
            Event::Ignored => EventView::Ignored,
            Event::Closed => EventView::Closed,
            Event::Request(message) => EventView::Request(message@),
        }
    }
}

/// How a session goes on.
#[derive(Clone, Copy, Debug, PartialEq, Eq, Structural)]
pub enum Flow {
    /// It waits for the next event.
    Open,
    /// It is over.
    Closed,
    /// The relay has no number left to draw an identifier from.
    Exhausted,
}

/// What an event led to: the messages to send, in order, and how the session goes
/// on.
#[derive(Debug)]
pub struct Outcome {
    pub sends: Vec<Delivery>,
    pub flow: Flow,
}

/// The relay, a session and what was sent, after an event.
#[verifier::ext_equal]
pub struct Step {
    pub relay: RelayView,
    pub session: SessionView,
    pub sends: Seq<DeliveryView>,
    pub flow: Flow,
}

/// Whether a text is short enough to be read.
pub fn within_limit(text: &str) -> (r: bool)
    ensures
        r == (vstd::utf8::encode_utf8(text@).len() <= MAX_TEXT_BYTES),
{
    text.as_bytes().len() <= MAX_TEXT_BYTES
}

/// What the relay makes of a request, before it looks at its rooms.
#[derive(Debug)]
pub enum Verdict {
    /// It is refused, with this explanation.
    Refuse(String),
    /// It comes too early and is passed over.
    Skip,
    /// The client wants a room of its own.
    Create { name: String, cats: Vec<CatStyle> },
    /// The client wants to come into a room.
    Join { code: String, name: String, cats: Vec<CatStyle> },
    /// The client reports.
    Update(Report),
    /// The client goes.
    Leave,
}

/// The contents of a [`Verdict`].
#[verifier::ext_equal]
pub enum VerdictView {
    Refuse(Seq<char>),
    Skip,
    Create { name: Seq<char>, cats: Seq<CatStyle> },
    Join { code: Seq<char>, name: Seq<char>, cats: Seq<CatStyle> },
    Update(ReportView),
    Leave,
}

impl View for Verdict {
    type V = VerdictView;

    open spec fn view(&self) -> VerdictView {
        match self {
            Verdict::Refuse(message) => VerdictView::Refuse(message@),
            Verdict::Skip => VerdictView::Skip,
            Verdict::Create { name, cats } => VerdictView::Create { name: name@, cats: cats@ },
            Verdict::Join { code, name, cats } => VerdictView::Join {
                code: code@,
                name: name@,
                cats: cats@,
            },
            Verdict::Update(report) => VerdictView::Update(report@),
            Verdict::Leave => VerdictView::Leave,
        }
    }
}

/// Whether a report at `now` comes too soon after the last one that counted.
pub open spec fn too_soon(last: Option<u128>, now: u128) -> bool {
    match last {
        Some(then) => now < then + PRESENCE_INTERVAL,
        None => false,
    }
}

/// What the relay makes of a request, before it looks at its rooms.
pub open spec fn verdict(
    session: SessionView,
    request: ClientMessageView,
    now: u128,
) -> VerdictView {
    match request {
        ClientMessageView::CreateRoom { display_name, cats } => {
            if clean_name(display_name) is None {
                VerdictView::Refuse("Invalid display name"@)
            } else if !cats_ok(cats) {
                VerdictView::Refuse("Invalid cat payload"@)
            } else {
                VerdictView::Create { name: clean_name(display_name)->0, cats }
            }
        },
        ClientMessageView::JoinRoom { room_code, display_name, cats } => {
            if clean_room_code(room_code) is None {
                VerdictView::Refuse("Invalid room code"@)
            } else if clean_name(display_name) is None {
                VerdictView::Refuse("Invalid display name"@)
            } else if !cats_ok(cats) {
                VerdictView::Refuse("Invalid cat payload"@)
            } else {
                VerdictView::Join {
                    code: clean_room_code(room_code)->0,
                    name: clean_name(display_name)->0,
                    cats,
                }
            }
        },
        ClientMessageView::Presence { cursor_x, cursor_y, locked, cats, renders } => {
            if session.client_id.len() == 0 || session.room_code.len() == 0 {
                VerdictView::Refuse("Join a room first"@)
            } else if too_soon(session.last_presence, now) {
                VerdictView::Skip
            } else if !cats_ok(cats) {
                VerdictView::Refuse("Invalid cat payload"@)
            } else if !renders_ok(renders, cats.len()) {
                VerdictView::Refuse("Invalid cat render payload"@)
            } else if !cursor_x.in_unit() || !cursor_y.in_unit() {
                VerdictView::Refuse("Invalid cursor position"@)
            } else {
                VerdictView::Update(ReportView { cursor_x, cursor_y, locked, cats, renders })
            }
        },
        ClientMessageView::Leave => VerdictView::Leave,
    }
}

/// Judges a request by the session that it came on and the time of a steady clock,
/// in nanoseconds.
pub fn judge(session: &Session, request: ClientMessage, now: u128) -> (r: Verdict)
    ensures
        r@ == verdict(session@, request@, now),
{
    match request {
        ClientMessage::CreateRoom { display_name, cats } => {
            let name = match sanitize_name(&display_name) {
                Some(name) => name,
                None => {
                    return Verdict::Refuse("Invalid display name".to_string());
                },
            };
            match sanitize_cats(cats) {
                Some(cats) => Verdict::Create { name, cats },
                None => Verdict::Refuse("Invalid cat payload".to_string()),
            }
        },
        ClientMessage::JoinRoom { room_code, display_name, cats } => {
            let code = match sanitize_room_code(&room_code) {
                Some(code) => code,
                None => {
                    return Verdict::Refuse("Invalid room code".to_string());
                },
            };
            let name = match sanitize_name(&display_name) {
                Some(name) => name,
                None => {
                    return Verdict::Refuse("Invalid display name".to_string());
                },
            };
            match sanitize_cats(cats) {
                Some(cats) => Verdict::Join { code, name, cats },
                None => Verdict::Refuse("Invalid cat payload".to_string()),
            }
        },
        ClientMessage::Presence { cursor_x, cursor_y, locked, cats, renders } => {
            if session.client_id.as_str().is_empty() || session.room_code.as_str().is_empty() {
                return Verdict::Refuse("Join a room first".to_string());
            }
            if let Some(then) = session.last_presence {
                if now < then || now - then < PRESENCE_INTERVAL {
                    return Verdict::Skip;
                }
            }
            let cats = match sanitize_cats(cats) {
                Some(cats) => cats,
                None => {
                    return Verdict::Refuse("Invalid cat payload".to_string());
                },
            };
            let renders = match sanitize_renders(renders, cats.len()) {
                Some(renders) => renders,
                None => {
                    return Verdict::Refuse("Invalid cat render payload".to_string());
                },
            };
            match sanitize_cursor(cursor_x, cursor_y) {
                Some((cursor_x, cursor_y)) => {
                    Verdict::Update(Report { cursor_x, cursor_y, locked, cats, renders })
                },
                None => Verdict::Refuse("Invalid cursor position".to_string()),
            }
        },
        ClientMessage::Leave => Verdict::Leave,
    }
}

/// An explanation for the client of a session.
pub open spec fn apology(session: SessionView, message: Seq<char>) -> DeliveryView {
    DeliveryView { to: session.link, message: ServerMessageView::Error { message } }
}

/// The rooms, and what is sent, when the client of a session leaves the room that
/// it entered last, if it entered one.
pub open spec fn departed(rooms: Rooms, session: SessionView) -> (Rooms, Seq<DeliveryView>) {
    if session.client_id.len() == 0 {
        (rooms, Seq::empty())
    } else {
        let left = cleaned(rooms, session.room_code, session.client_id);
        (left, broadcast_of(left, session.room_code, None))
    }
}

/// A client as it comes into a room.
pub open spec fn newcomer(
    session: SessionView,
    id: Seq<char>,
    name: Seq<char>,
    cats: Seq<CatStyle>,
) -> MemberView {
    MemberView {
        peer: PeerView { id, display_name: name, cats, ..blank_peer() },
        link: session.link,
    }
}

/// What a client is told when it has come into a room.
pub open spec fn welcome(rooms: Rooms, code: Seq<char>, id: Seq<char>) -> ServerMessageView {
    ServerMessageView::Joined { client_id: id, room_code: code, peers: snapshot_of(rooms, code) }
}

/// The step in which the client of a session comes into a room, after the messages
/// in `sends`.
pub open spec fn admitted(
    relay: RelayView,
    session: SessionView,
    sends: Seq<DeliveryView>,
    code: Seq<char>,
    id: Seq<char>,
    name: Seq<char>,
    cats: Seq<CatStyle>,
) -> Step {
    let rooms = entered(relay.rooms, code, newcomer(session, id, name, cats));
    Step {
        relay: RelayView { rooms, seq: relay.seq },
        session: SessionView { client_id: id, room_code: code, ..session },
        sends: sends + broadcast_of(rooms, code, Some((id, welcome(rooms, code, id)))),
        flow: Flow::Open,
    }
}

/// An identifier that a reading of the clock and a number give.
pub open spec fn drawn_id(id: Seq<char>, seq: u64) -> bool {
    exists|clock: u128|
        clock_gave(clock) && clock <= MAX_NANOS && id == #[trigger] client_id_at(clock, seq)
}

/// The steps in which a client that has left its room gets one of its own: it is
/// called `id`, and the room has the first code that was drawn and free. Where the
/// numbers run out before a code was free, there is no room.
pub open spec fn settled(
    relay: RelayView,
    session: SessionView,
    sends: Seq<DeliveryView>,
    id: Seq<char>,
    name: Seq<char>,
    cats: Seq<CatStyle>,
    step: Step,
) -> bool {
    ||| exists|readings: Seq<u128>, code: Seq<char>|
        {
            &&& #[trigger] first_free(relay.rooms, relay.seq, readings, code, step.relay.seq)
            &&& step == admitted(
                RelayView { rooms: relay.rooms, seq: step.relay.seq },
                session,
                sends,
                code,
                id,
                name,
                cats,
            )
        }
    ||| exists|readings: Seq<u128>|
        {
            &&& #[trigger] out_of_numbers(relay.rooms, relay.seq, readings)
            &&& step == Step {
                relay: RelayView { rooms: relay.rooms, seq: u64::MAX },
                session,
                sends,
                flow: Flow::Exhausted,
            }
        }
}

/// The steps in which a client asks for a room of its own. It leaves the room that
/// it was in first.
pub open spec fn created(
    relay: RelayView,
    session: SessionView,
    name: Seq<char>,
    cats: Seq<CatStyle>,
    step: Step,
) -> bool {
    let (rooms, sends) = departed(relay.rooms, session);
    if relay.seq == u64::MAX {
        step == (Step {
            relay: RelayView { rooms, seq: relay.seq },
            session,
            sends,
            flow: Flow::Exhausted,
        })
    } else {
        let after = RelayView { rooms, seq: (relay.seq + 1) as u64 };
        exists|id: Seq<char>|
            #[trigger] drawn_id(id, after.seq) && settled(
                after,
                session,
                sends,
                id,
                name,
                cats,
                step,
            )
    }
}

/// The steps in which a client asks to come into a room. It leaves the room that it
/// was in first, also where it is then turned away.
pub open spec fn joined(
    relay: RelayView,
    session: SessionView,
    code: Seq<char>,
    name: Seq<char>,
    cats: Seq<CatStyle>,
    step: Step,
) -> bool {
    let (rooms, sends) = departed(relay.rooms, session);
    let turned_away = |message: Seq<char>|
        Step {
            relay: RelayView { rooms, seq: relay.seq },
            session,
            sends: sends.push(apology(session, message)),
            flow: Flow::Open,
        };
    if !rooms.contains_key(code) {
        step == turned_away("Room not found"@)
    } else if rooms[code].len() >= MAX_ROOM_PEERS {
        step == turned_away("Room is full"@)
    } else if relay.seq == u64::MAX {
        step == (Step {
            relay: RelayView { rooms, seq: relay.seq },
            session,
            sends,
            flow: Flow::Exhausted,
        })
    } else {
        let after = RelayView { rooms, seq: (relay.seq + 1) as u64 };
        exists|id: Seq<char>|
            #[trigger] drawn_id(id, after.seq) && step == admitted(
                after,
                session,
                sends,
                code,
                id,
                name,
                cats,
            )
    }
}

/// The step in which a client reports.
pub open spec fn updated(
    relay: RelayView,
    session: SessionView,
    report: ReportView,
    now: u128,
) -> Step {
    let rooms = reported_in(relay.rooms, session.room_code, session.client_id, report);
    Step {
        relay: RelayView { rooms, seq: relay.seq },
        session: SessionView { last_presence: Some(now), ..session },
        sends: broadcast_of(rooms, session.room_code, None),
        flow: Flow::Open,
    }
}

/// The step that ends a session.
pub open spec fn ended(
    relay: RelayView,
    session: SessionView,
    sends: Seq<DeliveryView>,
) -> Step {
    let rooms = cleaned(relay.rooms, session.room_code, session.client_id);
    Step {
        relay: RelayView { rooms, seq: relay.seq },
        session,
        sends: sends + broadcast_of(rooms, session.room_code, None),
        flow: Flow::Closed,
    }
}

/// The step in which a session is told why nothing comes of what it sent.
pub open spec fn refused(relay: RelayView, session: SessionView, message: Seq<char>) -> Step {
    Step { relay, session, sends: seq![apology(session, message)], flow: Flow::Open }
}

/// The step in which a message cannot be read. With the last one that is put up
/// with, the session ends.
pub open spec fn struck(relay: RelayView, session: SessionView, message: Seq<char>) -> Step {
    let counted = SessionView {
        invalid_count: (session.invalid_count + 1) as u8,
        ..session
    };
    if counted.invalid_count >= INVALID_LIMIT {
        ended(relay, counted, seq![apology(session, message)])
    } else {
        refused(relay, counted, message)
    }
}

/// The steps that an event leads to.
pub open spec fn handled(
    relay: RelayView,
    session: SessionView,
    event: EventView,
    now: u128,
    step: Step,
) -> bool {
    match event {
        EventView::Oversized => step == struck(relay, session, "Message too large"@),
        EventView::Malformed => step == struck(relay, session, "Invalid request"@),
        EventView::Ignored => step == (Step {
            relay,
            session,
            sends: Seq::empty(),
            flow: Flow::Open,
        }),
        EventView::Closed => step == ended(relay, session, Seq::empty()),
        EventView::Request(request) => {
            let session = SessionView { invalid_count: 0, ..session };
            match verdict(session, request, now) {
                VerdictView::Refuse(message) => step == refused(relay, session, message),
                VerdictView::Skip => step == (Step {
                    relay,
                    session,
                    sends: Seq::empty(),
                    flow: Flow::Open,
                }),
                VerdictView::Create { name, cats } => created(relay, session, name, cats, step),
                VerdictView::Join { code, name, cats } => joined(
                    relay,
                    session,
                    code,
                    name,
                    cats,
                    step,
                ),
                VerdictView::Update(report) => step == updated(relay, session, report, now),
                VerdictView::Leave => step == ended(relay, session, Seq::empty()),
            }
        },
    }
}

/// The step that a relay, a session and an outcome make up.
pub open spec fn step_of(relay: RelayView, session: SessionView, out: Outcome) -> Step {
    Step { relay, session, sends: delivery_views(out.sends@), flow: out.flow }
}

/// The message that explains a refusal.
fn apologize(session: &Session, message: String) -> (r: Delivery)
    ensures
        r@ == apology(session@, message@),
{
    Delivery { to: session.link, message: ServerMessage::Error { message } }
}

/// One message.
fn only(delivery: Delivery) -> (r: Vec<Delivery>)
    ensures
        delivery_views(r@) == seq![delivery@],
{
    let mut sends: Vec<Delivery> = Vec::new();
    let ghost view = delivery@;
    sends.push(delivery);
    assert(delivery_views(sends@) =~= seq![view]);
    sends
}

/// No message.
fn nothing() -> (r: Vec<Delivery>)
    ensures
        delivery_views(r@) == Seq::<DeliveryView>::empty(),
{
    let sends: Vec<Delivery> = Vec::new();
    assert(delivery_views(sends@) =~= Seq::<DeliveryView>::empty());
    sends
}

/// Some messages, then others.
fn both(first: Vec<Delivery>, then: Vec<Delivery>) -> (r: Vec<Delivery>)
    ensures
        delivery_views(r@) == delivery_views(first@) + delivery_views(then@),
{
    let mut sends = first;
    let mut rest = then;
    sends.append(&mut rest);
    assert(delivery_views(sends@) =~= delivery_views(first@) + delivery_views(then@));
    sends
}

/// Lets the client of a session leave the room that it entered last, if it entered
/// one.
pub fn depart(relay: &mut RelayState, session: &Session) -> (sends: Vec<Delivery>)
    ensures
        ({
            let (rooms, messages) = departed(old(relay)@.rooms, session@);
            &&& final(relay)@ == (RelayView { rooms, seq: old(relay)@.seq })
            &&& delivery_views(sends@) == messages
        }),
{
    if session.client_id.as_str().is_empty() {
        nothing()
    } else {
        relay.cleanup(&session.room_code, &session.client_id);
        relay.broadcast(&session.room_code, None)
    }
}

/// Lets the client of a session come into a room under the given identifier.
pub fn seat(
    relay: &mut RelayState,
    session: &mut Session,
    sends: Vec<Delivery>,
    code: String,
    id: String,
    name: String,
    cats: Vec<CatStyle>,
) -> (out: Outcome)
    ensures
        step_of(final(relay)@, final(session)@, out) == admitted(
            old(relay)@,
            old(session)@,
            delivery_views(sends@),
            code@,
            id@,
            name@,
            cats@,
        ),
{
    let peer = PeerSnapshot { id: id.clone(), display_name: name, cats, ..Default::default() };
    let member = Member { peer, link: session.link };
    assert(member@ =~= newcomer(session@, id@, name@, cats@));
    relay.enter(&code, member);
    let greeting = ServerMessage::Joined {
        client_id: id.clone(),
        room_code: code.clone(),
        peers: relay.snapshot(&code),
    };
    let more = relay.broadcast(&code, Some((id.clone(), greeting)));
    session.client_id = id;
    session.room_code = code;
    Outcome { sends: both(sends, more), flow: Flow::Open }
}

/// Gives the client of a session a room of its own.
pub fn create(
    relay: &mut RelayState,
    session: &mut Session,
    name: String,
    cats: Vec<CatStyle>,
) -> (out: Outcome)
    ensures
        created(
            old(relay)@,
            old(session)@,
            name@,
            cats@,
            step_of(final(relay)@, final(session)@, out),
        ),
{
    let sends = depart(relay, session);
    let id = match relay.fresh_id() {
        Some(id) => id,
        None => {
            return Outcome { sends, flow: Flow::Exhausted };
        },
    };
    assert(drawn_id(id@, relay@.seq));
    let ghost between = relay@;
    match relay.fresh_room() {
        Some(code) => {
            let out = seat(relay, session, sends, code, id, name, cats);
            proof {
                let step = step_of(relay@, session@, out);
                let readings = choose|readings: Seq<u128>| #[trigger]
                    first_free(between.rooms, between.seq, readings, code@, relay@.seq);
                assert(first_free(between.rooms, between.seq, readings, code@, step.relay.seq));
                assert(settled(
                    between,
                    old(session)@,
                    delivery_views(sends@),
                    id@,
                    name@,
                    cats@,
                    step,
                ));
            }
            out
        },
        None => {
            let out = Outcome { sends, flow: Flow::Exhausted };
            proof {
                let step = step_of(relay@, session@, out);
                assert(relay@ == (RelayView { rooms: between.rooms, seq: u64::MAX }));
                assert(settled(
                    between,
                    old(session)@,
                    delivery_views(sends@),
                    id@,
                    name@,
                    cats@,
                    step,
                ));
            }
            out
        },
    }
}

/// Lets the client of a session come into a room that is there and not full.
pub fn join(
    relay: &mut RelayState,
    session: &mut Session,
    code: String,
    name: String,
    cats: Vec<CatStyle>,
) -> (out: Outcome)
    ensures
        joined(
            old(relay)@,
            old(session)@,
            code@,
            name@,
            cats@,
            step_of(final(relay)@, final(session)@, out),
        ),
{
    let sends = depart(relay, session);
    let problem = match relay.occupancy(&code) {
        None => Some("Room not found".to_string()),
        Some(count) => if count >= MAX_ROOM_PEERS {
            Some("Room is full".to_string())
        } else {
            None
        },
    };
    if let Some(message) = problem {
        let ghost before = delivery_views(sends@);
        let ghost text = message@;
        let all = both(sends, only(apologize(session, message)));
        assert(delivery_views(all@) =~= before.push(apology(session@, text)));
        return Outcome { sends: all, flow: Flow::Open };
    }
    let id = match relay.fresh_id() {
        Some(id) => id,
        None => {
            return Outcome { sends, flow: Flow::Exhausted };
        },
    };
    assert(drawn_id(id@, relay@.seq));
    seat(relay, session, sends, code, id, name, cats)
}

/// Writes down what the client of a session reports, and tells its room.
pub fn update(relay: &mut RelayState, session: &mut Session, report: Report, now: u128) -> (out:
    Outcome)
    ensures
        step_of(final(relay)@, final(session)@, out) == updated(
            old(relay)@,
            old(session)@,
            report@,
            now,
        ),
{
    session.last_presence = Some(now);
    relay.report(&session.room_code, &session.client_id, report);
    let sends = relay.broadcast(&session.room_code, None);
    Outcome { sends, flow: Flow::Open }
}

/// Ends a session: its client leaves, and its room is told.
pub fn end(relay: &mut RelayState, session: &Session, sends: Vec<Delivery>) -> (out: Outcome)
    ensures
        step_of(final(relay)@, session@, out) == ended(
            old(relay)@,
            session@,
            delivery_views(sends@),
        ),
{
    relay.cleanup(&session.room_code, &session.client_id);
    let more = relay.broadcast(&session.room_code, None);
    Outcome { sends: both(sends, more), flow: Flow::Closed }
}

/// Counts a message that cannot be read, and ends the session with the last one
/// that is put up with.
pub fn strike(relay: &mut RelayState, session: &mut Session, message: String) -> (out: Outcome)
    requires
        old(session)@.is_open(),
    ensures
        step_of(final(relay)@, final(session)@, out) == struck(
            old(relay)@,
            old(session)@,
            message@,
        ),
{
    session.invalid_count = session.invalid_count + 1;
    let sends = only(apologize(session, message));
    if session.invalid_count >= INVALID_LIMIT {
        end(relay, session, sends)
    } else {
        Outcome { sends, flow: Flow::Open }
    }
}

/// What becomes of an event on a session, at the time `now` of a steady clock in
/// nanoseconds: the relay and the session are brought up to date, and the messages
/// to send come back.
pub fn handle(relay: &mut RelayState, session: &mut Session, event: Event, now: u128) -> (out:
    Outcome)
    requires
        old(session)@.is_open(),
    ensures
        handled(
            old(relay)@,
            old(session)@,
            event@,
            now,
            step_of(final(relay)@, final(session)@, out),
        ),
        out.flow == Flow::Open ==> final(session)@.is_open(),
{
    match event {
        Event::Oversized => strike(relay, session, "Message too large".to_string()),
        Event::Malformed => strike(relay, session, "Invalid request".to_string()),
        Event::Ignored => Outcome { sends: nothing(), flow: Flow::Open },
        Event::Closed => end(relay, session, nothing()),
        Event::Request(request) => {
            session.invalid_count = 0;
            match judge(session, request, now) {
                Verdict::Refuse(message) => {
                    Outcome { sends: only(apologize(session, message)), flow: Flow::Open }
                },
                Verdict::Skip => Outcome { sends: nothing(), flow: Flow::Open },
                Verdict::Create { name, cats } => create(relay, session, name, cats),
                Verdict::Join { code, name, cats } => join(relay, session, code, name, cats),
                Verdict::Update(report) => update(relay, session, report, now),
                Verdict::Leave => end(relay, session, nothing()),
            }
        },
    }
}

} // verus!
