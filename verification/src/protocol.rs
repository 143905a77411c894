//! The messages that clients and the relay exchange, and what they are made of.

use vstd::arithmetic::power2::*;
use vstd::prelude::*;

verus! {

/// The relay that a fresh configuration points to.
pub const DEFAULT_ENDPOINT: &'static str = "wss://oneko.nosh.zip/";

/// A coordinate on the wire: a single-precision number (IEEE 754 binary32), kept
/// as its bit pattern.
#[derive(Clone, Copy, Debug, Default, PartialEq, Eq, Structural)]
pub struct Coord {
    pub bits: u32,
}

impl Coord {
    /// The sign bit.
    pub open spec fn is_negative(self) -> bool {
        self.bits >= 0x8000_0000
    }

    /// The eight exponent bits.
    pub open spec fn exponent(self) -> nat {
        (self.bits / 0x80_0000 % 0x100) as nat
    }

    /// The twenty-three fraction bits.
    pub open spec fn fraction(self) -> nat {
        (self.bits % 0x80_0000) as nat
    }

    /// Neither an infinity nor a NaN.
    pub open spec fn is_finite(self) -> bool {
        self.exponent() != 0xff
    }

    /// The magnitude of a finite number, in units of 2 to the power of -149, the
    /// smallest positive single-precision number.
    pub open spec fn magnitude(self) -> nat {
        if self.exponent() == 0 {
            self.fraction()
        } else {
            (0x80_0000 + self.fraction()) * pow2((self.exponent() - 1) as nat)
        }
    }

    /// The value of a finite number, in the same units.
    pub open spec fn value(self) -> int {
        if self.is_negative() {
            -(self.magnitude() as int)
        } else {
            self.magnitude() as int
        }
    }

    /// A finite number from 0 to 1, both included.
    pub open spec fn in_unit(self) -> bool {
        self.is_finite() && 0 <= self.value() <= pow2(149)
    }

    /// Whether the number is finite and lies from 0 to 1.
    pub fn is_in_unit(self) -> (r: bool)
        ensures
            r == self.in_unit(),
    {
        proof {
            lemma_unit_bits(self);
        }
        self.bits <= 0x3f80_0000 || self.bits == 0x8000_0000
    }
}

/// The bit patterns of the numbers from 0 to 1: those up to the pattern of 1, and
/// that of the negative zero.
pub proof fn lemma_unit_bits(c: Coord)
    ensures
        c.in_unit() == (c.bits <= 0x3f80_0000 || c.bits == 0x8000_0000),
{
    let e = c.exponent();
    let f = c.fraction();
    let m = c.magnitude();
    lemma_pow2_pos(149);
    assert(pow2(23) == 0x80_0000) by {
        lemma2_to64();
    }
    if e == 0 {
        lemma_pow2_strictly_increases(23, 149);
        assert(m == f);
        assert(m < pow2(149));
        if c.is_negative() {
            assert((m == 0) == (c.bits == 0x8000_0000));
        }
    } else {
        let p = pow2((e - 1) as nat);
        lemma_pow2_pos((e - 1) as nat);
        lemma_pow2_adds(23, (e - 1) as nat);
        assert(0x80_0000 * p == pow2((e + 22) as nat));
        assert(m == 0x80_0000 * p + f * p) by (nonlinear_arith)
            requires
                m == (0x80_0000 + f) * p,
        ;
        assert(0 <= f * p < 0x80_0000 * p) by (nonlinear_arith)
            requires
                0 <= f < 0x80_0000,
                p > 0,
        ;
        assert(f * p == 0 <==> f == 0) by (nonlinear_arith)
            requires
                0 <= f,
                p > 0,
        ;
        assert(m > 0);
        if !c.is_negative() {
            if e < 127 {
                lemma_pow2_adds(1, (e + 22) as nat);
                lemma2_to64();
                if e + 23 < 149 {
                    lemma_pow2_strictly_increases((e + 23) as nat, 149);
                }
            } else if e > 127 {
                lemma_pow2_strictly_increases(149, (e + 22) as nat);
            }
        }
    }
}

/// The colours of a cat, as `0xRRGGBB`, and how opaque it is drawn.
#[derive(Clone, Copy, Debug, PartialEq, Eq, Structural)]
pub struct CatStyle {
    pub body: u32,
    pub outline: u32,
    pub opacity: u8,
}

impl Default for CatStyle {
    /// White, outlined in black, fully opaque.
    fn default() -> (r: Self)
        ensures
            r == (CatStyle { body: 0x00ff_ffff, outline: 0x0000_0000, opacity: 255 }),
    {
        CatStyle { body: 0x00ff_ffff, outline: 0x0000_0000, opacity: 255 }
    }
}

/// Which relay and which room a user wants, and under what name.
#[derive(Debug)]
pub struct LobbyConfig {
    pub endpoint: String,
    pub room_code: String,
    pub display_name: String,
}

/// The texts of a [`LobbyConfig`].
#[verifier::ext_equal]
pub struct LobbyConfigView {
    pub endpoint: Seq<char>,
    pub room_code: Seq<char>,
    pub display_name: Seq<char>,
}

impl View for LobbyConfig {
    type V = LobbyConfigView;

    open spec fn view(&self) -> LobbyConfigView {
        LobbyConfigView {
            endpoint: self.endpoint@,
            room_code: self.room_code@,
            display_name: self.display_name@,
        }
    }
}

impl Clone for LobbyConfig {
    fn clone(&self) -> (r: Self)
        ensures
            r@ == self@,
    {
        LobbyConfig {
            endpoint: self.endpoint.clone(),
            room_code: self.room_code.clone(),
            display_name: self.display_name.clone(),
        }
    }
}

impl Default for LobbyConfig {
    fn default() -> (r: Self)
        ensures
            r@ == (LobbyConfigView {
                endpoint: Seq::empty(),
                room_code: Seq::empty(),
                display_name: Seq::empty(),
            }),
    {
        LobbyConfig {
            endpoint: String::new(),
            room_code: String::new(),
            display_name: String::new(),
        }
    }
}

/// Where one cat of a peer is on that peer's desktop, and which cell of the sprite
/// sheet it shows.
#[derive(Clone, Copy, Debug, Default, PartialEq, Eq, Structural)]
pub struct CatRenderSnapshot {
    pub x: Coord,
    pub y: Coord,
    pub sprite_x: u8,
    pub sprite_y: u8,
}

/// What the members of a room know of one of them.
#[derive(Debug)]
pub struct PeerSnapshot {
    pub id: String,
    pub display_name: String,
    pub cursor_x: Coord,
    pub cursor_y: Coord,
    pub locked: bool,
    pub cats: Vec<CatStyle>,
    pub renders: Vec<CatRenderSnapshot>,
}

/// The contents of a [`PeerSnapshot`].
#[verifier::ext_equal]
pub struct PeerView {
    pub id: Seq<char>,
    pub display_name: Seq<char>,
    pub cursor_x: Coord,
    pub cursor_y: Coord,
    pub locked: bool,
    pub cats: Seq<CatStyle>,
    pub renders: Seq<CatRenderSnapshot>,
}

impl View for PeerSnapshot {
    type V = PeerView;

    open spec fn view(&self) -> PeerView {
        PeerView {
            id: self.id@,
            display_name: self.display_name@,
            cursor_x: self.cursor_x,
            cursor_y: self.cursor_y,
            locked: self.locked,
            cats: self.cats@,
            renders: self.renders@,
        }
    }
}

impl Clone for PeerSnapshot {
    fn clone(&self) -> (r: Self)
        ensures
            r@ == self@,
    {
        let cats = self.cats.clone();
        let renders = self.renders.clone();
        assert(cats@ =~= self.cats@);
        assert(renders@ =~= self.renders@);
        PeerSnapshot {
            id: self.id.clone(),
            display_name: self.display_name.clone(),
            cursor_x: self.cursor_x,
            cursor_y: self.cursor_y,
            locked: self.locked,
            cats,
            renders,
        }
    }
}

impl Default for PeerSnapshot {
    fn default() -> (r: Self)
        ensures
            r@ == blank_peer(),
    {
        let r = PeerSnapshot {
            id: String::new(),
            display_name: String::new(),
            cursor_x: Coord { bits: 0 },
            cursor_y: Coord { bits: 0 },
            locked: false,
            cats: Vec::new(),
            renders: Vec::new(),
        };
        assert(r@ =~= blank_peer());
        r
    }
}

/// A peer of which nothing is known: no name, no cats, the cursor in the corner.
pub open spec fn blank_peer() -> PeerView {
    PeerView {
        id: Seq::empty(),
        display_name: Seq::empty(),
        cursor_x: Coord { bits: 0 },
        cursor_y: Coord { bits: 0 },
        locked: false,
        cats: Seq::empty(),
        renders: Seq::empty(),
    }
}

/// The contents of a list of peers.
pub open spec fn peer_views(peers: Seq<PeerSnapshot>) -> Seq<PeerView> {
    peers.map_values(|p: PeerSnapshot| p@)
}

/// Copies a list of peers.
pub fn clone_peers(peers: &Vec<PeerSnapshot>) -> (r: Vec<PeerSnapshot>)
    ensures
        peer_views(r@) == peer_views(peers@),
{
    let mut out: Vec<PeerSnapshot> = Vec::new();
    let mut i: usize = 0;
    while i < peers.len()
        invariant
            i <= peers@.len(),
            peer_views(out@) == peer_views(peers@).take(i as int),
        decreases peers@.len() - i,
    {
        let ghost before = out@;
        out.push(peers[i].clone());
        i += 1;
        assert(peer_views(out@) =~= peer_views(before).push(peers@[i - 1]@));
        assert(peer_views(out@) =~= peer_views(peers@).take(i as int));
    }
    assert(peer_views(peers@).take(i as int) =~= peer_views(peers@));
    out
}

/// What a client says to the relay.
#[derive(Debug)]
pub enum ClientMessage {
    CreateRoom { display_name: String, cats: Vec<CatStyle> },
    JoinRoom { room_code: String, display_name: String, cats: Vec<CatStyle> },
    Presence {
        cursor_x: Coord,
        cursor_y: Coord,
        locked: bool,
        cats: Vec<CatStyle>,
        renders: Vec<CatRenderSnapshot>,
    },
    Leave,
}

/// The contents of a [`ClientMessage`].
#[verifier::ext_equal]
pub enum ClientMessageView {
    CreateRoom { display_name: Seq<char>, cats: Seq<CatStyle> },
    JoinRoom { room_code: Seq<char>, display_name: Seq<char>, cats: Seq<CatStyle> },
    Presence {
        cursor_x: Coord,
        cursor_y: Coord,
        locked: bool,
        cats: Seq<CatStyle>,
        renders: Seq<CatRenderSnapshot>,
    },
    Leave,
}

impl View for ClientMessage {
    type V = ClientMessageView;

    open spec fn view(&self) -> ClientMessageView {
        match self {
            ClientMessage::CreateRoom { display_name, cats } => ClientMessageView::CreateRoom {
                display_name: display_name@,
                cats: cats@,
            },
            ClientMessage::JoinRoom { room_code, display_name, cats } => {
                ClientMessageView::JoinRoom {
                    room_code: room_code@,
                    display_name: display_name@,
                    cats: cats@,
                }
            },
            ClientMessage::Presence { cursor_x, cursor_y, locked, cats, renders } => {
                ClientMessageView::Presence {
                    cursor_x: *cursor_x,
                    cursor_y: *cursor_y,
                    locked: *locked,
                    cats: cats@,
                    renders: renders@,
                }
            },
            ClientMessage::Leave => ClientMessageView::Leave,
        }
    }
}

impl Clone for ClientMessage {
    fn clone(&self) -> (r: Self)
        ensures
            r@ == self@,
    {
        match self {
            ClientMessage::CreateRoom { display_name, cats } => ClientMessage::CreateRoom {
                display_name: display_name.clone(),
                cats: clone_styles(cats),
            },
            ClientMessage::JoinRoom { room_code, display_name, cats } => ClientMessage::JoinRoom {
                room_code: room_code.clone(),
                display_name: display_name.clone(),
                cats: clone_styles(cats),
            },
            ClientMessage::Presence { cursor_x, cursor_y, locked, cats, renders } => {
                let copies = renders.clone();
                assert(copies@ =~= renders@);
                ClientMessage::Presence {
                    cursor_x: *cursor_x,
                    cursor_y: *cursor_y,
                    locked: *locked,
                    cats: clone_styles(cats),
                    renders: copies,
                }
            },
            ClientMessage::Leave => ClientMessage::Leave,
        }
    }
}

/// What the relay says to a client.
#[derive(Debug)]
pub enum ServerMessage {
    Joined { client_id: String, room_code: String, peers: Vec<PeerSnapshot> },
    Snapshot { room_code: String, peers: Vec<PeerSnapshot> },
    Error { message: String },
}

/// The contents of a [`ServerMessage`].
#[verifier::ext_equal]
pub enum ServerMessageView {
    Joined { client_id: Seq<char>, room_code: Seq<char>, peers: Seq<PeerView> },
    Snapshot { room_code: Seq<char>, peers: Seq<PeerView> },
    Error { message: Seq<char> },
}

impl View for ServerMessage {
    type V = ServerMessageView;

    open spec fn view(&self) -> ServerMessageView {
        match self {
            ServerMessage::Joined { client_id, room_code, peers } => ServerMessageView::Joined {
                client_id: client_id@,
                room_code: room_code@,
                peers: peer_views(peers@),
            },
            ServerMessage::Snapshot { room_code, peers } => ServerMessageView::Snapshot {
                room_code: room_code@,
                peers: peer_views(peers@),
            },
            ServerMessage::Error { message } => ServerMessageView::Error { message: message@ },
        }
    }
}

impl Clone for ServerMessage {
    fn clone(&self) -> (r: Self)
        ensures
            r@ == self@,
    {
        match self {
            ServerMessage::Joined { client_id, room_code, peers } => ServerMessage::Joined {
                client_id: client_id.clone(),
                room_code: room_code.clone(),
                peers: clone_peers(peers),
            },
            ServerMessage::Snapshot { room_code, peers } => ServerMessage::Snapshot {
                room_code: room_code.clone(),
                peers: clone_peers(peers),
            },
            ServerMessage::Error { message } => ServerMessage::Error { message: message.clone() },
        }
    }
}

/// Copies a list of styles.
pub fn clone_styles(cats: &Vec<CatStyle>) -> (r: Vec<CatStyle>)
    ensures
        r@ == cats@,
{
    let r = cats.clone();
    assert(r@ =~= cats@);
    r
}

} // verus!
