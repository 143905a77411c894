//! The members of a room, and the messages that go out to them.

use crate::protocol::{
    peer_views, CatRenderSnapshot, CatStyle, Coord, PeerSnapshot, PeerView, ServerMessage,
    ServerMessageView,
};
use crate::text::same_text;
use vstd::prelude::*;

verus! {

/// A member of a room: what the others know of it, and the number of the
/// connection that its messages go out on.
#[derive(Debug)]
pub struct Member {
    pub peer: PeerSnapshot,
    pub link: u64,
}

/// The contents of a [`Member`].
#[verifier::ext_equal]
pub struct MemberView {
    pub peer: PeerView,
    pub link: u64,
}

impl View for Member {
    type V = MemberView;

    open spec fn view(&self) -> MemberView {
        MemberView { peer: self.peer@, link: self.link }
    }
}

impl Clone for Member {
    fn clone(&self) -> (r: Self)
        ensures
            r@ == self@,
    {
        Member { peer: self.peer.clone(), link: self.link }
    }
}

/// A message, and the connection that it goes out on.
#[derive(Debug)]
pub struct Delivery {
    pub to: u64,
    pub message: ServerMessage,
}

/// The contents of a [`Delivery`].
#[verifier::ext_equal]
pub struct DeliveryView {
    pub to: u64,
    pub message: ServerMessageView,
}

impl View for Delivery {
    type V = DeliveryView;

    open spec fn view(&self) -> DeliveryView {
        DeliveryView { to: self.to, message: self.message@ }
    }
}

/// The contents of a list of deliveries.
pub open spec fn delivery_views(sends: Seq<Delivery>) -> Seq<DeliveryView> {
    sends.map_values(|d: Delivery| d@)
}

/// The contents of a list of members.
pub open spec fn member_views(members: Seq<Member>) -> Seq<MemberView> {
    members.map_values(|m: Member| m@)
}

/// The members that are left when the one with the given identifier goes.
pub open spec fn without(members: Seq<MemberView>, id: Seq<char>) -> Seq<MemberView> {
    members.filter(|m: MemberView| m.peer.id != id)
}

/// Whether a member has the given identifier.
pub open spec fn has_member(members: Seq<MemberView>, id: Seq<char>) -> bool {
    exists|i: int| 0 <= i < members.len() && (#[trigger] members[i]).peer.id == id
}

/// The members when `m` has come in: in the place of the one that had its
/// identifier, or else behind the others.
pub open spec fn with_member(members: Seq<MemberView>, m: MemberView) -> Seq<MemberView> {
    if has_member(members, m.peer.id) {
        members.map_values(
            |x: MemberView|
                if x.peer.id == m.peer.id {
                    m
                } else {
                    x
                },
        )
    } else {
        members.push(m)
    }
}

/// What a client reports of itself while it is in a room.
#[derive(Debug)]
pub struct Report {
    pub cursor_x: Coord,
    pub cursor_y: Coord,
    pub locked: bool,
    pub cats: Vec<CatStyle>,
    pub renders: Vec<CatRenderSnapshot>,
}

/// The contents of a [`Report`].
#[verifier::ext_equal]
pub struct ReportView {
    pub cursor_x: Coord,
    pub cursor_y: Coord,
    pub locked: bool,
    pub cats: Seq<CatStyle>,
    pub renders: Seq<CatRenderSnapshot>,
}

impl View for Report {
    type V = ReportView;

    open spec fn view(&self) -> ReportView {
        ReportView {
            cursor_x: self.cursor_x,
            cursor_y: self.cursor_y,
            locked: self.locked,
            cats: self.cats@,
            renders: self.renders@,
        }
    }
}

/// A peer that has reported: it keeps its identifier and its name.
pub open spec fn reported_peer(peer: PeerView, report: ReportView) -> PeerView {
    PeerView {
        id: peer.id,
        display_name: peer.display_name,
        cursor_x: report.cursor_x,
        cursor_y: report.cursor_y,
        locked: report.locked,
        cats: report.cats,
        renders: report.renders,
    }
}

/// The members when the one with the given identifier has reported.
pub open spec fn reported(
    members: Seq<MemberView>,
    id: Seq<char>,
    report: ReportView,
) -> Seq<MemberView> {
    members.map_values(
        |m: MemberView|
            if m.peer.id == id {
                MemberView { peer: reported_peer(m.peer, report), link: m.link }
            } else {
                m
            },
    )
}

/// What each member knows of the room.
pub open spec fn peers_of(members: Seq<MemberView>) -> Seq<PeerView> {
    members.map_values(|m: MemberView| m.peer)
}

/// One message for each member: the greeting for the one that it is addressed to,
/// a snapshot of the room for the others.
pub open spec fn notices(
    code: Seq<char>,
    members: Seq<MemberView>,
    greeting: Option<(Seq<char>, ServerMessageView)>,
) -> Seq<DeliveryView> {
    members.map_values(
        |m: MemberView|
            DeliveryView {
                to: m.link,
                message: match greeting {
                    Some((id, message)) if id == m.peer.id => message,
                    _ => ServerMessageView::Snapshot { room_code: code, peers: peers_of(members) },
                },
            },
    )
}

/// A room: its members, in the order in which they came.
#[derive(Debug)]
pub struct RoomState {
    pub members: Vec<Member>,
}

impl View for RoomState {
    type V = Seq<MemberView>;

    open spec fn view(&self) -> Seq<MemberView> {
        member_views(self.members@)
    }
}

impl RoomState {
    /// The room that is left when a member goes.
    pub fn without(&self, id: &str) -> (r: RoomState)
        ensures
            r@ == without(self@, id@),
    {
        let mut left: Vec<Member> = Vec::new();
        let mut i: usize = 0;
        let ghost keep = |m: MemberView| m.peer.id != id@;
        proof {
            reveal(Seq::filter);
            assert(member_views(left@) =~= self@.take(0).filter(keep));
        }
        while i < self.members.len()
            invariant
                i <= self.members@.len(),
                keep == (|m: MemberView| m.peer.id != id@),
                member_views(left@) == self@.take(i as int).filter(keep),
            decreases self.members@.len() - i,
        {
            let ghost before = left@;
            proof {
                let done = self@.take(i as int);
                assert(self@.take(i as int + 1) =~= done.push(self.members@[i as int]@));
                crate::lists::lemma_filter_push(done, self.members@[i as int]@, keep);
            }
            if !same_text(&self.members[i].peer.id, id) {
                left.push(self.members[i].clone());
                assert(member_views(left@) =~= member_views(before).push(
                    self.members@[i as int]@,
                ));
            }
            i += 1;
        }
        assert(self@.take(i as int) =~= self@);
        RoomState { members: left }
    }

    /// The room with one member more, or with a member in another's place.
    pub fn with_member(&self, m: Member) -> (r: RoomState)
        ensures
            r@ == with_member(self@, m@),
    {
        let mut all: Vec<Member> = Vec::new();
        let mut found = false;
        let mut i: usize = 0;
        while i < self.members.len()
            invariant
                i <= self.members@.len(),
                found == has_member(self@.take(i as int), m@.peer.id),
                member_views(all@) == self@.take(i as int).map_values(
                    |x: MemberView|
                        if x.peer.id == m@.peer.id {
                            m@
                        } else {
                            x
                        },
                ),
            decreases self.members@.len() - i,
        {
            let ghost before = all@;
            let ghost x = self@[i as int];
            let ghost was = found;
            let same = same_text(&self.members[i].peer.id, &m.peer.id);
            if same {
                all.push(m.clone());
                found = true;
            } else {
                all.push(self.members[i].clone());
            }
            i += 1;
            proof {
                let more = self@.take(i as int);
                assert(more =~= self@.take(i - 1).push(x));
                assert(more[i - 1] == x);
                if was {
                    let k = choose|k: int|
                        0 <= k < i - 1 && (#[trigger] self@.take(i - 1)[k]).peer.id == m@.peer.id;
                    assert(more[k].peer.id == m@.peer.id);
                }
                if has_member(more, m@.peer.id) && !same {
                    let k = choose|k: int|
                        0 <= k < more.len() && (#[trigger] more[k]).peer.id == m@.peer.id;
                    assert(self@.take(i - 1)[k].peer.id == m@.peer.id);
                }
                assert(member_views(all@) =~= member_views(before).push(all@.last()@));
                assert(member_views(all@) =~= more.map_values(
                    |x: MemberView|
                        if x.peer.id == m@.peer.id {
                            m@
                        } else {
                            x
                        },
                ));
            }
        }
        assert(self@.take(i as int) =~= self@);
        if !found {
            let ghost before = member_views(all@);
            let ghost mv = m@;
            all.push(m);
            proof {
                assert forall|k: int| 0 <= k < self@.len() implies (#[trigger] self@[k]).peer.id
                    != mv.peer.id by {}
                assert(before =~= self@);
                assert(member_views(all@) =~= self@.push(mv));
            }
        }
        RoomState { members: all }
    }

    /// The room when a member has reported.
    pub fn reported(&self, id: &str, report: Report) -> (r: RoomState)
        ensures
            r@ == reported(self@, id@, report@),
    {
        let mut all: Vec<Member> = Vec::new();
        let mut i: usize = 0;
        while i < self.members.len()
            invariant
                i <= self.members@.len(),
                member_views(all@) == reported(self@.take(i as int), id@, report@),
            decreases self.members@.len() - i,
        {
            let mut member = self.members[i].clone();
            if same_text(&member.peer.id, id) {
                let cats = report.cats.clone();
                let renders = report.renders.clone();
                assert(cats@ =~= report.cats@);
                assert(renders@ =~= report.renders@);
                member.peer.cursor_x = report.cursor_x;
                member.peer.cursor_y = report.cursor_y;
                member.peer.locked = report.locked;
                member.peer.cats = cats;
                member.peer.renders = renders;
            }
            let ghost before = all@;
            all.push(member);
            i += 1;
            assert(member_views(all@) =~= member_views(before).push(member@));
            assert(member_views(all@) =~= reported(self@.take(i as int), id@, report@));
        }
        assert(self@.take(i as int) =~= self@);
        RoomState { members: all }
    }

    /// What each member knows of the room.
    pub fn peers(&self) -> (r: Vec<PeerSnapshot>)
        ensures
            peer_views(r@) == peers_of(self@),
    {
        let mut out: Vec<PeerSnapshot> = Vec::new();
        let mut i: usize = 0;
        while i < self.members.len()
            invariant
                i <= self.members@.len(),
                peer_views(out@) == peers_of(self@).take(i as int),
            decreases self.members@.len() - i,
        {
            let ghost before = out@;
            out.push(self.members[i].peer.clone());
            i += 1;
            assert(peer_views(out@) =~= peer_views(before).push(self@[i - 1].peer));
            assert(peer_views(out@) =~= peers_of(self@).take(i as int));
        }
        assert(peers_of(self@).take(i as int) =~= peers_of(self@));
        out
    }

    /// The messages for the members of the room.
    pub fn notices(&self, code: &str, greeting: &Option<(String, ServerMessage)>) -> (r: Vec<
        Delivery,
    >)
        ensures
            delivery_views(r@) == notices(code@, self@, greeting_view(*greeting)),
    {
        let mut out: Vec<Delivery> = Vec::new();
        let mut i: usize = 0;
        let ghost all = notices(code@, self@, greeting_view(*greeting));
        while i < self.members.len()
            invariant
                i <= self.members@.len(),
                all == notices(code@, self@, greeting_view(*greeting)),
                delivery_views(out@) == all.take(i as int),
            decreases self.members@.len() - i,
        {
            let message = self.notice_for(code, &self.members[i].peer.id, greeting);
            let ghost before = out@;
            out.push(Delivery { to: self.members[i].link, message });
            i += 1;
            assert(delivery_views(out@) =~= delivery_views(before).push(out@.last()@));
            assert(delivery_views(out@) =~= all.take(i as int));
        }
        assert(all.take(i as int) =~= all);
        out
    }

    /// The message for the member with the given identifier.
    fn notice_for(
        &self,
        code: &str,
        id: &str,
        greeting: &Option<(String, ServerMessage)>,
    ) -> (r: ServerMessage)
        ensures
            r@ == (match greeting_view(*greeting) {
                Some((to, message)) if to == id@ => message,
                _ => ServerMessageView::Snapshot { room_code: code@, peers: peers_of(self@) },
            }),
    {
        if let Some((to, message)) = greeting {
            if same_text(to, id) {
                return message.clone();
            }
        }
        ServerMessage::Snapshot { room_code: code.to_owned(), peers: self.peers() }
    }
}

/// The contents of a greeting: whom it is addressed to, and what it says.
pub open spec fn greeting_view(greeting: Option<(String, ServerMessage)>) -> Option<
    (Seq<char>, ServerMessageView),
> {
    match greeting {
        Some((id, message)) => Some((id@, message@)),
        None => None,
    }
}

} // verus!
