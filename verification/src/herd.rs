//! The cats on the desktop: the user's own, and those of the others in the room.

use crate::cat::{new_cat, new_remote_cat, CatState, Mode, RemoteCat};
use crate::lists::{lemma_filter_elements, lemma_filter_push};
use crate::protocol::{peer_views, CatRenderSnapshot, Coord, PeerSnapshot, PeerView};
use crate::rng::{lcg, low, low_of, roll, roll_u64, rolled};
use crate::sanitize::render_ok;
use crate::sprite::{on_sheet, Sprite};
use crate::text::same_text;
use vstd::prelude::*;

verus! {

/// How many frames a cat runs a lap by itself.
pub const LAP_FRAMES: u32 = 48;

/// How many frames a cat runs after another one.
pub const CHASE_FRAMES: u32 = 42;

/// How fast a cat runs a lap by itself, in hundredths of a radian in a frame.
pub const LAP_PACE: u32 = 38;

/// How fast a cat runs from another one, in hundredths of a radian in a frame.
pub const FLIGHT_PACE: u32 = 45;

/// Cats begin a game in one of so many frames.
pub const PLAY_CHANCE: u32 = 30;

/// The cats of someone else in the room.
#[derive(Debug)]
pub struct RemotePeer {
    pub id: String,
    pub cats: Vec<RemoteCat>,
}

/// The contents of a [`RemotePeer`].
#[verifier::ext_equal]
pub struct RemotePeerView {
    pub id: Seq<char>,
    pub cats: Seq<RemoteCat>,
}

impl View for RemotePeer {
    type V = RemotePeerView;

    open spec fn view(&self) -> RemotePeerView {
        RemotePeerView { id: self.id@, cats: self.cats@ }
    }
}

impl Clone for RemotePeer {
    fn clone(&self) -> (r: Self)
        ensures
            r@ == self@,
    {
        let cats = self.cats.clone();
        assert(cats@ =~= self.cats@);
        RemotePeer { id: self.id.clone(), cats }
    }
}

/// The contents of a list of other people's cats.
pub open spec fn remote_views(remotes: Seq<RemotePeer>) -> Seq<RemotePeerView> {
    remotes.map_values(|r: RemotePeer| r@)
}

/// A game that has begun.
#[derive(Clone, Copy, Debug, PartialEq, Eq, Structural)]
pub enum Play {
    /// One cat runs laps from the given bearing, in degrees.
    Solo { cat: usize, degrees: u32 },
    /// One cat runs laps from the given bearing, and another one runs after it.
    Pair { lead: usize, chaser: usize, degrees: u32 },
}

/// The cats on the desktop, and the chance that they act on.
#[derive(Debug)]
pub struct Herd {
    pub cats: Vec<CatState>,
    pub remotes: Vec<RemotePeer>,
    pub rng: u64,
}

/// The contents of a [`Herd`].
#[verifier::ext_equal]
pub struct HerdView {
    pub cats: Seq<CatState>,
    pub remotes: Seq<RemotePeerView>,
    pub rng: u64,
}

impl View for Herd {
    type V = HerdView;

    open spec fn view(&self) -> HerdView {
        HerdView { cats: self.cats@, remotes: remote_views(self.remotes@), rng: self.rng }
    }
}

/// The cats when `n` fresh ones have come, each from the next draw, and the
/// generator after that.
pub open spec fn grown(cats: Seq<CatState>, rng: u64, n: nat) -> (Seq<CatState>, u64)
    decreases n,
{
    if n == 0 {
        (cats, rng)
    } else {
        let (before, last) = grown(cats, rng, (n - 1) as nat);
        (before.push(new_cat(lcg(last))), lcg(last))
    }
}

/// The same for the cats of someone else.
pub open spec fn grown_remote(cats: Seq<RemoteCat>, rng: u64, n: nat) -> (Seq<RemoteCat>, u64)
    decreases n,
{
    if n == 0 {
        (cats, rng)
    } else {
        let (before, last) = grown_remote(cats, rng, (n - 1) as nat);
        (before.push(new_remote_cat(lcg(last))), lcg(last))
    }
}

/// The cats when there are to be `desired`: the last ones go, or fresh ones come.
pub open spec fn resized(cats: Seq<CatState>, rng: u64, desired: nat) -> (Seq<CatState>, u64) {
    if desired <= cats.len() {
        (cats.take(desired as int), rng)
    } else {
        grown(cats, rng, (desired - cats.len()) as nat)
    }
}

/// The same for the cats of someone else.
pub open spec fn resized_remote(cats: Seq<RemoteCat>, rng: u64, desired: nat) -> (
    Seq<RemoteCat>,
    u64,
) {
    if desired <= cats.len() {
        (cats.take(desired as int), rng)
    } else {
        grown_remote(cats, rng, (desired - cats.len()) as nat)
    }
}

/// Whether one of the peers has the given identifier.
pub open spec fn among(peers: Seq<PeerView>, id: Seq<char>) -> bool {
    exists|i: int| 0 <= i < peers.len() && (#[trigger] peers[i]).id == id
}

/// The cats of those who are still there.
pub open spec fn remaining(remotes: Seq<RemotePeerView>, peers: Seq<PeerView>) -> Seq<
    RemotePeerView,
> {
    remotes.filter(|r: RemotePeerView| among(peers, r.id))
}

/// The place of the first entry with the given identifier; the length of the list
/// where there is none.
pub open spec fn place_of(remotes: Seq<RemotePeerView>, id: Seq<char>) -> int
    decreases remotes.len(),
{
    if remotes.len() == 0 {
        0
    } else if remotes[0].id == id {
        0
    } else {
        1 + place_of(remotes.drop_first(), id)
    }
}

/// Other people's cats when a peer is seen to have so many.
pub open spec fn seen(
    remotes: Seq<RemotePeerView>,
    rng: u64,
    id: Seq<char>,
    count: nat,
) -> (Seq<RemotePeerView>, u64) {
    let i = place_of(remotes, id);
    if i < remotes.len() {
        let (cats, after) = resized_remote(remotes[i].cats, rng, count);
        (remotes.update(i, RemotePeerView { id: remotes[i].id, cats }), after)
    } else {
        let (cats, after) = grown_remote(Seq::empty(), rng, count);
        (remotes.push(RemotePeerView { id, cats }), after)
    }
}

/// Other people's cats when the peers are seen one after the other.
pub open spec fn all_seen(
    remotes: Seq<RemotePeerView>,
    rng: u64,
    peers: Seq<PeerView>,
) -> (Seq<RemotePeerView>, u64)
    decreases peers.len(),
{
    if peers.len() == 0 {
        (remotes, rng)
    } else {
        let (before, after) = all_seen(remotes, rng, peers.drop_last());
        seen(before, after, peers.last().id, peers.last().cats.len())
    }
}

/// Cats of which one runs laps.
pub open spec fn lapping(cats: Seq<CatState>, i: int, pace: u32, ttl: u32) -> Seq<CatState> {
    cats.update(i, CatState { mode: Mode::Lap { pace, ttl }, ..cats[i] })
}

/// Cats of which one runs after another.
pub open spec fn chasing(cats: Seq<CatState>, i: int, mate: usize, ttl: u32) -> Seq<CatState> {
    cats.update(i, CatState { mode: Mode::Chase { mate, ttl }, ..cats[i] })
}

/// The cats after the chance of a game, the generator, and the game if one began.
pub open spec fn played(cats: Seq<CatState>, rng: u64) -> (Seq<CatState>, u64, Option<Play>) {
    let r1 = lcg(rng);
    let n = low_of(cats.len());
    if cats.len() == 0 {
        (cats, rng, None)
    } else if rolled(r1, PLAY_CHANCE) != 0 {
        (cats, r1, None)
    } else {
        let r2 = lcg(r1);
        if cats.len() >= 2 && rolled(r2, 2) == 0 {
            let r3 = lcg(r2);
            let r4 = lcg(r3);
            let r5 = lcg(r4);
            let lead = rolled(r3, n) as usize;
            let drawn = rolled(r4, n) as usize;
            let chaser = if drawn == lead {
                ((drawn + 1) % cats.len() as int) as usize
            } else {
                drawn
            };
            (
                chasing(
                    lapping(cats, lead as int, FLIGHT_PACE, CHASE_FRAMES),
                    chaser as int,
                    lead,
                    CHASE_FRAMES,
                ),
                r5,
                Some(Play::Pair { lead, chaser, degrees: rolled(r5, 360) }),
            )
        } else {
            let r3 = if cats.len() >= 2 {
                lcg(r2)
            } else {
                r2
            };
            let r4 = lcg(r3);
            let cat = rolled(r3, n) as usize;
            (
                lapping(cats, cat as int, LAP_PACE, LAP_FRAMES),
                r4,
                Some(Play::Solo { cat, degrees: rolled(r4, 360) }),
            )
        }
    }
}

/// Cats that all stay near the cursor.
pub open spec fn calmed(cats: Seq<CatState>) -> Seq<CatState> {
    cats.map_values(|c: CatState| CatState { mode: Mode::Orbit, ..c })
}

impl Herd {
    /// No cats, and a seed for those that come.
    pub fn new(seed: u64) -> (r: Herd)
        ensures
            r@ == (HerdView {
                cats: Seq::empty(),
                remotes: Seq::empty(),
                rng: seed ^ 0x1234_5678_9abc_def0,
            }),
    {
        let r = Herd { cats: Vec::new(), remotes: Vec::new(), rng: seed ^ 0x1234_5678_9abc_def0 };
        assert(r@.remotes =~= Seq::empty());
        r
    }

    /// Lets cats come or go until there are as many as desired.
    pub fn reconcile(&mut self, desired: usize)
        ensures
            final(self)@.cats == resized(old(self)@.cats, old(self)@.rng, desired as nat).0,
            final(self)@.rng == resized(old(self)@.cats, old(self)@.rng, desired as nat).1,
            final(self)@.remotes == old(self)@.remotes,
    {
        if desired <= self.cats.len() {
            self.cats.truncate(desired);
            assert(self.cats@ =~= old(self).cats@.take(desired as int));
            return;
        }
        let ghost start = self.cats@;
        let ghost rng = self.rng;
        let ghost mut n: nat = 0;
        while self.cats.len() < desired
            invariant
                self.cats@.len() == start.len() + n,
                self.cats@.len() <= desired,
                self.cats@ == grown(start, rng, n).0,
                self.rng == grown(start, rng, n).1,
                self.remotes == old(self).remotes,
            decreases desired - self.cats@.len(),
        {
            let seed: u64 = self.roll_u64();
            self.cats.push(CatState::new(seed));
            proof {
                n = n + 1;
            }
        }
    }

    /// Draws, and gives the state of the generator.
    pub fn roll_u64(&mut self) -> (r: u64)
        ensures
            r == lcg(old(self).rng),
            *final(self) == (Herd { rng: r, ..*old(self) }),
    {
        let mut rng: u64 = self.rng;
        let r: u64 = roll_u64(&mut rng);
        self.rng = rng;
        r
    }

    /// Draws a number below `n`.
    pub fn roll(&mut self, n: u32) -> (r: u32)
        requires
            n > 0,
        ensures
            *final(self) == (Herd { rng: lcg(old(self).rng), ..*old(self) }),
            r == rolled(final(self).rng, n),
            r < n,
    {
        let mut rng: u64 = self.rng;
        let r: u32 = roll(&mut rng, n);
        self.rng = rng;
        r
    }

    /// Lets a game begin, by chance.
    pub fn plan_play(&mut self) -> (r: Option<Play>)
        requires
            old(self)@.cats.len() == 0 || low_of(old(self)@.cats.len()) > 0,
        ensures
            (final(self)@.cats, final(self)@.rng, r) == played(old(self)@.cats, old(self)@.rng),
            final(self)@.remotes == old(self)@.remotes,
    {
        if self.cats.len() == 0 || self.roll(PLAY_CHANCE) != 0 {
            return None;
        }
        let n: u32 = low(self.cats.len());
        if self.cats.len() >= 2 && self.roll(2) == 0 {
            let lead = self.roll(n) as usize;
            let mut chaser = self.roll(n) as usize;
            if lead == chaser {
                chaser = (chaser + 1) % self.cats.len();
            }
            let degrees: u32 = self.roll(360);
            self.set_mode(lead, Mode::Lap { pace: FLIGHT_PACE, ttl: CHASE_FRAMES });
            self.set_mode(chaser, Mode::Chase { mate: lead, ttl: CHASE_FRAMES });
            Some(Play::Pair { lead, chaser, degrees })
        } else {
            let cat = self.roll(n) as usize;
            let degrees: u32 = self.roll(360);
            self.set_mode(cat, Mode::Lap { pace: LAP_PACE, ttl: LAP_FRAMES });
            Some(Play::Solo { cat, degrees })
        }
    }

    /// Gives a cat something to be after.
    fn set_mode(&mut self, i: usize, mode: Mode)
        requires
            i < old(self).cats@.len(),
        ensures
            final(self)@.cats == old(self)@.cats.update(
                i as int,
                CatState { mode, ..old(self)@.cats[i as int] },
            ),
            final(self).remotes == old(self).remotes,
            final(self).rng == old(self).rng,
    {
        let mut cat = self.cats[i];
        cat.mode = mode;
        self.cats[i] = cat;
    }

    /// Begins a frame: while the cursor rests, a game may begin; when it moves, all
    /// cats make for it.
    pub fn tick(&mut self, locked: bool) -> (r: Option<Play>)
        requires
            locked ==> old(self)@.cats.len() == 0 || low_of(old(self)@.cats.len()) > 0,
        ensures
            locked ==> (final(self)@.cats, final(self)@.rng, r) == played(
                old(self)@.cats,
                old(self)@.rng,
            ),
            !locked ==> final(self)@.cats == calmed(old(self)@.cats) && final(self)@.rng == old(
                self,
            )@.rng && r is None,
            !locked ==> final(self)@.cats.len() == old(self)@.cats.len() && forall|i: int|
                0 <= i < old(self)@.cats.len() ==> #[trigger] final(self)@.cats[i] == (CatState {
                    mode: Mode::Orbit,
                    ..old(self)@.cats[i]
                }),
            final(self)@.remotes == old(self)@.remotes,
    {
        if locked {
            return self.plan_play();
        }
        let mut i: usize = 0;
        while i < self.cats.len()
            invariant
                i <= self.cats@.len(),
                self.cats@.len() == old(self)@.cats.len(),
                forall|k: int|
                    0 <= k < i ==> #[trigger] self.cats@[k] == (CatState {
                        mode: Mode::Orbit,
                        ..old(self)@.cats[k]
                    }),
                forall|k: int|
                    i <= k < self.cats@.len() ==> #[trigger] self.cats@[k] == old(self)@.cats[k],
                self.remotes == old(self).remotes,
                self.rng == old(self).rng,
            decreases self.cats@.len() - i,
        {
            self.set_mode(i, Mode::Orbit);
            i += 1;
        }
        assert(self.cats@ =~= calmed(old(self)@.cats));
        None
    }
}

/// Finds the first of the peers with the given identifier.
pub fn find_peer(peers: &Vec<PeerSnapshot>, id: &str) -> (r: Option<usize>)
    ensures
        r is Some == among(peer_views(peers@), id@),
        r matches Some(i) ==> i < peers@.len() && peers@[i as int].id@ == id@ && forall|k: int|
            0 <= k < i ==> (#[trigger] peers@[k]).id@ != id@,
{
    let ghost views = peer_views(peers@);
    let mut i: usize = 0;
    while i < peers.len()
        invariant
            i <= peers@.len(),
            views == peer_views(peers@),
            forall|k: int| 0 <= k < i ==> (#[trigger] views[k]).id != id@,
        decreases peers@.len() - i,
    {
        if same_text(&peers[i].id, id) {
            proof {
                assert(views[i as int].id == id@);
                assert forall|k: int| 0 <= k < i implies (#[trigger] peers@[k]).id@ != id@ by {
                    assert(views[k].id != id@);
                }
            }
            return Some(i);
        }
        i += 1;
    }
    None
}

/// The cats of those who are still there.
fn keep_remaining(remotes: &Vec<RemotePeer>, peers: &Vec<PeerSnapshot>) -> (r: Vec<RemotePeer>)
    ensures
        remote_views(r@) == remaining(remote_views(remotes@), peer_views(peers@)),
{
    let ghost all = remote_views(remotes@);
    let ghost keep = |r: RemotePeerView| among(peer_views(peers@), r.id);
    let mut out: Vec<RemotePeer> = Vec::new();
    let mut i: usize = 0;
    proof {
        reveal(Seq::filter);
        assert(remote_views(out@) =~= all.take(0).filter(keep));
    }
    while i < remotes.len()
        invariant
            i <= remotes@.len(),
            all == remote_views(remotes@),
            keep == (|r: RemotePeerView| among(peer_views(peers@), r.id)),
            remote_views(out@) == all.take(i as int).filter(keep),
        decreases remotes@.len() - i,
    {
        let ghost before = out@;
        proof {
            assert(all.take(i as int + 1) =~= all.take(i as int).push(all[i as int]));
            lemma_filter_push(all.take(i as int), all[i as int], keep);
        }
        if find_peer(peers, &remotes[i].id).is_some() {
            out.push(remotes[i].clone());
            assert(remote_views(out@) =~= remote_views(before).push(all[i as int]));
        }
        i += 1;
    }
    assert(all.take(i as int) =~= all);
    out
}

/// What the place of an entry is.
pub proof fn lemma_place_of(remotes: Seq<RemotePeerView>, id: Seq<char>, i: int)
    requires
        0 <= i <= remotes.len(),
        forall|k: int| 0 <= k < i ==> (#[trigger] remotes[k]).id != id,
        i < remotes.len() ==> remotes[i].id == id,
    ensures
        place_of(remotes, id) == i,
    decreases i,
{
    if i > 0 {
        let rest = remotes.drop_first();
        assert(remotes[0].id != id);
        assert forall|k: int| 0 <= k < i - 1 implies (#[trigger] rest[k]).id != id by {
            assert(rest[k] == remotes[k + 1]);
        }
        lemma_place_of(rest, id, i - 1);
    }
}

/// What is found at the place of an entry.
pub proof fn lemma_at_place(remotes: Seq<RemotePeerView>, id: Seq<char>)
    ensures
        0 <= place_of(remotes, id) <= remotes.len(),
        place_of(remotes, id) < remotes.len() ==> remotes[place_of(remotes, id)].id == id,
        place_of(remotes, id) == remotes.len() ==> forall|k: int|
            0 <= k < remotes.len() ==> (#[trigger] remotes[k]).id != id,
    decreases remotes.len(),
{
    if remotes.len() > 0 && remotes[0].id != id {
        let rest = remotes.drop_first();
        lemma_at_place(rest, id);
        if place_of(remotes, id) == remotes.len() {
            assert forall|k: int| 0 <= k < remotes.len() implies (#[trigger] remotes[k]).id
                != id by {
                if k > 0 {
                    assert(rest[k - 1] == remotes[k]);
                }
            }
        }
    }
}

/// Finds the place of the first entry with the given identifier.
fn place(remotes: &Vec<RemotePeer>, id: &str) -> (r: usize)
    ensures
        r == place_of(remote_views(remotes@), id@),
{
    let ghost views = remote_views(remotes@);
    let mut i: usize = 0;
    while i < remotes.len()
        invariant
            i <= remotes@.len(),
            views == remote_views(remotes@),
            forall|k: int| 0 <= k < i ==> (#[trigger] views[k]).id != id@,
        decreases remotes@.len() - i,
    {
        if same_text(&remotes[i].id, id) {
            proof {
                lemma_place_of(views, id@, i as int);
            }
            return i;
        }
        i += 1;
    }
    proof {
        lemma_place_of(views, id@, i as int);
    }
    i
}

/// Lets the cats of someone else come or go until there are as many as desired.
fn resize_remote(cats: Vec<RemoteCat>, rng: &mut u64, desired: usize) -> (r: Vec<RemoteCat>)
    ensures
        (r@, *final(rng)) == resized_remote(cats@, *old(rng), desired as nat),
{
    let mut cats = cats;
    let ghost start = cats@;
    if desired <= cats.len() {
        cats.truncate(desired);
        assert(cats@ =~= start.take(desired as int));
        return cats;
    }
    let ghost mut n: nat = 0;
    while cats.len() < desired
        invariant
            cats@.len() == start.len() + n,
            cats@.len() <= desired,
            cats@ == grown_remote(start, *old(rng), n).0,
            *rng == grown_remote(start, *old(rng), n).1,
        decreases desired - cats@.len(),
    {
        let seed: u64 = roll_u64(rng);
        cats.push(RemoteCat::new(seed));
        proof {
            n = n + 1;
        }
    }
    cats
}

/// Notes that a peer is seen to have so many cats.
fn see(remotes: Vec<RemotePeer>, rng: &mut u64, id: &str, count: usize) -> (r: Vec<RemotePeer>)
    ensures
        (remote_views(r@), *final(rng)) == seen(
            remote_views(remotes@),
            *old(rng),
            id@,
            count as nat,
        ),
{
    let mut remotes = remotes;
    let ghost views = remote_views(remotes@);
    let i = place(&remotes, id);
    if i < remotes.len() {
        let mut entry = remotes[i].clone();
        entry.cats = resize_remote(entry.cats, rng, count);
        let ghost after = entry@;
        remotes[i] = entry;
        assert(remote_views(remotes@) =~= views.update(i as int, after));
    } else {
        proof {
            lemma_at_place(views, id@);
        }
        let cats = resize_remote(Vec::new(), rng, count);
        proof {
            if count == 0 {
                assert(cats@ =~= Seq::empty());
            }
        }
        remotes.push(RemotePeer { id: id.to_owned(), cats });
        assert(remote_views(remotes@) =~= views.push(RemotePeerView { id: id@, cats: cats@ }));
    }
    remotes
}

impl Herd {
    /// Lets other people's cats come or go until they are those of the peers.
    pub fn reconcile_remote(&mut self, peers: &Vec<PeerSnapshot>)
        ensures
            (final(self)@.remotes, final(self)@.rng) == all_seen(
                remaining(old(self)@.remotes, peer_views(peers@)),
                old(self)@.rng,
                peer_views(peers@),
            ),
            final(self)@.cats == old(self)@.cats,
    {
        let ghost views = peer_views(peers@);
        let mut remotes = keep_remaining(&self.remotes, peers);
        let mut rng: u64 = self.rng;
        let ghost start = remote_views(remotes@);
        let mut i: usize = 0;
        assert(views.take(0) =~= Seq::empty());
        while i < peers.len()
            invariant
                i <= peers@.len(),
                views == peer_views(peers@),
                (remote_views(remotes@), rng) == all_seen(start, self.rng, views.take(i as int)),
            decreases peers@.len() - i,
        {
            proof {
                let more = views.take(i as int + 1);
                assert(more.drop_last() =~= views.take(i as int));
                assert(more.last() == peers@[i as int]@);
            }
            remotes = see(remotes, &mut rng, &peers[i].id, peers[i].cats.len());
            i += 1;
        }
        assert(views.take(i as int) =~= views);
        self.remotes = remotes;
        self.rng = rng;
    }
}

/// The drawing of a cat that shows a cell of the sheet, for the others in the room.
pub fn render_of(sprite: Sprite, x: Coord, y: Coord) -> (r: CatRenderSnapshot)
    requires
        on_sheet(sprite),
    ensures
        r == (CatRenderSnapshot { x, y, sprite_x: sprite.0 as u8, sprite_y: sprite.1 as u8 }),
        x.in_unit() && y.in_unit() ==> render_ok(r),
{
    CatRenderSnapshot { x, y, sprite_x: sprite.0 as u8, sprite_y: sprite.1 as u8 }
}

/// Cats that come stand behind those that were there.
pub proof fn lemma_grown_len(cats: Seq<CatState>, rng: u64, n: nat)
    ensures
        grown(cats, rng, n).0.len() == cats.len() + n,
        grown(cats, rng, n).0.take(cats.len() as int) == cats,
    decreases n,
{
    if n == 0 {
        assert(cats.take(cats.len() as int) =~= cats);
    } else {
        lemma_grown_len(cats, rng, (n - 1) as nat);
        let before = grown(cats, rng, (n - 1) as nat).0;
        assert(grown(cats, rng, n).0.take(cats.len() as int) =~= before.take(cats.len() as int));
    }
}

/// There are as many cats as the user wants, and those that stay are left alone.
pub proof fn law_there_are_as_many_cats_as_desired(
    cats: Seq<CatState>,
    rng: u64,
    desired: nat,
)
    ensures
        resized(cats, rng, desired).0.len() == desired,
        forall|i: int|
            0 <= i < cats.len() && i < desired ==> #[trigger] resized(cats, rng, desired).0[i]
                == cats[i],
        desired <= cats.len() ==> resized(cats, rng, desired).1 == rng,
{
    if desired > cats.len() {
        let n = (desired - cats.len()) as nat;
        lemma_grown_len(cats, rng, n);
        let all = grown(cats, rng, n).0;
        assert forall|i: int| 0 <= i < cats.len() implies #[trigger] all[i] == cats[i] by {
            assert(all.take(cats.len() as int)[i] == all[i]);
        }
    }
}

/// When nothing changes about how many cats are wanted, nothing changes.
pub proof fn law_reconciling_once_is_enough(cats: Seq<CatState>, rng: u64, desired: nat)
    ensures
        ({
            let (after, rng_after) = resized(cats, rng, desired);
            resized(after, rng_after, desired) == (after, rng_after)
        }),
{
    law_there_are_as_many_cats_as_desired(cats, rng, desired);
    let after = resized(cats, rng, desired).0;
    assert(after.take(desired as int) =~= after);
}

/// A cat that runs after another one never runs after itself, and always after a
/// cat that is there.
pub proof fn law_no_cat_chases_itself(cats: Seq<CatState>, rng: u64)
    requires
        low_of(cats.len()) > 0,
        cats.len() <= usize::MAX,
    ensures
        played(cats, rng).2 matches Some(Play::Pair { lead, chaser, degrees }) ==> lead != chaser
            && lead < cats.len() && chaser < cats.len() && degrees < 360 && played(
            cats,
            rng,
        ).0[chaser as int].mode == (Mode::Chase { mate: lead, ttl: CHASE_FRAMES }) && played(
            cats,
            rng,
        ).0[lead as int].mode == (Mode::Lap { pace: FLIGHT_PACE, ttl: CHASE_FRAMES }),
        played(cats, rng).2 matches Some(Play::Solo { cat, degrees }) ==> cat < cats.len()
            && degrees < 360 && played(cats, rng).0[cat as int].mode == (Mode::Lap {
            pace: LAP_PACE,
            ttl: LAP_FRAMES,
        }),
        played(cats, rng).0.len() == cats.len(),
{
    let n = low_of(cats.len());
    let r1 = lcg(rng);
    let r2 = lcg(r1);
    let r3 = lcg(r2);
    let r4 = lcg(r3);
    let r5 = lcg(r4);
    assert(n <= cats.len());
    lemma_rolled(r2, n);
    lemma_rolled(r3, n);
    lemma_rolled(r4, n);
    lemma_rolled(r3, 360);
    lemma_rolled(r4, 360);
    lemma_rolled(r5, 360);
    let drawn = rolled(r4, n) as int;
    let len = cats.len() as int;
    if drawn + 1 < len {
        vstd::arithmetic::div_mod::lemma_small_mod((drawn + 1) as nat, len as nat);
    } else {
        vstd::arithmetic::div_mod::lemma_mod_self_0(len);
    }
}

proof fn lemma_rolled(rng: u64, n: u32)
    requires
        n > 0,
    ensures
        rolled(rng, n) < n,
{
}

/// No two entries are of the same peer.
pub open spec fn distinct_remotes(remotes: Seq<RemotePeerView>) -> bool {
    forall|i: int, j: int|
        0 <= i < j < remotes.len() ==> (#[trigger] remotes[i]).id != (#[trigger] remotes[j]).id
}

proof fn lemma_grown_remote_len(cats: Seq<RemoteCat>, rng: u64, n: nat)
    ensures
        grown_remote(cats, rng, n).0.len() == cats.len() + n,
    decreases n,
{
    if n > 0 {
        lemma_grown_remote_len(cats, rng, (n - 1) as nat);
    }
}

proof fn lemma_seen(remotes: Seq<RemotePeerView>, rng: u64, id: Seq<char>, count: nat)
    requires
        distinct_remotes(remotes),
    ensures
        ({
            let after = seen(remotes, rng, id, count).0;
            &&& distinct_remotes(after)
            &&& remotes.len() <= after.len() <= remotes.len() + 1
            &&& after.len() > remotes.len() ==> after.last().id == id
            &&& forall|i: int|
                0 <= i < remotes.len() ==> (#[trigger] after[i]).id == remotes[i].id && (
                remotes[i].id != id ==> after[i] == remotes[i])
            &&& exists|i: int|
                0 <= i < after.len() && (#[trigger] after[i]).id == id && after[i].cats.len()
                    == count
        }),
{
    lemma_at_place(remotes, id);
    let i = place_of(remotes, id);
    let after = seen(remotes, rng, id, count).0;
    if i < remotes.len() {
        lemma_grown_remote_len(
            remotes[i].cats,
            rng,
            (count - remotes[i].cats.len()) as nat,
        );
        assert(after[i].id == id && after[i].cats.len() == count);
        assert forall|a: int, b: int| 0 <= a < b < after.len() implies (#[trigger] after[a]).id
            != (#[trigger] after[b]).id by {
            assert(remotes[a].id != remotes[b].id);
        }
        assert forall|k: int| 0 <= k < remotes.len() implies (#[trigger] after[k]).id
            == remotes[k].id && (remotes[k].id != id ==> after[k] == remotes[k]) by {}
    } else {
        lemma_grown_remote_len(Seq::empty(), rng, count);
        assert(after[i].id == id && after[i].cats.len() == count);
        assert forall|a: int, b: int| 0 <= a < b < after.len() implies (#[trigger] after[a]).id
            != (#[trigger] after[b]).id by {
            assert(remotes[a].id != id);
            if b < remotes.len() {
                assert(remotes[a].id != remotes[b].id);
            }
        }
    }
}

/// Whether a list holds as many cats for a peer as it has.
pub open spec fn shown(remotes: Seq<RemotePeerView>, peer: PeerView) -> bool {
    exists|i: int|
        0 <= i < remotes.len() && (#[trigger] remotes[i]).id == peer.id && remotes[i].cats.len()
            == peer.cats.len()
}

/// No two peers have the same identifier.
pub open spec fn distinct_peers(peers: Seq<PeerView>) -> bool {
    forall|i: int, j: int|
        0 <= i < j < peers.len() ==> (#[trigger] peers[i]).id != (#[trigger] peers[j]).id
}

proof fn lemma_all_seen(
    remotes: Seq<RemotePeerView>,
    rng: u64,
    peers: Seq<PeerView>,
    all: Seq<PeerView>,
)
    requires
        distinct_remotes(remotes),
        distinct_peers(peers),
        forall|i: int| 0 <= i < remotes.len() ==> among(all, (#[trigger] remotes[i]).id),
        forall|i: int| 0 <= i < peers.len() ==> among(all, (#[trigger] peers[i]).id),
    ensures
        distinct_remotes(all_seen(remotes, rng, peers).0),
        forall|i: int|
            0 <= i < all_seen(remotes, rng, peers).0.len() ==> among(
                all,
                (#[trigger] all_seen(remotes, rng, peers).0[i]).id,
            ),
        forall|k: int|
            0 <= k < peers.len() ==> shown(
                all_seen(remotes, rng, peers).0,
                #[trigger] peers[k],
            ),
    decreases peers.len(),
{
    if peers.len() > 0 {
        let rest = peers.drop_last();
        let peer = peers.last();
        assert forall|i: int, j: int| 0 <= i < j < rest.len() implies (#[trigger] rest[i]).id != (
        #[trigger] rest[j]).id by {
            assert(peers[i].id != peers[j].id);
        }
        assert forall|i: int| 0 <= i < rest.len() implies among(all, (#[trigger] rest[i]).id) by {
            assert(peers[i] == rest[i]);
        }
        lemma_all_seen(remotes, rng, rest, all);
        let (before, between) = all_seen(remotes, rng, rest);
        lemma_seen(before, between, peer.id, peer.cats.len());
        let after = all_seen(remotes, rng, peers).0;
        assert(among(all, peers[peers.len() - 1].id));
        assert forall|i: int| 0 <= i < after.len() implies among(all, (#[trigger] after[i]).id) by {
            if i < before.len() {
                assert(among(all, before[i].id));
            }
        }
        assert forall|k: int| 0 <= k < peers.len() implies shown(after, #[trigger] peers[k]) by {
            if k < rest.len() {
                assert(shown(before, rest[k]));
                let i = choose|i: int|
                    0 <= i < before.len() && (#[trigger] before[i]).id == rest[k].id
                        && before[i].cats.len() == rest[k].cats.len();
                assert(peers[k].id != peers[peers.len() - 1].id);
                assert(after[i] == before[i]);
            }
        }
    }
}

/// The cats of others that are on the desktop are those of the peers in the room:
/// nobody else's, and as many of each as it has.
pub proof fn law_remote_cats_match_the_peers(
    remotes: Seq<RemotePeerView>,
    rng: u64,
    peers: Seq<PeerView>,
)
    requires
        distinct_remotes(remotes),
        distinct_peers(peers),
    ensures
        ({
            let after = all_seen(remaining(remotes, peers), rng, peers).0;
            &&& distinct_remotes(after)
            &&& forall|i: int| 0 <= i < after.len() ==> among(peers, (#[trigger] after[i]).id)
            &&& forall|k: int| 0 <= k < peers.len() ==> shown(after, #[trigger] peers[k])
        }),
{
    let kept = remaining(remotes, peers);
    lemma_remaining(remotes, peers);
    assert forall|i: int| 0 <= i < peers.len() implies among(peers, (#[trigger] peers[i]).id) by {}
    lemma_all_seen(kept, rng, peers, peers);
}

/// Of those who are still there, no two entries are of the same peer, and each is of
/// a peer.
pub proof fn lemma_remaining(remotes: Seq<RemotePeerView>, peers: Seq<PeerView>)
    requires
        distinct_remotes(remotes),
    ensures
        distinct_remotes(remaining(remotes, peers)),
        forall|i: int|
            0 <= i < remaining(remotes, peers).len() ==> among(
                peers,
                (#[trigger] remaining(remotes, peers)[i]).id,
            ),
    decreases remotes.len(),
{
    let keep = |r: RemotePeerView| among(peers, r.id);
    let kept = remaining(remotes, peers);
    lemma_filter_elements(remotes, keep);
    if remotes.len() > 0 {
        let rest = remotes.drop_last();
        let last = remotes.last();
        assert(remotes =~= rest.push(last));
        lemma_filter_push(rest, last, keep);
        assert forall|i: int, j: int| 0 <= i < j < rest.len() implies (#[trigger] rest[i]).id != (
        #[trigger] rest[j]).id by {
            assert(remotes[i].id != remotes[j].id);
        }
        lemma_remaining(rest, peers);
        lemma_filter_elements(rest, keep);
        let before = remaining(rest, peers);
        assert forall|i: int, j: int| 0 <= i < j < kept.len() implies (#[trigger] kept[i]).id != (
        #[trigger] kept[j]).id by {
            assert(kept[i] == before[i]);
            if j < before.len() {
                assert(kept[j] == before[j]);
            } else {
                assert(rest.contains(before[i]));
                let k = choose|k: int| 0 <= k < rest.len() && rest[k] == before[i];
                assert(remotes[k].id != remotes[remotes.len() - 1].id);
            }
        }
    }
}

} // verus!
