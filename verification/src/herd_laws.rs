//! What holds of the cats on the desktop from frame to frame.

use crate::cat::{framed, new_cat, starts_scratching, Act, CatState, Mode, Moment, RemoteCat};
use crate::herd::{
    all_seen, among, calmed, distinct_peers, distinct_remotes, grown, grown_remote,
    law_no_cat_chases_itself, law_remote_cats_match_the_peers, lemma_at_place, lemma_grown_len,
    lemma_place_of, lemma_remaining, place_of, played, remaining, resized, resized_remote, seen,
    shown, Play, RemotePeerView,
};
use crate::lists::{lemma_filter_elements, lemma_filter_push};
use crate::protocol::PeerView;
use crate::rng::{lcg, low_of};
use vstd::prelude::*;

verus! {

/// A cat but for what it is after: everything else about the two is the same.
pub open spec fn same_but_mode(a: CatState, b: CatState) -> bool {
    &&& a.frame == b.frame
    &&& a.idle == b.idle
    &&& a.idle_anim == b.idle_anim
    &&& a.idle_frame == b.idle_frame
    &&& a.push_frames == b.push_frames
    &&& a.sprite == b.sprite
    &&& a.rng == b.rng
    &&& a.orbit_degrees == b.orbit_degrees
}

/// When the cursor moves, every cat makes for it, and nothing else about any cat
/// changes.
pub proof fn law_a_moving_cursor_only_ends_games(cats: Seq<CatState>, i: int)
    requires
        0 <= i < cats.len(),
    ensures
        calmed(cats).len() == cats.len(),
        calmed(cats)[i].mode == Mode::Orbit,
        same_but_mode(calmed(cats)[i], cats[i]),
{
}

/// When the cursor has moved away from a cat that idled, the cat starts up in the
/// next frame: it is alert, and what is left of its idling is one frame less than
/// before, or six.
pub proof fn law_cats_start_up_when_the_cursor_moves(cats: Seq<CatState>, i: int, m: Moment)
    requires
        0 <= i < cats.len(),
        cats[i].idle > 1,
        cats[i].push_frames == 0,
        !m.senses.near_target,
        !starts_scratching(cats[i], m.senses, m.scratch_push),
    ensures
        ({
            let (after, act) = framed(calmed(cats)[i], m);
            &&& act == Act::Alert
            &&& after.sprite == (7usize, 3usize)
            &&& after.idle == (if cats[i].idle <= 7 {
                cats[i].idle - 1
            } else {
                6
            })
            &&& after.idle_anim is None
            &&& after.mode == Mode::Orbit
        }),
{
}

/// A cat that did not idle goes after a cursor that has moved away at once.
pub proof fn law_cats_go_after_the_cursor(cats: Seq<CatState>, i: int, m: Moment)
    requires
        0 <= i < cats.len(),
        cats[i].idle <= 1,
        cats[i].push_frames == 0,
        !m.senses.near_target,
        !starts_scratching(cats[i], m.senses, m.scratch_push),
    ensures
        framed(calmed(cats)[i], m).1 == Act::Walk,
        framed(calmed(cats)[i], m).0.mode == Mode::Orbit,
{
}

/// A game changes what its players are after and nothing else about them, and
/// nothing at all about the other cats; where no game begins, no cat changes.
pub proof fn law_games_concern_their_players(cats: Seq<CatState>, rng: u64, i: int)
    requires
        0 <= i < cats.len(),
        low_of(cats.len()) > 0,
        cats.len() <= usize::MAX,
    ensures
        ({
            let (after, _, play) = played(cats, rng);
            &&& after.len() == cats.len()
            &&& same_but_mode(after[i], cats[i])
            &&& play is None ==> after[i] == cats[i]
            &&& play matches Some(Play::Solo { cat, .. }) ==> (i != cat ==> after[i] == cats[i])
            &&& play matches Some(Play::Pair { lead, chaser, .. }) ==> (i != lead && i != chaser
                ==> after[i] == cats[i])
            &&& after[i].mode != cats[i].mode ==> play is Some
        }),
{
    law_no_cat_chases_itself(cats, rng);
}

proof fn lemma_grown_prefix(cats: Seq<RemoteCat>, rng: u64, n: nat)
    ensures
        grown_remote(cats, rng, n).0.len() == cats.len() + n,
        forall|c: int|
            0 <= c < cats.len() ==> #[trigger] grown_remote(cats, rng, n).0[c] == cats[c],
    decreases n,
{
    if n > 0 {
        lemma_grown_prefix(cats, rng, (n - 1) as nat);
    }
}

/// The cats of someone else come and go at the end of their row: there are as many
/// as desired, those that stay are left alone, and where none come, nothing is left
/// to chance.
pub proof fn law_remote_cats_that_stay_are_left_alone(
    cats: Seq<RemoteCat>,
    rng: u64,
    desired: nat,
    c: int,
)
    ensures
        resized_remote(cats, rng, desired).0.len() == desired,
        0 <= c < cats.len() && c < desired ==> resized_remote(cats, rng, desired).0[c] == cats[c],
        desired <= cats.len() ==> resized_remote(cats, rng, desired).1 == rng,
        desired == cats.len() ==> resized_remote(cats, rng, desired).0 == cats,
{
    if desired > cats.len() {
        lemma_grown_prefix(cats, rng, (desired - cats.len()) as nat);
    } else if desired == cats.len() {
        assert(cats.take(desired as int) =~= cats);
    }
}

proof fn lemma_place(remotes: Seq<RemotePeerView>, id: Seq<char>, i: int)
    requires
        distinct_remotes(remotes),
        0 <= i < remotes.len(),
        remotes[i].id == id,
    ensures
        place_of(remotes, id) == i,
{
    assert forall|k: int| 0 <= k < i implies (#[trigger] remotes[k]).id != id by {
        assert(remotes[k].id != remotes[i].id);
    }
    lemma_place_of(remotes, id, i);
}

/// Whether the cats of an entry are as many as given, and those that were there
/// before are left alone.
pub open spec fn carried_on(before: Seq<RemoteCat>, after: Seq<RemoteCat>, count: nat) -> bool {
    &&& after.len() == count
    &&& forall|c: int| 0 <= c < before.len() && c < count ==> #[trigger] after[c] == before[c]
}

proof fn lemma_entry(remotes: Seq<RemotePeerView>, rng: u64, peers: Seq<PeerView>, k: int)
    requires
        distinct_remotes(remotes),
        distinct_peers(peers),
        0 <= k < remotes.len(),
    ensures
        ({
            let after = all_seen(remotes, rng, peers).0;
            &&& after.len() >= remotes.len()
            &&& distinct_remotes(after)
            &&& after[k].id == remotes[k].id
            &&& !among(peers, remotes[k].id) ==> after[k] == remotes[k]
            &&& forall|j: int|
                0 <= j < peers.len() && (#[trigger] peers[j]).id == remotes[k].id ==> carried_on(
                    remotes[k].cats,
                    after[k].cats,
                    peers[j].cats.len(),
                )
        }),
    decreases peers.len(),
{
    if peers.len() > 0 {
        let rest = peers.drop_last();
        let peer = peers.last();
        assert forall|i: int, j: int| 0 <= i < j < rest.len() implies (#[trigger] rest[i]).id != (
        #[trigger] rest[j]).id by {
            assert(peers[i].id != peers[j].id);
        }
        lemma_entry(remotes, rng, rest, k);
        let (before, between) = all_seen(remotes, rng, rest);
        let after = all_seen(remotes, rng, peers).0;
        assert(after == seen(before, between, peer.id, peer.cats.len()).0);
        lemma_at_place(before, peer.id);
        let p = place_of(before, peer.id);
        if p < before.len() {
            assert forall|a: int, b: int| 0 <= a < b < after.len() implies (
            #[trigger] after[a]).id != (#[trigger] after[b]).id by {
                assert(before[a].id != before[b].id);
            }
        } else {
            assert forall|a: int, b: int| 0 <= a < b < after.len() implies (
            #[trigger] after[a]).id != (#[trigger] after[b]).id by {
                assert(before[a].id != peer.id);
                if b < before.len() {
                    assert(before[a].id != before[b].id);
                }
            }
        }
        if peer.id == remotes[k].id {
            lemma_place(before, peer.id, k);
            assert(!among(rest, remotes[k].id)) by {
                assert forall|j: int| 0 <= j < rest.len() implies (#[trigger] rest[j]).id
                    != remotes[k].id by {
                    assert(peers[j].id != peers[peers.len() - 1].id);
                }
            }
            assert(before[k] == remotes[k]);
            assert forall|c: int| 0 <= c < remotes[k].cats.len() && c < peer.cats.len() implies
                #[trigger] after[k].cats[c] == remotes[k].cats[c] by {
                law_remote_cats_that_stay_are_left_alone(
                    remotes[k].cats,
                    between,
                    peer.cats.len(),
                    c,
                );
            }
            law_remote_cats_that_stay_are_left_alone(
                remotes[k].cats,
                between,
                peer.cats.len(),
                0,
            );
            assert(peers[peers.len() - 1].id == remotes[k].id);
            assert forall|j: int|
                0 <= j < peers.len() && (#[trigger] peers[j]).id == remotes[k].id implies
                carried_on(remotes[k].cats, after[k].cats, peers[j].cats.len()) by {
                if j < peers.len() - 1 {
                    assert(peers[j].id != peers[peers.len() - 1].id);
                }
            }
        } else {
            assert(after[k] == before[k]);
            assert(among(peers, remotes[k].id) ==> among(rest, remotes[k].id)) by {
                if among(peers, remotes[k].id) {
                    let j = choose|j: int|
                        0 <= j < peers.len() && (#[trigger] peers[j]).id == remotes[k].id;
                    assert(rest[j].id == remotes[k].id);
                }
            }
            assert(among(rest, remotes[k].id) ==> among(peers, remotes[k].id)) by {
                if among(rest, remotes[k].id) {
                    let j = choose|j: int|
                        0 <= j < rest.len() && (#[trigger] rest[j]).id == remotes[k].id;
                    assert(peers[j].id == remotes[k].id);
                }
            }
            assert forall|j: int|
                0 <= j < peers.len() && (#[trigger] peers[j]).id == remotes[k].id implies
                carried_on(remotes[k].cats, after[k].cats, peers[j].cats.len()) by {
                assert(rest[j] == peers[j]);
            }
        }
    }
}

proof fn lemma_kept(remotes: Seq<RemotePeerView>, peers: Seq<PeerView>, k: int)
    requires
        0 <= k < remotes.len(),
        among(peers, remotes[k].id),
    ensures
        remaining(remotes, peers).contains(remotes[k]),
    decreases remotes.len(),
{
    let keep = |r: RemotePeerView| among(peers, r.id);
    let rest = remotes.drop_last();
    assert(remotes =~= rest.push(remotes.last()));
    lemma_filter_push(rest, remotes.last(), keep);
    let left = remaining(remotes, peers);
    if k < rest.len() {
        lemma_kept(rest, peers, k);
        let j = choose|j: int|
            0 <= j < remaining(rest, peers).len() && remaining(rest, peers)[j] == rest[k];
        assert(left[j] == remotes[k]);
    } else {
        assert(left[left.len() - 1] == remotes[k]);
    }
}

/// The cats of a peer that is shown already carry on: when the room is looked at
/// again, there are as many as the peer now has, and each that was there and stays is
/// the very same cat.
pub proof fn law_cats_of_known_peers_carry_on(
    remotes: Seq<RemotePeerView>,
    rng: u64,
    peers: Seq<PeerView>,
    k: int,
    j: int,
)
    requires
        distinct_remotes(remotes),
        distinct_peers(peers),
        0 <= k < remotes.len(),
        0 <= j < peers.len(),
        remotes[k].id == peers[j].id,
    ensures
        ({
            let after = all_seen(remaining(remotes, peers), rng, peers).0;
            exists|i: int|
                #![trigger after[i]]
                {
                    &&& 0 <= i < after.len()
                    &&& after[i].id == peers[j].id
                    &&& after[i].cats.len() == peers[j].cats.len()
                    &&& forall|c: int|
                        0 <= c < remotes[k].cats.len() && c < peers[j].cats.len()
                            ==> #[trigger] after[i].cats[c] == remotes[k].cats[c]
                }
        }),
{
    assert(among(peers, peers[j].id));
    lemma_kept(remotes, peers, k);
    let kept = remaining(remotes, peers);
    let i = choose|i: int| 0 <= i < kept.len() && kept[i] == remotes[k];
    lemma_remaining(remotes, peers);
    lemma_entry(kept, rng, peers, i);
    let after = all_seen(kept, rng, peers).0;
    assert(carried_on(kept[i].cats, after[i].cats, peers[j].cats.len()));
    assert(after[i].id == peers[j].id);
}

proof fn lemma_all_kept(remotes: Seq<RemotePeerView>, peers: Seq<PeerView>)
    requires
        forall|i: int| 0 <= i < remotes.len() ==> among(peers, (#[trigger] remotes[i]).id),
    ensures
        remaining(remotes, peers) == remotes,
    decreases remotes.len(),
{
    let keep = |r: RemotePeerView| among(peers, r.id);
    if remotes.len() == 0 {
        lemma_filter_elements(remotes, keep);
        assert(remaining(remotes, peers) =~= remotes);
    } else {
        let rest = remotes.drop_last();
        assert(remotes =~= rest.push(remotes.last()));
        lemma_filter_push(rest, remotes.last(), keep);
        assert forall|i: int| 0 <= i < rest.len() implies among(peers, (#[trigger] rest[i]).id) by {
            assert(among(peers, remotes[i].id));
        }
        lemma_all_kept(rest, peers);
        assert(among(peers, remotes[remotes.len() - 1].id));
        assert(remaining(remotes, peers) =~= remotes);
    }
}

proof fn lemma_nothing_new(remotes: Seq<RemotePeerView>, rng: u64, peers: Seq<PeerView>)
    requires
        distinct_remotes(remotes),
        forall|j: int| 0 <= j < peers.len() ==> shown(remotes, #[trigger] peers[j]),
    ensures
        all_seen(remotes, rng, peers) == (remotes, rng),
    decreases peers.len(),
{
    if peers.len() > 0 {
        let rest = peers.drop_last();
        let peer = peers.last();
        assert forall|j: int| 0 <= j < rest.len() implies shown(remotes, #[trigger] rest[j]) by {
            assert(shown(remotes, peers[j]));
        }
        lemma_nothing_new(remotes, rng, rest);
        assert(shown(remotes, peers[peers.len() - 1]));
        let i = choose|i: int|
            0 <= i < remotes.len() && (#[trigger] remotes[i]).id == peer.id
                && remotes[i].cats.len() == peer.cats.len();
        lemma_place(remotes, peer.id, i);
        law_remote_cats_that_stay_are_left_alone(remotes[i].cats, rng, peer.cats.len(), 0);
        assert(seen(remotes, rng, peer.id, peer.cats.len()).0 =~= remotes);
    }
}

/// While the room stays as it is, looking at it changes nothing: where everyone
/// shown is a peer, and every peer is shown with as many cats as it has, neither the
/// cats nor the generator are touched, whatever the cats have done in the meantime.
pub proof fn law_a_quiet_room_changes_nothing(
    remotes: Seq<RemotePeerView>,
    rng: u64,
    peers: Seq<PeerView>,
)
    requires
        distinct_remotes(remotes),
        forall|i: int| 0 <= i < remotes.len() ==> among(peers, (#[trigger] remotes[i]).id),
        forall|j: int| 0 <= j < peers.len() ==> shown(remotes, #[trigger] peers[j]),
    ensures
        all_seen(remaining(remotes, peers), rng, peers) == (remotes, rng),
{
    lemma_all_kept(remotes, peers);
    lemma_nothing_new(remotes, rng, peers);
}

/// Looking at the same peers twice in a row is as good as once.
pub proof fn law_looking_once_is_enough(
    remotes: Seq<RemotePeerView>,
    rng: u64,
    peers: Seq<PeerView>,
)
    requires
        distinct_remotes(remotes),
        distinct_peers(peers),
    ensures
        ({
            let (after, rng_after) = all_seen(remaining(remotes, peers), rng, peers);
            all_seen(remaining(after, peers), rng_after, peers) == (after, rng_after)
        }),
{
    law_remote_cats_match_the_peers(remotes, rng, peers);
    let (after, rng_after) = all_seen(remaining(remotes, peers), rng, peers);
    law_a_quiet_room_changes_nothing(after, rng_after, peers);
}

/// Own cats that come are fresh: they sit, are after nothing but the cursor, and have not idled.
pub proof fn law_fresh_cats_sit_by_the_cursor(
    cats: Seq<CatState>,
    rng: u64,
    desired: nat,
    i: int,
)
    requires
        cats.len() <= i < desired,
    ensures
        ({
            let cat = resized(cats, rng, desired).0[i];
            &&& cat.mode == Mode::Orbit
            &&& cat.sprite == (3usize, 3usize)
            &&& cat.idle == 0
            &&& cat.idle_anim is None
            &&& cat.idle_frame == 0
            &&& cat.push_frames == 0
            &&& cat.frame == 0
            &&& cat.rng % 2 == 1
            &&& cat.orbit_degrees < 360
        }),
{
    lemma_fresh(cats, rng, (desired - cats.len()) as nat, i);
}

proof fn lemma_fresh(cats: Seq<CatState>, rng: u64, n: nat, i: int)
    requires
        cats.len() <= i < cats.len() + n,
    ensures
        grown(cats, rng, n).0.len() == cats.len() + n,
        exists|seed: u64| grown(cats, rng, n).0[i] == #[trigger] new_cat(seed),
    decreases n,
{
    lemma_grown_len(cats, rng, n);
    let (before, last) = grown(cats, rng, (n - 1) as nat);
    lemma_grown_len(cats, rng, (n - 1) as nat);
    if i < before.len() {
        lemma_fresh(cats, rng, (n - 1) as nat, i);
        assert(grown(cats, rng, n).0[i] == before[i]);
    } else {
        assert(grown(cats, rng, n).0[i] == new_cat(lcg(last)));
    }
}

} // verus!
