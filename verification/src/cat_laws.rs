//! What a cat does, frame after frame.

use crate::cat::{
    advanced, begun, idled, retargeted, retargeted_often, Act, Aim, CatState, IdleAnim, Mode,
    Senses,
};
use crate::rng::{lcg, rolled};
use crate::sprite::{
    picked, scratch_set, SCRATCH_E, SCRATCH_N, SCRATCH_S, SCRATCH_SELF, SCRATCH_W, SLEEP,
};
use vstd::prelude::*;

verus! {

/// Beginning a frame counts it and moves a game on; nothing else about a cat changes.
pub proof fn law_beginning_a_frame_only_counts_it(cat: CatState, cats: nat)
    ensures
        ({
            let after = begun(cat, cats);
            &&& cat.frame < u32::MAX ==> after.frame == cat.frame + 1
            &&& cat.frame == u32::MAX ==> after.frame == 0
            &&& cat.mode == Mode::Orbit ==> after.mode == Mode::Orbit
            &&& after.idle == cat.idle
            &&& after.idle_anim == cat.idle_anim
            &&& after.idle_frame == cat.idle_frame
            &&& after.push_frames == cat.push_frames
            &&& after.sprite == cat.sprite
            &&& after.rng == cat.rng
            &&& after.orbit_degrees == cat.orbit_degrees
        }),
{
}

/// A lap lasts as long as it was meant to, at its pace, whoever comes or goes, and
/// then ends.
pub proof fn law_laps_take_their_time(pace: u32, ttl: u32, counts: Seq<nat>, cats: nat)
    requires
        counts.len() <= ttl,
    ensures
        ({
            let mode = retargeted_often(Mode::Lap { pace, ttl }, counts);
            &&& mode == (Mode::Lap { pace, ttl: (ttl - counts.len()) as u32 })
            &&& counts.len() < ttl ==> retargeted(mode, cats).1 == (Aim::Lap { pace })
            &&& counts.len() == ttl ==> retargeted(mode, cats) == (
                Mode::Orbit,
                Aim::LapOver { pace },
            )
        }),
    decreases counts.len(),
{
    if counts.len() > 0 {
        law_laps_take_their_time(pace, ttl, counts.drop_last(), cats);
    }
}

/// A chase lasts as long as it was meant to, after the same cat, as long as that cat
/// is there, and ends when its time or that cat has gone.
pub proof fn law_chases_take_their_time(mate: usize, ttl: u32, counts: Seq<nat>, cats: nat)
    requires
        counts.len() <= ttl,
        forall|i: int| 0 <= i < counts.len() ==> #[trigger] counts[i] > mate,
    ensures
        ({
            let mode = retargeted_often(Mode::Chase { mate, ttl }, counts);
            &&& mode == (Mode::Chase { mate, ttl: (ttl - counts.len()) as u32 })
            &&& counts.len() < ttl && mate < cats ==> retargeted(mode, cats).1 == (Aim::Chase {
                mate,
            })
            &&& counts.len() == ttl || mate >= cats ==> retargeted(mode, cats) == (
                Mode::Orbit,
                Aim::ChaseOver,
            )
        }),
    decreases counts.len(),
{
    if counts.len() > 0 {
        let rest = counts.drop_last();
        assert forall|i: int| 0 <= i < rest.len() implies #[trigger] rest[i] > mate by {
            assert(counts[i] > mate);
        }
        law_chases_take_their_time(mate, ttl, rest, cats);
        assert(counts[counts.len() - 1] > mate);
    }
}

/// A cat by the cursor stays by the cursor.
pub proof fn law_orbits_go_on(cats: nat)
    ensures
        retargeted(Mode::Orbit, cats) == (Mode::Orbit, Aim::Orbit),
{
}

/// What a cat does comes from what it is at and what it senses: it finishes
/// scratching first; by chance it begins to, at a cursor in reach that it may push;
/// near its place, and after nothing but the cursor, it rests; and if it has idled it
/// starts up before it walks.
pub proof fn law_cats_decide(cat: CatState, senses: Senses, scratch_push: bool, locked: bool)
    ensures
        ({
            let act = advanced(cat, senses, scratch_push, locked).1;
            let tempted = scratch_push && senses.near_mouse && rolled(lcg(cat.rng), 18) == 0;
            let near = cat.mode == Mode::Orbit && senses.near_target;
            &&& act == Act::Push <==> cat.push_frames > 0 && scratch_push
            &&& act == Act::Hold <==> cat.push_frames > 0 && !scratch_push
            &&& act == Act::Scratch <==> cat.push_frames == 0 && tempted
            &&& act == Act::Idle <==> cat.push_frames == 0 && !tempted && near && locked
            &&& act == Act::Settle <==> cat.push_frames == 0 && !tempted && near && !locked
            &&& act == Act::Alert <==> cat.push_frames == 0 && !tempted && !near && cat.idle > 1
            &&& act == Act::Walk <==> cat.push_frames == 0 && !tempted && !near && cat.idle <= 1
        }),
{
}

/// What a cat does in a frame changes neither the count of frames nor what it is
/// after nor its first place. It draws from its generator only when it could scratch
/// or idles, and how long it scratches, how long it has idled and what it shows
/// change only as follows from what it does.
pub proof fn law_acts_change_what_they_must(
    cat: CatState,
    senses: Senses,
    scratch_push: bool,
    locked: bool,
)
    ensures
        ({
            let (after, act) = advanced(cat, senses, scratch_push, locked);
            let could_scratch = cat.push_frames == 0 && scratch_push && senses.near_mouse;
            &&& after.frame == cat.frame
            &&& after.mode == cat.mode
            &&& after.orbit_degrees == cat.orbit_degrees
            &&& act != Act::Idle ==> after.rng == (if could_scratch {
                lcg(cat.rng)
            } else {
                cat.rng
            })
            &&& act == Act::Push || act == Act::Hold ==> {
                &&& after.push_frames == cat.push_frames - 1
                &&& after.sprite == cat.sprite
                &&& after.idle == cat.idle
                &&& after.idle_anim == cat.idle_anim
                &&& after.idle_frame == cat.idle_frame
            }
            &&& act == Act::Scratch ==> {
                &&& after.push_frames == 5
                &&& after.sprite == picked(scratch_set(senses.offset), cat.frame)
                &&& after.idle == cat.idle
                &&& after.idle_anim == cat.idle_anim
                &&& after.idle_frame == cat.idle_frame
            }
            &&& act == Act::Settle ==> {
                &&& after.push_frames == 0
                &&& after.sprite == (3usize, 3usize)
                &&& after.idle == 0
                &&& after.idle_anim is None
                &&& after.idle_frame == 0
            }
            &&& act == Act::Alert ==> {
                &&& after.push_frames == 0
                &&& after.sprite == (7usize, 3usize)
                &&& after.idle == (if cat.idle <= 7 {
                    cat.idle - 1
                } else {
                    6
                })
                &&& after.idle_anim is None
                &&& after.idle_frame == 0
            }
            &&& act == Act::Walk ==> {
                &&& after.push_frames == 0
                &&& after.sprite == cat.sprite
                &&& after.idle == cat.idle
                &&& after.idle_anim is None
                &&& after.idle_frame == 0
            }
            &&& act == Act::Idle ==> after == idled(
                CatState {
                    rng: if could_scratch {
                        lcg(cat.rng)
                    } else {
                        cat.rng
                    },
                    ..cat
                },
            )
        }),
{
}

/// The last frame of what an idle cat does: sleeping goes on to frame 192, everything
/// else to frame 9.
pub open spec fn last_frame(anim: IdleAnim) -> u32 {
    if anim == IdleAnim::Sleep {
        192
    } else {
        9
    }
}

/// A cat that has idled for a number of frames more.
pub open spec fn idled_often(cat: CatState, n: nat) -> CatState
    decreases n,
{
    if n == 0 {
        cat
    } else {
        idled(idled_often(cat, (n - 1) as nat))
    }
}

/// What an idle cat does it does without a break and without drawing again until its
/// last frame; in the frame behind that one it does it once more, and stops. All the
/// while it counts the frames.
pub proof fn law_idle_pastimes_run_their_course(cat: CatState, anim: IdleAnim, n: nat)
    requires
        cat.idle_anim == Some(anim),
        cat.idle_frame + n <= last_frame(anim) + 1,
        cat.idle + n < u32::MAX,
    ensures
        ({
            let after = idled_often(cat, n);
            &&& after.idle_anim == Some(anim)
            &&& after.idle_frame == cat.idle_frame + n
            &&& after.idle == cat.idle + n
            &&& after.rng == cat.rng
            &&& after.frame == cat.frame
            &&& after.mode == cat.mode
            &&& after.push_frames == cat.push_frames
            &&& after.orbit_degrees == cat.orbit_degrees
            &&& cat.idle_frame + n == last_frame(anim) + 1 ==> idled(after).idle_anim is None
                && idled(after).idle_frame == 1 && idled(after).rng == cat.rng
        }),
    decreases n,
{
    if n > 0 {
        law_idle_pastimes_run_their_course(cat, anim, (n - 1) as nat);
    }
}

/// What an idle cat that does something shows: tired for the first eight frames of its
/// sleep, then the two cells of sleep, four frames each; for anything else the cells
/// of it, one after the other.
pub proof fn law_pastimes_are_shown(cat: CatState, anim: IdleAnim)
    requires
        cat.idle_anim == Some(anim),
        cat.idle < u32::MAX,
    ensures
        anim == IdleAnim::Sleep && cat.idle_frame < 8 ==> idled(cat).sprite == (3usize, 2usize),
        anim == IdleAnim::Sleep && cat.idle_frame >= 8 ==> idled(cat).sprite
            == SLEEP@[cat.idle_frame as int / 4 % 2],
        anim == IdleAnim::Groom ==> idled(cat).sprite == SCRATCH_SELF@[cat.idle_frame as int % 3],
        anim == IdleAnim::N ==> idled(cat).sprite == SCRATCH_N@[cat.idle_frame as int % 2],
        anim == IdleAnim::S ==> idled(cat).sprite == SCRATCH_S@[cat.idle_frame as int % 2],
        anim == IdleAnim::E ==> idled(cat).sprite == SCRATCH_E@[cat.idle_frame as int % 2],
        anim == IdleAnim::W ==> idled(cat).sprite == SCRATCH_W@[cat.idle_frame as int % 2],
{
}

/// A cat that does nothing sits and counts its idle frames. From the eleventh on it
/// draws once a frame, and when the draw is right once more, for what it begins to do;
/// before that it draws nothing and begins nothing.
pub proof fn law_idle_cats_stir_by_chance(cat: CatState)
    requires
        cat.idle_anim is None,
        cat.idle < u32::MAX,
        cat.idle_frame < u32::MAX,
    ensures
        ({
            let after = idled(cat);
            let first = lcg(cat.rng);
            let second = lcg(first);
            let begins = cat.idle >= 10 && rolled(first, 200) == 0;
            &&& after.idle == cat.idle + 1
            &&& after.frame == cat.frame
            &&& after.mode == cat.mode
            &&& after.push_frames == cat.push_frames
            &&& after.orbit_degrees == cat.orbit_degrees
            &&& after.rng == (if cat.idle < 10 {
                cat.rng
            } else if begins {
                second
            } else {
                first
            })
            &&& !begins ==> after.idle_anim is None && after.sprite == (3usize, 3usize)
                && after.idle_frame == cat.idle_frame + 1
            &&& begins && rolled(second, 6) == 0 && cat.idle_frame <= 192 ==> after.idle_anim
                == Some(IdleAnim::Sleep) && after.idle_frame == cat.idle_frame + 1
            &&& begins && rolled(second, 6) == 1 && cat.idle_frame <= 9 ==> after.idle_anim
                == Some(IdleAnim::Groom)
            &&& begins && rolled(second, 6) == 2 && cat.idle_frame <= 9 ==> after.idle_anim
                == Some(IdleAnim::N)
            &&& begins && rolled(second, 6) == 3 && cat.idle_frame <= 9 ==> after.idle_anim
                == Some(IdleAnim::S)
            &&& begins && rolled(second, 6) == 4 && cat.idle_frame <= 9 ==> after.idle_anim
                == Some(IdleAnim::E)
            &&& begins && rolled(second, 6) == 5 && cat.idle_frame <= 9 ==> after.idle_anim
                == Some(IdleAnim::W)
        }),
{
}

/// In its first ten idle frames a cat that does nothing just sits and counts them.
pub proof fn law_idle_cats_wait(cat: CatState, n: nat)
    requires
        cat.idle_anim is None,
        cat.idle + n <= 10,
        cat.idle_frame + n < u32::MAX,
    ensures
        ({
            let after = idled_often(cat, n);
            &&& after.idle == cat.idle + n
            &&& after.idle_frame == cat.idle_frame + n
            &&& after.idle_anim is None
            &&& after.rng == cat.rng
            &&& n > 0 ==> after.sprite == (3usize, 3usize)
        }),
    decreases n,
{
    if n > 0 {
        law_idle_cats_wait(cat, (n - 1) as nat);
    }
}

} // verus!
