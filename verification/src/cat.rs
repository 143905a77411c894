//! One cat: what it is up to, and what it does next.
//!
//! Positions and angles are kept by whoever moves the cat; this module decides what
//! becomes of what is sensed of them.

use crate::rng::{bearing, bearing_of, lcg, low, low_of, roll, rolled};
use crate::sprite::{
    dir, lemma_picked_on_sheet, law_sprites_lie_on_the_sheet, on_sheet, pick, picked, scratch_set,
    scratch_toward, walk_set, Heading, Offset, Sprite, ALERT, IDLE, SCRATCH_E, SCRATCH_N,
    SCRATCH_S, SCRATCH_SELF, SCRATCH_W, SLEEP, TIRED,
};
use vstd::prelude::*;

verus! {

/// How many frames a cat scratches at the cursor.
pub const SCRATCH_FRAMES: u32 = 5;

/// A cat scratches at a cursor in reach in one of so many frames.
pub const SCRATCH_CHANCE: u32 = 18;

/// A cat idles for so many frames before it may do something.
pub const IDLE_TRIGGER: u32 = 10;

/// An idle cat begins to do something in one of so many frames.
pub const IDLE_CHANCE: u32 = 200;

/// So many frames a cat is tired before it sleeps.
pub const SLEEP_TIRED: u32 = 8;

/// A cat sleeps until this frame.
pub const SLEEP_RESET: u32 = 192;

/// A cat scratches itself or a wall until this frame.
pub const SCRATCH_RESET: u32 = 9;

/// What an idle cat does.
#[derive(Clone, Copy, Debug, PartialEq, Eq, Structural)]
pub enum IdleAnim {
    Sleep,
    Groom,
    N,
    S,
    E,
    W,
}

/// What a cat is after.
#[derive(Clone, Copy, Debug, PartialEq, Eq, Structural)]
pub enum Mode {
    /// It stays near the cursor.
    Orbit,
    /// It runs around the cursor, so many hundredths of a radian in a frame, for so
    /// many frames more.
    Lap { pace: u32, ttl: u32 },
    /// It runs after another cat for so many frames more.
    Chase { mate: usize, ttl: u32 },
}

/// The point that a cat makes for.
#[derive(Clone, Copy, Debug, PartialEq, Eq, Structural)]
pub enum Aim {
    /// Its place near the cursor.
    Orbit,
    /// The next point of its lap.
    Lap { pace: u32 },
    /// The last point of its lap; from here on its place is where it is now.
    LapOver { pace: u32 },
    /// The tail of another cat.
    Chase { mate: usize },
    /// Its place near the cursor, which from here on is where it is now.
    ChaseOver,
}

/// What a cat senses in a frame.
#[derive(Clone, Copy, Debug, PartialEq, Eq, Structural)]
pub struct Senses {
    /// The cursor is in reach of its paws.
    pub near_mouse: bool,
    /// The point that it makes for is near.
    pub near_target: bool,
    /// How the cursor lies from it.
    pub offset: Offset,
}

/// What a cat does in a frame.
#[derive(Clone, Copy, Debug, PartialEq, Eq, Structural)]
pub enum Act {
    /// It scratches on and pushes the cursor.
    Push,
    /// It scratches on.
    Hold,
    /// It begins to scratch at the cursor.
    Scratch,
    /// It sits down; its place is where it is now.
    Settle,
    /// It idles.
    Idle,
    /// It starts up.
    Alert,
    /// It takes a step, and then turns to where it is headed.
    Walk,
}

/// A cat.
#[derive(Clone, Copy, Debug, PartialEq, Eq)]
pub struct CatState {
    pub frame: u32,
    /// For how many frames it has idled.
    pub idle: u32,
    pub idle_anim: Option<IdleAnim>,
    pub idle_frame: u32,
    /// For how many frames more it scratches.
    pub push_frames: u32,
    pub sprite: Sprite,
    pub rng: u64,
    pub mode: Mode,
    /// Where its place near the cursor lies at first, in degrees.
    pub orbit_degrees: u32,
}

/// A fresh cat.
pub open spec fn new_cat(seed: u64) -> CatState {
    CatState {
        frame: 0,
        idle: 0,
        idle_anim: None,
        idle_frame: 0,
        push_frames: 0,
        sprite: IDLE@[0],
        rng: if seed % 2 == 0 {
            (seed + 1) as u64
        } else {
            seed
        },
        mode: Mode::Orbit,
        orbit_degrees: bearing_of(seed),
    }
}

/// What a cat is after in the next frame, and what it makes for in this one, among
/// so many cats.
pub open spec fn retargeted(mode: Mode, cats: nat) -> (Mode, Aim) {
    match mode {
        Mode::Orbit => (Mode::Orbit, Aim::Orbit),
        Mode::Lap { pace, ttl } => if ttl > 0 {
            (Mode::Lap { pace, ttl: (ttl - 1) as u32 }, Aim::Lap { pace })
        } else {
            (Mode::Orbit, Aim::LapOver { pace })
        },
        Mode::Chase { mate, ttl } => if ttl == 0 || mate >= cats {
            (Mode::Orbit, Aim::ChaseOver)
        } else {
            (Mode::Chase { mate, ttl: (ttl - 1) as u32 }, Aim::Chase { mate })
        },
    }
}

/// A cat that has begun a frame among so many cats.
pub open spec fn begun(cat: CatState, cats: nat) -> CatState {
    CatState {
        frame: (if cat.frame == u32::MAX {
            0
        } else {
            cat.frame + 1
        }) as u32,
        mode: retargeted(cat.mode, cats).0,
        ..cat
    }
}

/// What an idle cat begins to do, by chance.
pub open spec fn anim_for(roll: u32) -> IdleAnim {
    if roll == 0 {
        IdleAnim::Sleep
    } else if roll == 1 {
        IdleAnim::Groom
    } else if roll == 2 {
        IdleAnim::N
    } else if roll == 3 {
        IdleAnim::S
    } else if roll == 4 {
        IdleAnim::E
    } else {
        IdleAnim::W
    }
}

/// The cells that show a cat at something other than sleeping.
pub open spec fn anim_set(anim: IdleAnim) -> Seq<Sprite> {
    match anim {
        IdleAnim::Sleep => SLEEP@,
        IdleAnim::Groom => SCRATCH_SELF@,
        IdleAnim::N => SCRATCH_N@,
        IdleAnim::S => SCRATCH_S@,
        IdleAnim::E => SCRATCH_E@,
        IdleAnim::W => SCRATCH_W@,
    }
}

/// The cell that shows an idle cat.
pub open spec fn idle_sprite(anim: Option<IdleAnim>, idle_frame: u32) -> Sprite {
    match anim {
        None => IDLE@[0],
        Some(IdleAnim::Sleep) => if idle_frame < SLEEP_TIRED {
            TIRED@[0]
        } else {
            picked(SLEEP@, (idle_frame / 4) as u32)
        },
        Some(anim) => picked(anim_set(anim), idle_frame),
    }
}

/// Whether what an idle cat does is over after a frame.
pub open spec fn anim_over(anim: Option<IdleAnim>, idle_frame: u32) -> bool {
    match anim {
        None => false,
        Some(IdleAnim::Sleep) => idle_frame > SLEEP_RESET,
        Some(_) => idle_frame > SCRATCH_RESET,
    }
}

/// A cat that has idled long enough and does nothing may begin to do something.
pub open spec fn stirred(cat: CatState) -> CatState {
    if cat.idle > IDLE_TRIGGER && cat.idle_anim is None {
        let first = lcg(cat.rng);
        if rolled(first, IDLE_CHANCE) == 0 {
            let second = lcg(first);
            CatState { rng: second, idle_anim: Some(anim_for(rolled(second, 6))), ..cat }
        } else {
            CatState { rng: first, ..cat }
        }
    } else {
        cat
    }
}

/// A cat after one more frame of idling.
pub open spec fn idled(cat: CatState) -> CatState {
    let cat = stirred(CatState { idle: (cat.idle + 1) as u32, ..cat });
    let over = anim_over(cat.idle_anim, cat.idle_frame);
    CatState {
        sprite: idle_sprite(cat.idle_anim, cat.idle_frame),
        idle_anim: if over {
            None
        } else {
            cat.idle_anim
        },
        idle_frame: if over {
            1
        } else {
            (cat.idle_frame + 1) as u32
        },
        ..cat
    }
}

/// Whether a cat that does not scratch yet begins to.
pub open spec fn starts_scratching(cat: CatState, senses: Senses, scratch_push: bool) -> bool {
    scratch_push && senses.near_mouse && rolled(lcg(cat.rng), SCRATCH_CHANCE) == 0
}

/// Whether a cat comes to rest in a frame.
pub open spec fn rests(cat: CatState, senses: Senses, scratch_push: bool) -> bool {
    cat.push_frames == 0 && !starts_scratching(cat, senses, scratch_push) && cat.mode
        == Mode::Orbit && senses.near_target
}

/// A cat after a frame, and what it does in it.
pub open spec fn advanced(
    cat: CatState,
    senses: Senses,
    scratch_push: bool,
    locked: bool,
) -> (CatState, Act) {
    if cat.push_frames > 0 {
        (
            CatState { push_frames: (cat.push_frames - 1) as u32, ..cat },
            if scratch_push {
                Act::Push
            } else {
                Act::Hold
            },
        )
    } else {
        let tempted = if scratch_push && senses.near_mouse {
            CatState { rng: lcg(cat.rng), ..cat }
        } else {
            cat
        };
        if starts_scratching(cat, senses, scratch_push) {
            (
                CatState {
                    push_frames: SCRATCH_FRAMES,
                    sprite: picked(scratch_set(senses.offset), cat.frame),
                    ..tempted
                },
                Act::Scratch,
            )
        } else if rests(cat, senses, scratch_push) {
            if locked {
                (idled(tempted), Act::Idle)
            } else {
                (
                    CatState {
                        idle: 0,
                        idle_anim: None,
                        idle_frame: 0,
                        sprite: IDLE@[0],
                        ..tempted
                    },
                    Act::Settle,
                )
            }
        } else if cat.idle > 1 {
            (
                CatState {
                    idle: if cat.idle < 7 {
                        (cat.idle - 1) as u32
                    } else {
                        6
                    },
                    idle_anim: None,
                    idle_frame: 0,
                    sprite: ALERT@[0],
                    ..tempted
                },
                Act::Alert,
            )
        } else {
            (CatState { idle_anim: None, idle_frame: 0, ..tempted }, Act::Walk)
        }
    }
}

impl CatState {
    /// A fresh cat.
    pub fn new(seed: u64) -> (r: CatState)
        ensures
            r == new_cat(seed),
    {
        assert(seed | 1 == (if seed % 2 == 0 {
            (seed + 1) as u64
        } else {
            seed
        })) by (bit_vector);
        CatState {
            frame: 0,
            idle: 0,
            idle_anim: None,
            idle_frame: 0,
            push_frames: 0,
            sprite: IDLE[0],
            rng: seed | 1,
            mode: Mode::Orbit,
            orbit_degrees: bearing(seed),
        }
    }

    /// Begins a frame among so many cats, and gives what the cat makes for in it.
    pub fn start_frame(&mut self, cats: usize) -> (aim: Aim)
        ensures
            *final(self) == begun(*old(self), cats as nat),
            aim == retargeted(old(self).mode, cats as nat).1,
    {
        self.frame = self.frame.wrapping_add(1);
        self.target(cats)
    }

    /// What the cat makes for, among so many cats.
    pub fn target(&mut self, cats: usize) -> (aim: Aim)
        ensures
            *final(self) == (CatState {
                mode: retargeted(old(self).mode, cats as nat).0,
                ..*old(self)
            }),
            aim == retargeted(old(self).mode, cats as nat).1,
    {
        match self.mode {
            Mode::Orbit => Aim::Orbit,
            Mode::Lap { pace, ttl } => {
                if ttl > 0 {
                    self.mode = Mode::Lap { pace, ttl: ttl - 1 };
                    Aim::Lap { pace }
                } else {
                    self.mode = Mode::Orbit;
                    Aim::LapOver { pace }
                }
            },
            Mode::Chase { mate, ttl } => {
                if ttl == 0 || mate >= cats {
                    self.mode = Mode::Orbit;
                    Aim::ChaseOver
                } else {
                    self.mode = Mode::Chase { mate, ttl: ttl - 1 };
                    Aim::Chase { mate }
                }
            },
        }
    }

    /// Decides what the cat does in a frame that has begun.
    pub fn advance(&mut self, senses: Senses, scratch_push: bool, locked: bool) -> (act: Act)
        requires
            locked && rests(*old(self), senses, scratch_push) ==> old(self).idle < u32::MAX
                && (old(self).idle_frame < u32::MAX || old(self).idle_anim is Some),
        ensures
            (*final(self), act) == advanced(*old(self), senses, scratch_push, locked),
    {
        if self.push_frames > 0 {
            self.push_frames = self.push_frames - 1;
            return if scratch_push {
                Act::Push
            } else {
                Act::Hold
            };
        }
        if scratch_push && senses.near_mouse && self.roll(SCRATCH_CHANCE) == 0 {
            self.push_frames = SCRATCH_FRAMES;
            self.sprite = scratch_toward(senses.offset, self.frame);
            return Act::Scratch;
        }
        if self.mode == Mode::Orbit && senses.near_target {
            if locked {
                self.locked_idle();
                return Act::Idle;
            }
            self.idle = 0;
            self.idle_anim = None;
            self.idle_frame = 0;
            self.sprite = IDLE[0];
            return Act::Settle;
        }
        self.idle_anim = None;
        self.idle_frame = 0;
        if self.idle > 1 {
            self.idle = if self.idle < 7 {
                self.idle - 1
            } else {
                6
            };
            self.sprite = ALERT[0];
            return Act::Alert;
        }
        Act::Walk
    }

    /// Turns the cat to where it is headed after a step.
    pub fn face(&mut self, heading: Heading)
        ensures
            *final(self) == (CatState {
                sprite: picked(walk_set(heading), old(self).frame),
                ..*old(self)
            }),
    {
        proof {
            law_sprites_lie_on_the_sheet(
                heading,
                Offset { steep: false, above: false, left: false },
            );
        }
        self.sprite = pick(dir(heading), self.frame);
    }

    /// Idles for one more frame.
    pub fn locked_idle(&mut self) -> (r: Sprite)
        requires
            old(self).idle < u32::MAX,
            old(self).idle_frame < u32::MAX || old(self).idle_anim is Some,
        ensures
            *final(self) == idled(*old(self)),
            r == final(self).sprite,
    {
        self.idle = self.idle + 1;
        if self.idle > IDLE_TRIGGER && self.idle_anim.is_none() && self.roll(IDLE_CHANCE) == 0 {
            let which: u32 = self.roll(6);
            self.idle_anim = Some(
                match which {
                    0 => IdleAnim::Sleep,
                    1 => IdleAnim::Groom,
                    2 => IdleAnim::N,
                    3 => IdleAnim::S,
                    4 => IdleAnim::E,
                    _ => IdleAnim::W,
                },
            );
        }
        let out = match self.idle_anim {
            Some(IdleAnim::Sleep) => {
                let s = if self.idle_frame < SLEEP_TIRED {
                    TIRED[0]
                } else {
                    pick(&SLEEP, self.idle_frame / 4)
                };
                if self.idle_frame > SLEEP_RESET {
                    self.reset_idle();
                }
                s
            },
            Some(IdleAnim::Groom) => self.step_idle(&SCRATCH_SELF),
            Some(IdleAnim::N) => self.step_idle(&SCRATCH_N),
            Some(IdleAnim::S) => self.step_idle(&SCRATCH_S),
            Some(IdleAnim::E) => self.step_idle(&SCRATCH_E),
            Some(IdleAnim::W) => self.step_idle(&SCRATCH_W),
            None => IDLE[0],
        };
        self.idle_frame = self.idle_frame + 1;
        self.sprite = out;
        out
    }

    /// The cell of a set for an idle frame. What the cat does ends when it has gone
    /// on for long enough.
    pub fn step_idle(&mut self, set: &[Sprite]) -> (r: Sprite)
        requires
            set@.len() > 0,
        ensures
            r == picked(set@, old(self).idle_frame),
            *final(self) == (if old(self).idle_frame > SCRATCH_RESET {
                CatState { idle_anim: None, idle_frame: 0, ..*old(self) }
            } else {
                *old(self)
            }),
    {
        let out = pick(set, self.idle_frame);
        if self.idle_frame > SCRATCH_RESET {
            self.reset_idle();
        }
        out
    }

    /// Ends what an idle cat does.
    pub fn reset_idle(&mut self)
        ensures
            *final(self) == (CatState { idle_anim: None, idle_frame: 0, ..*old(self) }),
    {
        self.idle_anim = None;
        self.idle_frame = 0;
    }

    /// Draws a number below `n`.
    pub fn roll(&mut self, n: u32) -> (r: u32)
        requires
            n > 0,
        ensures
            *final(self) == (CatState { rng: lcg(old(self).rng), ..*old(self) }),
            r == rolled(final(self).rng, n),
            r < n,
    {
        let mut rng: u64 = self.rng;
        let r: u32 = roll(&mut rng, n);
        self.rng = rng;
        r
    }
}

/// A cat of someone else in the room.
#[derive(Clone, Copy, Debug, PartialEq, Eq)]
pub struct RemoteCat {
    pub sprite: Sprite,
    /// Where its place near its owner's cursor lies, in degrees, before it is moved
    /// on by its number.
    pub orbit_degrees: u32,
}

/// A fresh cat of someone else.
pub open spec fn new_remote_cat(seed: u64) -> RemoteCat {
    RemoteCat { sprite: IDLE@[0], orbit_degrees: bearing_of(seed) }
}

/// What a cat of someone else does in a frame.
#[derive(Clone, Copy, Debug, PartialEq, Eq, Structural)]
pub enum RemoteAct {
    /// It appears at its place.
    Appear,
    /// It sits.
    Rest,
    /// It takes a step, and then turns to where it is headed.
    Walk,
}

impl RemoteCat {
    /// A fresh cat of someone else.
    pub fn new(seed: u64) -> (r: RemoteCat)
        ensures
            r == new_remote_cat(seed),
    {
        RemoteCat { sprite: IDLE[0], orbit_degrees: bearing(seed) }
    }

    /// Decides what the cat does, given whether it has appeared yet and whether its
    /// place is near.
    pub fn advance(&mut self, unplaced: bool, near_target: bool) -> (act: RemoteAct)
        ensures
            act == (if unplaced {
                RemoteAct::Appear
            } else if near_target {
                RemoteAct::Rest
            } else {
                RemoteAct::Walk
            }),
            *final(self) == (if act == RemoteAct::Walk {
                *old(self)
            } else {
                RemoteCat { sprite: IDLE@[0], ..*old(self) }
            }),
    {
        if unplaced {
            self.sprite = IDLE[0];
            return RemoteAct::Appear;
        }
        if near_target {
            self.sprite = IDLE[0];
            return RemoteAct::Rest;
        }
        RemoteAct::Walk
    }

    /// Turns the cat, which is the one with the given number, to where it is headed
    /// after a step.
    pub fn face(&mut self, heading: Heading, index: usize)
        ensures
            *final(self) == (RemoteCat {
                sprite: picked(walk_set(heading), low_of(index as nat)),
                ..*old(self)
            }),
    {
        proof {
            law_sprites_lie_on_the_sheet(
                heading,
                Offset { steep: false, above: false, left: false },
            );
        }
        self.sprite = pick(dir(heading), low(index));
    }
}

/// A cat always shows a cell of the sheet.
pub proof fn law_cats_stay_on_the_sheet(
    cat: CatState,
    senses: Senses,
    scratch_push: bool,
    locked: bool,
    heading: Heading,
    seed: u64,
)
    requires
        on_sheet(cat.sprite),
    ensures
        on_sheet(new_cat(seed).sprite),
        on_sheet(advanced(cat, senses, scratch_push, locked).0.sprite),
        on_sheet(picked(walk_set(heading), cat.frame)),
{
    law_sprites_lie_on_the_sheet(heading, senses.offset);
    lemma_picked_on_sheet(walk_set(heading), cat.frame);
    lemma_picked_on_sheet(scratch_set(senses.offset), cat.frame);
    lemma_picked_on_sheet(SLEEP@, (cat.idle_frame / 4) as u32);
    lemma_picked_on_sheet(SCRATCH_SELF@, cat.idle_frame);
    lemma_picked_on_sheet(SCRATCH_N@, cat.idle_frame);
    lemma_picked_on_sheet(SCRATCH_S@, cat.idle_frame);
    lemma_picked_on_sheet(SCRATCH_E@, cat.idle_frame);
    lemma_picked_on_sheet(SCRATCH_W@, cat.idle_frame);
    assert(on_sheet(IDLE@[0]));
    assert(on_sheet(ALERT@[0]));
    assert(on_sheet(TIRED@[0]));
}

/// The frames of what an idle cat does never outnumber those that it has idled, so
/// the one count runs out no earlier than the other.
pub proof fn law_idle_frames_are_bounded(
    cat: CatState,
    senses: Senses,
    scratch_push: bool,
    locked: bool,
    seed: u64,
)
    requires
        cat.idle_frame <= cat.idle,
        locked && rests(cat, senses, scratch_push) ==> cat.idle < u32::MAX,
    ensures
        new_cat(seed).idle_frame <= new_cat(seed).idle,
        advanced(cat, senses, scratch_push, locked).0.idle_frame <= advanced(
            cat,
            senses,
            scratch_push,
            locked,
        ).0.idle,
{
}

/// What a cat is after when it has been retargeted once for each entry, each time
/// among so many cats.
pub open spec fn retargeted_often(mode: Mode, counts: Seq<nat>) -> Mode
    decreases counts.len(),
{
    if counts.len() == 0 {
        mode
    } else {
        retargeted(retargeted_often(mode, counts.drop_last()), counts.last()).0
    }
}

/// Every game comes to an end: a cat that runs a lap or after another one for `ttl`
/// frames more is back at the cursor after one frame more than that.
pub proof fn law_games_end(mode: Mode, counts: Seq<nat>)
    requires
        counts.len() > (match mode {
            Mode::Orbit => 0,
            Mode::Lap { ttl, .. } => ttl,
            Mode::Chase { ttl, .. } => ttl,
        }),
    ensures
        retargeted_often(mode, counts) == Mode::Orbit,
{
    lemma_game_left(mode, counts);
}

/// What is left of a game: for how many frames more it can go on, at most.
spec fn frames_left(mode: Mode) -> int {
    match mode {
        Mode::Orbit => -1,
        Mode::Lap { ttl, .. } => ttl as int,
        Mode::Chase { ttl, .. } => ttl as int,
    }
}

proof fn lemma_game_left(mode: Mode, counts: Seq<nat>)
    ensures
        frames_left(retargeted_often(mode, counts)) <= frames_left(mode) - counts.len()
            || retargeted_often(mode, counts) == Mode::Orbit,
    decreases counts.len(),
{
    if counts.len() > 0 {
        lemma_game_left(mode, counts.drop_last());
    }
}

/// What a cat meets in a frame: among how many cats it is, what it senses, whether
/// cats may push the cursor, whether the cursor rests, and where the cat is headed
/// after a step if it takes one.
pub struct Moment {
    pub cats: nat,
    pub senses: Senses,
    pub scratch_push: bool,
    pub locked: bool,
    pub heading: Heading,
}

/// A cat after a whole frame, and what it did in it.
pub open spec fn framed(cat: CatState, m: Moment) -> (CatState, Act) {
    let (after, act) = advanced(begun(cat, m.cats), m.senses, m.scratch_push, m.locked);
    if act == Act::Walk {
        (CatState { sprite: picked(walk_set(m.heading), after.frame), ..after }, act)
    } else {
        (after, act)
    }
}

/// A cat after a run of frames.
pub open spec fn lived(cat: CatState, moments: Seq<Moment>) -> CatState
    decreases moments.len(),
{
    if moments.len() == 0 {
        cat
    } else {
        framed(lived(cat, moments.drop_last()), moments.last()).0
    }
}

/// What a cat does in one frame of a run.
pub open spec fn act_in(cat: CatState, moments: Seq<Moment>, i: int) -> Act {
    framed(lived(cat, moments.take(i)), moments[i]).1
}

/// Whether nothing keeps a cat from going in one frame of a run: it does not begin
/// to scratch, and it does not come to rest.
pub open spec fn on_its_way(cat: CatState, moments: Seq<Moment>, i: int) -> bool {
    let now = begun(lived(cat, moments.take(i)), moments[i].cats);
    let m = moments[i];
    !starts_scratching(now, m.senses, m.scratch_push) && !rests(now, m.senses, m.scratch_push)
}

/// For how many frames a cat that has idled so long is alert before it goes.
pub open spec fn alarm(idle: u32) -> int {
    if idle <= 1 {
        0
    } else if idle < 7 {
        idle - 1
    } else {
        6
    }
}

proof fn lemma_lived_one_more(cat: CatState, moments: Seq<Moment>, i: int)
    requires
        0 <= i < moments.len(),
    ensures
        lived(cat, moments.take(i + 1)) == framed(lived(cat, moments.take(i)), moments[i]).0,
{
    let more = moments.take(i + 1);
    assert(more.drop_last() =~= moments.take(i));
    assert(more.last() == moments[i]);
}

proof fn lemma_alarm(cat: CatState, moments: Seq<Moment>, i: int)
    requires
        cat.push_frames == 0,
        0 <= i <= moments.len(),
        forall|k: int| 0 <= k < moments.len() ==> #[trigger] on_its_way(cat, moments, k),
    ensures
        lived(cat, moments.take(i)).push_frames == 0,
        alarm(lived(cat, moments.take(i)).idle) == (if i < alarm(cat.idle) {
            alarm(cat.idle) - i
        } else {
            0
        }),
    decreases i,
{
    if i == 0 {
        assert(moments.take(0) =~= Seq::empty());
    } else {
        lemma_alarm(cat, moments, i - 1);
        lemma_lived_one_more(cat, moments, i - 1);
        assert(on_its_way(cat, moments, i - 1));
    }
}

/// A cat that starts up calms down and goes. As long as it does not begin to
/// scratch and does not come to rest, it is alert for one frame less than it has
/// idled, and for no more than six, and from then on it walks.
pub proof fn law_alarm_wears_off(cat: CatState, moments: Seq<Moment>)
    requires
        cat.push_frames == 0,
        forall|i: int| 0 <= i < moments.len() ==> #[trigger] on_its_way(cat, moments, i),
    ensures
        alarm(cat.idle) <= 6,
        forall|i: int|
            0 <= i < moments.len() ==> #[trigger] act_in(cat, moments, i) == (if i < alarm(
                cat.idle,
            ) {
                Act::Alert
            } else {
                Act::Walk
            }),
{
    assert forall|i: int| 0 <= i < moments.len() implies #[trigger] act_in(cat, moments, i) == (
    if i < alarm(cat.idle) {
        Act::Alert
    } else {
        Act::Walk
    }) by {
        lemma_alarm(cat, moments, i);
        assert(on_its_way(cat, moments, i));
    }
}

proof fn lemma_scratching(cat: CatState, moments: Seq<Moment>, i: int)
    requires
        0 <= i <= moments.len(),
        i <= cat.push_frames,
    ensures
        lived(cat, moments.take(i)).push_frames == cat.push_frames - i,
        lived(cat, moments.take(i)).sprite == cat.sprite,
    decreases i,
{
    if i == 0 {
        assert(moments.take(0) =~= Seq::empty());
    } else {
        lemma_scratching(cat, moments, i - 1);
        lemma_lived_one_more(cat, moments, i - 1);
    }
}

/// A cat that scratches at the cursor does nothing else and shows the same cell
/// until it is done, whatever it meets: in every frame that is left it scratches on,
/// and pushes the cursor where it may; after that it is free.
pub proof fn law_scratching_goes_on(cat: CatState, moments: Seq<Moment>)
    requires
        moments.len() == cat.push_frames,
    ensures
        forall|i: int|
            0 <= i < moments.len() ==> #[trigger] act_in(cat, moments, i) == (
            if moments[i].scratch_push {
                Act::Push
            } else {
                Act::Hold
            }),
        forall|i: int|
            0 <= i <= moments.len() ==> (#[trigger] lived(cat, moments.take(i))).sprite
                == cat.sprite,
        lived(cat, moments).push_frames == 0,
{
    assert forall|i: int| 0 <= i < moments.len() implies #[trigger] act_in(cat, moments, i) == (
    if moments[i].scratch_push {
        Act::Push
    } else {
        Act::Hold
    }) by {
        lemma_scratching(cat, moments, i);
    }
    assert forall|i: int| 0 <= i <= moments.len() implies (#[trigger] lived(
        cat,
        moments.take(i),
    )).sprite == cat.sprite by {
        lemma_scratching(cat, moments, i);
    }
    lemma_scratching(cat, moments, moments.len() as int);
    assert(moments.take(moments.len() as int) =~= moments);
}

/// Cats leave the cursor alone where the user does not let them push it.
pub proof fn law_no_pushing_unless_allowed(cat: CatState, senses: Senses, locked: bool)
    ensures
        advanced(cat, senses, false, locked).1 != Act::Push,
        advanced(cat, senses, false, locked).1 != Act::Scratch,
{
}

} // verus!
