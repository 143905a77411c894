//! The cells of the sprite sheet that a cat can show.

use vstd::prelude::*;

verus! {

/// A cell of the sprite sheet: its column and its row.
pub type Sprite = (usize, usize);

pub const IDLE: [Sprite; 1] = [(3, 3)];

pub const ALERT: [Sprite; 1] = [(7, 3)];

pub const SCRATCH_SELF: [Sprite; 3] = [(5, 0), (6, 0), (7, 0)];

pub const SCRATCH_N: [Sprite; 2] = [(0, 0), (0, 1)];

pub const SCRATCH_S: [Sprite; 2] = [(7, 1), (6, 2)];

pub const SCRATCH_E: [Sprite; 2] = [(2, 2), (2, 3)];

pub const SCRATCH_W: [Sprite; 2] = [(4, 0), (4, 1)];

pub const TIRED: [Sprite; 1] = [(3, 2)];

pub const SLEEP: [Sprite; 2] = [(2, 0), (2, 1)];

pub const N: [Sprite; 2] = [(1, 2), (1, 3)];

pub const NE: [Sprite; 2] = [(0, 2), (0, 3)];

pub const E: [Sprite; 2] = [(3, 0), (3, 1)];

pub const SE: [Sprite; 2] = [(5, 1), (5, 2)];

pub const S: [Sprite; 2] = [(6, 3), (7, 2)];

pub const SW: [Sprite; 2] = [(5, 3), (6, 1)];

pub const WDIR: [Sprite; 2] = [(4, 2), (4, 3)];

pub const NW: [Sprite; 2] = [(1, 0), (1, 1)];

/// A cell that lies on the sheet.
pub open spec fn on_sheet(sprite: Sprite) -> bool {
    sprite.0 < crate::sanitize::SHEET_COLUMNS && sprite.1 < crate::sanitize::SHEET_ROWS
}

/// A set of cells, none of them off the sheet.
pub open spec fn set_on_sheet(set: Seq<Sprite>) -> bool {
    set.len() > 0 && forall|i: int| 0 <= i < set.len() ==> on_sheet(#[trigger] set[i])
}

/// The cell of a set for a frame: the frames go through the set again and again.
pub open spec fn picked(set: Seq<Sprite>, frame: u32) -> Sprite {
    set[frame as int % set.len() as int]
}

/// The cell of a set for a frame.
pub fn pick(set: &[Sprite], frame: u32) -> (r: Sprite)
    requires
        set@.len() > 0,
    ensures
        r == picked(set@, frame),
{
    set[frame as usize % set.len()]
}

/// Where a cat is headed: on either axis at most one way, and neither where the
/// other axis prevails.
#[derive(Clone, Copy, Debug, PartialEq, Eq, Structural)]
pub struct Heading {
    pub north: bool,
    pub south: bool,
    pub west: bool,
    pub east: bool,
}

/// The cells that show a cat walking.
pub open spec fn walk_set(h: Heading) -> Seq<Sprite> {
    if h.north && !h.south && h.west && !h.east {
        NW@
    } else if h.north && !h.south && !h.west && h.east {
        NE@
    } else if !h.north && h.south && h.west && !h.east {
        SW@
    } else if !h.north && h.south && !h.west && h.east {
        SE@
    } else if h.north && !h.south && !h.west && !h.east {
        N@
    } else if !h.north && h.south && !h.west && !h.east {
        S@
    } else if !h.north && !h.south && h.west && !h.east {
        WDIR@
    } else {
        E@
    }
}

/// The cells that show a cat walking.
pub fn dir(h: Heading) -> (r: &'static [Sprite])
    ensures
        r@ == walk_set(h),
{
    match (h.north, h.south, h.west, h.east) {
        (true, false, true, false) => &NW,
        (true, false, false, true) => &NE,
        (false, true, true, false) => &SW,
        (false, true, false, true) => &SE,
        (true, false, false, false) => &N,
        (false, true, false, false) => &S,
        (false, false, true, false) => &WDIR,
        _ => &E,
    }
}

/// How the cursor lies from a cat: whether more up or down than sideways, whether
/// above, and whether to the left.
#[derive(Clone, Copy, Debug, PartialEq, Eq, Structural)]
pub struct Offset {
    pub steep: bool,
    pub above: bool,
    pub left: bool,
}

/// The cells that show a cat scratching at the cursor.
pub open spec fn scratch_set(o: Offset) -> Seq<Sprite> {
    if o.steep {
        if o.above {
            SCRATCH_N@
        } else {
            SCRATCH_S@
        }
    } else {
        if o.left {
            SCRATCH_W@
        } else {
            SCRATCH_E@
        }
    }
}

/// The cell that shows a cat scratching at the cursor.
pub fn scratch_toward(o: Offset, frame: u32) -> (r: Sprite)
    ensures
        r == picked(scratch_set(o), frame),
{
    if o.steep {
        if o.above {
            pick(&SCRATCH_N, frame)
        } else {
            pick(&SCRATCH_S, frame)
        }
    } else {
        if o.left {
            pick(&SCRATCH_W, frame)
        } else {
            pick(&SCRATCH_E, frame)
        }
    }
}

/// Every cell that a cat can show walking, scratching, grooming, sleeping or at
/// rest lies on the sheet.
pub proof fn law_sprites_lie_on_the_sheet(h: Heading, o: Offset)
    ensures
        set_on_sheet(IDLE@),
        set_on_sheet(ALERT@),
        set_on_sheet(TIRED@),
        set_on_sheet(SLEEP@),
        set_on_sheet(SCRATCH_SELF@),
        set_on_sheet(SCRATCH_N@),
        set_on_sheet(SCRATCH_S@),
        set_on_sheet(SCRATCH_E@),
        set_on_sheet(SCRATCH_W@),
        set_on_sheet(walk_set(h)),
        set_on_sheet(scratch_set(o)),
{
}

/// What is picked from cells on the sheet lies on the sheet.
pub proof fn lemma_picked_on_sheet(set: Seq<Sprite>, frame: u32)
    requires
        set_on_sheet(set),
    ensures
        on_sheet(picked(set, frame)),
{
    let n = set.len() as int;
    assert(0 <= frame as int % n < n) by (nonlinear_arith)
        requires
            n > 0,
    ;
}

} // verus!
