//! Whether the cursor rests.

use vstd::prelude::*;

verus! {

/// A cursor that has not moved for so many nanoseconds rests.
pub const LOCKED_CURSOR: u128 = 1_500_000_000;

/// When the cursor moved last, in nanoseconds of a steady clock, and whether it
/// rests.
#[derive(Clone, Copy, Debug, Default, PartialEq, Eq)]
pub struct CursorState {
    pub last_move: Option<u128>,
    pub locked: bool,
}

/// Whether a cursor that moved last at `last_move` rests at `now`. One that was
/// never seen to move does not.
pub open spec fn at_rest(last_move: Option<u128>, now: u128) -> bool {
    match last_move {
        Some(last) => now - last >= LOCKED_CURSOR,
        None => false,
    }
}

/// A cursor that was watched at `now` and seen to move or not.
pub open spec fn watched(cursor: CursorState, moved: bool, now: u128) -> CursorState {
    if moved {
        CursorState { last_move: Some(now), locked: false }
    } else {
        CursorState { last_move: cursor.last_move, locked: at_rest(cursor.last_move, now) }
    }
}

impl CursorState {
    /// Takes note of whether the cursor has moved at `now`.
    pub fn update(&mut self, moved: bool, now: u128)
        ensures
            *final(self) == watched(*old(self), moved, now),
            *final(self) == (if moved {
                CursorState { last_move: Some(now), locked: false }
            } else {
                CursorState {
                    last_move: old(self).last_move,
                    locked: at_rest(old(self).last_move, now),
                }
            }),
    {
        if moved {
            self.last_move = Some(now);
            self.locked = false;
        } else {
            self.locked = match self.last_move {
                Some(last) => now >= last && now - last >= LOCKED_CURSOR,
                None => false,
            };
        }
    }
}

/// A cursor that was watched at several times and not seen to move at any of them.
pub open spec fn watched_in_vain(cursor: CursorState, times: Seq<u128>) -> CursorState
    decreases times.len(),
{
    if times.len() == 0 {
        cursor
    } else {
        watched(watched_in_vain(cursor, times.drop_last()), false, times.last())
    }
}

/// A cursor rests as soon as a second and a half has passed since it moved last, and
/// not before, however often it is watched in between; a cursor that moves does not
/// rest, and one that never moved never rests.
pub proof fn law_cursors_rest_after_a_while(cursor: CursorState, moved_at: u128, times: Seq<u128>)
    ensures
        !watched(cursor, true, moved_at).locked,
        ({
            let after = watched_in_vain(watched(cursor, true, moved_at), times);
            &&& after.last_move == Some(moved_at)
            &&& times.len() > 0 ==> after.locked == (times.last() - moved_at >= 1_500_000_000)
        }),
        cursor.last_move is None && times.len() > 0 ==> !watched_in_vain(cursor, times).locked,
        cursor.last_move is None ==> watched_in_vain(cursor, times).last_move is None,
    decreases times.len(),
{
    if times.len() > 0 {
        law_cursors_rest_after_a_while(cursor, moved_at, times.drop_last());
    }
}

} // verus!
