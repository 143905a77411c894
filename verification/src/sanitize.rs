//! What the relay accepts from a client, and in what form it keeps it.

use crate::lists::lemma_filter_push;
use crate::protocol::{CatRenderSnapshot, CatStyle, Coord};
use crate::text::{is_control, is_decimal, trimmed};
use vstd::prelude::*;

verus! {

/// The longest display name, in characters.
pub const MAX_NAME_LEN: usize = 24;

/// The most cats that one client may show.
pub const MAX_CATS: usize = 8;

/// The sprite sheet is this many cells wide.
pub const SHEET_COLUMNS: u8 = 8;

/// The sprite sheet is this many cells high.
pub const SHEET_ROWS: u8 = 4;

/// `s` without its control characters.
pub open spec fn printable(s: Seq<char>) -> Seq<char> {
    s.filter(|c: char| !is_control(c))
}

/// The form in which a display name is kept. A name is refused when nothing, or
/// more than [`MAX_NAME_LEN`] characters, are left of it without the white space
/// around it; control characters are dropped after that.
pub open spec fn clean_name(s: Seq<char>) -> Option<Seq<char>> {
    if 0 < trimmed(s).len() <= MAX_NAME_LEN {
        Some(printable(trimmed(s)))
    } else {
        None
    }
}

/// A room code: six decimal digits.
pub open spec fn is_room_code(s: Seq<char>) -> bool {
    s.len() == 6 && forall|i: int| 0 <= i < s.len() ==> is_decimal(#[trigger] s[i])
}

/// The form in which a room code is kept: without white space around it. Anything
/// but six decimal digits is refused.
pub open spec fn clean_room_code(s: Seq<char>) -> Option<Seq<char>> {
    if is_room_code(trimmed(s)) {
        Some(trimmed(s))
    } else {
        None
    }
}

/// A client shows at least one cat and at most [`MAX_CATS`].
pub open spec fn cats_ok(cats: Seq<CatStyle>) -> bool {
    0 < cats.len() <= MAX_CATS
}

/// A drawn cat lies on the desktop and shows a cell of the sprite sheet.
pub open spec fn render_ok(r: CatRenderSnapshot) -> bool {
    r.x.in_unit() && r.y.in_unit() && r.sprite_x < SHEET_COLUMNS && r.sprite_y < SHEET_ROWS
}

/// There is one drawing for each cat, and every one is in order.
pub open spec fn renders_ok(renders: Seq<CatRenderSnapshot>, cat_count: nat) -> bool {
    renders.len() == cat_count && forall|i: int|
        0 <= i < renders.len() ==> render_ok(#[trigger] renders[i])
}

/// Cleans a display name.
pub fn sanitize_name(name: &str) -> (r: Option<String>)
    ensures
        r.deep_view() == clean_name(name@),
{
    let rest = name.trim();
    let mut kept = String::new();
    let mut count: usize = 0;
    let ghost keep = |c: char| !is_control(c);
    proof {
        assert(rest@.take(0) =~= Seq::empty());
        reveal(Seq::filter);
        assert(kept@ =~= rest@.take(0).filter(keep));
    }
    for c in chars: rest.chars()
        invariant
            chars.seq() == rest@,
            rest@ == trimmed(name@),
            keep == (|c: char| !is_control(c)),
            count == chars.index(),
            count <= MAX_NAME_LEN,
            kept@ == rest@.take(chars.index() as int).filter(keep),
    {
        proof {
            let done = rest@.take(chars.index() as int);
            assert(rest@.take(chars.index() as int + 1) =~= done.push(c));
            lemma_filter_push(done, c, keep);
        }
        if count == MAX_NAME_LEN {
            return None;
        }
        count += 1;
        let u: u32 = c as u32;
        let control = u < 0x20 || (0x7f <= u && u <= 0x9f);
        if !control {
            kept.push(c);
        }
    }
    assert(rest@.take(rest@.len() as int) =~= rest@);
    if count == 0 {
        None
    } else {
        Some(kept)
    }
}

/// Cleans a room code.
pub fn sanitize_room_code(code: &str) -> (r: Option<String>)
    ensures
        r.deep_view() == clean_room_code(code@),
{
    let rest = code.trim();
    let mut kept = String::new();
    let mut count: usize = 0;
    for c in chars: rest.chars()
        invariant
            chars.seq() == rest@,
            rest@ == trimmed(code@),
            count == chars.index(),
            count <= 6,
            kept@ == rest@.take(chars.index() as int),
            forall|i: int| 0 <= i < count ==> is_decimal(#[trigger] rest@[i]),
    {
        let u: u32 = c as u32;
        let decimal = 48 <= u && u <= 57;
        assert(rest@[chars.index() as int] == c);
        if count == 6 || !decimal {
            return None;
        }
        kept.push(c);
        count += 1;
        assert(kept@ =~= rest@.take(chars.index() as int + 1));
    }
    assert(rest@.take(rest@.len() as int) =~= rest@);
    if count == 6 {
        Some(kept)
    } else {
        None
    }
}

/// Checks how many cats a client shows.
pub fn sanitize_cats(cats: Vec<CatStyle>) -> (r: Option<Vec<CatStyle>>)
    ensures
        r == (if cats_ok(cats@) {
            Some(cats)
        } else {
            None
        }),
{
    if cats.len() == 0 || cats.len() > MAX_CATS {
        return None;
    }
    Some(cats)
}

/// Checks that a cursor lies on the desktop.
pub fn sanitize_cursor(x: Coord, y: Coord) -> (r: Option<(Coord, Coord)>)
    ensures
        r == (if x.in_unit() && y.in_unit() {
            Some((x, y))
        } else {
            None
        }),
{
    if x.is_in_unit() && y.is_in_unit() {
        Some((x, y))
    } else {
        None
    }
}

/// Checks the drawings of a client's cats.
pub fn sanitize_renders(renders: Vec<CatRenderSnapshot>, cat_count: usize) -> (r: Option<
    Vec<CatRenderSnapshot>,
>)
    ensures
        r == (if renders_ok(renders@, cat_count as nat) {
            Some(renders)
        } else {
            None
        }),
{
    if renders.len() != cat_count {
        return None;
    }
    let mut i: usize = 0;
    while i < renders.len()
        invariant
            i <= renders@.len(),
            renders@.len() == cat_count,
            forall|j: int| 0 <= j < i ==> render_ok(#[trigger] renders@[j]),
        decreases renders@.len() - i,
    {
        let render = renders[i];
        let valid = render.x.is_in_unit() && render.y.is_in_unit() && render.sprite_x
            < SHEET_COLUMNS && render.sprite_y < SHEET_ROWS;
        if !valid {
            assert(!render_ok(renders@[i as int]));
            return None;
        }
        i += 1;
    }
    Some(renders)
}

} // verus!
