//! Characters, numerals and UTF-16: the text work that the rest of the library
//! leans on.

use vstd::prelude::*;

verus! {

/// The characters with the Unicode property `White_Space`.
pub open spec fn is_white_space(c: char) -> bool {
    let u = c as u32;
    ||| 0x9 <= u <= 0xd
    ||| u == 0x20
    ||| u == 0x85
    ||| u == 0xa0
    ||| u == 0x1680
    ||| 0x2000 <= u <= 0x200a
    ||| u == 0x2028
    ||| u == 0x2029
    ||| u == 0x202f
    ||| u == 0x205f
    ||| u == 0x3000
}

/// `s` without the white space in front of it.
pub open spec fn trimmed_front(s: Seq<char>) -> Seq<char>
    decreases s.len(),
{
    if s.len() > 0 && is_white_space(s[0]) {
        trimmed_front(s.drop_first())
    } else {
        s
    }
}

/// `s` without the white space behind it.
pub open spec fn trimmed_back(s: Seq<char>) -> Seq<char>
    decreases s.len(),
{
    if s.len() > 0 && is_white_space(s.last()) {
        trimmed_back(s.drop_last())
    } else {
        s
    }
}

/// `s` without the white space around it.
pub open spec fn trimmed(s: Seq<char>) -> Seq<char> {
    trimmed_back(trimmed_front(s))
}

/// `str::trim` of the standard library: the part of the string that is left when
/// the leading and the trailing characters with the Unicode property
/// `White_Space` are taken away.
pub assume_specification[ str::trim ](s: &str) -> (r: &str)
    ensures
        r@ == trimmed(s@),
;

/// `String::push` of the standard library: one character is appended.
pub assume_specification[ String::push ](s: &mut String, c: char)
    ensures
        final(s)@ == old(s)@.push(c),
;

/// Whether two string slices hold the same characters.
pub fn same_text(a: &str, b: &str) -> (r: bool)
    ensures
        r == (a@ == b@),
{
    a.to_owned() == b.to_owned()
}

/// The digit that stands for `d`: `0` to `9`, then `a` to `f`.
pub open spec fn digit(d: nat) -> char {
    if d < 10 {
        (48 + d) as char
    } else {
        (87 + d) as char
    }
}

/// `n` written in the given base, without leading zeros.
pub open spec fn numeral(n: nat, base: nat) -> Seq<char>
    decreases n,
{
    if base < 2 || n < base {
        seq![digit(n)]
    } else {
        proof {
            assert(n / base < n) by (nonlinear_arith)
                requires
                    n >= base,
                    base >= 2,
            ;
        }
        numeral(n / base, base).push(digit(n % base))
    }
}

/// Writes `n` in a base from 2 to 16.
pub fn write_numeral(n: u128, base: u128) -> (r: String)
    requires
        2 <= base <= 16,
    ensures
        r@ == numeral(n as nat, base as nat),
    decreases n,
{
    if n < base {
        let mut out = String::new();
        out.push(write_digit(n as u8));
        assert(out@ =~= seq![digit(n as nat)]);
        out
    } else {
        assert(n / base < n) by (nonlinear_arith)
            requires
                n >= base,
                base >= 2,
        ;
        let mut out = write_numeral(n / base, base);
        out.push(write_digit((n % base) as u8));
        out
    }
}

/// The digit that stands for a number below 16.
pub fn write_digit(d: u8) -> (c: char)
    requires
        d < 16,
    ensures
        c == digit(d as nat),
{
    if d < 10 {
        (48 + d) as char
    } else {
        (87 + d) as char
    }
}

/// The last six decimal digits of `n`, with zeros in front where it has fewer.
#[verifier::opaque]
pub open spec fn six_digits(n: nat) -> Seq<char> {
    seq![
        digit(n / 100000 % 10),
        digit(n / 10000 % 10),
        digit(n / 1000 % 10),
        digit(n / 100 % 10),
        digit(n / 10 % 10),
        digit(n % 10),
    ]
}

/// Writes the last six decimal digits of `n`.
pub fn write_six_digits(n: u64) -> (r: String)
    ensures
        r@ == six_digits(n as nat),
{
    let mut out = String::new();
    out.push(write_digit((n / 100000 % 10) as u8));
    out.push(write_digit((n / 10000 % 10) as u8));
    out.push(write_digit((n / 1000 % 10) as u8));
    out.push(write_digit((n / 100 % 10) as u8));
    out.push(write_digit((n / 10 % 10) as u8));
    out.push(write_digit((n % 10) as u8));
    proof {
        reveal(six_digits);
        assert(out@ =~= six_digits(n as nat));
    }
    out
}

/// Whether `c` is one of the ten decimal digits of ASCII.
pub open spec fn is_decimal(c: char) -> bool {
    48 <= c as u32 <= 57
}

/// The control characters: those of the Unicode category `Cc`.
pub open spec fn is_control(c: char) -> bool {
    (c as u32) < 0x20 || 0x7f <= c as u32 <= 0x9f
}

/// The UTF-16 code units of one character.
pub open spec fn utf16_units(c: char) -> Seq<u16> {
    let u = c as u32;
    if u < 0x10000 {
        seq![u as u16]
    } else {
        seq![(0xd800 + (u - 0x10000) / 0x400) as u16, (0xdc00 + (u - 0x10000) % 0x400) as u16]
    }
}

/// The UTF-16 encoding of a text.
pub open spec fn utf16(s: Seq<char>) -> Seq<u16>
    decreases s.len(),
{
    if s.len() == 0 {
        Seq::empty()
    } else {
        utf16(s.drop_last()) + utf16_units(s.last())
    }
}

/// Encodes a string as UTF-16.
pub fn encode_utf16(s: &str) -> (r: Vec<u16>)
    ensures
        r@ == utf16(s@),
{
    let mut units: Vec<u16> = Vec::new();
    for c in chars: s.chars()
        invariant
            chars.seq() == s@,
            units@ == utf16(s@.take(chars.index() as int)),
    {
        let ghost done = s@.take(chars.index() as int);
        let ghost more = s@.take(chars.index() as int + 1);
        proof {
            assert(more.drop_last() =~= done);
            assert(more.last() == c);
        }
        let u: u32 = c as u32;
        if u < 0x10000 {
            units.push(u as u16);
        } else {
            let above: u32 = u - 0x10000;
            units.push((0xd800 + above / 0x400) as u16);
            units.push((0xdc00 + above % 0x400) as u16);
        }
        assert(units@ =~= utf16(more));
    }
    assert(s@.take(s@.len() as int) =~= s@);
    units
}

/// The text of a menu entry as the shell takes it: UTF-16 with a closing zero.
pub fn menu_text(s: &str) -> (r: Vec<u16>)
    ensures
        r@ == utf16(s@).push(0),
{
    let mut units = encode_utf16(s);
    units.push(0);
    units
}

/// How many code units of a text fit into a buffer, leaving room for the closing
/// zero.
pub open spec fn tip_len(units: nat, room: nat) -> nat {
    if units < room {
        units
    } else {
        (room - 1) as nat
    }
}

/// Writes a text into a fixed buffer as UTF-16: as many code units as fit, then a
/// zero. What stands behind the zero is left as it was.
pub fn fill_tip(buf: &mut [u16], s: &str)
    requires
        old(buf)@.len() > 0,
    ensures
        ({
            let n = tip_len(utf16(s@).len(), old(buf)@.len()) as int;
            final(buf)@ == utf16(s@).take(n).push(0) + old(buf)@.skip(n + 1)
        }),
{
    let units = encode_utf16(s);
    let room: usize = buf.len() - 1;
    let n: usize = if units.len() < room {
        units.len()
    } else {
        room
    };
    let mut i: usize = 0;
    while i < n
        invariant
            i <= n,
            n <= units@.len(),
            n < old(buf)@.len(),
            buf@ == units@.take(i as int) + old(buf)@.skip(i as int),
        decreases n - i,
    {
        buf[i] = units[i];
        i += 1;
        assert(buf@ =~= units@.take(i as int) + old(buf)@.skip(i as int));
    }
    buf[n] = 0;
    assert(buf@ =~= units@.take(n as int).push(0) + old(buf)@.skip(n + 1));
}

} // verus!
