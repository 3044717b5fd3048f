//! Text as the display takes it: UTF-16 code units.

use crate::grid::Cell;
use vstd::prelude::*;
use vstd::slice::SliceAdditionalExecFns;

verus! {

/// What drawing the first `upto` bytes of a text lays over the screen:
/// byte `i` as a glyph at `(x + i, y)`, all with the attribute `col`.
pub open spec fn text_layer(bytes: Seq<u8>, x: int, y: int, col: u16, upto: int) -> Map<
    (int, int),
    Cell,
> {
    Map::new(
        |p: (int, int)| p.1 == y && 0 <= p.0 - x < upto,
        |p: (int, int)| Cell { glyph: bytes[p.0 - x] as u16, attributes: col },
    )
}

/// The UTF-16 code units of one character: the character itself below
/// `0x10000`, a high and a low surrogate from there on.
pub open spec fn utf16_units(c: char) -> Seq<u16> {
    let v = c as u32;
    if v < 0x10000 {
        seq![v as u16]
    } else {
        seq![(0xD800 + (v - 0x10000) / 0x400) as u16, (0xDC00 + (v - 0x10000) % 0x400) as u16]
    }
}

/// The UTF-16 encoding of a text.
pub open spec fn utf16(s: Seq<char>) -> Seq<u16>
    decreases s.len(),
{
    if s.len() == 0 {
        Seq::empty()
    } else {
        utf16(s.drop_last()) + utf16_units(s.last())
    }
}

/// Encodes a text as UTF-16.
pub fn encode_utf16(text: &str) -> (units: Vec<u16>)
    ensures
        units@ == utf16(text@),
{
    let mut units: Vec<u16> = Vec::new();
    for c in it: text.chars()
        invariant
            it.seq() == text@,
            units@ == utf16(text@.take(it.index() as int)),
    {
        proof {
            let n = it.index();
            assert(text@.take(n + 1).drop_last() =~= text@.take(n));
            assert(text@.take(n + 1).last() == c);
        }
        let v = c as u32;
        if v < 0x10000 {
            units.push(v as u16);
        } else {
            units.push((0xD800 + (v - 0x10000) / 0x400) as u16);
            units.push((0xDC00 + (v - 0x10000) % 0x400) as u16);
        }
    }
    assert(text@.take(text@.len() as int) =~= text@);
    units
}

/// What a buffer that held `before` holds once the first `count` units of
/// `text` and its terminating zero are written over its start.
pub open spec fn overwritten(before: Seq<u16>, text: Seq<char>, count: int) -> Seq<u16> {
    let units = utf16(text).push(0);
    let n = if count < units.len() {
        count
    } else {
        units.len() as int
    };
    units.take(n) + before.skip(n)
}

/// Writes `string` into `bytes` as UTF-16 with a terminating zero, but no
/// more than `bytes_count` units of it; the rest of `bytes` is left alone.
pub fn write_with_u16bytes(string: String, bytes: &mut [u16], bytes_count: usize)
    requires
        bytes_count <= old(bytes)@.len() || utf16(string@).len() + 1 <= old(bytes)@.len(),
    ensures
        final(bytes)@ == overwritten(old(bytes)@, string@, bytes_count as int),
{
    let mut buf = encode_utf16(string.as_str());
    buf.push(0);
    let n = if bytes_count < buf.len() {
        bytes_count
    } else {
        buf.len()
    };
    let mut i: usize = 0;
    while i < n
        invariant
            i <= n <= buf.len(),
            n <= bytes@.len(),
            bytes@.len() == old(bytes)@.len(),
            bytes@ == buf@.take(i as int) + old(bytes)@.skip(i as int),
        decreases n - i,
    {
        bytes[i] = buf[i];
        i = i + 1;
        assert(bytes@ =~= buf@.take(i as int) + old(bytes)@.skip(i as int));
    }
}

} // verus!
