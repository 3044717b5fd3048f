//! Sprites: small rasters of glyphs and colours, and their binary form.
//!
//! The binary form is big-endian and has no header: the width and the
//! height as 4-byte signed integers, then one 2-byte unsigned integer per
//! glyph, row by row, then one per colour.

use crate::colour::{BLACK, SOLID, SPACE};
use crate::grid::Cell;
use vstd::prelude::*;

verus! {

/// Why bytes could not be read as a sprite, or a sprite not written.
#[derive(Clone, Copy, Debug, PartialEq, Eq, Structural)]
pub enum SpriteError {
    /// The bytes end before the sprite does.
    Truncated,
    /// The width or the height is negative.
    NegativeSize,
    /// The width or the height does not fit the 4-byte signed field, or
    /// the binary form would be longer than memory can hold.
    TooLarge,
}

/// The mathematical model of a sprite: `glyphs` and `colours` in row-major
/// order.
pub struct SpriteView {
    pub width: nat,
    pub height: nat,
    pub glyphs: Seq<u16>,
    pub colours: Seq<u16>,
}

/// The two bytes of `v`, high byte first.
pub open spec fn be16(v: u16) -> Seq<u8> {
    seq![(v / 0x100) as u8, (v % 0x100) as u8]
}

/// The unsigned number that two bytes stand for, high byte first.
pub open spec fn word(hi: u8, lo: u8) -> u16 {
    (hi * 0x100 + lo) as u16
}

/// The four bytes of a number from 0 to `0x7fff_ffff`, high byte first.
pub open spec fn be32(v: int) -> Seq<u8> {
    seq![
        (v / 0x100_0000) as u8,
        (v / 0x1_0000 % 0x100) as u8,
        (v / 0x100 % 0x100) as u8,
        (v % 0x100) as u8,
    ]
}

/// The signed number that the four bytes at `at` stand for, high byte
/// first, in two's complement.
pub open spec fn int32_at(bytes: Seq<u8>, at: int) -> int {
    let u = bytes[at] * 0x100_0000 + bytes[at + 1] * 0x1_0000 + bytes[at + 2] * 0x100 + bytes[at + 3];
    if u >= 0x8000_0000 {
        u - 0x1_0000_0000
    } else {
        u
    }
}

/// The bytes of a sequence of words, two per word, high byte first.
pub open spec fn be16s(words: Seq<u16>) -> Seq<u8> {
    Seq::new(
        2 * words.len(),
        |i: int|
            if i % 2 == 0 {
                (words[i / 2] / 0x100) as u8
            } else {
                (words[i / 2] % 0x100) as u8
            },
    )
}

/// The `count` words that start at byte `at`.
pub open spec fn words_at(bytes: Seq<u8>, at: int, count: int) -> Seq<u16> {
    Seq::new(count as nat, |i: int| word(bytes[at + 2 * i], bytes[at + 2 * i + 1]))
}

impl SpriteView {
    /// There is one glyph and one colour for every position.
    pub open spec fn wf(self) -> bool {
        &&& self.glyphs.len() == self.width * self.height
        &&& self.colours.len() == self.width * self.height
    }

    /// Whether `(x, y)` names a position of the sprite.
    pub open spec fn contains(self, x: int, y: int) -> bool {
        0 <= x < self.width && 0 <= y < self.height
    }

    /// The glyph at `(x, y)`, and the solid glyph outside the sprite.
    pub open spec fn glyph_at(self, x: int, y: int) -> u16 {
        if self.contains(x, y) {
            self.glyphs[y * self.width + x]
        } else {
            SOLID
        }
    }

    /// The colour at `(x, y)`, and black outside the sprite.
    pub open spec fn colour_at(self, x: int, y: int) -> u16 {
        if self.contains(x, y) {
            self.colours[y * self.width + x]
        } else {
            BLACK
        }
    }

    /// The sprite with the glyph at `(x, y)` replaced, unchanged if
    /// `(x, y)` lies outside it.
    pub open spec fn with_glyph(self, x: int, y: int, glyph: u16) -> SpriteView {
        if self.contains(x, y) {
            SpriteView { glyphs: self.glyphs.update(y * self.width + x, glyph), ..self }
        } else {
            self
        }
    }

    /// The sprite with the colour at `(x, y)` replaced, unchanged if
    /// `(x, y)` lies outside it.
    pub open spec fn with_colour(self, x: int, y: int, colour: u16) -> SpriteView {
        if self.contains(x, y) {
            SpriteView { colours: self.colours.update(y * self.width + x, colour), ..self }
        } else {
            self
        }
    }

    /// A sprite of the given size with every glyph solid and every colour
    /// black.
    pub open spec fn blank(width: nat, height: nat) -> SpriteView {
        SpriteView {
            width,
            height,
            glyphs: Seq::new(width * height, |i: int| SOLID),
            colours: Seq::new(width * height, |i: int| BLACK),
        }
    }

    /// Whether the width and the height fit their fields in the binary
    /// form.
    pub open spec fn encodable(self) -> bool {
        self.width <= 0x7fff_ffff && self.height <= 0x7fff_ffff
    }

    /// The length of the binary form.
    pub open spec fn encoded_len(self) -> nat {
        8 + 4 * (self.width * self.height)
    }

    /// The binary form.
    pub open spec fn encoding(self) -> Seq<u8> {
        be32(self.width as int) + be32(self.height as int) + be16s(self.glyphs) + be16s(self.colours)
    }
}

/// The sprite that `bytes` begin with. Bytes behind it are ignored.
pub open spec fn decoding(bytes: Seq<u8>) -> Result<SpriteView, SpriteError> {
    if bytes.len() < 8 {
        Err(SpriteError::Truncated)
    } else {
        let width = int32_at(bytes, 0);
        let height = int32_at(bytes, 4);
        if width < 0 || height < 0 {
            Err(SpriteError::NegativeSize)
        } else if bytes.len() < 8 + 4 * (width * height) {
            Err(SpriteError::Truncated)
        } else {
            Ok(
                SpriteView {
                    width: width as nat,
                    height: height as nat,
                    glyphs: words_at(bytes, 8, width * height),
                    colours: words_at(bytes, 8 + 2 * (width * height), width * height),
                },
            )
        }
    }
}

/// The cell that a sprite shows at `(x, y)`.
pub open spec fn sprite_cell(sprite: SpriteView, x: int, y: int) -> Cell {
    Cell { glyph: sprite.glyph_at(x, y), attributes: sprite.colour_at(x, y) }
}

/// A part of what a blit lays over the screen: the columns of the window
/// before `cols` in full, and the first `rows` rows of column `cols`.
///
/// The window is `fh` rows high, starts at `(fx, fy)` in the sprite and
/// lands at `(x, y)` on the screen. With `alpha`, a cell whose glyph is a
/// space is left out; every other cell is there, also one read from
/// outside the sprite.
pub open spec fn blit_part(
    sprite: SpriteView,
    x: int,
    y: int,
    fx: int,
    fy: int,
    fh: int,
    alpha: bool,
    cols: int,
    rows: int,
) -> Map<(int, int), Cell> {
    Map::new(
        |p: (int, int)|
            {
                let i = p.0 - x;
                let j = p.1 - y;
                &&& 0 <= j < fh
                &&& (0 <= i < cols || (i == cols && j < rows))
                &&& (!alpha || sprite.glyph_at(fx + i, fy + j) != SPACE)
            },
        |p: (int, int)| sprite_cell(sprite, fx + p.0 - x, fy + p.1 - y),
    )
}

/// What a blit of the window `fw` by `fh` at `(fx, fy)` of `sprite` lays
/// over the screen at `(x, y)`.
pub open spec fn blit(
    sprite: SpriteView,
    x: int,
    y: int,
    fx: int,
    fy: int,
    fw: int,
    fh: int,
    alpha: bool,
) -> Map<(int, int), Cell> {
    blit_part(sprite, x, y, fx, fy, fh, alpha, fw, 0)
}

/// Reading the four bytes of a number gives the number back.
pub proof fn lemma_be32_round_trip(v: int, bytes: Seq<u8>, at: int)
    requires
        0 <= v <= 0x7fff_ffff,
        0 <= at,
        at + 4 <= bytes.len(),
        bytes.subrange(at, at + 4) == be32(v),
    ensures
        int32_at(bytes, at) == v,
{
    let b = be32(v);
    assert(bytes[at] == bytes.subrange(at, at + 4)[0]);
    assert(bytes[at + 1] == bytes.subrange(at, at + 4)[1]);
    assert(bytes[at + 2] == bytes.subrange(at, at + 4)[2]);
    assert(bytes[at + 3] == bytes.subrange(at, at + 4)[3]);
    assert(b[0] == v / 0x100_0000);
    assert(b[1] == v / 0x1_0000 % 0x100);
    assert(b[2] == v / 0x100 % 0x100);
    assert(b[3] == v % 0x100);
}

/// Reading the bytes of a sequence of words gives the words back.
pub proof fn lemma_be16s_round_trip(words: Seq<u16>, bytes: Seq<u8>, at: int)
    requires
        0 <= at,
        at + 2 * words.len() <= bytes.len(),
        bytes.subrange(at, at + 2 * words.len()) == be16s(words),
    ensures
        words_at(bytes, at, words.len() as int) == words,
{
    let part = bytes.subrange(at, at + 2 * words.len());
    assert forall|i: int| 0 <= i < words.len() implies #[trigger] words_at(
        bytes,
        at,
        words.len() as int,
    )[i] == words[i] by {
        assert(bytes[at + 2 * i] == part[2 * i]);
        assert(bytes[at + 2 * i + 1] == part[2 * i + 1]);
        assert(part[2 * i] == (words[i] / 0x100) as u8);
        assert(part[2 * i + 1] == (words[i] % 0x100) as u8);
    }
    assert(words_at(bytes, at, words.len() as int) =~= words);
}

/// Writing a sprite and reading it back gives the same sprite: the same
/// width and height and the same two buffers. This holds for every sprite
/// whose sizes fit their fields, the empty one included, and whatever
/// bytes follow the binary form.
pub proof fn lemma_sprite_round_trip(sprite: SpriteView, rest: Seq<u8>)
    requires
        sprite.wf(),
        sprite.encodable(),
    ensures
        decoding(sprite.encoding() + rest) == Ok::<SpriteView, SpriteError>(sprite),
        decoding(sprite.encoding()) == Ok::<SpriteView, SpriteError>(sprite),
    decreases rest.len(),
{
    let n: int = (sprite.width * sprite.height) as int;
    let bytes = sprite.encoding() + rest;
    assert(bytes.subrange(0, 4) =~= be32(sprite.width as int));
    assert(bytes.subrange(4, 8) =~= be32(sprite.height as int));
    assert(bytes.subrange(8, 8 + 2 * n) =~= be16s(sprite.glyphs));
    assert(bytes.subrange(8 + 2 * n, 8 + 2 * n + 2 * n) =~= be16s(sprite.colours));
    lemma_be32_round_trip(sprite.width as int, bytes, 0);
    lemma_be32_round_trip(sprite.height as int, bytes, 4);
    lemma_be16s_round_trip(sprite.glyphs, bytes, 8);
    lemma_be16s_round_trip(sprite.colours, bytes, 8 + 2 * n);
    if rest.len() > 0 {
        lemma_sprite_round_trip(sprite, Seq::empty());
    } else {
        assert(sprite.encoding() + rest =~= sprite.encoding());
    }
}

/// A raster of glyphs and colours.
pub struct Sprite {
    width: usize,
    height: usize,
    glyphs: Vec<u16>,
    colours: Vec<u16>,
}

impl View for Sprite {
    type V = SpriteView;

    closed spec fn view(&self) -> SpriteView {
        SpriteView {
            width: self.width as nat,
            height: self.height as nat,
            glyphs: self.glyphs@,
            colours: self.colours@,
        }
    }
}

/// Appends the four bytes of `v`, high byte first.
fn push_be32(out: &mut Vec<u8>, v: usize)
    requires
        v <= 0x7fff_ffff,
    ensures
        final(out)@ == old(out)@ + be32(v as int),
{
    out.push((v / 0x100_0000) as u8);
    out.push((v / 0x1_0000 % 0x100) as u8);
    out.push((v / 0x100 % 0x100) as u8);
    out.push((v % 0x100) as u8);
    assert(out@ =~= old(out)@ + be32(v as int));
}

/// Appends the bytes of `words`, two per word, high byte first.
fn push_be16s(out: &mut Vec<u8>, words: &Vec<u16>)
    ensures
        final(out)@ == old(out)@ + be16s(words@),
{
    let mut i: usize = 0;
    assert(out@ =~= old(out)@ + be16s(words@.take(0)));
    while i < words.len()
        invariant
            i <= words.len(),
            out@ == old(out)@ + be16s(words@.take(i as int)),
        decreases words.len() - i,
    {
        let v = words[i];
        out.push((v / 0x100) as u8);
        out.push((v % 0x100) as u8);
        i = i + 1;
        assert(out@ =~= old(out)@ + be16s(words@.take(i as int)));
    }
    assert(words@.take(words@.len() as int) =~= words@);
}

/// Reads the signed number that the four bytes at `at` stand for.
fn read_int32(bytes: &[u8], at: usize) -> (v: i64)
    requires
        at + 4 <= bytes@.len(),
    ensures
        v == int32_at(bytes@, at as int),
        -0x8000_0000 <= v <= 0x7fff_ffff,
{
    let u = (bytes[at] as i64) * 0x100_0000 + (bytes[at + 1] as i64) * 0x1_0000 + (bytes[at + 2] as i64)
        * 0x100 + (bytes[at + 3] as i64);
    if u >= 0x8000_0000 {
        u - 0x1_0000_0000
    } else {
        u
    }
}

/// Reads the `count` words that start at byte `at`.
fn read_words(bytes: &[u8], at: usize, count: usize) -> (words: Vec<u16>)
    requires
        at + 2 * count <= bytes@.len(),
    ensures
        words@ == words_at(bytes@, at as int, count as int),
{
    let mut words: Vec<u16> = Vec::new();
    let mut i: usize = 0;
    let len = bytes.len();
    while i < count
        invariant
            i <= count,
            at + 2 * count <= bytes@.len(),
            bytes@.len() == len,
            words@ == words_at(bytes@, at as int, i as int),
        decreases count - i,
    {
        let hi = bytes[at + 2 * i];
        let lo = bytes[at + 2 * i + 1];
        words.push((hi as u16) * 0x100 + (lo as u16));
        i = i + 1;
        assert(words@ =~= words_at(bytes@, at as int, i as int));
    }
    words
}

impl Sprite {
    /// There is one glyph and one colour for every position.
    #[verifier::type_invariant]
    spec fn inv(self) -> bool {
        &&& self.glyphs@.len() == self.width * self.height
        &&& self.colours@.len() == self.width * self.height
    }

    /// The empty sprite.
    pub fn new() -> (sprite: Sprite)
        ensures
            sprite@ == SpriteView::blank(0, 0),
    {
        let sprite = Sprite { width: 0, height: 0, glyphs: Vec::new(), colours: Vec::new() };
        assert(sprite@.glyphs =~= SpriteView::blank(0, 0).glyphs);
        assert(sprite@.colours =~= SpriteView::blank(0, 0).colours);
        sprite
    }

    /// A sprite of the given size, every glyph solid and every colour
    /// black.
    pub fn create(width: usize, height: usize) -> (sprite: Sprite)
        requires
            width * height <= usize::MAX,
        ensures
            sprite@ == SpriteView::blank(width as nat, height as nat),
    {
        let sprite = Sprite {
            width,
            height,
            glyphs: vec![SOLID; width * height],
            colours: vec![BLACK; width * height],
        };
        assert(sprite@.glyphs =~= SpriteView::blank(width as nat, height as nat).glyphs);
        assert(sprite@.colours =~= SpriteView::blank(width as nat, height as nat).colours);
        sprite
    }

    /// Reads a sprite from the start of `bytes` in the binary form; bytes
    /// behind it are ignored.
    ///
    /// Fewer than eight bytes, or fewer than the sizes call for, are
    /// `Truncated`; a negative width or height is `NegativeSize`.
    pub fn from_bytes(bytes: &[u8]) -> (r: Result<Sprite, SpriteError>)
        ensures
            match r {
                Ok(sprite) => decoding(bytes@) == Ok::<SpriteView, SpriteError>(sprite@),
                Err(e) => decoding(bytes@) == Err::<SpriteView, SpriteError>(e),
            },
    {
        if bytes.len() < 8 {
            return Err(SpriteError::Truncated);
        }
        let width = read_int32(bytes, 0);
        let height = read_int32(bytes, 4);
        if width < 0 || height < 0 {
            return Err(SpriteError::NegativeSize);
        }
        assert(0 <= width * height <= 0x7fff_ffff * 0x7fff_ffff) by (nonlinear_arith)
            requires
                0 <= width <= 0x7fff_ffff,
                0 <= height <= 0x7fff_ffff,
        ;
        let count = (width as u64) * (height as u64);
        let needed = 8 + 4 * count;
        if (bytes.len() as u64) < needed {
            return Err(SpriteError::Truncated);
        }
        let n = count as usize;
        let glyphs = read_words(bytes, 8, n);
        let colours = read_words(bytes, 8 + 2 * n, n);
        Ok(Sprite { width: width as usize, height: height as usize, glyphs, colours })
    }

    /// The binary form of the sprite.
    ///
    /// A width or a height above `0x7fff_ffff`, or a binary form too long
    /// for memory, is `TooLarge`.
    pub fn to_bytes(&self) -> (r: Result<Vec<u8>, SpriteError>)
        ensures
            match r {
                Ok(bytes) => self@.encodable() && bytes@ == self@.encoding() && bytes@.len()
                    == self@.encoded_len(),
                Err(e) => e == SpriteError::TooLarge && (!self@.encodable() || self@.encoded_len()
                    > usize::MAX),
            },
            self@.wf(),
    {
        proof {
            use_type_invariant(self);
        }
        if self.width > 0x7fff_ffff || self.height > 0x7fff_ffff {
            return Err(SpriteError::TooLarge);
        }
        let count = self.glyphs.len();
        if count > (usize::MAX - 8) / 4 {
            return Err(SpriteError::TooLarge);
        }
        let mut out: Vec<u8> = Vec::new();
        push_be32(&mut out, self.width);
        push_be32(&mut out, self.height);
        push_be16s(&mut out, &self.glyphs);
        push_be16s(&mut out, &self.colours);
        assert(out@ =~= self@.encoding());
        Ok(out)
    }

    /// The number of columns.
    pub fn width(&self) -> (w: usize)
        ensures
            w == self@.width,
            self@.wf(),
    {
        proof {
            use_type_invariant(self);
        }
        self.width
    }

    /// The number of rows.
    pub fn height(&self) -> (h: usize)
        ensures
            h == self@.height,
            self@.wf(),
    {
        proof {
            use_type_invariant(self);
        }
        self.height
    }

    /// The glyphs in row-major order.
    pub fn glyphs(&self) -> (glyphs: &Vec<u16>)
        ensures
            glyphs@ == self@.glyphs,
    {
        &self.glyphs
    }

    /// The colours in row-major order.
    pub fn colours(&self) -> (colours: &Vec<u16>)
        ensures
            colours@ == self@.colours,
    {
        &self.colours
    }

    /// The index of `(x, y)` in the two buffers, if it is a position of
    /// the sprite.
    fn index_of(&self, x: i128, y: i128) -> (at: Option<usize>)
        ensures
            match at {
                Some(i) => self@.contains(x as int, y as int) && i == y * self@.width + x && i
                    < self@.glyphs.len() && i < self@.colours.len(),
                None => !self@.contains(x as int, y as int),
            },
    {
        proof {
            use_type_invariant(self);
        }
        if x >= 0 && y >= 0 && x < self.width as i128 && y < self.height as i128 {
            let xi = x as usize;
            let yi = y as usize;
            assert(0 <= yi * self.width && yi * self.width + xi < self.width * self.height)
                by (nonlinear_arith)
                requires
                    xi < self.width,
                    yi < self.height,
            ;
            assert(self.width * self.height == self.glyphs.len());
            Some(yi * self.width + xi)
        } else {
            None
        }
    }

    /// Replaces the glyph at `(x, y)`; does nothing outside the sprite.
    pub fn set_glyph(&mut self, x: i32, y: i32, glyph: u16)
        ensures
            final(self)@ == old(self)@.with_glyph(x as int, y as int, glyph),
    {
        proof {
            use_type_invariant(&*self);
        }
        match self.index_of(x as i128, y as i128) {
            Some(i) => {
                self.glyphs[i] = glyph;
            },
            None => {},
        }
    }

    /// Replaces the colour at `(x, y)`; does nothing outside the sprite.
    pub fn set_colour(&mut self, x: i32, y: i32, colour: u16)
        ensures
            final(self)@ == old(self)@.with_colour(x as int, y as int, colour),
    {
        proof {
            use_type_invariant(&*self);
        }
        match self.index_of(x as i128, y as i128) {
            Some(i) => {
                self.colours[i] = colour;
            },
            None => {},
        }
    }

    /// The glyph at `(x, y)`, and the solid glyph outside the sprite.
    pub fn get_glyph(&self, x: i32, y: i32) -> (glyph: u16)
        ensures
            glyph == self@.glyph_at(x as int, y as int),
    {
        self.glyph_at(x as i128, y as i128)
    }

    /// The colour at `(x, y)`, and black outside the sprite.
    pub fn get_colour(&self, x: i32, y: i32) -> (colour: u16)
        ensures
            colour == self@.colour_at(x as int, y as int),
    {
        self.colour_at(x as i128, y as i128)
    }

    /// The glyph at a position of any size.
    pub(crate) fn glyph_at(&self, x: i128, y: i128) -> (glyph: u16)
        ensures
            glyph == self@.glyph_at(x as int, y as int),
    {
        match self.index_of(x, y) {
            Some(i) => self.glyphs[i],
            None => SOLID,
        }
    }

    /// The colour at a position of any size.
    pub(crate) fn colour_at(&self, x: i128, y: i128) -> (colour: u16)
        ensures
            colour == self@.colour_at(x as int, y as int),
    {
        match self.index_of(x, y) {
            Some(i) => self.colours[i],
            None => BLACK,
        }
    }
}

} // verus!
