//! The colour attribute and glyph conventions of a cell.
//!
//! An attribute is a 16-bit word: the low four bits pick one of sixteen
//! foreground colours, the next four one of sixteen background colours, and
//! the high byte holds line and underscore decorations. The words of the
//! three enums below are meant to be combined with `|`.

use vstd::prelude::*;
use vstd::std_specs::convert::FromSpecImpl;

verus! {

/// The sixteen foreground colours and the fifteen background colours other
/// than black. `Black` as a background is the absence of the others.
#[derive(Clone, Copy, Debug, PartialEq, Eq, Structural)]
pub enum Colour {
    Black,
    FgDarkBlue,
    FgDarkGreen,
    FgDarkCyan,
    FgDarkRed,
    FgDarkMagenta,
    FgDarkYellow,
    FgGrey,
    FgDarkGrey,
    FgBlue,
    FgGreen,
    FgCyan,
    FgRed,
    FgMagenta,
    FgYellow,
    FgWhite,
    BgDarkBlue,
    BgDarkGreen,
    BgDarkCyan,
    BgDarkRed,
    BgDarkMagenta,
    BgDarkYellow,
    BgGrey,
    BgDarkGrey,
    BgBlue,
    BgGreen,
    BgCyan,
    BgRed,
    BgMagenta,
    BgYellow,
    BgWhite,
}

impl Colour {
    /// The attribute word of a colour: a foreground colour is its index in
    /// the palette, a background colour its index times `0x10`.
    pub open spec fn word(self) -> u16 {
        match self {
            Colour::Black => 0x0000,
            Colour::FgDarkBlue => 0x0001,
            Colour::FgDarkGreen => 0x0002,
            Colour::FgDarkCyan => 0x0003,
            Colour::FgDarkRed => 0x0004,
            Colour::FgDarkMagenta => 0x0005,
            Colour::FgDarkYellow => 0x0006,
            Colour::FgGrey => 0x0007,
            Colour::FgDarkGrey => 0x0008,
            Colour::FgBlue => 0x0009,
            Colour::FgGreen => 0x000A,
            Colour::FgCyan => 0x000B,
            Colour::FgRed => 0x000C,
            Colour::FgMagenta => 0x000D,
            Colour::FgYellow => 0x000E,
            Colour::FgWhite => 0x000F,
            Colour::BgDarkBlue => 0x0010,
            Colour::BgDarkGreen => 0x0020,
            Colour::BgDarkCyan => 0x0030,
            Colour::BgDarkRed => 0x0040,
            Colour::BgDarkMagenta => 0x0050,
            Colour::BgDarkYellow => 0x0060,
            Colour::BgGrey => 0x0070,
            Colour::BgDarkGrey => 0x0080,
            Colour::BgBlue => 0x0090,
            Colour::BgGreen => 0x00A0,
            Colour::BgCyan => 0x00B0,
            Colour::BgRed => 0x00C0,
            Colour::BgMagenta => 0x00D0,
            Colour::BgYellow => 0x00E0,
            Colour::BgWhite => 0x00F0,
        }
    }
}

impl From<Colour> for u16 {
    /// The word of `value`, as [`Colour::word`] gives it.
    fn from(value: Colour) -> (word: u16) {
        match value {
            Colour::Black => 0x0000,
            Colour::FgDarkBlue => 0x0001,
            Colour::FgDarkGreen => 0x0002,
            Colour::FgDarkCyan => 0x0003,
            Colour::FgDarkRed => 0x0004,
            Colour::FgDarkMagenta => 0x0005,
            Colour::FgDarkYellow => 0x0006,
            Colour::FgGrey => 0x0007,
            Colour::FgDarkGrey => 0x0008,
            Colour::FgBlue => 0x0009,
            Colour::FgGreen => 0x000A,
            Colour::FgCyan => 0x000B,
            Colour::FgRed => 0x000C,
            Colour::FgMagenta => 0x000D,
            Colour::FgYellow => 0x000E,
            Colour::FgWhite => 0x000F,
            Colour::BgDarkBlue => 0x0010,
            Colour::BgDarkGreen => 0x0020,
            Colour::BgDarkCyan => 0x0030,
            Colour::BgDarkRed => 0x0040,
            Colour::BgDarkMagenta => 0x0050,
            Colour::BgDarkYellow => 0x0060,
            Colour::BgGrey => 0x0070,
            Colour::BgDarkGrey => 0x0080,
            Colour::BgBlue => 0x0090,
            Colour::BgGreen => 0x00A0,
            Colour::BgCyan => 0x00B0,
            Colour::BgRed => 0x00C0,
            Colour::BgMagenta => 0x00D0,
            Colour::BgYellow => 0x00E0,
            Colour::BgWhite => 0x00F0,
        }
    }
}

impl FromSpecImpl<Colour> for u16 {
    open spec fn obeys_from_spec() -> bool {
        true
    }

    open spec fn from_spec(value: Colour) -> u16 {
        value.word()
    }
}

/// The four fill-density glyphs. Any other code unit is a valid glyph too.
#[derive(Clone, Copy, Debug, PartialEq, Eq, Structural)]
pub enum Pixel {
    Solid,
    ThreeQuarters,
    Half,
    Quarter,
}

impl Pixel {
    /// The code unit of a fill-density glyph.
    pub open spec fn word(self) -> u16 {
        match self {
            Pixel::Solid => 0x2588,
            Pixel::ThreeQuarters => 0x2593,
            Pixel::Half => 0x2592,
            Pixel::Quarter => 0x2591,
        }
    }
}

impl From<Pixel> for u16 {
    /// The word of `value`, as [`Pixel::word`] gives it.
    fn from(value: Pixel) -> (word: u16) {
        match value {
            Pixel::Solid => 0x2588,
            Pixel::ThreeQuarters => 0x2593,
            Pixel::Half => 0x2592,
            Pixel::Quarter => 0x2591,
        }
    }
}

impl FromSpecImpl<Pixel> for u16 {
    open spec fn obeys_from_spec() -> bool {
        true
    }

    open spec fn from_spec(value: Pixel) -> u16 {
        value.word()
    }
}

/// The decorations of the high byte of an attribute.
#[derive(Clone, Copy, Debug, PartialEq, Eq, Structural)]
pub enum CommonLvb {
    GridHorizontal,
    GridLVertical,
    GridRVertical,
    Underscore,
}

impl CommonLvb {
    /// The attribute word of a decoration.
    pub open spec fn word(self) -> u16 {
        match self {
            CommonLvb::GridHorizontal => 0x0400,
            CommonLvb::GridLVertical => 0x0800,
            CommonLvb::GridRVertical => 0x1000,
            CommonLvb::Underscore => 0x8000,
        }
    }
}

impl From<CommonLvb> for u16 {
    /// The word of `value`, as [`CommonLvb::word`] gives it.
    fn from(value: CommonLvb) -> (word: u16) {
        match value {
            CommonLvb::GridHorizontal => 0x0400,
            CommonLvb::GridLVertical => 0x0800,
            CommonLvb::GridRVertical => 0x1000,
            CommonLvb::Underscore => 0x8000,
        }
    }
}

impl FromSpecImpl<CommonLvb> for u16 {
    open spec fn obeys_from_spec() -> bool {
        true
    }

    open spec fn from_spec(value: CommonLvb) -> u16 {
        value.word()
    }
}

/// The glyph of a blank cell, and what a sprite answers outside its bounds.
pub const SOLID: u16 = 0x2588;

/// The attribute of a blank cell, and what a sprite answers outside its
/// bounds.
pub const BLACK: u16 = 0x0000;

/// The glyph that an alpha-keyed blit treats as transparent: a space.
pub const SPACE: u16 = 0x0020;

} // verus!
