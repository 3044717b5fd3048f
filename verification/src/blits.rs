//! Sprites and text laid over the screen.

use crate::colour::SPACE;
use crate::engine::{ConsoleGameEngine, EngineView};
use crate::grid::Cell;
use crate::sprite::{blit, blit_part, Sprite};
use crate::text::text_layer;
use vstd::prelude::*;
use vstd::utf8::encode_utf8;

verus! {

impl ConsoleGameEngine {
    /// Lays a window of `sprite` over the screen.
    fn blit_window(
        &mut self,
        x: i128,
        y: i128,
        fx: i128,
        fy: i128,
        fw: i128,
        fh: i128,
        sprite: &Sprite,
        alpha: bool,
    )
        requires
            -0x1_0000_0000_0000_0000_0000 <= x <= 0x1_0000_0000_0000_0000_0000,
            -0x1_0000_0000_0000_0000_0000 <= y <= 0x1_0000_0000_0000_0000_0000,
            -0x1_0000_0000_0000_0000_0000 <= fx <= 0x1_0000_0000_0000_0000_0000,
            -0x1_0000_0000_0000_0000_0000 <= fy <= 0x1_0000_0000_0000_0000_0000,
            fw <= 0x1_0000_0000_0000_0000_0000,
            fh <= 0x1_0000_0000_0000_0000_0000,
        ensures
            final(self)@ == (EngineView {
                screen: old(self)@.screen.overlay(
                    blit(sprite@, x as int, y as int, fx as int, fy as int, fw as int, fh as int, alpha),
                ),
                ..old(self)@
            }),
    {
        let ghost before = self@.screen;
        let ghost s = sprite@;
        let mut i: i128 = 0;
        proof {
            assert(before.overlay(
                blit_part(s, x as int, y as int, fx as int, fy as int, fh as int, alpha, 0, 0),
            ).cells =~= before.cells);
        }
        while i < fw
            invariant
                0 <= i,
                fw <= 0 || i <= fw,
                fw <= 0 ==> i == 0,
                -0x1_0000_0000_0000_0000_0000 <= x <= 0x1_0000_0000_0000_0000_0000,
                -0x1_0000_0000_0000_0000_0000 <= y <= 0x1_0000_0000_0000_0000_0000,
                -0x1_0000_0000_0000_0000_0000 <= fx <= 0x1_0000_0000_0000_0000_0000,
                -0x1_0000_0000_0000_0000_0000 <= fy <= 0x1_0000_0000_0000_0000_0000,
                fw <= 0x1_0000_0000_0000_0000_0000,
                fh <= 0x1_0000_0000_0000_0000_0000,
                s == sprite@,
                self@ == (EngineView {
                    screen: before.overlay(
                        blit_part(s, x as int, y as int, fx as int, fy as int, fh as int, alpha, i as int, 0),
                    ),
                    ..old(self)@
                }),
            decreases fw - i,
        {
            let mut j: i128 = 0;
            while j < fh
                invariant
                    0 <= i < fw,
                    0 <= j,
                    fh <= 0 || j <= fh,
                    -0x1_0000_0000_0000_0000_0000 <= x <= 0x1_0000_0000_0000_0000_0000,
                    -0x1_0000_0000_0000_0000_0000 <= y <= 0x1_0000_0000_0000_0000_0000,
                    -0x1_0000_0000_0000_0000_0000 <= fx <= 0x1_0000_0000_0000_0000_0000,
                    -0x1_0000_0000_0000_0000_0000 <= fy <= 0x1_0000_0000_0000_0000_0000,
                    fw <= 0x1_0000_0000_0000_0000_0000,
                    fh <= 0x1_0000_0000_0000_0000_0000,
                    s == sprite@,
                    self@ == (EngineView {
                        screen: before.overlay(
                            blit_part(
                                s,
                                x as int,
                                y as int,
                                fx as int,
                                fy as int,
                                fh as int,
                                alpha,
                                i as int,
                                j as int,
                            ),
                        ),
                        ..old(self)@
                    }),
                decreases fh - j,
            {
                let ghost part = blit_part(
                    s,
                    x as int,
                    y as int,
                    fx as int,
                    fy as int,
                    fh as int,
                    alpha,
                    i as int,
                    j as int,
                );
                let ghost more = blit_part(
                    s,
                    x as int,
                    y as int,
                    fx as int,
                    fy as int,
                    fh as int,
                    alpha,
                    i as int,
                    j + 1,
                );
                let glyph = sprite.glyph_at(fx + i, fy + j);
                if !alpha || glyph != SPACE {
                    let cell = Cell { glyph, attributes: sprite.colour_at(fx + i, fy + j) };
                    self.plot(x + i, y + j, cell);
                    proof {
                        let one = map![(x + i, y + j) => cell];
                        before.lemma_overlay_twice(part, one);
                        assert(part.union_prefer_right(one) =~= more);
                    }
                } else {
                    assert(part =~= more);
                }
                j = j + 1;
            }
            proof {
                assert(blit_part(
                    s,
                    x as int,
                    y as int,
                    fx as int,
                    fy as int,
                    fh as int,
                    alpha,
                    i as int,
                    j as int,
                ) =~= blit_part(s, x as int, y as int, fx as int, fy as int, fh as int, alpha, i + 1, 0));
            }
            i = i + 1;
        }
        proof {
            assert(blit_part(s, x as int, y as int, fx as int, fy as int, fh as int, alpha, i as int, 0)
                =~= blit(s, x as int, y as int, fx as int, fy as int, fw as int, fh as int, alpha));
        }
    }

    /// Lays `sprite` over the screen with its top left corner at `(x, y)`:
    /// the cell at `(i, j)` of the sprite lands at `(x + i, y + j)`. With
    /// `alpha`, cells whose glyph is a space are left out.
    pub fn draw_sprite(&mut self, x: i32, y: i32, sprite: &Sprite, alpha: bool)
        ensures
            final(self)@ == (EngineView {
                screen: old(self)@.screen.overlay(
                    blit(
                        sprite@,
                        x as int,
                        y as int,
                        0,
                        0,
                        sprite@.width as int,
                        sprite@.height as int,
                        alpha,
                    ),
                ),
                ..old(self)@
            }),
    {
        let width = sprite.width();
        let height = sprite.height();
        self.blit_window(x as i128, y as i128, 0, 0, width as i128, height as i128, sprite, alpha);
    }

    /// Lays the window `fw` by `fh` that starts at `(fx, fy)` of `sprite`
    /// over the screen at `(x, y)`. A window wider or higher than the
    /// sprite draws nothing.
    pub fn draw_partial_sprite(
        &mut self,
        x: i32,
        y: i32,
        fx: i32,
        fy: i32,
        fw: i32,
        fh: i32,
        sprite: &Sprite,
        alpha: bool,
    )
        ensures
            final(self)@ == (if fw > sprite@.width || fh > sprite@.height {
                old(self)@
            } else {
                EngineView {
                    screen: old(self)@.screen.overlay(
                        blit(
                            sprite@,
                            x as int,
                            y as int,
                            fx as int,
                            fy as int,
                            fw as int,
                            fh as int,
                            alpha,
                        ),
                    ),
                    ..old(self)@
                }
            }),
    {
        if fw as i128 > sprite.width() as i128 || fh as i128 > sprite.height() as i128 {
            return ;
        }
        self.blit_window(
            x as i128,
            y as i128,
            fx as i128,
            fy as i128,
            fw as i128,
            fh as i128,
            sprite,
            alpha,
        );
    }

    /// Draws the bytes of `text` as glyphs along row `y` from column `x`
    /// on, all with the attribute `col`. The text does not wrap; what
    /// falls off the screen is dropped.
    pub fn draw_string(&mut self, x: i32, y: i32, text: String, col: u16)
        ensures
            final(self)@ == (EngineView {
                screen: old(self)@.screen.overlay(
                    text_layer(
                        encode_utf8(text@),
                        x as int,
                        y as int,
                        col,
                        encode_utf8(text@).len() as int,
                    ),
                ),
                ..old(self)@
            }),
    {
        let ghost before = self@.screen;
        let data = text.as_str().as_bytes();
        let mut i: usize = 0;
        proof {
            assert(before.overlay(text_layer(data@, x as int, y as int, col, 0)).cells =~= before.cells);
        }
        while i < data.len()
            invariant
                i <= data.len(),
                data@ == encode_utf8(text@),
                self@ == (EngineView {
                    screen: before.overlay(text_layer(data@, x as int, y as int, col, i as int)),
                    ..old(self)@
                }),
            decreases data.len() - i,
        {
            let ghost part = text_layer(data@, x as int, y as int, col, i as int);
            let cell = Cell { glyph: data[i] as u16, attributes: col };
            self.plot(x as i128 + i as i128, y as i128, cell);
            proof {
                let one = map![(x + i, y as int) => cell];
                before.lemma_overlay_twice(part, one);
                assert(part.union_prefer_right(one) =~= text_layer(
                    data@,
                    x as int,
                    y as int,
                    col,
                    i + 1,
                ));
            }
            i = i + 1;
        }
    }
}

} // verus!
