//! The engine: the screen grid, the input state machine, the frame clock
//! and the setup of the console it draws for.

use crate::clock::FrameClock;
use crate::colour::{BLACK, SOLID};
use crate::grid::{Cell, Grid, GridView};
use crate::input::{InputEvent, InputState, InputView, KeyState, BUTTONS, KEYS};
use crate::setup::{ConsoleSetup, Rcode, SetupPlan, SetupReply, SetupRequest, SetupStage};
use crate::text::{overwritten, write_with_u16bytes};
use vstd::prelude::*;

verus! {

/// What an engine holds, as plain mathematical values.
pub struct EngineView {
    pub app_name: Seq<char>,
    pub font_name: Seq<char>,
    pub screen: GridView,
    pub input: InputView,
    pub plan: SetupPlan,
    pub stage: SetupStage,
    pub clock: FrameClock,
}

/// The cell of a blank screen.
pub open spec fn blank_cell() -> Cell {
    Cell { glyph: SOLID, attributes: BLACK }
}

/// A screen of the given size with every cell blank.
pub open spec fn blank_screen(width: int, height: int) -> GridView {
    GridView {
        width: width as nat,
        height: height as nat,
        cells: Seq::new((width * height) as nat, |i: int| blank_cell()),
    }
}

/// The screen after the first `n` records of `events`: every resize
/// replaces it by a blank screen of the new size, nothing else touches it.
pub open spec fn screen_after(screen: GridView, events: Seq<InputEvent>, n: int) -> GridView
    decreases n,
{
    if n <= 0 {
        screen
    } else {
        match events[n - 1] {
            InputEvent::Resize { width, height } => blank_screen(width as int, height as int),
            _ => screen_after(screen, events, n - 1),
        }
    }
}

/// The engine's state.
pub struct ConsoleGameEngine {
    app_name: String,
    font_name: String,
    screen: Grid,
    input: InputState,
    setup: ConsoleSetup,
    clock: FrameClock,
}

impl View for ConsoleGameEngine {
    type V = EngineView;

    closed spec fn view(&self) -> EngineView {
        EngineView {
            app_name: self.app_name@,
            font_name: self.font_name@,
            screen: self.screen@,
            input: self.input@,
            plan: self.setup.plan(),
            stage: self.setup.stage(),
            clock: self.clock,
        }
    }
}

impl ConsoleGameEngine {
    /// An engine without a screen: no cells, no input seen, no setup under
    /// way, the clock at its origin.
    pub fn new() -> (engine: ConsoleGameEngine)
        ensures
            engine@ == (EngineView {
                app_name: "Undefined"@,
                font_name: "Consolas"@,
                screen: blank_screen(0, 0),
                input: InputView::idle(),
                plan: SetupPlan { screen_width: 0, screen_height: 0, font_width: 0, font_height: 0 },
                stage: SetupStage::Idle,
                clock: FrameClock { last: 0, delta: 0 },
            }),
    {
        let screen = Grid::new(0, 0, Cell { glyph: SOLID, attributes: BLACK });
        assert(screen@.cells =~= blank_screen(0, 0).cells);
        ConsoleGameEngine {
            app_name: "Undefined".to_owned(),
            font_name: "Consolas".to_owned(),
            screen,
            input: InputState::new(),
            setup: ConsoleSetup::idle(),
            clock: FrameClock::new(0),
        }
    }

    /// Starts setting a console up for a screen of `screen_width` by
    /// `screen_height` cells, each `font_width` by `font_height` pixels,
    /// under the title `title`.
    ///
    /// A dimension that is zero, or larger than a console can be asked
    /// for, ends the setup at once with `InvalidScreenSize` and leaves the
    /// engine as it was. Otherwise the engine takes the sizes and the
    /// title, and the first request is to shrink the window to the
    /// smallest one.
    pub fn construct_console(
        &mut self,
        screen_width: usize,
        screen_height: usize,
        font_width: usize,
        font_height: usize,
        title: &str,
    ) -> (request: SetupRequest)
        ensures
            ({
                let plan = SetupPlan {
                    screen_width: screen_width as int,
                    screen_height: screen_height as int,
                    font_width: font_width as int,
                    font_height: font_height as int,
                };
                if plan.valid() {
                    &&& request == (SetupRequest::Window { right: 1, bottom: 1 })
                    &&& final(self)@ == (EngineView {
                        app_name: title@,
                        plan,
                        stage: SetupStage::ShrinkWindow,
                        ..old(self)@
                    })
                } else {
                    &&& request == SetupRequest::Finished(Rcode::InvalidScreenSize)
                    &&& final(self)@ == old(self)@
                }
            }),
    {
        match ConsoleSetup::start(screen_width, screen_height, font_width, font_height) {
            Some(setup) => {
                self.setup = setup;
                self.app_name = title.to_owned();
                SetupRequest::Window { right: 1, bottom: 1 }
            },
            None => SetupRequest::Finished(Rcode::InvalidScreenSize),
        }
    }

    /// Takes the console's answer to the request that is out and says what
    /// to ask next.
    ///
    /// A refusal ends the setup with the result code of the refused
    /// request. When the last request is granted the engine gets its
    /// screen, blank and of the size asked for, the clock restarts at
    /// `now`, and the setup ends with `Success`.
    pub fn console_replied(&mut self, reply: SetupReply, now: u64) -> (request: SetupRequest)
        ensures
            request == old(self)@.plan.next(old(self)@.stage, reply).1,
            final(self)@ == (if request == SetupRequest::Finished(Rcode::Success) {
                EngineView {
                    screen: blank_screen(old(self)@.plan.screen_width, old(self)@.plan.screen_height),
                    stage: SetupStage::Idle,
                    clock: FrameClock { last: now, ..old(self)@.clock },
                    ..old(self)@
                }
            } else {
                EngineView { stage: old(self)@.plan.next(old(self)@.stage, reply).0, ..old(self)@ }
            }),
    {
        let (setup, request) = self.setup.reply(reply);
        self.setup = setup;
        match request {
            SetupRequest::Finished(Rcode::Success) => {
                let (width, height) = setup.screen_size();
                assert(width * height <= 0x7fff * 0x7fff) by (nonlinear_arith)
                    requires
                        0 < width <= 0x7fff,
                        0 < height <= 0x7fff,
                ;
                self.screen = Grid::new(width, height, Cell { glyph: SOLID, attributes: BLACK });
                self.clock.last = now;
                assert(self.screen@.cells =~= blank_screen(width as int, height as int).cells);
            },
            _ => {},
        }
        request
    }

    /// The UTF-16 units of the font face to select: the first 31 units of
    /// the font's name, then zeros up to 32 units in all.
    pub fn font_face(&self) -> (face: [u16; 32])
        ensures
            face@ == overwritten(Seq::new(32, |i: int| 0u16), self@.font_name, 31),
    {
        let mut face = [0u16;32];
        assert(face@ =~= Seq::new(32, |i: int| 0u16));
        write_with_u16bytes(self.font_name.clone(), &mut face, 31);
        face
    }

    /// The title that the console was set up under.
    pub fn app_name(&self) -> (name: &str)
        ensures
            name@ == self@.app_name,
    {
        self.app_name.as_str()
    }

    /// Takes in the raw input records of one frame, in order, and ends the
    /// frame.
    ///
    /// A resize replaces the screen by a blank one of the new size; every
    /// other record goes to the input state machine. Then every key and
    /// button takes one step from its previous sample to its current one,
    /// and the clock records the time since the last update.
    pub fn update(&mut self, now: u64, events: &Vec<InputEvent>)
        ensures
            final(self)@ == (EngineView {
                screen: screen_after(old(self)@.screen, events@, events@.len() as int),
                input: old(self)@.input.record_all(events@, events@.len() as int).settled(),
                clock: old(self)@.clock.ticked(now),
                ..old(self)@
            }),
            old(self)@.input.wf(),
            final(self)@.input.wf(),
    {
        self.input_is_whole();
        self.clock.tick(now);
        let mut i: usize = 0;
        while i < events.len()
            invariant
                i <= events.len(),
                self@ == (EngineView {
                    screen: screen_after(old(self)@.screen, events@, i as int),
                    input: old(self)@.input.record_all(events@, i as int),
                    clock: old(self)@.clock.ticked(now),
                    ..old(self)@
                }),
            decreases events.len() - i,
        {
            let event = events[i];
            match event {
                InputEvent::Resize { width, height } => {
                    assert(width * height <= 0xffff * 0xffff) by (nonlinear_arith)
                        requires
                            0 <= width <= 0xffff,
                            0 <= height <= 0xffff,
                    ;
                    self.screen = Grid::new(
                        width as usize,
                        height as usize,
                        Cell { glyph: SOLID, attributes: BLACK },
                    );
                    assert(self.screen@.cells =~= blank_screen(width as int, height as int).cells);
                },
                _ => {},
            }
            self.input.record(event);
            i = i + 1;
        }
        self.input.settle();
    }

    /// Writes one cell of the screen; a position outside the screen is
    /// silently ignored.
    ///
    /// A read at a position of the screen that was just written gives the
    /// written glyph and attribute back, and a write outside the screen
    /// leaves the engine as it was.
    pub fn draw(&mut self, x: i32, y: i32, glyph: u16, col: u16)
        ensures
            final(self)@ == (EngineView {
                screen: old(self)@.screen.put(x as int, y as int, Cell { glyph, attributes: col }),
                ..old(self)@
            }),
            old(self)@.screen.contains(x as int, y as int) ==> final(self)@.screen.at(
                x as int,
                y as int,
            ) == (Cell { glyph, attributes: col }),
            !old(self)@.screen.contains(x as int, y as int) ==> final(self)@ == old(self)@,
    {
        let _ = self.screen.width();
        proof {
            self@.screen.lemma_put_at(x as int, y as int, Cell { glyph, attributes: col });
        }
        if x >= 0 && y >= 0 {
            self.screen.put(x as usize, y as usize, Cell { glyph, attributes: col });
        }
    }

    /// The cell of the screen at `(x, y)`, or nothing outside the screen.
    pub fn cell_at(&self, x: i32, y: i32) -> (cell: Option<Cell>)
        ensures
            cell == (if self@.screen.contains(x as int, y as int) {
                Some(self@.screen.at(x as int, y as int))
            } else {
                None
            }),
    {
        if x >= 0 && y >= 0 {
            self.screen.get(x as usize, y as usize)
        } else {
            None
        }
    }

    /// Writes one cell of the screen at an unsigned position.
    pub(crate) fn screen_put(&mut self, x: usize, y: usize, cell: Cell)
        ensures
            final(self)@ == (EngineView {
                screen: old(self)@.screen.put(x as int, y as int, cell),
                ..old(self)@
            }),
    {
        self.screen.put(x, y, cell);
    }

    /// The cells of the screen in row-major order, as the display takes
    /// them.
    pub fn screen(&self) -> (cells: &Vec<Cell>)
        ensures
            cells@ == self@.screen.cells,
    {
        self.screen.cells()
    }

    /// The column of the pointer.
    pub fn get_mouse_x(&self) -> (x: i32)
        ensures
            x == self@.input.mouse_x,
    {
        self.input.pointer().0
    }

    /// The row of the pointer.
    pub fn get_mouse_y(&self) -> (y: i32)
        ensures
            y == self@.input.mouse_y,
    {
        self.input.pointer().1
    }

    /// The edge state of pointer button `button`.
    pub fn get_mouse(&self, button: usize) -> (state: KeyState)
        requires
            button < BUTTONS,
        ensures
            state == self@.input.mouse[button as int],
            self@.input.wf(),
    {
        self.input_is_whole();
        self.input.button(button)
    }

    /// The edge state of key `key`.
    pub fn get_key(&self, key: usize) -> (state: KeyState)
        requires
            key < KEYS,
        ensures
            state == self@.input.keys[key as int],
            self@.input.wf(),
    {
        self.input_is_whole();
        self.input.key(key)
    }

    /// The input state has an entry for every key and every button.
    fn input_is_whole(&self)
        ensures
            self@.input.wf(),
    {
        let _ = self.input.focused();
    }

    /// The number of columns of the screen.
    pub fn screen_width(&self) -> (w: usize)
        ensures
            w == self@.screen.width,
            self@.screen.wf(),
    {
        self.screen.width()
    }

    /// The number of rows of the screen.
    pub fn screen_height(&self) -> (h: usize)
        ensures
            h == self@.screen.height,
            self@.screen.wf(),
    {
        self.screen.height()
    }

    /// Whether the window has the focus.
    pub fn is_focused(&self) -> (focused: bool)
        ensures
            focused == self@.input.focused,
    {
        self.input.focused()
    }

    /// The time between the last two updates, in nanoseconds.
    pub fn delta_time(&self) -> (delta: u64)
        ensures
            delta == self@.clock.delta,
    {
        self.clock.delta
    }
}

} // verus!
