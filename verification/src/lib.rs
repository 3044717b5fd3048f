//! A character-grid rendering and input engine.
//!
//! The engine keeps a rectangular grid of coloured glyph cells, rasterizes
//! pixels, lines, circles, triangles, sprites and text into it, folds raw
//! key and pointer-button samples into pressed / held / released state and
//! measures the time between two frames. Talking to a real console is left
//! to the program that embeds the engine: it hands in plain events and
//! timestamps and takes the finished grid back.

pub mod blits;
pub mod circles;
pub mod clock;
pub mod colour;
pub mod engine;
pub mod grid;
pub mod input;
pub mod lines;
pub mod raster;
pub mod setup;
pub mod shapes;
pub mod sprite;
pub mod text;
pub mod triangles;

pub use clock::FrameClock;
pub use colour::{Colour, CommonLvb, Pixel};
pub use engine::{ConsoleGameEngine, EngineView};
pub use grid::{Cell, Grid, GridView};
pub use input::{InputEvent, InputState, InputView, KeyState};
pub use setup::{presentation_code, ConsoleSetup, Rcode, SetupReply, SetupRequest, SetupStage};
pub use sprite::{Sprite, SpriteError, SpriteView};
pub use text::{encode_utf16, write_with_u16bytes};
