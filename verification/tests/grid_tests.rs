use console_game_engine::{Cell, ConsoleGameEngine, Grid, Rcode, SetupReply, SetupRequest};

fn grid_screen(width: usize, height: usize) -> ConsoleGameEngine {
    let mut engine = ConsoleGameEngine::new();
    engine.construct_console(width, height, 8, 8, "grid");
    engine.console_replied(SetupReply::Done, 0);
    engine.console_replied(SetupReply::Done, 0);
    engine.console_replied(SetupReply::Done, 0);
    engine.console_replied(SetupReply::Done, 0);
    engine.console_replied(SetupReply::MaxWindow { width: 400, height: 400 }, 0);
    let last = engine.console_replied(SetupReply::Done, 0);
    assert_eq!(last, SetupRequest::Finished(Rcode::Success));
    engine
}

#[test]
fn new_engine_has_no_cells() {
    let engine = ConsoleGameEngine::new();
    assert_eq!(engine.screen_width(), 0);
    assert_eq!(engine.screen_height(), 0);
    assert!(engine.screen().is_empty());
    assert_eq!(engine.cell_at(0, 0), None);
    assert_eq!(engine.app_name(), "Undefined");
    assert_eq!(engine.delta_time(), 0);
    assert!(!engine.is_focused());
}

#[test]
fn drawing_on_an_engine_without_a_screen_is_ignored() {
    let mut engine = ConsoleGameEngine::new();
    engine.draw(0, 0, 65, 7);
    engine.fill_triangle(0, 0, 4, 0, 2, 3, 65, 7);
    engine.clear(65, 7);
    assert!(engine.screen().is_empty());
}

#[test]
fn fresh_screen_is_solid_black() {
    let engine = grid_screen(4, 3);
    assert_eq!(engine.screen().len(), 12);
    for cell in engine.screen() {
        assert_eq!(*cell, Cell { glyph: 0x2588, attributes: 0 });
    }
}

#[test]
fn draw_then_read_gives_the_written_cell() {
    let mut engine = grid_screen(5, 4);
    for y in 0..4 {
        for x in 0..5 {
            let glyph = (100 + y * 5 + x) as u16;
            let col = (y * 16 + x) as u16;
            engine.draw(x, y, glyph, col);
            assert_eq!(engine.cell_at(x, y), Some(Cell { glyph, attributes: col }));
        }
    }
    for y in 0..4 {
        for x in 0..5 {
            let glyph = (100 + y * 5 + x) as u16;
            let col = (y * 16 + x) as u16;
            assert_eq!(engine.cell_at(x, y), Some(Cell { glyph, attributes: col }));
        }
    }
}

#[test]
fn cells_are_stored_row_by_row() {
    let mut engine = grid_screen(5, 4);
    engine.draw(3, 2, 65, 9);
    assert_eq!(engine.screen()[2 * 5 + 3], Cell { glyph: 65, attributes: 9 });
    let written = engine.screen().iter().filter(|c| c.glyph == 65).count();
    assert_eq!(written, 1);
}

#[test]
fn draw_outside_the_screen_leaves_it_unchanged() {
    let mut engine = grid_screen(5, 4);
    engine.draw(2, 1, 66, 3);
    let before = engine.screen().clone();
    let outside = [
        (-1, 0),
        (0, -1),
        (5, 0),
        (0, 4),
        (5, 4),
        (-1, -1),
        (i32::MAX, 0),
        (0, i32::MAX),
        (i32::MIN, i32::MIN),
        (4, 4),
        (5, 3),
    ];
    for (x, y) in outside {
        engine.draw(x, y, 65, 9);
        assert_eq!(engine.cell_at(x, y), None);
        assert_eq!(engine.screen(), &before);
    }
}

#[test]
fn draw_writes_the_corners() {
    let mut engine = grid_screen(5, 4);
    engine.draw(0, 0, 1, 2);
    engine.draw(4, 0, 3, 4);
    engine.draw(0, 3, 5, 6);
    engine.draw(4, 3, 7, 8);
    assert_eq!(engine.screen()[0], Cell { glyph: 1, attributes: 2 });
    assert_eq!(engine.screen()[4], Cell { glyph: 3, attributes: 4 });
    assert_eq!(engine.screen()[15], Cell { glyph: 5, attributes: 6 });
    assert_eq!(engine.screen()[19], Cell { glyph: 7, attributes: 8 });
}

#[test]
fn clear_fills_every_cell() {
    let mut engine = grid_screen(6, 5);
    engine.draw(1, 1, 65, 9);
    engine.clear(0x2591, 0x00F0);
    for y in 0..5 {
        for x in 0..6 {
            assert_eq!(engine.cell_at(x, y), Some(Cell { glyph: 0x2591, attributes: 0x00F0 }));
        }
    }
    assert_eq!(engine.screen().len(), 30);
    assert_eq!(engine.screen_width(), 6);
    assert_eq!(engine.screen_height(), 5);
}

#[test]
fn grid_put_and_get() {
    let mut grid = Grid::new(3, 2, Cell { glyph: 1, attributes: 1 });
    assert_eq!(grid.width(), 3);
    assert_eq!(grid.height(), 2);
    grid.put(2, 1, Cell { glyph: 9, attributes: 8 });
    grid.put(3, 1, Cell { glyph: 7, attributes: 7 });
    grid.put(2, 2, Cell { glyph: 7, attributes: 7 });
    assert_eq!(grid.get(2, 1), Some(Cell { glyph: 9, attributes: 8 }));
    assert_eq!(grid.get(0, 0), Some(Cell { glyph: 1, attributes: 1 }));
    assert_eq!(grid.get(3, 1), None);
    assert_eq!(grid.get(2, 2), None);
    assert_eq!(grid.cells().len(), 6);
    assert_eq!(grid.cells()[5], Cell { glyph: 9, attributes: 8 });
    assert_eq!(grid.cells().iter().filter(|c| c.glyph == 7).count(), 0);
}

#[test]
fn grid_without_rows_or_columns_is_empty() {
    let mut grid = Grid::new(0, 7, Cell { glyph: 1, attributes: 1 });
    grid.put(0, 0, Cell { glyph: 9, attributes: 8 });
    assert_eq!(grid.get(0, 0), None);
    assert!(grid.cells().is_empty());
    let grid = Grid::new(7, 0, Cell { glyph: 1, attributes: 1 });
    assert!(grid.cells().is_empty());
}
