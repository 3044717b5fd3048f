use console_game_engine::{ConsoleGameEngine, SetupReply, SetupRequest, Rcode};

const MARK: u16 = 0x2592;
const INK: u16 = 0x000C;

fn raster_screen(width: usize, height: usize) -> ConsoleGameEngine {
    let mut engine = ConsoleGameEngine::new();
    engine.construct_console(width, height, 8, 8, "raster");
    engine.console_replied(SetupReply::Done, 0);
    engine.console_replied(SetupReply::Done, 0);
    engine.console_replied(SetupReply::Done, 0);
    engine.console_replied(SetupReply::Done, 0);
    engine.console_replied(SetupReply::MaxWindow { width: 400, height: 400 }, 0);
    let last = engine.console_replied(SetupReply::Done, 0);
    assert_eq!(last, SetupRequest::Finished(Rcode::Success));
    engine
}

/// The positions that hold the mark, row by row; every other cell must be
/// blank.
fn raster_marked(engine: &ConsoleGameEngine) -> Vec<(i32, i32)> {
    let mut found = Vec::new();
    for y in 0..engine.screen_height() {
        for x in 0..engine.screen_width() {
            let cell = engine.cell_at(x as i32, y as i32).unwrap();
            if cell.glyph == MARK {
                assert_eq!(cell.attributes, INK);
                found.push((x as i32, y as i32));
            } else {
                assert_eq!(cell.glyph, 0x2588);
                assert_eq!(cell.attributes, 0);
            }
        }
    }
    found
}

#[test]
fn line_level_covers_six_cells() {
    let mut engine = raster_screen(16, 16);
    engine.draw_line(0, 0, 5, 0, MARK, INK);
    let expected: Vec<(i32, i32)> = vec![(0, 0), (1, 0), (2, 0), (3, 0), (4, 0), (5, 0)];
    assert_eq!(raster_marked(&engine), expected);
}

#[test]
fn line_upright_covers_six_cells() {
    let mut engine = raster_screen(16, 16);
    engine.draw_line(0, 0, 0, 5, MARK, INK);
    let expected: Vec<(i32, i32)> = vec![(0, 0), (0, 1), (0, 2), (0, 3), (0, 4), (0, 5)];
    assert_eq!(raster_marked(&engine), expected);
}

#[test]
fn line_shallow_rising() {
    let mut engine = raster_screen(16, 16);
    engine.draw_line(0, 0, 5, 2, MARK, INK);
    let expected: Vec<(i32, i32)> = vec![(0, 0), (1, 0), (2, 1), (3, 1), (4, 2), (5, 2)];
    assert_eq!(raster_marked(&engine), expected);
}

#[test]
fn line_drawn_backwards() {
    let mut engine = raster_screen(16, 16);
    engine.draw_line(9, 7, 1, 2, MARK, INK);
    let expected: Vec<(i32, i32)> = vec![(1, 2), (2, 3), (3, 3), (4, 4), (5, 5), (6, 5), (7, 6), (8, 6), (9, 7)];
    assert_eq!(raster_marked(&engine), expected);
}

#[test]
fn line_steep() {
    let mut engine = raster_screen(16, 16);
    engine.draw_line(2, 1, 5, 11, MARK, INK);
    let expected: Vec<(i32, i32)> = vec![(2, 1), (2, 2), (3, 3), (3, 4), (3, 5), (3, 6), (4, 7), (4, 8), (4, 9), (5, 10), (5, 11)];
    assert_eq!(raster_marked(&engine), expected);
}

#[test]
fn line_steep_backwards_falling() {
    let mut engine = raster_screen(16, 16);
    engine.draw_line(6, 12, 3, 0, MARK, INK);
    let expected: Vec<(i32, i32)> = vec![(3, 0), (3, 1), (3, 2), (4, 3), (4, 4), (4, 5), (4, 6), (5, 7), (5, 8), (5, 9), (5, 10), (6, 11), (6, 12)];
    assert_eq!(raster_marked(&engine), expected);
}

#[test]
fn line_diagonal() {
    let mut engine = raster_screen(16, 16);
    engine.draw_line(1, 1, 9, 9, MARK, INK);
    let expected: Vec<(i32, i32)> = vec![(1, 1), (2, 2), (3, 3), (4, 4), (5, 5), (6, 6), (7, 7), (8, 8), (9, 9)];
    assert_eq!(raster_marked(&engine), expected);
}

#[test]
fn line_single_cell() {
    let mut engine = raster_screen(16, 16);
    engine.draw_line(4, 4, 4, 4, MARK, INK);
    let expected: Vec<(i32, i32)> = vec![(4, 4)];
    assert_eq!(raster_marked(&engine), expected);
}

#[test]
fn line_half_steps_round_up_when_flat() {
    let mut engine = raster_screen(16, 16);
    engine.draw_line(0, 0, 4, 2, MARK, INK);
    let expected: Vec<(i32, i32)> = vec![(0, 0), (1, 1), (2, 1), (3, 2), (4, 2)];
    assert_eq!(raster_marked(&engine), expected);
}

#[test]
fn line_half_steps_round_down_when_steep() {
    let mut engine = raster_screen(16, 16);
    engine.draw_line(0, 0, 2, 4, MARK, INK);
    let expected: Vec<(i32, i32)> = vec![(0, 0), (0, 1), (1, 2), (1, 3), (2, 4)];
    assert_eq!(raster_marked(&engine), expected);
}

#[test]
fn line_clipped_at_the_edges() {
    let mut engine = raster_screen(16, 16);
    engine.draw_line(-4, 3, 20, 9, MARK, INK);
    let expected: Vec<(i32, i32)> = vec![(0, 4), (1, 4), (2, 5), (3, 5), (4, 5), (5, 5), (6, 6), (7, 6), (8, 6), (9, 6), (10, 7), (11, 7), (12, 7), (13, 7), (14, 8), (15, 8)];
    assert_eq!(raster_marked(&engine), expected);
}

#[test]
fn circle_outline_radius_one() {
    let mut engine = raster_screen(16, 16);
    engine.draw_circle(5, 5, 1, MARK, INK);
    let expected: Vec<(i32, i32)> = vec![(5, 4), (4, 5), (6, 5), (5, 6)];
    assert_eq!(raster_marked(&engine), expected);
}

#[test]
fn circle_outline_radius_three() {
    let mut engine = raster_screen(16, 16);
    engine.draw_circle(7, 7, 3, MARK, INK);
    let expected: Vec<(i32, i32)> = vec![(6, 4), (7, 4), (8, 4), (5, 5), (9, 5), (4, 6), (10, 6), (4, 7), (10, 7), (4, 8), (10, 8), (5, 9), (9, 9), (6, 10), (7, 10), (8, 10)];
    assert_eq!(raster_marked(&engine), expected);
}

#[test]
fn circle_outline_radius_six() {
    let mut engine = raster_screen(16, 16);
    engine.draw_circle(8, 8, 6, MARK, INK);
    let expected: Vec<(i32, i32)> = vec![(6, 2), (7, 2), (8, 2), (9, 2), (10, 2), (5, 3), (11, 3), (4, 4), (12, 4), (3, 5), (13, 5), (2, 6), (14, 6), (2, 7), (14, 7), (2, 8), (14, 8), (2, 9), (14, 9), (2, 10), (14, 10), (3, 11), (13, 11), (4, 12), (12, 12), (5, 13), (11, 13), (6, 14), (7, 14), (8, 14), (9, 14), (10, 14)];
    assert_eq!(raster_marked(&engine), expected);
}

#[test]
fn circle_fill_radius_one() {
    let mut engine = raster_screen(16, 16);
    engine.fill_circle(5, 5, 1, MARK, INK);
    let expected: Vec<(i32, i32)> = vec![(5, 4), (4, 5), (5, 5), (6, 5), (5, 6)];
    assert_eq!(raster_marked(&engine), expected);
}

#[test]
fn circle_fill_radius_three() {
    let mut engine = raster_screen(16, 16);
    engine.fill_circle(7, 7, 3, MARK, INK);
    let expected: Vec<(i32, i32)> = vec![(6, 4), (7, 4), (8, 4), (5, 5), (6, 5), (7, 5), (8, 5), (9, 5), (4, 6), (5, 6), (6, 6), (7, 6), (8, 6), (9, 6), (10, 6), (4, 7), (5, 7), (6, 7), (7, 7), (8, 7), (9, 7), (10, 7), (4, 8), (5, 8), (6, 8), (7, 8), (8, 8), (9, 8), (10, 8), (5, 9), (6, 9), (7, 9), (8, 9), (9, 9), (6, 10), (7, 10), (8, 10)];
    assert_eq!(raster_marked(&engine), expected);
}

#[test]
fn circle_fill_radius_six() {
    let mut engine = raster_screen(16, 16);
    engine.fill_circle(8, 8, 6, MARK, INK);
    let expected: Vec<(i32, i32)> = vec![(6, 2), (7, 2), (8, 2), (9, 2), (10, 2), (5, 3), (6, 3), (7, 3), (8, 3), (9, 3), (10, 3), (11, 3), (4, 4), (5, 4), (6, 4), (7, 4), (8, 4), (9, 4), (10, 4), (11, 4), (12, 4), (3, 5), (4, 5), (5, 5), (6, 5), (7, 5), (8, 5), (9, 5), (10, 5), (11, 5), (12, 5), (13, 5), (2, 6), (3, 6), (4, 6), (5, 6), (6, 6), (7, 6), (8, 6), (9, 6), (10, 6), (11, 6), (12, 6), (13, 6), (14, 6), (2, 7), (3, 7), (4, 7), (5, 7), (6, 7), (7, 7), (8, 7), (9, 7), (10, 7), (11, 7), (12, 7), (13, 7), (14, 7), (2, 8), (3, 8), (4, 8), (5, 8), (6, 8), (7, 8), (8, 8), (9, 8), (10, 8), (11, 8), (12, 8), (13, 8), (14, 8), (2, 9), (3, 9), (4, 9), (5, 9), (6, 9), (7, 9), (8, 9), (9, 9), (10, 9), (11, 9), (12, 9), (13, 9), (14, 9), (2, 10), (3, 10), (4, 10), (5, 10), (6, 10), (7, 10), (8, 10), (9, 10), (10, 10), (11, 10), (12, 10), (13, 10), (14, 10), (3, 11), (4, 11), (5, 11), (6, 11), (7, 11), (8, 11), (9, 11), (10, 11), (11, 11), (12, 11), (13, 11), (4, 12), (5, 12), (6, 12), (7, 12), (8, 12), (9, 12), (10, 12), (11, 12), (12, 12), (5, 13), (6, 13), (7, 13), (8, 13), (9, 13), (10, 13), (11, 13), (6, 14), (7, 14), (8, 14), (9, 14), (10, 14)];
    assert_eq!(raster_marked(&engine), expected);
}

#[test]
fn circle_outline_clipped() {
    let mut engine = raster_screen(16, 16);
    engine.draw_circle(1, 2, 5, MARK, INK);
    let expected: Vec<(i32, i32)> = vec![(6, 0), (6, 1), (6, 2), (6, 3), (6, 4), (5, 5), (4, 6), (0, 7), (1, 7), (2, 7), (3, 7)];
    assert_eq!(raster_marked(&engine), expected);
}

#[test]
fn circle_fill_clipped() {
    let mut engine = raster_screen(16, 16);
    engine.fill_circle(14, 1, 4, MARK, INK);
    let expected: Vec<(i32, i32)> = vec![(10, 0), (11, 0), (12, 0), (13, 0), (14, 0), (15, 0), (10, 1), (11, 1), (12, 1), (13, 1), (14, 1), (15, 1), (10, 2), (11, 2), (12, 2), (13, 2), (14, 2), (15, 2), (11, 3), (12, 3), (13, 3), (14, 3), (15, 3), (11, 4), (12, 4), (13, 4), (14, 4), (15, 4), (13, 5), (14, 5), (15, 5)];
    assert_eq!(raster_marked(&engine), expected);
}

#[test]
fn triangle_fill_general() {
    let mut engine = raster_screen(16, 16);
    engine.fill_triangle(1, 1, 12, 4, 5, 13, MARK, INK);
    let expected: Vec<(i32, i32)> = vec![(1, 1), (2, 1), (1, 2), (2, 2), (3, 2), (4, 2), (5, 2), (6, 2), (2, 3), (3, 3), (4, 3), (5, 3), (6, 3), (7, 3), (8, 3), (9, 3), (10, 3), (2, 4), (3, 4), (4, 4), (5, 4), (6, 4), (7, 4), (8, 4), (9, 4), (10, 4), (11, 4), (12, 4), (2, 5), (3, 5), (4, 5), (5, 5), (6, 5), (7, 5), (8, 5), (9, 5), (10, 5), (11, 5), (3, 6), (4, 6), (5, 6), (6, 6), (7, 6), (8, 6), (9, 6), (10, 6), (3, 7), (4, 7), (5, 7), (6, 7), (7, 7), (8, 7), (9, 7), (10, 7), (3, 8), (4, 8), (5, 8), (6, 8), (7, 8), (8, 8), (9, 8), (4, 9), (5, 9), (6, 9), (7, 9), (8, 9), (4, 10), (5, 10), (6, 10), (7, 10), (4, 11), (5, 11), (6, 11), (7, 11), (5, 12), (6, 12), (5, 13)];
    assert_eq!(raster_marked(&engine), expected);
}

#[test]
fn triangle_fill_flat_top() {
    let mut engine = raster_screen(16, 16);
    engine.fill_triangle(2, 2, 11, 2, 6, 10, MARK, INK);
    let expected: Vec<(i32, i32)> = vec![(2, 2), (3, 2), (4, 2), (5, 2), (6, 2), (7, 2), (8, 2), (9, 2), (10, 2), (11, 2), (2, 3), (3, 3), (4, 3), (5, 3), (6, 3), (7, 3), (8, 3), (9, 3), (10, 3), (3, 4), (4, 4), (5, 4), (6, 4), (7, 4), (8, 4), (9, 4), (10, 4), (3, 5), (4, 5), (5, 5), (6, 5), (7, 5), (8, 5), (9, 5), (4, 6), (5, 6), (6, 6), (7, 6), (8, 6), (9, 6), (4, 7), (5, 7), (6, 7), (7, 7), (8, 7), (5, 8), (6, 8), (7, 8), (5, 9), (6, 9), (7, 9), (6, 10)];
    assert_eq!(raster_marked(&engine), expected);
}

#[test]
fn triangle_fill_flat_bottom() {
    let mut engine = raster_screen(16, 16);
    engine.fill_triangle(7, 1, 2, 9, 13, 9, MARK, INK);
    let expected: Vec<(i32, i32)> = vec![(7, 1), (6, 2), (7, 2), (8, 2), (6, 3), (7, 3), (8, 3), (5, 4), (6, 4), (7, 4), (8, 4), (9, 4), (5, 5), (6, 5), (7, 5), (8, 5), (9, 5), (10, 5), (4, 6), (5, 6), (6, 6), (7, 6), (8, 6), (9, 6), (10, 6), (11, 6), (3, 7), (4, 7), (5, 7), (6, 7), (7, 7), (8, 7), (9, 7), (10, 7), (11, 7), (3, 8), (4, 8), (5, 8), (6, 8), (7, 8), (8, 8), (9, 8), (10, 8), (11, 8), (12, 8), (2, 9), (3, 9), (4, 9), (5, 9), (6, 9), (7, 9), (8, 9), (9, 9), (10, 9), (11, 9), (12, 9), (13, 9)];
    assert_eq!(raster_marked(&engine), expected);
}

#[test]
fn triangle_fill_unsorted_corners() {
    let mut engine = raster_screen(16, 16);
    engine.fill_triangle(5, 13, 1, 1, 12, 4, MARK, INK);
    let expected: Vec<(i32, i32)> = vec![(1, 1), (2, 1), (1, 2), (2, 2), (3, 2), (4, 2), (5, 2), (6, 2), (2, 3), (3, 3), (4, 3), (5, 3), (6, 3), (7, 3), (8, 3), (9, 3), (10, 3), (2, 4), (3, 4), (4, 4), (5, 4), (6, 4), (7, 4), (8, 4), (9, 4), (10, 4), (11, 4), (12, 4), (2, 5), (3, 5), (4, 5), (5, 5), (6, 5), (7, 5), (8, 5), (9, 5), (10, 5), (11, 5), (3, 6), (4, 6), (5, 6), (6, 6), (7, 6), (8, 6), (9, 6), (10, 6), (3, 7), (4, 7), (5, 7), (6, 7), (7, 7), (8, 7), (9, 7), (10, 7), (3, 8), (4, 8), (5, 8), (6, 8), (7, 8), (8, 8), (9, 8), (4, 9), (5, 9), (6, 9), (7, 9), (8, 9), (4, 10), (5, 10), (6, 10), (7, 10), (4, 11), (5, 11), (6, 11), (7, 11), (5, 12), (6, 12), (5, 13)];
    assert_eq!(raster_marked(&engine), expected);
}

#[test]
fn triangle_fill_collinear_diagonal() {
    let mut engine = raster_screen(16, 16);
    engine.fill_triangle(0, 0, 3, 3, 6, 6, MARK, INK);
    let expected: Vec<(i32, i32)> = vec![(0, 0), (1, 1), (2, 2), (3, 3), (4, 4), (5, 5), (6, 6)];
    assert_eq!(raster_marked(&engine), expected);
}

#[test]
fn triangle_fill_collinear_level() {
    let mut engine = raster_screen(16, 16);
    engine.fill_triangle(1, 4, 5, 4, 9, 4, MARK, INK);
    let expected: Vec<(i32, i32)> = vec![(1, 4), (2, 4), (3, 4), (4, 4), (5, 4), (6, 4), (7, 4), (8, 4), (9, 4)];
    assert_eq!(raster_marked(&engine), expected);
}

#[test]
fn triangle_fill_collinear_upright() {
    let mut engine = raster_screen(16, 16);
    engine.fill_triangle(3, 1, 3, 5, 3, 9, MARK, INK);
    let expected: Vec<(i32, i32)> = vec![(3, 1), (3, 2), (3, 3), (3, 4), (3, 5), (3, 6), (3, 7), (3, 8), (3, 9)];
    assert_eq!(raster_marked(&engine), expected);
}

#[test]
fn triangle_fill_single_cell() {
    let mut engine = raster_screen(16, 16);
    engine.fill_triangle(4, 4, 4, 4, 4, 4, MARK, INK);
    let expected: Vec<(i32, i32)> = vec![(4, 4)];
    assert_eq!(raster_marked(&engine), expected);
}

#[test]
fn triangle_fill_steep_sides() {
    let mut engine = raster_screen(16, 16);
    engine.fill_triangle(6, 0, 4, 14, 9, 11, MARK, INK);
    let expected: Vec<(i32, i32)> = vec![(6, 0), (6, 1), (6, 2), (7, 2), (6, 3), (7, 3), (5, 4), (6, 4), (7, 4), (5, 5), (6, 5), (7, 5), (5, 6), (6, 6), (7, 6), (8, 6), (5, 7), (6, 7), (7, 7), (8, 7), (5, 8), (6, 8), (7, 8), (8, 8), (5, 9), (6, 9), (7, 9), (8, 9), (5, 10), (6, 10), (7, 10), (8, 10), (9, 10), (4, 11), (5, 11), (6, 11), (7, 11), (8, 11), (9, 11), (4, 12), (5, 12), (6, 12), (7, 12), (8, 12), (4, 13), (5, 13), (6, 13), (4, 14)];
    assert_eq!(raster_marked(&engine), expected);
}

#[test]
fn triangle_fill_clipped() {
    let mut engine = raster_screen(16, 16);
    engine.fill_triangle(-3, -2, 20, 5, 6, 19, MARK, INK);
    let expected: Vec<(i32, i32)> = vec![(0, 0), (1, 0), (2, 0), (3, 0), (4, 0), (5, 0), (0, 1), (1, 1), (2, 1), (3, 1), (4, 1), (5, 1), (6, 1), (7, 1), (8, 1), (0, 2), (1, 2), (2, 2), (3, 2), (4, 2), (5, 2), (6, 2), (7, 2), (8, 2), (9, 2), (10, 2), (11, 2), (0, 3), (1, 3), (2, 3), (3, 3), (4, 3), (5, 3), (6, 3), (7, 3), (8, 3), (9, 3), (10, 3), (11, 3), (12, 3), (13, 3), (14, 3), (15, 3), (0, 4), (1, 4), (2, 4), (3, 4), (4, 4), (5, 4), (6, 4), (7, 4), (8, 4), (9, 4), (10, 4), (11, 4), (12, 4), (13, 4), (14, 4), (15, 4), (0, 5), (1, 5), (2, 5), (3, 5), (4, 5), (5, 5), (6, 5), (7, 5), (8, 5), (9, 5), (10, 5), (11, 5), (12, 5), (13, 5), (14, 5), (15, 5), (0, 6), (1, 6), (2, 6), (3, 6), (4, 6), (5, 6), (6, 6), (7, 6), (8, 6), (9, 6), (10, 6), (11, 6), (12, 6), (13, 6), (14, 6), (15, 6), (1, 7), (2, 7), (3, 7), (4, 7), (5, 7), (6, 7), (7, 7), (8, 7), (9, 7), (10, 7), (11, 7), (12, 7), (13, 7), (14, 7), (15, 7), (1, 8), (2, 8), (3, 8), (4, 8), (5, 8), (6, 8), (7, 8), (8, 8), (9, 8), (10, 8), (11, 8), (12, 8), (13, 8), (14, 8), (15, 8), (2, 9), (3, 9), (4, 9), (5, 9), (6, 9), (7, 9), (8, 9), (9, 9), (10, 9), (11, 9), (12, 9), (13, 9), (14, 9), (15, 9), (2, 10), (3, 10), (4, 10), (5, 10), (6, 10), (7, 10), (8, 10), (9, 10), (10, 10), (11, 10), (12, 10), (13, 10), (14, 10), (15, 10), (3, 11), (4, 11), (5, 11), (6, 11), (7, 11), (8, 11), (9, 11), (10, 11), (11, 11), (12, 11), (13, 11), (14, 11), (3, 12), (4, 12), (5, 12), (6, 12), (7, 12), (8, 12), (9, 12), (10, 12), (11, 12), (12, 12), (13, 12), (3, 13), (4, 13), (5, 13), (6, 13), (7, 13), (8, 13), (9, 13), (10, 13), (11, 13), (12, 13), (4, 14), (5, 14), (6, 14), (7, 14), (8, 14), (9, 14), (10, 14), (11, 14), (4, 15), (5, 15), (6, 15), (7, 15), (8, 15), (9, 15), (10, 15)];
    assert_eq!(raster_marked(&engine), expected);
}

#[test]
fn triangle_fill_thin_sliver() {
    let mut engine = raster_screen(16, 16);
    engine.fill_triangle(0, 0, 15, 1, 15, 2, MARK, INK);
    let expected: Vec<(i32, i32)> = vec![(0, 0), (1, 0), (2, 0), (3, 0), (4, 0), (5, 0), (6, 0), (7, 0), (4, 1), (5, 1), (6, 1), (7, 1), (8, 1), (9, 1), (10, 1), (11, 1), (12, 1), (13, 1), (14, 1), (15, 1), (12, 2), (13, 2), (14, 2), (15, 2)];
    assert_eq!(raster_marked(&engine), expected);
}

#[test]
fn triangle_fill_with_a_level_lower_side_turning_back() {
    let mut engine = raster_screen(16, 16);
    engine.fill_triangle(3, 0, 8, 1, 3, 2, MARK, INK);
    let expected: Vec<(i32, i32)> = vec![(3, 0), (4, 0), (5, 0), (3, 1), (4, 1), (5, 1), (6, 1), (7, 1), (8, 1), (3, 2), (4, 2), (5, 2)];
    assert_eq!(raster_marked(&engine), expected);
}

#[test]
fn triangle_fill_pointing_left() {
    let mut engine = raster_screen(16, 16);
    engine.fill_triangle(12, 2, 12, 12, 2, 7, MARK, INK);
    let expected: Vec<(i32, i32)> = vec![(11, 2), (12, 2), (9, 3), (10, 3), (11, 3), (12, 3), (7, 4), (8, 4), (9, 4), (10, 4), (11, 4), (12, 4), (5, 5), (6, 5), (7, 5), (8, 5), (9, 5), (10, 5), (11, 5), (12, 5), (3, 6), (4, 6), (5, 6), (6, 6), (7, 6), (8, 6), (9, 6), (10, 6), (11, 6), (12, 6), (2, 7), (3, 7), (4, 7), (5, 7), (6, 7), (7, 7), (8, 7), (9, 7), (10, 7), (11, 7), (12, 7), (3, 8), (4, 8), (5, 8), (6, 8), (7, 8), (8, 8), (9, 8), (10, 8), (11, 8), (12, 8), (5, 9), (6, 9), (7, 9), (8, 9), (9, 9), (10, 9), (11, 9), (12, 9), (7, 10), (8, 10), (9, 10), (10, 10), (11, 10), (12, 10), (9, 11), (10, 11), (11, 11), (12, 11), (11, 12), (12, 12)];
    assert_eq!(raster_marked(&engine), expected);
}

#[test]
fn triangle_outline_joins_three_lines() {
    let mut engine = raster_screen(16, 16);
    engine.draw_triangle(1, 1, 12, 4, 5, 13, MARK, INK);
    let expected: Vec<(i32, i32)> = vec![(1, 1), (2, 1), (1, 2), (3, 2), (4, 2), (5, 2), (6, 2), (2, 3), (7, 3), (8, 3), (9, 3), (10, 3), (2, 4), (11, 4), (12, 4), (2, 5), (11, 5), (3, 6), (10, 6), (3, 7), (10, 7), (3, 8), (9, 8), (4, 9), (8, 9), (4, 10), (7, 10), (4, 11), (7, 11), (5, 12), (6, 12), (5, 13)];
    assert_eq!(raster_marked(&engine), expected);
}

#[test]
fn rectangle_outline_joins_four_lines() {
    let mut engine = raster_screen(16, 16);
    engine.draw_rectangle(2, 3, 7, 5, MARK, INK);
    let expected: Vec<(i32, i32)> = vec![(2, 3), (3, 3), (4, 3), (5, 3), (6, 3), (7, 3), (8, 3), (9, 3), (2, 4), (9, 4), (2, 5), (9, 5), (2, 6), (9, 6), (2, 7), (9, 7), (2, 8), (3, 8), (4, 8), (5, 8), (6, 8), (7, 8), (8, 8), (9, 8)];
    assert_eq!(raster_marked(&engine), expected);
}

#[test]
fn rectangle_outline_with_negative_size() {
    let mut engine = raster_screen(16, 16);
    engine.draw_rectangle(9, 9, -4, -6, MARK, INK);
    let expected: Vec<(i32, i32)> = vec![(5, 3), (6, 3), (7, 3), (8, 3), (9, 3), (5, 4), (9, 4), (5, 5), (9, 5), (5, 6), (9, 6), (5, 7), (9, 7), (5, 8), (9, 8), (5, 9), (6, 9), (7, 9), (8, 9), (9, 9)];
    assert_eq!(raster_marked(&engine), expected);
}

#[test]
fn rectangle_fill_covers_its_cells() {
    let mut engine = raster_screen(16, 16);
    engine.fill_rectangle(2, 3, 4, 5, MARK, INK);
    let expected: Vec<(i32, i32)> = vec![(2, 3), (3, 3), (4, 3), (5, 3), (2, 4), (3, 4), (4, 4), (5, 4), (2, 5), (3, 5), (4, 5), (5, 5), (2, 6), (3, 6), (4, 6), (5, 6), (2, 7), (3, 7), (4, 7), (5, 7)];
    assert_eq!(raster_marked(&engine), expected);
}

#[test]
fn rectangle_fill_clipped() {
    let mut engine = raster_screen(16, 16);
    engine.fill_rectangle(-2, 12, 7, 9, MARK, INK);
    let expected: Vec<(i32, i32)> = vec![(0, 12), (1, 12), (2, 12), (3, 12), (4, 12), (0, 13), (1, 13), (2, 13), (3, 13), (4, 13), (0, 14), (1, 14), (2, 14), (3, 14), (4, 14), (0, 15), (1, 15), (2, 15), (3, 15), (4, 15)];
    assert_eq!(raster_marked(&engine), expected);
}

#[test]
fn rectangle_fill_with_negative_size_is_empty() {
    let mut engine = raster_screen(16, 16);
    engine.fill_rectangle(5, 5, -3, 4, MARK, INK);
    let expected: Vec<(i32, i32)> = vec![];
    assert_eq!(raster_marked(&engine), expected);
}

#[test]
fn wire_frame_closes_the_polygon() {
    let mut engine = raster_screen(16, 16);
    engine.draw_wire_frame_model(&vec![(2, 2), (12, 3), (8, 13)], MARK, INK);
    let expected: Vec<(i32, i32)> = vec![(2, 2), (3, 2), (4, 2), (5, 2), (6, 2), (3, 3), (7, 3), (8, 3), (9, 3), (10, 3), (11, 3), (12, 3), (3, 4), (12, 4), (4, 5), (11, 5), (4, 6), (11, 6), (5, 7), (10, 7), (5, 8), (10, 8), (6, 9), (10, 9), (6, 10), (9, 10), (7, 11), (9, 11), (7, 12), (8, 12), (8, 13)];
    assert_eq!(raster_marked(&engine), expected);
}

#[test]
fn wire_frame_of_no_points_is_empty() {
    let mut engine = raster_screen(16, 16);
    engine.draw_wire_frame_model(&Vec::new(), MARK, INK);
    let expected: Vec<(i32, i32)> = vec![];
    assert_eq!(raster_marked(&engine), expected);
}

#[test]
fn wire_frame_of_one_point_is_a_cell() {
    let mut engine = raster_screen(16, 16);
    engine.draw_wire_frame_model(&vec![(3, 4)], MARK, INK);
    let expected: Vec<(i32, i32)> = vec![(3, 4)];
    assert_eq!(raster_marked(&engine), expected);
}

#[test]
fn circle_with_radius_zero_or_less_draws_nothing() {
    let mut engine = raster_screen(16, 16);
    engine.draw_circle(5, 5, 0, MARK, INK);
    engine.fill_circle(5, 5, 0, MARK, INK);
    engine.draw_circle(5, 5, -3, MARK, INK);
    engine.fill_circle(5, 5, -3, MARK, INK);
    assert_eq!(raster_marked(&engine), Vec::new());
}

#[test]
fn disc_covers_the_outline_of_its_circle() {
    for radius in 1..12 {
        let mut outline = raster_screen(32, 32);
        outline.draw_circle(15, 16, radius, MARK, INK);
        let mut disc = raster_screen(32, 32);
        disc.fill_circle(15, 16, radius, MARK, INK);
        let covered = raster_marked(&disc);
        for position in raster_marked(&outline) {
            assert!(covered.contains(&position));
        }
    }
}

#[test]
fn line_covers_both_ends_whatever_its_direction() {
    let ends = [(0, 0), (15, 0), (0, 15), (15, 15), (7, 3), (2, 11), (12, 9)];
    for a in ends {
        for b in ends {
            let mut engine = raster_screen(16, 16);
            engine.draw_line(a.0, a.1, b.0, b.1, MARK, INK);
            let marked = raster_marked(&engine);
            assert!(marked.contains(&a));
            assert!(marked.contains(&b));
            let long = std::cmp::max((a.0 - b.0).abs(), (a.1 - b.1).abs());
            assert_eq!(marked.len() as i32, long + 1);
        }
    }
}

#[test]
fn triangle_fill_rows_have_no_gaps() {
    let corners = [(1, 1, 12, 4, 5, 13), (0, 0, 3, 3, 6, 6), (6, 0, 4, 14, 9, 11), (0, 0, 15, 1, 15, 2), (3, 0, 8, 1, 3, 2)];
    for c in corners {
        let mut engine = raster_screen(16, 16);
        engine.fill_triangle(c.0, c.1, c.2, c.3, c.4, c.5, MARK, INK);
        let marked = raster_marked(&engine);
        for y in 0..16 {
            let row: Vec<i32> = marked.iter().filter(|p| p.1 == y).map(|p| p.0).collect();
            if let (Some(first), Some(last)) = (row.first(), row.last()) {
                assert_eq!(row.len() as i32, last - first + 1);
            }
        }
    }
}

#[test]
fn circles_follow_the_ideal_circle() {
    for radius in 1..14 {
        let mut outline = raster_screen(32, 32);
        outline.draw_circle(16, 15, radius, MARK, INK);
        for (x, y) in raster_marked(&outline) {
            let d = (x - 16) * (x - 16) + (y - 15) * (y - 15);
            assert!(radius * radius - radius <= d && d <= radius * radius + radius);
        }
        let mut disc = raster_screen(32, 32);
        disc.fill_circle(16, 15, radius, MARK, INK);
        let covered = raster_marked(&disc);
        for y in 0..32 {
            for x in 0..32 {
                let d = (x - 16) * (x - 16) + (y - 15) * (y - 15);
                if d <= radius * radius {
                    assert!(covered.contains(&(x, y)));
                }
                if d > radius * radius + radius {
                    assert!(!covered.contains(&(x, y)));
                }
            }
        }
    }
}

#[test]
fn triangle_fill_stays_within_the_corners() {
    let corners = [
        (1, 3, 12, 4, 5, 13),
        (14, 9, 3, 2, 8, 12),
        (0, 5, 15, 5, 7, 5),
        (6, 11, 4, 14, 9, 11),
        (3, 0, 8, 1, 3, 2),
        (8, 0, 3, 1, 8, 2),
        (5, 3, 0, 2, 6, 1),
        (2, 2, 13, 3, 2, 4),
    ];
    for c in corners {
        let mut engine = raster_screen(16, 16);
        engine.fill_triangle(c.0, c.1, c.2, c.3, c.4, c.5, MARK, INK);
        let top = std::cmp::min(c.1, std::cmp::min(c.3, c.5));
        let bottom = std::cmp::max(c.1, std::cmp::max(c.3, c.5));
        let left = std::cmp::min(c.0, std::cmp::min(c.2, c.4));
        let right = std::cmp::max(c.0, std::cmp::max(c.2, c.4));
        let marked = raster_marked(&engine);
        for (x, y) in &marked {
            assert!(top <= *y && *y <= bottom);
            assert!(left <= *x && *x <= right);
        }
        for y in top..=bottom {
            assert!(marked.iter().any(|p| p.1 == y));
        }
        assert!(marked.contains(&(c.0, c.1)));
        assert!(marked.contains(&(c.2, c.3)));
        assert!(marked.contains(&(c.4, c.5)));
    }
}

#[test]
fn triangle_fill_covers_the_outline_of_its_triangle() {
    let corners = [(1, 3, 12, 4, 5, 13), (14, 9, 3, 2, 8, 12), (3, 0, 8, 1, 3, 2), (6, 0, 4, 14, 9, 11)];
    for c in corners {
        let mut outline = raster_screen(16, 16);
        outline.draw_triangle(c.0, c.1, c.2, c.3, c.4, c.5, MARK, INK);
        let mut filled = raster_screen(16, 16);
        filled.fill_triangle(c.0, c.1, c.2, c.3, c.4, c.5, MARK, INK);
        let covered = raster_marked(&filled);
        for position in raster_marked(&outline) {
            assert!(covered.contains(&position));
        }
    }
}

#[test]
fn triangle_fill_of_corners_on_one_line_is_the_line() {
    let corners = [
        (0, 0, 10, 1, 20, 2),
        (20, 2, 0, 0, 10, 1),
        (0, 0, 3, 3, 6, 6),
        (1, 4, 9, 4, 5, 4),
        (3, 1, 3, 9, 3, 5),
        (2, 12, 8, 3, 6, 6),
        (21, 0, 14, 1, 0, 3),
        (4, 4, 4, 4, 9, 7),
        (5, 5, 5, 5, 5, 5),
    ];
    for c in corners {
        let mut filled = raster_screen(24, 16);
        filled.fill_triangle(c.0, c.1, c.2, c.3, c.4, c.5, MARK, INK);
        let mut ends = [(c.1, c.0), (c.3, c.2), (c.5, c.4)];
        ends.sort();
        let mut line = raster_screen(24, 16);
        line.draw_line(ends[0].1, ends[0].0, ends[2].1, ends[2].0, MARK, INK);
        assert_eq!(raster_marked(&filled), raster_marked(&line));
    }
}

#[test]
fn drawing_far_outside_the_screen_changes_nothing() {
    let mut engine = raster_screen(8, 8);
    engine.draw_line(i32::MAX - 3, i32::MAX, i32::MAX, i32::MAX - 2, MARK, INK);
    engine.draw_line(i32::MIN, i32::MIN + 4, i32::MIN + 2, i32::MIN, MARK, INK);
    engine.fill_rectangle(i32::MAX - 1, i32::MAX - 1, 5, 5, MARK, INK);
    engine.draw_rectangle(i32::MAX - 2, 100, 5, 3, MARK, INK);
    engine.draw_circle(i32::MAX, i32::MIN, 3, MARK, INK);
    engine.fill_circle(i32::MIN, i32::MAX, 3, MARK, INK);
    engine.fill_triangle(i32::MAX, i32::MAX, i32::MAX - 3, i32::MAX - 1, i32::MAX - 1, i32::MAX - 4, MARK, INK);
    assert_eq!(raster_marked(&engine), Vec::new());
}
