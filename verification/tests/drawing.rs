use engine::drawing::{
    draw_debug_block, draw_debug_box, draw_debug_screen, draw_sprite, draw_sprite_at, draw_text,
    fill_rect, flatten, scale_sprite, scale_spritesheet, Glyph, DEBUG_COLOR,
};

const A: [u8; 4] = [1, 2, 3, 4];
const B: [u8; 4] = [5, 6, 7, 8];
const C: [u8; 4] = [9, 10, 11, 12];
const D: [u8; 4] = [13, 14, 15, 16];
const CLEAR: [u8; 4] = [200, 100, 50, 0];
const OLD: [u8; 4] = [77, 77, 77, 77];
const INK: [u8; 4] = [255, 255, 255, 0];

fn canvas(width: usize, height: usize) -> Vec<Vec<[u8; 4]>> {
    vec![vec![OLD; width]; height]
}

/// The pixels of a canvas that no longer hold the old colour, as (x, y).
fn drawn(screen: &Vec<Vec<[u8; 4]>>) -> Vec<(usize, usize)> {
    let mut found = Vec::new();
    for (y, row) in screen.iter().enumerate() {
        for (x, pixel) in row.iter().enumerate() {
            if *pixel != OLD {
                found.push((x, y));
            }
        }
    }
    found
}

#[test]
fn flatten_writes_the_pixels_row_by_row() {
    let screen = vec![vec![A, B], vec![C, D]];
    let mut frame = vec![0u8; 16];
    flatten(&screen, &mut frame, 2);
    assert_eq!(frame, vec![1, 2, 3, 4, 5, 6, 7, 8, 9, 10, 11, 12, 13, 14, 15, 16]);
}

#[test]
fn flatten_twice_gives_the_same_bytes() {
    let screen = vec![vec![A, B, C], vec![D, CLEAR, OLD]];
    let mut frame = vec![0u8; 24];
    flatten(&screen, &mut frame, 3);
    let first = frame.clone();
    flatten(&screen, &mut frame, 3);
    assert_eq!(frame, first);
    let mut other = vec![255u8; 24];
    flatten(&screen, &mut other, 3);
    assert_eq!(other, first);
}

#[test]
fn flatten_leaves_bytes_behind_the_last_whole_pixel() {
    let screen = vec![vec![A, B]];
    let mut frame = vec![99u8; 7];
    flatten(&screen, &mut frame, 2);
    assert_eq!(frame, vec![1, 2, 3, 4, 99, 99, 99]);
}

#[test]
fn flatten_into_a_shorter_frame() {
    let screen = vec![vec![A, B], vec![C, D]];
    let mut frame = vec![0u8; 12];
    flatten(&screen, &mut frame, 2);
    assert_eq!(frame, vec![1, 2, 3, 4, 5, 6, 7, 8, 9, 10, 11, 12]);
    let mut empty: Vec<u8> = Vec::new();
    flatten(&screen, &mut empty, 2);
    assert!(empty.is_empty());
}

#[test]
fn fill_rect_fills_the_part_on_the_screen() {
    let mut screen = canvas(4, 3);
    fill_rect(&mut screen, 1, 3, 0, 2, INK);
    assert_eq!(drawn(&screen), vec![(1, 0), (2, 0), (1, 1), (2, 1)]);
    let mut clipped = canvas(4, 3);
    fill_rect(&mut clipped, -5, 2, 2, 50, INK);
    assert_eq!(drawn(&clipped), vec![(0, 2), (1, 2)]);
    let mut none = canvas(4, 3);
    fill_rect(&mut none, 3, 1, 0, 3, INK);
    fill_rect(&mut none, 4, 9, 0, 3, INK);
    fill_rect(&mut none, i128::MIN, i128::MAX, 3, 4, INK);
    assert!(drawn(&none).is_empty());
}

#[test]
fn draw_debug_block_is_centred_on_the_object() {
    let mut screen = canvas(8, 6);
    // The camera is on the object: the block is centred at (4, 3).
    draw_debug_block(&mut screen, (10, 20), (10, 20), 1, INK, 8, 6);
    assert_eq!(drawn(&screen), vec![(3, 2), (4, 2), (3, 3), (4, 3)]);
}

#[test]
fn draw_debug_block_follows_the_world_position() {
    let mut screen = canvas(8, 6);
    // Two to the right of and one above the camera: centred at (6, 2).
    draw_debug_block(&mut screen, (12, 21), (10, 20), 1, INK, 8, 6);
    assert_eq!(drawn(&screen), vec![(5, 1), (6, 1), (5, 2), (6, 2)]);
}

#[test]
fn draw_debug_block_is_clipped() {
    let mut screen = canvas(4, 4);
    // Centred at (0, 0): only the pixel at the corner is on the screen.
    draw_debug_block(&mut screen, (-2, 2), (0, 0), 1, INK, 4, 4);
    assert_eq!(drawn(&screen), vec![(0, 0)]);
    let mut far = canvas(4, 4);
    draw_debug_block(&mut far, (isize::MAX, isize::MIN), (isize::MIN, isize::MAX), 5, INK, 4, 4);
    assert!(drawn(&far).is_empty());
    let mut all = canvas(4, 4);
    draw_debug_block(&mut all, (0, 0), (0, 0), isize::MAX, INK, 4, 4);
    assert_eq!(drawn(&all).len(), 16);
}

#[test]
fn draw_debug_block_of_no_size_draws_nothing() {
    let mut screen = canvas(4, 4);
    draw_debug_block(&mut screen, (0, 0), (0, 0), 0, INK, 4, 4);
    draw_debug_block(&mut screen, (0, 0), (0, 0), -3, INK, 4, 4);
    assert!(drawn(&screen).is_empty());
}

#[test]
fn draw_debug_block_on_a_ragged_screen() {
    let mut screen = vec![vec![OLD; 1], vec![OLD; 6], Vec::new(), vec![OLD; 3]];
    draw_debug_block(&mut screen, (0, 0), (0, 0), 2, INK, 4, 4);
    // Centred at (2, 2): columns 0 to 3 of rows 0 to 3.
    assert_eq!(drawn(&screen), vec![(0, 0), (0, 1), (1, 1), (2, 1), (3, 1), (0, 3), (1, 3), (2, 3)]);
}

#[test]
fn draw_sprite_copies_the_sprite() {
    let mut screen = canvas(4, 4);
    let sprite = vec![vec![A, B], vec![C, D]];
    draw_sprite(&mut screen, &sprite, (1, 2));
    assert_eq!(screen[2][1], A);
    assert_eq!(screen[2][2], B);
    assert_eq!(screen[3][1], C);
    assert_eq!(screen[3][2], D);
    assert_eq!(drawn(&screen).len(), 4);
}

#[test]
fn draw_sprite_skips_transparent_pixels() {
    let mut screen = canvas(3, 3);
    let sprite = vec![vec![A, CLEAR], vec![CLEAR, D]];
    draw_sprite(&mut screen, &sprite, (0, 0));
    assert_eq!(screen[0][0], A);
    assert_eq!(screen[0][1], OLD);
    assert_eq!(screen[1][0], OLD);
    assert_eq!(screen[1][1], D);
}

#[test]
fn draw_sprite_is_clipped() {
    let mut screen = canvas(3, 3);
    let sprite = vec![vec![A, B], vec![C, D]];
    draw_sprite(&mut screen, &sprite, (2, 2));
    assert_eq!(screen[2][2], A);
    assert_eq!(drawn(&screen), vec![(2, 2)]);
    draw_sprite(&mut screen, &sprite, (3, 0));
    draw_sprite(&mut screen, &sprite, (0, 3));
    draw_sprite(&mut screen, &sprite, (usize::MAX, usize::MAX));
    assert_eq!(drawn(&screen), vec![(2, 2)]);
}

#[test]
fn draw_sprite_with_ragged_rows() {
    let mut screen = canvas(3, 2);
    let sprite = vec![vec![A], vec![B, C, D]];
    draw_sprite(&mut screen, &sprite, (0, 0));
    assert_eq!(screen[0], vec![A, OLD, OLD]);
    assert_eq!(screen[1], vec![B, C, D]);
    let empty: Vec<Vec<[u8; 4]>> = Vec::new();
    draw_sprite(&mut screen, &empty, (0, 0));
    assert_eq!(screen[1], vec![B, C, D]);
}

#[test]
fn scale_sprite_turns_each_pixel_into_a_square() {
    let sprite = vec![vec![A, B], vec![C, D]];
    let scaled = scale_sprite(&sprite, 2);
    assert_eq!(
        scaled,
        vec![vec![A, A, B, B], vec![A, A, B, B], vec![C, C, D, D], vec![C, C, D, D]]
    );
}

#[test]
fn scale_sprite_by_one_and_by_zero() {
    let sprite = vec![vec![A, B, C], vec![D]];
    assert_eq!(scale_sprite(&sprite, 1), sprite);
    assert!(scale_sprite(&sprite, 0).is_empty());
    let empty: Vec<Vec<[u8; 4]>> = Vec::new();
    assert!(scale_sprite(&empty, 3).is_empty());
}

#[test]
fn scale_sprite_keeps_ragged_rows() {
    let sprite = vec![vec![A], vec![B, C]];
    let scaled = scale_sprite(&sprite, 3);
    assert_eq!(scaled.len(), 6);
    for r in 0..3 {
        assert_eq!(scaled[r], vec![A, A, A]);
        assert_eq!(scaled[r + 3], vec![B, B, B, C, C, C]);
    }
}

#[test]
fn scale_spritesheet_scales_every_frame() {
    let sheet = vec![vec![vec![A]], vec![vec![B, C]], Vec::new()];
    let scaled = scale_spritesheet(&sheet, 2);
    assert_eq!(scaled.len(), 3);
    assert_eq!(scaled[0], vec![vec![A, A], vec![A, A]]);
    assert_eq!(scaled[1], vec![vec![B, B, C, C], vec![B, B, C, C]]);
    assert!(scaled[2].is_empty());
}

#[test]
fn draw_text_colours_the_covered_pixels() {
    let mut screen = canvas(8, 6);
    let glyphs = vec![
        Glyph { origin: (0, 1), pixels: vec![(0, 0), (1, 0), (0, 1)] },
        Glyph { origin: (3, 0), pixels: vec![(1, 2)] },
    ];
    draw_text(&mut screen, (2, 1), &glyphs, INK);
    // First glyph's box is at (2, 2), the second's at (5, 1).
    assert_eq!(drawn(&screen), vec![(2, 2), (3, 2), (2, 3), (6, 3)]);
    assert_eq!(screen[2][2], INK);
}

#[test]
fn draw_text_is_clipped() {
    let mut screen = canvas(4, 4);
    let glyphs = vec![
        Glyph { origin: (-2, -1), pixels: vec![(0, 0), (1, 1), (2, 1), (3, 2)] },
        Glyph { origin: (i32::MIN, i32::MAX), pixels: vec![(0, 0), (u32::MAX, u32::MAX)] },
    ];
    draw_text(&mut screen, (0, 0), &glyphs, INK);
    // Of the first glyph, (0, 0) and (1, 1) fall left of or above the screen.
    assert_eq!(drawn(&screen), vec![(0, 0), (1, 1)]);
    draw_text(&mut screen, (usize::MAX, usize::MAX), &glyphs, INK);
    assert_eq!(drawn(&screen), vec![(0, 0), (1, 1)]);
}

#[test]
fn draw_text_of_no_glyphs_draws_nothing() {
    let mut screen = canvas(4, 4);
    draw_text(&mut screen, (1, 1), &Vec::new(), INK);
    draw_text(&mut screen, (1, 1), &vec![Glyph { origin: (0, 0), pixels: Vec::new() }], INK);
    assert!(drawn(&screen).is_empty());
}

#[test]
fn draw_debug_screen_puts_the_lines_one_below_the_other() {
    let mut screen = canvas(30, 70);
    let dot = || vec![Glyph { origin: (0, 0), pixels: vec![(0, 0)] }];
    let lines = vec![dot(), dot(), Vec::new(), dot()];
    draw_debug_screen(&mut screen, &lines);
    // Lines begin at column 20, in the rows 20, 40, 60 and 80.
    assert_eq!(drawn(&screen), vec![(20, 20), (20, 40)]);
    assert_eq!(screen[20][20], DEBUG_COLOR);
    assert_eq!(DEBUG_COLOR, [255, 0, 0, 0]);
}

#[test]
fn draw_debug_box_draws_an_outline() {
    let mut screen = canvas(6, 6);
    draw_debug_box(&mut screen, (1, 1), (4, 3), INK);
    assert_eq!(
        drawn(&screen),
        vec![(1, 1), (2, 1), (3, 1), (4, 1), (1, 2), (4, 2), (1, 3), (2, 3), (3, 3), (4, 3)]
    );
}

#[test]
fn draw_debug_box_is_clipped() {
    let mut screen = canvas(3, 3);
    draw_debug_box(&mut screen, (-1, -1), (3, 3), INK);
    // The outline runs through column 1 and row 1.
    assert_eq!(drawn(&screen), vec![(1, 0), (0, 1), (1, 1)]);
    let mut none = canvas(3, 3);
    draw_debug_box(&mut none, (0, 0), (0, 5), INK);
    draw_debug_box(&mut none, (0, 0), (5, 0), INK);
    draw_debug_box(&mut none, (isize::MAX, isize::MAX), (usize::MAX, usize::MAX), INK);
    assert!(drawn(&none).is_empty());
}

#[test]
fn draw_debug_box_of_one_pixel() {
    let mut screen = canvas(3, 3);
    draw_debug_box(&mut screen, (1, 1), (1, 1), INK);
    assert_eq!(drawn(&screen), vec![(1, 1)]);
}

#[test]
fn draw_sprite_at_clips_left_of_and_above_the_screen() {
    let mut screen = canvas(3, 3);
    let sprite = vec![vec![A, B], vec![C, D]];
    draw_sprite_at(&mut screen, &sprite, (-1, -1));
    assert_eq!(screen[0][0], D);
    assert_eq!(drawn(&screen), vec![(0, 0)]);
    let mut other = canvas(3, 3);
    draw_sprite_at(&mut other, &sprite, (-1, 1));
    assert_eq!(other[1][0], B);
    assert_eq!(other[2][0], D);
    assert_eq!(drawn(&other), vec![(0, 1), (0, 2)]);
}

#[test]
fn draw_sprite_at_agrees_with_draw_sprite() {
    let sprite = vec![vec![A, CLEAR, B], vec![C, D, CLEAR]];
    let mut signed = canvas(4, 4);
    let mut unsigned = canvas(4, 4);
    draw_sprite_at(&mut signed, &sprite, (2, 1));
    draw_sprite(&mut unsigned, &sprite, (2, 1));
    assert_eq!(signed, unsigned);
    draw_sprite_at(&mut signed, &sprite, (isize::MIN, isize::MIN));
    draw_sprite_at(&mut signed, &sprite, (isize::MAX, isize::MAX));
    draw_sprite_at(&mut signed, &sprite, (-3, 0));
    assert_eq!(signed, unsigned);
}
