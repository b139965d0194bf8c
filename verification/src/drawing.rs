//! The screen buffer and the primitives that draw into it.

use vstd::prelude::*;
use crate::coords::spec_world_to_screen;

verus! {

/// A pixel: red, green, blue and alpha.
pub type Rgba = [u8; 4];

/// The screen buffer: rows of pixels, top row first.
pub type Screen = Vec<Vec<Rgba>>;

/// The colour of a pixel that shows nothing: transparent black.
pub const BACKGROUND: Rgba = [0, 0, 0, 0];

/// Whether a grid of pixels has exactly `dim.1` rows of `dim.0` pixels.
pub open spec fn spec_has_dim(grid: Seq<Vec<Rgba>>, dim: (usize, usize)) -> bool {
    &&& grid.len() == dim.1
    &&& forall|y: int| 0 <= y < grid.len() ==> (#[trigger] grid[y]).len() == dim.0
}

/// Whether two grids of pixels have the same number of rows and, row by row,
/// the same number of pixels.
pub open spec fn spec_same_shape(a: Seq<Vec<Rgba>>, b: Seq<Vec<Rgba>>) -> bool {
    &&& a.len() == b.len()
    &&& forall|y: int| 0 <= y < a.len() ==> (#[trigger] a[y]).len() == b[y].len()
}

/// Whether a grid of pixels has a pixel in column `x` of row `y`.
pub open spec fn spec_has_pixel(grid: Seq<Vec<Rgba>>, x: int, y: int) -> bool {
    0 <= y < grid.len() && 0 <= x < grid[y].len()
}

/// The bytes of a frame after the screen has been flattened into it: pixel
/// slot `i` of the frame, four bytes wide, holds the pixel in column
/// `i % width` of row `i / width`. Bytes behind the last whole pixel slot
/// keep their value.
pub open spec fn spec_flatten(screen: Seq<Vec<Rgba>>, width: int, frame: Seq<u8>) -> Seq<u8> {
    Seq::new(
        frame.len(),
        |j: int|
            if j < 4 * (frame.len() / 4) {
                screen[(j / 4) / width][(j / 4) % width][j % 4]
            } else {
                frame[j]
            },
    )
}

/// Flattening the same screen into a frame a second time changes nothing.
pub proof fn lemma_flatten_is_idempotent(screen: Seq<Vec<Rgba>>, width: int, frame: Seq<u8>)
    ensures
        spec_flatten(screen, width, spec_flatten(screen, width, frame)) == spec_flatten(
            screen,
            width,
            frame,
        ),
{
    assert(spec_flatten(screen, width, spec_flatten(screen, width, frame)) =~= spec_flatten(
        screen,
        width,
        frame,
    ));
}

/// What a frame holds after flattening depends on the screen only, for every
/// byte of a whole pixel slot.
pub proof fn lemma_flatten_overwrites(
    screen: Seq<Vec<Rgba>>,
    width: int,
    a: Seq<u8>,
    b: Seq<u8>,
)
    requires
        a.len() == b.len(),
        a.len() % 4 == 0,
    ensures
        spec_flatten(screen, width, a) == spec_flatten(screen, width, b),
{
    assert(spec_flatten(screen, width, a) =~= spec_flatten(screen, width, b));
}

/// Whether the screen has a pixel for each of the first `slots` pixel slots
/// of a frame: slot `i` takes the pixel in column `i % width` of row
/// `i / width`.
pub open spec fn spec_fills(screen: Seq<Vec<Rgba>>, width: int, slots: int) -> bool {
    forall|i: int| 0 <= i < slots ==> #[trigger] spec_has_pixel(screen, i % width, i / width)
}

/// A screen of `dim.1` rows of `dim.0` pixels fills a frame of up to
/// `dim.0 * dim.1` pixel slots.
pub proof fn lemma_whole_screen_fills(screen: Seq<Vec<Rgba>>, dim: (usize, usize), slots: int)
    requires
        spec_has_dim(screen, dim),
        dim.0 > 0,
        slots <= dim.0 * dim.1,
    ensures
        spec_fills(screen, dim.0 as int, slots),
{
    let w = dim.0 as int;
    let h = dim.1 as int;
    assert forall|i: int| 0 <= i < slots implies #[trigger] spec_has_pixel(
        screen,
        i % w,
        i / w,
    ) by {
        vstd::arithmetic::div_mod::lemma_fundamental_div_mod(i, w);
        vstd::arithmetic::div_mod::lemma_mod_bound(i, w);
        vstd::arithmetic::div_mod::lemma_div_pos_is_pos(i, w);
        let q = i / w;
        assert(q >= h ==> w * q >= w * h) by (nonlinear_arith)
            requires
                w > 0,
        ;
        assert(w * h == dim.0 * dim.1) by (nonlinear_arith)
            requires
                w == dim.0,
                h == dim.1,
        ;
    }
}

/// Copies the screen into a frame of bytes, row by row, four bytes per pixel
/// in the order red, green, blue, alpha. The frame is filled in place.
pub fn flatten(screen: &Screen, frame: &mut [u8], screen_width: usize)
    requires
        screen_width > 0,
        spec_fills(screen@, screen_width as int, (old(frame).len() / 4) as int),
    ensures
        final(frame)@ == spec_flatten(screen@, screen_width as int, old(frame)@),
{
    let n: usize = frame.len() / 4;
    let mut i: usize = 0;
    while i < n
        invariant
            screen_width > 0,
            n == old(frame).len() / 4,
            i <= n,
            frame.len() == old(frame).len(),
            spec_fills(screen@, screen_width as int, n as int),
            forall|j: int|
                0 <= j < 4 * i ==> frame[j] == screen[(j / 4) / screen_width as int][(j / 4)
                    % screen_width as int][j % 4],
            forall|j: int| 4 * i <= j < frame.len() ==> frame[j] == old(frame)[j],
        decreases n - i,
    {
        let x: usize = i % screen_width;
        let y: usize = i / screen_width;
        assert(spec_has_pixel(
            screen@,
            i as int % screen_width as int,
            i as int / screen_width as int,
        ));
        let pixel: Rgba = screen[y][x];
        let base: usize = 4 * i;
        frame[base] = pixel[0];
        frame[base + 1] = pixel[1];
        frame[base + 2] = pixel[2];
        frame[base + 3] = pixel[3];
        i += 1;
    }
    assert(frame@ =~= spec_flatten(screen@, screen_width as int, old(frame)@));
}

/// Whether the pixel in column `x` of row `y` lies in the rectangle of the
/// columns `x_lo .. x_hi` and the rows `y_lo .. y_hi`.
pub open spec fn spec_in_rect(x_lo: int, x_hi: int, y_lo: int, y_hi: int, x: int, y: int) -> bool {
    x_lo <= x < x_hi && y_lo <= y < y_hi
}

/// The index nearest to `v` in `0 ..= len`.
fn clip(v: i128, len: usize) -> (c: usize)
    ensures
        0 <= c <= len,
        v <= 0 ==> c == 0,
        0 <= v <= len ==> c == v,
        v >= len ==> c == len,
{
    if v <= 0 {
        0
    } else if v >= len as i128 {
        len
    } else {
        v as usize
    }
}

/// Fills the part of a rectangle that lies on the screen with one colour.
pub fn fill_rect(
    screen: &mut Screen,
    x_lo: i128,
    x_hi: i128,
    y_lo: i128,
    y_hi: i128,
    color: Rgba,
)
    ensures
        spec_same_shape(final(screen)@, old(screen)@),
        forall|x: int, y: int|
            spec_has_pixel(old(screen)@, x, y) ==> #[trigger] final(screen)[y][x] == (if spec_in_rect(
                x_lo as int,
                x_hi as int,
                y_lo as int,
                y_hi as int,
                x,
                y,
            ) {
                color
            } else {
                old(screen)[y][x]
            }),
{
    let rows: usize = screen.len();
    let y0: usize = clip(y_lo, rows);
    let y1: usize = clip(y_hi, rows);
    let mut y: usize = y0;
    while y < y1
        invariant
            rows == old(screen).len(),
            y0 <= y,
            y1 <= rows,
            y_lo <= 0 ==> y0 == 0,
            y_lo >= rows ==> y0 == rows,
            y_hi <= 0 ==> y1 == 0,
            0 <= y_hi <= rows ==> y1 == y_hi,
            y_hi >= rows ==> y1 == rows,
            0 <= y_lo <= rows ==> y0 == y_lo,
            spec_same_shape(screen@, old(screen)@),
            forall|c: int, r: int|
                spec_has_pixel(old(screen)@, c, r) ==> #[trigger] screen[r][c] == (if r < y
                    && spec_in_rect(x_lo as int, x_hi as int, y_lo as int, y_hi as int, c, r) {
                    color
                } else {
                    old(screen)[r][c]
                }),
        decreases rows - y,
    {
        let len: usize = screen[y].len();
        let x0: usize = clip(x_lo, len);
        let x1: usize = clip(x_hi, len);
        let mut x: usize = x0;
        while x < x1
            invariant
                rows == old(screen).len(),
                y0 <= y < y1,
                y1 <= rows,
                y_lo <= y < y_hi,
                len == old(screen)[y as int].len(),
                x0 <= x,
                x1 <= len,
                x_lo <= 0 ==> x0 == 0,
                0 <= x_lo <= len ==> x0 == x_lo,
                x_lo >= len ==> x0 == len,
                x_hi <= 0 ==> x1 == 0,
                0 <= x_hi <= len ==> x1 == x_hi,
                x_hi >= len ==> x1 == len,
                spec_same_shape(screen@, old(screen)@),
                forall|c: int, r: int|
                    spec_has_pixel(old(screen)@, c, r) ==> #[trigger] screen[r][c] == (if (r < y
                        || (r == y && c < x)) && spec_in_rect(
                        x_lo as int,
                        x_hi as int,
                        y_lo as int,
                        y_hi as int,
                        c,
                        r,
                    ) {
                        color
                    } else {
                        old(screen)[r][c]
                    }),
            decreases len - x,
        {
            screen[y][x] = color;
            x += 1;
        }
        y += 1;
    }
}

/// Draws a filled square of `2 * size` pixels a side, centred on the screen
/// position of the world coordinate `obj_coords` for a camera at
/// `camera_coords`. What falls outside the screen is not drawn.
pub fn draw_debug_block(
    screen: &mut Screen,
    obj_coords: (isize, isize),
    camera_coords: (isize, isize),
    size: isize,
    color: Rgba,
    screen_width: usize,
    screen_height: usize,
)
    ensures
        spec_same_shape(final(screen)@, old(screen)@),
        forall|x: int, y: int|
            spec_has_pixel(old(screen)@, x, y) ==> #[trigger] final(screen)[y][x] == (if ({
                let centre = spec_world_to_screen(
                    (obj_coords.0 as int, obj_coords.1 as int),
                    (camera_coords.0 as int, camera_coords.1 as int),
                    (screen_width as int, screen_height as int),
                );
                spec_in_rect(
                    centre.0 - size,
                    centre.0 + size,
                    centre.1 - size,
                    centre.1 + size,
                    x,
                    y,
                )
            }) {
                color
            } else {
                old(screen)[y][x]
            }),
{
    let cx: i128 = (screen_width / 2) as i128 - (camera_coords.0 as i128 - obj_coords.0 as i128);
    let cy: i128 = (screen_height / 2) as i128 - (obj_coords.1 as i128 - camera_coords.1 as i128);
    let s: i128 = size as i128;
    fill_rect(screen, cx - s, cx + s, cy - s, cy + s, color);
}

/// The pixel that a sprite puts on the screen pixel in column `x` of row
/// `y`, for a sprite whose top-left corner is drawn at `coords`: the sprite's
/// pixel there unless its alpha channel is zero, and `None` where the sprite
/// has no pixel or a transparent one.
pub open spec fn spec_sprite_pixel(sprite: Seq<Vec<Rgba>>, coords: (int, int), x: int, y: int)
    -> Option<Rgba> {
    let sx = x - coords.0;
    let sy = y - coords.1;
    if spec_has_pixel(sprite, sx, sy) && sprite[sy][sx][3] != 0 {
        Some(sprite[sy][sx])
    } else {
        None
    }
}

/// Draws a sprite with its top-left corner at `at`.
pub(crate) fn blit_sprite(screen: &mut Screen, sprite: &Vec<Vec<Rgba>>, at: (i128, i128))
    requires
        -0x1_0000_0000_0000_0000_0000 <= at.0 <= 0x1_0000_0000_0000_0000_0000,
        -0x1_0000_0000_0000_0000_0000 <= at.1 <= 0x1_0000_0000_0000_0000_0000,
    ensures
        spec_same_shape(final(screen)@, old(screen)@),
        forall|x: int, y: int|
            spec_has_pixel(old(screen)@, x, y) ==> #[trigger] final(screen)[y][x] == (
            match spec_sprite_pixel(sprite@, (at.0 as int, at.1 as int), x, y) {
                Some(p) => p,
                None => old(screen)[y][x],
            }),
{
    let mut yi: usize = 0;
    while yi < sprite.len()
        invariant
            yi <= sprite.len(),
            -0x1_0000_0000_0000_0000_0000 <= at.0 <= 0x1_0000_0000_0000_0000_0000,
            -0x1_0000_0000_0000_0000_0000 <= at.1 <= 0x1_0000_0000_0000_0000_0000,
            spec_same_shape(screen@, old(screen)@),
            forall|x: int, y: int|
                spec_has_pixel(old(screen)@, x, y) ==> #[trigger] screen[y][x] == (if y - at.1
                    < yi {
                    match spec_sprite_pixel(sprite@, (at.0 as int, at.1 as int), x, y) {
                        Some(p) => p,
                        None => old(screen)[y][x],
                    }
                } else {
                    old(screen)[y][x]
                }),
        decreases sprite.len() - yi,
    {
        let mut xi: usize = 0;
        while xi < sprite[yi].len()
            invariant
                yi < sprite.len(),
                xi <= sprite[yi as int].len(),
                -0x1_0000_0000_0000_0000_0000 <= at.0 <= 0x1_0000_0000_0000_0000_0000,
                -0x1_0000_0000_0000_0000_0000 <= at.1 <= 0x1_0000_0000_0000_0000_0000,
                spec_same_shape(screen@, old(screen)@),
                forall|x: int, y: int|
                    spec_has_pixel(old(screen)@, x, y) ==> #[trigger] screen[y][x] == (if y
                        - at.1 < yi || (y - at.1 == yi && x - at.0 < xi) {
                        match spec_sprite_pixel(sprite@, (at.0 as int, at.1 as int), x, y) {
                            Some(p) => p,
                            None => old(screen)[y][x],
                        }
                    } else {
                        old(screen)[y][x]
                    }),
            decreases sprite[yi as int].len() - xi,
        {
            let pixel: Rgba = sprite[yi][xi];
            if pixel[3] != 0 {
                let ty: i128 = at.1 + yi as i128;
                let tx: i128 = at.0 + xi as i128;
                if ty >= 0 && ty < screen.len() as i128 {
                    let row: usize = ty as usize;
                    if tx >= 0 && tx < screen[row].len() as i128 {
                        let col: usize = tx as usize;
                        screen[row][col] = pixel;
                    }
                }
            }
            xi += 1;
        }
        yi += 1;
    }
}

/// Draws a sprite with its top-left corner at `coords`. Pixels of the sprite
/// whose alpha channel is zero are skipped, and what falls outside the
/// screen is not drawn.
pub fn draw_sprite(screen: &mut Vec<Vec<Rgba>>, sprite: &Vec<Vec<Rgba>>, coords: (usize, usize))
    ensures
        spec_same_shape(final(screen)@, old(screen)@),
        forall|x: int, y: int|
            spec_has_pixel(old(screen)@, x, y) ==> #[trigger] final(screen)[y][x] == (
            match spec_sprite_pixel(sprite@, (coords.0 as int, coords.1 as int), x, y) {
                Some(p) => p,
                None => old(screen)[y][x],
            }),
{
    blit_sprite(screen, sprite, (coords.0 as i128, coords.1 as i128));
}

/// Draws a sprite with its top-left corner at `coords`, which may lie left
/// of or above the screen. Pixels of the sprite whose alpha channel is zero
/// are skipped, and what falls outside the screen is not drawn.
pub fn draw_sprite_at(screen: &mut Vec<Vec<Rgba>>, sprite: &Vec<Vec<Rgba>>, coords: (isize, isize))
    ensures
        spec_same_shape(final(screen)@, old(screen)@),
        forall|x: int, y: int|
            spec_has_pixel(old(screen)@, x, y) ==> #[trigger] final(screen)[y][x] == (
            match spec_sprite_pixel(sprite@, (coords.0 as int, coords.1 as int), x, y) {
                Some(p) => p,
                None => old(screen)[y][x],
            }),
{
    blit_sprite(screen, sprite, (coords.0 as i128, coords.1 as i128));
}

/// Whether `scaled` is `sprite` enlarged by a whole factor: every pixel of
/// the sprite has become a square of `scale` by `scale` pixels.
pub open spec fn spec_scaled(sprite: Seq<Vec<Rgba>>, scaled: Seq<Vec<Rgba>>, scale: int) -> bool {
    &&& scaled.len() == sprite.len() * scale
    &&& forall|r: int|
        0 <= r < scaled.len() ==> (#[trigger] scaled[r]).len() == sprite[r / scale].len() * scale
    &&& forall|r: int, c: int|
        0 <= r < scaled.len() && 0 <= c < scaled[r].len() ==> #[trigger] scaled[r][c]
            == sprite[r / scale][c / scale]
}

/// For a positive divisor, `q * d + r` with `0 <= r < d` has the quotient `q`.
proof fn lemma_scaled_index(q: int, r: int, d: int)
    requires
        0 <= r < d,
    ensures
        (q * d + r) / d == q,
{
    vstd::arithmetic::div_mod::lemma_fundamental_div_mod_converse(q * d + r, d, q, r);
}

/// One row of a sprite enlarged by a whole factor along its length.
fn scale_row(row: &Vec<Rgba>, scale: usize) -> (scaled: Vec<Rgba>)
    ensures
        scaled.len() == row.len() * scale,
        forall|c: int| 0 <= c < scaled.len() ==> #[trigger] scaled[c] == row[c / scale as int],
{
    let mut scaled: Vec<Rgba> = Vec::new();
    let mut xi: usize = 0;
    while xi < row.len()
        invariant
            xi <= row.len(),
            scaled.len() == xi * scale,
            forall|c: int| 0 <= c < scaled.len() ==> #[trigger] scaled[c] == row[c / scale as int],
        decreases row.len() - xi,
    {
        let mut k: usize = 0;
        while k < scale
            invariant
                xi < row.len(),
                k <= scale,
                scaled.len() == xi * scale + k,
                forall|c: int|
                    0 <= c < scaled.len() ==> #[trigger] scaled[c] == row[c / scale as int],
            decreases scale - k,
        {
            proof {
                lemma_scaled_index(xi as int, k as int, scale as int);
            }
            scaled.push(row[xi]);
            k += 1;
        }
        assert((xi + 1) * scale == xi * scale + scale) by (nonlinear_arith);
        xi += 1;
    }
    proof {
        assert(xi * scale == row.len() * scale) by (nonlinear_arith)
            requires
                xi == row.len(),
        ;
    }
    scaled
}

/// A sprite enlarged by a whole factor: every pixel becomes a square of
/// `scale` by `scale` pixels. A factor of 0 gives an empty sprite.
pub fn scale_sprite(sprite: &Vec<Vec<Rgba>>, scale: usize) -> (scaled: Vec<Vec<Rgba>>)
    ensures
        spec_scaled(sprite@, scaled@, scale as int),
{
    let mut scaled: Vec<Vec<Rgba>> = Vec::new();
    let mut yi: usize = 0;
    while yi < sprite.len()
        invariant
            yi <= sprite.len(),
            scaled.len() == yi * scale,
            forall|r: int|
                0 <= r < scaled.len() ==> (#[trigger] scaled[r]).len() == sprite[r
                    / scale as int].len() * scale,
            forall|r: int, c: int|
                0 <= r < scaled.len() && 0 <= c < scaled[r].len() ==> #[trigger] scaled[r][c]
                    == sprite[r / scale as int][c / scale as int],
        decreases sprite.len() - yi,
    {
        let mut k: usize = 0;
        while k < scale
            invariant
                yi < sprite.len(),
                k <= scale,
                scaled.len() == yi * scale + k,
                forall|r: int|
                    0 <= r < scaled.len() ==> (#[trigger] scaled[r]).len() == sprite[r
                        / scale as int].len() * scale,
                forall|r: int, c: int|
                    0 <= r < scaled.len() && 0 <= c < scaled[r].len() ==> #[trigger] scaled[r][c]
                        == sprite[r / scale as int][c / scale as int],
            decreases scale - k,
        {
            proof {
                lemma_scaled_index(yi as int, k as int, scale as int);
            }
            let row: Vec<Rgba> = scale_row(&sprite[yi], scale);
            scaled.push(row);
            k += 1;
        }
        assert((yi + 1) * scale == yi * scale + scale) by (nonlinear_arith);
        yi += 1;
    }
    proof {
        assert(yi * scale == sprite.len() * scale) by (nonlinear_arith)
            requires
                yi == sprite.len(),
        ;
    }
    scaled
}

/// Every frame of a sprite sheet enlarged by a whole factor.
pub fn scale_spritesheet(spritesheet: &Vec<Vec<Vec<Rgba>>>, scale: usize) -> (scaled: Vec<
    Vec<Vec<Rgba>>,
>)
    ensures
        scaled.len() == spritesheet.len(),
        forall|f: int|
            0 <= f < spritesheet.len() ==> spec_scaled(
                spritesheet[f]@,
                (#[trigger] scaled[f])@,
                scale as int,
            ),
{
    let mut scaled: Vec<Vec<Vec<Rgba>>> = Vec::new();
    let mut f: usize = 0;
    while f < spritesheet.len()
        invariant
            f <= spritesheet.len(),
            scaled.len() == f,
            forall|g: int|
                0 <= g < f ==> spec_scaled(spritesheet[g]@, (#[trigger] scaled[g])@, scale as int),
        decreases spritesheet.len() - f,
    {
        let frame: Vec<Vec<Rgba>> = scale_sprite(&spritesheet[f], scale);
        scaled.push(frame);
        f += 1;
    }
    scaled
}

/// One glyph of a line of text after rasterizing: where its bounding box
/// lies and which pixels of the box it covers.
#[derive(Debug)]
pub struct Glyph {
    /// Top-left corner of the glyph's bounding box, relative to the position
    /// at which the text is drawn.
    pub origin: (i32, i32),
    /// The pixels with a coverage other than zero, as offsets from the
    /// top-left corner of the bounding box.
    pub pixels: Vec<(u32, u32)>,
}

/// Whether one of the points, taken as an offset from `base`, is the pixel in
/// column `x` of row `y`.
pub open spec fn spec_points_cover(points: Seq<(u32, u32)>, base: (int, int), x: int, y: int)
    -> bool {
    exists|i: int|
        0 <= i < points.len() && x == base.0 + (#[trigger] points[i]).0 && y == base.1
            + points[i].1
}

/// Whether a glyph of a text drawn at `at` covers the pixel in column `x` of
/// row `y`.
pub open spec fn spec_glyph_covers(glyph: Glyph, at: (int, int), x: int, y: int) -> bool {
    spec_points_cover(glyph.pixels@, (at.0 + glyph.origin.0, at.1 + glyph.origin.1), x, y)
}

/// Whether a text drawn at `at` covers the pixel in column `x` of row `y`.
pub open spec fn spec_text_covers(glyphs: Seq<Glyph>, at: (int, int), x: int, y: int) -> bool {
    exists|k: int| 0 <= k < glyphs.len() && spec_glyph_covers(#[trigger] glyphs[k], at, x, y)
}

/// The points up to and with point `i` cover what the points before it
/// cover, and the pixel of point `i`.
proof fn lemma_points_cover_next(points: Seq<(u32, u32)>, i: int, base: (int, int), x: int, y: int)
    requires
        0 <= i < points.len(),
    ensures
        spec_points_cover(points.take(i + 1), base, x, y) == (spec_points_cover(
            points.take(i),
            base,
            x,
            y,
        ) || (x == base.0 + points[i].0 && y == base.1 + points[i].1)),
{
    let more = points.take(i + 1);
    let less = points.take(i);
    if spec_points_cover(more, base, x, y) {
        let j = choose|j: int|
            0 <= j < more.len() && x == base.0 + (#[trigger] more[j]).0 && y == base.1 + more[j].1;
        if j < i {
            assert(less[j] == more[j]);
        }
    }
    if spec_points_cover(less, base, x, y) {
        let j = choose|j: int|
            0 <= j < less.len() && x == base.0 + (#[trigger] less[j]).0 && y == base.1 + less[j].1;
        assert(more[j] == less[j]);
    }
    if x == base.0 + points[i].0 && y == base.1 + points[i].1 {
        assert(more[i] == points[i]);
    }
}

/// The glyphs up to and with glyph `k` cover what the glyphs before it
/// cover, and what glyph `k` covers.
proof fn lemma_text_covers_next(glyphs: Seq<Glyph>, k: int, at: (int, int), x: int, y: int)
    requires
        0 <= k < glyphs.len(),
    ensures
        spec_text_covers(glyphs.take(k + 1), at, x, y) == (spec_text_covers(
            glyphs.take(k),
            at,
            x,
            y,
        ) || spec_glyph_covers(glyphs[k], at, x, y)),
{
    let more = glyphs.take(k + 1);
    let less = glyphs.take(k);
    if spec_text_covers(more, at, x, y) {
        let j = choose|j: int| 0 <= j < more.len() && spec_glyph_covers(#[trigger] more[j], at, x, y);
        if j < k {
            assert(less[j] == more[j]);
        }
    }
    if spec_text_covers(less, at, x, y) {
        let j = choose|j: int| 0 <= j < less.len() && spec_glyph_covers(#[trigger] less[j], at, x, y);
        assert(more[j] == less[j]);
    }
    if spec_glyph_covers(glyphs[k], at, x, y) {
        assert(more[k] == glyphs[k]);
    }
}

/// Gives one pixel a colour, if the screen has that pixel.
fn put_pixel(screen: &mut Screen, x: i128, y: i128, color: Rgba)
    ensures
        spec_same_shape(final(screen)@, old(screen)@),
        forall|c: int, r: int|
            spec_has_pixel(old(screen)@, c, r) ==> #[trigger] final(screen)[r][c] == (if c == x
                && r == y {
                color
            } else {
                old(screen)[r][c]
            }),
{
    if y >= 0 && y < screen.len() as i128 {
        let row: usize = y as usize;
        if x >= 0 && x < screen[row].len() as i128 {
            let col: usize = x as usize;
            screen[row][col] = color;
        }
    }
}

/// Gives the pixels of one glyph, whose bounding box has its top-left corner
/// at `base`, a colour.
fn blit_points(screen: &mut Screen, points: &Vec<(u32, u32)>, base: (i128, i128), color: Rgba)
    requires
        -0x1_0000_0000_0000_0000_0000 <= base.0 <= 0x1_0000_0000_0000_0000_0000,
        -0x1_0000_0000_0000_0000_0000 <= base.1 <= 0x1_0000_0000_0000_0000_0000,
    ensures
        spec_same_shape(final(screen)@, old(screen)@),
        forall|x: int, y: int|
            spec_has_pixel(old(screen)@, x, y) ==> #[trigger] final(screen)[y][x] == (
            if spec_points_cover(points@, (base.0 as int, base.1 as int), x, y) {
                color
            } else {
                old(screen)[y][x]
            }),
{
    let mut i: usize = 0;
    while i < points.len()
        invariant
            i <= points.len(),
            -0x1_0000_0000_0000_0000_0000 <= base.0 <= 0x1_0000_0000_0000_0000_0000,
            -0x1_0000_0000_0000_0000_0000 <= base.1 <= 0x1_0000_0000_0000_0000_0000,
            spec_same_shape(screen@, old(screen)@),
            forall|x: int, y: int|
                spec_has_pixel(old(screen)@, x, y) ==> #[trigger] screen[y][x] == (
                if spec_points_cover(
                    points@.take(i as int),
                    (base.0 as int, base.1 as int),
                    x,
                    y,
                ) {
                    color
                } else {
                    old(screen)[y][x]
                }),
        decreases points.len() - i,
    {
        let point: (u32, u32) = points[i];
        let ghost before = screen@;
        put_pixel(screen, base.0 + point.0 as i128, base.1 + point.1 as i128, color);
        proof {
            assert forall|x: int, y: int| spec_has_pixel(old(screen)@, x, y) implies #[trigger] screen[y][x]
                == (if spec_points_cover(
                points@.take(i + 1),
                (base.0 as int, base.1 as int),
                x,
                y,
            ) {
                color
            } else {
                old(screen)[y][x]
            }) by {
                lemma_points_cover_next(points@, i as int, (base.0 as int, base.1 as int), x, y);
                assert(spec_has_pixel(before, x, y));
            }
        }
        i += 1;
    }
    assert(points@.take(points.len() as int) =~= points@);
}

/// Gives the pixels of the glyphs of a text drawn at `at` a colour.
pub(crate) fn blit_glyphs(screen: &mut Screen, glyphs: &Vec<Glyph>, at: (i128, i128), color: Rgba)
    requires
        -0x1_0000_0000_0000_0000_00 <= at.0 <= 0x1_0000_0000_0000_0000_00,
        -0x1_0000_0000_0000_0000_00 <= at.1 <= 0x1_0000_0000_0000_0000_00,
    ensures
        spec_same_shape(final(screen)@, old(screen)@),
        forall|x: int, y: int|
            spec_has_pixel(old(screen)@, x, y) ==> #[trigger] final(screen)[y][x] == (
            if spec_text_covers(glyphs@, (at.0 as int, at.1 as int), x, y) {
                color
            } else {
                old(screen)[y][x]
            }),
{
    let mut k: usize = 0;
    while k < glyphs.len()
        invariant
            k <= glyphs.len(),
            -0x1_0000_0000_0000_0000_00 <= at.0 <= 0x1_0000_0000_0000_0000_00,
            -0x1_0000_0000_0000_0000_00 <= at.1 <= 0x1_0000_0000_0000_0000_00,
            spec_same_shape(screen@, old(screen)@),
            forall|x: int, y: int|
                spec_has_pixel(old(screen)@, x, y) ==> #[trigger] screen[y][x] == (
                if spec_text_covers(glyphs@.take(k as int), (at.0 as int, at.1 as int), x, y) {
                    color
                } else {
                    old(screen)[y][x]
                }),
        decreases glyphs.len() - k,
    {
        let ghost before = screen@;
        let base: (i128, i128) = (
            at.0 + glyphs[k].origin.0 as i128,
            at.1 + glyphs[k].origin.1 as i128,
        );
        blit_points(screen, &glyphs[k].pixels, base, color);
        proof {
            assert forall|x: int, y: int| spec_has_pixel(old(screen)@, x, y) implies #[trigger] screen[y][x]
                == (if spec_text_covers(glyphs@.take(k + 1), (at.0 as int, at.1 as int), x, y) {
                color
            } else {
                old(screen)[y][x]
            }) by {
                lemma_text_covers_next(glyphs@, k as int, (at.0 as int, at.1 as int), x, y);
                assert(spec_has_pixel(before, x, y));
            }
        }
        k += 1;
    }
    assert(glyphs@.take(glyphs.len() as int) =~= glyphs@);
}

/// Draws a rasterized text at `coords` in one colour: every pixel that a
/// glyph covers gets the colour. What falls outside the screen is not drawn.
pub fn draw_text(screen: &mut Screen, coords: (usize, usize), glyphs: &Vec<Glyph>, color: Rgba)
    ensures
        spec_same_shape(final(screen)@, old(screen)@),
        forall|x: int, y: int|
            spec_has_pixel(old(screen)@, x, y) ==> #[trigger] final(screen)[y][x] == (
            if spec_text_covers(glyphs@, (coords.0 as int, coords.1 as int), x, y) {
                color
            } else {
                old(screen)[y][x]
            }),
{
    blit_glyphs(screen, glyphs, (coords.0 as i128, coords.1 as i128), color);
}

/// Column at which the lines of the debug overlay begin.
pub const DEBUG_LEFT: usize = 20;

/// Row at which the first line of the debug overlay is drawn.
pub const DEBUG_TOP: usize = 20;

/// Rows from one line of the debug overlay to the next.
pub const DEBUG_LINE_HEIGHT: usize = 20;

/// Colour of the debug overlay.
pub const DEBUG_COLOR: Rgba = [255, 0, 0, 0];

/// Where line `i` of the debug overlay is drawn.
pub open spec fn spec_debug_line_at(i: int) -> (int, int) {
    (DEBUG_LEFT as int, DEBUG_TOP + i * DEBUG_LINE_HEIGHT)
}

/// Whether a line of the debug overlay covers the pixel in column `x` of row
/// `y`.
pub open spec fn spec_debug_covers(lines: Seq<Vec<Glyph>>, x: int, y: int) -> bool {
    exists|i: int|
        0 <= i < lines.len() && spec_text_covers((#[trigger] lines[i])@, spec_debug_line_at(i), x, y)
}

/// The lines up to and with line `i` cover what the lines before it cover,
/// and what line `i` covers.
proof fn lemma_debug_covers_next(lines: Seq<Vec<Glyph>>, i: int, x: int, y: int)
    requires
        0 <= i < lines.len(),
    ensures
        spec_debug_covers(lines.take(i + 1), x, y) == (spec_debug_covers(lines.take(i), x, y)
            || spec_text_covers(lines[i]@, spec_debug_line_at(i), x, y)),
{
    let more = lines.take(i + 1);
    let less = lines.take(i);
    if spec_debug_covers(more, x, y) {
        let j = choose|j: int|
            0 <= j < more.len() && spec_text_covers(
                (#[trigger] more[j])@,
                spec_debug_line_at(j),
                x,
                y,
            );
        if j < i {
            assert(less[j] == more[j]);
        }
    }
    if spec_debug_covers(less, x, y) {
        let j = choose|j: int|
            0 <= j < less.len() && spec_text_covers(
                (#[trigger] less[j])@,
                spec_debug_line_at(j),
                x,
                y,
            );
        assert(more[j] == less[j]);
    }
    if spec_text_covers(lines[i]@, spec_debug_line_at(i), x, y) {
        assert(more[i] == lines[i]);
    }
}

/// Draws the debug overlay: the rasterized lines one below the other from
/// the top-left corner of the screen, in the overlay's colour.
pub fn draw_debug_screen(screen: &mut Screen, lines: &Vec<Vec<Glyph>>)
    ensures
        spec_same_shape(final(screen)@, old(screen)@),
        forall|x: int, y: int|
            spec_has_pixel(old(screen)@, x, y) ==> #[trigger] final(screen)[y][x] == (
            if spec_debug_covers(lines@, x, y) {
                DEBUG_COLOR
            } else {
                old(screen)[y][x]
            }),
{
    let mut i: usize = 0;
    while i < lines.len()
        invariant
            i <= lines.len(),
            spec_same_shape(screen@, old(screen)@),
            forall|x: int, y: int|
                spec_has_pixel(old(screen)@, x, y) ==> #[trigger] screen[y][x] == (
                if spec_debug_covers(lines@.take(i as int), x, y) {
                    DEBUG_COLOR
                } else {
                    old(screen)[y][x]
                }),
        decreases lines.len() - i,
    {
        let ghost before = screen@;
        let top: i128 = DEBUG_TOP as i128 + i as i128 * DEBUG_LINE_HEIGHT as i128;
        blit_glyphs(screen, &lines[i], (DEBUG_LEFT as i128, top), DEBUG_COLOR);
        proof {
            assert forall|x: int, y: int| spec_has_pixel(old(screen)@, x, y) implies #[trigger] screen[y][x]
                == (if spec_debug_covers(lines@.take(i + 1), x, y) {
                DEBUG_COLOR
            } else {
                old(screen)[y][x]
            }) by {
                lemma_debug_covers_next(lines@, i as int, x, y);
                assert(spec_has_pixel(before, x, y));
            }
        }
        i += 1;
    }
    assert(lines@.take(lines.len() as int) =~= lines@);
}

/// Whether the pixel in column `x` of row `y` lies on the outline of the
/// rectangle of `dim.0` by `dim.1` pixels with its top-left corner at
/// `corner`.
pub open spec fn spec_on_outline(corner: (int, int), dim: (int, int), x: int, y: int) -> bool {
    &&& spec_in_rect(corner.0, corner.0 + dim.0, corner.1, corner.1 + dim.1, x, y)
    &&& (x == corner.0 || x == corner.0 + dim.0 - 1 || y == corner.1 || y == corner.1 + dim.1
        - 1)
}

/// Draws the outline, one pixel wide, of a rectangle of `dim.0` by `dim.1`
/// pixels with its top-left corner at `corner`.
pub(crate) fn blit_outline(screen: &mut Screen, corner: (i128, i128), dim: (usize, usize), color: Rgba)
    requires
        -0x1_0000_0000_0000_0000_0000 <= corner.0 <= 0x1_0000_0000_0000_0000_0000,
        -0x1_0000_0000_0000_0000_0000 <= corner.1 <= 0x1_0000_0000_0000_0000_0000,
    ensures
        spec_same_shape(final(screen)@, old(screen)@),
        forall|x: int, y: int|
            spec_has_pixel(old(screen)@, x, y) ==> #[trigger] final(screen)[y][x] == (
            if spec_on_outline(
                (corner.0 as int, corner.1 as int),
                (dim.0 as int, dim.1 as int),
                x,
                y,
            ) {
                color
            } else {
                old(screen)[y][x]
            }),
{
    if dim.0 == 0 || dim.1 == 0 {
        return ;
    }
    let left: i128 = corner.0;
    let top: i128 = corner.1;
    let right: i128 = left + dim.0 as i128;
    let bottom: i128 = top + dim.1 as i128;
    let ghost s0 = screen@;
    fill_rect(screen, left, right, top, top + 1, color);
    let ghost s1 = screen@;
    fill_rect(screen, left, right, bottom - 1, bottom, color);
    let ghost s2 = screen@;
    fill_rect(screen, left, left + 1, top, bottom, color);
    let ghost s3 = screen@;
    fill_rect(screen, right - 1, right, top, bottom, color);
    proof {
        assert forall|x: int, y: int| spec_has_pixel(s0, x, y) implies #[trigger] screen[y][x] == (
        if spec_on_outline(
            (corner.0 as int, corner.1 as int),
            (dim.0 as int, dim.1 as int),
            x,
            y,
        ) {
            color
        } else {
            s0[y][x]
        }) by {
            assert(spec_has_pixel(s1, x, y));
            assert(spec_has_pixel(s2, x, y));
            assert(spec_has_pixel(s3, x, y));
        }
    }
}

/// Draws the outline, one pixel wide, of a rectangle of `dim.0` by `dim.1`
/// pixels with its top-left corner at the screen position `coords`. What
/// falls outside the screen is not drawn.
pub fn draw_debug_box(screen: &mut Screen, coords: (isize, isize), dim: (usize, usize), color: Rgba)
    ensures
        spec_same_shape(final(screen)@, old(screen)@),
        forall|x: int, y: int|
            spec_has_pixel(old(screen)@, x, y) ==> #[trigger] final(screen)[y][x] == (
            if spec_on_outline(
                (coords.0 as int, coords.1 as int),
                (dim.0 as int, dim.1 as int),
                x,
                y,
            ) {
                color
            } else {
                old(screen)[y][x]
            }),
{
    blit_outline(screen, (coords.0 as i128, coords.1 as i128), dim, color);
}

} // verus!
