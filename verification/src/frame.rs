//! The frame: everything that is drawn, in the order in which it is drawn.

use vstd::prelude::*;
use crate::coords::spec_world_to_screen;
use crate::drawing::{
    blit_glyphs, blit_outline, blit_sprite, draw_debug_block, draw_debug_screen, draw_sprite_at,
    spec_debug_covers, spec_has_dim, spec_has_pixel, spec_in_rect, spec_on_outline,
    spec_sprite_pixel, spec_text_covers, Glyph, Rgba, Screen, DEBUG_COLOR,
};
use crate::world::World;

verus! {

/// Half the side of the square that marks the camera in the debug view.
pub const CAMERA_MARK_SIZE: isize = 5;

/// Colour of the square that marks the camera in the debug view.
pub const CAMERA_MARK_COLOR: Rgba = [255, 255, 255, 255];

/// Colour of the outline round the agent in the debug view.
pub const AGENT_BOX_COLOR: Rgba = [255, 0, 0, 0];

/// Colour of the title.
pub const TITLE_COLOR: Rgba = [255, 255, 255, 0];

/// Column at which the title begins.
pub const TITLE_LEFT: usize = 20;

/// Rows from the bottom of the screen up to the row at which the title is
/// drawn.
pub const TITLE_RISE: usize = 30;

/// Width and height of a sprite: the length of its first row and the number
/// of its rows.
pub open spec fn spec_sprite_dim(sprite: Seq<Vec<Rgba>>) -> (int, int) {
    (
        if sprite.len() > 0 {
            sprite[0].len() as int
        } else {
            0
        },
        sprite.len() as int,
    )
}

/// The colour of the pixel in column `x` of row `y` of the frame. From the
/// bottom layer up:
///
/// 1. the terrain that the camera sees;
/// 2. the agent's sprite, its top-left corner at the screen position of the
///    agent;
/// 3. with the debug view on: the square that marks the camera, then the
///    outline of the agent's sprite, then the lines of the overlay;
/// 4. the title, near the bottom-left corner;
/// 5. the mouse pointer's sprite.
pub open spec fn spec_frame_pixel(
    world: World,
    player: (int, int),
    sprite: Seq<Vec<Rgba>>,
    camera: (int, int),
    screen_dim: (int, int),
    debug: Option<Seq<Vec<Glyph>>>,
    title: Seq<Glyph>,
    mouse_sprite: Seq<Vec<Rgba>>,
    mouse: (int, int),
    x: int,
    y: int,
) -> Rgba {
    let terrain = world.pixel(camera, screen_dim, x, y);
    let at = spec_world_to_screen(player, camera, screen_dim);
    let agent = match spec_sprite_pixel(sprite, at, x, y) {
        Some(p) => p,
        None => terrain,
    };
    let debugged = match debug {
        None => agent,
        Some(lines) => {
            let centre = spec_world_to_screen(camera, camera, screen_dim);
            let marked = if spec_in_rect(
                centre.0 - CAMERA_MARK_SIZE,
                centre.0 + CAMERA_MARK_SIZE,
                centre.1 - CAMERA_MARK_SIZE,
                centre.1 + CAMERA_MARK_SIZE,
                x,
                y,
            ) {
                CAMERA_MARK_COLOR
            } else {
                agent
            };
            let boxed = if spec_on_outline(at, spec_sprite_dim(sprite), x, y) {
                AGENT_BOX_COLOR
            } else {
                marked
            };
            if spec_debug_covers(lines, x, y) {
                DEBUG_COLOR
            } else {
                boxed
            }
        },
    };
    let titled = if spec_text_covers(
        title,
        (TITLE_LEFT as int, screen_dim.1 - TITLE_RISE),
        x,
        y,
    ) {
        TITLE_COLOR
    } else {
        debugged
    };
    match spec_sprite_pixel(mouse_sprite, mouse, x, y) {
        Some(p) => p,
        None => titled,
    }
}

/// The lines of the debug overlay as the frame's layers take them.
pub open spec fn spec_debug_lines(debug: Option<&Vec<Vec<Glyph>>>) -> Option<Seq<Vec<Glyph>>> {
    match debug {
        Some(lines) => Some(lines@),
        None => None,
    }
}

/// Draws the frame: the terrain that the camera sees, the agent, the debug
/// view where `debug` holds the rasterized lines of its overlay, the title
/// and the mouse pointer, each over what was drawn before it.
pub fn draw_screen(
    screen: &mut Screen,
    world: &World,
    player_coords: (isize, isize),
    sprite: &Vec<Vec<Rgba>>,
    camera_coords: (isize, isize),
    screen_dim: (usize, usize),
    debug: Option<&Vec<Vec<Glyph>>>,
    title: &Vec<Glyph>,
    mouse_sprite: &Vec<Vec<Rgba>>,
    mouse_coords: (isize, isize),
)
    requires
        world.wf(),
        spec_has_dim(old(screen)@, screen_dim),
    ensures
        spec_has_dim(final(screen)@, screen_dim),
        forall|x: int, y: int|
            0 <= x < screen_dim.0 && 0 <= y < screen_dim.1
                ==> #[trigger] final(screen)[y][x] == spec_frame_pixel(
                *world,
                (player_coords.0 as int, player_coords.1 as int),
                sprite@,
                (camera_coords.0 as int, camera_coords.1 as int),
                (screen_dim.0 as int, screen_dim.1 as int),
                spec_debug_lines(debug),
                title@,
                mouse_sprite@,
                (mouse_coords.0 as int, mouse_coords.1 as int),
                x,
                y,
            ),
{
    let chunk_dim: (usize, usize) = (world.chunk_dim.0, world.chunk_dim.1);
    world.get_screen(screen, camera_coords, screen_dim, chunk_dim);
    let ghost s0 = screen@;
    let at: (i128, i128) = (
        (screen_dim.0 / 2) as i128 - (camera_coords.0 as i128 - player_coords.0 as i128),
        (screen_dim.1 / 2) as i128 - (player_coords.1 as i128 - camera_coords.1 as i128),
    );
    blit_sprite(screen, sprite, at);
    let ghost s1 = screen@;
    match debug {
        Some(lines) => {
            draw_debug_block(
                screen,
                camera_coords,
                camera_coords,
                CAMERA_MARK_SIZE,
                CAMERA_MARK_COLOR,
                screen_dim.0,
                screen_dim.1,
            );
            let ghost marked = screen@;
            let width: usize = if sprite.len() > 0 {
                sprite[0].len()
            } else {
                0
            };
            blit_outline(screen, at, (width, sprite.len()), AGENT_BOX_COLOR);
            let ghost boxed = screen@;
            draw_debug_screen(screen, lines);
            proof {
                assert forall|x: int, y: int| spec_has_pixel(s1, x, y) implies spec_has_pixel(
                    marked,
                    x,
                    y,
                ) && spec_has_pixel(boxed, x, y) by {}
            }
        },
        None => {},
    }
    let ghost s2 = screen@;
    blit_glyphs(
        screen,
        title,
        (TITLE_LEFT as i128, screen_dim.1 as i128 - TITLE_RISE as i128),
        TITLE_COLOR,
    );
    let ghost s3 = screen@;
    draw_sprite_at(screen, mouse_sprite, mouse_coords);
    proof {
        assert forall|x: int, y: int|
            0 <= x < screen_dim.0 && 0 <= y < screen_dim.1 implies #[trigger] screen[y][x]
            == spec_frame_pixel(
            *world,
            (player_coords.0 as int, player_coords.1 as int),
            sprite@,
            (camera_coords.0 as int, camera_coords.1 as int),
            (screen_dim.0 as int, screen_dim.1 as int),
            spec_debug_lines(debug),
            title@,
            mouse_sprite@,
            (mouse_coords.0 as int, mouse_coords.1 as int),
            x,
            y,
        ) by {
            assert(spec_has_pixel(s0, x, y));
            assert(spec_has_pixel(s1, x, y));
            assert(spec_has_pixel(s2, x, y));
            assert(spec_has_pixel(s3, x, y));
        }
    }
}

} // verus!
