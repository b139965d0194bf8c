//! The camera, which follows the agent.

use vstd::prelude::*;
use crate::coords::{spec_trunc_div, trunc_div};
use crate::player::Player;
use crate::world::World;

verus! {

/// Within this distance of the agent, in pixels, the camera creeps toward it
/// one pixel per tick; from further away it covers one part in
/// `CAMERA_DEAD_ZONE` of the distance.
pub const CAMERA_DEAD_ZONE: isize = 25;

/// How far the camera moves along one axis in a tick, for the distance from
/// the camera to the agent: one pixel toward the agent within the dead zone,
/// the distance divided by the dead zone, rounded toward zero, outside it,
/// and nothing once it is on the agent.
pub open spec fn spec_camera_step(distance: int) -> int {
    if -CAMERA_DEAD_ZONE < distance < CAMERA_DEAD_ZONE && distance != 0 {
        if distance >= 0 {
            1
        } else {
            -1
        }
    } else {
        spec_trunc_div(distance, CAMERA_DEAD_ZONE as int)
    }
}

/// The camera moves toward the agent, never past it, and gets closer
/// whenever it is not on it.
pub proof fn lemma_camera_approaches(distance: int)
    ensures
        distance > 0 ==> 0 < spec_camera_step(distance) <= distance,
        distance < 0 ==> distance <= spec_camera_step(distance) < 0,
        distance == 0 ==> spec_camera_step(distance) == 0,
{
    if distance >= CAMERA_DEAD_ZONE {
        assert(distance / 25 >= 1 && distance / 25 <= distance) by (nonlinear_arith)
            requires
                distance >= 25,
        ;
    } else if distance <= -CAMERA_DEAD_ZONE {
        let m = -distance;
        assert(m / 25 >= 1 && m / 25 <= m) by (nonlinear_arith)
            requires
                m >= 25,
        ;
    }
}

/// The camera's coordinate along one axis after one tick of following a
/// target.
pub fn move_camera(camera: isize, target: isize) -> (next: isize)
    ensures
        next == camera + spec_camera_step(target - camera),
{
    let distance: i128 = target as i128 - camera as i128;
    proof {
        lemma_camera_approaches(distance as int);
    }
    let step: i128 = if distance < CAMERA_DEAD_ZONE as i128 && distance > -(CAMERA_DEAD_ZONE
        as i128) && distance != 0 {
        if distance >= 0 {
            1
        } else {
            -1
        }
    } else {
        trunc_div(distance, CAMERA_DEAD_ZONE as i128)
    };
    (camera as i128 + step) as isize
}

/// Moves the camera one tick toward the agent, each axis by itself.
pub fn update_camera(camera_coords: &mut (isize, isize), player: &Player)
    ensures
        final(camera_coords).0 == old(camera_coords).0 + spec_camera_step(
            player.coords.0 - old(camera_coords).0,
        ),
        final(camera_coords).1 == old(camera_coords).1 + spec_camera_step(
            player.coords.1 - old(camera_coords).1,
        ),
{
    let x: isize = move_camera(camera_coords.0, player.coords.0);
    let y: isize = move_camera(camera_coords.1, player.coords.1);
    *camera_coords = (x, y);
}

/// One tick of the simulation: the agent moves, then the camera follows it
/// to where it now is.
pub fn do_updates(
    camera_coords: &mut (isize, isize),
    player: &mut Player,
    world: &World,
    chunk_dim: (usize, usize),
)
    requires
        old(player).wf(),
        world.wf(),
        chunk_dim == world.chunk_dim,
    ensures
        *final(player) == crate::player::spec_update_location(*old(player), *world),
        final(player).wf(),
        final(camera_coords).0 == old(camera_coords).0 + spec_camera_step(
            final(player).coords.0 - old(camera_coords).0,
        ),
        final(camera_coords).1 == old(camera_coords).1 + spec_camera_step(
            final(player).coords.1 - old(camera_coords).1,
        ),
{
    player.update_location(world, chunk_dim);
    update_camera(camera_coords, player);
}

} // verus!
