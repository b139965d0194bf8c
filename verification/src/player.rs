//! The agent: its velocity, and its swept movement through the terrain.
//!
//! Velocity is kept in fixed point: `VELOCITY_UNIT` stands for a velocity of
//! 1.0, and a velocity of 10.0 moves the agent one pixel per tick.

use vstd::prelude::*;
use crate::coords::{clamp_isize, spec_clamp_isize, spec_trunc_div, trunc_div};
use crate::world::World;

verus! {

/// The fixed-point value of a velocity of 1.0.
pub const VELOCITY_UNIT: i64 = 1000;

/// The fixed-point velocity that moves the agent one pixel per tick: 10.0.
pub const VELOCITY_PER_PIXEL: i64 = 10_000;

/// The velocity that a jump adds: 300.0.
pub const JUMP_IMPULSE: i64 = 300_000;

/// Health of a newly spawned agent.
pub const SPAWN_HEALTH: usize = 100;

/// Highest velocity up to which a walking agent still accelerates: 50.0.
pub const SPAWN_MAX_VELOCITY: i64 = 50_000;

/// The velocity that one step of walking adds: 5.0.
pub const SPAWN_ACCELERATION: i64 = 5_000;

/// The part of its velocity that an agent loses every tick: one in 20.
pub const SPAWN_DECELERATION_UNIT: i64 = 20;

/// A direction in which the agent walks.
#[derive(Clone, Copy, Debug, PartialEq, Eq)]
pub enum Direction {
    Left,
    Right,
    Up,
    Down,
}

/// The agent.
#[derive(Debug)]
pub struct Player {
    pub health: usize,
    /// Position in world coordinates.
    pub coords: (isize, isize),
    /// Velocity per axis, in fixed point; positive is right and up.
    pub velocity: (i64, i64),
    /// While not running, the agent accelerates only below this velocity.
    pub max_velocity: i64,
    /// The velocity that one step of walking adds.
    pub acceleration_speed: i64,
    /// Every tick the agent loses its velocity divided by this.
    pub deceleration_unit: i64,
    /// Whether the agent runs: a running agent accelerates without limit.
    pub running: bool,
    /// The sample points of the agent's silhouette, as offsets from its
    /// position.
    pub hitbox: Vec<(isize, isize)>,
}

/// A value limited to the range of `i64`.
pub open spec fn spec_saturate(v: int) -> int {
    if v < i64::MIN {
        i64::MIN as int
    } else if v > i64::MAX {
        i64::MAX as int
    } else {
        v
    }
}

/// The velocity along one axis after one step of walking. Walking toward
/// the positive side adds the acceleration while the velocity is below the
/// cap, walking toward the negative side subtracts it while the velocity is
/// above the negated cap; a running agent is not capped. The result stays
/// within the range of the velocity's type.
pub open spec fn spec_accelerate(v: int, positive: bool, acceleration: int, cap: int, running: bool)
    -> int {
    if positive {
        if v < cap || running {
            spec_saturate(v + acceleration)
        } else {
            v
        }
    } else {
        if -v < cap || running {
            spec_saturate(v - acceleration)
        } else {
            v
        }
    }
}

/// The velocity along one axis after one tick of decay: the velocity less
/// its quotient by the deceleration unit, rounded toward zero.
pub open spec fn spec_decay(v: int, deceleration_unit: int) -> int {
    v - spec_trunc_div(v, deceleration_unit)
}

/// The position that an agent at `coords` with the given velocity heads for
/// in one tick: its position plus a tenth of its velocity, rounded toward
/// zero; limited to the range of a coordinate.
pub open spec fn spec_target(coords: (int, int), velocity: (int, int)) -> (int, int) {
    (
        spec_clamp_isize(coords.0 + spec_trunc_div(velocity.0, VELOCITY_PER_PIXEL as int)),
        spec_clamp_isize(coords.1 + spec_trunc_div(velocity.1, VELOCITY_PER_PIXEL as int)),
    )
}

/// The coordinate along one axis at step `k` of a path, counted from 0: one
/// pixel per step from `from` toward `to`, and `to` once it is reached.
pub open spec fn spec_axis_step(from: int, to: int, k: int) -> int {
    if to >= from {
        if from + k + 1 <= to {
            from + k + 1
        } else {
            to
        }
    } else {
        if from - k - 1 >= to {
            from - k - 1
        } else {
            to
        }
    }
}

/// The number of steps of the path from `from` to `to`: the longer of the
/// distances along the two axes.
pub open spec fn spec_path_len(from: (int, int), to: (int, int)) -> int {
    let dx = if to.0 >= from.0 {
        to.0 - from.0
    } else {
        from.0 - to.0
    };
    let dy = if to.1 >= from.1 {
        to.1 - from.1
    } else {
        from.1 - to.1
    };
    if dx >= dy {
        dx
    } else {
        dy
    }
}

/// Step `k` of the path from `from` to `to`. Both axes advance together; the
/// axis with the shorter distance stays at its end once it has reached it.
pub open spec fn spec_path_step(from: (int, int), to: (int, int), k: int) -> (int, int) {
    (spec_axis_step(from.0, to.0, k), spec_axis_step(from.1, to.1, k))
}

/// The position of an agent after the first `k` steps of the path from
/// `from` to `to`: the last of those steps at which its hitbox does not
/// collide, or `from` if it collides at all of them.
pub open spec fn spec_sweep(
    world: World,
    hitbox: Seq<(isize, isize)>,
    from: (int, int),
    to: (int, int),
    k: nat,
) -> (int, int)
    decreases k,
{
    if k == 0 {
        from
    } else {
        let step = spec_path_step(from, to, k - 1);
        if !world.hits_at(hitbox, step) {
            step
        } else {
            spec_sweep(world, hitbox, from, to, (k - 1) as nat)
        }
    }
}

/// The state of an agent after one step of walking in a direction.
pub open spec fn spec_walk(p: Player, direction: Direction) -> Player {
    let cap = p.max_velocity as int;
    let acc = p.acceleration_speed as int;
    match direction {
        Direction::Right => Player {
            velocity: (
                spec_accelerate(p.velocity.0 as int, true, acc, cap, p.running) as i64,
                p.velocity.1,
            ),
            ..p
        },
        Direction::Left => Player {
            velocity: (
                spec_accelerate(p.velocity.0 as int, false, acc, cap, p.running) as i64,
                p.velocity.1,
            ),
            ..p
        },
        Direction::Up => Player {
            velocity: (
                p.velocity.0,
                spec_accelerate(p.velocity.1 as int, true, acc, cap, p.running) as i64,
            ),
            ..p
        },
        Direction::Down => Player {
            velocity: (
                p.velocity.0,
                spec_accelerate(p.velocity.1 as int, false, acc, cap, p.running) as i64,
            ),
            ..p
        },
    }
}

/// The state of an agent after one tick in a world: it has moved along the
/// path toward its target as far as the terrain lets it, and its velocity
/// has decayed.
pub open spec fn spec_update_location(p: Player, world: World) -> Player {
    let from = (p.coords.0 as int, p.coords.1 as int);
    let to = spec_target(from, (p.velocity.0 as int, p.velocity.1 as int));
    let end = spec_sweep(world, p.hitbox@, from, to, spec_path_len(from, to) as nat);
    Player {
        coords: (end.0 as isize, end.1 as isize),
        velocity: (
            spec_decay(p.velocity.0 as int, p.deceleration_unit as int) as i64,
            spec_decay(p.velocity.1 as int, p.deceleration_unit as int) as i64,
        ),
        ..p
    }
}

/// A value limited to the range of `i64`.
fn saturate(v: i128) -> (s: i64)
    ensures
        s == spec_saturate(v as int),
{
    if v < i64::MIN as i128 {
        i64::MIN
    } else if v > i64::MAX as i128 {
        i64::MAX
    } else {
        v as i64
    }
}

/// The velocity along one axis after one step of walking.
pub fn accelerate(v: i64, positive: bool, acceleration: i64, cap: i64, running: bool) -> (next: i64)
    ensures
        next == spec_accelerate(v as int, positive, acceleration as int, cap as int, running),
{
    if positive {
        if v < cap || running {
            saturate(v as i128 + acceleration as i128)
        } else {
            v
        }
    } else {
        if -(v as i128) < cap as i128 || running {
            saturate(v as i128 - acceleration as i128)
        } else {
            v
        }
    }
}

/// The velocity along one axis after one tick of decay.
pub fn decay(v: i64, deceleration_unit: i64) -> (next: i64)
    requires
        deceleration_unit > 0,
    ensures
        next == spec_decay(v as int, deceleration_unit as int),
{
    let lost: i128 = trunc_div(v as i128, deceleration_unit as i128);
    (v as i128 - lost) as i64
}

/// The coordinate along one axis at step `k` of a path.
fn axis_step(from: isize, to: isize, k: u128) -> (at: isize)
    requires
        k <= 0xffff_ffff_ffff_ffff,
    ensures
        at == spec_axis_step(from as int, to as int, k as int),
{
    if to >= from {
        let next: i128 = from as i128 + k as i128 + 1;
        if next <= to as i128 {
            next as isize
        } else {
            to
        }
    } else {
        let next: i128 = from as i128 - k as i128 - 1;
        if next >= to as i128 {
            next as isize
        } else {
            to
        }
    }
}

/// The number of steps of the path from `from` to `to`.
fn path_len(from: (isize, isize), to: (isize, isize)) -> (n: u128)
    ensures
        n == spec_path_len((from.0 as int, from.1 as int), (to.0 as int, to.1 as int)),
        n <= 0xffff_ffff_ffff_ffff,
{
    let dx: i128 = if to.0 >= from.0 {
        to.0 as i128 - from.0 as i128
    } else {
        from.0 as i128 - to.0 as i128
    };
    let dy: i128 = if to.1 >= from.1 {
        to.1 as i128 - from.1 as i128
    } else {
        from.1 as i128 - to.1 as i128
    };
    if dx >= dy {
        dx as u128
    } else {
        dy as u128
    }
}

/// Moves an agent with the given hitbox from `from` toward `to`, one step of
/// the path at a time. The agent takes a step only where its hitbox does not
/// collide there, and both axes move together. Returns where it ends up.
pub fn sweep(world: &World, hitbox: &Vec<(isize, isize)>, from: (isize, isize), to: (isize, isize))
    -> (end: (isize, isize))
    requires
        world.wf(),
    ensures
        (end.0 as int, end.1 as int) == spec_sweep(
            *world,
            hitbox@,
            (from.0 as int, from.1 as int),
            (to.0 as int, to.1 as int),
            spec_path_len((from.0 as int, from.1 as int), (to.0 as int, to.1 as int)) as nat,
        ),
{
    let n: u128 = path_len(from, to);
    let mut end: (isize, isize) = from;
    let mut k: u128 = 0;
    while k < n
        invariant
            world.wf(),
            k <= n,
            n <= 0xffff_ffff_ffff_ffff,
            (end.0 as int, end.1 as int) == spec_sweep(
                *world,
                hitbox@,
                (from.0 as int, from.1 as int),
                (to.0 as int, to.1 as int),
                k as nat,
            ),
        decreases n - k,
    {
        let step: (isize, isize) = (axis_step(from.0, to.0, k), axis_step(from.1, to.1, k));
        if !world.collides_at(hitbox, step) {
            end = step;
        }
        k += 1;
    }
    end
}

/// The hitbox of a sprite of `width` by `height` pixels: the four corners of
/// its rectangle, as offsets from the top-left corner. World heights grow
/// upward, so the lower corners have a negative vertical offset.
pub open spec fn spec_corner_hitbox(width: int, height: int) -> Seq<(isize, isize)> {
    let right = if width >= 1 {
        width - 1
    } else {
        0
    };
    let bottom = if height >= 1 {
        -(height - 1)
    } else {
        0
    };
    seq![
        (0isize, 0isize),
        (right as isize, 0isize),
        (0isize, bottom as isize),
        (right as isize, bottom as isize),
    ]
}

/// The hitbox of a sprite of `width` by `height` pixels: the four corners of
/// its rectangle, as offsets from the top-left corner.
pub fn corner_hitbox(width: usize, height: usize) -> (hitbox: Vec<(isize, isize)>)
    requires
        width <= isize::MAX,
        height <= isize::MAX,
    ensures
        hitbox@ == spec_corner_hitbox(width as int, height as int),
{
    let right: isize = if width >= 1 {
        (width - 1) as isize
    } else {
        0
    };
    let bottom: isize = if height >= 1 {
        -((height - 1) as isize)
    } else {
        0
    };
    let mut hitbox: Vec<(isize, isize)> = Vec::new();
    hitbox.push((0, 0));
    hitbox.push((right, 0));
    hitbox.push((0, bottom));
    hitbox.push((right, bottom));
    assert(hitbox@ =~= spec_corner_hitbox(width as int, height as int));
    hitbox
}

impl Player {
    /// Whether the agent's deceleration unit is positive, so that its
    /// velocity can decay.
    pub open spec fn wf(&self) -> bool {
        self.deceleration_unit > 0
    }

    /// A new agent at `coords`, at rest and walking, with the given hitbox.
    pub fn spawn(coords: (isize, isize), hitbox: Vec<(isize, isize)>) -> (player: Player)
        ensures
            player == (Player {
                health: SPAWN_HEALTH,
                coords,
                velocity: (0, 0),
                max_velocity: SPAWN_MAX_VELOCITY,
                acceleration_speed: SPAWN_ACCELERATION,
                deceleration_unit: SPAWN_DECELERATION_UNIT,
                running: false,
                hitbox,
            }),
            player.wf(),
    {
        Player {
            health: SPAWN_HEALTH,
            coords,
            velocity: (0, 0),
            max_velocity: SPAWN_MAX_VELOCITY,
            acceleration_speed: SPAWN_ACCELERATION,
            deceleration_unit: SPAWN_DECELERATION_UNIT,
            running: false,
            hitbox,
        }
    }

    /// Moves the agent for one tick: from its position toward its target
    /// along the path, as far as the terrain lets it, and lets its velocity
    /// decay.
    pub fn update_location(&mut self, world: &World, chunk_dim: (usize, usize))
        requires
            old(self).wf(),
            world.wf(),
            chunk_dim == world.chunk_dim,
        ensures
            *final(self) == spec_update_location(*old(self), *world),
            final(self).wf(),
    {
        let step_x: i128 = trunc_div(self.velocity.0 as i128, VELOCITY_PER_PIXEL as i128);
        let step_y: i128 = trunc_div(self.velocity.1 as i128, VELOCITY_PER_PIXEL as i128);
        let tx: isize = clamp_isize(self.coords.0 as i128 + step_x);
        let ty: isize = clamp_isize(self.coords.1 as i128 + step_y);
        let end: (isize, isize) = sweep(world, &self.hitbox, self.coords, (tx, ty));
        self.coords = end;
        self.velocity = (
            decay(self.velocity.0, self.deceleration_unit),
            decay(self.velocity.1, self.deceleration_unit),
        );
    }

    /// Accelerates the agent by one step in a direction. A walking agent
    /// accelerates only while its velocity in that direction is below its
    /// maximum; a running agent always does.
    pub fn walk(&mut self, direction: Direction)
        ensures
            *final(self) == spec_walk(*old(self), direction),
    {
        match direction {
            Direction::Right => {
                self.velocity.0 = accelerate(
                    self.velocity.0,
                    true,
                    self.acceleration_speed,
                    self.max_velocity,
                    self.running,
                );
            },
            Direction::Left => {
                self.velocity.0 = accelerate(
                    self.velocity.0,
                    false,
                    self.acceleration_speed,
                    self.max_velocity,
                    self.running,
                );
            },
            Direction::Up => {
                self.velocity.1 = accelerate(
                    self.velocity.1,
                    true,
                    self.acceleration_speed,
                    self.max_velocity,
                    self.running,
                );
            },
            Direction::Down => {
                self.velocity.1 = accelerate(
                    self.velocity.1,
                    false,
                    self.acceleration_speed,
                    self.max_velocity,
                    self.running,
                );
            },
        }
    }

    /// Adds the jump impulse to the agent's upward velocity.
    pub fn jump(&mut self)
        ensures
            *final(self) == (Player {
                velocity: (
                    old(self).velocity.0,
                    spec_saturate(old(self).velocity.1 + JUMP_IMPULSE) as i64,
                ),
                ..*old(self)
            }),
    {
        self.velocity.1 = saturate(self.velocity.1 as i128 + JUMP_IMPULSE as i128);
    }
}

/// The last step of a path is its end.
pub proof fn lemma_path_ends_at_target(from: (int, int), to: (int, int))
    ensures
        spec_path_len(from, to) >= 0,
        spec_path_len(from, to) == 0 ==> from == to,
        spec_path_len(from, to) > 0 ==> spec_path_step(from, to, spec_path_len(from, to) - 1)
            == to,
{
}

/// An agent whose hitbox collides at no step of its path moves all the way
/// to its target.
pub proof fn lemma_free_path_reaches_target(
    world: World,
    hitbox: Seq<(isize, isize)>,
    from: (int, int),
    to: (int, int),
)
    requires
        forall|k: int|
            0 <= k < spec_path_len(from, to) ==> !world.hits_at(
                hitbox,
                #[trigger] spec_path_step(from, to, k),
            ),
    ensures
        spec_sweep(world, hitbox, from, to, spec_path_len(from, to) as nat) == to,
{
    lemma_path_ends_at_target(from, to);
    let n = spec_path_len(from, to);
    if n > 0 {
        let last = spec_path_step(from, to, n - 1);
        assert(!world.hits_at(hitbox, last));
    }
}

/// A sweep ends where it began or at a step of the path at which the hitbox
/// does not collide: an agent is never moved into the terrain.
pub proof fn lemma_sweep_ends_free(
    world: World,
    hitbox: Seq<(isize, isize)>,
    from: (int, int),
    to: (int, int),
    k: nat,
)
    ensures
        ({
            let end = spec_sweep(world, hitbox, from, to, k);
            ||| end == from
            ||| exists|j: int|
                0 <= j < k && end == spec_path_step(from, to, j) && !world.hits_at(hitbox, end)
        }),
    decreases k,
{
    if k > 0 {
        let step = spec_path_step(from, to, k - 1);
        if world.hits_at(hitbox, step) {
            lemma_sweep_ends_free(world, hitbox, from, to, (k - 1) as nat);
            let end = spec_sweep(world, hitbox, from, to, (k - 1) as nat);
            if end != from {
                let j = choose|j: int|
                    0 <= j < k - 1 && end == spec_path_step(from, to, j) && !world.hits_at(
                        hitbox,
                        end,
                    );
                assert(0 <= j < k && end == spec_path_step(from, to, j) && !world.hits_at(
                    hitbox,
                    end,
                ));
            }
        } else {
            assert(0 <= k - 1 < k && step == spec_path_step(from, to, k - 1) && !world.hits_at(
                hitbox,
                step,
            ));
        }
    }
}

/// An agent at rest stays where it is and stays at rest, whatever the world.
pub proof fn lemma_resting_agent_stays(p: Player, world: World)
    requires
        p.wf(),
        p.velocity == (0i64, 0i64),
    ensures
        spec_update_location(p, world).coords == p.coords,
        spec_update_location(p, world).velocity == (0i64, 0i64),
{
    let from = (p.coords.0 as int, p.coords.1 as int);
    assert(spec_target(from, (0, 0)) == from);
    lemma_path_ends_at_target(from, from);
    assert(spec_path_len(from, from) == 0);
}

/// Running removes the cap: a running agent gains the acceleration whatever
/// its velocity, as long as the sum stays within the range of a velocity.
pub proof fn lemma_running_removes_the_cap(v: int, positive: bool, acceleration: int, cap: int)
    ensures
        positive && i64::MIN <= v + acceleration <= i64::MAX ==> spec_accelerate(
            v,
            true,
            acceleration,
            cap,
            true,
        ) == v + acceleration,
        !positive && i64::MIN <= v - acceleration <= i64::MAX ==> spec_accelerate(
            v,
            false,
            acceleration,
            cap,
            true,
        ) == v - acceleration,
{
}

/// A walking agent below its maximum gains the acceleration; at or above it
/// the velocity is kept.
pub proof fn lemma_walking_is_gated(v: int, acceleration: int, cap: int)
    ensures
        v < cap && i64::MIN <= v + acceleration <= i64::MAX ==> spec_accelerate(
            v,
            true,
            acceleration,
            cap,
            false,
        ) == v + acceleration,
        v >= cap ==> spec_accelerate(v, true, acceleration, cap, false) == v,
        -v < cap && i64::MIN <= v - acceleration <= i64::MAX ==> spec_accelerate(
            v,
            false,
            acceleration,
            cap,
            false,
        ) == v - acceleration,
        -v >= cap ==> spec_accelerate(v, false, acceleration, cap, false) == v,
{
}

/// An agent whose hitbox collides nowhere on the way to its target is at its
/// target after the tick.
pub proof fn lemma_unobstructed_tick_reaches_target(p: Player, world: World)
    requires
        ({
            let from = (p.coords.0 as int, p.coords.1 as int);
            let to = spec_target(from, (p.velocity.0 as int, p.velocity.1 as int));
            forall|k: int|
                0 <= k < spec_path_len(from, to) ==> !world.hits_at(
                    p.hitbox@,
                    #[trigger] spec_path_step(from, to, k),
                )
        }),
    ensures
        ({
            let from = (p.coords.0 as int, p.coords.1 as int);
            let to = spec_target(from, (p.velocity.0 as int, p.velocity.1 as int));
            let after = spec_update_location(p, world);
            (after.coords.0 as int, after.coords.1 as int) == to
        }),
{
    let from = (p.coords.0 as int, p.coords.1 as int);
    let to = spec_target(from, (p.velocity.0 as int, p.velocity.1 as int));
    lemma_free_path_reaches_target(world, p.hitbox@, from, to);
}

} // verus!
