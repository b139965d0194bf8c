//! Particles, chunks and the rules by which noise becomes terrain.
//!
//! Noise is handled in fixed point: a sample is a whole number of thousandths,
//! so `NOISE_UNIT` stands for 1.0 and a well-behaved sampler stays within
//! `-NOISE_UNIT ..= NOISE_UNIT`. The sampler is handed in as a function of the
//! seed and the world coordinate of a cell.

use vstd::prelude::*;
use crate::coords::wide_product;

verus! {

/// The fixed-point value of a noise sample of 1.0.
pub const NOISE_UNIT: i32 = 1000;

/// World pixels per unit of the noise field's input: the sampler evaluates
/// the field at the world coordinate divided by this.
pub const NOISE_PERIOD: isize = 500;

/// The highest value the cave threshold reaches, however deep the cell.
pub const CAVE_THRESHOLD_CAP: i32 = 100;

/// Colour of solid earth.
pub const EARTH: [u8; 4] = [124, 94, 66, 255];

/// Colour of sky and of cave air; its alpha channel is zero.
pub const SKY: [u8; 4] = [135, 206, 235, 0];

/// The smallest unit of terrain.
#[derive(Clone, Copy, Debug, PartialEq, Eq)]
pub struct Particle {
    /// Colour, as red, green, blue and alpha.
    pub rgba: [u8; 4],
    /// Whether the particle is solid.
    pub collision: bool,
}

impl Particle {
    /// A particle of the given colour and solidity.
    pub fn new(rgba: [u8; 4], collision: bool) -> (p: Particle)
        ensures
            p == (Particle { rgba, collision }),
    {
        Particle { rgba, collision }
    }
}

/// The row of a chunk at which the ground begins, for a cell with the given
/// noise sample.
///
/// In the chunk row with vertical coordinate 0 the sample is mapped from
/// `-NOISE_UNIT ..= NOISE_UNIT` onto the rows `0 ..= height`. A chunk with a
/// positive vertical coordinate lies in the sky: its ground level is the chunk
/// height, which no row reaches. A chunk with a negative vertical coordinate
/// lies underground: its ground level is 0, which every row reaches.
pub open spec fn spec_ground_level(chunk_y: int, height: int, noise: int) -> int {
    if chunk_y == 0 {
        let level = (height * (noise + NOISE_UNIT)) / (2 * NOISE_UNIT);
        if level < 0 {
            0
        } else if level > height {
            height
        } else {
            level
        }
    } else if chunk_y > 0 {
        height
    } else {
        0
    }
}

/// The value a noise sample must exceed for a cell at the given world height
/// to be solid, in thousandths: `-(world_y / 1000) - 1`, capped at
/// `CAVE_THRESHOLD_CAP`. It is near -1.0 at the surface and rises with depth,
/// so caves open up only below the surface.
pub open spec fn spec_depth_threshold(world_y: int) -> int {
    let t = -world_y - NOISE_UNIT;
    if t > CAVE_THRESHOLD_CAP {
        CAVE_THRESHOLD_CAP as int
    } else {
        t
    }
}

/// Whether a cell is solid ground: it lies at or below the ground level and
/// its noise sample exceeds the depth threshold.
pub open spec fn spec_is_ground(chunk_y: int, height: int, row: int, world_y: int, noise: int)
    -> bool {
    row >= spec_ground_level(chunk_y, height, noise) && noise > spec_depth_threshold(world_y)
}

/// The particle of a cell: solid earth where the cell is ground, passable sky
/// or cave air elsewhere.
pub open spec fn spec_particle(chunk_y: int, height: int, row: int, world_y: int, noise: int)
    -> Particle {
    if spec_is_ground(chunk_y, height, row, world_y, noise) {
        Particle { rgba: EARTH, collision: true }
    } else {
        Particle { rgba: SKY, collision: false }
    }
}

/// World coordinate of the cell in column `x`, row `y` of a chunk. Rows count
/// downward from the chunk's top edge, world heights upward.
pub open spec fn spec_cell_world(chunk_coords: (int, int), chunk_dim: (int, int), x: int, y: int)
    -> (int, int) {
    (chunk_coords.0 * chunk_dim.0 + x, chunk_coords.1 * chunk_dim.1 - y)
}

/// Whether the world coordinate of every cell of a chunk fits a machine word.
pub open spec fn spec_chunk_in_range(chunk_coords: (int, int), chunk_dim: (int, int)) -> bool {
    &&& isize::MIN <= chunk_coords.0 * chunk_dim.0
    &&& chunk_coords.0 * chunk_dim.0 + chunk_dim.0 <= isize::MAX
    &&& isize::MIN <= chunk_coords.1 * chunk_dim.1 - chunk_dim.1
    &&& chunk_coords.1 * chunk_dim.1 <= isize::MAX
}

/// Whether `p` is a particle that the terrain rules give to the cell in
/// column `x`, row `y` of a chunk, for a sample that `sample` may return for
/// the cell's world coordinate.
pub open spec fn spec_cell_generated<F: Fn(u32, isize, isize) -> i32>(
    sample: &F,
    seed: u32,
    chunk_coords: (isize, isize),
    chunk_dim: (usize, usize),
    x: int,
    y: int,
    p: Particle,
) -> bool {
    let w = spec_cell_world(
        (chunk_coords.0 as int, chunk_coords.1 as int),
        (chunk_dim.0 as int, chunk_dim.1 as int),
        x,
        y,
    );
    exists|noise: i32|
        call_ensures(sample, (seed, w.0 as isize, w.1 as isize), noise) && p == spec_particle(
            chunk_coords.1 as int,
            chunk_dim.1 as int,
            y,
            w.1,
            noise as int,
        )
}

/// Whether a sampler returns one value only for each seed and coordinate.
pub open spec fn spec_deterministic<F: Fn(u32, isize, isize) -> i32>(sample: &F) -> bool {
    forall|s: u32, x: isize, y: isize, a: i32, b: i32|
        #[trigger] call_ensures(sample, (s, x, y), a) && #[trigger] call_ensures(
            sample,
            (s, x, y),
            b,
        ) ==> a == b
}

/// The terrain rules decide every generated cell. For a deterministic
/// sampler and the sample it returns at the cell's world coordinate: a cell
/// at or below the ground level whose sample exceeds the depth threshold is
/// solid earth; a cell above the ground level, and a cell whose sample does
/// not exceed the threshold, is passable sky or cave air.
pub proof fn lemma_cell_follows_noise<F: Fn(u32, isize, isize) -> i32>(
    sample: &F,
    seed: u32,
    chunk_coords: (isize, isize),
    chunk_dim: (usize, usize),
    x: int,
    y: int,
    p: Particle,
    noise: i32,
)
    requires
        spec_cell_generated(sample, seed, chunk_coords, chunk_dim, x, y, p),
        spec_deterministic(sample),
        ({
            let w = spec_cell_world(
                (chunk_coords.0 as int, chunk_coords.1 as int),
                (chunk_dim.0 as int, chunk_dim.1 as int),
                x,
                y,
            );
            call_ensures(sample, (seed, w.0 as isize, w.1 as isize), noise)
        }),
    ensures
        ({
            let wy = chunk_coords.1 * chunk_dim.1 - y;
            let ground = spec_is_ground(
                chunk_coords.1 as int,
                chunk_dim.1 as int,
                y,
                wy,
                noise as int,
            );
            &&& ground ==> p.collision && p.rgba == EARTH
            &&& !ground ==> !p.collision && p.rgba == SKY
        }),
{
}

/// The row at which the ground begins for a cell with the given noise sample.
pub fn ground_level(chunk_y: isize, height: usize, noise: i32) -> (level: usize)
    ensures
        level == spec_ground_level(chunk_y as int, height as int, noise as int),
        level <= height,
{
    if chunk_y == 0 {
        let h: i128 = height as i128;
        let shifted: i128 = noise as i128 + NOISE_UNIT as i128;
        assert(-0x1_0000_0000_0000_0000_0000_0000 <= h * shifted
            <= 0x1_0000_0000_0000_0000_0000_0000) by (nonlinear_arith)
            requires
                0 <= h <= 0xffff_ffff_ffff_ffff,
                -0x1_0000_0000 <= shifted <= 0x1_0000_0000,
        ;
        let scaled: i128 = h * shifted;
        if scaled < 0 {
            proof {
                vstd::arithmetic::div_mod::lemma_fundamental_div_mod(scaled as int, 2000);
                vstd::arithmetic::div_mod::lemma_mod_bound(scaled as int, 2000);
            }
            0
        } else {
            let level: i128 = scaled / 2000;
            if level > h {
                height
            } else {
                level as usize
            }
        }
    } else if chunk_y > 0 {
        height
    } else {
        0
    }
}

/// The particle of the cell in row `row` of a chunk, at world height
/// `world_y`, for the noise sample `noise` taken at the cell.
pub fn terrain_particle(chunk_y: isize, height: usize, row: usize, world_y: isize, noise: i32)
    -> (p: Particle)
    ensures
        p == spec_particle(
            chunk_y as int,
            height as int,
            row as int,
            world_y as int,
            noise as int,
        ),
{
    let ground: usize = ground_level(chunk_y, height, noise);
    let raw: i128 = -(world_y as i128) - NOISE_UNIT as i128;
    let threshold: i128 = if raw > CAVE_THRESHOLD_CAP as i128 {
        CAVE_THRESHOLD_CAP as i128
    } else {
        raw
    };
    if row >= ground && noise as i128 > threshold {
        Particle::new(EARTH, true)
    } else {
        Particle::new(SKY, false)
    }
}

/// A rectangular tile of the world, the unit of generation.
#[derive(Debug)]
pub struct Chunk {
    /// Position of the chunk in the grid of chunks; the vertical coordinate
    /// grows upward.
    pub chunk_coords: (isize, isize),
    /// The particles, rows outer and top row first.
    pub data: Vec<Vec<Particle>>,
}

impl Clone for Chunk {
    /// A chunk at the same coordinates that holds the same particles.
    fn clone(&self) -> (copy: Chunk)
        ensures
            copy.chunk_coords == self.chunk_coords,
            copy.data.len() == self.data.len(),
            forall|y: int| 0 <= y < self.data.len() ==> (#[trigger] copy.data[y])@ == self.data[y]@,
    {
        let mut data: Vec<Vec<Particle>> = Vec::new();
        let mut y: usize = 0;
        while y < self.data.len()
            invariant
                y <= self.data.len(),
                data.len() == y,
                forall|r: int| 0 <= r < y ==> (#[trigger] data[r])@ == self.data[r]@,
            decreases self.data.len() - y,
        {
            let mut row: Vec<Particle> = Vec::new();
            let mut x: usize = 0;
            while x < self.data[y].len()
                invariant
                    y < self.data.len(),
                    x <= self.data[y as int].len(),
                    row.len() == x,
                    forall|c: int| 0 <= c < x ==> #[trigger] row[c] == self.data[y as int][c],
                decreases self.data[y as int].len() - x,
            {
                row.push(self.data[y][x]);
                x += 1;
            }
            assert(row@ =~= self.data[y as int]@);
            data.push(row);
            y += 1;
        }
        Chunk { chunk_coords: (self.chunk_coords.0, self.chunk_coords.1), data }
    }
}

impl Chunk {
    /// Whether the chunk holds exactly `chunk_dim.1` rows of `chunk_dim.0`
    /// particles.
    pub open spec fn wf(&self, chunk_dim: (usize, usize)) -> bool {
        &&& self.data.len() == chunk_dim.1
        &&& forall|y: int| 0 <= y < self.data.len() ==> (#[trigger] self.data[y]).len() == chunk_dim.0
    }

    /// The particle in column `x`, row `y`.
    pub open spec fn cell(&self, x: int, y: int) -> Particle {
        self.data[y][x]
    }

    /// Generates the chunk at `chunk_coords`: every cell gets the particle
    /// that the terrain rules give it for the sample that `sample` returns
    /// for the seed and the cell's world coordinate.
    pub fn gen_perlin<F: Fn(u32, isize, isize) -> i32>(
        chunk_coords: (isize, isize),
        sample: &F,
        seed: u32,
        chunk_dim: (usize, usize),
    ) -> (chunk: Chunk)
        requires
            spec_chunk_in_range(
                (chunk_coords.0 as int, chunk_coords.1 as int),
                (chunk_dim.0 as int, chunk_dim.1 as int),
            ),
            forall|s: u32, x: isize, y: isize| call_requires(sample, (s, x, y)),
        ensures
            chunk.chunk_coords == chunk_coords,
            chunk.wf(chunk_dim),
            forall|x: int, y: int|
                0 <= x < chunk_dim.0 && 0 <= y < chunk_dim.1 ==> spec_cell_generated(
                    sample,
                    seed,
                    chunk_coords,
                    chunk_dim,
                    x,
                    y,
                    #[trigger] chunk.cell(x, y),
                ),
    {
        let left: i128 = wide_product(chunk_coords.0, chunk_dim.0);
        let top: i128 = wide_product(chunk_coords.1, chunk_dim.1);
        let mut data: Vec<Vec<Particle>> = Vec::new();
        let mut y: usize = 0;
        while y < chunk_dim.1
            invariant
                y <= chunk_dim.1,
                data.len() == y,
                left == chunk_coords.0 * chunk_dim.0,
                top == chunk_coords.1 * chunk_dim.1,
                spec_chunk_in_range(
                    (chunk_coords.0 as int, chunk_coords.1 as int),
                    (chunk_dim.0 as int, chunk_dim.1 as int),
                ),
                forall|s: u32, x: isize, y: isize| call_requires(sample, (s, x, y)),
                forall|r: int| 0 <= r < y ==> (#[trigger] data[r]).len() == chunk_dim.0,
                forall|c: int, r: int|
                    0 <= c < chunk_dim.0 && 0 <= r < y ==> spec_cell_generated(
                        sample,
                        seed,
                        chunk_coords,
                        chunk_dim,
                        c,
                        r,
                        #[trigger] data[r][c],
                    ),
            decreases chunk_dim.1 - y,
        {
            let wy: isize = (top - y as i128) as isize;
            let mut row: Vec<Particle> = Vec::new();
            let mut x: usize = 0;
            while x < chunk_dim.0
                invariant
                    x <= chunk_dim.0,
                    y < chunk_dim.1,
                    row.len() == x,
                    left == chunk_coords.0 * chunk_dim.0,
                    wy == chunk_coords.1 * chunk_dim.1 - y,
                    spec_chunk_in_range(
                        (chunk_coords.0 as int, chunk_coords.1 as int),
                        (chunk_dim.0 as int, chunk_dim.1 as int),
                    ),
                    forall|s: u32, x: isize, y: isize| call_requires(sample, (s, x, y)),
                    forall|c: int|
                        0 <= c < x ==> spec_cell_generated(
                            sample,
                            seed,
                            chunk_coords,
                            chunk_dim,
                            c,
                            y as int,
                            #[trigger] row[c],
                        ),
                decreases chunk_dim.0 - x,
            {
                let wx: isize = (left + x as i128) as isize;
                let noise: i32 = sample(seed, wx, wy);
                let p: Particle = terrain_particle(chunk_coords.1, chunk_dim.1, y, wy, noise);
                row.push(p);
                x += 1;
            }
            data.push(row);
            y += 1;
        }
        Chunk { chunk_coords, data }
    }
}

} // verus!
