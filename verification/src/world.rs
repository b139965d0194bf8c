//! The world: a square grid of chunks around the chunk at (0, 0), and the
//! queries that read it by world coordinate.

use vstd::prelude::*;
use rand::Rng;
use crate::coords::{
    floor_div_mod, lemma_chunk_and_inner, local_to_chunk_and_inner, spec_chunk_index,
    spec_inner_index, spec_local_to_world, spec_screen_to_world, spec_world_to_local,
    wide_product, world_to_local,
};
use crate::drawing::{spec_has_dim, Rgba, Screen, BACKGROUND};
use crate::terrain::{
    spec_cell_generated, spec_cell_world, spec_chunk_in_range, spec_deterministic, spec_is_ground,
    spec_particle, Chunk, Particle,
};

verus! {

/// The generated terrain: `2 * gen_range + 1` rows of as many chunks.
///
/// Row 0 is the topmost row, which holds the chunks with vertical coordinate
/// `gen_range`; column 0 holds the chunks with horizontal coordinate
/// `-gen_range`. The chunk at row 0, column 0 is the origin chunk, from whose
/// top-left pixel local coordinates are counted.
#[derive(Debug)]
pub struct World {
    /// The chunks, rows outer and top row first.
    pub data: Vec<Vec<Chunk>>,
    /// The seed the terrain was generated from.
    pub seed: u32,
    /// How far the chunks reach from the chunk at (0, 0) in each direction.
    pub gen_range: isize,
    /// Width and height of every chunk, in pixels.
    pub chunk_dim: (usize, usize),
}

/// Whether a world of the given range and chunk dimensions can be built: the
/// chunks are not empty and the world coordinate of every cell fits a machine
/// word.
pub open spec fn spec_world_fits(gen_range: int, chunk_dim: (int, int)) -> bool {
    &&& gen_range >= 0
    &&& chunk_dim.0 > 0
    &&& chunk_dim.1 > 0
    &&& (gen_range + 1) * chunk_dim.0 <= isize::MAX
    &&& (gen_range + 1) * chunk_dim.1 <= isize::MAX
}

/// Whether a world of the given range and chunk dimensions can be built.
pub fn world_fits(gen_range: isize, chunk_dim: (usize, usize)) -> (fits: bool)
    ensures
        fits == spec_world_fits(gen_range as int, (chunk_dim.0 as int, chunk_dim.1 as int)),
{
    if gen_range < 0 || chunk_dim.0 == 0 || chunk_dim.1 == 0 || gen_range == isize::MAX {
        proof {
            if gen_range == isize::MAX && chunk_dim.0 > 0 {
                assert((gen_range + 1) * chunk_dim.0 > isize::MAX) by (nonlinear_arith)
                    requires
                        gen_range + 1 > isize::MAX,
                        chunk_dim.0 >= 1,
                ;
            }
        }
        return false;
    }
    let across: i128 = wide_product(gen_range + 1, chunk_dim.0);
    let down: i128 = wide_product(gen_range + 1, chunk_dim.1);
    across <= isize::MAX as i128 && down <= isize::MAX as i128
}

/// Every chunk of a world that fits has cells whose world coordinates fit a
/// machine word.
pub proof fn lemma_chunk_fits(gen_range: int, chunk_dim: (int, int), cx: int, cy: int)
    requires
        spec_world_fits(gen_range, chunk_dim),
        -gen_range <= cx <= gen_range,
        -gen_range <= cy <= gen_range,
    ensures
        spec_chunk_in_range((cx, cy), chunk_dim),
        -(gen_range * chunk_dim.0) <= cx * chunk_dim.0 <= gen_range * chunk_dim.0,
        -(gen_range * chunk_dim.1) <= cy * chunk_dim.1 <= gen_range * chunk_dim.1,
        (gen_range + 1) * chunk_dim.0 == gen_range * chunk_dim.0 + chunk_dim.0,
        (gen_range + 1) * chunk_dim.1 == gen_range * chunk_dim.1 + chunk_dim.1,
{
    let w = chunk_dim.0;
    let h = chunk_dim.1;
    assert(-(gen_range * w) <= cx * w <= gen_range * w) by (nonlinear_arith)
        requires
            -gen_range <= cx <= gen_range,
            w > 0,
    ;
    assert(-(gen_range * h) <= cy * h <= gen_range * h) by (nonlinear_arith)
        requires
            -gen_range <= cy <= gen_range,
            h > 0,
    ;
    assert((gen_range + 1) * w == gen_range * w + w) by (nonlinear_arith);
    assert((gen_range + 1) * h == gen_range * h + h) by (nonlinear_arith);
}

/// Draws a seed with `rand::thread_rng().gen()`. The value comes from the
/// thread's random number generator, so nothing is claimed of it.
#[verifier::external_body]
fn random_seed() -> u32 {
    rand::thread_rng().gen()
}

/// For a positive divisor, the quotient lies in `0 .. n` exactly when the
/// dividend lies in `0 .. n * d`.
pub proof fn lemma_index_in_range(l: int, d: int, n: int)
    requires
        d > 0,
        n >= 0,
    ensures
        (0 <= spec_chunk_index(l, d) < n) <==> (0 <= l < n * d),
{
    lemma_chunk_and_inner(l, d);
    let q = spec_chunk_index(l, d);
    assert(q <= n - 1 ==> q * d <= n * d - d) by (nonlinear_arith)
        requires
            d > 0,
    ;
    assert(q >= n ==> q * d >= n * d) by (nonlinear_arith)
        requires
            d > 0,
    ;
}

impl World {
    /// Whether the grid is a full square of well-formed chunks, each at the
    /// grid position that its chunk coordinate names.
    pub open spec fn wf(&self) -> bool {
        &&& spec_world_fits(
            self.gen_range as int,
            (self.chunk_dim.0 as int, self.chunk_dim.1 as int),
        )
        &&& self.data.len() == 2 * self.gen_range + 1
        &&& forall|r: int|
            0 <= r < self.data.len() ==> (#[trigger] self.data[r]).len() == 2 * self.gen_range + 1
        &&& forall|r: int, c: int|
            0 <= r < self.data.len() && 0 <= c < self.data.len() ==> {
                &&& (#[trigger] self.data[r][c]).wf(self.chunk_dim)
                &&& self.data[r][c].chunk_coords.0 == c - self.gen_range
                &&& self.data[r][c].chunk_coords.1 == self.gen_range - r
            }
    }

    /// Chunk coordinate of the origin chunk.
    pub open spec fn origin(&self) -> (int, int) {
        (-(self.gen_range as int), self.gen_range as int)
    }

    /// Width and height of a chunk.
    pub open spec fn dim(&self) -> (int, int) {
        (self.chunk_dim.0 as int, self.chunk_dim.1 as int)
    }

    /// Local coordinates of a world coordinate.
    pub open spec fn local(&self, wx: int, wy: int) -> (int, int) {
        spec_world_to_local((wx, wy), self.origin(), self.dim())
    }

    /// Whether a world coordinate lies inside the generated chunks.
    pub open spec fn covers(&self, wx: int, wy: int) -> bool {
        let l = self.local(wx, wy);
        let row = spec_chunk_index(l.1, self.dim().1);
        let col = spec_chunk_index(l.0, self.dim().0);
        0 <= row < self.data.len() && 0 <= col < self.data[row].len()
    }

    /// The particle at a world coordinate, or `None` where no chunk was
    /// generated.
    pub open spec fn particle_at(&self, wx: int, wy: int) -> Option<Particle> {
        let l = self.local(wx, wy);
        let row = spec_chunk_index(l.1, self.dim().1);
        let col = spec_chunk_index(l.0, self.dim().0);
        if self.covers(wx, wy) {
            Some(
                self.data[row][col].cell(
                    spec_inner_index(l.0, self.dim().0),
                    spec_inner_index(l.1, self.dim().1),
                ),
            )
        } else {
            None
        }
    }

    /// Whether the particle at a world coordinate is solid. Where no chunk
    /// was generated nothing is solid.
    pub open spec fn solid_at(&self, wx: int, wy: int) -> bool {
        match self.particle_at(wx, wy) {
            Some(p) => p.collision,
            None => false,
        }
    }

    /// Whether any point of a hitbox lies on a solid particle.
    pub open spec fn hits(&self, hitbox: Seq<(isize, isize)>) -> bool {
        exists|i: int| 0 <= i < hitbox.len() && self.solid_at(hitbox[i].0 as int, hitbox[i].1 as int)
    }

    /// Whether any point of a hitbox lies on a solid particle, for a hitbox
    /// given as offsets from the position `at`.
    pub open spec fn hits_at(&self, offsets: Seq<(isize, isize)>, at: (int, int)) -> bool {
        exists|i: int|
            0 <= i < offsets.len() && self.solid_at(at.0 + offsets[i].0, at.1 + offsets[i].1)
    }

    /// The colour that a screen pixel shows for a camera at the centre of the
    /// screen: the colour of the particle there, or the background colour
    /// where no chunk was generated.
    pub open spec fn pixel(&self, camera: (int, int), screen_dim: (int, int), px: int, py: int)
        -> Rgba {
        let w = spec_screen_to_world((px, py), camera, screen_dim);
        match self.particle_at(w.0, w.1) {
            Some(p) => p.rgba,
            None => BACKGROUND,
        }
    }

    /// Whether a world coordinate lies inside the rectangle of pixels that
    /// the chunks span.
    pub open spec fn in_extent(&self, wx: int, wy: int) -> bool {
        &&& -(self.gen_range * self.dim().0) <= wx < (self.gen_range + 1) * self.dim().0
        &&& -((self.gen_range + 1) * self.dim().1) < wy <= self.gen_range * self.dim().1
    }

    /// Vertical chunk coordinate of the chunk that holds a world height.
    pub open spec fn chunk_y_of(&self, wy: int) -> int {
        self.gen_range - spec_chunk_index(self.local(0, wy).1, self.dim().1)
    }

    /// Row inside its chunk of a world height.
    pub open spec fn row_of(&self, wy: int) -> int {
        spec_inner_index(self.local(0, wy).1, self.dim().1)
    }

    /// Whether every cell of every chunk holds the particle that the terrain
    /// rules give it for a sample that `sample` may return for the world's
    /// seed and the cell's world coordinate.
    pub open spec fn generated_by<F: Fn(u32, isize, isize) -> i32>(&self, sample: &F) -> bool {
        forall|r: int, c: int, x: int, y: int|
            0 <= r < self.data.len() && 0 <= c < self.data[r].len() && 0 <= x < self.chunk_dim.0
                && 0 <= y < self.chunk_dim.1 ==> spec_cell_generated(
                sample,
                self.seed,
                self.data[r][c].chunk_coords,
                self.chunk_dim,
                x,
                y,
                #[trigger] self.data[r][c].cell(x, y),
            )
    }

    /// Generates the world for a seed: the chunks from `-gen_range` to
    /// `gen_range` in each axis, each cell from the sample that `sample`
    /// returns for the seed and the cell's world coordinate.
    pub fn generate<F: Fn(u32, isize, isize) -> i32>(
        chunk_dim: (usize, usize),
        seed: u32,
        gen_range: isize,
        sample: &F,
    ) -> (world: World)
        requires
            spec_world_fits(gen_range as int, (chunk_dim.0 as int, chunk_dim.1 as int)),
            forall|s: u32, x: isize, y: isize| call_requires(sample, (s, x, y)),
        ensures
            world.wf(),
            world.seed == seed,
            world.gen_range == gen_range,
            world.chunk_dim == chunk_dim,
            world.generated_by(sample),
    {
        let n: usize = (2 * (gen_range as i128) + 1) as usize;
        let mut data: Vec<Vec<Chunk>> = Vec::new();
        let mut r: usize = 0;
        while r < n
            invariant
                spec_world_fits(gen_range as int, (chunk_dim.0 as int, chunk_dim.1 as int)),
                forall|s: u32, x: isize, y: isize| call_requires(sample, (s, x, y)),
                n == 2 * gen_range + 1,
                r <= n,
                data.len() == r,
                forall|i: int| 0 <= i < r ==> (#[trigger] data[i]).len() == n,
                forall|i: int, j: int|
                    0 <= i < r && 0 <= j < n ==> {
                        &&& (#[trigger] data[i][j]).wf(chunk_dim)
                        &&& data[i][j].chunk_coords.0 == j - gen_range
                        &&& data[i][j].chunk_coords.1 == gen_range - i
                    },
                forall|i: int, j: int, x: int, y: int|
                    0 <= i < r && 0 <= j < n && 0 <= x < chunk_dim.0 && 0 <= y < chunk_dim.1
                        ==> spec_cell_generated(
                        sample,
                        seed,
                        data[i][j].chunk_coords,
                        chunk_dim,
                        x,
                        y,
                        #[trigger] data[i][j].cell(x, y),
                    ),
            decreases n - r,
        {
            let cy: isize = (gen_range as i128 - r as i128) as isize;
            let mut row: Vec<Chunk> = Vec::new();
            let mut c: usize = 0;
            while c < n
                invariant
                    spec_world_fits(gen_range as int, (chunk_dim.0 as int, chunk_dim.1 as int)),
                    forall|s: u32, x: isize, y: isize| call_requires(sample, (s, x, y)),
                    n == 2 * gen_range + 1,
                    r < n,
                    cy == gen_range - r,
                    c <= n,
                    row.len() == c,
                    forall|j: int|
                        0 <= j < c ==> {
                            &&& (#[trigger] row[j]).wf(chunk_dim)
                            &&& row[j].chunk_coords.0 == j - gen_range
                            &&& row[j].chunk_coords.1 == gen_range - r
                        },
                    forall|j: int, x: int, y: int|
                        0 <= j < c && 0 <= x < chunk_dim.0 && 0 <= y < chunk_dim.1
                            ==> spec_cell_generated(
                            sample,
                            seed,
                            row[j].chunk_coords,
                            chunk_dim,
                            x,
                            y,
                            #[trigger] row[j].cell(x, y),
                        ),
                decreases n - c,
            {
                let cx: isize = (c as i128 - gen_range as i128) as isize;
                proof {
                    lemma_chunk_fits(
                        gen_range as int,
                        (chunk_dim.0 as int, chunk_dim.1 as int),
                        cx as int,
                        cy as int,
                    );
                }
                let chunk: Chunk = Chunk::gen_perlin((cx, cy), sample, seed, chunk_dim);
                row.push(chunk);
                c += 1;
            }
            data.push(row);
            r += 1;
        }
        World { data, seed, gen_range, chunk_dim }
    }

    /// Generates the world. With `set_seed` the seed in `seed` is used; without
    /// it a seed is drawn at random and stored in `seed`.
    pub fn new_perlin<F: Fn(u32, isize, isize) -> i32>(
        chunk_dim: (usize, usize),
        seed: &mut u32,
        set_seed: bool,
        gen_range: isize,
        sample: &F,
    ) -> (world: World)
        requires
            spec_world_fits(gen_range as int, (chunk_dim.0 as int, chunk_dim.1 as int)),
            forall|s: u32, x: isize, y: isize| call_requires(sample, (s, x, y)),
        ensures
            set_seed ==> *final(seed) == *old(seed),
            world.wf(),
            world.seed == *final(seed),
            world.gen_range == gen_range,
            world.chunk_dim == chunk_dim,
            world.generated_by(sample),
    {
        if !set_seed {
            *seed = random_seed();
        }
        World::generate(chunk_dim, *seed, gen_range, sample)
    }

    /// The particle at a world coordinate, or `None` where no chunk was
    /// generated.
    pub fn lookup(&self, wx: i128, wy: i128) -> (p: Option<Particle>)
        requires
            self.wf(),
        ensures
            p == self.particle_at(wx as int, wy as int),
    {
        proof {
            lemma_covers_is_in_extent(*self, wx as int, wy as int);
            lemma_chunk_fits(self.gen_range as int, self.dim(), 0, 0);
            assert((-(self.gen_range as int)) * self.dim().0 == -(self.gen_range * self.dim().0))
                by (nonlinear_arith);
        }
        if wx < isize::MIN as i128 || wx > isize::MAX as i128 || wy < isize::MIN as i128 || wy
            > isize::MAX as i128 {
            // Every chunk lies inside the range of a coordinate.
            return None;
        }
        let left: i128 = wide_product(self.gen_range, self.chunk_dim.0);
        let top: i128 = wide_product(self.gen_range, self.chunk_dim.1);
        let across: (i128, i128) = floor_div_mod(wx + left, self.chunk_dim.0 as i128);
        let down: (i128, i128) = floor_div_mod(top - wy, self.chunk_dim.1 as i128);
        if down.0 < 0 || down.0 >= self.data.len() as i128 {
            return None;
        }
        let row: usize = down.0 as usize;
        if across.0 < 0 || across.0 >= self.data[row].len() as i128 {
            return None;
        }
        let col: usize = across.0 as usize;
        assert(self.data[row as int][col as int].wf(self.chunk_dim));
        Some(self.data[row][col].data[down.1 as usize][across.1 as usize])
    }

    /// Local coordinates of a world coordinate: the offset from the top-left
    /// pixel of the origin chunk, counted downward. Negative left of and
    /// above the generated chunks.
    pub fn get_local_coords(&self, coords: (isize, isize), chunk_dim: (usize, usize)) -> (local: (
        isize,
        isize,
    ))
        requires
            self.wf(),
            chunk_dim == self.chunk_dim,
            isize::MIN <= self.local(coords.0 as int, coords.1 as int).0 <= isize::MAX,
            isize::MIN <= self.local(coords.0 as int, coords.1 as int).1 <= isize::MAX,
        ensures
            (local.0 as int, local.1 as int) == self.local(coords.0 as int, coords.1 as int),
            spec_local_to_world((local.0 as int, local.1 as int), self.origin(), self.dim()) == (
                coords.0 as int,
                coords.1 as int,
            ),
    {
        let origin: (isize, isize) = (self.data[0][0].chunk_coords.0, self.data[0][0].chunk_coords.1);
        world_to_local(coords, origin, chunk_dim)
    }

    /// Chunk index and inner offset of a local coordinate along one axis.
    /// The chunk index is negative left of and above the origin chunk.
    pub fn get_local_pair(coord: isize, chunk: usize) -> (pair: (isize, usize))
        requires
            chunk > 0,
        ensures
            pair.0 == spec_chunk_index(coord as int, chunk as int),
            pair.1 == spec_inner_index(coord as int, chunk as int),
            pair.0 * chunk + pair.1 == coord,
            pair.1 < chunk,
    {
        local_to_chunk_and_inner(coord, chunk)
    }

    /// Whether any point of the hitbox lies on a solid particle. Points
    /// outside the generated chunks never collide.
    pub fn check_collision(&self, hitbox: Vec<(isize, isize)>, chunk_dim: (usize, usize)) -> (hit:
        bool)
        requires
            self.wf(),
            chunk_dim == self.chunk_dim,
        ensures
            hit == self.hits(hitbox@),
    {
        let mut i: usize = 0;
        while i < hitbox.len()
            invariant
                self.wf(),
                i <= hitbox.len(),
                forall|j: int|
                    0 <= j < i ==> !self.solid_at(hitbox[j].0 as int, hitbox[j].1 as int),
            decreases hitbox.len() - i,
        {
            let point: (isize, isize) = hitbox[i];
            match self.lookup(point.0 as i128, point.1 as i128) {
                Some(p) => {
                    if p.collision {
                        return true;
                    }
                },
                None => {},
            }
            i += 1;
        }
        false
    }

    /// Whether any point of a hitbox, given as offsets from the position
    /// `at`, lies on a solid particle.
    pub fn collides_at(&self, offsets: &Vec<(isize, isize)>, at: (isize, isize)) -> (hit: bool)
        requires
            self.wf(),
        ensures
            hit == self.hits_at(offsets@, (at.0 as int, at.1 as int)),
    {
        let mut i: usize = 0;
        while i < offsets.len()
            invariant
                self.wf(),
                i <= offsets.len(),
                forall|j: int|
                    0 <= j < i ==> !self.solid_at(at.0 + offsets[j].0, at.1 + offsets[j].1),
            decreases offsets.len() - i,
        {
            let offset: (isize, isize) = offsets[i];
            let wx: i128 = at.0 as i128 + offset.0 as i128;
            let wy: i128 = at.1 as i128 + offset.1 as i128;
            match self.lookup(wx, wy) {
                Some(p) => {
                    if p.collision {
                        return true;
                    }
                },
                None => {},
            }
            i += 1;
        }
        false
    }

    /// Fills the screen with what a camera at `camera_coords` sees: the
    /// camera's position is shown at the centre of the screen, and a pixel
    /// that looks at no generated chunk gets the background colour.
    pub fn get_screen(
        &self,
        screen: &mut Screen,
        camera_coords: (isize, isize),
        screen_dim: (usize, usize),
        chunk_dim: (usize, usize),
    )
        requires
            self.wf(),
            chunk_dim == self.chunk_dim,
            spec_has_dim(old(screen)@, screen_dim),
        ensures
            spec_has_dim(final(screen)@, screen_dim),
            forall|px: int, py: int|
                0 <= px < screen_dim.0 && 0 <= py < screen_dim.1
                    ==> #[trigger] final(screen)[py][px] == self.pixel(
                    (camera_coords.0 as int, camera_coords.1 as int),
                    (screen_dim.0 as int, screen_dim.1 as int),
                    px,
                    py,
                ),
    {
        let left: i128 = camera_coords.0 as i128 - (screen_dim.0 / 2) as i128;
        let top: i128 = camera_coords.1 as i128 + (screen_dim.1 / 2) as i128;
        let mut py: usize = 0;
        while py < screen_dim.1
            invariant
                self.wf(),
                py <= screen_dim.1,
                left == camera_coords.0 - screen_dim.0 / 2,
                top == camera_coords.1 + screen_dim.1 / 2,
                spec_has_dim(screen@, screen_dim),
                forall|x: int, y: int|
                    0 <= x < screen_dim.0 && 0 <= y < py ==> #[trigger] screen[y][x] == self.pixel(
                        (camera_coords.0 as int, camera_coords.1 as int),
                        (screen_dim.0 as int, screen_dim.1 as int),
                        x,
                        y,
                    ),
            decreases screen_dim.1 - py,
        {
            let wy: i128 = top - py as i128;
            let mut px: usize = 0;
            while px < screen_dim.0
                invariant
                    self.wf(),
                    py < screen_dim.1,
                    px <= screen_dim.0,
                    left == camera_coords.0 - screen_dim.0 / 2,
                    wy == camera_coords.1 + screen_dim.1 / 2 - py,
                    spec_has_dim(screen@, screen_dim),
                    forall|x: int, y: int|
                        0 <= x < screen_dim.0 && 0 <= y < py ==> #[trigger] screen[y][x]
                            == self.pixel(
                            (camera_coords.0 as int, camera_coords.1 as int),
                            (screen_dim.0 as int, screen_dim.1 as int),
                            x,
                            y,
                        ),
                    forall|x: int|
                        0 <= x < px ==> #[trigger] screen[py as int][x] == self.pixel(
                            (camera_coords.0 as int, camera_coords.1 as int),
                            (screen_dim.0 as int, screen_dim.1 as int),
                            x,
                            py as int,
                        ),
                decreases screen_dim.0 - px,
            {
                let wx: i128 = left + px as i128;
                let color: Rgba = match self.lookup(wx, wy) {
                    Some(p) => p.rgba,
                    None => BACKGROUND,
                };
                screen[py][px] = color;
                px += 1;
            }
            py += 1;
        }
    }
}

/// A world covers exactly the world coordinates inside the rectangle of
/// pixels that its chunks span.
pub proof fn lemma_covers_is_in_extent(world: World, wx: int, wy: int)
    requires
        world.wf(),
    ensures
        world.covers(wx, wy) == world.in_extent(wx, wy),
        world.covers(wx, wy) ==> {
            &&& 0 <= spec_inner_index(world.local(wx, wy).0, world.dim().0) < world.dim().0
            &&& 0 <= spec_inner_index(world.local(wx, wy).1, world.dim().1) < world.dim().1
        },
{
    let r = world.gen_range as int;
    let w = world.dim().0;
    let h = world.dim().1;
    let l = world.local(wx, wy);
    let n = 2 * r + 1;
    lemma_index_in_range(l.0, w, n);
    lemma_index_in_range(l.1, h, n);
    lemma_chunk_and_inner(l.0, w);
    lemma_chunk_and_inner(l.1, h);
    assert((-r) * w == -(r * w)) by (nonlinear_arith);
    assert(n * w == r * w + (r + 1) * w) by (nonlinear_arith)
        requires
            n == 2 * r + 1,
    ;
    assert(n * h == r * h + (r + 1) * h) by (nonlinear_arith)
        requires
            n == 2 * r + 1,
    ;
    let row = spec_chunk_index(l.1, h);
    if 0 <= row < world.data.len() {
        assert(world.data[row].len() == n);
    }
}

/// Outside the rectangle of pixels that its chunks span a world holds no
/// particle, and nothing there is solid.
pub proof fn lemma_outside_is_empty(world: World, wx: int, wy: int)
    requires
        world.wf(),
        !world.in_extent(wx, wy),
    ensures
        world.particle_at(wx, wy) is None,
        !world.solid_at(wx, wy),
{
    lemma_covers_is_in_extent(world, wx, wy);
}

/// A camera whose whole view lies outside the generated chunks, however far,
/// sees the background colour in every pixel.
pub proof fn lemma_far_camera_sees_background(
    world: World,
    camera: (int, int),
    screen_dim: (int, int),
)
    requires
        world.wf(),
        screen_dim.0 >= 0,
        screen_dim.1 >= 0,
        ({
            let left = camera.0 - screen_dim.0 / 2;
            let top = camera.1 + screen_dim.1 / 2;
            ||| left >= (world.gen_range + 1) * world.dim().0
            ||| left + screen_dim.0 <= -(world.gen_range * world.dim().0)
            ||| top <= -((world.gen_range + 1) * world.dim().1)
            ||| top - screen_dim.1 >= world.gen_range * world.dim().1
        }),
    ensures
        forall|px: int, py: int|
            0 <= px < screen_dim.0 && 0 <= py < screen_dim.1 ==> #[trigger] world.pixel(
                camera,
                screen_dim,
                px,
                py,
            ) == BACKGROUND,
{
    assert forall|px: int, py: int|
        0 <= px < screen_dim.0 && 0 <= py < screen_dim.1 implies #[trigger] world.pixel(
        camera,
        screen_dim,
        px,
        py,
    ) == BACKGROUND by {
        let w = spec_screen_to_world((px, py), camera, screen_dim);
        lemma_outside_is_empty(world, w.0, w.1);
    }
}

/// The pixel at the centre of the screen shows the particle at the camera's
/// position.
pub proof fn lemma_centre_pixel_shows_camera(
    world: World,
    camera: (int, int),
    screen_dim: (int, int),
)
    ensures
        world.pixel(camera, screen_dim, screen_dim.0 / 2, screen_dim.1 / 2) == (
        match world.particle_at(camera.0, camera.1) {
            Some(p) => p.rgba,
            None => BACKGROUND,
        }),
{
}

/// In a generated world the particle at a covered world coordinate is the
/// one that the terrain rules give for a sample taken at that coordinate.
pub proof fn lemma_generated_particle<F: Fn(u32, isize, isize) -> i32>(
    world: World,
    sample: &F,
    wx: int,
    wy: int,
)
    requires
        world.wf(),
        world.generated_by(sample),
        world.covers(wx, wy),
    ensures
        isize::MIN <= wx <= isize::MAX,
        isize::MIN <= wy <= isize::MAX,
        exists|noise: i32|
            call_ensures(sample, (world.seed, wx as isize, wy as isize), noise)
                && world.particle_at(wx, wy) == Some(
                spec_particle(
                    world.chunk_y_of(wy),
                    world.dim().1,
                    world.row_of(wy),
                    wy,
                    noise as int,
                ),
            ),
{
    let r = world.gen_range as int;
    let w = world.dim().0;
    let h = world.dim().1;
    let l = world.local(wx, wy);
    let row = spec_chunk_index(l.1, h);
    let col = spec_chunk_index(l.0, w);
    let ix = spec_inner_index(l.0, w);
    let iy = spec_inner_index(l.1, h);
    lemma_covers_is_in_extent(world, wx, wy);
    lemma_chunk_and_inner(l.0, w);
    lemma_chunk_and_inner(l.1, h);
    lemma_chunk_fits(r, world.dim(), 0, 0);
    assert(world.data[row].len() == 2 * r + 1);
    let chunk = world.data[row][col];
    assert(chunk.wf(world.chunk_dim));
    assert(chunk.chunk_coords.0 == col - r && chunk.chunk_coords.1 == r - row);
    assert((-r) * w == -(r * w)) by (nonlinear_arith);
    assert((col - r) * w == col * w - r * w) by (nonlinear_arith);
    assert((r - row) * h == r * h - row * h) by (nonlinear_arith);
    let cw = spec_cell_world(
        (chunk.chunk_coords.0 as int, chunk.chunk_coords.1 as int),
        world.dim(),
        ix,
        iy,
    );
    assert(cw == (wx, wy));
    assert(world.local(0, wy).1 == l.1);
    assert(spec_cell_generated(
        sample,
        world.seed,
        chunk.chunk_coords,
        world.chunk_dim,
        ix,
        iy,
        chunk.cell(ix, iy),
    ));
    let noise = choose|noise: i32|
        call_ensures(sample, (world.seed, cw.0 as isize, cw.1 as isize), noise) && chunk.cell(
            ix,
            iy,
        ) == spec_particle(
            chunk.chunk_coords.1 as int,
            world.chunk_dim.1 as int,
            iy,
            cw.1,
            noise as int,
        );
    assert(world.chunk_y_of(wy) == chunk.chunk_coords.1);
    assert(world.row_of(wy) == iy);
    assert(world.particle_at(wx, wy) == Some(chunk.cell(ix, iy)));
    assert(call_ensures(sample, (world.seed, wx as isize, wy as isize), noise)
        && world.particle_at(wx, wy) == Some(
        spec_particle(world.chunk_y_of(wy), world.dim().1, world.row_of(wy), wy, noise as int),
    ));
}

/// The terrain rules decide collision: in a world generated by a
/// deterministic sampler, a covered world coordinate is solid exactly when
/// its cell lies at or below the ground level and the sample taken there
/// exceeds the depth threshold. Such a cell is solid earth; every other cell
/// is sky or cave air and does not collide.
pub proof fn lemma_collision_follows_noise<F: Fn(u32, isize, isize) -> i32>(
    world: World,
    sample: &F,
    wx: int,
    wy: int,
    noise: i32,
)
    requires
        world.wf(),
        world.generated_by(sample),
        spec_deterministic(sample),
        world.covers(wx, wy),
        call_ensures(sample, (world.seed, wx as isize, wy as isize), noise),
    ensures
        world.particle_at(wx, wy) == Some(
            spec_particle(
                world.chunk_y_of(wy),
                world.dim().1,
                world.row_of(wy),
                wy,
                noise as int,
            ),
        ),
        world.solid_at(wx, wy) == spec_is_ground(
            world.chunk_y_of(wy),
            world.dim().1,
            world.row_of(wy),
            wy,
            noise as int,
        ),
{
    lemma_generated_particle(world, sample, wx, wy);
}

/// Generation is deterministic: two worlds generated with the same seed,
/// chunk dimensions and range by the same deterministic sampler hold the same
/// particle, colour and collision flag, at every world coordinate.
pub proof fn lemma_generation_is_deterministic<F: Fn(u32, isize, isize) -> i32>(
    a: World,
    b: World,
    sample: &F,
)
    requires
        a.wf(),
        b.wf(),
        a.seed == b.seed,
        a.chunk_dim == b.chunk_dim,
        a.gen_range == b.gen_range,
        a.generated_by(sample),
        b.generated_by(sample),
        spec_deterministic(sample),
    ensures
        forall|wx: int, wy: int| #[trigger] a.particle_at(wx, wy) == b.particle_at(wx, wy),
{
    assert forall|wx: int, wy: int| #[trigger] a.particle_at(wx, wy) == b.particle_at(
        wx,
        wy,
    ) by {
        lemma_covers_is_in_extent(a, wx, wy);
        lemma_covers_is_in_extent(b, wx, wy);
        if a.covers(wx, wy) {
            lemma_generated_particle(a, sample, wx, wy);
            lemma_generated_particle(b, sample, wx, wy);
        }
    }
}

} // verus!
