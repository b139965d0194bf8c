use engine::terrain::{
    ground_level, terrain_particle, Chunk, Particle, CAVE_THRESHOLD_CAP, EARTH, NOISE_UNIT, SKY,
};

fn earth() -> Particle {
    Particle { rgba: EARTH, collision: true }
}

fn sky() -> Particle {
    Particle { rgba: SKY, collision: false }
}

#[test]
fn particle_new_keeps_its_arguments() {
    let p = Particle::new([1, 2, 3, 4], true);
    assert_eq!(p.rgba, [1, 2, 3, 4]);
    assert!(p.collision);
}

#[test]
fn terrain_colours() {
    assert_eq!(EARTH, [124, 94, 66, 255]);
    assert_eq!(SKY, [135, 206, 235, 0]);
    assert_eq!(NOISE_UNIT, 1000);
    assert_eq!(CAVE_THRESHOLD_CAP, 100);
}

#[test]
fn ground_level_in_the_surface_row_scales_noise_to_rows() {
    // floor(height * (noise + 1000) / 2000)
    assert_eq!(ground_level(0, 256, 0), 128);
    assert_eq!(ground_level(0, 256, 1000), 256);
    assert_eq!(ground_level(0, 256, -1000), 0);
    assert_eq!(ground_level(0, 256, 500), 192);
    assert_eq!(ground_level(0, 256, -500), 64);
    assert_eq!(ground_level(0, 256, 1), 128);
    assert_eq!(ground_level(0, 256, -1), 127);
    assert_eq!(ground_level(0, 100, 333), 66);
}

#[test]
fn ground_level_is_limited_to_the_chunk() {
    assert_eq!(ground_level(0, 256, 5000), 256);
    assert_eq!(ground_level(0, 256, -5000), 0);
    assert_eq!(ground_level(0, 256, i32::MAX), 256);
    assert_eq!(ground_level(0, 256, i32::MIN), 0);
    assert_eq!(ground_level(0, 0, 0), 0);
}

#[test]
fn ground_level_above_and_below_the_surface_row() {
    assert_eq!(ground_level(1, 256, 0), 256);
    assert_eq!(ground_level(7, 256, -1000), 256);
    assert_eq!(ground_level(-1, 256, 0), 0);
    assert_eq!(ground_level(-7, 256, 1000), 0);
}

#[test]
fn noise_above_the_threshold_below_ground_is_solid() {
    // Surface row, ground level 128, world height -200: threshold is 200 - 1000 = -800.
    assert_eq!(terrain_particle(0, 256, 200, -200, 0), earth());
    assert_eq!(terrain_particle(0, 256, 128, -128, 0), earth());
    assert_eq!(terrain_particle(-1, 256, 0, -256, -743), earth());
}

#[test]
fn a_cell_above_the_ground_level_is_sky() {
    assert_eq!(terrain_particle(0, 256, 127, -127, 0), sky());
    assert_eq!(terrain_particle(0, 256, 0, 0, 999), sky());
    assert_eq!(terrain_particle(1, 256, 255, 1, 1000), sky());
}

#[test]
fn noise_at_or_below_the_threshold_is_cave_air() {
    // World height -600: threshold is 600 - 1000 = -400.
    assert_eq!(terrain_particle(-3, 256, 88, -600, -400), sky());
    assert_eq!(terrain_particle(-3, 256, 88, -600, -401), sky());
    assert_eq!(terrain_particle(-3, 256, 88, -600, -399), earth());
}

#[test]
fn the_threshold_is_capped_deep_down() {
    // World height -5000: the threshold would be 4000, and is capped at 100.
    assert_eq!(terrain_particle(-20, 256, 136, -5000, 100), sky());
    assert_eq!(terrain_particle(-20, 256, 136, -5000, 101), earth());
    // World height -1100: the threshold is exactly the cap.
    assert_eq!(terrain_particle(-5, 256, 76, -1100, 100), sky());
    assert_eq!(terrain_particle(-5, 256, 76, -1100, 101), earth());
    // World height -1099: the threshold is 99, below the cap.
    assert_eq!(terrain_particle(-5, 256, 75, -1099, 100), earth());
}

#[test]
fn terrain_at_the_ends_of_the_range() {
    assert_eq!(terrain_particle(-1, 256, 0, isize::MIN, 100), sky());
    assert_eq!(terrain_particle(-1, 256, 0, isize::MIN, 101), earth());
    assert_eq!(terrain_particle(-1, 256, 0, isize::MAX, i32::MIN), earth());
}

#[test]
fn gen_perlin_fills_every_cell() {
    let sample = |_seed: u32, _x: isize, _y: isize| -> i32 { 0 };
    let chunk = Chunk::gen_perlin((3, -2), &sample, 1, (5, 4));
    assert_eq!(chunk.chunk_coords, (3, -2));
    assert_eq!(chunk.data.len(), 4);
    for row in chunk.data.iter() {
        assert_eq!(row.len(), 5);
        for p in row.iter() {
            assert_eq!(*p, earth());
        }
    }
}

#[test]
fn gen_perlin_samples_each_cell_at_its_world_coordinate() {
    // Solid exactly where the world coordinate is (9, -5): column 1, row 1 of chunk (2, -1).
    let sample = |_seed: u32, x: isize, y: isize| -> i32 {
        if x == 9 && y == -5 {
            1000
        } else {
            -1000
        }
    };
    let chunk = Chunk::gen_perlin((2, -1), &sample, 1, (4, 4));
    for y in 0..4 {
        for x in 0..4 {
            let expected = if x == 1 && y == 1 { earth() } else { sky() };
            assert_eq!(chunk.data[y][x], expected);
        }
    }
}

#[test]
fn gen_perlin_hands_the_seed_to_the_sampler() {
    let sample = |seed: u32, _x: isize, _y: isize| -> i32 {
        if seed == 77 {
            1000
        } else {
            -1000
        }
    };
    let solid = Chunk::gen_perlin((0, -1), &sample, 77, (2, 2));
    let empty = Chunk::gen_perlin((0, -1), &sample, 78, (2, 2));
    assert_eq!(solid.data[0][0], earth());
    assert_eq!(empty.data[0][0], sky());
}

#[test]
fn gen_perlin_surface_row_follows_the_noise() {
    // Noise 0 in a chunk of height 4: the ground begins at row 2.
    let sample = |_seed: u32, _x: isize, _y: isize| -> i32 { 0 };
    let chunk = Chunk::gen_perlin((0, 0), &sample, 1, (3, 4));
    for x in 0..3 {
        assert_eq!(chunk.data[0][x], sky());
        assert_eq!(chunk.data[1][x], sky());
        assert_eq!(chunk.data[2][x], earth());
        assert_eq!(chunk.data[3][x], earth());
    }
}

#[test]
fn gen_perlin_of_an_empty_chunk() {
    let sample = |_seed: u32, _x: isize, _y: isize| -> i32 { 0 };
    let chunk = Chunk::gen_perlin((0, 0), &sample, 1, (0, 0));
    assert!(chunk.data.is_empty());
}

#[test]
fn a_cloned_chunk_holds_the_same_particles() {
    let sample = |_seed: u32, x: isize, _y: isize| -> i32 {
        if x % 2 == 0 {
            1000
        } else {
            -1000
        }
    };
    let chunk = Chunk::gen_perlin((1, -1), &sample, 5, (4, 3));
    let copy = chunk.clone();
    assert_eq!(copy.chunk_coords, chunk.chunk_coords);
    assert_eq!(copy.data, chunk.data);
}
