use image::{DynamicImage, Rgba, RgbaImage};
use video_bard::ring::{
    base_vector, colour_matches, match_ring, rotated_direction, RingMatch, Rotation,
};
use video_bard::types::{InvalidInput, RGB};
use video_bard::walker::{
    blend, locate_dot, match_dots, DotDescription, Phase, WalkState, MAX_SIZE, MIN_SIZE,
};

const ONE: i64 = 16384;
const BLACK: [u8; 3] = [0, 0, 0];
const WHITE: [u8; 3] = [255, 255, 255];

/// `table[d]` turns by `d` radians.
fn rotations(count: usize) -> Vec<Rotation> {
    (0..count)
        .map(|d| Rotation {
            cos: ((d as f64).cos() * 16384.0).round() as i16,
            sin: ((d as f64).sin() * 16384.0).round() as i16,
        })
        .collect()
}

fn uniform(width: u32, height: u32, colour: [u8; 3]) -> DynamicImage {
    DynamicImage::ImageRgba8(RgbaImage::from_pixel(
        width,
        height,
        Rgba([colour[0], colour[1], colour[2], 255]),
    ))
}

/// A disk that covers the pixels nearer than `radius` to its centre.
fn disk(size: u32, center: i64, radius: i64, inside: [u8; 3], outside: [u8; 3]) -> DynamicImage {
    DynamicImage::ImageRgba8(RgbaImage::from_fn(size, size, |x, y| {
        let dx = x as i64 - center;
        let dy = y as i64 - center;
        let c = if dx * dx + dy * dy < radius * radius { inside } else { outside };
        Rgba([c[0], c[1], c[2], 255])
    }))
}

fn dot(x: i64, y: i64, size: u32) -> DotDescription {
    DotDescription { position: (x, y), size }
}

#[test]
fn rotation_table_matches_known_values() {
    let table = rotations(26);
    assert_eq!(table[0], Rotation { cos: 16384, sin: 0 });
    assert_eq!(table[1], Rotation { cos: 8852, sin: 13787 });
    assert_eq!(table[3], Rotation { cos: -16220, sin: 2312 });
    assert_eq!(table[25], Rotation { cos: 16240, sin: -2168 });
}

#[test]
fn base_vectors_are_compass_and_diagonals() {
    assert_eq!(base_vector(0), (16384, 0));
    assert_eq!(base_vector(1), (11585, 11585));
    assert_eq!(base_vector(2), (0, 16384));
    assert_eq!(base_vector(3), (-11585, 11585));
    assert_eq!(base_vector(4), (-16384, 0));
    assert_eq!(base_vector(5), (-11585, -11585));
    assert_eq!(base_vector(6), (0, -16384));
    assert_eq!(base_vector(7), (11585, -11585));
}

#[test]
fn diagonal_is_nearest_to_inverse_root_of_two() {
    // 11585 / 16384 is the fixed-point value nearest to 1 / sqrt(2).
    let d: i64 = 11585;
    assert!(2 * d * d <= ONE * ONE);
    assert!(2 * (d + 1) * (d + 1) > ONE * ONE);
    assert!(ONE * ONE - 2 * d * d < 2 * (d + 1) * (d + 1) - ONE * ONE);
}

#[test]
fn rotated_direction_turns_counter_clockwise() {
    let quarter = Rotation { cos: 0, sin: 16384 };
    assert_eq!(rotated_direction(quarter, 0), (0, 16384));
    assert_eq!(rotated_direction(quarter, 2), (-16384, 0));
    assert_eq!(rotated_direction(quarter, 1), (-11585, 11585));
    let identity = Rotation { cos: 16384, sin: 0 };
    assert_eq!(rotated_direction(identity, 7), (11585, -11585));
    let one = Rotation { cos: 8852, sin: 13787 };
    assert_eq!(rotated_direction(one, 0), (8852, 13787));
    assert_eq!(rotated_direction(one, 1), (-3489, 16007));
    assert_eq!(rotated_direction(one, 5), (3489, -16007));
}

#[test]
fn opposite_directions_cancel() {
    let table = rotations(26);
    for rot in table {
        for i in 0..4 {
            let a = rotated_direction(rot, i);
            let b = rotated_direction(rot, i + 4);
            assert_eq!((a.0 + b.0, a.1 + b.1), (0, 0));
        }
    }
}

#[test]
fn colour_tolerance_is_thirty_levels() {
    let reference = RGB { r: 0, g: 0, b: 0 };
    assert!(colour_matches(reference, (29, 0, 0, 255)));
    assert!(!colour_matches(reference, (30, 0, 0, 255)));
    assert!(colour_matches(reference, (17, 17, 17, 0)));
    assert!(!colour_matches(reference, (18, 17, 17, 0)));
    let mid = RGB { r: 100 * 16384 + 8192, g: 50 * 16384, b: 0 };
    assert!(colour_matches(mid, (130, 50, 0, 255)));
    assert!(!colour_matches(mid, (131, 50, 0, 255)));
    assert!(!colour_matches(mid, (70, 50, 0, 255)));
    assert!(colour_matches(mid, (71, 50, 0, 255)));
}

#[test]
fn ring_inside_disk_matches_everywhere() {
    let img = disk(80, 40, 10, BLACK, WHITE);
    let table = rotations(26);
    let ring = match_ring(&img, (40 * ONE, 40 * ONE), RGB { r: 0, g: 0, b: 0 }, 3, table[3]);
    assert_eq!(
        ring,
        RingMatch { center: (655360, 655360), matches: 8, average: RGB { r: 0, g: 0, b: 0 } }
    );
}

#[test]
fn ring_outside_disk_matches_one_truncated_probe() {
    let img = disk(80, 40, 10, BLACK, WHITE);
    let table = rotations(26);
    let ring = match_ring(&img, (40 * ONE, 40 * ONE), RGB { r: 0, g: 0, b: 0 }, 11, table[11]);
    assert_eq!(
        ring,
        RingMatch { center: (718791, 719358), matches: 1, average: RGB { r: 0, g: 0, b: 0 } }
    );
}

#[test]
fn ring_off_centre_moves_toward_matches() {
    let img = disk(80, 40, 10, BLACK, WHITE);
    let table = rotations(26);
    let reference = RGB { r: 3 * 16384, g: 2 * 16384, b: 16384 };
    let ring = match_ring(&img, (47 * ONE + 100, 40 * ONE - 7), reference, 5, table[5]);
    assert_eq!(
        ring,
        RingMatch {
            center: (748644, 657620),
            matches: 6,
            average: RGB { r: 7021, g: 4681, b: 2340 },
        }
    );
}

#[test]
fn ring_reads_white_outside_the_image() {
    let img = uniform(4, 4, BLACK);
    let table = rotations(26);
    let white = RGB { r: 255 * 16384, g: 255 * 16384, b: 255 * 16384 };
    let ring = match_ring(&img, (2 * ONE, 2 * ONE), white, 20, table[20]);
    assert_eq!(ring.matches, 8);
    assert_eq!(ring.average, white);
    assert_eq!(ring.center, (2 * ONE, 2 * ONE));
}

#[test]
fn blend_moves_by_the_share_of_matches() {
    assert_eq!(blend(0, 16384, 1, 2), 8192);
    assert_eq!(blend(16384, 0, 1, 2), 8192);
    assert_eq!(blend(100, 200, 8, 9), 188);
    assert_eq!(blend(200, 100, 8, 9), 112);
    assert_eq!(blend(4177920, 4177920, 7, 9), 4177920);
    assert_eq!(blend(0, 4177920, 0, 9), 0);
    assert_eq!(blend(0, 4177920, 9, 9), 4177920);
}

#[test]
fn walk_begins_growing_at_the_seed() {
    let reference = RGB { r: 1, g: 2, b: 3 };
    let state = WalkState::begin((7, 9), reference, 4, 25);
    assert_eq!(
        state,
        WalkState {
            start: (7, 9),
            center: (7 * ONE, 9 * ONE),
            reference,
            inner_distance: 1,
            outer_distance: 25,
            phase: Phase::Growing,
            successful_tests: 0,
            total_tests: 1,
        }
    );
    assert!(state.is_searching());
}

#[test]
fn walk_settles_at_once_when_rings_start_crossed() {
    let reference = RGB { r: 0, g: 0, b: 0 };
    assert_eq!(WalkState::begin((0, 0), reference, 1, 0).phase, Phase::Accepted);
    assert_eq!(WalkState::begin((0, 0), reference, 2, 0).phase, Phase::Rejected);
    assert_eq!(WalkState::begin((0, 0), reference, 0, 1).phase, Phase::Rejected);
    assert_eq!(WalkState::begin((0, 0), reference, 0, 2).phase, Phase::Growing);
}

fn ring(center: (i64, i64), matches: u8, level: i32) -> RingMatch {
    RingMatch { center, matches, average: RGB { r: level, g: level, b: level } }
}

#[test]
fn growing_step_with_few_matches_ends_the_walk() {
    let reference = RGB { r: 0, g: 0, b: 0 };
    let mut state = WalkState::begin((10, 10), reference, 4, 25);
    state = state.step(ring((10 * ONE, 10 * ONE), 8, 0), 4, 25);
    state = state.step(ring((10 * ONE, 10 * ONE), 8, 0), 4, 25);
    assert_eq!(state.inner_distance, 5);
    assert_eq!(state.phase, Phase::Growing);
    let accepted = state.step(ring((0, 0), 3, 0), 4, 25);
    assert_eq!(accepted.phase, Phase::Accepted);
    assert_eq!(accepted.inner_distance, 5);
    assert_eq!(accepted.center, (10 * ONE, 10 * ONE));
    assert_eq!(accepted.successful_tests, 19);
    assert_eq!(accepted.total_tests, 25);
    assert!(!accepted.is_searching());
}

#[test]
fn growing_step_below_min_size_is_rejected() {
    let reference = RGB { r: 0, g: 0, b: 0 };
    let mut state = WalkState::begin((10, 10), reference, 4, 25);
    state = state.step(ring((10 * ONE, 10 * ONE), 8, 0), 4, 25);
    assert_eq!(state.inner_distance, 3);
    let ended = state.step(ring((0, 0), 0, 0), 4, 25);
    assert_eq!(ended.phase, Phase::Rejected);
}

#[test]
fn growing_step_moves_centre_and_blends_colour() {
    let reference = RGB { r: 0, g: 16384, b: 900 };
    let state = WalkState::begin((10, 10), reference, 4, 25);
    let moved = (10 * ONE + 500, 10 * ONE - 300);
    let next = state.step(
        RingMatch { center: moved, matches: 5, average: RGB { r: 900, g: 0, b: 900 } },
        4,
        25,
    );
    assert_eq!(next.center, moved);
    assert_eq!(next.inner_distance, 3);
    assert_eq!(next.outer_distance, 25);
    assert_eq!(next.phase, Phase::Growing);
    assert_eq!(next.successful_tests, 5);
    assert_eq!(next.total_tests, 9);
    assert_eq!(next.reference, RGB { r: 500, g: 16384 - 9102, b: 900 });
}

#[test]
fn walk_turns_to_shrinking_past_min_size() {
    let reference = RGB { r: 0, g: 0, b: 0 };
    let mut state = WalkState::begin((10, 10), reference, 4, 25);
    for _ in 0..2 {
        state = state.step(ring((10 * ONE, 10 * ONE), 8, 0), 4, 25);
        assert_eq!(state.phase, Phase::Growing);
    }
    state = state.step(ring((10 * ONE, 10 * ONE), 4, 0), 4, 25);
    assert_eq!(state.phase, Phase::Shrinking);
    assert_eq!(state.inner_distance, 7);
}

fn shrinking_state() -> WalkState {
    let reference = RGB { r: 0, g: 0, b: 0 };
    let mut state = WalkState::begin((10, 10), reference, 4, 25);
    for _ in 0..3 {
        state = state.step(ring((10 * ONE, 10 * ONE), 8, 0), 4, 25);
    }
    state
}

#[test]
fn outermost_ring_with_many_matches_aborts() {
    let state = shrinking_state();
    let ended = state.step(ring((0, 0), 6, 0), 4, 25);
    assert_eq!(ended.phase, Phase::Rejected);
    assert_eq!(ended.outer_distance, 25);
}

#[test]
fn outermost_ring_with_five_matches_keeps_shrinking() {
    let state = shrinking_state();
    let next = state.step(ring((0, 0), 5, 0), 4, 25);
    assert_eq!(next.phase, Phase::Shrinking);
    assert_eq!(next.outer_distance, 23);
    assert_eq!(next.inner_distance, 7);
    assert_eq!(next.center, state.center);
    assert_eq!(next.total_tests, state.total_tests);
    // The abort applies to the outermost ring only.
    let later = next.step(ring((0, 0), 8, 0), 4, 25);
    assert_eq!(later.phase, Phase::Shrinking);
    assert_eq!(later.outer_distance, 21);
}

#[test]
fn shrinking_with_few_matches_turns_back_to_growing() {
    let state = shrinking_state();
    let next = state.step(ring((0, 0), 1, 0), 4, 25);
    assert_eq!(next.phase, Phase::Growing);
    assert_eq!(next.outer_distance, 23);
    let same = state.step(ring((0, 0), 2, 0), 4, 25);
    assert_eq!(same.phase, Phase::Shrinking);
}

#[test]
fn rings_that_meet_exactly_give_no_dot() {
    let reference = RGB { r: 0, g: 0, b: 0 };
    // Odd max_size: inner and outer distance meet at 5.
    let mut state = WalkState::begin((10, 10), reference, 9, 5);
    state = state.step(ring((10 * ONE, 10 * ONE), 8, 0), 9, 5);
    assert_eq!(state.phase, Phase::Growing);
    state = state.step(ring((10 * ONE, 10 * ONE), 8, 0), 9, 5);
    assert_eq!((state.inner_distance, state.outer_distance), (5, 5));
    assert_eq!(state.phase, Phase::Rejected);
}

#[test]
fn rings_that_cross_give_a_dot_of_the_inner_size() {
    let reference = RGB { r: 0, g: 0, b: 0 };
    let mut state = WalkState::begin((10, 10), reference, 4, 4);
    state = state.step(ring((10 * ONE, 10 * ONE), 8, 0), 4, 4);
    state = state.step(ring((10 * ONE, 10 * ONE), 8, 0), 4, 4);
    assert_eq!((state.inner_distance, state.outer_distance), (5, 4));
    assert_eq!(state.phase, Phase::Accepted);
    // The same crossing below min_size is no dot.
    let mut small = WalkState::begin((10, 10), reference, 6, 4);
    small = small.step(ring((10 * ONE, 10 * ONE), 8, 0), 6, 4);
    small = small.step(ring((10 * ONE, 10 * ONE), 8, 0), 6, 4);
    assert_eq!(small.phase, Phase::Rejected);
}

#[test]
fn ring_walker_converges_on_synthetic_dot() {
    let img = disk(80, 40, 10, BLACK, WHITE);
    let table = rotations(26);
    let found = locate_dot(&img, (40, 40), 4, 25, &table).unwrap().unwrap();
    assert_eq!(found, dot(40 * ONE, 40 * ONE, 11));
    assert!(found.size >= 8 && found.size <= 12);
    assert!((found.position.0 - 40 * ONE).abs() <= ONE);
    assert!((found.position.1 - 40 * ONE).abs() <= ONE);
}

#[test]
fn ring_walker_converges_from_nearby_seeds() {
    let img = disk(80, 40, 10, BLACK, WHITE);
    let table = rotations(26);
    assert_eq!(locate_dot(&img, (42, 41), 4, 25, &table), Ok(Some(dot(632615, 650809, 11))));
    assert_eq!(locate_dot(&img, (35, 40), 4, 25, &table), Ok(Some(dot(696494, 670867, 11))));
}

#[test]
fn ring_walker_result_does_not_depend_on_colours() {
    let table = rotations(26);
    let a = disk(80, 40, 10, [200, 40, 40], [30, 60, 90]);
    let b = disk(80, 40, 10, WHITE, BLACK);
    assert_eq!(locate_dot(&a, (40, 40), 4, 25, &table), Ok(Some(dot(40 * ONE, 40 * ONE, 11))));
    assert_eq!(locate_dot(&b, (40, 40), 4, 25, &table), Ok(Some(dot(40 * ONE, 40 * ONE, 11))));
}

#[test]
fn match_dots_sweeps_the_seed_grid_in_column_order() {
    let img = disk(80, 40, 10, BLACK, WHITE);
    let table = rotations(26);
    let dots = match_dots(&img, &table).unwrap();
    assert_eq!(
        dots,
        vec![
            dot(686781, 696599, 11),
            dot(696494, 670867, 11),
            dot(685433, 630545, 11),
            dot(673570, 699075, 11),
            dot(655360, 655360, 11),
            dot(673134, 635730, 11),
            dot(639868, 669197, 11),
            dot(637186, 682971, 11),
            dot(629473, 640646, 11),
        ]
    );
    for d in &dots {
        assert!(d.size >= MIN_SIZE as u32);
        assert!(d.size <= MAX_SIZE as u32 + 1);
    }
}

#[test]
fn match_dots_agrees_with_locate_dot_at_each_seed() {
    let img = disk(40, 20, 7, BLACK, WHITE);
    let table = rotations(26);
    let mut expected = Vec::new();
    for x in (0..40).step_by(5) {
        for y in (0..40).step_by(5) {
            if let Some(d) = locate_dot(&img, (x, y), MIN_SIZE, MAX_SIZE, &table).unwrap() {
                expected.push(d);
            }
        }
    }
    assert!(!expected.is_empty());
    assert_eq!(match_dots(&img, &table), Ok(expected));
}

#[test]
fn ring_walker_rejects_uniform_white_field() {
    let img = uniform(60, 60, WHITE);
    let table = rotations(26);
    for x in 0..60 {
        for y in 0..60 {
            assert_eq!(locate_dot(&img, (x, y), 4, 25, &table), Ok(None));
        }
    }
    assert_eq!(match_dots(&img, &table), Ok(vec![]));
}

#[test]
fn ring_walker_rejects_uniform_field_away_from_the_border() {
    let table = rotations(26);
    for colour in [BLACK, [10, 200, 30]] {
        let img = uniform(120, 120, colour);
        for x in (30..90).step_by(3) {
            for y in (30..90).step_by(3) {
                assert_eq!(locate_dot(&img, (x, y), 4, 25, &table), Ok(None));
            }
        }
    }
}

#[test]
fn white_reads_outside_the_image_can_end_a_walk_at_the_border() {
    // Reads outside the image give white, so a dark field ends at its border.
    let img = uniform(60, 60, BLACK);
    let table = rotations(26);
    assert_eq!(locate_dot(&img, (1, 0), 4, 25, &table), Ok(Some(dot(29464, 22107, 5))));
}

#[test]
fn rings_crossing_untested_yield_a_dot_on_a_blank_image() {
    let img = uniform(30, 30, WHITE);
    let table = rotations(26);
    assert_eq!(locate_dot(&img, (3, 4), 4, 4, &table), Ok(Some(dot(3 * ONE, 4 * ONE, 5))));
    assert_eq!(locate_dot(&img, (3, 4), 5, 4, &table), Ok(Some(dot(3 * ONE, 4 * ONE, 5))));
    assert_eq!(locate_dot(&img, (3, 4), 6, 4, &table), Ok(None));
    assert_eq!(locate_dot(&img, (3, 4), 4, 5, &table), Ok(None));
    assert_eq!(locate_dot(&img, (3, 4), 4, 8, &table), Ok(None));
    assert_eq!(locate_dot(&img, (3, 4), 5, 8, &table), Ok(Some(dot(3 * ONE, 4 * ONE, 9))));
}

#[test]
fn disk_below_min_size_is_never_accepted() {
    let img = disk(80, 40, 2, BLACK, WHITE);
    let table = rotations(26);
    for x in 0..80 {
        for y in 0..80 {
            assert_eq!(locate_dot(&img, (x, y), 4, 25, &table), Ok(None));
        }
    }
    assert_eq!(match_dots(&img, &table), Ok(vec![]));
}

#[test]
fn accepted_dots_are_never_smaller_than_min_size() {
    let img = disk(80, 40, 10, BLACK, WHITE);
    let table = rotations(40);
    for min_size in [0u16, 4, 11, 12, 13, 30] {
        for x in (20..60).step_by(4) {
            for y in (20..60).step_by(4) {
                if let Some(d) = locate_dot(&img, (x, y), min_size, 35, &table).unwrap() {
                    assert!(d.size >= min_size as u32);
                }
            }
        }
    }
    assert_eq!(locate_dot(&img, (40, 40), 11, 25, &table), Ok(Some(dot(40 * ONE, 40 * ONE, 11))));
    assert_eq!(locate_dot(&img, (40, 40), 12, 25, &table), Ok(None));
}

#[test]
fn walker_refuses_an_image_without_area() {
    let table = rotations(26);
    for (w, h) in [(0, 0), (0, 5), (5, 0)] {
        let img = DynamicImage::new_rgba8(w, h);
        assert_eq!(locate_dot(&img, (0, 0), 4, 25, &table), Err(InvalidInput));
        assert_eq!(match_dots(&img, &table), Err(InvalidInput));
    }
}

#[test]
fn walker_refuses_a_short_rotation_table() {
    let img = uniform(10, 10, WHITE);
    assert_eq!(locate_dot(&img, (0, 0), 4, 25, &rotations(25)), Err(InvalidInput));
    assert_eq!(locate_dot(&img, (0, 0), 4, 25, &rotations(26)), Ok(None));
    assert_eq!(locate_dot(&img, (0, 0), 4, 0, &[]), Err(InvalidInput));
    assert_eq!(match_dots(&img, &rotations(25)), Err(InvalidInput));
    assert_eq!(match_dots(&img, &rotations(26)), Ok(vec![]));
}
