use image::{DynamicImage, Rgba, RgbaImage};
use video_bard::candidates::{
    accumulator_limit, extract_candidates, is_candidate, neighbour_outranks, vote_limit, Circle,
};
use video_bard::detector::{find_circles, reference_radii, Detection, DotDetector};
use video_bard::edges::detect_edges;
use video_bard::hough::{hough_vote, write_vote, Edge};
use video_bard::ring::Rotation;
use video_bard::types::InvalidInput;

const ONE: i16 = 16384;

fn edge(x: u32, y: u32, dir_x: i16, dir_y: i16) -> Edge {
    Edge { x, y, dir_x, dir_y }
}

fn circle(x: usize, y: usize, r: u32, votes: u8) -> Circle {
    Circle { x, y, r, votes }
}

fn grid(width: usize, height: usize, cells: &[((usize, usize), u8)]) -> Vec<u8> {
    let mut g = vec![0u8; width * height];
    for ((x, y), v) in cells {
        g[x + y * width] = *v;
    }
    g
}

/// A disk that covers the pixels nearer than `radius` to its centre.
fn disk(size: u32, center: i64, radius: i64, inside: u8, outside: u8) -> DynamicImage {
    DynamicImage::ImageRgba8(RgbaImage::from_fn(size, size, |x, y| {
        let dx = x as i64 - center;
        let dy = y as i64 - center;
        let c = if dx * dx + dy * dy < radius * radius { inside } else { outside };
        Rgba([c, c, c, 255])
    }))
}

#[test]
fn write_vote_counts_inside_the_grid() {
    let mut acc = vec![0u8; 12];
    write_vote(4, 3, &mut acc, 1, 2);
    write_vote(4, 3, &mut acc, 1, 2);
    write_vote(4, 3, &mut acc, 3, 0);
    write_vote(4, 3, &mut acc, 0, 0);
    assert_eq!(acc, vec![1, 0, 0, 1, 0, 0, 0, 0, 0, 2, 0, 0]);
}

#[test]
fn write_vote_drops_votes_outside_the_grid() {
    let before: Vec<u8> = (0..12).collect();
    for (x, y) in [(-1, 0), (4, 0), (0, -1), (0, 3), (-1, 1), (4, 1), (5, 2), (-3, -3), (i32::MAX, 0), (0, i32::MIN)] {
        let mut acc = before.clone();
        write_vote(4, 3, &mut acc, x, y);
        assert_eq!(acc, before);
    }
}

#[test]
fn write_vote_stops_at_full_count() {
    let mut acc = vec![254u8, 255u8];
    write_vote(2, 1, &mut acc, 0, 0);
    write_vote(2, 1, &mut acc, 0, 0);
    write_vote(2, 1, &mut acc, 1, 0);
    assert_eq!(acc, vec![255, 255]);
}

#[test]
fn single_edge_votes_for_both_centres() {
    let acc = hough_vote(&[edge(4, 4, ONE, 0)], 9, 9, 2).unwrap();
    let expected: Vec<u8> = vec![
        0, 0, 0, 0, 0, 0, 0, 0, 0, //
        0, 0, 0, 0, 0, 0, 0, 0, 0, //
        0, 0, 0, 0, 0, 0, 0, 0, 0, //
        0, 1, 1, 1, 0, 1, 1, 1, 0, //
        0, 1, 1, 1, 0, 1, 2, 1, 0, //
        0, 1, 1, 1, 0, 1, 1, 1, 0, //
        0, 0, 0, 0, 0, 0, 0, 0, 0, //
        0, 0, 0, 0, 0, 0, 0, 0, 0, //
        0, 0, 0, 0, 0, 0, 0, 0, 0, //
    ];
    assert_eq!(acc, expected);
}

#[test]
fn votes_beyond_the_border_are_dropped_not_wrapped() {
    // The far centre lies at column 8 of a grid of 8 columns.
    let acc = hough_vote(&[edge(6, 4, ONE, 0)], 8, 8, 2).unwrap();
    let expected: Vec<u8> = vec![
        0, 0, 0, 0, 0, 0, 0, 0, //
        0, 0, 0, 0, 0, 0, 0, 0, //
        0, 0, 0, 0, 0, 0, 0, 0, //
        0, 0, 0, 1, 1, 1, 0, 1, //
        0, 0, 0, 1, 1, 1, 0, 1, //
        0, 0, 0, 1, 1, 1, 0, 1, //
        0, 0, 0, 0, 0, 0, 0, 0, //
        0, 0, 0, 0, 0, 0, 0, 0, //
    ];
    assert_eq!(acc, expected);
}

#[test]
fn edges_projecting_outside_cast_no_vote() {
    let quiet = hough_vote(&[], 6, 5, 10).unwrap();
    assert_eq!(quiet, vec![0u8; 30]);
    let acc = hough_vote(&[edge(2, 2, ONE, 0), edge(3, 1, 0, -ONE), edge(0, 4, -ONE, ONE)], 6, 5, 10)
        .unwrap();
    assert_eq!(acc, quiet);
}

#[test]
fn offsets_are_cut_toward_zero() {
    // 3 / sqrt(2) = 2.12: both offsets are -2.
    let acc = hough_vote(&[edge(1, 1, -11585, -11585)], 6, 5, 3).unwrap();
    let expected: Vec<u8> = vec![
        1, 0, 0, 0, 0, 0, //
        0, 0, 0, 0, 0, 0, //
        0, 0, 1, 1, 1, 0, //
        0, 0, 1, 1, 1, 0, //
        0, 0, 1, 1, 1, 0, //
    ];
    assert_eq!(acc, expected);
}

#[test]
fn counts_stop_at_255() {
    let edges = vec![edge(2, 2, 8192, -ONE); 200];
    let acc = hough_vote(&edges, 5, 5, 1).unwrap();
    let expected: Vec<u8> = vec![
        0, 200, 200, 200, 0, //
        0, 200, 255, 200, 0, //
        0, 255, 255, 255, 0, //
        0, 200, 200, 200, 0, //
        0, 200, 200, 200, 0, //
    ];
    assert_eq!(acc, expected);
}

#[test]
fn vote_order_does_not_matter() {
    let a = [edge(4, 4, ONE, 0), edge(5, 3, 11585, 11585), edge(1, 7, 0, -ONE)];
    let b = [a[2], a[0], a[1]];
    assert_eq!(hough_vote(&a, 9, 9, 3), hough_vote(&b, 9, 9, 3));
}

#[test]
fn voting_refuses_a_grid_without_area() {
    let edges = [edge(0, 0, ONE, 0)];
    assert_eq!(hough_vote(&edges, 0, 5, 4), Err(InvalidInput));
    assert_eq!(hough_vote(&edges, 5, 0, 4), Err(InvalidInput));
    assert_eq!(hough_vote(&edges, 0, 0, 4), Err(InvalidInput));
    assert_eq!(hough_vote(&edges, usize::MAX, 2, 4), Err(InvalidInput));
    assert_eq!(find_circles(&edges, 0, 5, &[4]), Err(InvalidInput));
    assert_eq!(find_circles(&edges, 5, 0, &[4]), Err(InvalidInput));
    assert_eq!(find_circles(&edges, usize::MAX, 2, &[4]), Err(InvalidInput));
}

#[test]
fn thresholds_follow_the_radius() {
    let expected: [(u32, u64, i64); 11] = [
        (0, 30, 13),
        (1, 32, 13),
        (4, 36, 12),
        (5, 38, 12),
        (6, 40, 12),
        (8, 43, 11),
        (14, 52, 10),
        (67, 137, 0),
        (68, 139, -1),
        (100, 190, -7),
        (4294967295, 6871947702, -858993446),
    ];
    for (r, votes, mean) in expected {
        assert_eq!(vote_limit(r), votes);
        assert_eq!(accumulator_limit(r), mean);
    }
}

#[test]
fn higher_neighbour_always_outranks() {
    for d in [(-1, -1, -1), (0, 0, 1), (1, 0, 0), (0, -1, 0)] {
        assert!(neighbour_outranks(51, 50, d.0, d.1, d.2));
        assert!(!neighbour_outranks(49, 50, d.0, d.1, d.2));
    }
}

#[test]
fn equal_neighbour_outranks_when_later_in_order() {
    // Later column.
    assert!(neighbour_outranks(50, 50, 1, -1, -1));
    assert!(neighbour_outranks(50, 50, 1, 0, 0));
    assert!(!neighbour_outranks(50, 50, -1, 1, 1));
    // Same column, later row.
    assert!(neighbour_outranks(50, 50, 0, 1, -1));
    assert!(!neighbour_outranks(50, 50, 0, -1, 1));
    // Same cell, later radius.
    assert!(neighbour_outranks(50, 50, 0, 0, 1));
    assert!(!neighbour_outranks(50, 50, 0, 0, -1));
    assert!(!neighbour_outranks(50, 50, 0, 0, 0));
}

#[test]
fn exactly_one_of_two_equal_neighbours_outranks_the_other() {
    for dx in -1i8..=1 {
        for dy in -1i8..=1 {
            for dz in -1i8..=1 {
                if (dx, dy, dz) != (0, 0, 0) {
                    let forth = neighbour_outranks(7, 7, dx, dy, dz);
                    let back = neighbour_outranks(7, 7, -dx, -dy, -dz);
                    assert!(forth != back);
                }
            }
        }
    }
}

#[test]
fn plateau_in_a_row_keeps_the_later_column() {
    let maps = vec![grid(20, 20, &[((5, 5), 50), ((6, 5), 50)])];
    assert_eq!(extract_candidates(&maps, &[4], 20, 20), Ok(vec![circle(6, 5, 4, 50)]));
}

#[test]
fn plateau_in_a_column_keeps_the_later_row() {
    let maps = vec![grid(20, 20, &[((5, 5), 50), ((5, 6), 50)])];
    assert_eq!(extract_candidates(&maps, &[4], 20, 20), Ok(vec![circle(5, 6, 4, 50)]));
}

#[test]
fn plateau_across_radii_keeps_the_later_radius() {
    let maps = vec![grid(20, 20, &[((5, 5), 50)]), grid(20, 20, &[((5, 5), 50)])];
    assert_eq!(extract_candidates(&maps, &[4, 5], 20, 20), Ok(vec![circle(5, 5, 5, 50)]));
}

#[test]
fn equal_peaks_outside_each_others_window_are_both_kept() {
    let maps = vec![grid(20, 20, &[((5, 5), 50), ((15, 5), 50)])];
    assert_eq!(
        extract_candidates(&maps, &[4], 20, 20),
        Ok(vec![circle(5, 5, 4, 50), circle(15, 5, 4, 50)])
    );
}

#[test]
fn higher_neighbour_suppresses_a_cell() {
    let maps = vec![grid(20, 20, &[((5, 5), 50), ((6, 6), 51)])];
    assert_eq!(extract_candidates(&maps, &[4], 20, 20), Ok(vec![circle(6, 6, 4, 51)]));
}

#[test]
fn count_has_to_exceed_the_vote_threshold() {
    let at = vec![grid(20, 20, &[((5, 5), 36)])];
    let above = vec![grid(20, 20, &[((5, 5), 37)])];
    assert_eq!(extract_candidates(&at, &[4], 20, 20), Ok(vec![]));
    assert_eq!(extract_candidates(&above, &[4], 20, 20), Ok(vec![circle(5, 5, 4, 37)]));
    assert!(!is_candidate(&at, &[4], 20, 20, 0, 5, 5));
    assert!(is_candidate(&above, &[4], 20, 20, 0, 5, 5));
}

#[test]
fn dense_neighbourhood_is_rejected() {
    let maps = vec![vec![50u8; 400]];
    assert_eq!(extract_candidates(&maps, &[4], 20, 20), Ok(vec![]));
    // Mean of the eighty neighbours exactly 13: above the limit of 12.
    let mut cells = vec![((5usize, 5usize), 60u8)];
    for x in 1..10 {
        for y in 1..10 {
            if (x, y) != (5, 5) {
                cells.push(((x, y), 13));
            }
        }
    }
    let dense = vec![grid(20, 20, &cells)];
    assert_eq!(extract_candidates(&dense, &[4], 20, 20), Ok(vec![]));
    // One vote less and the mean rounds down to 12.
    cells[1] = ((1, 1), 12);
    let sparse = vec![grid(20, 20, &cells)];
    assert_eq!(extract_candidates(&sparse, &[4], 20, 20), Ok(vec![circle(5, 5, 4, 60)]));
}

#[test]
fn cell_without_neighbours_is_a_peak() {
    let maps = vec![vec![50u8]];
    assert_eq!(extract_candidates(&maps, &[4], 1, 1), Ok(vec![circle(0, 0, 4, 50)]));
}

#[test]
fn large_radii_accept_nothing() {
    let maps = vec![grid(200, 200, &[((100, 100), 200)])];
    assert_eq!(extract_candidates(&maps, &[67], 200, 200), Ok(vec![circle(100, 100, 67, 200)]));
    assert_eq!(extract_candidates(&maps, &[68], 200, 200), Ok(vec![]));
    assert_eq!(extract_candidates(&maps, &[500], 200, 200), Ok(vec![]));
}

#[test]
fn extraction_refuses_unusable_accumulators() {
    let map = vec![0u8; 12];
    assert_eq!(extract_candidates(&vec![map.clone()], &[4], 0, 3), Err(InvalidInput));
    assert_eq!(extract_candidates(&vec![map.clone()], &[4], 4, 0), Err(InvalidInput));
    assert_eq!(extract_candidates(&vec![map.clone()], &[4, 5], 4, 3), Err(InvalidInput));
    assert_eq!(extract_candidates(&vec![map.clone(), map.clone()], &[4], 4, 3), Err(InvalidInput));
    assert_eq!(extract_candidates(&vec![map.clone()], &[4], 4, 4), Err(InvalidInput));
    assert_eq!(extract_candidates(&vec![map.clone(), vec![0u8; 11]], &[4, 5], 4, 3), Err(InvalidInput));
    assert_eq!(extract_candidates(&vec![map.clone()], &[4], usize::MAX, 2), Err(InvalidInput));
    assert_eq!(extract_candidates(&vec![map.clone()], &[4], 4, 3), Ok(vec![]));
    assert_eq!(extract_candidates(&vec![], &[], 4, 3), Ok(vec![]));
    assert_eq!(extract_candidates(&vec![], &[], usize::MAX, 2), Ok(vec![]));
}

#[test]
fn extraction_is_deterministic() {
    let img = disk(64, 32, 6, 0, 255);
    let edges = detect_edges(&img).unwrap();
    let radii = reference_radii();
    let maps: Vec<Vec<u8>> = radii.iter().map(|r| hough_vote(&edges, 64, 64, *r).unwrap()).collect();
    let first = extract_candidates(&maps, &radii, 64, 64).unwrap();
    for _ in 0..3 {
        let again: Vec<Vec<u8>> =
            radii.iter().map(|r| hough_vote(&edges, 64, 64, *r).unwrap()).collect();
        assert_eq!(again, maps);
        assert_eq!(extract_candidates(&again, &radii, 64, 64).unwrap(), first);
    }
    assert_eq!(first, vec![circle(32, 32, 6, 43)]);
}

#[test]
fn reference_radii_run_from_four_to_fourteen() {
    assert_eq!(reference_radii(), vec![4, 5, 6, 7, 8, 9, 10, 11, 12, 13, 14]);
}

#[test]
fn scale_space_isolates_each_disk_at_its_own_radius() {
    let radii = reference_radii();
    for (radius, votes, at_centre) in [
        (6u32, 43u8, [12u8, 36, 43, 33, 17, 2, 0, 0, 0, 0, 0]),
        (8u32, 45u8, [0u8, 0, 14, 36, 45, 33, 18, 6, 0, 0, 0]),
    ] {
        let img = disk(64, 32, radius as i64, 0, 255);
        let edges = detect_edges(&img).unwrap();
        let maps: Vec<Vec<u8>> =
            radii.iter().map(|r| hough_vote(&edges, 64, 64, *r).unwrap()).collect();
        for z in 0..radii.len() {
            assert_eq!(maps[z][32 + 32 * 64], at_centre[z]);
            let own = radii[z] == radius;
            assert_eq!(is_candidate(&maps, &radii, 64, 64, z, 32, 32), own);
        }
        let found = find_circles(&edges, 64, 64, &radii).unwrap();
        assert_eq!(found, vec![circle(32, 32, radius, votes)]);
        assert_eq!(extract_candidates(&maps, &radii, 64, 64), Ok(found));
    }
}

#[test]
fn detector_offers_both_strategies() {
    let img = disk(64, 32, 6, 0, 255);
    let hough = DotDetector::Hough { radii: reference_radii() };
    assert_eq!(
        hough.detect(&img),
        Ok(vec![Detection { x: 32 * 16384, y: 32 * 16384, radius: 6 }])
    );
    let table: Vec<Rotation> = (0..26)
        .map(|d| Rotation {
            cos: ((d as f64).cos() * 16384.0).round() as i16,
            sin: ((d as f64).sin() * 16384.0).round() as i16,
        })
        .collect();
    let walk = DotDetector::RingWalk { rotations: table };
    let found = walk.detect(&img).unwrap();
    assert!(!found.is_empty());
    for d in &found {
        assert!((d.x - 32 * 16384).abs() <= 3 * 16384);
        assert!((d.y - 32 * 16384).abs() <= 3 * 16384);
        assert!(d.radius >= 5 && d.radius <= 9);
    }
    let empty = DynamicImage::new_rgba8(0, 7);
    assert_eq!(hough.detect(&empty), Err(InvalidInput));
    assert_eq!(walk.detect(&empty), Err(InvalidInput));
    let short = DotDetector::RingWalk { rotations: vec![] };
    assert_eq!(short.detect(&img), Err(InvalidInput));
}
