//! The ring test of the walker: eight probes on a rotated ring around a
//! centre estimate, each compared with a reference colour.

use vstd::prelude::*;
use crate::fixed::{trunc_div, lemma_trunc_div_between, div_toward_zero};
use crate::raster::{protected_pixel, pixel_or_white};
use crate::types::RGB;

verus! {

/// Number of probes on a ring.
pub const RING_POINTS: usize = 8;

/// One over the square root of two, in fixed point.
pub const DIAGONAL: i64 = 11585;

/// Squared colour distance below which two colours match: thirty levels,
/// squared, in fixed point.
pub const TOLERANCE: i64 = 241591910400;

/// Largest magnitude of a centre coordinate that a ring test accepts.
pub const CENTER_LIMIT: i64 = 281474976710656;

/// Largest magnitude of one coordinate of a rotated unit direction.
pub const OFFSET_LIMIT: i64 = 65536;

/// A rotation of the plane, given by the cosine and sine of its angle in
/// fixed point.
#[derive(Clone, Copy, Debug, PartialEq, Eq, Structural)]
pub struct Rotation {
    pub cos: i16,
    pub sin: i16,
}

/// Outcome of one ring test.
#[derive(Clone, Copy, Debug, PartialEq, Eq)]
pub struct RingMatch {
    /// Centroid of the old centre and the matching probe positions.
    pub center: (i64, i64),
    /// Number of probes whose colour matched the reference.
    pub matches: u8,
    /// Mean of the reference colour and the matching probe colours.
    pub average: RGB,
}

/// The eight unit directions: the compass points and the diagonals between
/// them, counter-clockwise from the positive x axis.
pub open spec fn base_direction(i: int) -> (int, int) {
    if i == 0 {
        (16384, 0)
    } else if i == 1 {
        (11585, 11585)
    } else if i == 2 {
        (0, 16384)
    } else if i == 3 {
        (-11585, 11585)
    } else if i == 4 {
        (-16384, 0)
    } else if i == 5 {
        (-11585, -11585)
    } else if i == 6 {
        (0, -16384)
    } else {
        (11585, -11585)
    }
}

/// The `i`-th unit direction turned by `rot`.
pub open spec fn ring_offset(rot: Rotation, i: int) -> (int, int) {
    let b = base_direction(i);
    (
        trunc_div(b.0 * rot.cos - b.1 * rot.sin, 16384),
        trunc_div(b.0 * rot.sin + b.1 * rot.cos, 16384),
    )
}

/// Position of the `i`-th probe: the centre plus the turned direction scaled
/// to length `distance`.
pub open spec fn probe_position(center: (i64, i64), rot: Rotation, distance: int, i: int) -> (
    int,
    int,
) {
    let o = ring_offset(rot, i);
    (center.0 + o.0 * distance, center.1 + o.1 * distance)
}

/// The pixel under the `i`-th probe; coordinates are cut to whole pixels
/// toward zero, and positions outside the image read as white.
pub open spec fn probe_pixel(
    img: image::DynamicImage,
    center: (i64, i64),
    rot: Rotation,
    distance: int,
    i: int,
) -> (u8, u8, u8, u8) {
    let p = probe_position(center, rot, distance, i);
    protected_pixel(img, trunc_div(p.0, 16384), trunc_div(p.1, 16384))
}

/// Squared Euclidean distance between two colours.
pub open spec fn colour_gap(a: RGB, b: RGB) -> int {
    (a.r - b.r) * (a.r - b.r) + (a.g - b.g) * (a.g - b.g) + (a.b - b.b) * (a.b - b.b)
}

/// Whether a pixel is within tolerance of the reference colour.
pub open spec fn colours_match(reference: RGB, pixel: (u8, u8, u8, u8)) -> bool {
    colour_gap(reference, RGB::of_pixel(pixel)) < TOLERANCE
}

/// The `i`-th unit direction.
pub fn base_vector(i: usize) -> (b: (i64, i64))
    requires
        i < 8,
    ensures
        b.0 == base_direction(i as int).0,
        b.1 == base_direction(i as int).1,
        -16384 <= b.0 <= 16384,
        -16384 <= b.1 <= 16384,
{
    if i == 0 {
        (16384, 0)
    } else if i == 1 {
        (DIAGONAL, DIAGONAL)
    } else if i == 2 {
        (0, 16384)
    } else if i == 3 {
        (-DIAGONAL, DIAGONAL)
    } else if i == 4 {
        (-16384, 0)
    } else if i == 5 {
        (-DIAGONAL, -DIAGONAL)
    } else if i == 6 {
        (0, -16384)
    } else {
        (DIAGONAL, -DIAGONAL)
    }
}

/// Turns the `i`-th unit direction by `rot`.
pub fn rotated_direction(rot: Rotation, i: usize) -> (o: (i64, i64))
    requires
        i < 8,
    ensures
        o.0 == ring_offset(rot, i as int).0,
        o.1 == ring_offset(rot, i as int).1,
        -OFFSET_LIMIT <= o.0 <= OFFSET_LIMIT,
        -OFFSET_LIMIT <= o.1 <= OFFSET_LIMIT,
{
    let b: (i64, i64) = base_vector(i);
    let c: i64 = rot.cos as i64;
    let s: i64 = rot.sin as i64;
    assert(-536870912 <= b.0 * c <= 536870912 && -536870912 <= b.1 * s <= 536870912 && -536870912
        <= b.0 * s <= 536870912 && -536870912 <= b.1 * c <= 536870912) by (nonlinear_arith)
        requires
            -16384 <= b.0 <= 16384,
            -16384 <= b.1 <= 16384,
            -32768 <= c <= 32768,
            -32768 <= s <= 32768,
    ;
    let nx: i64 = b.0 * c - b.1 * s;
    let ny: i64 = b.0 * s + b.1 * c;
    proof {
        lemma_trunc_div_between(nx as int, 16384, -65536, 65536);
        lemma_trunc_div_between(ny as int, 16384, -65536, 65536);
    }
    (div_toward_zero(nx, 16384), div_toward_zero(ny, 16384))
}

/// Whether `pixel` is within tolerance of `reference`.
pub fn colour_matches(reference: RGB, pixel: (u8, u8, u8, u8)) -> (m: bool)
    requires
        reference.in_range(),
    ensures
        m == colours_match(reference, pixel),
{
    let p: RGB = RGB::from_pixel(pixel);
    let dr: i64 = reference.r as i64 - p.r as i64;
    let dg: i64 = reference.g as i64 - p.g as i64;
    let db: i64 = reference.b as i64 - p.b as i64;
    assert(0 <= dr * dr <= 17455015526400 && 0 <= dg * dg <= 17455015526400 && 0 <= db * db
        <= 17455015526400) by (nonlinear_arith)
        requires
            -4177920 <= dr <= 4177920,
            -4177920 <= dg <= 4177920,
            -4177920 <= db <= 4177920,
    ;
    dr * dr + dg * dg + db * db < TOLERANCE
}

/// Running totals of a ring test over its first probes.
pub struct RingTally {
    /// Number of matching probes.
    pub matches: int,
    /// Sum of the matching probes' offsets from the centre.
    pub shift: (int, int),
    /// Channel sums of the reference colour and the matching probe colours.
    pub sum: (int, int, int),
}

/// The totals after the first `upto` probes.
pub open spec fn ring_tally(
    img: image::DynamicImage,
    center: (i64, i64),
    reference: RGB,
    rot: Rotation,
    distance: int,
    upto: nat,
) -> RingTally
    decreases upto,
{
    if upto == 0 {
        RingTally {
            matches: 0,
            shift: (0, 0),
            sum: (reference.r as int, reference.g as int, reference.b as int),
        }
    } else {
        let t = ring_tally(img, center, reference, rot, distance, (upto - 1) as nat);
        let i = upto - 1;
        let pixel = probe_pixel(img, center, rot, distance, i);
        let o = ring_offset(rot, i);
        let c = RGB::of_pixel(pixel);
        if colours_match(reference, pixel) {
            RingTally {
                matches: t.matches + 1,
                shift: (t.shift.0 + o.0 * distance, t.shift.1 + o.1 * distance),
                sum: (t.sum.0 + c.r, t.sum.1 + c.g, t.sum.2 + c.b),
            }
        } else {
            t
        }
    }
}

/// The result of a ring test at `distance` around `center`: the number of
/// probes that match `reference`, the centroid of the centre and the matching
/// probe positions, and the mean of the reference and the matching colours.
/// Both means are rounded toward zero; the centroid is taken relative to the
/// centre.
pub open spec fn ring_match(
    img: image::DynamicImage,
    center: (i64, i64),
    reference: RGB,
    rot: Rotation,
    distance: int,
) -> RingMatch {
    let t = ring_tally(img, center, reference, rot, distance, 8);
    let n = 1 + t.matches;
    RingMatch {
        center: (
            (center.0 + trunc_div(t.shift.0, n)) as i64,
            (center.1 + trunc_div(t.shift.1, n)) as i64,
        ),
        matches: t.matches as u8,
        average: RGB {
            r: trunc_div(t.sum.0, n) as i32,
            g: trunc_div(t.sum.1, n) as i32,
            b: trunc_div(t.sum.2, n) as i32,
        },
    }
}

/// Runs one ring test: probes the eight turned directions at `distance`
/// around `center` and compares each pixel with `reference`.
pub fn match_ring(
    img: &image::DynamicImage,
    center: (i64, i64),
    reference: RGB,
    distance: u16,
    rot: Rotation,
) -> (m: RingMatch)
    requires
        -CENTER_LIMIT <= center.0 <= CENTER_LIMIT,
        -CENTER_LIMIT <= center.1 <= CENTER_LIMIT,
        reference.in_range(),
    ensures
        m == ring_match(*img, center, reference, rot, distance as int),
        m.matches == ring_tally(*img, center, reference, rot, distance as int, 8).matches,
        m.matches <= 8,
        m.average.in_range(),
        center.0 - OFFSET_LIMIT * distance <= m.center.0 <= center.0 + OFFSET_LIMIT * distance,
        center.1 - OFFSET_LIMIT * distance <= m.center.1 <= center.1 + OFFSET_LIMIT * distance,
{
    let d: i64 = distance as i64;
    let reach: i64 = OFFSET_LIMIT * d;
    let mut matches: i64 = 0;
    let mut shift_x: i64 = 0;
    let mut shift_y: i64 = 0;
    let mut sum_r: i64 = reference.r as i64;
    let mut sum_g: i64 = reference.g as i64;
    let mut sum_b: i64 = reference.b as i64;
    let mut i: usize = 0;
    while i < 8
        invariant
            i <= 8,
            d == distance,
            reach == 65536 * d,
            0 <= reach <= 4294901760,
            -CENTER_LIMIT <= center.0 <= CENTER_LIMIT,
            -CENTER_LIMIT <= center.1 <= CENTER_LIMIT,
            reference.in_range(),
            0 <= matches <= i,
            -(matches * reach) <= shift_x <= matches * reach,
            -(matches * reach) <= shift_y <= matches * reach,
            0 <= sum_r <= (1 + matches) * 4177920,
            0 <= sum_g <= (1 + matches) * 4177920,
            0 <= sum_b <= (1 + matches) * 4177920,
            ring_tally(*img, center, reference, rot, d as int, i as nat) == (RingTally {
                matches: matches as int,
                shift: (shift_x as int, shift_y as int),
                sum: (sum_r as int, sum_g as int, sum_b as int),
            }),
        decreases 8 - i,
    {
        let o: (i64, i64) = rotated_direction(rot, i);
        assert(-reach <= o.0 * d <= reach && -reach <= o.1 * d <= reach) by (nonlinear_arith)
            requires
                -65536 <= o.0 <= 65536,
                -65536 <= o.1 <= 65536,
                0 <= d,
                reach == 65536 * d,
        ;
        assert(-8 * reach <= matches * reach <= 8 * reach) by (nonlinear_arith)
            requires
                0 <= matches <= 8,
                0 <= reach,
        ;
        let ox: i64 = o.0 * d;
        let oy: i64 = o.1 * d;
        let px: i64 = center.0 + ox;
        let py: i64 = center.1 + oy;
        let pixel: (u8, u8, u8, u8) = pixel_or_white(
            img,
            div_toward_zero(px, 16384),
            div_toward_zero(py, 16384),
        );
        assert(pixel == probe_pixel(*img, center, rot, d as int, i as int));
        if colour_matches(reference, pixel) {
            let c: RGB = RGB::from_pixel(pixel);
            assert((matches + 1) * reach == matches * reach + reach) by (nonlinear_arith);
            matches = matches + 1;
            shift_x = shift_x + ox;
            shift_y = shift_y + oy;
            sum_r = sum_r + c.r as i64;
            sum_g = sum_g + c.g as i64;
            sum_b = sum_b + c.b as i64;
        }
        i = i + 1;
    }
    let n: i64 = 1 + matches;
    proof {
        assert((-reach) * n <= -(matches * reach) && matches * reach <= reach * n) by (nonlinear_arith)
            requires
                n == 1 + matches,
                0 <= reach,
        ;
        lemma_trunc_div_between(shift_x as int, n as int, -(reach as int), reach as int);
        lemma_trunc_div_between(shift_y as int, n as int, -(reach as int), reach as int);
        assert(0 * n == 0 && 4177920 * n == (1 + matches) * 4177920) by (nonlinear_arith)
            requires
                n == 1 + matches,
        ;
        lemma_trunc_div_between(sum_r as int, n as int, 0, 4177920);
        lemma_trunc_div_between(sum_g as int, n as int, 0, 4177920);
        lemma_trunc_div_between(sum_b as int, n as int, 0, 4177920);
    }
    RingMatch {
        center: (center.0 + div_toward_zero(shift_x, n), center.1 + div_toward_zero(shift_y, n)),
        matches: matches as u8,
        average: RGB {
            r: div_toward_zero(sum_r, n) as i32,
            g: div_toward_zero(sum_g, n) as i32,
            b: div_toward_zero(sum_b, n) as i32,
        },
    }
}

} // verus!
