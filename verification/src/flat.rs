//! Walks over a flat field: a neighbourhood of the seed in which every probe
//! reads the same colour.

use vstd::prelude::*;
use crate::fixed::{lemma_trunc_div_between, trunc_div};
use crate::gradient::lemma_cell_in_grid;
use crate::raster::{
    image_height,
    image_pixels,
    image_width,
    inside,
    pixel_index,
    protected_pixel,
};
use crate::ring::{
    base_direction,
    colour_gap,
    colours_match,
    probe_pixel,
    probe_position,
    ring_match,
    ring_offset,
    ring_tally,
    Rotation,
};
use crate::types::RGB;
use crate::uniform::uniform;
use crate::walker::{blend_channel, locate, walk, Phase, WalkState};

verus! {

/// The centre of the pixel grid cell `seed` in fixed point.
pub open spec fn seed_center(seed: (u32, u32)) -> (i64, i64) {
    ((seed.0 * 16384) as i64, (seed.1 * 16384) as i64)
}

/// The field is flat around `seed`: the seed pixel and every probe of every
/// ring around it, up to distance `max_size`, read `colour`.
pub open spec fn flat_around(
    img: image::DynamicImage,
    seed: (u32, u32),
    rotations: Seq<Rotation>,
    max_size: int,
    colour: RGB,
) -> bool {
    &&& RGB::of_pixel(protected_pixel(img, seed.0 as int, seed.1 as int)) == colour
    &&& forall|d: int, i: int|
        1 <= d <= max_size && 0 <= i < 8 ==> RGB::of_pixel(
            #[trigger] probe_pixel(img, seed_center(seed), rotations[d], d, i),
        ) == colour
}

/// Every pixel of the image is white in red, green and blue.
pub open spec fn blank(img: image::DynamicImage) -> bool {
    forall|x: int, y: int|
        inside(img, x, y) ==> {
            let p = #[trigger] image_pixels(img)[pixel_index(img, x, y)];
            p.0 == 255 && p.1 == 255 && p.2 == 255
        }
}

/// White as a fixed-point colour.
pub open spec fn white_colour() -> RGB {
    RGB { r: 4177920, g: 4177920, b: 4177920 }
}

/// Where a walk over a flat field ends on a dot although there is none: an
/// even `max_size` with `min_size` within three below and one above it.  The
/// inner ring then passes the outer one before the outer ring is ever
/// tested.
pub open spec fn rings_cross_untested(min_size: int, max_size: int) -> bool {
    max_size % 2 == 0 && max_size - 3 <= min_size <= max_size + 1
}

/// Sum of the first `upto` probe offsets of a ring.
pub open spec fn offset_sum(rot: Rotation, distance: int, upto: nat) -> (int, int)
    decreases upto,
{
    if upto == 0 {
        (0, 0)
    } else {
        let before = offset_sum(rot, distance, (upto - 1) as nat);
        let o = ring_offset(rot, upto - 1);
        (before.0 + o.0 * distance, before.1 + o.1 * distance)
    }
}

/// Opposite probes of a ring have opposite offsets.
pub proof fn lemma_opposite_offsets(rot: Rotation, i: int)
    requires
        0 <= i < 4,
    ensures
        ring_offset(rot, i + 4).0 == -ring_offset(rot, i).0,
        ring_offset(rot, i + 4).1 == -ring_offset(rot, i).1,
{
}

/// The eight probe offsets of a ring sum to zero.
pub proof fn lemma_offsets_cancel(rot: Rotation, distance: int)
    ensures
        offset_sum(rot, distance, 8) == (0int, 0int),
{
    reveal_with_fuel(offset_sum, 9);
    assert forall|i: int| 0 <= i < 4 implies ring_offset(rot, i).0 * distance + ring_offset(
        rot,
        i + 4,
    ).0 * distance == 0 && ring_offset(rot, i).1 * distance + #[trigger] ring_offset(rot, i + 4).1
        * distance == 0 by {
        lemma_opposite_offsets(rot, i);
        let a = ring_offset(rot, i).0;
        let b = ring_offset(rot, i).1;
        assert(a * distance + (-a) * distance == 0 && b * distance + (-b) * distance == 0)
            by (nonlinear_arith);
    }
    assert(ring_offset(rot, 4) == ring_offset(rot, 0int + 4));
    assert(ring_offset(rot, 5) == ring_offset(rot, 1int + 4));
    assert(ring_offset(rot, 6) == ring_offset(rot, 2int + 4));
    assert(ring_offset(rot, 7) == ring_offset(rot, 3int + 4));
}

/// Where every probe reads the reference colour, every probe matches.
proof fn lemma_flat_tally(
    img: image::DynamicImage,
    center: (i64, i64),
    colour: RGB,
    rot: Rotation,
    distance: int,
    upto: nat,
)
    requires
        upto <= 8,
        forall|i: int|
            0 <= i < 8 ==> RGB::of_pixel(#[trigger] probe_pixel(img, center, rot, distance, i))
                == colour,
    ensures
        ring_tally(img, center, colour, rot, distance, upto).matches == upto,
        ring_tally(img, center, colour, rot, distance, upto).shift == offset_sum(
            rot,
            distance,
            upto,
        ),
        ring_tally(img, center, colour, rot, distance, upto).sum == (
            (1 + upto) * colour.r,
            (1 + upto) * colour.g,
            (1 + upto) * colour.b,
        ),
    decreases upto,
{
    if upto > 0 {
        lemma_flat_tally(img, center, colour, rot, distance, (upto - 1) as nat);
        let pixel = probe_pixel(img, center, rot, distance, upto - 1);
        assert(RGB::of_pixel(pixel) == colour);
        assert(colour_gap(colour, RGB::of_pixel(pixel)) == 0) by (nonlinear_arith)
            requires
                RGB::of_pixel(pixel) == colour,
        ;
        assert(colours_match(colour, pixel));
        assert((1 + upto) * colour.r == upto * colour.r + colour.r && (1 + upto) * colour.g == upto
            * colour.g + colour.g && (1 + upto) * colour.b == upto * colour.b + colour.b)
            by (nonlinear_arith);
        assert((1 + (upto - 1)) * colour.r == upto * colour.r && (1 + (upto - 1)) * colour.g
            == upto * colour.g && (1 + (upto - 1)) * colour.b == upto * colour.b)
            by (nonlinear_arith);
    } else {
        assert((1 + upto) * colour.r == colour.r && (1 + upto) * colour.g == colour.g && (1 + upto)
            * colour.b == colour.b) by (nonlinear_arith)
            requires
                upto == 0,
        ;
    }
}

/// A ring test in which every probe reads the reference colour: all eight
/// probes match, the centre stays where it is and the average is the
/// reference colour.
pub proof fn lemma_flat_ring(
    img: image::DynamicImage,
    center: (i64, i64),
    colour: RGB,
    rot: Rotation,
    distance: int,
)
    requires
        colour.in_range(),
        forall|i: int|
            0 <= i < 8 ==> RGB::of_pixel(#[trigger] probe_pixel(img, center, rot, distance, i))
                == colour,
    ensures
        ring_match(img, center, colour, rot, distance).matches == 8,
        ring_match(img, center, colour, rot, distance).center == center,
        ring_match(img, center, colour, rot, distance).average == colour,
{
    lemma_flat_tally(img, center, colour, rot, distance, 8);
    lemma_offsets_cancel(rot, distance);
    let t = ring_tally(img, center, colour, rot, distance, 8);
    assert(t.shift == (0int, 0int));
    assert(t.sum == (9 * colour.r, 9 * colour.g, 9 * colour.b));
}

/// A colour blended with itself stays as it is.
proof fn lemma_blend_same(level: int, part: int, whole: int)
    requires
        whole > 0,
    ensures
        blend_channel(level, level, part, whole) == level,
{
    assert((level - level) * part == 0) by (nonlinear_arith);
    vstd::arithmetic::div_mod::lemma_div_of0(whole);
}

/// A walk over a flat field that is still growing and has not yet tested a
/// ring beyond `min_size` ends on a dot exactly where the sizes let the
/// rings cross untested.
proof fn lemma_flat_walk(
    img: image::DynamicImage,
    rotations: Seq<Rotation>,
    min_size: int,
    max_size: int,
    colour: RGB,
    state: WalkState,
)
    requires
        flat_around(img, state.start, rotations, max_size, colour),
        colour.in_range(),
        0 <= min_size <= 65535,
        0 <= max_size <= 65535,
        state.phase == Phase::Growing,
        state.center == seed_center(state.start),
        state.reference == colour,
        state.outer_distance == max_size,
        state.inner_distance % 2 == 1,
        1 <= state.inner_distance < state.outer_distance,
        state.inner_distance <= min_size + 2,
        state.total_tests <= 4 * state.inner_distance,
        state.successful_tests <= 4 * state.inner_distance,
    ensures
        walk(img, rotations, min_size, max_size, state).phase == Phase::Accepted
            <==> rings_cross_untested(min_size, max_size),
    decreases max_size - state.inner_distance,
{
    let d = state.inner_distance as int;
    let home = seed_center(state.start);
    assert forall|i: int| 0 <= i < 8 implies RGB::of_pixel(
        #[trigger] probe_pixel(img, home, rotations[d], d, i),
    ) == colour by {}
    lemma_flat_ring(img, home, colour, rotations[d], d);
    let ring = ring_match(img, state.center, state.reference, rotations[d], d);
    let next = state.advance(ring, min_size, max_size);
    let successful = state.successful_tests + 8;
    let total = state.total_tests + 8;
    lemma_blend_same(colour.r as int, successful, total);
    lemma_blend_same(colour.g as int, successful, total);
    lemma_blend_same(colour.b as int, successful, total);
    assert(next.reference == colour);
    assert(next.center == home);
    assert(state.active());
    assert(walk(img, rotations, min_size, max_size, state) == walk(
        img,
        rotations,
        min_size,
        max_size,
        next,
    ));
    if d + 2 >= max_size {
        assert(!next.active());
        assert(next.phase == Phase::Accepted <==> rings_cross_untested(min_size, max_size));
    } else if d > min_size {
        assert(next.phase == Phase::Shrinking);
        assert(next.active());
        assert forall|i: int| 0 <= i < 8 implies RGB::of_pixel(
            #[trigger] probe_pixel(img, home, rotations[max_size], max_size, i),
        ) == colour by {}
        lemma_flat_ring(img, home, colour, rotations[max_size], max_size);
        let far = ring_match(img, next.center, next.reference, rotations[max_size], max_size);
        let last = next.advance(far, min_size, max_size);
        assert(last.phase == Phase::Rejected);
        assert(!last.active());
        assert(walk(img, rotations, min_size, max_size, next) == walk(
            img,
            rotations,
            min_size,
            max_size,
            last,
        ));
    } else {
        assert(next.phase == Phase::Growing);
        lemma_flat_walk(img, rotations, min_size, max_size, colour, next);
    }
}

/// Seeding the walker in a flat field yields no dot, unless the sizes let the
/// rings cross before the outer ring is tested; then it yields one.
pub proof fn lemma_flat_field_has_no_dot(
    img: image::DynamicImage,
    seed: (u32, u32),
    min_size: u16,
    max_size: u16,
    rotations: Seq<Rotation>,
    colour: RGB,
)
    requires
        flat_around(img, seed, rotations, max_size as int, colour),
    ensures
        locate(img, seed, min_size as int, max_size as int, rotations) is None
            <==> !rings_cross_untested(min_size as int, max_size as int),
{
    let first = WalkState::initial(seed, colour, min_size as int, max_size as int);
    if first.phase == Phase::Growing {
        lemma_flat_walk(img, rotations, min_size as int, max_size as int, colour, first);
    } else {
        assert(!first.active());
    }
}

/// On a blank image every read gives white.
proof fn lemma_blank_reads_white(img: image::DynamicImage, x: int, y: int)
    requires
        blank(img),
    ensures
        RGB::of_pixel(protected_pixel(img, x, y)) == white_colour(),
{
    if inside(img, x, y) {
        let p = image_pixels(img)[pixel_index(img, x, y)];
        assert(p.0 == 255 && p.1 == 255 && p.2 == 255);
    }
}

/// Seeding the walker anywhere in a blank image, one that is white all over
/// as the reads outside it are, yields no dot, with the same exception.
pub proof fn lemma_blank_image_has_no_dot(
    img: image::DynamicImage,
    seed: (u32, u32),
    min_size: u16,
    max_size: u16,
    rotations: Seq<Rotation>,
)
    requires
        blank(img),
    ensures
        locate(img, seed, min_size as int, max_size as int, rotations) is None
            <==> !rings_cross_untested(min_size as int, max_size as int),
{
    lemma_blank_reads_white(img, seed.0 as int, seed.1 as int);
    assert forall|d: int, i: int| 1 <= d <= max_size && 0 <= i < 8 implies RGB::of_pixel(
        #[trigger] probe_pixel(img, seed_center(seed), rotations[d], d, i),
    ) == white_colour() by {
        let p = probe_position(seed_center(seed), rotations[d], d, i);
        lemma_blank_reads_white(img, trunc_div(p.0, 16384), trunc_div(p.1, 16384));
    }
    lemma_flat_field_has_no_dot(img, seed, min_size, max_size, rotations, white_colour());
}

/// No coordinate of a turned unit direction exceeds `OFFSET_LIMIT`.
pub proof fn lemma_offset_bound(rot: Rotation, i: int)
    requires
        0 <= i < 8,
    ensures
        -65536 <= ring_offset(rot, i).0 <= 65536,
        -65536 <= ring_offset(rot, i).1 <= 65536,
{
    let b = base_direction(i);
    let c = rot.cos as int;
    let s = rot.sin as int;
    assert(-536870912 <= b.0 * c <= 536870912 && -536870912 <= b.1 * s <= 536870912 && -536870912
        <= b.0 * s <= 536870912 && -536870912 <= b.1 * c <= 536870912) by (nonlinear_arith)
        requires
            -16384 <= b.0 <= 16384,
            -16384 <= b.1 <= 16384,
            -32768 <= c <= 32768,
            -32768 <= s <= 32768,
    ;
    lemma_trunc_div_between(b.0 * c - b.1 * s, 16384, -65536, 65536);
    lemma_trunc_div_between(b.0 * s + b.1 * c, 16384, -65536, 65536);
}

/// An image of one colour is flat around every seed that keeps four times
/// `max_size` pixels away from its border: no probe can leave the image.
pub proof fn lemma_uniform_image_is_flat_inside(
    img: image::DynamicImage,
    r: u8,
    g: u8,
    b: u8,
    seed: (u32, u32),
    rotations: Seq<Rotation>,
    max_size: int,
)
    requires
        uniform(img, r, g, b),
        0 <= max_size,
        4 * max_size <= seed.0,
        seed.0 + 4 * max_size < image_width(img),
        4 * max_size <= seed.1,
        seed.1 + 4 * max_size < image_height(img),
    ensures
        flat_around(img, seed, rotations, max_size, RGB::of_pixel((r, g, b, 0u8))),
{
    let colour = RGB::of_pixel((r, g, b, 0u8));
    let w = image_width(img) as int;
    let h = image_height(img) as int;
    assert forall|x: int, y: int| inside(img, x, y) implies RGB::of_pixel(
        #[trigger] protected_pixel(img, x, y),
    ) == colour by {
        lemma_cell_in_grid(w, h, x, y);
        let p = image_pixels(img)[pixel_index(img, x, y)];
        assert(p.0 == r && p.1 == g && p.2 == b);
    }
    assert(inside(img, seed.0 as int, seed.1 as int));
    assert forall|d: int, i: int| 1 <= d <= max_size && 0 <= i < 8 implies RGB::of_pixel(
        #[trigger] probe_pixel(img, seed_center(seed), rotations[d], d, i),
    ) == colour by {
        let rot = rotations[d];
        lemma_offset_bound(rot, i);
        let o = ring_offset(rot, i);
        let p = probe_position(seed_center(seed), rot, d, i);
        assert(-65536 * max_size <= o.0 * d <= 65536 * max_size && -65536 * max_size <= o.1 * d
            <= 65536 * max_size) by (nonlinear_arith)
            requires
                -65536 <= o.0 <= 65536,
                -65536 <= o.1 <= 65536,
                1 <= d <= max_size,
        ;
        lemma_trunc_div_between(p.0, 16384, seed.0 - 4 * max_size, seed.0 + 4 * max_size);
        lemma_trunc_div_between(p.1, 16384, seed.1 - 4 * max_size, seed.1 + 4 * max_size);
        assert(inside(img, trunc_div(p.0, 16384), trunc_div(p.1, 16384)));
    }
}

/// Seeding the walker in an image of one colour, four times `max_size`
/// pixels or more from its border, yields no dot, unless the sizes let the
/// rings cross untested.
pub proof fn lemma_uniform_image_has_no_dot(
    img: image::DynamicImage,
    r: u8,
    g: u8,
    b: u8,
    seed: (u32, u32),
    min_size: u16,
    max_size: u16,
    rotations: Seq<Rotation>,
)
    requires
        uniform(img, r, g, b),
        4 * max_size <= seed.0,
        seed.0 + 4 * max_size < image_width(img),
        4 * max_size <= seed.1,
        seed.1 + 4 * max_size < image_height(img),
    ensures
        locate(img, seed, min_size as int, max_size as int, rotations) is None
            <==> !rings_cross_untested(min_size as int, max_size as int),
{
    lemma_uniform_image_is_flat_inside(img, r, g, b, seed, rotations, max_size as int);
    lemma_flat_field_has_no_dot(
        img,
        seed,
        min_size,
        max_size,
        rotations,
        RGB::of_pixel((r, g, b, 0u8)),
    );
}

} // verus!
