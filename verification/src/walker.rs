//! The ring walker: an adaptive locator that homes onto a dot from a seed
//! pixel by growing an inner ring and shrinking an outer one.

use vstd::prelude::*;
use crate::fixed::{trunc_div, lemma_trunc_div_between, div_toward_zero};
use crate::raster::{
    image_width,
    image_height,
    protected_pixel,
    pixel_or_white,
    raster_width,
    raster_height,
};
use crate::ring::{RingMatch, Rotation, ring_match, match_ring};
use crate::types::{InvalidInput, RGB};

verus! {

/// Where a walk stands.
#[derive(Clone, Copy, Debug, PartialEq, Eq, Structural)]
pub enum Phase {
    /// The next ring test is made at the inner distance.
    Growing,
    /// The next ring test is made at the outer distance.
    Shrinking,
    /// The walk ended on a dot; its size is the inner distance.
    Accepted,
    /// The walk ended without a dot.
    Rejected,
}

/// The state of one walk.
#[derive(Clone, Copy, Debug, PartialEq, Eq)]
pub struct WalkState {
    /// The seed pixel.
    pub start: (u32, u32),
    /// Current centre estimate, in fixed point.
    pub center: (i64, i64),
    /// Reference colour, blended as the walk goes on.
    pub reference: RGB,
    pub inner_distance: u32,
    pub outer_distance: u32,
    pub phase: Phase,
    /// Matching probes over all inner ring tests so far.
    pub successful_tests: u64,
    /// One plus the number of probes of all inner ring tests so far.
    pub total_tests: u64,
}

/// An accepted dot: its centre in fixed point and its radius in pixels.
#[derive(Clone, Copy, Debug, PartialEq, Eq)]
pub struct DotDescription {
    pub position: (i64, i64),
    pub size: u32,
}

/// One colour channel moved from `from` toward `to` by the fraction
/// `part / whole`, rounded toward `from`.
pub open spec fn blend_channel(from: int, to: int, part: int, whole: int) -> int {
    from + trunc_div((to - from) * part, whole)
}

impl WalkState {
    /// Whether another ring test is due.
    pub open spec fn searching(self) -> bool {
        self.phase == Phase::Growing || self.phase == Phase::Shrinking
    }

    /// The distance of the next ring test.
    pub open spec fn probe_distance(self) -> int {
        if self.phase == Phase::Growing {
            self.inner_distance as int
        } else {
            self.outer_distance as int
        }
    }

    /// Number of distance steps left before the two rings meet.
    pub open spec fn remaining(self) -> nat {
        if self.searching() && self.inner_distance < self.outer_distance {
            (self.outer_distance - self.inner_distance) as nat
        } else {
            0
        }
    }

    /// The bounds that the arithmetic of a walk relies on.
    pub open spec fn wf(self) -> bool {
        &&& self.reference.in_range()
        &&& self.searching() ==> {
            &&& 1 <= self.inner_distance < self.outer_distance <= 65535
            &&& self.total_tests == 4 * self.inner_distance - 3
            &&& self.successful_tests < self.total_tests
            &&& -2147483648 * (self.inner_distance - 1) <= self.center.0 - self.start.0 * 16384
                <= 2147483648 * (self.inner_distance - 1)
            &&& -2147483648 * (self.inner_distance - 1) <= self.center.1 - self.start.1 * 16384
                <= 2147483648 * (self.inner_distance - 1)
        }
    }

    /// Ends the walk once the rings have met: a dot if the inner distance has
    /// passed the outer one and is at least `min_size`, no dot otherwise.
    pub open spec fn settle(self, min_size: int) -> WalkState {
        if self.searching() && self.inner_distance >= self.outer_distance {
            if self.inner_distance > self.outer_distance && self.inner_distance >= min_size {
                WalkState { phase: Phase::Accepted, ..self }
            } else {
                WalkState { phase: Phase::Rejected, ..self }
            }
        } else {
            self
        }
    }

    /// The state in which a walk starts at `seed`.
    pub open spec fn initial(seed: (u32, u32), reference: RGB, min_size: int, max_size: int) -> WalkState {
        (WalkState {
            start: seed,
            center: ((seed.0 * 16384) as i64, (seed.1 * 16384) as i64),
            reference,
            inner_distance: 1,
            outer_distance: max_size as u32,
            phase: Phase::Growing,
            successful_tests: 0,
            total_tests: 1,
        }).settle(min_size)
    }

    /// The state after a ring test at `probe_distance()` gave `ring`.
    ///
    /// Growing: fewer than four matches end the walk, on a dot if the inner
    /// distance is at least `min_size`.  Otherwise the centre moves to the
    /// ring's centroid, the reference colour is blended toward the ring's
    /// average by the share of matching probes so far, the inner distance
    /// grows by two, and the walk turns to shrinking once the tested distance
    /// exceeded `min_size`.
    ///
    /// Shrinking: more than five matches on the outermost ring end the walk
    /// without a dot.  Otherwise the outer distance shrinks by two, and fewer
    /// than two matches turn the walk back to growing.
    pub open spec fn advance(self, ring: RingMatch, min_size: int, max_size: int) -> WalkState {
        if self.phase == Phase::Growing {
            let successful = self.successful_tests + ring.matches;
            let total = self.total_tests + 8;
            if ring.matches < 4 {
                WalkState {
                    phase: if self.inner_distance >= min_size {
                        Phase::Accepted
                    } else {
                        Phase::Rejected
                    },
                    successful_tests: successful as u64,
                    total_tests: total as u64,
                    ..self
                }
            } else {
                (WalkState {
                    start: self.start,
                    center: ring.center,
                    reference: RGB {
                        r: blend_channel(
                            self.reference.r as int,
                            ring.average.r as int,
                            successful,
                            total,
                        ) as i32,
                        g: blend_channel(
                            self.reference.g as int,
                            ring.average.g as int,
                            successful,
                            total,
                        ) as i32,
                        b: blend_channel(
                            self.reference.b as int,
                            ring.average.b as int,
                            successful,
                            total,
                        ) as i32,
                    },
                    inner_distance: (self.inner_distance + 2) as u32,
                    outer_distance: self.outer_distance,
                    phase: if self.inner_distance > min_size {
                        Phase::Shrinking
                    } else {
                        Phase::Growing
                    },
                    successful_tests: successful as u64,
                    total_tests: total as u64,
                }).settle(min_size)
            }
        } else if self.phase == Phase::Shrinking {
            if self.outer_distance == max_size && ring.matches > 5 {
                WalkState { phase: Phase::Rejected, ..self }
            } else {
                (WalkState {
                    outer_distance: (self.outer_distance - 2) as u32,
                    phase: if ring.matches < 2 {
                        Phase::Growing
                    } else {
                        Phase::Shrinking
                    },
                    ..self
                }).settle(min_size)
            }
        } else {
            self
        }
    }

    /// The dot that a finished walk reports, if any.
    pub open spec fn dot(self) -> Option<DotDescription> {
        if self.phase == Phase::Accepted {
            Some(DotDescription { position: self.center, size: self.inner_distance })
        } else {
            None
        }
    }
}

/// Blends one colour channel; see `blend_channel`.
pub fn blend(from: i32, to: i32, part: u64, whole: u64) -> (c: i32)
    requires
        0 <= from <= 4177920,
        0 <= to <= 4177920,
        part <= whole,
        0 < whole <= 1048576,
    ensures
        c == blend_channel(from as int, to as int, part as int, whole as int),
        0 <= c <= 4177920,
        from <= to ==> from <= c <= to,
        to <= from ==> to <= c <= from,
{
    let gap: i64 = to as i64 - from as i64;
    let p: i64 = part as i64;
    let w: i64 = whole as i64;
    assert(-4380866641920 <= gap * p <= 4380866641920) by (nonlinear_arith)
        requires
            -4177920 <= gap <= 4177920,
            0 <= p <= 1048576,
    ;
    proof {
        if gap >= 0 {
            assert(0 * w <= gap * p <= gap * w) by (nonlinear_arith)
                requires
                    0 <= gap,
                    0 <= p <= w,
            ;
            lemma_trunc_div_between(gap * p, w as int, 0, gap as int);
        } else {
            assert(gap * w <= gap * p <= 0 * w) by (nonlinear_arith)
                requires
                    gap < 0,
                    0 <= p <= w,
            ;
            lemma_trunc_div_between(gap * p, w as int, gap as int, 0);
        }
    }
    let moved: i64 = div_toward_zero(gap * p, w);
    (from as i64 + moved) as i32
}

impl WalkState {
    /// Ends the walk if the rings have met; see `settle`.
    pub fn settled(self, min_size: u16) -> (next: WalkState)
        ensures
            next == self.settle(min_size as int),
    {
        let searching: bool = match self.phase {
            Phase::Growing => true,
            Phase::Shrinking => true,
            _ => false,
        };
        if searching && self.inner_distance >= self.outer_distance {
            let accepted: bool = self.inner_distance > self.outer_distance && self.inner_distance
                >= min_size as u32;
            WalkState {
                start: self.start,
                center: self.center,
                reference: self.reference,
                inner_distance: self.inner_distance,
                outer_distance: self.outer_distance,
                phase: if accepted {
                    Phase::Accepted
                } else {
                    Phase::Rejected
                },
                successful_tests: self.successful_tests,
                total_tests: self.total_tests,
            }
        } else {
            self
        }
    }

    /// Starts a walk at `seed` with the colour found there.
    pub fn begin(seed: (u32, u32), reference: RGB, min_size: u16, max_size: u16) -> (state:
        WalkState)
        requires
            reference.in_range(),
        ensures
            state == WalkState::initial(seed, reference, min_size as int, max_size as int),
            state.wf(),
            state.start == seed,
            state.phase == Phase::Accepted ==> state.inner_distance >= min_size,
    {
        let state = WalkState {
            start: seed,
            center: (seed.0 as i64 * 16384, seed.1 as i64 * 16384),
            reference,
            inner_distance: 1,
            outer_distance: max_size as u32,
            phase: Phase::Growing,
            successful_tests: 0,
            total_tests: 1,
        };
        state.settled(min_size)
    }

    /// Whether another ring test is due.
    pub fn is_searching(&self) -> (b: bool)
        ensures
            b == self.searching(),
    {
        match self.phase {
            Phase::Growing => true,
            Phase::Shrinking => true,
            _ => false,
        }
    }

    /// Takes the walk one ring test further; see `advance`.
    pub fn step(self, ring: RingMatch, min_size: u16, max_size: u16) -> (next: WalkState)
        requires
            self.wf(),
            self.searching(),
            ring.matches <= 8,
            ring.average.in_range(),
            self.center.0 - 65536 * self.probe_distance() <= ring.center.0 <= self.center.0 + 65536
                * self.probe_distance(),
            self.center.1 - 65536 * self.probe_distance() <= ring.center.1 <= self.center.1 + 65536
                * self.probe_distance(),
        ensures
            next == self.advance(ring, min_size as int, max_size as int),
            next.wf(),
            next.start == self.start,
            next.remaining() < self.remaining(),
            next.phase == Phase::Accepted ==> next.inner_distance >= min_size,
    {
        match self.phase {
            Phase::Growing => {
                let successful: u64 = self.successful_tests + ring.matches as u64;
                let total: u64 = self.total_tests + 8;
                if ring.matches < 4 {
                    WalkState {
                        start: self.start,
                        center: self.center,
                        reference: self.reference,
                        inner_distance: self.inner_distance,
                        outer_distance: self.outer_distance,
                        phase: if self.inner_distance >= min_size as u32 {
                            Phase::Accepted
                        } else {
                            Phase::Rejected
                        },
                        successful_tests: successful,
                        total_tests: total,
                    }
                } else {
                    let reference = RGB {
                        r: blend(self.reference.r, ring.average.r, successful, total),
                        g: blend(self.reference.g, ring.average.g, successful, total),
                        b: blend(self.reference.b, ring.average.b, successful, total),
                    };
                    let moved = WalkState {
                        start: self.start,
                        center: ring.center,
                        reference,
                        inner_distance: self.inner_distance + 2,
                        outer_distance: self.outer_distance,
                        phase: if self.inner_distance > min_size as u32 {
                            Phase::Shrinking
                        } else {
                            Phase::Growing
                        },
                        successful_tests: successful,
                        total_tests: total,
                    };
                    moved.settled(min_size)
                }
            },
            Phase::Shrinking => {
                if self.outer_distance == max_size as u32 && ring.matches > 5 {
                    WalkState {
                        start: self.start,
                        center: self.center,
                        reference: self.reference,
                        inner_distance: self.inner_distance,
                        outer_distance: self.outer_distance,
                        phase: Phase::Rejected,
                        successful_tests: self.successful_tests,
                        total_tests: self.total_tests,
                    }
                } else {
                    let moved = WalkState {
                        start: self.start,
                        center: self.center,
                        reference: self.reference,
                        inner_distance: self.inner_distance,
                        outer_distance: self.outer_distance - 2,
                        phase: if ring.matches < 2 {
                            Phase::Growing
                        } else {
                            Phase::Shrinking
                        },
                        successful_tests: self.successful_tests,
                        total_tests: self.total_tests,
                    };
                    moved.settled(min_size)
                }
            },
            _ => self,
        }
    }
}

/// Smallest dot radius that `match_dots` accepts.
pub const MIN_SIZE: u16 = 4;

/// Largest ring distance that `match_dots` tests.
pub const MAX_SIZE: u16 = 25;

/// Spacing of the seed grid of `match_dots`, in pixels.
pub const GRID_GAP: u32 = 5;

impl WalkState {
    /// Whether the walk can take another step: a ring test is due and the
    /// distances are in their working range.
    pub open spec fn active(self) -> bool {
        self.searching() && 1 <= self.inner_distance < self.outer_distance <= 65535
    }
}

/// The state in which a walk from `state` ends, each ring test made on `img`
/// with the rotation that `rotations` holds for its distance.
pub open spec fn walk(
    img: image::DynamicImage,
    rotations: Seq<Rotation>,
    min_size: int,
    max_size: int,
    state: WalkState,
) -> WalkState
    decreases state.remaining(),
{
    if !state.active() {
        state
    } else {
        let d = state.probe_distance();
        let ring = ring_match(img, state.center, state.reference, rotations[d], d);
        walk(img, rotations, min_size, max_size, state.advance(ring, min_size, max_size))
    }
}

/// The dot, if any, that a walk seeded at `seed` ends on.
pub open spec fn locate(
    img: image::DynamicImage,
    seed: (u32, u32),
    min_size: int,
    max_size: int,
    rotations: Seq<Rotation>,
) -> Option<DotDescription> {
    let reference = RGB::of_pixel(protected_pixel(img, seed.0 as int, seed.1 as int));
    walk(
        img,
        rotations,
        min_size,
        max_size,
        WalkState::initial(seed, reference, min_size, max_size),
    ).dot()
}

/// Walks from `seed` and reports the dot it ends on, if any.
///
/// `rotations[d]` is the rotation by `d` radians; the table has to cover
/// every distance up to `max_size`.
pub fn locate_dot(
    img: &image::DynamicImage,
    seed: (u32, u32),
    min_size: u16,
    max_size: u16,
    rotations: &[Rotation],
) -> (res: Result<Option<DotDescription>, InvalidInput>)
    ensures
        res is Err <==> (image_width(*img) == 0 || image_height(*img) == 0 || rotations@.len()
            <= max_size),
        res matches Ok(found) ==> found == locate(
            *img,
            seed,
            min_size as int,
            max_size as int,
            rotations@,
        ),
        res matches Ok(Some(dot)) ==> dot.size >= min_size,
{
    if raster_width(img) == 0 || raster_height(img) == 0 || rotations.len() <= max_size as usize {
        return Err(InvalidInput);
    }
    let reference: RGB = RGB::from_pixel(pixel_or_white(img, seed.0 as i64, seed.1 as i64));
    let mut state: WalkState = WalkState::begin(seed, reference, min_size, max_size);
    let ghost first = state;
    while state.is_searching()
        invariant
            state.wf(),
            state.start == seed,
            state.searching() ==> state.outer_distance <= max_size,
            state.phase == Phase::Accepted ==> state.inner_distance >= min_size,
            rotations@.len() > max_size,
            walk(*img, rotations@, min_size as int, max_size as int, state) == walk(
                *img,
                rotations@,
                min_size as int,
                max_size as int,
                first,
            ),
        decreases state.remaining(),
    {
        let d: u32 = match state.phase {
            Phase::Growing => state.inner_distance,
            _ => state.outer_distance,
        };
        let ring: RingMatch = match_ring(
            img,
            state.center,
            state.reference,
            d as u16,
            rotations[d as usize],
        );
        let ghost before = state;
        state = state.step(ring, min_size, max_size);
        assert(before.active());
        assert(state.searching() ==> state.outer_distance <= before.outer_distance);
    }
    match state.phase {
        Phase::Accepted => Ok(
            Some(DotDescription { position: state.center, size: state.inner_distance }),
        ),
        _ => Ok(None),
    }
}

/// Number of grid seeds along a side of `n` pixels: the multiples of
/// `GRID_GAP` below `n`.
pub open spec fn seeds_along(n: nat) -> nat {
    ((n + 4) / 5) as nat
}

/// The dots found from the first `rows` seeds of the grid column at `x`, top
/// to bottom.
pub open spec fn column_dots(
    img: image::DynamicImage,
    rotations: Seq<Rotation>,
    x: int,
    rows: nat,
) -> Seq<DotDescription>
    decreases rows,
{
    if rows == 0 {
        Seq::empty()
    } else {
        let above = column_dots(img, rotations, x, (rows - 1) as nat);
        let seed = (x as u32, ((rows - 1) * 5) as u32);
        match locate(img, seed, 4, 25, rotations) {
            Some(dot) => above.push(dot),
            None => above,
        }
    }
}

/// The dots found from the first `columns` columns of the seed grid, left to
/// right, each column top to bottom.
pub open spec fn grid_dots(img: image::DynamicImage, rotations: Seq<Rotation>, columns: nat) -> Seq<
    DotDescription,
>
    decreases columns,
{
    if columns == 0 {
        Seq::empty()
    } else {
        grid_dots(img, rotations, (columns - 1) as nat) + column_dots(
            img,
            rotations,
            (columns - 1) * 5,
            seeds_along(image_height(img)),
        )
    }
}

/// Sweeps a grid of seeds, `GRID_GAP` pixels apart, over the whole image and
/// collects the dots that the walks end on, with `MIN_SIZE` and `MAX_SIZE`.
/// Every seed is walked on its own; the dots come in seed order, column by
/// column.
pub fn match_dots(img: &image::DynamicImage, rotations: &[Rotation]) -> (res: Result<
    Vec<DotDescription>,
    InvalidInput,
>)
    ensures
        res is Err <==> (image_width(*img) == 0 || image_height(*img) == 0 || rotations@.len()
            <= MAX_SIZE),
        res matches Ok(dots) ==> dots@ == grid_dots(
            *img,
            rotations@,
            seeds_along(image_width(*img)),
        ),
        res matches Ok(dots) ==> forall|i: int| 0 <= i < dots.len() ==> #[trigger] dots[i].size
            >= MIN_SIZE,
{
    let width: u32 = raster_width(img);
    let height: u32 = raster_height(img);
    if width == 0 || height == 0 || rotations.len() <= MAX_SIZE as usize {
        return Err(InvalidInput);
    }
    let mut dots: Vec<DotDescription> = Vec::new();
    let mut column: u64 = 0;
    while column * 5 < width as u64
        invariant
            width == image_width(*img),
            height == image_height(*img),
            width > 0,
            height > 0,
            rotations@.len() > MAX_SIZE,
            column <= seeds_along(width as nat),
            dots@ == grid_dots(*img, rotations@, column as nat),
            forall|i: int| 0 <= i < dots.len() ==> #[trigger] dots[i].size >= MIN_SIZE,
        decreases seeds_along(width as nat) - column,
    {
        let x: u32 = (column * 5) as u32;
        let ghost before = dots@;
        let mut row: u64 = 0;
        while row * 5 < height as u64
            invariant
                width == image_width(*img),
                height == image_height(*img),
                width > 0,
                height > 0,
                rotations@.len() > MAX_SIZE,
                x == column * 5,
                x < width,
                row <= seeds_along(height as nat),
                dots@ == before + column_dots(*img, rotations@, x as int, row as nat),
                forall|i: int| 0 <= i < dots.len() ==> #[trigger] dots[i].size >= MIN_SIZE,
            decreases seeds_along(height as nat) - row,
        {
            let y: u32 = (row * 5) as u32;
            let found = locate_dot(img, (x, y), MIN_SIZE, MAX_SIZE, rotations);
            match found {
                Ok(Some(dot)) => {
                    dots.push(dot);
                    assert(dots@ == before + column_dots(
                        *img,
                        rotations@,
                        x as int,
                        (row + 1) as nat,
                    ));
                },
                _ => {},
            }
            row = row + 1;
        }
        assert(row == seeds_along(height as nat));
        column = column + 1;
    }
    assert(column == seeds_along(width as nat));
    Ok(dots)
}

} // verus!
