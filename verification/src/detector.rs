//! The two locators behind one choice: the Hough path from edges to circles,
//! and the ring walker over a grid of seeds.

use vstd::prelude::*;
use crate::candidates::{candidates, extract_candidates, grids, Circle};
use crate::edges::{detect_edges, image_edges};
use crate::hough::{accumulator, hough_vote, Edge};
use crate::raster::{image_height, image_width, raster_height, raster_width};
use crate::ring::Rotation;
use crate::types::InvalidInput;
use crate::walker::{grid_dots, match_dots, seeds_along, DotDescription, MAX_SIZE};

verus! {

/// The accumulators that `edges` fill for each radius of a list.
pub open spec fn accumulators(edges: Seq<Edge>, width: nat, height: nat, radii: Seq<u32>) -> Seq<
    Seq<u8>,
> {
    Seq::new(radii.len(), |z: int| accumulator(edges, width, height, radii[z] as int))
}

/// The circles that the Hough path finds in a list of edges.
pub open spec fn circles_of(edges: Seq<Edge>, width: nat, height: nat, radii: Seq<u32>) -> Seq<
    Circle,
> {
    candidates(accumulators(edges, width, height, radii), radii, width, height, radii.len())
}

/// The radii that the detector tests by default: 4 to 14 pixels.
pub fn reference_radii() -> (radii: Vec<u32>)
    ensures
        radii.len() == 11,
        forall|z: int| 0 <= z < 11 ==> #[trigger] radii[z] == 4 + z,
{
    let mut radii: Vec<u32> = Vec::new();
    let mut r: u32 = 4;
    while r <= 14
        invariant
            4 <= r <= 15,
            radii.len() == r - 4,
            forall|z: int| 0 <= z < radii.len() ==> #[trigger] radii[z] == 4 + z,
        decreases 15 - r,
    {
        radii.push(r);
        r = r + 1;
    }
    radii
}

/// Votes for every radius of the list and extracts the circle candidates.
pub fn find_circles(edges: &[Edge], width: usize, height: usize, radii: &[u32]) -> (res: Result<
    Vec<Circle>,
    InvalidInput,
>)
    ensures
        res is Err <==> (width == 0 || height == 0 || width * height > usize::MAX),
        res matches Ok(circles) ==> circles@ == circles_of(
            edges@,
            width as nat,
            height as nat,
            radii@,
        ),
        res matches Ok(circles) ==> forall|i: int|
            0 <= i < circles.len() ==> (#[trigger] circles[i]).x < width && circles[i].y < height,
{
    if width == 0 || height == 0 || width.checked_mul(height).is_none() {
        return Err(InvalidInput);
    }
    let mut maps: Vec<Vec<u8>> = Vec::new();
    let mut z: usize = 0;
    while z < radii.len()
        invariant
            z <= radii.len(),
            width > 0,
            height > 0,
            width * height <= usize::MAX,
            maps.len() == z,
            forall|k: int|
                0 <= k < z ==> (#[trigger] maps[k])@ == accumulator(
                    edges@,
                    width as nat,
                    height as nat,
                    radii[k] as int,
                ),
        decreases radii.len() - z,
    {
        match hough_vote(edges, width, height, radii[z]) {
            Ok(acc) => {
                maps.push(acc);
            },
            Err(e) => {
                return Err(e);
            },
        }
        z = z + 1;
    }
    proof {
        assert(grids(maps@) =~= accumulators(edges@, width as nat, height as nat, radii@));
        assert forall|k: int| 0 <= k < maps.len() implies (#[trigger] maps@[k]).len() == width
            * height by {
            assert(maps[k]@.len() == accumulator(
                edges@,
                width as nat,
                height as nat,
                radii[k] as int,
            ).len());
        }
    }
    extract_candidates(&maps, radii, width, height)
}

/// A detected marker: its centre in fixed point and its radius in pixels.
#[derive(Clone, Copy, Debug, PartialEq, Eq, Structural)]
pub struct Detection {
    pub x: i64,
    pub y: i64,
    pub radius: u32,
}

/// The marker that a circle candidate stands for.
pub open spec fn detection_of_circle(c: Circle) -> Detection {
    Detection { x: (c.x * 16384) as i64, y: (c.y * 16384) as i64, radius: c.r }
}

/// The marker that a dot stands for.
pub open spec fn detection_of_dot(d: DotDescription) -> Detection {
    Detection { x: d.position.0, y: d.position.1, radius: d.size }
}

/// The way markers are looked for.
pub enum DotDetector {
    /// Edges vote for circle centres at each of the given radii.
    Hough { radii: Vec<u32> },
    /// Ring walks from a grid of seeds; `rotations[d]` turns by `d` radians.
    RingWalk { rotations: Vec<Rotation> },
}

impl DotDetector {
    /// The markers that this detector finds in `img`.
    pub open spec fn detections(self, img: image::DynamicImage) -> Seq<Detection> {
        match self {
            DotDetector::Hough { radii } => circles_of(
                image_edges(img, image_width(img)),
                image_width(img),
                image_height(img),
                radii@,
            ).map_values(|c: Circle| detection_of_circle(c)),
            DotDetector::RingWalk { rotations } => grid_dots(
                img,
                rotations@,
                seeds_along(image_width(img)),
            ).map_values(|d: DotDescription| detection_of_dot(d)),
        }
    }

    /// Whether this detector can work on `img`: the image has area and fits
    /// in memory, and a ring walker's table covers every distance up to
    /// `MAX_SIZE`.
    pub open spec fn accepts(self, img: image::DynamicImage) -> bool {
        &&& image_width(img) > 0
        &&& image_height(img) > 0
        &&& match self {
            DotDetector::Hough { radii } => image_width(img) * image_height(img) <= usize::MAX,
            DotDetector::RingWalk { rotations } => rotations@.len() > MAX_SIZE,
        }
    }

    /// Looks for markers in `img`.
    pub fn detect(&self, img: &image::DynamicImage) -> (res: Result<Vec<Detection>, InvalidInput>)
        ensures
            res is Ok <==> self.accepts(*img),
            res matches Ok(found) ==> found@ == self.detections(*img),
    {
        match self {
            DotDetector::Hough { radii } => {
                let edges: Vec<Edge> = match detect_edges(img) {
                    Ok(edges) => edges,
                    Err(e) => {
                        return Err(e);
                    },
                };
                let width: usize = raster_width(img) as usize;
                let height: usize = raster_height(img) as usize;
                let circles: Vec<Circle> = match find_circles(
                    edges.as_slice(),
                    width,
                    height,
                    radii.as_slice(),
                ) {
                    Ok(circles) => circles,
                    Err(e) => {
                        return Err(e);
                    },
                };
                let mut found: Vec<Detection> = Vec::new();
                let mut i: usize = 0;
                while i < circles.len()
                    invariant
                        i <= circles.len(),
                        forall|k: int| 0 <= k < circles.len() ==> (#[trigger] circles[k]).x < width && circles[k].y < height,
                        width <= u32::MAX,
                        height <= u32::MAX,
                        found.len() == i,
                        forall|k: int| 0 <= k < i ==> #[trigger] found[k] == detection_of_circle(circles[k]),
                    decreases circles.len() - i,
                {
                    let c: Circle = circles[i];
                    found.push(Detection { x: c.x as i64 * 16384, y: c.y as i64 * 16384, radius: c.r });
                    i = i + 1;
                }
                assert(found@ =~= circles@.map_values(|c: Circle| detection_of_circle(c)));
                Ok(found)
            },
            DotDetector::RingWalk { rotations } => {
                let dots: Vec<DotDescription> = match match_dots(img, rotations.as_slice()) {
                    Ok(dots) => dots,
                    Err(e) => {
                        return Err(e);
                    },
                };
                let mut found: Vec<Detection> = Vec::new();
                let mut i: usize = 0;
                while i < dots.len()
                    invariant
                        i <= dots.len(),
                        found.len() == i,
                        forall|k: int| 0 <= k < i ==> #[trigger] found[k] == detection_of_dot(dots[k]),
                    decreases dots.len() - i,
                {
                    let d: DotDescription = dots[i];
                    found.push(Detection { x: d.position.0, y: d.position.1, radius: d.size });
                    i = i + 1;
                }
                assert(found@ =~= dots@.map_values(|d: DotDescription| detection_of_dot(d)));
                Ok(found)
            },
        }
    }
}

} // verus!
