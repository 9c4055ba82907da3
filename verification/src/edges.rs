//! Edge points of an image: the pixels where the colour gradient is strong,
//! each with the direction of the gradient.

use vstd::prelude::*;
use crate::fixed::{isqrt, sqrt_floor};
use crate::gradient::{
    bounded,
    convolute,
    gradient_at,
    ints,
    lemma_cell_in_grid,
    lemma_gradient_bound,
};
use crate::hough::Edge;
use crate::raster::{
    image_height,
    image_pixels,
    image_width,
    raster_height,
    raster_pixel,
    raster_width,
};
use crate::types::InvalidInput;

verus! {

/// The smoothing kernel.
pub open spec fn smooth() -> Seq<int> {
    seq![1int, 2int, 1int]
}

/// The difference kernel.
pub open spec fn slope() -> Seq<int> {
    seq![-1int, 0int, 1int]
}

/// One channel of a pixel: red for 0, green for 1, blue otherwise.
pub open spec fn component(p: (u8, u8, u8, u8), c: int) -> int {
    if c == 0 {
        p.0 as int
    } else if c == 1 {
        p.1 as int
    } else {
        p.2 as int
    }
}

/// One colour channel of an image as a field of levels `0..=255`.
pub open spec fn channel(img: image::DynamicImage, c: int) -> Seq<int> {
    Seq::new(image_width(img) * image_height(img), |i: int| component(image_pixels(img)[i], c))
}

/// Horizontal derivative of channel `c` at `(x, y)`: the difference kernel
/// along the row, the smoothing kernel along the column.
pub open spec fn slope_x(img: image::DynamicImage, c: int, x: int, y: int) -> int {
    gradient_at(channel(img, c), image_width(img), image_height(img), slope(), smooth(), x, y)
}

/// Vertical derivative of channel `c` at `(x, y)`: the smoothing kernel along
/// the row, the difference kernel along the column.
pub open spec fn slope_y(img: image::DynamicImage, c: int, x: int, y: int) -> int {
    gradient_at(channel(img, c), image_width(img), image_height(img), smooth(), slope(), x, y)
}

/// Square of the horizontal gradient at `(x, y)`: the squared derivatives of
/// the three channels, summed.
pub open spec fn energy_x(img: image::DynamicImage, x: int, y: int) -> int {
    slope_x(img, 0, x, y) * slope_x(img, 0, x, y) + slope_x(img, 1, x, y) * slope_x(img, 1, x, y)
        + slope_x(img, 2, x, y) * slope_x(img, 2, x, y)
}

/// Square of the vertical gradient at `(x, y)`.
pub open spec fn energy_y(img: image::DynamicImage, x: int, y: int) -> int {
    slope_y(img, 0, x, y) * slope_y(img, 0, x, y) + slope_y(img, 1, x, y) * slope_y(img, 1, x, y)
        + slope_y(img, 2, x, y) * slope_y(img, 2, x, y)
}

/// Whether the gradient magnitude at `(x, y)` exceeds a quarter of the full
/// level range: with levels `0..=255`, `sqrt(ex + ey) / 255 > 1 / 4`.
pub open spec fn is_edge(img: image::DynamicImage, x: int, y: int) -> bool {
    16 * (energy_x(img, x, y) + energy_y(img, x, y)) > 65025
}

/// The fixed-point value of `sqrt(part / whole)`, rounded down.
pub open spec fn share(part: int, whole: int) -> int {
    sqrt_floor(16384 * 16384 * part / whole)
}

/// The edge point at `(x, y)`: its direction is the gradient scaled to unit
/// length, `(sqrt(ex), sqrt(ey)) / sqrt(ex + ey)`.
pub open spec fn edge_at(img: image::DynamicImage, x: int, y: int) -> Edge {
    let ex = energy_x(img, x, y);
    let ey = energy_y(img, x, y);
    Edge { x: x as u32, y: y as u32, dir_x: share(ex, ex + ey) as i16, dir_y: share(ey, ex + ey) as i16 }
}

/// The edge points among the first `rows` pixels of column `x`, top to
/// bottom.
pub open spec fn column_edges(img: image::DynamicImage, x: int, rows: nat) -> Seq<Edge>
    decreases rows,
{
    if rows == 0 {
        Seq::empty()
    } else {
        let above = column_edges(img, x, (rows - 1) as nat);
        if is_edge(img, x, rows - 1) {
            above.push(edge_at(img, x, rows - 1))
        } else {
            above
        }
    }
}

/// The edge points in the first `columns` columns of the image, left to
/// right.
pub open spec fn image_edges(img: image::DynamicImage, columns: nat) -> Seq<Edge>
    decreases columns,
{
    if columns == 0 {
        Seq::empty()
    } else {
        image_edges(img, (columns - 1) as nat) + column_edges(
            img,
            columns - 1,
            image_height(img),
        )
    }
}

/// Reads one colour channel of the image into a field.
pub fn read_channel(img: &image::DynamicImage, c: u8) -> (res: Result<Vec<i64>, InvalidInput>)
    ensures
        res is Err <==> (image_width(*img) == 0 || image_height(*img) == 0 || image_width(*img)
            * image_height(*img) > usize::MAX),
        res matches Ok(field) ==> ints(field@) == channel(*img, c as int) && bounded(field@, 255),
{
    let width: u32 = raster_width(img);
    let height: u32 = raster_height(img);
    if width == 0 || height == 0 {
        return Err(InvalidInput);
    }
    let area: usize = match (width as usize).checked_mul(height as usize) {
        Some(area) => area,
        None => {
            return Err(InvalidInput);
        },
    };
    let mut field: Vec<i64> = Vec::with_capacity(area);
    let mut y: u32 = 0;
    while y < height
        invariant
            y <= height,
            width == image_width(*img),
            height == image_height(*img),
            width > 0,
            area == width * height,
            field.len() == y * width,
            bounded(field@, 255),
            forall|i: int|
                0 <= i < field.len() ==> #[trigger] field[i] == component(
                    image_pixels(*img)[i],
                    c as int,
                ),
        decreases height - y,
    {
        let mut x: u32 = 0;
        while x < width
            invariant
                x <= width,
                y < height,
                width == image_width(*img),
                height == image_height(*img),
                width > 0,
                area == width * height,
                field.len() == y * width + x,
                bounded(field@, 255),
                forall|i: int|
                    0 <= i < field.len() ==> #[trigger] field[i] == component(
                        image_pixels(*img)[i],
                        c as int,
                    ),
            decreases width - x,
        {
            let p: (u8, u8, u8, u8) = raster_pixel(img, x, y);
            let level: u8 = if c == 0 {
                p.0
            } else if c == 1 {
                p.1
            } else {
                p.2
            };
            proof {
                lemma_cell_in_grid(width as int, height as int, x as int, y as int);
            }
            field.push(level as i64);
            x = x + 1;
        }
        y = y + 1;
        assert(field.len() == y * width) by (nonlinear_arith)
            requires
                field.len() == (y - 1) * width + width,
        ;
    }
    assert(field.len() == area) by (nonlinear_arith)
        requires
            field.len() == y * width,
            y == height,
            area == width * height,
    ;
    assert(ints(field@) =~= channel(*img, c as int));
    Ok(field)
}

/// Sum of the squares of three derivatives.
fn energy(r: i64, g: i64, b: i64) -> (e: u64)
    requires
        -4590 <= r <= 4590,
        -4590 <= g <= 4590,
        -4590 <= b <= 4590,
    ensures
        e == r * r + g * g + b * b,
        e <= 63204300,
{
    assert(0 <= r * r <= 21068100 && 0 <= g * g <= 21068100 && 0 <= b * b <= 21068100)
        by (nonlinear_arith)
        requires
            -4590 <= r <= 4590,
            -4590 <= g <= 4590,
            -4590 <= b <= 4590,
    ;
    (r * r + g * g + b * b) as u64
}

/// The fixed-point value of `sqrt(part / whole)`, rounded down.
fn direction(part: u64, whole: u64) -> (d: i16)
    requires
        part <= whole,
        0 < whole <= 126408600,
    ensures
        d == share(part as int, whole as int),
        0 <= d <= 16384,
{
    assert(16384 * 16384 * part <= 33932979417907200) by (nonlinear_arith)
        requires
            part <= 126408600,
    ;
    let scaled: u64 = 16384 * 16384 * part / whole;
    proof {
        assert(16384 * 16384 * part <= 268435456 * whole) by (nonlinear_arith)
            requires
                part <= whole,
        ;
        vstd::arithmetic::div_mod::lemma_div_is_ordered(
            16384 * 16384 * part,
            268435456 * whole,
            whole as int,
        );
        vstd::arithmetic::div_mod::lemma_div_multiples_vanish(268435456, whole as int);
        assert(268435456 * whole == whole * 268435456) by (nonlinear_arith);
    }
    let root: u64 = isqrt(scaled);
    assert(root <= 16384) by (nonlinear_arith)
        requires
            root * root <= scaled,
            scaled <= 268435456,
    ;
    root as i16
}

/// Finds the edge points of an image.
///
/// Each colour channel, as levels `0..=255`, is convolved to a horizontal and
/// a vertical derivative.  A pixel is an edge point where the combined
/// gradient magnitude exceeds a quarter of the level range; its direction is
/// the gradient at unit length.  The points come column by column, each
/// column top to bottom.
pub fn detect_edges(img: &image::DynamicImage) -> (res: Result<Vec<Edge>, InvalidInput>)
    ensures
        res is Err <==> (image_width(*img) == 0 || image_height(*img) == 0 || image_width(*img)
            * image_height(*img) > usize::MAX),
        res matches Ok(edges) ==> edges@ == image_edges(*img, image_width(*img)),
{
    let red: Vec<i64> = match read_channel(img, 0) {
        Ok(field) => field,
        Err(e) => {
            return Err(e);
        },
    };
    let green: Vec<i64> = match read_channel(img, 1) {
        Ok(field) => field,
        Err(e) => {
            return Err(e);
        },
    };
    let blue: Vec<i64> = match read_channel(img, 2) {
        Ok(field) => field,
        Err(e) => {
            return Err(e);
        },
    };
    let width: usize = raster_width(img) as usize;
    let height: usize = raster_height(img) as usize;
    let smooth_kernel: Vec<i64> = vec![1i64, 2i64, 1i64];
    let slope_kernel: Vec<i64> = vec![-1i64, 0i64, 1i64];
    assert(ints(smooth_kernel@) =~= smooth());
    assert(ints(slope_kernel@) =~= slope());
    assert(red.len() == width * height) by {
        assert(ints(red@).len() == channel(*img, 0).len());
    }
    assert(green.len() == width * height) by {
        assert(ints(green@).len() == channel(*img, 1).len());
    }
    assert(blue.len() == width * height) by {
        assert(ints(blue@).len() == channel(*img, 2).len());
    }
    let rdx: Vec<i64> = convolute(red.as_slice(), width, height, slope_kernel.as_slice(), smooth_kernel.as_slice());
    let gdx: Vec<i64> = convolute(green.as_slice(), width, height, slope_kernel.as_slice(), smooth_kernel.as_slice());
    let bdx: Vec<i64> = convolute(blue.as_slice(), width, height, slope_kernel.as_slice(), smooth_kernel.as_slice());
    let rdy: Vec<i64> = convolute(red.as_slice(), width, height, smooth_kernel.as_slice(), slope_kernel.as_slice());
    let gdy: Vec<i64> = convolute(green.as_slice(), width, height, smooth_kernel.as_slice(), slope_kernel.as_slice());
    let bdy: Vec<i64> = convolute(blue.as_slice(), width, height, smooth_kernel.as_slice(), slope_kernel.as_slice());
    let ghost w = width as nat;
    let ghost h = height as nat;
    proof {
        assert forall|x: int, y: int| 0 <= x < width && 0 <= y < height implies {
            &&& rdx[x + y * width] == #[trigger] slope_x(*img, 0, x, y)
            &&& gdx[x + y * width] == slope_x(*img, 1, x, y)
            &&& bdx[x + y * width] == slope_x(*img, 2, x, y)
            &&& rdy[x + y * width] == slope_y(*img, 0, x, y)
            &&& gdy[x + y * width] == slope_y(*img, 1, x, y)
            &&& bdy[x + y * width] == slope_y(*img, 2, x, y)
        } by {
            assert(rdx[x + y * width] == gradient_at(ints(red@), w, h, slope(), smooth(), x, y));
            assert(gdx[x + y * width] == gradient_at(ints(green@), w, h, slope(), smooth(), x, y));
            assert(bdx[x + y * width] == gradient_at(ints(blue@), w, h, slope(), smooth(), x, y));
            assert(rdy[x + y * width] == gradient_at(ints(red@), w, h, smooth(), slope(), x, y));
            assert(gdy[x + y * width] == gradient_at(ints(green@), w, h, smooth(), slope(), x, y));
            assert(bdy[x + y * width] == gradient_at(ints(blue@), w, h, smooth(), slope(), x, y));
        }
    }
    let mut edges: Vec<Edge> = Vec::new();
    let mut x: usize = 0;
    while x < width
        invariant
            x <= width,
            width == image_width(*img),
            height == image_height(*img),
            width * height <= usize::MAX,
            rdx.len() == width * height,
            gdx.len() == width * height,
            bdx.len() == width * height,
            rdy.len() == width * height,
            gdy.len() == width * height,
            bdy.len() == width * height,
            forall|x: int, y: int|
                0 <= x < width && 0 <= y < height ==> {
                    &&& rdx[x + y * width] == #[trigger] slope_x(*img, 0, x, y)
                    &&& gdx[x + y * width] == slope_x(*img, 1, x, y)
                    &&& bdx[x + y * width] == slope_x(*img, 2, x, y)
                    &&& rdy[x + y * width] == slope_y(*img, 0, x, y)
                    &&& gdy[x + y * width] == slope_y(*img, 1, x, y)
                    &&& bdy[x + y * width] == slope_y(*img, 2, x, y)
                },
            edges@ == image_edges(*img, x as nat),
        decreases width - x,
    {
        let ghost before = edges@;
        let mut y: usize = 0;
        while y < height
            invariant
                x < width,
                y <= height,
                width == image_width(*img),
                height == image_height(*img),
                width * height <= usize::MAX,
                rdx.len() == width * height,
                gdx.len() == width * height,
                bdx.len() == width * height,
                rdy.len() == width * height,
                gdy.len() == width * height,
                bdy.len() == width * height,
                forall|x: int, y: int|
                    0 <= x < width && 0 <= y < height ==> {
                        &&& rdx[x + y * width] == #[trigger] slope_x(*img, 0, x, y)
                        &&& gdx[x + y * width] == slope_x(*img, 1, x, y)
                        &&& bdx[x + y * width] == slope_x(*img, 2, x, y)
                        &&& rdy[x + y * width] == slope_y(*img, 0, x, y)
                        &&& gdy[x + y * width] == slope_y(*img, 1, x, y)
                        &&& bdy[x + y * width] == slope_y(*img, 2, x, y)
                    },
                edges@ == before + column_edges(*img, x as int, y as nat),
            decreases height - y,
        {
            proof {
                lemma_cell_in_grid(width as int, height as int, x as int, y as int);
                lemma_slope_bounds(*img, x as int, y as int);
                assert(rdx[x + y * width] == slope_x(*img, 0, x as int, y as int));
            }
            let i: usize = x + y * width;
            let ex: u64 = energy(rdx[i], gdx[i], bdx[i]);
            let ey: u64 = energy(rdy[i], gdy[i], bdy[i]);
            assert(ex == energy_x(*img, x as int, y as int));
            assert(ey == energy_y(*img, x as int, y as int));
            let total: u64 = ex + ey;
            if 16 * total > 65025 {
                let edge = Edge {
                    x: x as u32,
                    y: y as u32,
                    dir_x: direction(ex, total),
                    dir_y: direction(ey, total),
                };
                assert(edge == edge_at(*img, x as int, y as int));
                edges.push(edge);
                assert(edges@ == before + column_edges(*img, x as int, (y + 1) as nat));
            }
            y = y + 1;
        }
        x = x + 1;
        assert(edges@ == image_edges(*img, x as nat));
    }
    Ok(edges)
}

/// With levels `0..=255` no derivative exceeds 4590 in magnitude.
pub proof fn lemma_slope_bounds(img: image::DynamicImage, x: int, y: int)
    requires
        0 <= x < image_width(img),
        0 <= y < image_height(img),
    ensures
        forall|c: int| -4590 <= #[trigger] slope_x(img, c, x, y) <= 4590,
        forall|c: int| -4590 <= #[trigger] slope_y(img, c, x, y) <= 4590,
{
    let w = image_width(img);
    let h = image_height(img);
    assert forall|c: int| -4590 <= #[trigger] slope_x(img, c, x, y) <= 4590 by {
        lemma_gradient_bound(channel(img, c), w, h, slope(), smooth(), x, y, 255, 1, 2);
        assert(smooth().len() * ((slope().len() * (255 * 1)) * 2) == 4590) by {
            assert(smooth().len() == 3 && slope().len() == 3);
        }
    }
    assert forall|c: int| -4590 <= #[trigger] slope_y(img, c, x, y) <= 4590 by {
        lemma_gradient_bound(channel(img, c), w, h, smooth(), slope(), x, y, 255, 2, 1);
        assert(slope().len() * ((smooth().len() * (255 * 2)) * 1) == 4590) by {
            assert(smooth().len() == 3 && slope().len() == 3);
        }
    }
}

/// Whether the luma `a` exceeds the luma `b` by three or four levels: half of
/// `a - b + 255`, rounded down, is 129.
pub open spec fn luma_step(a: u8, b: u8) -> bool {
    (a - b + 255) / 2 == 129
}

/// Compares two images of luma and alpha bytes, pixel by pixel, and marks
/// the pixels where the first is brighter than the second by three or four
/// levels.  Each pixel takes two bytes, luma first; the shorter image sets
/// the number of pixels compared.
pub fn laplacian(image1: &[u8], image2: &[u8]) -> (ret: Vec<bool>)
    requires
        image1.len() % 2 == 0,
        image2.len() % 2 == 0,
    ensures
        ret.len() == if image1.len() <= image2.len() {
            image1.len() / 2
        } else {
            image2.len() / 2
        },
        forall|i: int| 0 <= i < ret.len() ==> #[trigger] ret[i] == luma_step(image1[2 * i], image2[2 * i]),
{
    let pixels: usize = if image1.len() <= image2.len() {
        image1.len() / 2
    } else {
        image2.len() / 2
    };
    let mut ret: Vec<bool> = Vec::with_capacity(pixels);
    let mut i: usize = 0;
    while i < pixels
        invariant
            i <= pixels,
            2 * pixels <= image1.len(),
            2 * pixels <= image2.len(),
            ret.len() == i,
            forall|j: int| 0 <= j < i ==> #[trigger] ret[j] == luma_step(image1[2 * j], image2[2 * j]),
        decreases pixels - i,
    {
        let luma: i32 = image1[2 * i] as i32 - image2[2 * i] as i32;
        let luma: i32 = (luma + 255) / 2;
        ret.push(luma == 129);
        i = i + 1;
    }
    ret
}

} // verus!
