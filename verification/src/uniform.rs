//! The gradient of images of one colour.

use vstd::prelude::*;
use crate::edges::{
    channel,
    column_edges,
    energy_x,
    energy_y,
    image_edges,
    is_edge,
    slope,
    slope_x,
    slope_y,
    smooth,
};
use crate::gradient::{column_of, filtered, lemma_cell_in_grid, line_sum, row_of, tap};
use crate::raster::{image_height, image_pixels, image_width};

verus! {

/// Every pixel of the image has the colour `(r, g, b)`.
pub open spec fn uniform(img: image::DynamicImage, r: u8, g: u8, b: u8) -> bool {
    forall|i: int|
        0 <= i < image_width(img) * image_height(img) ==> {
            let p = #[trigger] image_pixels(img)[i];
            p.0 == r && p.1 == g && p.2 == b
        }
}

/// On a line of equal samples the difference kernel gives zero, but at the
/// first position, where the tap that falls off the line adds the sample
/// itself.
pub proof fn lemma_slope_of_constant_line(line: Seq<int>, pos: int, level: int)
    requires
        0 <= pos < line.len(),
        forall|p: int| 0 <= p < line.len() ==> #[trigger] line[p] == level,
    ensures
        filtered(line, pos, slope()) == if pos == 0 {
            2 * level
        } else {
            0
        },
{
    let k = slope();
    assert(k.len() == 3 && k[0] == -1 && k[1] == 0 && k[2] == 1);
    reveal_with_fuel(line_sum, 4);
    assert(tap(line, pos, k, 1) == 0);
    assert(tap(line, pos, k, 2) == level);
    assert(tap(line, pos, k, 0) == if pos == 0 {
        level
    } else {
        -level
    });
}

/// On a line of equal samples the smoothing kernel gives four times the
/// sample.
pub proof fn lemma_smooth_of_constant_line(line: Seq<int>, pos: int, level: int)
    requires
        0 <= pos < line.len(),
        forall|p: int| 0 <= p < line.len() ==> #[trigger] line[p] == level,
    ensures
        filtered(line, pos, smooth()) == 4 * level,
{
    let k = smooth();
    assert(k.len() == 3 && k[0] == 1 && k[1] == 2 && k[2] == 1);
    reveal_with_fuel(line_sum, 4);
    assert(tap(line, pos, k, 0) == level);
    assert(tap(line, pos, k, 1) == 2 * level);
    assert(tap(line, pos, k, 2) == level);
}

/// The derivatives of a channel of one level: zero everywhere but in the
/// first column, where the horizontal derivative is eight times the level,
/// and in the first row, where the vertical one is.
pub proof fn lemma_constant_channel_slopes(img: image::DynamicImage, c: int, level: int, x: int, y: int)
    requires
        0 <= x < image_width(img),
        0 <= y < image_height(img),
        forall|i: int| 0 <= i < channel(img, c).len() ==> #[trigger] channel(img, c)[i] == level,
    ensures
        slope_x(img, c, x, y) == if x == 0 {
            8 * level
        } else {
            0
        },
        slope_y(img, c, x, y) == if y == 0 {
            8 * level
        } else {
            0
        },
{
    let w = image_width(img);
    let h = image_height(img);
    let field = channel(img, c);
    let across = if x == 0 {
        2 * level
    } else {
        0
    };
    let column_x = column_of(field, w, h, slope(), x);
    assert forall|q: int| 0 <= q < column_x.len() implies #[trigger] column_x[q] == across by {
        let row = row_of(field, w, q);
        assert forall|p: int| 0 <= p < row.len() implies #[trigger] row[p] == level by {
            lemma_cell_in_grid(w as int, h as int, p, q);
        }
        lemma_slope_of_constant_line(row, x, level);
    }
    lemma_smooth_of_constant_line(column_x, y, across);
    let column_y = column_of(field, w, h, smooth(), x);
    assert forall|q: int| 0 <= q < column_y.len() implies #[trigger] column_y[q] == 4 * level by {
        let row = row_of(field, w, q);
        assert forall|p: int| 0 <= p < row.len() implies #[trigger] row[p] == level by {
            lemma_cell_in_grid(w as int, h as int, p, q);
        }
        lemma_smooth_of_constant_line(row, x, level);
    }
    lemma_slope_of_constant_line(column_y, y, 4 * level);
}

/// In an image of one colour the gradient vanishes at every pixel off the
/// first column and the first row, and no such pixel is an edge point.
pub proof fn lemma_uniform_image_gradient(img: image::DynamicImage, r: u8, g: u8, b: u8, x: int, y: int)
    requires
        uniform(img, r, g, b),
        0 <= x < image_width(img),
        0 <= y < image_height(img),
    ensures
        energy_x(img, x, y) == if x == 0 {
            64 * (r * r + g * g + b * b)
        } else {
            0
        },
        energy_y(img, x, y) == if y == 0 {
            64 * (r * r + g * g + b * b)
        } else {
            0
        },
        x > 0 && y > 0 ==> !is_edge(img, x, y),
{
    assert forall|i: int| 0 <= i < channel(img, 0).len() implies #[trigger] channel(img, 0)[i]
        == r by {
        assert(image_pixels(img)[i].0 == r);
    }
    assert forall|i: int| 0 <= i < channel(img, 1).len() implies #[trigger] channel(img, 1)[i]
        == g by {
        assert(image_pixels(img)[i].1 == g);
    }
    assert forall|i: int| 0 <= i < channel(img, 2).len() implies #[trigger] channel(img, 2)[i]
        == b by {
        assert(image_pixels(img)[i].2 == b);
    }
    lemma_constant_channel_slopes(img, 0, r as int, x, y);
    lemma_constant_channel_slopes(img, 1, g as int, x, y);
    lemma_constant_channel_slopes(img, 2, b as int, x, y);
    assert((8 * r) * (8 * r) + (8 * g) * (8 * g) + (8 * b) * (8 * b) == 64 * (r * r + g * g + b
        * b)) by (nonlinear_arith);
}

/// An image without an edge pixel has an empty edge list.
pub proof fn lemma_no_edge_pixels_no_edges(img: image::DynamicImage, columns: nat)
    requires
        columns <= image_width(img),
        forall|x: int, y: int|
            0 <= x < image_width(img) && 0 <= y < image_height(img) ==> !#[trigger] is_edge(
                img,
                x,
                y,
            ),
    ensures
        image_edges(img, columns) == Seq::<crate::hough::Edge>::empty(),
    decreases columns,
{
    if columns > 0 {
        lemma_no_edge_pixels_no_edges(img, (columns - 1) as nat);
        lemma_empty_column(img, columns - 1, image_height(img));
        assert(image_edges(img, columns) =~= Seq::<crate::hough::Edge>::empty());
    }
}

proof fn lemma_empty_column(img: image::DynamicImage, x: int, rows: nat)
    requires
        0 <= x < image_width(img),
        rows <= image_height(img),
        forall|x: int, y: int|
            0 <= x < image_width(img) && 0 <= y < image_height(img) ==> !#[trigger] is_edge(
                img,
                x,
                y,
            ),
    ensures
        column_edges(img, x, rows) == Seq::<crate::hough::Edge>::empty(),
    decreases rows,
{
    if rows > 0 {
        lemma_empty_column(img, x, (rows - 1) as nat);
        assert(!is_edge(img, x, rows - 1));
    }
}

/// A black image has no gradient anywhere and yields no edge point.
pub proof fn lemma_black_image_has_no_edges(img: image::DynamicImage)
    requires
        uniform(img, 0, 0, 0),
    ensures
        forall|x: int, y: int|
            0 <= x < image_width(img) && 0 <= y < image_height(img) ==> #[trigger] energy_x(
                img,
                x,
                y,
            ) == 0 && energy_y(img, x, y) == 0,
        image_edges(img, image_width(img)) == Seq::<crate::hough::Edge>::empty(),
{
    assert forall|x: int, y: int|
        0 <= x < image_width(img) && 0 <= y < image_height(img) implies #[trigger] energy_x(
        img,
        x,
        y,
    ) == 0 && energy_y(img, x, y) == 0 by {
        lemma_uniform_image_gradient(img, 0, 0, 0, x, y);
    }
    assert forall|x: int, y: int|
        0 <= x < image_width(img) && 0 <= y < image_height(img) implies !#[trigger] is_edge(
        img,
        x,
        y,
    ) by {
        assert(energy_x(img, x, y) == 0 && energy_y(img, x, y) == 0);
    }
    lemma_no_edge_pixels_no_edges(img, image_width(img));
}

} // verus!
