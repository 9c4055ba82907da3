//! Circular Hough voting: every edge point votes for the two cells that lie
//! one radius away along its direction, and for their neighbours.
//!
//! An accumulator is a flat grid of vote counts in row-major order; the cell
//! at column `x`, row `y` has index `x + y * width`.  A count stops at 255.

use vstd::prelude::*;
use crate::fixed::{trunc_div, lemma_trunc_div_between, div_toward_zero};
use crate::gradient::{lemma_cell_index, lemma_cell_in_grid};
use crate::types::InvalidInput;

verus! {

/// An edge point: a pixel position and the direction of the gradient there,
/// a unit vector in fixed point.
#[derive(Clone, Copy, Debug, PartialEq, Eq, Structural)]
pub struct Edge {
    pub x: u32,
    pub y: u32,
    pub dir_x: i16,
    pub dir_y: i16,
}

/// Whether `(x, y)` is a cell of a grid of the given size.
pub open spec fn in_grid(width: nat, height: nat, x: int, y: int) -> bool {
    0 <= x < width && 0 <= y < height
}

/// A vote count after one more vote.
pub open spec fn bump(v: u8) -> u8 {
    if v < 255 {
        (v + 1) as u8
    } else {
        255u8
    }
}

/// The count that a cell shows for `n` votes.
pub open spec fn capped(n: nat) -> u8 {
    if n >= 255 {
        255u8
    } else {
        n as u8
    }
}

/// The accumulator after a vote for `(x, y)`: that cell's count goes up by
/// one; a vote for a position outside the grid changes nothing.
pub open spec fn voted(acc: Seq<u8>, width: nat, height: nat, x: int, y: int) -> Seq<u8> {
    if in_grid(width, height, x, y) {
        acc.update(x + y * width, bump(acc[x + y * width]))
    } else {
        acc
    }
}

/// How far along one axis an edge with direction component `dir` projects a
/// centre at distance `radius`, in whole pixels cut toward zero.
pub open spec fn reach(dir: int, radius: int) -> int {
    trunc_div(dir * radius, 16384)
}

/// The centre that `edge` projects against its direction.
pub open spec fn near_center(edge: Edge, radius: int) -> (int, int) {
    (edge.x - reach(edge.dir_x as int, radius), edge.y - reach(edge.dir_y as int, radius))
}

/// The centre that `edge` projects along its direction.
pub open spec fn far_center(edge: Edge, radius: int) -> (int, int) {
    (edge.x + reach(edge.dir_x as int, radius), edge.y + reach(edge.dir_y as int, radius))
}

/// Votes that the three-by-three block around `center` casts on `(x, y)`:
/// `middle` on the centre itself, one on each of its eight neighbours.
pub open spec fn block_votes(center: (int, int), middle: nat, x: int, y: int) -> nat {
    let dx = x - center.0;
    let dy = y - center.1;
    if dx == 0 && dy == 0 {
        middle
    } else if -1 <= dx <= 1 && -1 <= dy <= 1 {
        1
    } else {
        0
    }
}

/// Votes that one edge casts on `(x, y)`: one from each cell of the block
/// around its near centre, and from the block around its far centre two on
/// the centre and one on each neighbour.
pub open spec fn edge_votes(edge: Edge, radius: int, x: int, y: int) -> nat {
    block_votes(near_center(edge, radius), 1, x, y) + block_votes(
        far_center(edge, radius),
        2,
        x,
        y,
    )
}

/// Votes that all `edges` cast on `(x, y)`.
pub open spec fn total_votes(edges: Seq<Edge>, radius: int, x: int, y: int) -> nat
    decreases edges.len(),
{
    if edges.len() == 0 {
        0
    } else {
        total_votes(edges.drop_last(), radius, x, y) + edge_votes(edges.last(), radius, x, y)
    }
}

/// The accumulator that `edges` fill for `radius`: each cell shows the votes
/// cast on it, up to 255.
pub open spec fn accumulator(edges: Seq<Edge>, width: nat, height: nat, radius: int) -> Seq<u8> {
    Seq::new(
        width * height,
        |i: int| capped(total_votes(edges, radius, i % (width as int), i / (width as int))),
    )
}

/// Casts one vote for `(x, y)`.
fn vote_at(width: usize, height: usize, ret: &mut Vec<u8>, x: i64, y: i64)
    requires
        old(ret).len() == width * height,
    ensures
        final(ret).len() == old(ret).len(),
        final(ret)@ == voted(old(ret)@, width as nat, height as nat, x as int, y as int),
{
    if x >= 0 && (x as u64) < (width as u64) && y >= 0 && (y as u64) < (height as u64) {
        proof {
            lemma_cell_in_grid(width as int, height as int, x as int, y as int);
            lemma_cell_index(width as int, x as int, y as int);
        }
        let index: usize = x as usize + y as usize * width;
        let count: u8 = ret[index];
        if count < 255 {
            ret[index] = count + 1;
        }
        assert(ret@ =~= voted(old(ret)@, width as nat, height as nat, x as int, y as int));
    }
}

/// Casts one vote for `(x, y)` into an accumulator of the given size.  A
/// vote for a position outside the grid is dropped; a full count stays at
/// 255.
pub fn write_vote(width: usize, height: usize, ret: &mut Vec<u8>, x: i32, y: i32)
    requires
        old(ret).len() == width * height,
    ensures
        final(ret)@ == voted(old(ret)@, width as nat, height as nat, x as int, y as int),
{
    vote_at(width, height, ret, x as i64, y as i64);
}

/// Votes that the first `done` cells of a block, taken column by column,
/// cast on `(x, y)`.
pub open spec fn block_progress(center: (int, int), middle: nat, done: int, x: int, y: int) -> nat {
    let dx = x - center.0;
    let dy = y - center.1;
    if -1 <= dx <= 1 && -1 <= dy <= 1 && (dx + 1) * 3 + (dy + 1) < done {
        block_votes(center, middle, x, y)
    } else {
        0
    }
}

/// Casts the votes of the block around `(cx, cy)`: one for each of the nine
/// cells, and a second one for the centre if `twice` is set.
fn cast_block(width: usize, height: usize, ret: &mut Vec<u8>, cx: i64, cy: i64, twice: bool)
    requires
        width > 0,
        old(ret).len() == width * height,
        -17179869184 <= cx <= 17179869184,
        -17179869184 <= cy <= 17179869184,
    ensures
        final(ret).len() == old(ret).len(),
        forall|j: int|
            0 <= j < old(ret).len() ==> #[trigger] final(ret)[j] == capped(
                old(ret)[j] as nat + block_votes(
                    (cx as int, cy as int),
                    if twice {
                        2
                    } else {
                        1
                    },
                    j % (width as int),
                    j / (width as int),
                ),
            ),
{
    let ghost middle: nat = if twice {
        2
    } else {
        1
    };
    let ghost center = (cx as int, cy as int);
    let ghost w = width as int;
    let mut t: i64 = 0;
    while t < 9
        invariant
            0 <= t <= 9,
            width > 0,
            w == width,
            ret.len() == old(ret).len(),
            ret.len() == width * height,
            -17179869184 <= cx <= 17179869184,
            -17179869184 <= cy <= 17179869184,
            center == (cx as int, cy as int),
            middle == if twice { 2nat } else { 1nat },
            forall|j: int|
                0 <= j < ret.len() ==> #[trigger] ret[j] == capped(
                    old(ret)[j] as nat + block_progress(center, middle, t as int, j % w, j / w),
                ),
        decreases 9 - t,
    {
        let dx: i64 = t / 3 - 1;
        let dy: i64 = t % 3 - 1;
        let tx: i64 = cx + dx;
        let ty: i64 = cy + dy;
        let ghost before = ret@;
        vote_at(width, height, ret, tx, ty);
        let ghost once = ret@;
        let again: bool = twice && dx == 0 && dy == 0;
        if again {
            vote_at(width, height, ret, tx, ty);
        }
        proof {
            assert forall|j: int| 0 <= j < ret.len() implies #[trigger] ret[j] == capped(
                old(ret)[j] as nat + block_progress(center, middle, t + 1, j % w, j / w),
            ) by {
                vstd::arithmetic::div_mod::lemma_fundamental_div_mod(j, w);
                vstd::arithmetic::div_mod::lemma_mod_bound(j, w);
                let x = j % w;
                let y = j / w;
                assert(w * y == y * w) by (nonlinear_arith);
                assert(before[j] == capped(
                    old(ret)@[j] as nat + block_progress(center, middle, t as int, x, y),
                ));
                if in_grid(width as nat, height as nat, tx as int, ty as int) {
                    lemma_cell_index(w, tx as int, ty as int);
                    lemma_cell_in_grid(w, height as int, tx as int, ty as int);
                }
                if x == tx && y == ty {
                    assert(0 <= y < height) by (nonlinear_arith)
                        requires
                            0 <= j < w * height,
                            j == w * y + x,
                            0 <= x < w,
                    ;
                    assert(j == tx + ty * w);
                } else {
                    assert(in_grid(width as nat, height as nat, tx as int, ty as int) ==> j != tx
                        + ty * w);
                }
            }
        }
        t = t + 1;
    }
    proof {
        assert forall|j: int| 0 <= j < old(ret).len() implies #[trigger] ret[j] == capped(
            old(ret)[j] as nat + block_votes(center, middle, j % w, j / w),
        ) by {
            let x = j % w;
            let y = j / w;
            assert(block_progress(center, middle, 9, x, y) == block_votes(center, middle, x, y));
        }
    }
}

/// Votes cast by the first `count` edges on `(x, y)`.
pub proof fn lemma_total_votes_step(edges: Seq<Edge>, count: int, radius: int, x: int, y: int)
    requires
        0 <= count < edges.len(),
    ensures
        total_votes(edges.take(count + 1), radius, x, y) == total_votes(
            edges.take(count),
            radius,
            x,
            y,
        ) + edge_votes(edges[count], radius, x, y),
{
    assert(edges.take(count + 1).drop_last() =~= edges.take(count));
}

/// Fills the accumulator for one radius: each edge votes for the block around
/// its near centre and, with double weight on the centre, for the block
/// around its far centre.  Votes that fall outside the grid are dropped.
pub fn hough_vote(edges: &[Edge], width: usize, height: usize, radius: u32) -> (res: Result<
    Vec<u8>,
    InvalidInput,
>)
    ensures
        res is Err <==> (width == 0 || height == 0 || width * height > usize::MAX),
        res matches Ok(acc) ==> {
            &&& acc.len() == width * height
            &&& acc@ == accumulator(edges@, width as nat, height as nat, radius as int)
            &&& forall|x: int, y: int|
                0 <= x < width && 0 <= y < height ==> acc[x + y * width] == capped(
                    #[trigger] total_votes(edges@, radius as int, x, y),
                )
        },
{
    if width == 0 || height == 0 {
        return Err(InvalidInput);
    }
    let area: usize = match width.checked_mul(height) {
        Some(area) => area,
        None => {
            return Err(InvalidInput);
        },
    };
    let mut ret: Vec<u8> = vec![0u8; area];
    let ghost w = width as int;
    let r: i64 = radius as i64;
    let mut i: usize = 0;
    while i < edges.len()
        invariant
            i <= edges.len(),
            width > 0,
            w == width,
            r == radius,
            area == width * height,
            ret.len() == area,
            forall|j: int|
                0 <= j < ret.len() ==> #[trigger] ret[j] == capped(
                    total_votes(edges@.take(i as int), radius as int, j % w, j / w),
                ),
        decreases edges.len() - i,
    {
        let e: Edge = edges[i];
        let dx: i64 = e.dir_x as i64;
        let dy: i64 = e.dir_y as i64;
        assert(-140737488355328 <= dx * r <= 140737488355328 && -140737488355328 <= dy * r
            <= 140737488355328) by (nonlinear_arith)
            requires
                -32768 <= dx <= 32768,
                -32768 <= dy <= 32768,
                0 <= r <= 4294967295,
        ;
        proof {
            lemma_trunc_div_between(dx * r, 16384, -8589934592, 8589934592);
            lemma_trunc_div_between(dy * r, 16384, -8589934592, 8589934592);
        }
        let ox: i64 = div_toward_zero(dx * r, 16384);
        let oy: i64 = div_toward_zero(dy * r, 16384);
        let ghost before = ret@;
        cast_block(width, height, &mut ret, e.x as i64 - ox, e.y as i64 - oy, false);
        let ghost between = ret@;
        cast_block(width, height, &mut ret, e.x as i64 + ox, e.y as i64 + oy, true);
        proof {
            assert forall|j: int| 0 <= j < ret.len() implies #[trigger] ret[j] == capped(
                total_votes(edges@.take(i + 1), radius as int, j % w, j / w),
            ) by {
                lemma_total_votes_step(edges@, i as int, radius as int, j % w, j / w);
                assert(between[j] == capped(
                    before[j] as nat + block_votes(near_center(e, radius as int), 1, j % w, j / w),
                ));
            }
        }
        i = i + 1;
    }
    proof {
        assert(edges@.take(edges.len() as int) =~= edges@);
        assert(ret@ =~= accumulator(edges@, width as nat, height as nat, radius as int));
        assert forall|x: int, y: int| 0 <= x < width && 0 <= y < height implies ret[x + y * width]
            == capped(#[trigger] total_votes(edges@, radius as int, x, y)) by {
            lemma_cell_index(w, x, y);
            lemma_cell_in_grid(w, height as int, x, y);
        }
    }
    Ok(ret)
}

/// A vote for a position outside the grid changes no cell, and a vote for a
/// cell changes no other cell.
pub proof fn lemma_vote_touches_one_cell(acc: Seq<u8>, width: nat, height: nat, x: int, y: int)
    requires
        acc.len() == width * height,
    ensures
        !in_grid(width, height, x, y) ==> voted(acc, width, height, x, y) == acc,
        forall|j: int|
            0 <= j < acc.len() && j != x + y * width ==> #[trigger] voted(
                acc,
                width,
                height,
                x,
                y,
            )[j] == acc[j],
{
    if in_grid(width, height, x, y) {
        lemma_cell_in_grid(width as int, height as int, x, y);
    }
}

/// A block casts votes on its own nine cells only.
pub proof fn lemma_block_votes_local(center: (int, int), middle: nat, x: int, y: int)
    ensures
        block_votes(center, middle, x, y) > 0 ==> center.0 - 1 <= x <= center.0 + 1 && center.1 - 1
            <= y <= center.1 + 1,
{
}

/// Whether no cell of the block around `center` lies in the grid.
pub open spec fn block_outside(center: (int, int), width: nat, height: nat) -> bool {
    center.0 < -1 || center.0 > width || center.1 < -1 || center.1 > height
}

/// An edge whose projected blocks both lie outside the grid casts no vote on
/// any cell, whatever the other edges do.
pub proof fn lemma_outside_edge_casts_no_vote(
    edges: Seq<Edge>,
    edge: Edge,
    radius: int,
    width: nat,
    height: nat,
    x: int,
    y: int,
)
    requires
        in_grid(width, height, x, y),
        block_outside(near_center(edge, radius), width, height),
        block_outside(far_center(edge, radius), width, height),
    ensures
        edge_votes(edge, radius, x, y) == 0,
        total_votes(edges.push(edge), radius, x, y) == total_votes(edges, radius, x, y),
{
    assert(edges.push(edge).drop_last() =~= edges);
}

/// The order of the edges does not matter: moving the last edge to the front
/// leaves every total as it was.
pub proof fn lemma_total_votes_front(edges: Seq<Edge>, edge: Edge, radius: int, x: int, y: int)
    ensures
        total_votes(seq![edge] + edges, radius, x, y) == total_votes(edges, radius, x, y)
            + edge_votes(edge, radius, x, y),
    decreases edges.len(),
{
    let all = seq![edge] + edges;
    assert(all.len() == edges.len() + 1);
    if edges.len() == 0 {
        assert(all.drop_last() =~= Seq::<Edge>::empty());
        assert(all.last() == edge);
        assert(total_votes(all.drop_last(), radius, x, y) == 0);
    } else {
        lemma_total_votes_front(edges.drop_last(), edge, radius, x, y);
        assert(all.drop_last() =~= seq![edge] + edges.drop_last());
        assert(all.last() == edges.last());
    }
}

} // verus!
