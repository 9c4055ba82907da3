//! Extraction of circle candidates from the accumulators of a list of radii:
//! a cell is accepted where its count is high, no neighbour in position or
//! scale outranks it, and its neighbourhood is quiet on average.

use vstd::prelude::*;
use crate::gradient::lemma_cell_in_grid;
use crate::types::InvalidInput;

verus! {

/// A detected circle: centre cell, radius and the vote count of the cell.
#[derive(Clone, Copy, Debug, PartialEq, Eq, Structural)]
pub struct Circle {
    pub x: usize,
    pub y: usize,
    pub r: u32,
    pub votes: u8,
}

/// How far the neighbourhood of a cell extends along the list of radii.
pub const SCALE_REACH: usize = 5;

/// The accumulators of a list of radii, one grid per radius.
pub open spec fn grids(maps: Seq<Vec<u8>>) -> Seq<Seq<u8>> {
    Seq::new(maps.len(), |z: int| maps[z]@)
}

/// The fraction `num / den` rounded to the nearest integer, halves upward.
pub open spec fn rounded(num: int, den: int) -> int {
    (2 * num + den) / (2 * den)
}

/// The count that a cell has to exceed at radius `r`: thirty plus 1.6 times
/// the radius, rounded.
pub open spec fn vote_threshold(r: int) -> int {
    30 + rounded(8 * r, 5)
}

/// The largest mean count of the neighbourhood at which a cell of radius `r`
/// is still accepted: thirteen less 0.2 times the radius, rounded.  It is
/// negative from radius 68 on, where no cell can be accepted.
pub open spec fn accumulator_threshold(r: int) -> int {
    13 - rounded(r, 5)
}

/// The count of cell `(x, y)` in the grid of radius index `z`.
pub open spec fn votes_at(maps: Seq<Seq<u8>>, width: nat, z: int, x: int, y: int) -> u8 {
    maps[z][x + y * width]
}

/// First index of the window of reach `r` around `c`.
pub open spec fn window_lo(c: int, r: int) -> int {
    if c - r < 0 {
        0
    } else {
        c - r
    }
}

/// One past the last index of the window of reach `r` around `c` on an axis
/// of length `n`.
pub open spec fn window_end(c: int, r: int, n: int) -> int {
    if c + r + 1 > n {
        n
    } else {
        c + r + 1
    }
}

/// Whether a neighbour with count `other`, displaced by `(dx, dy, dz)` in
/// column, row and radius index, outranks a cell with count `own`: a higher
/// count always does, an equal count does where the neighbour comes later in
/// column, then row, then radius order.
pub open spec fn outranks(other: u8, own: u8, dx: int, dy: int, dz: int) -> bool {
    other > own || (other == own && (dx > 0 || (dx == 0 && dy > 0) || (dx == 0 && dy == 0 && dz
        > 0)))
}

/// A cell and the window that makes up its neighbourhood.
pub struct Site {
    pub z: int,
    pub x: int,
    pub y: int,
    pub z_lo: int,
    pub z_end: int,
    pub x_lo: int,
    pub x_end: int,
    pub y_lo: int,
    pub y_end: int,
}

/// The cell `(z, x, y)` with its neighbourhood: `r` cells each way in column
/// and row, `SCALE_REACH` each way in radius index, cut to the grid and to
/// the list of radii.
pub open spec fn site(count: nat, width: nat, height: nat, r: int, z: int, x: int, y: int) -> Site {
    Site {
        z,
        x,
        y,
        z_lo: window_lo(z, 5),
        z_end: window_end(z, 5, count as int),
        x_lo: window_lo(x, r),
        x_end: window_end(x, r, width as int),
        y_lo: window_lo(y, r),
        y_end: window_end(y, r, height as int),
    }
}

/// What the cell `(nz, nx, ny)` adds to the neighbourhood sum of `s`: its
/// count, or nothing if it is the centre.
pub open spec fn neighbour_term(maps: Seq<Seq<u8>>, width: nat, s: Site, nz: int, nx: int, ny: int) -> nat {
    if nz == s.z && nx == s.x && ny == s.y {
        0
    } else {
        votes_at(maps, width, nz, nx, ny) as nat
    }
}

/// Sum over the rows `s.y_lo .. upto` of column `nx` in grid `nz`.
pub open spec fn column_sum(maps: Seq<Seq<u8>>, width: nat, s: Site, nz: int, nx: int, upto: int) -> nat
    decreases upto - s.y_lo,
{
    if upto <= s.y_lo {
        0
    } else {
        column_sum(maps, width, s, nz, nx, upto - 1) + neighbour_term(
            maps,
            width,
            s,
            nz,
            nx,
            upto - 1,
        )
    }
}

/// Sum over the columns `s.x_lo .. upto` of the window in grid `nz`.
pub open spec fn plane_sum(maps: Seq<Seq<u8>>, width: nat, s: Site, nz: int, upto: int) -> nat
    decreases upto - s.x_lo,
{
    if upto <= s.x_lo {
        0
    } else {
        plane_sum(maps, width, s, nz, upto - 1) + column_sum(maps, width, s, nz, upto - 1, s.y_end)
    }
}

/// Sum over the grids `s.z_lo .. upto` of the window.
pub open spec fn window_sum(maps: Seq<Seq<u8>>, width: nat, s: Site, upto: int) -> nat
    decreases upto - s.z_lo,
{
    if upto <= s.z_lo {
        0
    } else {
        window_sum(maps, width, s, upto - 1) + plane_sum(maps, width, s, upto - 1, s.x_end)
    }
}

/// Number of neighbours: the cells of the window but the centre.
pub open spec fn neighbour_count(s: Site) -> int {
    (s.z_end - s.z_lo) * ((s.x_end - s.x_lo) * (s.y_end - s.y_lo)) - 1
}

/// Mean count over the neighbourhood, rounded down; zero where a cell has no
/// neighbour.
pub open spec fn neighbour_mean(maps: Seq<Seq<u8>>, width: nat, s: Site) -> int {
    if neighbour_count(s) <= 0 {
        0
    } else {
        window_sum(maps, width, s, s.z_end) as int / neighbour_count(s)
    }
}

/// Whether `(nz, nx, ny)` lies in the window of `s`.
pub open spec fn in_window(s: Site, nz: int, nx: int, ny: int) -> bool {
    s.z_lo <= nz < s.z_end && s.x_lo <= nx < s.x_end && s.y_lo <= ny < s.y_end
}

/// Whether no cell of the neighbourhood outranks the centre.
pub open spec fn is_peak(maps: Seq<Seq<u8>>, width: nat, s: Site) -> bool {
    forall|nz: int, nx: int, ny: int|
        in_window(s, nz, nx, ny) && !(nz == s.z && nx == s.x && ny == s.y) ==> !outranks(
            #[trigger] votes_at(maps, width, nz, nx, ny),
            votes_at(maps, width, s.z, s.x, s.y),
            nx - s.x,
            ny - s.y,
            nz - s.z,
        )
}

/// Whether the cell `(x, y)` at radius index `z` is a circle candidate: its
/// count exceeds the vote threshold of its radius, it is a peak of its
/// neighbourhood, and the neighbourhood's mean count does not exceed the
/// accumulator threshold.
pub open spec fn accepted(
    maps: Seq<Seq<u8>>,
    radii: Seq<u32>,
    width: nat,
    height: nat,
    z: int,
    x: int,
    y: int,
) -> bool {
    let r = radii[z] as int;
    let s = site(radii.len(), width, height, r, z, x, y);
    &&& votes_at(maps, width, z, x, y) > vote_threshold(r)
    &&& is_peak(maps, width, s)
    &&& neighbour_mean(maps, width, s) <= accumulator_threshold(r)
}

/// The candidate that an accepted cell is reported as.
pub open spec fn circle_at(maps: Seq<Seq<u8>>, radii: Seq<u32>, width: nat, z: int, x: int, y: int) -> Circle {
    Circle { x: x as usize, y: y as usize, r: radii[z], votes: votes_at(maps, width, z, x, y) }
}

/// Whether the cell `(a, b, c)` comes before `(nz, nx, ny)` when the window
/// is walked grid by grid, column by column, row by row.
pub open spec fn precedes(nz: int, nx: int, ny: int, a: int, b: int, c: int) -> bool {
    a < nz || (a == nz && (b < nx || (b == nx && c < ny)))
}

/// Whether no neighbour that comes before `(nz, nx, ny)` outranks the centre.
pub open spec fn peak_before(maps: Seq<Seq<u8>>, width: nat, s: Site, nz: int, nx: int, ny: int) -> bool {
    forall|a: int, b: int, c: int|
        in_window(s, a, b, c) && precedes(nz, nx, ny, a, b, c) && !(a == s.z && b == s.x && c
            == s.y) ==> !outranks(
            #[trigger] votes_at(maps, width, a, b, c),
            votes_at(maps, width, s.z, s.x, s.y),
            b - s.x,
            c - s.y,
            a - s.z,
        )
}

/// Every grid has one count per cell.
pub open spec fn grids_fit(maps: Seq<Vec<u8>>, width: nat, height: nat) -> bool {
    forall|z: int| 0 <= z < maps.len() ==> (#[trigger] maps[z]).len() == width * height
}

/// The window of reach `r` around `c` on an axis of length `n`.
fn window(c: usize, r: u64, n: usize) -> (b: (usize, usize))
    requires
        c < n,
    ensures
        b.0 == window_lo(c as int, r as int),
        b.1 == window_end(c as int, r as int, n as int),
        b.0 <= c < b.1 <= n,
{
    let lo: usize = if r > c as u64 {
        0
    } else {
        c - r as usize
    };
    let end: usize = if r >= (n - c) as u64 {
        n
    } else {
        c + r as usize + 1
    };
    (lo, end)
}

/// Whether a neighbour outranks the centre; see `outranks`.
pub fn neighbour_outranks(other: u8, own: u8, dx: i8, dy: i8, dz: i8) -> (b: bool)
    ensures
        b == outranks(other, own, dx as int, dy as int, dz as int),
{
    other > own || (other == own && (dx > 0 || (dx == 0 && dy > 0) || (dx == 0 && dy == 0 && dz
        > 0)))
}

/// The sign of `a - b`.
fn side(a: usize, b: usize) -> (d: i8)
    ensures
        -1 <= d <= 1,
        d > 0 <==> a > b,
        d == 0 <==> a == b,
{
    if a > b {
        1
    } else if a == b {
        0
    } else {
        -1
    }
}

/// Walks the neighbourhood of the cell `(x, y)` at radius index `z` and
/// returns the sum of its counts and whether the cell is a peak.
fn inspect(maps: &Vec<Vec<u8>>, width: usize, height: usize, z: usize, x: usize, y: usize, r: u32) -> (res: (u128, bool))
    requires
        z < maps.len(),
        x < width,
        y < height,
        width * height <= usize::MAX,
        grids_fit(maps@, width as nat, height as nat),
    ensures
        res.0 == window_sum(
            grids(maps@),
            width as nat,
            site(maps.len() as nat, width as nat, height as nat, r as int, z as int, x as int, y as int),
            window_end(z as int, 5, maps.len() as int),
        ),
        res.1 == is_peak(
            grids(maps@),
            width as nat,
            site(maps.len() as nat, width as nat, height as nat, r as int, z as int, x as int, y as int),
        ),
{
    let ghost g = grids(maps@);
    let ghost w = width as nat;
    let ghost s = site(maps.len() as nat, w, height as nat, r as int, z as int, x as int, y as int);
    let zs: (usize, usize) = window(z, 5, maps.len());
    let xs: (usize, usize) = window(x, r as u64, width);
    let ys: (usize, usize) = window(y, r as u64, height);
    let own: u8 = {
        proof {
            lemma_cell_in_grid(width as int, height as int, x as int, y as int);
        }
        maps[z][x + y * width]
    };
    let ghost xlen = (xs.1 - xs.0) as int;
    let ghost ylen = (ys.1 - ys.0) as int;
    assert(0 <= xlen * ylen <= width * height) by (nonlinear_arith)
        requires
            0 <= xlen <= width,
            0 <= ylen <= height,
    ;
    let mut total: u128 = 0;
    let mut peak: bool = true;
    let mut nz: usize = zs.0;
    while nz < zs.1
        invariant
            zs.0 <= nz <= zs.1 <= maps.len(),
            zs.1 - zs.0 <= 11,
            xs.0 <= xs.1 <= width,
            ys.0 <= ys.1 <= height,
            z < maps.len(),
            x < width,
            y < height,
            width * height <= usize::MAX,
            grids_fit(maps@, w, height as nat),
            g == grids(maps@),
            w == width,
            s == site(maps.len() as nat, w, height as nat, r as int, z as int, x as int, y as int),
            s.z_lo == zs.0 && s.z_end == zs.1 && s.x_lo == xs.0 && s.x_end == xs.1 && s.y_lo
                == ys.0 && s.y_end == ys.1,
            own == votes_at(g, w, z as int, x as int, y as int),
            xlen == xs.1 - xs.0,
            ylen == ys.1 - ys.0,
            0 <= xlen * ylen <= usize::MAX,
            total == window_sum(g, w, s, nz as int),
            total <= 255 * ((nz - zs.0) * (xlen * ylen)),
            peak == peak_before(g, w, s, nz as int, xs.0 as int, ys.0 as int),
        decreases zs.1 - nz,
    {
        let dz: i8 = side(nz, z);
        let mut plane: u128 = 0;
        let mut nx: usize = xs.0;
        while nx < xs.1
            invariant
                zs.0 <= nz < zs.1 <= maps.len(),
                xs.0 <= nx <= xs.1 <= width,
                ys.0 <= ys.1 <= height,
                z < maps.len(),
                x < width,
                y < height,
                width * height <= usize::MAX,
                grids_fit(maps@, w, height as nat),
                g == grids(maps@),
                w == width,
                s == site(maps.len() as nat, w, height as nat, r as int, z as int, x as int, y as int),
                s.z_lo == zs.0 && s.z_end == zs.1 && s.x_lo == xs.0 && s.x_end == xs.1 && s.y_lo
                    == ys.0 && s.y_end == ys.1,
                own == votes_at(g, w, z as int, x as int, y as int),
                -1 <= dz <= 1,
                dz > 0 <==> nz > z,
                dz == 0 <==> nz == z,
                xlen == xs.1 - xs.0,
                ylen == ys.1 - ys.0,
                0 <= xlen * ylen <= usize::MAX,
                plane == plane_sum(g, w, s, nz as int, nx as int),
                plane <= 255 * ((nx - xs.0) * ylen),
                peak == peak_before(g, w, s, nz as int, nx as int, ys.0 as int),
            decreases xs.1 - nx,
        {
            let dx: i8 = side(nx, x);
            let mut column: u128 = 0;
            let mut ny: usize = ys.0;
            while ny < ys.1
                invariant
                    zs.0 <= nz < zs.1 <= maps.len(),
                    xs.0 <= nx < xs.1 <= width,
                    ys.0 <= ny <= ys.1 <= height,
                    z < maps.len(),
                    x < width,
                    y < height,
                    width * height <= usize::MAX,
                    grids_fit(maps@, w, height as nat),
                    g == grids(maps@),
                    w == width,
                    s == site(maps.len() as nat, w, height as nat, r as int, z as int, x as int, y as int),
                    s.z_lo == zs.0 && s.z_end == zs.1 && s.x_lo == xs.0 && s.x_end == xs.1
                        && s.y_lo == ys.0 && s.y_end == ys.1,
                    own == votes_at(g, w, z as int, x as int, y as int),
                    -1 <= dz <= 1,
                    dz > 0 <==> nz > z,
                    dz == 0 <==> nz == z,
                    -1 <= dx <= 1,
                    dx > 0 <==> nx > x,
                    dx == 0 <==> nx == x,
                    column == column_sum(g, w, s, nz as int, nx as int, ny as int),
                    column <= 255 * (ny - ys.0),
                    peak == peak_before(g, w, s, nz as int, nx as int, ny as int),
                decreases ys.1 - ny,
            {
                proof {
                    lemma_cell_in_grid(width as int, height as int, nx as int, ny as int);
                }
                let v: u8 = maps[nz][nx + ny * width];
                assert(v == votes_at(g, w, nz as int, nx as int, ny as int));
                let dy: i8 = side(ny, y);
                let centre: bool = dz == 0 && dx == 0 && dy == 0;
                let ghost before = peak;
                if !centre {
                    column = column + v as u128;
                    if neighbour_outranks(v, own, dx, dy, dz) {
                        peak = false;
                    }
                }
                proof {
                    let a = nz as int;
                    let b = nx as int;
                    let c = ny as int;
                    assert(outranks(v, own, dx as int, dy as int, dz as int) == outranks(
                        v,
                        own,
                        b - s.x,
                        c - s.y,
                        a - s.z,
                    ));
                    if peak {
                        assert forall|a2: int, b2: int, c2: int|
                            in_window(s, a2, b2, c2) && precedes(a, b, c + 1, a2, b2, c2) && !(a2
                                == s.z && b2 == s.x && c2 == s.y) implies !outranks(
                            #[trigger] votes_at(g, w, a2, b2, c2),
                            votes_at(g, w, s.z, s.x, s.y),
                            b2 - s.x,
                            c2 - s.y,
                            a2 - s.z,
                        ) by {
                            if precedes(a, b, c, a2, b2, c2) {
                            } else {
                                assert(a2 == a && b2 == b && c2 == c);
                            }
                        }
                    } else if before {
                        assert(in_window(s, a, b, c) && precedes(a, b, c + 1, a, b, c));
                    } else {
                        assert(!peak_before(g, w, s, a, b, c + 1)) by {
                            if peak_before(g, w, s, a, b, c + 1) {
                                assert forall|a2: int, b2: int, c2: int|
                                    in_window(s, a2, b2, c2) && precedes(a, b, c, a2, b2, c2)
                                        && !(a2 == s.z && b2 == s.x && c2 == s.y) implies !outranks(
                                    #[trigger] votes_at(g, w, a2, b2, c2),
                                    votes_at(g, w, s.z, s.x, s.y),
                                    b2 - s.x,
                                    c2 - s.y,
                                    a2 - s.z,
                                ) by {
                                    assert(precedes(a, b, c + 1, a2, b2, c2));
                                }
                            }
                        }
                    }
                }
                ny = ny + 1;
            }
            proof {
                assert((nx + 1 - xs.0) * ylen == (nx - xs.0) * ylen + ylen) by (nonlinear_arith);
                assert((nx + 1 - xs.0) * ylen <= xlen * ylen) by (nonlinear_arith)
                    requires
                        nx + 1 - xs.0 <= xlen,
                        0 <= ylen,
                ;
                lemma_peak_next_column(g, w, s, nz as int, nx as int);
            }
            plane = plane + column;
            nx = nx + 1;
        }
        proof {
            assert((nz + 1 - zs.0) * (xlen * ylen) == (nz - zs.0) * (xlen * ylen) + xlen * ylen)
                by (nonlinear_arith);
            assert((nz + 1 - zs.0) * (xlen * ylen) <= 11 * (xlen * ylen)) by (nonlinear_arith)
                requires
                    nz + 1 - zs.0 <= 11,
                    0 <= xlen * ylen,
            ;
            lemma_peak_next_grid(g, w, s, nz as int);
        }
        total = total + plane;
        nz = nz + 1;
    }
    proof {
        lemma_peak_complete(g, w, s);
    }
    (total, peak)
}

/// Having passed the last row of a column is having reached the first row of
/// the next one.
proof fn lemma_peak_next_column(maps: Seq<Seq<u8>>, width: nat, s: Site, nz: int, nx: int)
    ensures
        peak_before(maps, width, s, nz, nx, s.y_end) == peak_before(
            maps,
            width,
            s,
            nz,
            nx + 1,
            s.y_lo,
        ),
{
    if peak_before(maps, width, s, nz, nx, s.y_end) {
        assert forall|a: int, b: int, c: int|
            in_window(s, a, b, c) && precedes(nz, nx + 1, s.y_lo, a, b, c) && !(a == s.z && b
                == s.x && c == s.y) implies !outranks(
            #[trigger] votes_at(maps, width, a, b, c),
            votes_at(maps, width, s.z, s.x, s.y),
            b - s.x,
            c - s.y,
            a - s.z,
        ) by {
            assert(precedes(nz, nx, s.y_end, a, b, c));
        }
    }
    if peak_before(maps, width, s, nz, nx + 1, s.y_lo) {
        assert forall|a: int, b: int, c: int|
            in_window(s, a, b, c) && precedes(nz, nx, s.y_end, a, b, c) && !(a == s.z && b == s.x
                && c == s.y) implies !outranks(
            #[trigger] votes_at(maps, width, a, b, c),
            votes_at(maps, width, s.z, s.x, s.y),
            b - s.x,
            c - s.y,
            a - s.z,
        ) by {
            assert(precedes(nz, nx + 1, s.y_lo, a, b, c));
        }
    }
}

/// Having passed the last column of a grid is having reached the first
/// column of the next one.
proof fn lemma_peak_next_grid(maps: Seq<Seq<u8>>, width: nat, s: Site, nz: int)
    ensures
        peak_before(maps, width, s, nz, s.x_end, s.y_lo) == peak_before(
            maps,
            width,
            s,
            nz + 1,
            s.x_lo,
            s.y_lo,
        ),
{
    if peak_before(maps, width, s, nz, s.x_end, s.y_lo) {
        assert forall|a: int, b: int, c: int|
            in_window(s, a, b, c) && precedes(nz + 1, s.x_lo, s.y_lo, a, b, c) && !(a == s.z && b
                == s.x && c == s.y) implies !outranks(
            #[trigger] votes_at(maps, width, a, b, c),
            votes_at(maps, width, s.z, s.x, s.y),
            b - s.x,
            c - s.y,
            a - s.z,
        ) by {
            assert(precedes(nz, s.x_end, s.y_lo, a, b, c));
        }
    }
    if peak_before(maps, width, s, nz + 1, s.x_lo, s.y_lo) {
        assert forall|a: int, b: int, c: int|
            in_window(s, a, b, c) && precedes(nz, s.x_end, s.y_lo, a, b, c) && !(a == s.z && b
                == s.x && c == s.y) implies !outranks(
            #[trigger] votes_at(maps, width, a, b, c),
            votes_at(maps, width, s.z, s.x, s.y),
            b - s.x,
            c - s.y,
            a - s.z,
        ) by {
            assert(precedes(nz + 1, s.x_lo, s.y_lo, a, b, c));
        }
    }
}

/// Once the whole window has been walked, every neighbour has been seen.
proof fn lemma_peak_complete(maps: Seq<Seq<u8>>, width: nat, s: Site)
    ensures
        peak_before(maps, width, s, s.z_end, s.x_lo, s.y_lo) == is_peak(maps, width, s),
{
    if peak_before(maps, width, s, s.z_end, s.x_lo, s.y_lo) {
        assert forall|a: int, b: int, c: int|
            in_window(s, a, b, c) && !(a == s.z && b == s.x && c == s.y) implies !outranks(
            #[trigger] votes_at(maps, width, a, b, c),
            votes_at(maps, width, s.z, s.x, s.y),
            b - s.x,
            c - s.y,
            a - s.z,
        ) by {
            assert(precedes(s.z_end, s.x_lo, s.y_lo, a, b, c));
        }
    }
}

/// The vote threshold of radius `r`.
pub fn vote_limit(r: u32) -> (t: u64)
    ensures
        t == vote_threshold(r as int),
{
    30 + (16 * (r as u64) + 5) / 10
}

/// The accumulator threshold of radius `r`; negative from radius 68 on.
pub fn accumulator_limit(r: u32) -> (t: i64)
    ensures
        t == accumulator_threshold(r as int),
        t < 0 <==> r >= 68,
{
    13 - ((2 * (r as i64) + 5) / 10)
}

/// Whether the cell `(x, y)` at radius index `z` is a circle candidate.
pub fn is_candidate(
    maps: &Vec<Vec<u8>>,
    radii: &[u32],
    width: usize,
    height: usize,
    z: usize,
    x: usize,
    y: usize,
) -> (b: bool)
    requires
        maps.len() == radii.len(),
        z < maps.len(),
        x < width,
        y < height,
        width * height <= usize::MAX,
        grids_fit(maps@, width as nat, height as nat),
    ensures
        b == accepted(
            grids(maps@),
            radii@,
            width as nat,
            height as nat,
            z as int,
            x as int,
            y as int,
        ),
{
    let r: u32 = radii[z];
    proof {
        lemma_cell_in_grid(width as int, height as int, x as int, y as int);
    }
    let own: u8 = maps[z][x + y * width];
    if own as u64 <= vote_limit(r) {
        return false;
    }
    let found: (u128, bool) = inspect(maps, width, height, z, x, y, r);
    if !found.1 {
        return false;
    }
    let limit: i64 = accumulator_limit(r);
    let zs: (usize, usize) = window(z, 5, maps.len());
    let xs: (usize, usize) = window(x, r as u64, width);
    let ys: (usize, usize) = window(y, r as u64, height);
    let xlen: usize = xs.1 - xs.0;
    let ylen: usize = ys.1 - ys.0;
    assert(1 <= xlen * ylen <= width * height) by (nonlinear_arith)
        requires
            1 <= xlen <= width,
            1 <= ylen <= height,
    ;
    let area: usize = xlen * ylen;
    let depth: usize = zs.1 - zs.0;
    assert(1 <= depth * area <= 11 * area) by (nonlinear_arith)
        requires
            1 <= depth <= 11,
            1 <= area,
    ;
    let count: u128 = (depth as u128) * (area as u128) - 1;
    let mean: u128 = if count == 0 {
        0
    } else {
        found.0 / count
    };
    if limit < 0 {
        false
    } else {
        mean <= limit as u128
    }
}

/// The candidates among the first `rows` cells of column `x` at radius index
/// `z`, top to bottom.
pub open spec fn column_candidates(
    maps: Seq<Seq<u8>>,
    radii: Seq<u32>,
    width: nat,
    height: nat,
    z: int,
    x: int,
    rows: nat,
) -> Seq<Circle>
    decreases rows,
{
    if rows == 0 {
        Seq::empty()
    } else {
        let above = column_candidates(maps, radii, width, height, z, x, (rows - 1) as nat);
        if accepted(maps, radii, width, height, z, x, rows - 1) {
            above.push(circle_at(maps, radii, width, z, x, rows - 1))
        } else {
            above
        }
    }
}

/// The candidates in the first `columns` columns at radius index `z`, left to
/// right.
pub open spec fn radius_candidates(
    maps: Seq<Seq<u8>>,
    radii: Seq<u32>,
    width: nat,
    height: nat,
    z: int,
    columns: nat,
) -> Seq<Circle>
    decreases columns,
{
    if columns == 0 {
        Seq::empty()
    } else {
        radius_candidates(maps, radii, width, height, z, (columns - 1) as nat) + column_candidates(
            maps,
            radii,
            width,
            height,
            z,
            columns - 1,
            height,
        )
    }
}

/// The candidates of the first `count` radii, in the order of the list.
pub open spec fn candidates(
    maps: Seq<Seq<u8>>,
    radii: Seq<u32>,
    width: nat,
    height: nat,
    count: nat,
) -> Seq<Circle>
    decreases count,
{
    if count == 0 {
        Seq::empty()
    } else {
        candidates(maps, radii, width, height, (count - 1) as nat) + radius_candidates(
            maps,
            radii,
            width,
            height,
            count - 1,
            width,
        )
    }
}

/// Whether every grid has `area` cells.
fn grids_have(maps: &Vec<Vec<u8>>, area: usize) -> (ok: bool)
    ensures
        ok == forall|z: int| 0 <= z < maps.len() ==> (#[trigger] maps[z]).len() == area,
{
    let mut z: usize = 0;
    while z < maps.len()
        invariant
            z <= maps.len(),
            forall|k: int| 0 <= k < z ==> (#[trigger] maps[k]).len() == area,
        decreases maps.len() - z,
    {
        if maps[z].len() != area {
            return false;
        }
        z = z + 1;
    }
    true
}

/// What `extract_candidates` works on: a grid with area, and one accumulator
/// of that size for each radius.
pub open spec fn accumulators_ok(maps: Seq<Vec<u8>>, radii: Seq<u32>, width: nat, height: nat) -> bool {
    &&& width > 0
    &&& height > 0
    &&& maps.len() == radii.len()
    &&& grids_fit(maps, width, height)
}

/// Collects the circle candidates of all radii: radius by radius in the order
/// of `radii`, within a radius column by column, within a column top to
/// bottom.
pub fn extract_candidates(
    vote_maps: &Vec<Vec<u8>>,
    radii: &[u32],
    width: usize,
    height: usize,
) -> (res: Result<Vec<Circle>, InvalidInput>)
    ensures
        res is Ok <==> accumulators_ok(vote_maps@, radii@, width as nat, height as nat),
        res matches Ok(circles) ==> circles@ == candidates(
            grids(vote_maps@),
            radii@,
            width as nat,
            height as nat,
            radii@.len(),
        ),
        res matches Ok(circles) ==> forall|i: int|
            0 <= i < circles.len() ==> (#[trigger] circles[i]).x < width && circles[i].y < height,
{
    if width == 0 || height == 0 || vote_maps.len() != radii.len() {
        return Err(InvalidInput);
    }
    let mut circles: Vec<Circle> = Vec::new();
    let area: usize = match width.checked_mul(height) {
        Some(area) => area,
        None => {
            if vote_maps.len() == 0 {
                return Ok(circles);
            } else {
                let n: usize = vote_maps[0].len();
                assert(vote_maps@[0].len() != width * height);
                return Err(InvalidInput);
            }
        },
    };
    if !grids_have(vote_maps, area) {
        return Err(InvalidInput);
    }
    let ghost g = grids(vote_maps@);
    let ghost w = width as nat;
    let ghost h = height as nat;
    let mut z: usize = 0;
    while z < radii.len()
        invariant
            z <= radii.len(),
            vote_maps.len() == radii.len(),
            width > 0,
            height > 0,
            area == width * height,
            grids_fit(vote_maps@, w, h),
            g == grids(vote_maps@),
            w == width,
            h == height,
            circles@ == candidates(g, radii@, w, h, z as nat),
            forall|i: int|
                0 <= i < circles.len() ==> (#[trigger] circles[i]).x < width && circles[i].y
                    < height,
        decreases radii.len() - z,
    {
        let ghost before_radius = circles@;
        let mut x: usize = 0;
        while x < width
            invariant
                z < radii.len(),
                x <= width,
                vote_maps.len() == radii.len(),
                width > 0,
                height > 0,
                area == width * height,
                grids_fit(vote_maps@, w, h),
                g == grids(vote_maps@),
                w == width,
                h == height,
                circles@ == before_radius + radius_candidates(g, radii@, w, h, z as int, x as nat),
                forall|i: int|
                    0 <= i < circles.len() ==> (#[trigger] circles[i]).x < width && circles[i].y
                        < height,
            decreases width - x,
        {
            let ghost before_column = circles@;
            let mut y: usize = 0;
            while y < height
                invariant
                    z < radii.len(),
                    x < width,
                    y <= height,
                    vote_maps.len() == radii.len(),
                    width > 0,
                    height > 0,
                    area == width * height,
                    grids_fit(vote_maps@, w, h),
                    g == grids(vote_maps@),
                    w == width,
                    h == height,
                    circles@ == before_column + column_candidates(
                        g,
                        radii@,
                        w,
                        h,
                        z as int,
                        x as int,
                        y as nat,
                    ),
                    forall|i: int|
                        0 <= i < circles.len() ==> (#[trigger] circles[i]).x < width
                            && circles[i].y < height,
                decreases height - y,
            {
                if is_candidate(vote_maps, radii, width, height, z, x, y) {
                    proof {
                        lemma_cell_in_grid(width as int, height as int, x as int, y as int);
                    }
                    let votes: u8 = vote_maps[z][x + y * width];
                    circles.push(Circle { x, y, r: radii[z], votes });
                    assert(circles@ == before_column + column_candidates(
                        g,
                        radii@,
                        w,
                        h,
                        z as int,
                        x as int,
                        (y + 1) as nat,
                    ));
                }
                y = y + 1;
            }
            x = x + 1;
            assert(circles@ == before_radius + radius_candidates(
                g,
                radii@,
                w,
                h,
                z as int,
                x as nat,
            ));
        }
        z = z + 1;
        assert(circles@ == candidates(g, radii@, w, h, z as nat));
    }
    Ok(circles)
}

/// Of two cells with equal counts that lie in each other's neighbourhood, at
/// most one is a peak: the one that comes later in column, then row, then
/// radius order outranks the other.
pub proof fn lemma_plateau_has_one_peak(maps: Seq<Seq<u8>>, width: nat, p: Site, q: Site)
    requires
        !(p.z == q.z && p.x == q.x && p.y == q.y),
        in_window(p, q.z, q.x, q.y),
        in_window(q, p.z, p.x, p.y),
        votes_at(maps, width, p.z, p.x, p.y) == votes_at(maps, width, q.z, q.x, q.y),
    ensures
        !(is_peak(maps, width, p) && is_peak(maps, width, q)),
{
    let v = votes_at(maps, width, p.z, p.x, p.y);
    if is_peak(maps, width, p) && is_peak(maps, width, q) {
        assert(!outranks(votes_at(maps, width, q.z, q.x, q.y), v, q.x - p.x, q.y - p.y, q.z - p.z));
        assert(!outranks(votes_at(maps, width, p.z, p.x, p.y), v, p.x - q.x, p.y - q.y, p.z - q.z));
    }
}

/// From radius 68 on the accumulator threshold is negative, so no cell of
/// such a radius is accepted.
pub proof fn lemma_large_radius_rejects(
    maps: Seq<Seq<u8>>,
    radii: Seq<u32>,
    width: nat,
    height: nat,
    z: int,
    x: int,
    y: int,
)
    requires
        0 <= z < radii.len(),
        radii[z] >= 68,
    ensures
        !accepted(maps, radii, width, height, z, x, y),
{
    let r = radii[z] as int;
    let s = site(radii.len(), width, height, r, z, x, y);
    assert(rounded(r, 5) == (2 * r + 5) / 10);
    assert(accumulator_threshold(r) < 0);
    if neighbour_count(s) > 0 {
        vstd::arithmetic::div_mod::lemma_div_pos_is_pos(
            window_sum(maps, width, s, s.z_end) as int,
            neighbour_count(s),
        );
    }
}

/// Whether `c` is the circle of an accepted cell of the grid.
pub open spec fn is_accepted_circle(
    maps: Seq<Seq<u8>>,
    radii: Seq<u32>,
    width: nat,
    height: nat,
    c: Circle,
) -> bool {
    exists|z: int|
        0 <= z < radii.len() && c.x < width && c.y < height && accepted(
            maps,
            radii,
            width,
            height,
            z,
            c.x as int,
            c.y as int,
        ) && c == #[trigger] circle_at(maps, radii, width, z, c.x as int, c.y as int)
}

/// A column's candidates are the circles of its accepted cells.
proof fn lemma_column_candidates(
    maps: Seq<Seq<u8>>,
    radii: Seq<u32>,
    width: nat,
    height: nat,
    z: int,
    x: int,
    rows: nat,
)
    requires
        0 <= z < radii.len(),
        0 <= x < width <= usize::MAX,
        rows <= height <= usize::MAX,
    ensures
        forall|i: int|
            0 <= i < column_candidates(maps, radii, width, height, z, x, rows).len()
                ==> is_accepted_circle(
                maps,
                radii,
                width,
                height,
                #[trigger] column_candidates(maps, radii, width, height, z, x, rows)[i],
            ),
        forall|y: int|
            0 <= y < rows && accepted(maps, radii, width, height, z, x, y) ==> column_candidates(
                maps,
                radii,
                width,
                height,
                z,
                x,
                rows,
            ).contains(#[trigger] circle_at(maps, radii, width, z, x, y)),
    decreases rows,
{
    if rows > 0 {
        lemma_column_candidates(maps, radii, width, height, z, x, (rows - 1) as nat);
        let above = column_candidates(maps, radii, width, height, z, x, (rows - 1) as nat);
        let all = column_candidates(maps, radii, width, height, z, x, rows);
        let last = circle_at(maps, radii, width, z, x, rows - 1);
        assert forall|i: int| 0 <= i < all.len() implies is_accepted_circle(
            maps,
            radii,
            width,
            height,
            #[trigger] all[i],
        ) by {
            if i < above.len() {
                assert(all[i] == above[i]);
            } else {
                assert(all[i] == last);
                assert(last == circle_at(maps, radii, width, z, last.x as int, last.y as int));
            }
        }
        assert forall|y: int|
            0 <= y < rows && accepted(maps, radii, width, height, z, x, y) implies all.contains(
            #[trigger] circle_at(maps, radii, width, z, x, y),
        ) by {
            let c = circle_at(maps, radii, width, z, x, y);
            if y < rows - 1 {
                assert(above.contains(c));
                let i = choose|i: int| 0 <= i < above.len() && above[i] == c;
                assert(all[i] == c);
            } else {
                assert(all[all.len() - 1] == c);
            }
        }
    }
}

/// The candidates of one radius are the circles of its accepted cells.
proof fn lemma_radius_candidates(
    maps: Seq<Seq<u8>>,
    radii: Seq<u32>,
    width: nat,
    height: nat,
    z: int,
    columns: nat,
)
    requires
        0 <= z < radii.len(),
        columns <= width <= usize::MAX,
        height <= usize::MAX,
    ensures
        forall|i: int|
            0 <= i < radius_candidates(maps, radii, width, height, z, columns).len()
                ==> is_accepted_circle(
                maps,
                radii,
                width,
                height,
                #[trigger] radius_candidates(maps, radii, width, height, z, columns)[i],
            ),
        forall|x: int, y: int|
            0 <= x < columns && 0 <= y < height && accepted(maps, radii, width, height, z, x, y)
                ==> radius_candidates(maps, radii, width, height, z, columns).contains(
                #[trigger] circle_at(maps, radii, width, z, x, y),
            ),
    decreases columns,
{
    if columns > 0 {
        lemma_radius_candidates(maps, radii, width, height, z, (columns - 1) as nat);
        lemma_column_candidates(maps, radii, width, height, z, columns - 1, height);
        let before = radius_candidates(maps, radii, width, height, z, (columns - 1) as nat);
        let column = column_candidates(maps, radii, width, height, z, columns - 1, height);
        let all = radius_candidates(maps, radii, width, height, z, columns);
        assert(all == before + column);
        assert forall|i: int| 0 <= i < all.len() implies is_accepted_circle(
            maps,
            radii,
            width,
            height,
            #[trigger] all[i],
        ) by {
            if i < before.len() {
                assert(all[i] == before[i]);
            } else {
                assert(all[i] == column[i - before.len()]);
            }
        }
        assert forall|x: int, y: int|
            0 <= x < columns && 0 <= y < height && accepted(
                maps,
                radii,
                width,
                height,
                z,
                x,
                y,
            ) implies all.contains(#[trigger] circle_at(maps, radii, width, z, x, y)) by {
            let c = circle_at(maps, radii, width, z, x, y);
            if x < columns - 1 {
                assert(before.contains(c));
                let i = choose|i: int| 0 <= i < before.len() && before[i] == c;
                assert(all[i] == c);
            } else {
                assert(column.contains(c));
                let i = choose|i: int| 0 <= i < column.len() && column[i] == c;
                assert(all[before.len() + i] == c);
            }
        }
    }
}

/// The candidate list holds the circle of every accepted cell, and nothing
/// else.
pub proof fn lemma_candidates_are_the_accepted_cells(
    maps: Seq<Seq<u8>>,
    radii: Seq<u32>,
    width: nat,
    height: nat,
    count: nat,
)
    requires
        count <= radii.len(),
        width <= usize::MAX,
        height <= usize::MAX,
    ensures
        forall|i: int|
            0 <= i < candidates(maps, radii, width, height, count).len() ==> is_accepted_circle(
                maps,
                radii,
                width,
                height,
                #[trigger] candidates(maps, radii, width, height, count)[i],
            ),
        forall|z: int, x: int, y: int|
            0 <= z < count && 0 <= x < width && 0 <= y < height && accepted(
                maps,
                radii,
                width,
                height,
                z,
                x,
                y,
            ) ==> candidates(maps, radii, width, height, count).contains(
                #[trigger] circle_at(maps, radii, width, z, x, y),
            ),
    decreases count,
{
    if count > 0 {
        lemma_candidates_are_the_accepted_cells(maps, radii, width, height, (count - 1) as nat);
        lemma_radius_candidates(maps, radii, width, height, count - 1, width);
        let before = candidates(maps, radii, width, height, (count - 1) as nat);
        let radius = radius_candidates(maps, radii, width, height, count - 1, width);
        let all = candidates(maps, radii, width, height, count);
        assert(all == before + radius);
        assert forall|i: int| 0 <= i < all.len() implies is_accepted_circle(
            maps,
            radii,
            width,
            height,
            #[trigger] all[i],
        ) by {
            if i < before.len() {
                assert(all[i] == before[i]);
            } else {
                assert(all[i] == radius[i - before.len()]);
            }
        }
        assert forall|z: int, x: int, y: int|
            0 <= z < count && 0 <= x < width && 0 <= y < height && accepted(
                maps,
                radii,
                width,
                height,
                z,
                x,
                y,
            ) implies all.contains(#[trigger] circle_at(maps, radii, width, z, x, y)) by {
            let c = circle_at(maps, radii, width, z, x, y);
            if z < count - 1 {
                assert(before.contains(c));
                let i = choose|i: int| 0 <= i < before.len() && before[i] == c;
                assert(all[i] == c);
            } else {
                assert(radius.contains(c));
                let i = choose|i: int| 0 <= i < radius.len() && radius[i] == c;
                assert(all[before.len() + i] == c);
            }
        }
    }
}

} // verus!
