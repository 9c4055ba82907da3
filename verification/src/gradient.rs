//! Separable convolution of a pixel field with a row kernel and a column
//! kernel, the building block of the gradient.
//!
//! A field is a flat sequence of samples in row-major order: the sample at
//! column `x`, row `y` has index `x + y * width`.

use vstd::prelude::*;
use crate::types::InvalidInput;

verus! {

/// Largest magnitude of a sample that `convolute` accepts.
pub const MAX_SAMPLE: i64 = 16777216;

/// Largest magnitude of a kernel tap that `convolute` accepts.
pub const MAX_TAP: i64 = 4096;

/// Largest kernel length that `convolute` accepts.
pub const MAX_TAPS: usize = 127;

/// The values of a sequence of machine integers.
pub open spec fn ints(s: Seq<i64>) -> Seq<int> {
    Seq::new(s.len(), |i: int| s[i] as int)
}

/// Contribution of tap `k` of `kernel`, centred on position `pos` of `line`:
/// the sample under the tap times the tap, or, where the tap falls off the
/// line, the centre sample itself.
pub open spec fn tap(line: Seq<int>, pos: int, kernel: Seq<int>, k: int) -> int {
    let at = pos - kernel.len() / 2 + k;
    if 0 <= at < line.len() {
        line[at] * kernel[k]
    } else {
        line[pos]
    }
}

/// Sum of the contributions of the first `upto` taps.
pub open spec fn line_sum(line: Seq<int>, pos: int, kernel: Seq<int>, upto: nat) -> int
    decreases upto,
{
    if upto == 0 {
        0
    } else {
        line_sum(line, pos, kernel, (upto - 1) as nat) + tap(line, pos, kernel, upto - 1)
    }
}

/// The line filtered at `pos`: the sum of all tap contributions.
pub open spec fn filtered(line: Seq<int>, pos: int, kernel: Seq<int>) -> int {
    line_sum(line, pos, kernel, kernel.len())
}

/// Row `y` of a field.
pub open spec fn row_of(field: Seq<int>, width: nat, y: int) -> Seq<int> {
    Seq::new(width, |x: int| field[x + y * width])
}

/// The horizontal pass at `(x, y)`.
pub open spec fn row_value(field: Seq<int>, width: nat, x_kernel: Seq<int>, x: int, y: int) -> int {
    filtered(row_of(field, width, y), x, x_kernel)
}

/// Column `x` of the horizontally filtered field.
pub open spec fn column_of(
    field: Seq<int>,
    width: nat,
    height: nat,
    x_kernel: Seq<int>,
    x: int,
) -> Seq<int> {
    Seq::new(height, |y: int| row_value(field, width, x_kernel, x, y))
}

/// The convolution at `(x, y)`: the vertical pass over the horizontal pass.
pub open spec fn gradient_at(
    field: Seq<int>,
    width: nat,
    height: nat,
    x_kernel: Seq<int>,
    y_kernel: Seq<int>,
    x: int,
    y: int,
) -> int {
    filtered(column_of(field, width, height, x_kernel, x), y, y_kernel)
}

/// Every element has magnitude at most `limit`.
pub open spec fn bounded(s: Seq<i64>, limit: int) -> bool {
    forall|i: int| 0 <= i < s.len() ==> -limit <= #[trigger] s[i] <= limit
}

/// A kernel that `convolute` can apply: odd length within `MAX_TAPS`, taps
/// within `MAX_TAP`.
pub open spec fn usable_kernel(kernel: Seq<i64>) -> bool {
    &&& kernel.len() % 2 == 1
    &&& kernel.len() <= MAX_TAPS
    &&& bounded(kernel, MAX_TAP as int)
}

/// Filters one line of a flat field at `pos`.  The line starts at index
/// `base` and its samples lie `stride` apart.
fn line_value(
    field: &[i64],
    base: usize,
    stride: usize,
    n: usize,
    pos: usize,
    kernel: &[i64],
    Ghost(line): Ghost<Seq<int>>,
    Ghost(limit): Ghost<int>,
) -> (v: i64)
    requires
        pos < n,
        base + (n - 1) * stride < field.len(),
        line.len() == n,
        forall|p: int| 0 <= p < n ==> #[trigger] line[p] == field@[base + p * stride],
        usable_kernel(kernel@),
        bounded(field@, limit),
        0 <= limit,
        127 * (limit * 4096) <= i64::MAX,
    ensures
        v == filtered(line, pos as int, ints(kernel@)),
        -(kernel.len() * (limit * 4096)) <= v <= kernel.len() * (limit * 4096),
{
    let taps: usize = kernel.len();
    let off: usize = taps / 2;
    let ghost unit = limit * 4096;
    let mut v: i64 = 0;
    let mut k: usize = 0;
    while k < taps
        invariant
            k <= taps,
            taps == kernel.len(),
            off == taps / 2,
            pos < n,
            base + (n - 1) * stride < field.len(),
            line.len() == n,
            forall|p: int| 0 <= p < n ==> #[trigger] line[p] == field@[base + p * stride],
            usable_kernel(kernel@),
            bounded(field@, limit),
            0 <= limit,
            unit == limit * 4096,
            127 * unit <= i64::MAX,
            v == line_sum(line, pos as int, ints(kernel@), k as nat),
            -(k * unit) <= v <= k * unit,
        decreases taps - k,
    {
        let at: Option<usize> = if k < off {
            let back: usize = off - k;
            if back <= pos {
                Some(pos - back)
            } else {
                None
            }
        } else {
            let ahead: usize = k - off;
            if ahead < n - pos {
                Some(pos + ahead)
            } else {
                None
            }
        };
        proof {
            assert((k + 1) * unit == k * unit + unit && (k + 1) * unit <= 127 * unit && 0 <= unit)
                by (nonlinear_arith)
                requires
                    0 <= k < 127,
                    unit == limit * 4096,
                    0 <= limit,
            ;
            assert(ints(kernel@)[k as int] == kernel[k as int]);
            assert(ints(kernel@).len() == taps);
        }
        let term: i64 = match at {
            Some(a) => {
                assert(0 <= a * stride <= (n - 1) * stride) by (nonlinear_arith)
                    requires
                        0 <= a <= n - 1,
                        0 <= stride,
                ;
                let sample: i64 = field[base + a * stride];
                let weight: i64 = kernel[k];
                assert(line[a as int] == sample);
                assert(-unit <= sample * weight <= unit) by (nonlinear_arith)
                    requires
                        -limit <= sample <= limit,
                        -4096 <= weight <= 4096,
                        unit == limit * 4096,
                ;
                sample * weight
            },
            None => {
                assert(0 <= pos * stride <= (n - 1) * stride) by (nonlinear_arith)
                    requires
                        0 <= pos <= n - 1,
                        0 <= stride,
                ;
                let sample: i64 = field[base + pos * stride];
                assert(line[pos as int] == sample);
                assert(limit <= unit) by (nonlinear_arith)
                    requires
                        unit == limit * 4096,
                        0 <= limit,
                ;
                sample
            },
        };
        assert(term == tap(line, pos as int, ints(kernel@), k as int));
        v = v + term;
        k = k + 1;
    }
    v
}

/// The cell at column `x`, row `y` of a grid `width` wide sits at index
/// `x + y * width`, and that index names no other cell.
pub proof fn lemma_cell_index(width: int, x: int, y: int)
    requires
        0 <= x < width,
        0 <= y,
    ensures
        (x + y * width) % width == x,
        (x + y * width) / width == y,
        0 <= y * width <= x + y * width,
{
    vstd::arithmetic::div_mod::lemma_fundamental_div_mod_converse(x + y * width, width, y, x);
    assert(0 <= y * width) by (nonlinear_arith)
        requires
            0 <= y,
            0 <= width,
    ;
}

/// Every cell of a grid has an index below the grid's area.
pub proof fn lemma_cell_in_grid(width: int, height: int, x: int, y: int)
    requires
        0 <= x < width,
        0 <= y < height,
    ensures
        0 <= x + y * width < width * height,
        x + y * width <= x + (height - 1) * width,
        y * width + (width - 1) < width * height,
{
    assert(0 <= y * width <= (height - 1) * width && (height - 1) * width + width == width
        * height) by (nonlinear_arith)
        requires
            0 <= y <= height - 1,
            0 <= width,
    ;
}

/// Whether every element has magnitude at most `limit`.
pub fn within(s: &[i64], limit: i64) -> (ok: bool)
    requires
        0 <= limit,
    ensures
        ok == bounded(s@, limit as int),
{
    let mut i: usize = 0;
    while i < s.len()
        invariant
            i <= s.len(),
            0 <= limit,
            forall|j: int| 0 <= j < i ==> -limit <= #[trigger] s@[j] <= limit,
        decreases s.len() - i,
    {
        if s[i] < -limit || s[i] > limit {
            return false;
        }
        i = i + 1;
    }
    true
}

/// Whether `kernel` has odd length within `MAX_TAPS` and taps within
/// `MAX_TAP`.
pub fn kernel_usable(kernel: &[i64]) -> (ok: bool)
    ensures
        ok == usable_kernel(kernel@),
{
    kernel.len() % 2 == 1 && kernel.len() <= MAX_TAPS && within(kernel, MAX_TAP)
}

/// Convolves a field with `x_kernel` along its rows and then with `y_kernel`
/// along its columns.  A tap that falls off the field contributes the centre
/// sample of its line, unweighted.
pub fn convolute(
    image1: &[i64],
    width: usize,
    height: usize,
    x_kernel: &[i64],
    y_kernel: &[i64],
) -> (out: Vec<i64>)
    requires
        width > 0,
        height > 0,
        image1.len() == width * height,
        usable_kernel(x_kernel@),
        usable_kernel(y_kernel@),
        bounded(image1@, MAX_SAMPLE as int),
    ensures
        out.len() == width * height,
        forall|x: int, y: int|
            0 <= x < width && 0 <= y < height ==> out[x + y * width] == #[trigger] gradient_at(
                ints(image1@),
                width as nat,
                height as nat,
                ints(x_kernel@),
                ints(y_kernel@),
                x,
                y,
            ),
{
    let ghost field = ints(image1@);
    let ghost xk = ints(x_kernel@);
    let ghost yk = ints(y_kernel@);
    let area: usize = image1.len();
    let mut intermediate: Vec<i64> = Vec::with_capacity(area);
    let mut y: usize = 0;
    while y < height
        invariant
            y <= height,
            width > 0,
            height > 0,
            area == width * height,
            image1.len() == area,
            field == ints(image1@),
            xk == ints(x_kernel@),
            usable_kernel(x_kernel@),
            bounded(image1@, MAX_SAMPLE as int),
            intermediate.len() == y * width,
            bounded(intermediate@, 8727373545472),
            forall|j: int|
                0 <= j < intermediate.len() ==> #[trigger] intermediate[j] == row_value(
                    field,
                    width as nat,
                    xk,
                    j % (width as int),
                    j / (width as int),
                ),
        decreases height - y,
    {
        proof {
            lemma_cell_in_grid(width as int, height as int, 0, y as int);
        }
        let base: usize = y * width;
        let ghost line = row_of(field, width as nat, y as int);
        let mut x: usize = 0;
        while x < width
            invariant
                x <= width,
                y < height,
                width > 0,
                area == width * height,
                image1.len() == area,
                field == ints(image1@),
                xk == ints(x_kernel@),
                usable_kernel(x_kernel@),
                bounded(image1@, MAX_SAMPLE as int),
                base == y * width,
                base + (width - 1) < area,
                line == row_of(field, width as nat, y as int),
                intermediate.len() == base + x,
                bounded(intermediate@, 8727373545472),
                forall|j: int|
                    0 <= j < intermediate.len() ==> #[trigger] intermediate[j] == row_value(
                        field,
                        width as nat,
                        xk,
                        j % (width as int),
                        j / (width as int),
                    ),
            decreases width - x,
        {
            proof {
                assert forall|p: int| 0 <= p < width implies #[trigger] line[p] == image1@[base + p
                    * 1] by {
                    assert(ints(image1@)[p + y * width] == image1@[p + y * width]);
                }
                lemma_cell_index(width as int, x as int, y as int);
                assert(127 * (16777216int * 4096) <= i64::MAX);
            }
            let v: i64 = line_value(
                image1,
                base,
                1,
                width,
                x,
                x_kernel,
                Ghost(line),
                Ghost(16777216int),
            );
            proof {
                assert(x_kernel.len() * (16777216int * 4096) <= 8727373545472) by (nonlinear_arith)
                    requires
                        x_kernel.len() <= 127,
                ;
            }
            intermediate.push(v);
            x = x + 1;
        }
        y = y + 1;
        assert(intermediate.len() == y * width) by (nonlinear_arith)
            requires
                intermediate.len() == base + width,
                base == (y - 1) * width,
        ;
    }
    assert(intermediate.len() == area) by (nonlinear_arith)
        requires
            intermediate.len() == y * width,
            y == height,
            area == width * height,
    ;
    let mut out: Vec<i64> = Vec::with_capacity(area);
    let mut y: usize = 0;
    while y < height
        invariant
            y <= height,
            width > 0,
            height > 0,
            area == width * height,
            intermediate.len() == area,
            field == ints(image1@),
            xk == ints(x_kernel@),
            yk == ints(y_kernel@),
            usable_kernel(y_kernel@),
            bounded(intermediate@, 8727373545472),
            forall|j: int|
                0 <= j < intermediate.len() ==> #[trigger] intermediate[j] == row_value(
                    field,
                    width as nat,
                    xk,
                    j % (width as int),
                    j / (width as int),
                ),
            out.len() == y * width,
            forall|j: int|
                0 <= j < out.len() ==> #[trigger] out[j] == gradient_at(
                    field,
                    width as nat,
                    height as nat,
                    xk,
                    yk,
                    j % (width as int),
                    j / (width as int),
                ),
        decreases height - y,
    {
        proof {
            lemma_cell_in_grid(width as int, height as int, 0, y as int);
        }
        let ghost base = y * width;
        let mut x: usize = 0;
        while x < width
            invariant
                x <= width,
                y < height,
                width > 0,
                height > 0,
                area == width * height,
                intermediate.len() == area,
                field == ints(image1@),
                xk == ints(x_kernel@),
                yk == ints(y_kernel@),
                usable_kernel(y_kernel@),
                bounded(intermediate@, 8727373545472),
                forall|j: int|
                    0 <= j < intermediate.len() ==> #[trigger] intermediate[j] == row_value(
                        field,
                        width as nat,
                        xk,
                        j % (width as int),
                        j / (width as int),
                    ),
                base == y * width,
                base + (width - 1) < area,
                out.len() == base + x,
                forall|j: int|
                    0 <= j < out.len() ==> #[trigger] out[j] == gradient_at(
                        field,
                        width as nat,
                        height as nat,
                        xk,
                        yk,
                        j % (width as int),
                        j / (width as int),
                    ),
            decreases width - x,
        {
            let ghost line = column_of(field, width as nat, height as nat, xk, x as int);
            proof {
                assert forall|q: int| 0 <= q < height implies #[trigger] line[q] == intermediate@[x
                    + q * width] by {
                    lemma_cell_index(width as int, x as int, q);
                    lemma_cell_in_grid(width as int, height as int, x as int, q);
                }
                lemma_cell_in_grid(width as int, height as int, x as int, height - 1);
                lemma_cell_index(width as int, x as int, y as int);
                assert(127 * (8727373545472int * 4096) <= i64::MAX);
            }
            let v: i64 = line_value(
                intermediate.as_slice(),
                x,
                width,
                height,
                y,
                y_kernel,
                Ghost(line),
                Ghost(8727373545472int),
            );
            out.push(v);
            x = x + 1;
        }
        y = y + 1;
        assert(out.len() == y * width) by (nonlinear_arith)
            requires
                out.len() == base + width,
                base == (y - 1) * width,
        ;
    }
    proof {
        assert forall|x: int, y: int| 0 <= x < width && 0 <= y < height implies out[x + y * width]
            == #[trigger] gradient_at(field, width as nat, height as nat, xk, yk, x, y) by {
            lemma_cell_index(width as int, x, y);
            lemma_cell_in_grid(width as int, height as int, x, y);
        }
    }
    out
}

/// What `gradient` refuses: an empty field, a field whose length is not
/// `width * height`, a kernel of even length or one beyond the limits of
/// `convolute`, or a sample beyond `MAX_SAMPLE`.
pub open spec fn gradient_input_ok(
    field: Seq<i64>,
    width: nat,
    height: nat,
    x_kernel: Seq<i64>,
    y_kernel: Seq<i64>,
) -> bool {
    &&& width > 0
    &&& height > 0
    &&& field.len() == width * height
    &&& usable_kernel(x_kernel)
    &&& usable_kernel(y_kernel)
    &&& bounded(field, MAX_SAMPLE as int)
}

/// A kernel of even length is refused, whatever the field and the other
/// kernel are.
pub proof fn lemma_even_kernel_is_refused(
    field: Seq<i64>,
    width: nat,
    height: nat,
    kernel: Seq<i64>,
    other: Seq<i64>,
)
    requires
        kernel.len() % 2 == 0,
    ensures
        !gradient_input_ok(field, width, height, kernel, other),
        !gradient_input_ok(field, width, height, other, kernel),
{
}

/// The separable gradient of a field, or `InvalidInput` where the input is
/// unusable.
pub fn gradient(
    field: &[i64],
    width: usize,
    height: usize,
    x_kernel: &[i64],
    y_kernel: &[i64],
) -> (res: Result<Vec<i64>, InvalidInput>)
    ensures
        res is Ok <==> gradient_input_ok(
            field@,
            width as nat,
            height as nat,
            x_kernel@,
            y_kernel@,
        ),
        res matches Ok(out) ==> {
            &&& out.len() == width * height
            &&& forall|x: int, y: int|
                0 <= x < width && 0 <= y < height ==> out[x + y * width] == #[trigger] gradient_at(
                    ints(field@),
                    width as nat,
                    height as nat,
                    ints(x_kernel@),
                    ints(y_kernel@),
                    x,
                    y,
                )
        },
{
    let len: usize = field.len();
    if width == 0 || height == 0 {
        return Err(InvalidInput);
    }
    match width.checked_mul(height) {
        Some(area) => {
            if len != area {
                return Err(InvalidInput);
            }
        },
        None => {
            return Err(InvalidInput);
        },
    }
    if !kernel_usable(x_kernel) || !kernel_usable(y_kernel) || !within(field, MAX_SAMPLE) {
        return Err(InvalidInput);
    }
    Ok(convolute(field, width, height, x_kernel, y_kernel))
}

/// A filtered line is bounded by the number of taps times the largest
/// sample times the largest tap.
pub proof fn lemma_line_sum_bound(
    line: Seq<int>,
    pos: int,
    kernel: Seq<int>,
    upto: nat,
    limit: int,
    weight: int,
)
    requires
        0 <= pos < line.len(),
        upto <= kernel.len(),
        limit >= 0,
        weight >= 1,
        forall|p: int| 0 <= p < line.len() ==> -limit <= #[trigger] line[p] <= limit,
        forall|k: int| 0 <= k < kernel.len() ==> -weight <= #[trigger] kernel[k] <= weight,
    ensures
        -(upto * (limit * weight)) <= line_sum(line, pos, kernel, upto) <= upto * (limit * weight),
    decreases upto,
{
    if upto > 0 {
        lemma_line_sum_bound(line, pos, kernel, (upto - 1) as nat, limit, weight);
        let k = upto - 1;
        let at = pos - kernel.len() / 2 + k;
        let unit = limit * weight;
        if 0 <= at < line.len() {
            let a = line[at];
            let b = kernel[k];
            assert(-unit <= a * b <= unit) by (nonlinear_arith)
                requires
                    -limit <= a <= limit,
                    -weight <= b <= weight,
                    unit == limit * weight,
            ;
        } else {
            assert(limit <= unit) by (nonlinear_arith)
                requires
                    unit == limit * weight,
                    limit >= 0,
                    weight >= 1,
            ;
        }
        assert(upto * unit == (upto - 1) * unit + unit) by (nonlinear_arith);
    }
}

/// The convolution at a cell is bounded by the product of the two kernels'
/// lengths and largest taps and the largest sample.
pub proof fn lemma_gradient_bound(
    field: Seq<int>,
    width: nat,
    height: nat,
    x_kernel: Seq<int>,
    y_kernel: Seq<int>,
    x: int,
    y: int,
    limit: int,
    x_weight: int,
    y_weight: int,
)
    requires
        0 <= x < width,
        0 <= y < height,
        field.len() == width * height,
        limit >= 0,
        x_weight >= 1,
        y_weight >= 1,
        forall|i: int| 0 <= i < field.len() ==> -limit <= #[trigger] field[i] <= limit,
        forall|k: int| 0 <= k < x_kernel.len() ==> -x_weight <= #[trigger] x_kernel[k] <= x_weight,
        forall|k: int| 0 <= k < y_kernel.len() ==> -y_weight <= #[trigger] y_kernel[k] <= y_weight,
    ensures
        -(y_kernel.len() * ((x_kernel.len() * (limit * x_weight)) * y_weight)) <= gradient_at(
            field,
            width,
            height,
            x_kernel,
            y_kernel,
            x,
            y,
        ) <= y_kernel.len() * ((x_kernel.len() * (limit * x_weight)) * y_weight),
{
    let column = column_of(field, width, height, x_kernel, x);
    let inner = x_kernel.len() * (limit * x_weight);
    assert(0 <= inner) by (nonlinear_arith)
        requires
            inner == x_kernel.len() * (limit * x_weight),
            limit >= 0,
            x_weight >= 1,
    ;
    assert forall|q: int| 0 <= q < column.len() implies -inner <= #[trigger] column[q] <= inner by {
        let row = row_of(field, width, q);
        assert forall|p: int| 0 <= p < row.len() implies -limit <= #[trigger] row[p] <= limit by {
            lemma_cell_in_grid(width as int, height as int, p, q);
        }
        lemma_line_sum_bound(row, x, x_kernel, x_kernel.len(), limit, x_weight);
    }
    lemma_line_sum_bound(column, y, y_kernel, y_kernel.len(), inner, y_weight);
}

} // verus!
