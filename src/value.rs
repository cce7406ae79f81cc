use vstd::prelude::*;
use vstd::arithmetic::div_mod::{lemma_div_is_ordered, lemma_div_multiples_vanish, lemma_fundamental_div_mod_converse};
use crate::buffer::{PixelBuffer, Color};
use crate::transform::{gray, is_gray, scale_noise, scaled, saturating_sum};
use crate::pixelwise::from_gray_rows;
use crate::error::{NoiseError, check_area, fits};
use crate::random::random_u8;

verus! {

/// The line through `(x1, y1)` and `(x2, y2)` at `x`, rounded down; `y1` when
/// `x1 == x2`.
pub open spec fn lerp(x1: int, y1: int, x2: int, y2: int, x: int) -> int {
    if x1 == x2 {
        y1
    } else {
        y1 + ((x - x1) * (y2 - y1)) / (x2 - x1)
    }
}

/// The coordinate of control point `i` of `points` spread over `len` pixels:
/// `i * (len - 1) / (points - 1)`, rounded down.
pub open spec fn grid_pos(i: int, len: int, points: int) -> int {
    i * (len - 1) / (points - 1)
}

/// A control grid: at least two rows of at least two control values, every
/// row of the same length.
pub open spec fn valid_grid(g: Seq<Vec<u8>>) -> bool {
    &&& 2 <= g.len() <= u32::MAX
    &&& 2 <= g[0]@.len() <= u32::MAX
    &&& forall|j: int| 0 <= j < g.len() ==> (#[trigger] g[j])@.len() == g[0]@.len()
}

/// The span of control points `i`, `i + 1` that holds `x`, for `x` below
/// the last control point: the span `grid_pos(i) <= x < grid_pos(i + 1)`.
/// Spans of coinciding control points are empty and never chosen.
pub open spec fn span_at(len: int, points: int, x: int) -> int {
    choose|i: int| #![trigger grid_pos(i, len, points)] 0 <= i < points - 1 && grid_pos(i, len, points) <= x < grid_pos(i + 1, len, points)
}

/// Control values `vals` spread over `len` pixels and interpolated: within
/// each span the line between its two control values, and the last
/// control value on the last pixel.
pub open spec fn line_value(vals: Seq<u8>, len: int, x: int) -> int {
    let p = vals.len() as int;
    if x == len - 1 {
        vals[p - 1] as int
    } else {
        let i = span_at(len, p, x);
        lerp(grid_pos(i, len, p), vals[i] as int, grid_pos(i + 1, len, p), vals[i + 1] as int, x)
    }
}

/// The value-noise field of grid `g` at `(x, y)`: the control rows are
/// interpolated along x, then, within each span of control rows, along y.
pub open spec fn value_at(g: Seq<Vec<u8>>, width: int, height: int, x: int, y: int) -> int {
    let pt = g.len() as int;
    if y == height - 1 {
        line_value(g[pt - 1]@, width, x)
    } else {
        let j = span_at(height, pt, y);
        lerp(
            grid_pos(j, height, pt),
            line_value(g[j]@, width, x),
            grid_pos(j + 1, height, pt),
            line_value(g[j + 1]@, width, x),
            y,
        )
    }
}

/// `b` is the value-noise field of grid `g`.
pub open spec fn is_value_field(b: PixelBuffer, g: Seq<Vec<u8>>, width: int, height: int) -> bool {
    &&& b.wf()
    &&& b.w() == width
    &&& b.h() == height
    &&& forall|x: int, y: int| 0 <= x < width && 0 <= y < height ==>
        #[trigger] b.at(x, y) == gray(value_at(g, width, height, x, y) as u8)
}

pub(crate) proof fn lemma_lerp_ends(x1: int, y1: int, x2: int, y2: int)
    requires
        x1 < x2,
    ensures
        lerp(x1, y1, x2, y2, x1) == y1,
        lerp(x1, y1, x2, y2, x2) == y2,
{
    assert(0 * (y2 - y1) == 0);
    lemma_div_multiples_vanish(y2 - y1, x2 - x1);
}

proof fn lemma_lerp_range(x1: int, y1: int, x2: int, y2: int, x: int)
    requires
        x1 < x2,
        x1 <= x <= x2,
        0 <= y1 <= 255,
        0 <= y2 <= 255,
    ensures
        0 <= lerp(x1, y1, x2, y2, x) <= 255,
{
    let d = x2 - x1;
    let t = x - x1;
    let k = y2 - y1;
    lemma_div_multiples_vanish(k, d);
    lemma_div_multiples_vanish(0, d);
    if k >= 0 {
        assert(0 <= t * k <= d * k) by (nonlinear_arith)
            requires 0 <= t <= d, k >= 0;
        lemma_div_is_ordered(0, t * k, d);
        lemma_div_is_ordered(t * k, d * k, d);
    } else {
        assert(d * k <= t * k <= 0) by (nonlinear_arith)
            requires 0 <= t <= d, k < 0;
        lemma_div_is_ordered(d * k, t * k, d);
        lemma_div_is_ordered(t * k, 0, d);
    }
}

pub(crate) proof fn lemma_grid_pos(len: int, points: int)
    requires
        2 <= points,
        1 <= len,
    ensures
        grid_pos(0, len, points) == 0,
        grid_pos(points - 1, len, points) == len - 1,
        forall|a: int, b: int| 0 <= a <= b ==> 0 <= #[trigger] grid_pos(a, len, points) <= #[trigger] grid_pos(b, len, points),
{
    lemma_div_multiples_vanish(0, points - 1);
    lemma_div_multiples_vanish(len - 1, points - 1);
    assert((points - 1) * (len - 1) == (len - 1) * (points - 1)) by (nonlinear_arith);
    assert forall|a: int, b: int| 0 <= a <= b implies 0 <= #[trigger] grid_pos(a, len, points) <= #[trigger] grid_pos(b, len, points) by {
        assert(0 <= a * (len - 1) <= b * (len - 1)) by (nonlinear_arith)
            requires 0 <= a <= b, len >= 1;
        lemma_div_is_ordered(0, a * (len - 1), points - 1);
        lemma_div_is_ordered(a * (len - 1), b * (len - 1), points - 1);
        lemma_div_multiples_vanish(0, points - 1);
    }
}

/// A coordinate lies in one span only.
pub(crate) proof fn lemma_span_unique(len: int, points: int, i: int, x: int)
    requires
        2 <= points,
        1 <= len,
        0 <= i < points - 1,
        grid_pos(i, len, points) <= x < grid_pos(i + 1, len, points),
    ensures
        span_at(len, points, x) == i,
{
    lemma_grid_pos(len, points);
    let k = span_at(len, points, x);
    assert(0 <= k < points - 1 && grid_pos(k, len, points) <= x < grid_pos(k + 1, len, points));
    if k < i {
        assert(grid_pos(k + 1, len, points) <= grid_pos(i, len, points));
    } else if k > i {
        assert(grid_pos(i + 1, len, points) <= grid_pos(k, len, points));
    }
}

/// `lerp` on control values, computed without leaving the integers.
fn lerp_u8(x1: u32, y1: u8, x2: u32, y2: u8, x: u32) -> (r: u8)
    requires
        x1 < x2,
        x1 <= x <= x2,
    ensures
        r == lerp(x1 as int, y1 as int, x2 as int, y2 as int, x as int),
{
    proof { lemma_lerp_range(x1 as int, y1 as int, x2 as int, y2 as int, x as int); }
    let d: u64 = (x2 - x1) as u64;
    let t: u64 = (x - x1) as u64;
    if y2 >= y1 {
        let k: u64 = (y2 - y1) as u64;
        assert(t * k <= 0xffff_ffff * 255) by (nonlinear_arith)
            requires t <= 0xffff_ffff, k <= 255;
        let q = (t * k) / d;
        (y1 as u64 + q) as u8
    } else {
        let k: u64 = (y1 - y2) as u64;
        assert(t * k <= 0xffff_ffff * 255) by (nonlinear_arith)
            requires t <= 0xffff_ffff, k <= 255;
        let q = (t * k + d - 1) / d;
        proof {
            let a = (t * k) as int;
            let di = d as int;
            let qq = (a + di - 1) / di;
            let rr = (a + di - 1) % di;
            vstd::arithmetic::div_mod::lemma_fundamental_div_mod(a + di - 1, di);
            vstd::arithmetic::div_mod::lemma_mod_bound(a + di - 1, di);
            assert(-a == -qq * di + (di - 1 - rr)) by (nonlinear_arith)
                requires a + di - 1 == di * qq + rr;
            lemma_fundamental_div_mod_converse(-a, di, -qq, di - 1 - rr);
            assert((x as int - x1 as int) * (y2 as int - y1 as int) == -a) by (nonlinear_arith)
                requires a == t * k, t == x - x1, k == y1 - y2;
        }
        (y1 as u64 - q) as u8
    }
}

/// The coordinates of `points` control points spread over `len` pixels.
fn grid_positions(len: u32, points: usize) -> (r: Vec<u32>)
    requires
        2 <= points <= u32::MAX,
        1 <= len,
    ensures
        r@.len() == points,
        forall|i: int| 0 <= i < points ==> #[trigger] r@[i] == grid_pos(i, len as int, points as int),
{
    proof { lemma_grid_pos(len as int, points as int); }
    let mut r: Vec<u32> = Vec::new();
    let mut i: usize = 0;
    while i < points
        invariant
            2 <= points <= u32::MAX,
            1 <= len,
            i <= points,
            r@.len() == i,
            forall|k: int| 0 <= k < i ==> #[trigger] r@[k] == grid_pos(k, len as int, points as int),
            forall|a: int, b: int| 0 <= a <= b ==> 0 <= #[trigger] grid_pos(a, len as int, points as int) <= #[trigger] grid_pos(b, len as int, points as int),
            grid_pos(points - 1, len as int, points as int) == len - 1,
        decreases points - i,
    {
        assert(i * (len - 1) <= 0xffff_ffff * 0xffff_ffff) by (nonlinear_arith)
            requires i <= 0xffff_ffff, len <= 0xffff_ffff, len >= 1;
        let p: u64 = (i as u64 * (len as u64 - 1)) / (points as u64 - 1);
        assert(p <= len - 1) by {
            assert(grid_pos(i as int, len as int, points as int) <= grid_pos(points - 1, len as int, points as int));
        }
        r.push(p as u32);
        i = i + 1;
    }
    r
}

/// One control row interpolated along x over `width` pixels.
fn interpolate_row(vals: &Vec<u8>, xs: &Vec<u32>, width: u32) -> (r: Vec<u8>)
    requires
        2 <= vals@.len() <= u32::MAX,
        1 <= width,
        xs@.len() == vals@.len(),
        forall|i: int| 0 <= i < xs@.len() ==> #[trigger] xs@[i] == grid_pos(i, width as int, vals@.len() as int),
    ensures
        r@.len() == width,
        forall|x: int| 0 <= x < width ==> #[trigger] r@[x] == line_value(vals@, width as int, x),
{
    let pw = vals.len();
    proof { lemma_grid_pos(width as int, pw as int); }
    let mut r: Vec<u8> = Vec::new();
    let mut i: usize = 0;
    while i + 1 < pw
        invariant
            2 <= pw,
            1 <= width,
            pw == vals@.len(),
            xs@.len() == pw,
            forall|k: int| 0 <= k < pw ==> #[trigger] xs@[k] == grid_pos(k, width as int, pw as int),
            forall|a: int, b: int| 0 <= a <= b ==> 0 <= #[trigger] grid_pos(a, width as int, pw as int) <= #[trigger] grid_pos(b, width as int, pw as int),
            grid_pos(pw - 1, width as int, pw as int) == width - 1,
            i < pw,
            r@.len() == xs@[i as int],
            forall|z: int| 0 <= z < r@.len() ==> #[trigger] r@[z] == line_value(vals@, width as int, z),
        decreases pw - i,
    {
        let x1 = xs[i];
        let x2 = xs[i + 1];
        assert(grid_pos(i as int, width as int, pw as int) <= grid_pos(i + 1, width as int, pw as int));
        assert(grid_pos(i + 1, width as int, pw as int) <= grid_pos(pw - 1, width as int, pw as int));
        let mut x: u32 = x1;
        while x < x2
            invariant
                x1 == xs@[i as int],
                x2 == xs@[i + 1],
                x1 == grid_pos(i as int, width as int, pw as int),
                x2 == grid_pos(i + 1, width as int, pw as int),
                x2 <= width - 1,
                2 <= pw,
                1 <= width,
                i + 1 < pw,
                pw == vals@.len(),
                x1 <= x <= x2,
                r@.len() == x,
                forall|z: int| 0 <= z < r@.len() ==> #[trigger] r@[z] == line_value(vals@, width as int, z),
            decreases x2 - x,
        {
            let v = lerp_u8(x1, vals[i], x2, vals[i + 1], x);
            proof { lemma_span_unique(width as int, pw as int, i as int, x as int); }
            r.push(v);
            x = x + 1;
        }
        i = i + 1;
    }
    r.push(vals[pw - 1]);
    r
}

/// One row of the field at `y`, between the interpolated control rows `upper`
/// at `y1` and `lower` at `y2`.
fn interpolate_line(upper: &Vec<u8>, lower: &Vec<u8>, y1: u32, y2: u32, y: u32, width: u32) -> (line: Vec<u8>)
    requires
        y1 < y2,
        y1 <= y <= y2,
        upper@.len() == width,
        lower@.len() == width,
    ensures
        line@.len() == width,
        forall|i: int| 0 <= i < width ==>
            #[trigger] line@[i] == lerp(y1 as int, upper@[i] as int, y2 as int, lower@[i] as int, y as int),
{
    let mut line: Vec<u8> = Vec::new();
    let mut x: u32 = 0;
    while x < width
        invariant
            y1 < y2,
            y1 <= y <= y2,
            upper@.len() == width,
            lower@.len() == width,
            x <= width,
            line@.len() == x,
            forall|i: int| 0 <= i < x ==>
                #[trigger] line@[i] == lerp(y1 as int, upper@[i] as int, y2 as int, lower@[i] as int, y as int),
        decreases width - x,
    {
        line.push(lerp_u8(y1, upper[x as usize], y2, lower[x as usize], y));
        x = x + 1;
    }
    line
}

/// The value of the field at row `z`, column `x`, from the interpolated
/// control rows `rows`: along y within the span of control rows that holds
/// `z`, the last control row on the last pixel row.
pub open spec fn column_value(rows: Seq<Vec<u8>>, height: int, z: int, x: int) -> int {
    let pt = rows.len() as int;
    if z == height - 1 {
        rows[pt - 1]@[x] as int
    } else {
        let j = span_at(height, pt, z);
        lerp(grid_pos(j, height, pt), rows[j]@[x] as int, grid_pos(j + 1, height, pt), rows[j + 1]@[x] as int, z)
    }
}

/// The interpolated control rows `rows`, at the heights `ys`, interpolated
/// along y into a field of `height` rows.
fn interpolate_columns(rows: &Vec<Vec<u8>>, ys: &Vec<u32>, width: u32, height: u32) -> (field: Vec<Vec<u8>>)
    requires
        2 <= ys@.len() <= u32::MAX,
        1 <= height,
        rows@.len() == ys@.len(),
        forall|k: int| 0 <= k < rows@.len() ==> (#[trigger] rows@[k])@.len() == width,
        forall|i: int| 0 <= i < ys@.len() ==> #[trigger] ys@[i] == grid_pos(i, height as int, ys@.len() as int),
    ensures
        field@.len() == height,
        forall|y: int| 0 <= y < height ==> (#[trigger] field@[y])@.len() == width,
        forall|z: int| 0 <= z < height - 1 ==> 0 <= #[trigger] span_at(height as int, ys@.len() as int, z) < ys@.len() - 1,
        forall|z: int, x: int| 0 <= z < height && 0 <= x < width ==>
            #[trigger] field@[z]@[x] == column_value(rows@, height as int, z, x),
{
    let pt = ys.len();
    proof { lemma_grid_pos(height as int, pt as int); }
    let mut field: Vec<Vec<u8>> = Vec::new();
    let mut j: usize = 0;
    while j + 1 < pt
        invariant
            2 <= pt,
            1 <= height,
            ys@.len() == pt,
            rows@.len() == pt,
            forall|k: int| 0 <= k < pt ==> (#[trigger] rows@[k])@.len() == width,
            forall|k: int| 0 <= k < pt ==> #[trigger] ys@[k] == grid_pos(k, height as int, pt as int),
            forall|a: int, b: int| 0 <= a <= b ==> 0 <= #[trigger] grid_pos(a, height as int, pt as int) <= #[trigger] grid_pos(b, height as int, pt as int),
            grid_pos(pt - 1, height as int, pt as int) == height - 1,
            j < pt,
            field@.len() == ys@[j as int],
            forall|y: int| 0 <= y < field@.len() ==> (#[trigger] field@[y])@.len() == width,
            forall|z: int| 0 <= z < field@.len() ==> 0 <= #[trigger] span_at(height as int, pt as int, z) < pt - 1,
            forall|z: int, x: int| 0 <= z < field@.len() && 0 <= x < width ==>
                #[trigger] field@[z]@[x] == column_value(rows@, height as int, z, x),
        decreases pt - j,
    {
        let y1 = ys[j];
        let y2 = ys[j + 1];
        assert(grid_pos(j as int, height as int, pt as int) <= grid_pos(j + 1, height as int, pt as int));
        assert(grid_pos(j + 1, height as int, pt as int) <= grid_pos(pt - 1, height as int, pt as int));
        let upper = &rows[j];
        let lower = &rows[j + 1];
        let mut y: u32 = y1;
        while y < y2
            invariant
                y1 == grid_pos(j as int, height as int, pt as int),
                y2 == grid_pos(j + 1, height as int, pt as int),
                y2 <= height - 1,
                2 <= pt,
                1 <= height,
                j + 1 < pt,
                rows@.len() == pt,
                upper@ == rows@[j as int]@,
                lower@ == rows@[j + 1]@,
                upper@.len() == width,
                lower@.len() == width,
                y1 <= y <= y2,
                field@.len() == y,
                forall|z: int| 0 <= z < field@.len() ==> (#[trigger] field@[z])@.len() == width,
                forall|z: int| 0 <= z < field@.len() ==> 0 <= #[trigger] span_at(height as int, pt as int, z) < pt - 1,
                forall|z: int, x: int| 0 <= z < field@.len() && 0 <= x < width ==>
                    #[trigger] field@[z]@[x] == column_value(rows@, height as int, z, x),
            decreases y2 - y,
        {
            let line = interpolate_line(upper, lower, y1, y2, y, width);
            proof { lemma_span_unique(height as int, pt as int, j as int, y as int); }
            let ghost f0 = field@;
            field.push(line);
            assert forall|z: int, x: int| 0 <= z < field@.len() && 0 <= x < width implies
                #[trigger] field@[z]@[x] == column_value(rows@, height as int, z, x) by {
                if z < f0.len() {
                    assert(field@[z] == f0[z]);
                }
            }
            assert forall|z: int| 0 <= z < field@.len() implies 0 <= #[trigger] span_at(height as int, pt as int, z) < pt - 1 by {
                if z < f0.len() {
                    assert(field@[z] == f0[z]);
                }
            }
            y = y + 1;
        }
        j = j + 1;
    }
    let ghost f0 = field@;
    field.push(rows[pt - 1].clone());
    assert forall|z: int, x: int| 0 <= z < height && 0 <= x < width implies
        #[trigger] field@[z]@[x] == column_value(rows@, height as int, z, x) by {
        if z < f0.len() {
            assert(field@[z] == f0[z]);
        }
    }
    field
}

/// The value-noise field of control grid `grid`: each control row is
/// interpolated along x, then each column along y between control rows.
pub fn value_from_grid(width: u32, height: u32, grid: &Vec<Vec<u8>>) -> (r: PixelBuffer)
    requires
        1 <= width,
        1 <= height,
        valid_grid(grid@),
        fits(width as int, height as int),
    ensures
        is_value_field(r, grid@, width as int, height as int),
        is_gray(r),
{
    let pt = grid.len();
    let pw = grid[0].len();
    let xs = grid_positions(width, pw);
    let ys = grid_positions(height, pt);
    let mut rows: Vec<Vec<u8>> = Vec::new();
    let mut j: usize = 0;
    while j < pt
        invariant
            valid_grid(grid@),
            1 <= width,
            pt == grid@.len(),
            pw == grid@[0]@.len(),
            xs@.len() == pw,
            forall|i: int| 0 <= i < pw ==> #[trigger] xs@[i] == grid_pos(i, width as int, pw as int),
            j <= pt,
            rows@.len() == j,
            forall|k: int| 0 <= k < j ==> (#[trigger] rows@[k])@.len() == width,
            forall|k: int, x: int| 0 <= k < j && 0 <= x < width ==>
                #[trigger] rows@[k]@[x] == line_value(grid@[k]@, width as int, x),
        decreases pt - j,
    {
        assert(grid@[j as int]@.len() == pw);
        let row = interpolate_row(&grid[j], &xs, width);
        rows.push(row);
        j = j + 1;
    }
    let field = interpolate_columns(&rows, &ys, width, height);
    let r = from_gray_rows(&field, width, height);
    assert forall|x: int, y: int| 0 <= x < width && 0 <= y < height implies
        #[trigger] r.at(x, y) == gray(value_at(grid@, width as int, height as int, x, y) as u8) by {
        assert(r.at(x, y) == (field@[y]@[x], field@[y]@[x], field@[y]@[x]));
        assert(field@[y]@[x] == column_value(rows@, height as int, y, x));
        if y < height - 1 {
            let jj = span_at(height as int, pt as int, y);
            assert(0 <= jj < pt - 1);
            assert(rows@[jj]@[x] == line_value(grid@[jj]@, width as int, x));
            assert(rows@[jj + 1]@[x] == line_value(grid@[jj + 1]@, width as int, x));
        } else {
            assert(rows@[pt - 1]@[x] == line_value(grid@[pt - 1]@, width as int, x));
        }
    }
    r
}

/// Parameters under which `value` makes a field.
pub open spec fn value_config_ok(width: int, height: int, points_wide: int, points_tall: int) -> bool {
    &&& width >= 1
    &&& height >= 1
    &&& fits(width, height)
    &&& points_wide >= 2
    &&& points_tall >= 2
}

/// `b` is the value-noise field of some `points_wide` by `points_tall` grid of control values.
pub open spec fn is_value_noise(b: PixelBuffer, width: int, height: int, points_wide: int, points_tall: int) -> bool {
    exists|g: Seq<Vec<u8>>| {
        &&& #[trigger] valid_grid(g)
        &&& g.len() == points_tall
        &&& g[0]@.len() == points_wide
        &&& is_value_field(b, g, width, height)
    }
}

/// The error `value` gives for parameters it refuses.
pub open spec fn value_error(width: int, height: int) -> NoiseError {
    if width == 0 || height == 0 {
        NoiseError::ZeroArea
    } else if !fits(width, height) {
        NoiseError::TooLarge
    } else {
        NoiseError::TooFewPoints
    }
}

/// A `points_wide` by `points_tall` grid of random bytes.
fn random_grid(points_wide: u32, points_tall: u32) -> (grid: Vec<Vec<u8>>)
    requires
        points_wide >= 2,
        points_tall >= 2,
    ensures
        valid_grid(grid@),
        grid@.len() == points_tall,
        grid@[0]@.len() == points_wide,
{
    let mut grid: Vec<Vec<u8>> = Vec::new();
    let mut j: u32 = 0;
    while j < points_tall
        invariant
            j <= points_tall,
            grid@.len() == j,
            forall|k: int| 0 <= k < j ==> (#[trigger] grid@[k])@.len() == points_wide,
        decreases points_tall - j,
    {
        let mut row: Vec<u8> = Vec::new();
        let mut i: u32 = 0;
        while i < points_wide
            invariant
                i <= points_wide,
                row@.len() == i,
            decreases points_wide - i,
        {
            row.push(random_u8());
            i = i + 1;
        }
        grid.push(row);
        j = j + 1;
    }
    assert(grid@[0]@.len() == points_wide);
    grid
}

/// Value noise over a `width` by `height` buffer from a `points_wide` by
/// `points_tall` grid of random control values.
pub fn value(width: u32, height: u32, points_wide: u32, points_tall: u32) -> (r: Result<PixelBuffer, NoiseError>)
    ensures
        r matches Ok(_) <==> value_config_ok(width as int, height as int, points_wide as int, points_tall as int),
        r matches Err(e) ==> e == value_error(width as int, height as int),
        r matches Ok(b) ==> is_gray(b),
        r matches Ok(b) ==> is_value_noise(b, width as int, height as int, points_wide as int, points_tall as int),
{
    match check_area(width, height) {
        Err(e) => return Err(e),
        Ok(()) => {},
    }
    if points_wide < 2 || points_tall < 2 {
        return Err(NoiseError::TooFewPoints);
    }
    let grid = random_grid(points_wide, points_tall);
    let b = value_from_grid(width, height, &grid);
    assert(valid_grid(grid@));
    Ok(b)
}

/// The control points along an axis at octave `k`: `points * inc^k`.
pub open spec fn octave_points(points: int, inc: int, k: nat) -> int
    decreases k,
{
    if k == 0 {
        points
    } else {
        octave_points(points, inc, (k - 1) as nat) * inc
    }
}

/// The number of fields that `fractal_value` sums: `octaves`, and at least one.
pub open spec fn octave_count(octaves: u8) -> nat {
    if octaves == 0 { 1 } else { octaves as nat }
}

/// The divisor that scales octave `k` (from 1): 4, 8, 16, ..., doubling up to 2^20.
pub open spec fn octave_den(k: nat) -> u32
    decreases k,
{
    if k <= 1 {
        4
    } else {
        let d = octave_den((k - 1) as nat);
        if d <= 0x8_0000 { (d * 2) as u32 } else { d }
    }
}

/// The pixel at `(x, y)` of the sum of the value fields of the first `n`
/// grids: the base field, plus each later field `k` scaled by
/// `1 / octave_den(k)`, with saturation.
pub open spec fn fractal_pixel(grids: Seq<Vec<Vec<u8>>>, width: int, height: int, n: nat, x: int, y: int) -> Color
    decreases n,
{
    let layer = gray(value_at(grids[n - 1]@, width, height, x, y) as u8);
    if n <= 1 {
        layer
    } else {
        saturating_sum(
            fractal_pixel(grids, width, height, (n - 1) as nat, x, y),
            scaled(layer, 1, octave_den((n - 1) as nat)),
        )
    }
}

/// Fractal value noise from the control grids of its octaves: the field of
/// the first grid, plus the field of each later grid `k` scaled by
/// `1 / octave_den(k)` (1/4, 1/8, ...), added with saturation.
pub fn fractal_from_grids(width: u32, height: u32, grids: &Vec<Vec<Vec<u8>>>) -> (r: PixelBuffer)
    requires
        1 <= width,
        1 <= height,
        fits(width as int, height as int),
        grids@.len() >= 1,
        forall|k: int| 0 <= k < grids@.len() ==> valid_grid((#[trigger] grids@[k])@),
    ensures
        r.wf(),
        r.w() == width,
        r.h() == height,
        is_gray(r),
        forall|x: int, y: int| 0 <= x < width && 0 <= y < height ==>
            #[trigger] r.at(x, y) == fractal_pixel(grids@, width as int, height as int, grids@.len(), x, y),
{
    assert(valid_grid(grids@[0]@));
    let mut buffer = value_from_grid(width, height, &grids[0]);
    let mut den: u32 = 4;
    let mut k: usize = 1;
    while k < grids.len()
        invariant
            1 <= width,
            1 <= height,
            fits(width as int, height as int),
            forall|j: int| 0 <= j < grids@.len() ==> valid_grid((#[trigger] grids@[j])@),
            1 <= k <= grids@.len(),
            buffer.wf(),
            buffer.w() == width,
            buffer.h() == height,
            is_gray(buffer),
            1 <= den <= 0x10_0000,
            den == octave_den(k as nat),
            forall|x: int, y: int| 0 <= x < width && 0 <= y < height ==>
                #[trigger] buffer.at(x, y) == fractal_pixel(grids@, width as int, height as int, k as nat, x, y),
        decreases grids@.len() - k,
    {
        assert(valid_grid(grids@[k as int]@));
        let mut octave = value_from_grid(width, height, &grids[k]);
        scale_noise(&mut octave, 1, den);
        let ghost b0 = buffer;
        let ghost o = octave;
        crate::transform::add(&mut buffer, octave);
        assert forall|x: int, y: int| 0 <= x < width && 0 <= y < height implies
            (#[trigger] buffer.at(x, y)).0 == buffer.at(x, y).1 && buffer.at(x, y).1 == buffer.at(x, y).2 by {
            assert(b0.at(x, y).0 == b0.at(x, y).1 && b0.at(x, y).1 == b0.at(x, y).2);
            assert(o.at(x, y).0 == o.at(x, y).1 && o.at(x, y).1 == o.at(x, y).2);
        }
        if den <= 0x8_0000 {
            den = den * 2;
        }
        k = k + 1;
    }
    buffer
}

/// Parameters under which `fractal_value` makes a field: those of `value`,
/// a point count that grows (`inc >= 1`) when there is more than one octave,
/// and point counts that fit in `u32` for every octave.
pub open spec fn fractal_config_ok(width: int, height: int, points_wide: int, points_tall: int, inc: int, octaves: u8) -> bool {
    &&& value_config_ok(width, height, points_wide, points_tall)
    &&& (octave_count(octaves) >= 2 ==> inc >= 1)
    &&& forall|k: nat| k < octave_count(octaves) ==>
        #[trigger] octave_points(points_wide, inc, k) <= u32::MAX && octave_points(points_tall, inc, k) <= u32::MAX
}

/// The error `fractal_value` gives for parameters it refuses.
pub open spec fn fractal_error(width: int, height: int, points_wide: int, points_tall: int, inc: int, octaves: u8) -> NoiseError {
    if !value_config_ok(width, height, points_wide, points_tall) {
        value_error(width, height)
    } else if octave_count(octaves) >= 2 && inc == 0 {
        NoiseError::TooFewPoints
    } else {
        NoiseError::TooManyPoints
    }
}

proof fn lemma_octave_points_grow(points: int, inc: int, a: nat, b: nat)
    requires
        points >= 2,
        inc >= 1,
        a <= b,
    ensures
        2 <= octave_points(points, inc, a) <= octave_points(points, inc, b),
    decreases b,
{
    if b > 0 {
        let a2: nat = if a < b { a } else { (b - 1) as nat };
        lemma_octave_points_grow(points, inc, a2, (b - 1) as nat);
        let p = octave_points(points, inc, (b - 1) as nat);
        assert(p <= p * inc) by (nonlinear_arith)
            requires p >= 2, inc >= 1;
    }
}

/// Fractal value noise: a base field from a `points_wide` by `points_tall`
/// grid, plus `octaves - 1` further fields, each with `inc` times as many
/// control points along each axis as the one before, scaled by 1/4, 1/8, ...
/// and added with saturation. All parameters are checked before any buffer
/// is made.
pub fn fractal_value(width: u32, height: u32, points_wide: u32, points_tall: u32, inc: u32, octaves: u8) -> (r: Result<PixelBuffer, NoiseError>)
    ensures
        r matches Ok(_) <==> fractal_config_ok(width as int, height as int, points_wide as int, points_tall as int, inc as int, octaves),
        r matches Err(e) ==> e == fractal_error(width as int, height as int, points_wide as int, points_tall as int, inc as int, octaves),
        r matches Ok(b) ==> exists|grids: Seq<Vec<Vec<u8>>>| {
            &&& grids.len() == octave_count(octaves)
            &&& forall|k: int| 0 <= k < grids.len() ==> {
                &&& valid_grid(#[trigger] grids[k]@)
                &&& grids[k]@.len() == octave_points(points_tall as int, inc as int, k as nat)
                &&& grids[k]@[0]@.len() == octave_points(points_wide as int, inc as int, k as nat)
            }
            &&& fractal_from_grids_ensures(b, grids, width as int, height as int)
        },
{
    match check_area(width, height) {
        Err(e) => return Err(e),
        Ok(()) => {},
    }
    if points_wide < 2 || points_tall < 2 {
        return Err(NoiseError::TooFewPoints);
    }
    let count: u8 = if octaves == 0 { 1 } else { octaves };
    if count >= 2 && inc == 0 {
        return Err(NoiseError::TooFewPoints);
    }
    // every octave's point counts must fit before anything is drawn
    let mut pw: u32 = points_wide;
    let mut pt: u32 = points_tall;
    let mut k: u8 = 1;
    while k < count
        invariant
            count == octave_count(octaves),
            1 <= k <= count,
            count >= 2 ==> inc >= 1,
            value_config_ok(width as int, height as int, points_wide as int, points_tall as int),
            points_wide >= 2,
            points_tall >= 2,
            pw == octave_points(points_wide as int, inc as int, (k - 1) as nat),
            pt == octave_points(points_tall as int, inc as int, (k - 1) as nat),
            forall|j: nat| j < k ==> #[trigger] octave_points(points_wide as int, inc as int, j) <= u32::MAX
                && octave_points(points_tall as int, inc as int, j) <= u32::MAX,
        decreases count - k,
    {
        assert(pw as int * inc as int <= 0xffff_ffff * 0xffff_ffff && pt as int * inc as int <= 0xffff_ffff * 0xffff_ffff) by (nonlinear_arith)
            requires pw <= 0xffff_ffff, pt <= 0xffff_ffff, inc <= 0xffff_ffff;
        let wide = pw as u64 * inc as u64;
        let tall = pt as u64 * inc as u64;
        if wide > 0xffff_ffff || tall > 0xffff_ffff {
            proof {
                let kk = k as nat;
                assert(!(octave_points(points_wide as int, inc as int, kk) <= u32::MAX
                    && octave_points(points_tall as int, inc as int, kk) <= u32::MAX));
            }
            return Err(NoiseError::TooManyPoints);
        }
        pw = wide as u32;
        pt = tall as u32;
        k = k + 1;
    }
    // draw the grids of all octaves
    let mut grids: Vec<Vec<Vec<u8>>> = Vec::new();
    let mut pw: u32 = points_wide;
    let mut pt: u32 = points_tall;
    let mut k: u8 = 0;
    while k < count
        invariant
            count == octave_count(octaves),
            k <= count,
            count >= 2 ==> inc >= 1,
            value_config_ok(width as int, height as int, points_wide as int, points_tall as int),
            points_wide >= 2,
            points_tall >= 2,
            k < count ==> pw == octave_points(points_wide as int, inc as int, k as nat),
            k < count ==> pt == octave_points(points_tall as int, inc as int, k as nat),
            forall|j: nat| j < count ==> #[trigger] octave_points(points_wide as int, inc as int, j) <= u32::MAX
                && octave_points(points_tall as int, inc as int, j) <= u32::MAX,
            grids@.len() == k,
            forall|j: int| 0 <= j < k ==> {
                &&& valid_grid(#[trigger] grids@[j]@)
                &&& grids@[j]@.len() == octave_points(points_tall as int, inc as int, j as nat)
                &&& grids@[j]@[0]@.len() == octave_points(points_wide as int, inc as int, j as nat)
            },
        decreases count - k,
    {
        proof {
            if count >= 2 {
                lemma_octave_points_grow(points_wide as int, inc as int, 0, k as nat);
                lemma_octave_points_grow(points_tall as int, inc as int, 0, k as nat);
            }
        }
        let grid = random_grid(pw, pt);
        grids.push(grid);
        if k + 1 < count {
            let ghost kk = (k + 1) as nat;
            assert(octave_points(points_wide as int, inc as int, kk) <= u32::MAX
                && octave_points(points_tall as int, inc as int, kk) <= u32::MAX);
            pw = (pw as u64 * inc as u64) as u32;
            pt = (pt as u64 * inc as u64) as u32;
        }
        k = k + 1;
    }
    let b = fractal_from_grids(width, height, &grids);
    assert(fractal_from_grids_ensures(b, grids@, width as int, height as int));
    Ok(b)
}

/// What `fractal_from_grids` gives for `grids`.
pub open spec fn fractal_from_grids_ensures(b: PixelBuffer, grids: Seq<Vec<Vec<u8>>>, width: int, height: int) -> bool {
    &&& b.wf()
    &&& b.w() == width
    &&& b.h() == height
    &&& is_gray(b)
    &&& forall|x: int, y: int| 0 <= x < width && 0 <= y < height ==>
        #[trigger] b.at(x, y) == fractal_pixel(grids, width, height, grids.len(), x, y)
}

} // verus!
