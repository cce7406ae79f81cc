use vstd::prelude::*;
use crate::buffer::{PixelBuffer, rows_of, black, white};
use crate::transform::{inverted, normalized, red_range_of, gray};
use crate::classify::thresholded;
use crate::value::{fractal_from_grids_ensures, is_value_field, valid_grid, lerp, line_value, lemma_lerp_ends, lemma_span_unique, lemma_grid_pos};
use crate::voronoi::{is_voronoi_field, shade_of, dist2, min_dist2};
use crate::dla::{Dla, white_count, target_reached};

verus! {

/// Inverting twice gives back the field: if `b` is `a` inverted and `c` is `b`
/// inverted, `c` holds what `a` holds.
pub proof fn lemma_invert_twice(a: PixelBuffer, b: PixelBuffer, c: PixelBuffer)
    requires
        a.wf(),
        b.wf(),
        c.wf(),
        b.w() == a.w() && b.h() == a.h(),
        c.w() == a.w() && c.h() == a.h(),
        forall|x: int, y: int| 0 <= x < a.w() && 0 <= y < a.h() ==> #[trigger] b.at(x, y) == inverted(a.at(x, y)),
        forall|x: int, y: int| 0 <= x < a.w() && 0 <= y < a.h() ==> #[trigger] c.at(x, y) == inverted(b.at(x, y)),
    ensures
        rows_of(c) == rows_of(a),
{
    assert forall|y: int| 0 <= y < a.h() implies #[trigger] rows_of(c)[y] == rows_of(a)[y] by {
        assert forall|x: int| 0 <= x < a.w() implies #[trigger] rows_of(c)[y][x] == rows_of(a)[y][x] by {
            assert(c.at(x, y) == inverted(b.at(x, y)));
            assert(b.at(x, y) == inverted(a.at(x, y)));
        }
        assert(rows_of(c)[y] =~= rows_of(a)[y]);
    }
    assert(rows_of(c) =~= rows_of(a));
}

/// Thresholding without `preserve` gives a bilevel mask: every channel is 0 or 255.
pub proof fn lemma_threshold_bilevel(input: PixelBuffer, r: PixelBuffer, lower: u8, higher: u8)
    requires
        r.w() == input.w() && r.h() == input.h(),
        forall|x: int, y: int| 0 <= x < r.w() && 0 <= y < r.h() ==>
            #[trigger] r.at(x, y) == thresholded(input.at(x, y), lower, higher, false),
    ensures
        forall|x: int, y: int| 0 <= x < r.w() && 0 <= y < r.h() ==> {
            &&& (#[trigger] r.at(x, y)).0 == 0 || r.at(x, y).0 == 255
            &&& r.at(x, y).1 == 0 || r.at(x, y).1 == 255
            &&& r.at(x, y).2 == 0 || r.at(x, y).2 == 255
        },
{
}

/// After `normalize` of a field whose brightest red channel `hi` is above
/// zero, some pixel is pure white, so the brightest channel is exactly 255.
pub proof fn lemma_normalize_reaches_white(a: PixelBuffer, b: PixelBuffer, lo: u8, hi: u8)
    requires
        red_range_of(a, lo, hi),
        hi > 0,
        b.w() == a.w() && b.h() == a.h(),
        forall|x: int, y: int| 0 <= x < a.w() && 0 <= y < a.h() ==> #[trigger] b.at(x, y) == normalized(a.at(x, y), hi),
    ensures
        exists|x: int, y: int| 0 <= x < b.w() && 0 <= y < b.h() && #[trigger] b.at(x, y) == white(),
{
    let (x, y) = choose|x: int, y: int| 0 <= x < a.w() && 0 <= y < a.h() && (#[trigger] a.at(x, y)).0 == hi;
    vstd::arithmetic::div_mod::lemma_div_by_multiple(255, hi as int);
    assert(hi as int * 255 == 255 * hi as int);
    assert(b.at(x, y) == white());
}

/// With a two by two control grid, on a buffer at least two pixels wide and
/// tall, the value field is the bilinear interpolation of the four corner
/// values, over the whole buffer.
pub proof fn lemma_value_bilinear(b: PixelBuffer, g: Seq<Vec<u8>>, width: int, height: int)
    requires
        valid_grid(g),
        g.len() == 2,
        g[0]@.len() == 2,
        width >= 2,
        height >= 2,
        is_value_field(b, g, width, height),
    ensures
        forall|x: int, y: int| 0 <= x < width && 0 <= y < height ==> #[trigger] b.at(x, y) == gray(
            lerp(
                0,
                lerp(0, g[0]@[0] as int, width - 1, g[0]@[1] as int, x),
                height - 1,
                lerp(0, g[1]@[0] as int, width - 1, g[1]@[1] as int, x),
                y,
            ) as u8,
        ),
{
    lemma_grid_pos(width, 2);
    lemma_grid_pos(height, 2);
    assert forall|x: int, y: int| 0 <= x < width && 0 <= y < height implies #[trigger] b.at(x, y) == gray(
        lerp(
            0,
            lerp(0, g[0]@[0] as int, width - 1, g[0]@[1] as int, x),
            height - 1,
            lerp(0, g[1]@[0] as int, width - 1, g[1]@[1] as int, x),
            y,
        ) as u8,
    ) by {
        assert(g[1]@.len() == 2);
        assert forall|j: int| 0 <= j < 2 implies
            line_value(#[trigger] g[j]@, width, x) == lerp(0, g[j]@[0] as int, width - 1, g[j]@[1] as int, x) by {
            lemma_lerp_ends(0, g[j]@[0] as int, width - 1, g[j]@[1] as int);
            if x < width - 1 {
                lemma_span_unique(width, 2, 0, x);
            }
        }
        let top = line_value(g[0]@, width, x);
        let bot = line_value(g[1]@, width, x);
        lemma_lerp_ends(0, top, height - 1, bot);
        if y < height - 1 {
            lemma_span_unique(height, 2, 0, y);
        }
    }
}

/// With a single site, each pixel is its clamped distance to that site, and
/// the site itself is black.
pub proof fn lemma_voronoi_single_site(b: PixelBuffer, sites: Seq<(u32, u32)>, width: int, height: int)
    requires
        sites.len() == 1,
        sites[0].0 < width,
        sites[0].1 < height,
        is_voronoi_field(b, sites, width, height),
    ensures
        forall|x: int, y: int| 0 <= x < width && 0 <= y < height ==>
            shade_of((#[trigger] b.at(x, y)).0, dist2(sites[0], x, y)),
        b.at(sites[0].0 as int, sites[0].1 as int) == black(),
{
    assert forall|x: int, y: int| 0 <= x < width && 0 <= y < height implies
        shade_of((#[trigger] b.at(x, y)).0, dist2(sites[0], x, y)) by {
        assert(min_dist2(sites, x, y) == dist2(sites[0], x, y));
    }
    let (sx, sy) = (sites[0].0 as int, sites[0].1 as int);
    assert(min_dist2(sites, sx, sy) == 0);
    let v = b.at(sx, sy).0;
    assert(v == 0) by (nonlinear_arith)
        requires shade_of(v, 0);
}

/// When the aggregation has finished, the seed pixel is white and the number
/// of white pixels is the first count from one up that reaches `ratio`
/// percent of the area, or the whole area: it is within one pixel of the target.
pub proof fn lemma_dla_finished(s: Dla)
    requires
        s.wf(),
        s.done(),
    ensures
        s.buffer.at((s.width / 2) as int, (s.height / 2) as int) == white(),
        target_reached(white_count(rows_of(s.buffer)), s.ratio as int, s.width as int, s.height as int),
        white_count(rows_of(s.buffer)) == 1
            || !target_reached(white_count(rows_of(s.buffer)) - 1, s.ratio as int, s.width as int, s.height as int),
{
}

/// The fractal field depends on the drawn grids alone: two buffers that
/// `fractal_from_grids` makes from equal grids hold the same pixels.
pub proof fn lemma_fractal_deterministic(a: PixelBuffer, b: PixelBuffer, grids: Seq<Vec<Vec<u8>>>, width: int, height: int)
    requires
        fractal_from_grids_ensures(a, grids, width, height),
        fractal_from_grids_ensures(b, grids, width, height),
    ensures
        rows_of(a) == rows_of(b),
{
    assert forall|y: int| 0 <= y < height implies #[trigger] rows_of(a)[y] == rows_of(b)[y] by {
        assert forall|x: int| 0 <= x < width implies #[trigger] rows_of(a)[y][x] == rows_of(b)[y][x] by {
            assert(a.at(x, y) == b.at(x, y));
        }
        assert(rows_of(a)[y] =~= rows_of(b)[y]);
    }
    assert(rows_of(a) =~= rows_of(b));
}

} // verus!
