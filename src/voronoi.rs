use vstd::prelude::*;
use crate::buffer::PixelBuffer;
use crate::error::{NoiseError, check_area, fits};
use crate::pixelwise::from_gray_rows;
use crate::random::random_u32;

verus! {

/// The squared Euclidean distance from `(x, y)` to site `s`.
pub open spec fn dist2(s: (u32, u32), x: int, y: int) -> int {
    (x - s.0) * (x - s.0) + (y - s.1) * (y - s.1)
}

/// The squared distance from `(x, y)` to the nearest of `sites`.
pub open spec fn min_dist2(sites: Seq<(u32, u32)>, x: int, y: int) -> int
    decreases sites.len(),
{
    if sites.len() <= 1 {
        dist2(sites[0], x, y)
    } else {
        let rest = min_dist2(sites.drop_last(), x, y);
        let last = dist2(sites.last(), x, y);
        if last < rest { last } else { rest }
    }
}

/// `v` is the distance whose square is `d`, rounded down, or 255 where that
/// distance is 255 or more.
pub open spec fn shade_of(v: u8, d: int) -> bool {
    ||| (v == 255 && d >= 255 * 255)
    ||| (v < 255 && v * v <= d < (v + 1) * (v + 1))
}

/// `b` is the Voronoi field of `sites`: each pixel is the gray of its clamped
/// distance to the nearest site.
pub open spec fn is_voronoi_field(b: PixelBuffer, sites: Seq<(u32, u32)>, width: int, height: int) -> bool {
    &&& b.wf()
    &&& b.w() == width
    &&& b.h() == height
    &&& forall|x: int, y: int| 0 <= x < width && 0 <= y < height ==> {
        &&& (#[trigger] b.at(x, y)).0 == b.at(x, y).1
        &&& b.at(x, y).1 == b.at(x, y).2
        &&& shade_of(b.at(x, y).0, min_dist2(sites, x, y))
    }
}

fn site_dist2(s: (u32, u32), x: u32, y: u32) -> (r: u128)
    ensures
        r == dist2(s, x as int, y as int),
{
    let dx: u128 = if x >= s.0 { (x - s.0) as u128 } else { (s.0 - x) as u128 };
    let dy: u128 = if y >= s.1 { (y - s.1) as u128 } else { (s.1 - y) as u128 };
    assert(dx * dx <= 0xffff_ffff * 0xffff_ffff && dy * dy <= 0xffff_ffff * 0xffff_ffff) by (nonlinear_arith)
        requires dx <= 0xffff_ffff, dy <= 0xffff_ffff;
    assert(dx * dx == (x - s.0) * (x - s.0) && dy * dy == (y - s.1) * (y - s.1)) by (nonlinear_arith)
        requires dx == (if x >= s.0 { x - s.0 } else { s.0 - x }), dy == (if y >= s.1 { y - s.1 } else { s.1 - y });
    dx * dx + dy * dy
}

fn nearest_dist2(sites: &Vec<(u32, u32)>, x: u32, y: u32) -> (r: u128)
    requires
        sites@.len() >= 1,
    ensures
        r == min_dist2(sites@, x as int, y as int),
{
    let mut best = site_dist2(sites[0], x, y);
    let mut k: usize = 1;
    assert(sites@.take(1).len() == 1);
    while k < sites.len()
        invariant
            1 <= k <= sites@.len(),
            best == min_dist2(sites@.take(k as int), x as int, y as int),
        decreases sites@.len() - k,
    {
        let d = site_dist2(sites[k], x, y);
        assert(sites@.take(k + 1).drop_last() =~= sites@.take(k as int));
        if d < best {
            best = d;
        }
        k = k + 1;
    }
    assert(sites@.take(k as int) =~= sites@);
    best
}

/// The distance whose square is `d`, rounded down, or 255 where it is 255 or more.
fn shade(d: u128) -> (v: u8)
    ensures
        shade_of(v, d as int),
{
    let mut r: u32 = 0;
    while r < 255
        invariant
            r <= 255,
            r * r <= d,
        decreases 255 - r,
    {
        let n = r + 1;
        assert(n * n <= 256 * 256) by (nonlinear_arith)
            requires n <= 256;
        if (n * n) as u128 > d {
            return r as u8;
        }
        r = n;
    }
    r as u8
}

/// The Voronoi field of `sites` over a `width` by `height` buffer.
pub fn voronoi_from_sites(width: u32, height: u32, sites: &Vec<(u32, u32)>) -> (r: PixelBuffer)
    requires
        width >= 1,
        height >= 1,
        fits(width as int, height as int),
        sites@.len() >= 1,
    ensures
        is_voronoi_field(r, sites@, width as int, height as int),
{
    let mut field: Vec<Vec<u8>> = Vec::new();
    let mut y: u32 = 0;
    while y < height
        invariant
            sites@.len() >= 1,
            y <= height,
            field@.len() == y,
            forall|j: int| 0 <= j < y ==> (#[trigger] field@[j])@.len() == width,
            forall|j: int, i: int| 0 <= j < y && 0 <= i < width ==>
                shade_of(#[trigger] field@[j]@[i], min_dist2(sites@, i, j)),
        decreases height - y,
    {
        let mut line: Vec<u8> = Vec::new();
        let mut x: u32 = 0;
        while x < width
            invariant
                sites@.len() >= 1,
                x <= width,
                line@.len() == x,
                forall|i: int| 0 <= i < x ==> shade_of(#[trigger] line@[i], min_dist2(sites@, i, y as int)),
            decreases width - x,
        {
            let d = nearest_dist2(sites, x, y);
            line.push(shade(d));
            x = x + 1;
        }
        field.push(line);
        y = y + 1;
    }
    let r = from_gray_rows(&field, width, height);
    assert forall|x: int, y: int| 0 <= x < width && 0 <= y < height implies
        shade_of((#[trigger] r.at(x, y)).0, min_dist2(sites@, x, y)) by {
        assert(shade_of(field@[y]@[x], min_dist2(sites@, x, y)));
    }
    r
}

/// The error `voronoi` gives for parameters it refuses.
pub open spec fn voronoi_error(width: int, height: int, points: int) -> NoiseError {
    if width == 0 || height == 0 {
        NoiseError::ZeroArea
    } else if !fits(width, height) {
        NoiseError::TooLarge
    } else if points == 0 {
        NoiseError::TooFewPoints
    } else {
        NoiseError::TooManyPoints
    }
}

/// The site of cell `(ix, iy)`, the cells taken row by row.
pub open spec fn site_of(sites: Seq<(u32, u32)>, points: int, ix: int, iy: int) -> (u32, u32) {
    sites[iy * points + ix]
}

/// `points * points` sites, the one of cell `(ix, iy)` inside the
/// `width / points` by `height / points` rectangle at `(ix, iy)` of the cell grid.
pub open spec fn sites_placed(sites: Seq<(u32, u32)>, points: int, width: int, height: int) -> bool {
    let cw = width / points;
    let ch = height / points;
    &&& sites.len() == points * points
    &&& forall|ix: int, iy: int| 0 <= ix < points && 0 <= iy < points ==> {
        let s = #[trigger] site_of(sites, points, ix, iy);
        &&& ix * cw <= s.0 < ix * cw + cw
        &&& iy * ch <= s.1 < iy * ch + ch
    }
    &&& forall|k: int| 0 <= k < sites.len() ==> (#[trigger] sites[k]).0 < width && sites[k].1 < height
}

pub open spec fn voronoi_config_ok(width: int, height: int, points: int) -> bool {
    &&& width >= 1
    &&& height >= 1
    &&& fits(width, height)
    &&& 1 <= points <= width
    &&& points <= height
}

/// Voronoi noise: the buffer is cut into `points` by `points` cells, one site
/// is placed at random in each, and each pixel takes its clamped distance to
/// the nearest site.
pub fn voronoi(width: u32, height: u32, points: u32) -> (r: Result<PixelBuffer, NoiseError>)
    ensures
        r matches Ok(_) <==> voronoi_config_ok(width as int, height as int, points as int),
        r matches Err(e) ==> e == voronoi_error(width as int, height as int, points as int),
        r matches Ok(b) ==> exists|sites: Seq<(u32, u32)>|
            #[trigger] sites_placed(sites, points as int, width as int, height as int)
                && is_voronoi_field(b, sites, width as int, height as int),
{
    match check_area(width, height) {
        Err(e) => return Err(e),
        Ok(()) => {},
    }
    if points == 0 {
        return Err(NoiseError::TooFewPoints);
    }
    if points > width || points > height {
        return Err(NoiseError::TooManyPoints);
    }
    let cell_width = width / points;
    let cell_height = height / points;
    assert(cell_width >= 1 && cell_height >= 1) by {
        vstd::arithmetic::div_mod::lemma_div_is_ordered(points as int, width as int, points as int);
        vstd::arithmetic::div_mod::lemma_div_is_ordered(points as int, height as int, points as int);
        vstd::arithmetic::div_mod::lemma_div_by_self(points as int);
    }
    assert(points * cell_width <= width && points * cell_height <= height) by {
        vstd::arithmetic::div_mod::lemma_fundamental_div_mod(width as int, points as int);
        vstd::arithmetic::div_mod::lemma_fundamental_div_mod(height as int, points as int);
        vstd::arithmetic::div_mod::lemma_mod_bound(width as int, points as int);
        vstd::arithmetic::div_mod::lemma_mod_bound(height as int, points as int);
    }
    let mut sites: Vec<(u32, u32)> = Vec::new();
    let mut iy: u32 = 0;
    while iy < points
        invariant
            1 <= cell_width,
            1 <= cell_height,
            points * cell_width <= width,
            points * cell_height <= height,
            iy <= points,
            sites@.len() == iy * points,
            forall|k: int| 0 <= k < sites@.len() ==> (#[trigger] sites@[k]).0 < width && sites@[k].1 < height,
            forall|i: int, j: int| 0 <= i < points && 0 <= j < iy ==> {
                let s = #[trigger] site_of(sites@, points as int, i, j);
                &&& i * cell_width <= s.0 < i * cell_width + cell_width
                &&& j * cell_height <= s.1 < j * cell_height + cell_height
            },
        decreases points - iy,
    {
        let mut ix: u32 = 0;
        while ix < points
            invariant
                1 <= cell_width,
                1 <= cell_height,
                points * cell_width <= width,
                points * cell_height <= height,
                iy < points,
                ix <= points,
                sites@.len() == iy * points + ix,
                forall|k: int| 0 <= k < sites@.len() ==> (#[trigger] sites@[k]).0 < width && sites@[k].1 < height,
                forall|i: int, j: int| 0 <= i < points && 0 <= j < iy ==> {
                    let s = #[trigger] site_of(sites@, points as int, i, j);
                    &&& i * cell_width <= s.0 < i * cell_width + cell_width
                    &&& j * cell_height <= s.1 < j * cell_height + cell_height
                },
                forall|i: int| 0 <= i < ix ==> {
                    let s = #[trigger] site_of(sites@, points as int, i, iy as int);
                    &&& i * cell_width <= s.0 < i * cell_width + cell_width
                    &&& iy * cell_height <= s.1 < iy * cell_height + cell_height
                },
            decreases points - ix,
        {
            let ox = random_u32() % cell_width;
            let oy = random_u32() % cell_height;
            assert(ix * cell_width + ox < width && iy * cell_height + oy < height) by (nonlinear_arith)
                requires ix < points, iy < points, ox < cell_width, oy < cell_height,
                    points * cell_width <= width, points * cell_height <= height;
            let ghost before = sites@;
            sites.push((ix * cell_width + ox, iy * cell_height + oy));
            proof {
                assert forall|i: int, j: int| 0 <= i < points && 0 <= j < iy implies
                    #[trigger] site_of(sites@, points as int, i, j) == site_of(before, points as int, i, j) by {
                    assert(0 <= j * points + i < iy * points) by (nonlinear_arith)
                        requires 0 <= i < points, 0 <= j < iy;
                }
                assert forall|i: int| 0 <= i <= ix implies
                    #[trigger] site_of(sites@, points as int, i, iy as int) == (if i < ix { site_of(before, points as int, i, iy as int) } else { sites@[before.len() as int] }) by {
                }
            }
            ix = ix + 1;
        }
        assert((iy + 1) * points == iy * points + points) by (nonlinear_arith);
        iy = iy + 1;
    }
    assert(points * points >= 1) by (nonlinear_arith)
        requires points >= 1;
    let b = voronoi_from_sites(width, height, &sites);
    assert(is_voronoi_field(b, sites@, width as int, height as int));
    assert(sites_placed(sites@, points as int, width as int, height as int));
    Ok(b)
}

} // verus!
