use vstd::prelude::*;
use crate::buffer::{PixelBuffer, Color, black, white};
use crate::pixelwise::{map_pixels, zip_pixels, build_pixels, from_gray_rows};
use crate::random::random_u8;

verus! {

/// A mask pixel is set when its red channel is 255.
pub open spec fn is_set(p: Color) -> bool {
    p.0 == 255
}

pub open spec fn mask_pixel(b: bool) -> Color {
    if b { white() } else { black() }
}

fn mask_of(b: bool) -> (r: Color)
    ensures
        r == mask_pixel(b),
{
    if b {
        (255, 255, 255)
    } else {
        (0, 0, 0)
    }
}

/// White where both masks are set, black elsewhere.
pub fn and(input1: PixelBuffer, input2: PixelBuffer) -> (r: PixelBuffer)
    requires
        input1.wf(),
        input2.wf(),
        input2.w() == input1.w(),
        input2.h() == input1.h(),
    ensures
        r.wf(),
        r.w() == input1.w(),
        r.h() == input1.h(),
        forall|x: int, y: int| 0 <= x < r.w() && 0 <= y < r.h() ==>
            #[trigger] r.at(x, y) == mask_pixel(is_set(input1.at(x, y)) && is_set(input2.at(x, y))),
{
    let mut b = input1;
    zip_pixels(&mut b, &input2, |p: Color, q: Color| -> (s: Color)
        ensures
            s == mask_pixel(is_set(p) && is_set(q)),
        { mask_of(p.0 == 255 && q.0 == 255) });
    b
}

/// White where either mask is set, black elsewhere.
pub fn or(input1: PixelBuffer, input2: PixelBuffer) -> (r: PixelBuffer)
    requires
        input1.wf(),
        input2.wf(),
        input2.w() == input1.w(),
        input2.h() == input1.h(),
    ensures
        r.wf(),
        r.w() == input1.w(),
        r.h() == input1.h(),
        forall|x: int, y: int| 0 <= x < r.w() && 0 <= y < r.h() ==>
            #[trigger] r.at(x, y) == mask_pixel(is_set(input1.at(x, y)) || is_set(input2.at(x, y))),
{
    let mut b = input1;
    zip_pixels(&mut b, &input2, |p: Color, q: Color| -> (s: Color)
        ensures
            s == mask_pixel(is_set(p) || is_set(q)),
        { mask_of(p.0 == 255 || q.0 == 255) });
    b
}

/// White where the first mask is set and the second is not, black elsewhere.
pub fn subtract(input1: PixelBuffer, input2: PixelBuffer) -> (r: PixelBuffer)
    requires
        input1.wf(),
        input2.wf(),
        input2.w() == input1.w(),
        input2.h() == input1.h(),
    ensures
        r.wf(),
        r.w() == input1.w(),
        r.h() == input1.h(),
        forall|x: int, y: int| 0 <= x < r.w() && 0 <= y < r.h() ==>
            #[trigger] r.at(x, y) == mask_pixel(is_set(input1.at(x, y)) && !is_set(input2.at(x, y))),
{
    let mut b = input1;
    zip_pixels(&mut b, &input2, |p: Color, q: Color| -> (s: Color)
        ensures
            s == mask_pixel(is_set(p) && !is_set(q)),
        { mask_of(p.0 == 255 && q.0 != 255) });
    b
}

/// Black where the pixel is exactly `target`, white elsewhere.
pub fn not(target: Color, input: PixelBuffer) -> (r: PixelBuffer)
    requires
        input.wf(),
    ensures
        r.wf(),
        r.w() == input.w(),
        r.h() == input.h(),
        forall|x: int, y: int| 0 <= x < r.w() && 0 <= y < r.h() ==>
            #[trigger] r.at(x, y) == mask_pixel(input.at(x, y) != target),
{
    let mut b = input;
    map_pixels(&mut b, |p: Color| -> (s: Color)
        ensures
            s == mask_pixel(p != target),
        { mask_of(!(p.0 == target.0 && p.1 == target.1 && p.2 == target.2)) });
    b
}

/// `height` rows of `width` random bytes.
fn random_rows(width: u32, height: u32) -> (rows: Vec<Vec<u8>>)
    ensures
        rows@.len() == height,
        forall|y: int| 0 <= y < height ==> (#[trigger] rows@[y])@.len() == width,
{
    let mut rows: Vec<Vec<u8>> = Vec::new();
    let mut y: u32 = 0;
    while y < height
        invariant
            y <= height,
            rows@.len() == y,
            forall|j: int| 0 <= j < y ==> (#[trigger] rows@[j])@.len() == width,
        decreases height - y,
    {
        let mut row: Vec<u8> = Vec::new();
        let mut x: u32 = 0;
        while x < width
            invariant
                x <= width,
                row@.len() == x,
            decreases width - x,
        {
            row.push(random_u8());
            x = x + 1;
        }
        rows.push(row);
        y = y + 1;
    }
    rows
}

/// The mask of drawn bytes: white where the byte at `(x, y)` is below
/// `probability`, black elsewhere.
pub fn noisemap_binary_from(bytes: &Vec<Vec<u8>>, width: u32, height: u32, probability: u8) -> (r: PixelBuffer)
    requires
        width >= 1,
        height >= 1,
        3 * (width as int) * (height as int) <= usize::MAX,
        bytes@.len() == height,
        forall|y: int| 0 <= y < height ==> (#[trigger] bytes@[y])@.len() == width,
    ensures
        r.wf(),
        r.w() == width,
        r.h() == height,
        forall|x: int, y: int| 0 <= x < width && 0 <= y < height ==>
            #[trigger] r.at(x, y) == mask_pixel(bytes@[y]@[x] < probability),
{
    build_pixels(width, height, |x: u32, y: u32| -> (c: Color)
        requires
            x < width,
            y < height,
            bytes@.len() == height,
            forall|y: int| 0 <= y < height ==> (#[trigger] bytes@[y])@.len() == width,
        ensures
            c == mask_pixel(bytes@[y as int]@[x as int] < probability),
        {
            mask_of(bytes[y as usize][x as usize] < probability)
        })
}

/// A random mask: each pixel is white when a random byte falls below
/// `probability`, black otherwise.
pub fn generate_noisemap_binary(width: u32, height: u32, probability: u8) -> (r: PixelBuffer)
    requires
        width >= 1,
        height >= 1,
        3 * (width as int) * (height as int) <= usize::MAX,
    ensures
        r.wf(),
        r.w() == width,
        r.h() == height,
        exists|bytes: Seq<Vec<u8>>| {
            &&& #[trigger] bytes.len() == height
            &&& forall|y: int| 0 <= y < height ==> (#[trigger] bytes[y])@.len() == width
            &&& forall|x: int, y: int| 0 <= x < width && 0 <= y < height ==>
                #[trigger] r.at(x, y) == mask_pixel(bytes[y]@[x] < probability)
        },
{
    let bytes = random_rows(width, height);
    noisemap_binary_from(&bytes, width, height, probability)
}

/// The gray field of drawn bytes: the pixel at `(x, y)` is the gray of the byte there.
pub fn noisemap_bw_from(bytes: &Vec<Vec<u8>>, width: u32, height: u32) -> (r: PixelBuffer)
    requires
        width >= 1,
        height >= 1,
        3 * (width as int) * (height as int) <= usize::MAX,
        bytes@.len() == height,
        forall|y: int| 0 <= y < height ==> (#[trigger] bytes@[y])@.len() == width,
    ensures
        r.wf(),
        r.w() == width,
        r.h() == height,
        forall|x: int, y: int| 0 <= x < width && 0 <= y < height ==>
            #[trigger] r.at(x, y) == (bytes@[y]@[x], bytes@[y]@[x], bytes@[y]@[x]),
{
    from_gray_rows(bytes, width, height)
}

/// A field of random gray values.
pub fn generate_noisemap_bw(width: u32, height: u32) -> (r: PixelBuffer)
    requires
        width >= 1,
        height >= 1,
        3 * (width as int) * (height as int) <= usize::MAX,
    ensures
        r.wf(),
        r.w() == width,
        r.h() == height,
        exists|bytes: Seq<Vec<u8>>| {
            &&& #[trigger] bytes.len() == height
            &&& forall|y: int| 0 <= y < height ==> (#[trigger] bytes[y])@.len() == width
            &&& forall|x: int, y: int| 0 <= x < width && 0 <= y < height ==>
                #[trigger] r.at(x, y) == (bytes[y]@[x], bytes[y]@[x], bytes[y]@[x])
        },
{
    let bytes = random_rows(width, height);
    noisemap_bw_from(&bytes, width, height)
}

/// A source at coordinate `s` paints coordinate `t` when `s - radius <= t < s + 2 * radius`.
pub open spec fn reaches(s: int, t: int, radius: int) -> bool {
    s - radius <= t < s + 2 * radius
}

/// `lo..=hi` are the coordinates below `n` that a source can take to paint `c`.
pub open spec fn window(lo: int, hi: int, c: int, radius: int, n: int) -> bool {
    &&& 0 <= lo <= hi + 1
    &&& hi < n
    &&& lo >= c - 2 * radius + 1
    &&& (lo == 0 || lo == c - 2 * radius + 1)
    &&& hi <= c + radius
    &&& (hi == n - 1 || hi == c + radius)
}

/// Some pixel of colour `color` in `input` paints `(x, y)`.
pub open spec fn painted_by(input: PixelBuffer, color: Color, radius: int, x: int, y: int) -> bool {
    exists|sx: int, sy: int|
        0 <= sx < input.w() && 0 <= sy < input.h() && #[trigger] input.at(sx, sy) == color
            && reaches(sx, x, radius) && reaches(sy, y, radius)
}

fn window_has(input: &PixelBuffer, color: Color, radius: u32, x: u32, y: u32) -> (r: bool)
    requires
        input.wf(),
        x < input.w(),
        y < input.h(),
    ensures
        r == painted_by(*input, color, radius as int, x as int, y as int),
{
    let w = input.width() as i64;
    let h = input.height() as i64;
    let ri = radius as i64;
    let xi = x as i64;
    let yi = y as i64;
    let lo_x: i64 = if xi - 2 * ri + 1 > 0 { xi - 2 * ri + 1 } else { 0 };
    let hi_x: i64 = if xi + ri < w - 1 { xi + ri } else { w - 1 };
    let lo_y: i64 = if yi - 2 * ri + 1 > 0 { yi - 2 * ri + 1 } else { 0 };
    let hi_y: i64 = if yi + ri < h - 1 { yi + ri } else { h - 1 };
    let mut sy: i64 = lo_y;
    while sy <= hi_y
        invariant
            input.wf(),
            w == input.w(),
            h == input.h(),
            w <= 0xffff_ffff,
            h <= 0xffff_ffff,
            window(lo_x as int, hi_x as int, x as int, radius as int, w as int),
            window(lo_y as int, hi_y as int, y as int, radius as int, h as int),
            0 <= lo_x,
            hi_x < w,
            0 <= lo_y <= sy,
            hi_y < h,
            sy <= hi_y + 1,
            forall|i: int, j: int| lo_x <= i <= hi_x && lo_y <= j < sy ==> #[trigger] input.at(i, j) != color,
        decreases hi_y + 1 - sy,
    {
        let mut sx: i64 = lo_x;
        while sx <= hi_x
            invariant
                input.wf(),
                w == input.w(),
                h == input.h(),
                w <= 0xffff_ffff,
                h <= 0xffff_ffff,
                window(lo_x as int, hi_x as int, x as int, radius as int, w as int),
                window(lo_y as int, hi_y as int, y as int, radius as int, h as int),
                0 <= lo_x <= sx,
                hi_x < w,
                0 <= lo_y <= sy <= hi_y,
                hi_y < h,
                sx <= hi_x + 1,
                forall|i: int, j: int| lo_x <= i <= hi_x && lo_y <= j < sy ==> #[trigger] input.at(i, j) != color,
                forall|i: int| lo_x <= i < sx ==> #[trigger] input.at(i, sy as int) != color,
            decreases hi_x + 1 - sx,
        {
            let p = input.get(sx as u32, sy as u32);
            if p.0 == color.0 && p.1 == color.1 && p.2 == color.2 {
                assert(input.at(sx as int, sy as int) == color);
                assert(reaches(sx as int, x as int, radius as int) && reaches(sy as int, y as int, radius as int));
                return true;
            }
            sx = sx + 1;
        }
        sy = sy + 1;
    }
    assert forall|i: int, j: int|
        0 <= i < input.w() && 0 <= j < input.h() && reaches(i, x as int, radius as int) && reaches(j, y as int, radius as int)
        implies #[trigger] input.at(i, j) != color by {
        assert(lo_x <= i <= hi_x && lo_y <= j <= hi_y);
    }
    false
}

/// Paints `color` around every pixel of that colour: a source at `(sx, sy)`
/// covers columns `sx - radius .. sx + 2 * radius` and the same rows, clipped
/// to the buffer; everything else is black.
pub fn expand(radius: u32, color: Color, input: PixelBuffer) -> (r: PixelBuffer)
    requires
        input.wf(),
    ensures
        r.wf(),
        r.w() == input.w(),
        r.h() == input.h(),
        forall|x: int, y: int| 0 <= x < r.w() && 0 <= y < r.h() ==>
            #[trigger] r.at(x, y) == (if painted_by(input, color, radius as int, x, y) { color } else { black() }),
{
    let src = &input;
    build_pixels(input.width(), input.height(), |x: u32, y: u32| -> (c: Color)
        requires
            src.wf(),
            x < src.w(),
            y < src.h(),
        ensures
            c == (if painted_by(*src, color, radius as int, x as int, y as int) { color } else { black() }),
        {
            if window_has(src, color, radius, x, y) {
                color
            } else {
                (0, 0, 0)
            }
        })
}

} // verus!
