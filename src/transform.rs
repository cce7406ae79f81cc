use vstd::prelude::*;
use crate::buffer::{PixelBuffer, Color, rows_of};
use crate::pixelwise::{map_pixels, zip_pixels, build_pixels};

verus! {

pub open spec fn clamp_channel(v: int) -> u8 {
    if v < 0 {
        0u8
    } else if v > 255 {
        255u8
    } else {
        v as u8
    }
}

pub open spec fn inverted(p: Color) -> Color {
    ((255 - p.0) as u8, (255 - p.1) as u8, (255 - p.2) as u8)
}

/// Each channel multiplied by `num / den`, rounded down, at most 255.
pub open spec fn scaled(p: Color, num: u32, den: u32) -> Color {
    (
        clamp_channel(p.0 * num / den as int),
        clamp_channel(p.1 * num / den as int),
        clamp_channel(p.2 * num / den as int),
    )
}

/// Each channel shifted by `level`, clamped to 0..=255.
pub open spec fn shifted(p: Color, level: i32) -> Color {
    (clamp_channel(p.0 + level), clamp_channel(p.1 + level), clamp_channel(p.2 + level))
}

pub open spec fn saturating_sum(p: Color, q: Color) -> Color {
    (clamp_channel(p.0 + q.0), clamp_channel(p.1 + q.1), clamp_channel(p.2 + q.2))
}

/// Every pixel of `b` has three equal channels.
pub open spec fn is_gray(b: PixelBuffer) -> bool {
    forall|x: int, y: int| 0 <= x < b.w() && 0 <= y < b.h() ==>
        (#[trigger] b.at(x, y)).0 == b.at(x, y).1 && b.at(x, y).1 == b.at(x, y).2
}

pub open spec fn gray(v: u8) -> Color {
    (v, v, v)
}

/// The gray pixel that `normalize` makes of `p` when the brightest red channel is `top`.
pub open spec fn normalized(p: Color, top: u8) -> Color {
    gray((p.0 * 255 / top as int) as u8)
}

/// `lo` and `hi` are the least and the greatest red channel of the buffer.
pub open spec fn red_range_of(b: PixelBuffer, lo: u8, hi: u8) -> bool {
    &&& forall|x: int, y: int| 0 <= x < b.w() && 0 <= y < b.h() ==> lo <= (#[trigger] b.at(x, y)).0 <= hi
    &&& exists|x: int, y: int| 0 <= x < b.w() && 0 <= y < b.h() && (#[trigger] b.at(x, y)).0 == lo
    &&& exists|x: int, y: int| 0 <= x < b.w() && 0 <= y < b.h() && (#[trigger] b.at(x, y)).0 == hi
}

/// Numerator of `v * ratio(v)`, where the ratio goes linearly from
/// `lower / dim` at `dim` to `higher / bright` at `bright` (a zero divisor
/// counts as one), over the common denominator `smooth_den`.
pub open spec fn smooth_num(v: int, dim: int, bright: int, lower: int, higher: int) -> int {
    let c = if dim == 0 { 1 } else { dim };
    let f = if bright == 0 { 1 } else { bright };
    if dim == bright {
        v * lower
    } else {
        v * (lower * f * (bright - dim) + (v - dim) * (higher * c - lower * f))
    }
}

pub open spec fn smooth_den(dim: int, bright: int) -> int {
    let c = if dim == 0 { 1 } else { dim };
    let f = if bright == 0 { 1 } else { bright };
    if dim == bright {
        c
    } else {
        c * f * (bright - dim)
    }
}

/// The gray pixel `interpolate_smoothing` makes of `p`: `v * ratio(v)`
/// rounded down and clamped to 0..=255, with `v` the red channel.
pub open spec fn smoothed(p: Color, dim: u8, bright: u8, lower: u8, higher: u8) -> Color {
    let n = smooth_num(p.0 as int, dim as int, bright as int, lower as int, higher as int);
    let d = smooth_den(dim as int, bright as int);
    gray(if n < 0 { 0u8 } else { clamp_channel(n / d) })
}

fn clamp_i64(v: i64) -> (r: u8)
    ensures
        r == clamp_channel(v as int),
{
    if v < 0 {
        0
    } else if v > 255 {
        255
    } else {
        v as u8
    }
}

fn scale_channel(c: u8, num: u32, den: u32) -> (r: u8)
    requires
        den > 0,
    ensures
        r == clamp_channel(c * num / den as int),
{
    assert(c as int * num as int <= 255 * 0xffff_ffff) by (nonlinear_arith)
        requires c <= 255, num <= 0xffff_ffff;
    let m: u64 = c as u64 * num as u64;
    let q = m / den as u64;
    if q > 255 {
        255
    } else {
        q as u8
    }
}

/// `255 - value` on every channel.
pub fn invert(input: PixelBuffer) -> (r: PixelBuffer)
    requires
        input.wf(),
    ensures
        r.wf(),
        r.w() == input.w(),
        r.h() == input.h(),
        forall|x: int, y: int| 0 <= x < r.w() && 0 <= y < r.h() ==> #[trigger] r.at(x, y) == inverted(input.at(x, y)),
{
    let mut b = input;
    map_pixels(&mut b, |p: Color| -> (q: Color)
        ensures
            q == inverted(p),
        { (255 - p.0, 255 - p.1, 255 - p.2) });
    b
}

/// Multiplies every channel by `num / den`, rounding down and saturating at 255.
pub fn scale_noise(input: &mut PixelBuffer, num: u32, den: u32)
    requires
        old(input).wf(),
        den > 0,
    ensures
        final(input).wf(),
        final(input).w() == old(input).w(),
        final(input).h() == old(input).h(),
        forall|x: int, y: int| 0 <= x < old(input).w() && 0 <= y < old(input).h() ==>
            #[trigger] final(input).at(x, y) == scaled(old(input).at(x, y), num, den),
{
    map_pixels(input, |p: Color| -> (q: Color)
        requires
            den > 0,
        ensures
            q == scaled(p, num, den),
        {
            (scale_channel(p.0, num, den), scale_channel(p.1, num, den), scale_channel(p.2, num, den))
        });
}

/// Adds `level` to every channel, clamping to 0..=255.
pub fn linear_scale_noise(input: &mut PixelBuffer, level: i32)
    requires
        old(input).wf(),
    ensures
        final(input).wf(),
        final(input).w() == old(input).w(),
        final(input).h() == old(input).h(),
        forall|x: int, y: int| 0 <= x < old(input).w() && 0 <= y < old(input).h() ==>
            #[trigger] final(input).at(x, y) == shifted(old(input).at(x, y), level),
{
    map_pixels(input, |p: Color| -> (q: Color)
        ensures
            q == shifted(p, level),
        {
            (
                clamp_i64(p.0 as i64 + level as i64),
                clamp_i64(p.1 as i64 + level as i64),
                clamp_i64(p.2 as i64 + level as i64),
            )
        });
}

/// Adds `input2` into `input` channel by channel, saturating at 255.
pub fn add(input: &mut PixelBuffer, input2: PixelBuffer)
    requires
        old(input).wf(),
        input2.wf(),
        input2.w() == old(input).w(),
        input2.h() == old(input).h(),
    ensures
        final(input).wf(),
        final(input).w() == old(input).w(),
        final(input).h() == old(input).h(),
        forall|x: int, y: int| 0 <= x < old(input).w() && 0 <= y < old(input).h() ==>
            #[trigger] final(input).at(x, y) == saturating_sum(old(input).at(x, y), input2.at(x, y)),
{
    zip_pixels(input, &input2, |p: Color, q: Color| -> (s: Color)
        ensures
            s == saturating_sum(p, q),
        {
            (
                clamp_i64(p.0 as i64 + q.0 as i64),
                clamp_i64(p.1 as i64 + q.1 as i64),
                clamp_i64(p.2 as i64 + q.2 as i64),
            )
        });
}

/// The least and the greatest red channel of a buffer.
pub fn red_range(input: &PixelBuffer) -> (r: (u8, u8))
    requires
        input.wf(),
    ensures
        red_range_of(*input, r.0, r.1),
{
    let width = input.width();
    let height = input.height();
    let first = input.get(0, 0);
    let mut lo: u8 = first.0;
    let mut hi: u8 = first.0;
    let ghost mut lx: int = 0;
    let ghost mut ly: int = 0;
    let ghost mut hx: int = 0;
    let ghost mut hy: int = 0;
    let mut y: u32 = 0;
    while y < height
        invariant
            input.wf(),
            width == input.w(),
            height == input.h(),
            y <= height,
            forall|i: int, j: int| 0 <= i < width && 0 <= j < y ==> lo <= (#[trigger] input.at(i, j)).0 <= hi,
            0 <= lx < width && 0 <= ly < height && input.at(lx, ly).0 == lo,
            0 <= hx < width && 0 <= hy < height && input.at(hx, hy).0 == hi,
        decreases height - y,
    {
        let mut x: u32 = 0;
        while x < width
            invariant
                input.wf(),
                width == input.w(),
                height == input.h(),
                y < height,
                x <= width,
                forall|i: int, j: int| 0 <= i < width && 0 <= j < y ==> lo <= (#[trigger] input.at(i, j)).0 <= hi,
                forall|i: int| 0 <= i < x ==> lo <= (#[trigger] input.at(i, y as int)).0 <= hi,
                0 <= lx < width && 0 <= ly < height && input.at(lx, ly).0 == lo,
                0 <= hx < width && 0 <= hy < height && input.at(hx, hy).0 == hi,
            decreases width - x,
        {
            let v = input.get(x, y).0;
            if v < lo {
                lo = v;
                proof {
                    lx = x as int;
                    ly = y as int;
                }
            }
            if v > hi {
                hi = v;
                proof {
                    hx = x as int;
                    hy = y as int;
                }
            }
            x = x + 1;
        }
        y = y + 1;
    }
    (lo, hi)
}

/// Stretches the red channel so that the brightest pixel becomes 255, and
/// writes the result as gray; an all-black red channel is left as it is.
pub fn normalize(input: &mut PixelBuffer)
    requires
        old(input).wf(),
    ensures
        final(input).wf(),
        final(input).w() == old(input).w(),
        final(input).h() == old(input).h(),
        forall|lo: u8, hi: u8| #[trigger] red_range_of(*old(input), lo, hi) ==> {
            if hi == 0 {
                rows_of(*final(input)) == rows_of(*old(input))
            } else {
                forall|x: int, y: int| 0 <= x < old(input).w() && 0 <= y < old(input).h() ==>
                    #[trigger] final(input).at(x, y) == normalized(old(input).at(x, y), hi)
            }
        },
{
    let ghost before = *input;
    let (lo, top) = red_range(input);
    proof { lemma_red_range_unique(before, lo, top); }
    if top == 0 {
        return;
    }
    map_pixels(input, |p: Color| -> (q: Color)
        requires
            top > 0,
        ensures
            q == normalized(p, top),
        {
            let v = (p.0 as u32 * 255) / top as u32;
            assert(v <= 255 * 255) by (nonlinear_arith)
                requires v as int == (p.0 as int * 255) / top as int, top > 0, p.0 <= 255;
            (v as u8, v as u8, v as u8)
        });
}

fn smooth_channel(v: u8, dim: u8, bright: u8, lower: u8, higher: u8) -> (r: u8)
    requires
        dim <= bright,
    ensures
        gray(r) == smoothed((v, v, v), dim, bright, lower, higher),
{
    let c: i64 = if dim == 0 { 1 } else { dim as i64 };
    let f: i64 = if bright == 0 { 1 } else { bright as i64 };
    let vv: i64 = v as i64;
    let n: i64;
    let d: i64;
    if dim == bright {
        assert(0 <= vv * lower as i64 <= 65025) by (nonlinear_arith)
            requires 0 <= vv <= 255, 0 <= lower <= 255;
        n = vv * lower as i64;
        d = c;
    } else {
        let span: i64 = bright as i64 - dim as i64;
        let lw: i64 = lower as i64;
        let hg: i64 = higher as i64;
        assert(0 <= lw * f <= 255 * 255 && 0 <= hg * c <= 255 * 255) by (nonlinear_arith)
            requires 0 <= lw <= 255, 0 <= hg <= 255, 1 <= c <= 255, 1 <= f <= 255;
        let a: i64 = lw * f;
        let e: i64 = hg * c;
        assert(-255 <= span <= 255);
        assert(-255 * 65025 <= a * span <= 255 * 65025) by (nonlinear_arith)
            requires 0 <= a <= 65025, -255 <= span <= 255;
        let t1: i64 = a * span;
        let dv: i64 = vv - dim as i64;
        assert(-255 * 65025 <= dv * (e - a) <= 255 * 65025) by (nonlinear_arith)
            requires -255 <= dv <= 255, -65025 <= e - a <= 65025;
        let t2: i64 = dv * (e - a);
        assert(-255 * 2 * 255 * 65025 <= vv * (t1 + t2) <= 255 * 2 * 255 * 65025) by (nonlinear_arith)
            requires 0 <= vv <= 255, -2 * 255 * 65025 <= t1 + t2 <= 2 * 255 * 65025;
        n = vv * (t1 + t2);
        assert(1 <= c * f <= 65025) by (nonlinear_arith)
            requires 1 <= c <= 255, 1 <= f <= 255;
        assert(1 <= c * f * span <= 65025 * 255) by (nonlinear_arith)
            requires 1 <= c * f <= 65025, 1 <= span <= 255;
        d = c * f * span;
        assert(n == smooth_num(v as int, dim as int, bright as int, lower as int, higher as int));
    }
    if n < 0 {
        0
    } else {
        clamp_i64(n / d)
    }
}

/// Remaps each pixel `v` (its red channel) to `v * ratio(v)`, where the
/// ratio runs linearly from `lower / dim` at the dimmest value to
/// `higher / bright` at the brightest (a zero extreme divides by one), rounded
/// down and clamped to 0..=255, and writes it as gray.
pub fn interpolate_smoothing(input: &mut PixelBuffer, lower: u8, higher: u8)
    requires
        old(input).wf(),
    ensures
        final(input).wf(),
        final(input).w() == old(input).w(),
        final(input).h() == old(input).h(),
        forall|dim: u8, bright: u8| #[trigger] red_range_of(*old(input), dim, bright) ==>
            forall|x: int, y: int| 0 <= x < old(input).w() && 0 <= y < old(input).h() ==>
                #[trigger] final(input).at(x, y) == smoothed(old(input).at(x, y), dim, bright, lower, higher),
{
    let ghost before = *input;
    let (dim, bright) = red_range(input);
    proof {
        lemma_red_range_unique(before, dim, bright);
        let (x, y) = choose|x: int, y: int| 0 <= x < before.w() && 0 <= y < before.h() && (#[trigger] before.at(x, y)).0 == dim;
        assert(dim <= before.at(x, y).0 <= bright);
    }
    map_pixels(input, |p: Color| -> (q: Color)
        requires
            dim <= bright,
        ensures
            q == smoothed(p, dim, bright, lower, higher),
        {
            let r = smooth_channel(p.0, dim, bright, lower, higher);
            (r, r, r)
        });
}

/// The extremes of the red channel are unique.
proof fn lemma_red_range_unique(b: PixelBuffer, lo: u8, hi: u8)
    requires
        red_range_of(b, lo, hi),
    ensures
        forall|l: u8, h: u8| #[trigger] red_range_of(b, l, h) ==> l == lo && h == hi,
{
    assert forall|l: u8, h: u8| #[trigger] red_range_of(b, l, h) implies l == lo && h == hi by {
        let (x1, y1) = choose|x: int, y: int| 0 <= x < b.w() && 0 <= y < b.h() && (#[trigger] b.at(x, y)).0 == l;
        let (x2, y2) = choose|x: int, y: int| 0 <= x < b.w() && 0 <= y < b.h() && (#[trigger] b.at(x, y)).0 == lo;
        let (x3, y3) = choose|x: int, y: int| 0 <= x < b.w() && 0 <= y < b.h() && (#[trigger] b.at(x, y)).0 == h;
        let (x4, y4) = choose|x: int, y: int| 0 <= x < b.w() && 0 <= y < b.h() && (#[trigger] b.at(x, y)).0 == hi;
        assert(lo <= b.at(x1, y1).0);
        assert(l <= b.at(x2, y2).0);
        assert(b.at(x3, y3).0 <= hi);
        assert(b.at(x4, y4).0 <= h);
    }
}

/// Enlarges `input` by `factor`: each pixel becomes a `factor` by `factor` block.
pub fn upscale_image_square(factor: u32, input: PixelBuffer) -> (r: PixelBuffer)
    requires
        input.wf(),
        factor >= 1,
        input.w() * factor <= u32::MAX,
        input.h() * factor <= u32::MAX,
        3 * (input.w() * factor) * (input.h() * factor) <= usize::MAX,
    ensures
        r.wf(),
        r.w() == input.w() * factor,
        r.h() == input.h() * factor,
        forall|x: int, y: int| 0 <= x < r.w() && 0 <= y < r.h() ==>
            #[trigger] r.at(x, y) == input.at(x / factor as int, y / factor as int),
{
    let width = input.width() * factor;
    let height = input.height() * factor;
    assert(width >= 1 && height >= 1) by (nonlinear_arith)
        requires width == input.w() * factor, height == input.h() * factor, input.w() >= 1, input.h() >= 1, factor >= 1;
    let src = &input;
    build_pixels(width, height, |x: u32, y: u32| -> (c: Color)
        requires
            src.wf(),
            factor >= 1,
            x < src.w() * factor,
            y < src.h() * factor,
        ensures
            c == src.at((x / factor) as int, (y / factor) as int),
        {
            proof {
                let f = factor as int;
                let (w, h) = (src.w(), src.h());
                assert(w * f - 1 == (w - 1) * f + (f - 1) && h * f - 1 == (h - 1) * f + (f - 1)) by (nonlinear_arith);
                vstd::arithmetic::div_mod::lemma_div_is_ordered(x as int, w * f - 1, f);
                vstd::arithmetic::div_mod::lemma_div_is_ordered(y as int, h * f - 1, f);
                vstd::arithmetic::div_mod::lemma_fundamental_div_mod_converse(w * f - 1, f, w - 1, f - 1);
                vstd::arithmetic::div_mod::lemma_fundamental_div_mod_converse(h * f - 1, f, h - 1, f - 1);
            }
            src.get(x / factor, y / factor)
        })
}

/// `(tx, ty)` lies on the cross of arm length `factor` drawn for source
/// pixel `(sx, sy)`, centred on `(sx * k, sy * k)` with `k = 2 * factor + 1`.
pub open spec fn on_cross(tx: int, ty: int, sx: int, sy: int, factor: int) -> bool {
    let k = 2 * factor + 1;
    ||| (ty == sy * k && sx * k - factor <= tx <= sx * k + factor)
    ||| (tx == sx * k && sy * k - factor <= ty <= sy * k + factor)
}

/// Some white source pixel draws a cross through `(tx, ty)`.
pub open spec fn crossed(input: PixelBuffer, factor: int, tx: int, ty: int) -> bool {
    exists|sx: int, sy: int|
        0 <= sx < input.w() && 0 <= sy < input.h() && (#[trigger] input.at(sx, sy)).0 == 255
            && on_cross(tx, ty, sx, sy, factor)
}

proof fn lemma_nearest_multiple(t: int, s: int, f: int)
    requires
        f >= 0,
        s * (2 * f + 1) - f <= t <= s * (2 * f + 1) + f,
    ensures
        (t + f) / (2 * f + 1) == s,
{
    let k = 2 * f + 1;
    assert(t + f == s * k + (t + f - s * k));
    vstd::arithmetic::div_mod::lemma_fundamental_div_mod_converse(t + f, k, s, t + f - s * k);
}

fn cross_pixel(input: &PixelBuffer, factor: u32, tx: u32, ty: u32) -> (c: Color)
    requires
        input.wf(),
        (2 * factor + 1) * input.w() <= u32::MAX,
        (2 * factor + 1) * input.h() <= u32::MAX,
    ensures
        c == (if crossed(*input, factor as int, tx as int, ty as int) { (255u8, 255u8, 255u8) } else { (0u8, 0u8, 0u8) }),
{
    let k: u64 = 2 * factor as u64 + 1;
    let f = factor as u64;
    let w = input.width() as u64;
    let h = input.height() as u64;
    let txx = tx as u64;
    let tyy = ty as u64;
    let ghost fi = factor as int;
    let ghost ki = k as int;
    let mut hit = false;
    // horizontal arm through row `ty`
    if tyy % k == 0 && (txx + f) / k < w && tyy / k < h {
        let sx = (txx + f) / k;
        let sy = tyy / k;
        proof {
            vstd::arithmetic::div_mod::lemma_fundamental_div_mod(txx + f, ki);
            vstd::arithmetic::div_mod::lemma_fundamental_div_mod(tyy as int, ki);
            vstd::arithmetic::div_mod::lemma_mod_bound(txx + f, ki);
            assert(sx * ki == ki * sx) by (nonlinear_arith);
            assert(sy * ki == ki * sy) by (nonlinear_arith);
        }
        if input.get(sx as u32, sy as u32).0 == 255 {
            assert(on_cross(tx as int, ty as int, sx as int, sy as int, fi));
            hit = true;
        }
    }
    // vertical arm through column `tx`
    if !hit && txx % k == 0 && txx / k < w && (tyy + f) / k < h {
        let sx = txx / k;
        let sy = (tyy + f) / k;
        proof {
            vstd::arithmetic::div_mod::lemma_fundamental_div_mod(tyy + f, ki);
            vstd::arithmetic::div_mod::lemma_fundamental_div_mod(txx as int, ki);
            vstd::arithmetic::div_mod::lemma_mod_bound(tyy + f, ki);
            assert(sx * ki == ki * sx) by (nonlinear_arith);
            assert(sy * ki == ki * sy) by (nonlinear_arith);
        }
        if input.get(sx as u32, sy as u32).0 == 255 {
            assert(on_cross(tx as int, ty as int, sx as int, sy as int, fi));
            hit = true;
        }
    }
    proof {
        if !hit {
            assert forall|sx: int, sy: int|
                0 <= sx < input.w() && 0 <= sy < input.h() && on_cross(tx as int, ty as int, sx, sy, fi)
                implies (#[trigger] input.at(sx, sy)).0 != 255 by {
                if ty == sy * ki && sx * ki - fi <= tx <= sx * ki + fi {
                    lemma_nearest_multiple(tx as int, sx, fi);
                    vstd::arithmetic::div_mod::lemma_fundamental_div_mod_converse(ty as int, ki, sy, 0);
                } else {
                    lemma_nearest_multiple(ty as int, sy, fi);
                    vstd::arithmetic::div_mod::lemma_fundamental_div_mod_converse(tx as int, ki, sx, 0);
                }
            }
        }
    }
    if hit {
        (255, 255, 255)
    } else {
        (0, 0, 0)
    }
}

/// Enlarges a mask by `k = 2 * factor + 1`: each white pixel `(x, y)` becomes a
/// white cross with arms of `factor` pixels centred on `(x * k, y * k)`, clipped
/// to the buffer; everything else is black.
pub fn upscale_image_lines(factor: u32, input: PixelBuffer) -> (r: PixelBuffer)
    requires
        input.wf(),
        (2 * factor + 1) * input.w() <= u32::MAX,
        (2 * factor + 1) * input.h() <= u32::MAX,
        3 * ((2 * factor + 1) * input.w()) * ((2 * factor + 1) * input.h()) <= usize::MAX,
    ensures
        r.wf(),
        r.w() == (2 * factor + 1) * input.w(),
        r.h() == (2 * factor + 1) * input.h(),
        forall|x: int, y: int| 0 <= x < r.w() && 0 <= y < r.h() ==>
            #[trigger] r.at(x, y) == (if crossed(input, factor as int, x, y) { (255u8, 255u8, 255u8) } else { (0u8, 0u8, 0u8) }),
{
    assert(2 * factor + 1 <= (2 * factor + 1) * input.w()) by (nonlinear_arith)
        requires input.w() >= 1;
    let k = 2 * factor + 1;
    let width = k * input.width();
    let height = k * input.height();
    assert(width >= 1 && height >= 1) by (nonlinear_arith)
        requires width == k * input.w(), height == k * input.h(), input.w() >= 1, input.h() >= 1, k >= 1;
    let src = &input;
    build_pixels(width, height, |x: u32, y: u32| -> (c: Color)
        requires
            src.wf(),
            (2 * factor + 1) * src.w() <= u32::MAX,
            (2 * factor + 1) * src.h() <= u32::MAX,
        ensures
            c == (if crossed(*src, factor as int, x as int, y as int) { (255u8, 255u8, 255u8) } else { (0u8, 0u8, 0u8) }),
        { cross_pixel(src, factor, x, y) })
}

} // verus!
