use vstd::prelude::*;
use crate::buffer::{PixelBuffer, Color, black, white};
use crate::pixelwise::{map_pixels, zip_pixels};

verus! {

/// What `threshhold` makes of `p`: kept (or white) where the red channel lies
/// in `lower..=higher`, black elsewhere.
pub open spec fn thresholded(p: Color, lower: u8, higher: u8, preserve: bool) -> Color {
    if lower <= p.0 && p.0 <= higher {
        if preserve {
            p
        } else {
            white()
        }
    } else {
        black()
    }
}

/// The red channel scaled by `c / 255`, rounded down.
pub open spec fn tint(v: u8, c: u8) -> u8 {
    (v * c / 255) as u8
}

pub open spec fn recolored(p: Color, red: u8, green: u8, blue: u8) -> Color {
    (tint(p.0, red), tint(p.0, green), tint(p.0, blue))
}

pub open spec fn painted(p: Color, c: Color) -> Color {
    if p == white() {
        c
    } else {
        p
    }
}

pub open spec fn layered(base: Color, layer: Color) -> Color {
    if layer != black() {
        layer
    } else {
        base
    }
}

/// A new buffer holding, for each pixel of `input` whose red channel lies in
/// `lower..=higher`, that pixel (`preserve`) or white; black elsewhere.
pub fn threshhold(input: &PixelBuffer, lower: u8, higher: u8, preserve: bool) -> (r: PixelBuffer)
    requires
        input.wf(),
    ensures
        r.wf(),
        r.w() == input.w(),
        r.h() == input.h(),
        forall|x: int, y: int| 0 <= x < r.w() && 0 <= y < r.h() ==>
            #[trigger] r.at(x, y) == thresholded(input.at(x, y), lower, higher, preserve),
{
    let mut out = PixelBuffer::solid(input.width(), input.height(), (0, 0, 0));
    zip_pixels(&mut out, input, |o: Color, p: Color| -> (q: Color)
        ensures
            q == thresholded(p, lower, higher, preserve),
        {
            if p.0 >= lower && p.0 <= higher {
                if preserve {
                    p
                } else {
                    (255, 255, 255)
                }
            } else {
                (0, 0, 0)
            }
        });
    out
}

fn tint_channel(v: u8, c: u8) -> (r: u8)
    ensures
        r == tint(v, c),
{
    assert(0 <= v as int * c as int / 255 <= 255) by (nonlinear_arith)
        requires v <= 255, c <= 255;
    ((v as u32 * c as u32) / 255) as u8
}

/// Tints a gray mask: each channel of the result is the red channel of the
/// input times `red / 255`, `green / 255` and `blue / 255`, rounded down.
pub fn recolor_proportion(input: PixelBuffer, red: u8, green: u8, blue: u8) -> (r: PixelBuffer)
    requires
        input.wf(),
    ensures
        r.wf(),
        r.w() == input.w(),
        r.h() == input.h(),
        forall|x: int, y: int| 0 <= x < r.w() && 0 <= y < r.h() ==>
            #[trigger] r.at(x, y) == recolored(input.at(x, y), red, green, blue),
{
    let mut b = input;
    map_pixels(&mut b, |p: Color| -> (q: Color)
        ensures
            q == recolored(p, red, green, blue),
        { (tint_channel(p.0, red), tint_channel(p.0, green), tint_channel(p.0, blue)) });
    b
}

/// White pixels become `(red, green, blue)`; all others stay as they are.
pub fn recolor_solid(input: PixelBuffer, red: u8, green: u8, blue: u8) -> (r: PixelBuffer)
    requires
        input.wf(),
    ensures
        r.wf(),
        r.w() == input.w(),
        r.h() == input.h(),
        forall|x: int, y: int| 0 <= x < r.w() && 0 <= y < r.h() ==>
            #[trigger] r.at(x, y) == painted(input.at(x, y), (red, green, blue)),
{
    let mut b = input;
    map_pixels(&mut b, |p: Color| -> (q: Color)
        ensures
            q == painted(p, (red, green, blue)),
        {
            if p.0 == 255 && p.1 == 255 && p.2 == 255 {
                (red, green, blue)
            } else {
                p
            }
        });
    b
}

/// Copies every pixel of `input2` that is not black over `input`.
pub fn overlay(input: &mut PixelBuffer, input2: PixelBuffer)
    requires
        old(input).wf(),
        input2.wf(),
        input2.w() == old(input).w(),
        input2.h() == old(input).h(),
    ensures
        final(input).wf(),
        final(input).w() == old(input).w(),
        final(input).h() == old(input).h(),
        forall|x: int, y: int| 0 <= x < old(input).w() && 0 <= y < old(input).h() ==>
            #[trigger] final(input).at(x, y) == layered(old(input).at(x, y), input2.at(x, y)),
{
    zip_pixels(input, &input2, |p: Color, q: Color| -> (s: Color)
        ensures
            s == layered(p, q),
        {
            if q.0 != 0 || q.1 != 0 || q.2 != 0 {
                q
            } else {
                p
            }
        });
}

} // verus!
