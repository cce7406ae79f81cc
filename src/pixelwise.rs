use vstd::prelude::*;
use crate::buffer::{PixelBuffer, Color, rows_of, has_dims};

verus! {

/// Replaces every pixel `p` of `b` by `f(p)`.
pub(crate) fn map_pixels<F: Fn(Color) -> Color>(b: &mut PixelBuffer, f: F)
    requires
        old(b).wf(),
        forall|p: Color| #[trigger] f.requires((p,)),
    ensures
        final(b).wf(),
        final(b).w() == old(b).w(),
        final(b).h() == old(b).h(),
        forall|x: int, y: int|
            0 <= x < old(b).w() && 0 <= y < old(b).h() ==> f.ensures((old(b).at(x, y),), #[trigger] final(b).at(x, y)),
{
    let width = b.width();
    let height = b.height();
    let ghost orig = rows_of(*b);
    let mut y: u32 = 0;
    while y < height
        invariant
            width == orig[0].len(),
            height == orig.len(),
            b.wf(),
            b.w() == width,
            b.h() == height,
            has_dims(orig, width as int, height as int),
            y <= height,
            forall|p: Color| #[trigger] f.requires((p,)),
            forall|x: int, j: int| 0 <= x < width && 0 <= j < y ==> f.ensures((orig[j][x],), #[trigger] b.at(x, j)),
            forall|x: int, j: int| 0 <= x < width && y <= j < height ==> #[trigger] b.at(x, j) == orig[j][x],
        decreases height - y,
    {
        let mut x: u32 = 0;
        while x < width
            invariant
                width == orig[0].len(),
                height == orig.len(),
                b.wf(),
                b.w() == width,
                b.h() == height,
                has_dims(orig, width as int, height as int),
                y < height,
                x <= width,
                forall|p: Color| #[trigger] f.requires((p,)),
                forall|i: int, j: int| 0 <= i < width && 0 <= j < y ==> f.ensures((orig[j][i],), #[trigger] b.at(i, j)),
                forall|i: int| 0 <= i < x ==> f.ensures((orig[y as int][i],), #[trigger] b.at(i, y as int)),
                forall|i: int, j: int| 0 <= i < width && y <= j < height && !(j == y && i < x) ==> #[trigger] b.at(i, j) == orig[j][i],
            decreases width - x,
        {
            let p = b.get(x, y);
            let q = f(p);
            let ghost pb = *b;
            b.set(x, y, q);
            assert forall|i: int, j: int| 0 <= i < width && 0 <= j < height && !(i == x && j == y) implies #[trigger] b.at(i, j) == pb.at(i, j) by {}
            x = x + 1;
        }
        y = y + 1;
    }
}

/// Replaces every pixel `p` of `a` by `f(p, q)`, where `q` is the pixel of `b`
/// at the same place.
pub(crate) fn zip_pixels<F: Fn(Color, Color) -> Color>(a: &mut PixelBuffer, b: &PixelBuffer, f: F)
    requires
        old(a).wf(),
        b.wf(),
        b.w() == old(a).w(),
        b.h() == old(a).h(),
        forall|p: Color, q: Color| #[trigger] f.requires((p, q)),
    ensures
        final(a).wf(),
        final(a).w() == old(a).w(),
        final(a).h() == old(a).h(),
        forall|x: int, y: int|
            0 <= x < old(a).w() && 0 <= y < old(a).h() ==> f.ensures((old(a).at(x, y), b.at(x, y)), #[trigger] final(a).at(x, y)),
{
    let width = a.width();
    let height = a.height();
    let ghost orig = rows_of(*a);
    let mut y: u32 = 0;
    while y < height
        invariant
            width == orig[0].len(),
            height == orig.len(),
            a.wf(),
            b.wf(),
            a.w() == width,
            a.h() == height,
            b.w() == width,
            b.h() == height,
            has_dims(orig, width as int, height as int),
            y <= height,
            forall|p: Color, q: Color| #[trigger] f.requires((p, q)),
            forall|x: int, j: int| 0 <= x < width && 0 <= j < y ==> f.ensures((orig[j][x], b.at(x, j)), #[trigger] a.at(x, j)),
            forall|x: int, j: int| 0 <= x < width && y <= j < height ==> #[trigger] a.at(x, j) == orig[j][x],
        decreases height - y,
    {
        let mut x: u32 = 0;
        while x < width
            invariant
                width == orig[0].len(),
                height == orig.len(),
                a.wf(),
                b.wf(),
                a.w() == width,
                a.h() == height,
                b.w() == width,
                b.h() == height,
                has_dims(orig, width as int, height as int),
                y < height,
                x <= width,
                forall|p: Color, q: Color| #[trigger] f.requires((p, q)),
                forall|i: int, j: int| 0 <= i < width && 0 <= j < y ==> f.ensures((orig[j][i], b.at(i, j)), #[trigger] a.at(i, j)),
                forall|i: int| 0 <= i < x ==> f.ensures((orig[y as int][i], b.at(i, y as int)), #[trigger] a.at(i, y as int)),
                forall|i: int, j: int| 0 <= i < width && y <= j < height && !(j == y && i < x) ==> #[trigger] a.at(i, j) == orig[j][i],
            decreases width - x,
        {
            let p = a.get(x, y);
            let q = b.get(x, y);
            let r = f(p, q);
            let ghost pa = *a;
            a.set(x, y, r);
            assert forall|i: int, j: int| 0 <= i < width && 0 <= j < height && !(i == x && j == y) implies #[trigger] a.at(i, j) == pa.at(i, j) by {}
            x = x + 1;
        }
        y = y + 1;
    }
}

/// A buffer whose pixel in column `x` of row `y` is the gray `rows[y][x]`.
pub(crate) fn from_gray_rows(rows: &Vec<Vec<u8>>, width: u32, height: u32) -> (r: PixelBuffer)
    requires
        width >= 1,
        height >= 1,
        3 * (width as int) * (height as int) <= usize::MAX,
        rows@.len() == height,
        forall|y: int| 0 <= y < height ==> (#[trigger] rows@[y])@.len() == width,
    ensures
        r.wf(),
        r.w() == width,
        r.h() == height,
        forall|x: int, y: int| 0 <= x < width && 0 <= y < height ==> #[trigger] r.at(x, y) == (rows@[y]@[x], rows@[y]@[x], rows@[y]@[x]),
{
    let mut b = PixelBuffer::solid(width, height, (0, 0, 0));
    let mut y: u32 = 0;
    while y < height
        invariant
            b.wf(),
            b.w() == width,
            b.h() == height,
            rows@.len() == height,
            forall|j: int| 0 <= j < height ==> (#[trigger] rows@[j])@.len() == width,
            y <= height,
            forall|x: int, j: int| 0 <= x < width && 0 <= j < y ==> #[trigger] b.at(x, j) == (rows@[j]@[x], rows@[j]@[x], rows@[j]@[x]),
        decreases height - y,
    {
        let line = &rows[y as usize];
        let mut x: u32 = 0;
        while x < width
            invariant
                b.wf(),
                b.w() == width,
                b.h() == height,
                y < height,
                x <= width,
                line@ == rows@[y as int]@,
                line@.len() == width,
                forall|i: int, j: int| 0 <= i < width && 0 <= j < y ==> #[trigger] b.at(i, j) == (rows@[j]@[i], rows@[j]@[i], rows@[j]@[i]),
                forall|i: int| 0 <= i < x ==> #[trigger] b.at(i, y as int) == (line@[i], line@[i], line@[i]),
            decreases width - x,
        {
            let v = line[x as usize];
            let ghost pb = b;
            b.set(x, y, (v, v, v));
            assert forall|i: int, j: int| 0 <= i < width && 0 <= j < height && !(i == x && j == y) implies #[trigger] b.at(i, j) == pb.at(i, j) by {}
            x = x + 1;
        }
        y = y + 1;
    }
    b
}

/// A `width` by `height` buffer whose pixel at `(x, y)` is `f(x, y)`.
pub(crate) fn build_pixels<F: Fn(u32, u32) -> Color>(width: u32, height: u32, f: F) -> (r: PixelBuffer)
    requires
        width >= 1,
        height >= 1,
        3 * (width as int) * (height as int) <= usize::MAX,
        forall|x: u32, y: u32| x < width && y < height ==> #[trigger] f.requires((x, y)),
    ensures
        r.wf(),
        r.w() == width,
        r.h() == height,
        forall|x: int, y: int| 0 <= x < width && 0 <= y < height ==> f.ensures((x as u32, y as u32), #[trigger] r.at(x, y)),
{
    let mut b = PixelBuffer::solid(width, height, (0, 0, 0));
    let mut y: u32 = 0;
    while y < height
        invariant
            b.wf(),
            b.w() == width,
            b.h() == height,
            y <= height,
            forall|x: u32, y: u32| x < width && y < height ==> #[trigger] f.requires((x, y)),
            forall|x: int, j: int| 0 <= x < width && 0 <= j < y ==> f.ensures((x as u32, j as u32), #[trigger] b.at(x, j)),
        decreases height - y,
    {
        let mut x: u32 = 0;
        while x < width
            invariant
                b.wf(),
                b.w() == width,
                b.h() == height,
                y < height,
                x <= width,
                forall|x: u32, y: u32| x < width && y < height ==> #[trigger] f.requires((x, y)),
                forall|i: int, j: int| 0 <= i < width && 0 <= j < y ==> f.ensures((i as u32, j as u32), #[trigger] b.at(i, j)),
                forall|i: int| 0 <= i < x ==> f.ensures((i as u32, y), #[trigger] b.at(i, y as int)),
            decreases width - x,
        {
            let c = f(x, y);
            let ghost pb = b;
            b.set(x, y, c);
            assert forall|i: int, j: int| 0 <= i < width && 0 <= j < height && !(i == x && j == y) implies #[trigger] b.at(i, j) == pb.at(i, j) by {}
            x = x + 1;
        }
        y = y + 1;
    }
    b
}

} // verus!
