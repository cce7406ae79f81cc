use vstd::prelude::*;

verus! {

/// A colour as (red, green, blue) channel values.
pub type Color = (u8, u8, u8);

pub open spec fn black() -> Color {
    (0u8, 0u8, 0u8)
}

pub open spec fn white() -> Color {
    (255u8, 255u8, 255u8)
}

/// A grid of RGB pixels, stored in an `image::ImageBuffer`. The image type
/// carries a `Pixel` bound that cannot be declared to Verus, so it is kept in
/// a private field; `rows_of` names what it holds.
#[verifier::external_body]
pub struct PixelBuffer {
    img: image::ImageBuffer<image::Rgb<u8>, std::vec::Vec<u8>>,
}

/// What the buffer holds: one sequence of pixels per row, top row first.
pub uninterp spec fn rows_of(b: PixelBuffer) -> Seq<Seq<Color>>;

/// A buffer `w` pixels wide and `h` pixels tall, every row of equal width.
pub open spec fn has_dims(rows: Seq<Seq<Color>>, w: int, h: int) -> bool {
    &&& rows.len() == h
    &&& forall|y: int| 0 <= y < h ==> #[trigger] rows[y].len() == w
}

/// A buffer of all-equal pixels.
pub open spec fn solid(w: int, h: int, c: Color) -> Seq<Seq<Color>> {
    Seq::new(h as nat, |y: int| Seq::new(w as nat, |x: int| c))
}

/// Relies on `image::ImageBuffer::new`: a `w` by `h` buffer of black pixels;
/// it panics when `3 * w * h` overflows `usize`.
#[verifier::external_body]
fn image_new(w: u32, h: u32) -> (r: PixelBuffer)
    requires
        3 * (w as int) * (h as int) <= usize::MAX,
    ensures
        rows_of(r) == solid(w as int, h as int, black()),
{
    PixelBuffer { img: image::ImageBuffer::new(w, h) }
}

/// Relies on `image::ImageBuffer::get_pixel`: the pixel in column `x` of row `y`;
/// it panics outside the bounds.
#[verifier::external_body]
fn image_get(b: &PixelBuffer, x: u32, y: u32) -> (r: Color)
    requires
        y < rows_of(*b).len(),
        x < rows_of(*b)[y as int].len(),
    ensures
        r == rows_of(*b)[y as int][x as int],
{
    let p = b.img.get_pixel(x, y);
    (p.0[0], p.0[1], p.0[2])
}

/// Relies on `image::ImageBuffer::put_pixel`: replaces the pixel in column `x`
/// of row `y` and nothing else; it panics outside the bounds.
#[verifier::external_body]
fn image_put(b: &mut PixelBuffer, x: u32, y: u32, c: Color)
    requires
        y < rows_of(*old(b)).len(),
        x < rows_of(*old(b))[y as int].len(),
    ensures
        rows_of(*final(b)) == rows_of(*old(b)).update(
            y as int,
            rows_of(*old(b))[y as int].update(x as int, c),
        ),
{
    b.img.put_pixel(x, y, image::Rgb([c.0, c.1, c.2]))
}

/// Relies on `image::ImageBuffer::width`: the number of columns.
#[verifier::external_body]
fn image_width(b: &PixelBuffer) -> (r: u32)
    requires
        rows_of(*b).len() > 0,
    ensures
        r == rows_of(*b)[0].len(),
{
    b.img.width()
}

/// Relies on `image::ImageBuffer::height`: the number of rows.
#[verifier::external_body]
fn image_height(b: &PixelBuffer) -> (r: u32)
    ensures
        r == rows_of(*b).len(),
{
    b.img.height()
}

impl PixelBuffer {
    pub open spec fn rows(&self) -> Seq<Seq<Color>> {
        rows_of(*self)
    }

    pub open spec fn w(&self) -> int {
        rows_of(*self)[0].len() as int
    }

    pub open spec fn h(&self) -> int {
        rows_of(*self).len() as int
    }

    /// At least one row and one column, every row as wide as the first, and
    /// small enough that `3 * w * h` fits in `usize`.
    pub open spec fn wf(&self) -> bool {
        &&& self.h() >= 1
        &&& self.w() >= 1
        &&& has_dims(self.rows(), self.w(), self.h())
        &&& 3 * self.w() * self.h() <= usize::MAX
    }

    pub open spec fn at(&self, x: int, y: int) -> Color {
        rows_of(*self)[y][x]
    }

    /// A `width` by `height` buffer filled with `color`.
    pub fn solid(width: u32, height: u32, color: Color) -> (r: PixelBuffer)
        requires
            width >= 1,
            height >= 1,
            3 * (width as int) * (height as int) <= usize::MAX,
        ensures
            r.wf(),
            r.rows() == solid(width as int, height as int, color),
    {
        let mut b = image_new(width, height);
        let mut y: u32 = 0;
        while y < height
            invariant
                y <= height,
                has_dims(rows_of(b), width as int, height as int),
                forall|j: int, i: int| 0 <= j < y && 0 <= i < width ==> #[trigger] rows_of(b)[j][i] == color,
                forall|j: int, i: int| y <= j < height && 0 <= i < width ==> #[trigger] rows_of(b)[j][i] == black(),
            decreases height - y,
        {
            let mut x: u32 = 0;
            while x < width
                invariant
                    y < height,
                    x <= width,
                    has_dims(rows_of(b), width as int, height as int),
                    forall|j: int, i: int| 0 <= j < y && 0 <= i < width ==> #[trigger] rows_of(b)[j][i] == color,
                    forall|i: int| 0 <= i < x ==> #[trigger] rows_of(b)[y as int][i] == color,
                    forall|j: int, i: int| y < j < height && 0 <= i < width ==> #[trigger] rows_of(b)[j][i] == black(),
                decreases width - x,
            {
                image_put(&mut b, x, y, color);
                x = x + 1;
            }
            y = y + 1;
        }
        assert(rows_of(b) =~~= solid(width as int, height as int, color));
        b
    }

    pub fn width(&self) -> (r: u32)
        requires
            self.wf(),
        ensures
            r == self.w(),
    {
        image_width(self)
    }

    pub fn height(&self) -> (r: u32)
        ensures
            r == self.h(),
    {
        image_height(self)
    }

    pub fn get(&self, x: u32, y: u32) -> (r: Color)
        requires
            self.wf(),
            x < self.w(),
            y < self.h(),
        ensures
            r == self.at(x as int, y as int),
    {
        image_get(self, x, y)
    }

    pub fn set(&mut self, x: u32, y: u32, c: Color)
        requires
            old(self).wf(),
            x < old(self).w(),
            y < old(self).h(),
        ensures
            final(self).wf(),
            final(self).rows() == old(self).rows().update(y as int, old(self).rows()[y as int].update(x as int, c)),
    {
        image_put(self, x, y, c);
        assert(self.rows()[0].len() == old(self).rows()[0].len());
    }
}

} // verus!
