use vstd::prelude::*;
use crate::buffer::{PixelBuffer, Color, rows_of, black, white, solid};

verus! {

/// The number of white pixels in a row.
pub open spec fn row_whites(r: Seq<Color>) -> int
    decreases r.len(),
{
    if r.len() == 0 {
        0
    } else {
        row_whites(r.drop_last()) + if r.last() == white() { 1int } else { 0int }
    }
}

/// The number of white pixels in a buffer.
pub open spec fn white_count(rows: Seq<Seq<Color>>) -> int
    decreases rows.len(),
{
    if rows.len() == 0 {
        0
    } else {
        white_count(rows.drop_last()) + row_whites(rows.last())
    }
}

pub open spec fn is_white(c: Color) -> int {
    if c == white() { 1 } else { 0 }
}

proof fn lemma_row_update(r: Seq<Color>, x: int, c: Color)
    requires
        0 <= x < r.len(),
    ensures
        row_whites(r.update(x, c)) == row_whites(r) - is_white(r[x]) + is_white(c),
    decreases r.len(),
{
    let u = r.update(x, c);
    if x == r.len() - 1 {
        assert(u.drop_last() =~= r.drop_last());
    } else {
        assert(u.drop_last() =~= r.drop_last().update(x, c));
        lemma_row_update(r.drop_last(), x, c);
    }
}

proof fn lemma_rows_update(rows: Seq<Seq<Color>>, y: int, row: Seq<Color>)
    requires
        0 <= y < rows.len(),
    ensures
        white_count(rows.update(y, row)) == white_count(rows) - row_whites(rows[y]) + row_whites(row),
    decreases rows.len(),
{
    let u = rows.update(y, row);
    if y == rows.len() - 1 {
        assert(u.drop_last() =~= rows.drop_last());
    } else {
        assert(u.drop_last() =~= rows.drop_last().update(y, row));
        lemma_rows_update(rows.drop_last(), y, row);
    }
}

proof fn lemma_black_row(n: nat)
    ensures
        row_whites(Seq::new(n, |x: int| black())) == 0,
    decreases n,
{
    if n > 0 {
        assert(Seq::new(n, |x: int| black()).drop_last() =~= Seq::new((n - 1) as nat, |x: int| black()));
        lemma_black_row((n - 1) as nat);
    }
}

proof fn lemma_black_rows(w: nat, h: nat)
    ensures
        white_count(solid(w as int, h as int, black())) == 0,
    decreases h,
{
    lemma_black_row(w);
    if h > 0 {
        assert(solid(w as int, h as int, black()).drop_last() =~= solid(w as int, h - 1, black()));
        assert(solid(w as int, h as int, black()).last() =~= Seq::new(w, |x: int| black()));
        lemma_black_rows(w, (h - 1) as nat);
    }
}

/// Whether `count` aggregated pixels meet the target of `ratio` percent of a
/// `width` by `height` area, or fill it.
pub open spec fn target_reached(count: int, ratio: int, width: int, height: int) -> bool {
    count * 100 >= ratio * width * height || count >= width * height
}

/// Whether one of the four neighbours of `(x, y)` inside the buffer is white.
pub open spec fn touches_cluster(b: PixelBuffer, x: int, y: int) -> bool {
    ||| (y > 0 && b.at(x, y - 1) == white())
    ||| (y + 1 < b.h() && b.at(x, y + 1) == white())
    ||| (x + 1 < b.w() && b.at(x + 1, y) == white())
    ||| (x > 0 && b.at(x - 1, y) == white())
}

/// Where a particle at `(x, y)` goes on direction `d` (0 up, 1 right, 2 down,
/// 3 left); a step off the buffer is not taken.
pub open spec fn moved(x: int, y: int, d: int, width: int, height: int) -> (int, int) {
    if d == 0 && y != 0 {
        (x, y - 1)
    } else if d == 1 && x != width - 1 {
        (x + 1, y)
    } else if d == 2 && y != height - 1 {
        (x, y + 1)
    } else if d == 3 && x != 0 {
        (x - 1, y)
    } else {
        (x, y)
    }
}

/// Diffusion-limited aggregation: a white cluster grown from the centre by
/// particles that walk at random until they touch it.
pub struct Dla {
    /// The cluster mask: white where particles have stuck.
    pub buffer: PixelBuffer,
    pub width: u32,
    pub height: u32,
    /// Target share of the area, in percent.
    pub ratio: u32,
    /// The number of white pixels.
    pub count: u64,
    /// The particle in flight, if one has been released.
    pub walker: Option<(u32, u32)>,
}

impl Dla {
    pub open spec fn done(&self) -> bool {
        target_reached(self.count as int, self.ratio as int, self.width as int, self.height as int)
    }

    pub open spec fn wf(&self) -> bool {
        &&& self.buffer.wf()
        &&& self.buffer.w() == self.width
        &&& self.buffer.h() == self.height
        &&& forall|x: int, y: int| 0 <= x < self.width && 0 <= y < self.height ==>
            (#[trigger] self.buffer.at(x, y) == white() || self.buffer.at(x, y) == black())
        &&& self.buffer.at((self.width / 2) as int, (self.height / 2) as int) == white()
        &&& white_count(rows_of(self.buffer)) == self.count
        &&& 1 <= self.count <= self.width * self.height
        &&& (self.count == 1 || !target_reached(self.count - 1, self.ratio as int, self.width as int, self.height as int))
        &&& (self.walker matches Some((x, y)) ==> {
            &&& x < self.width
            &&& y < self.height
            &&& self.buffer.at(x as int, y as int) == black()
            &&& !self.done()
        })
    }

    /// A black `width` by `height` mask with its centre pixel white and no
    /// particle released.
    pub fn new(width: u32, height: u32, ratio: u32) -> (r: Dla)
        requires
            width >= 1,
            height >= 1,
            3 * (width as int) * (height as int) <= usize::MAX,
        ensures
            r.wf(),
            r.width == width,
            r.height == height,
            r.ratio == ratio,
            r.count == 1,
            r.walker is None,
            rows_of(r.buffer) == solid(width as int, height as int, black()).update(
                (height / 2) as int,
                solid(width as int, height as int, black())[(height / 2) as int].update((width / 2) as int, white()),
            ),
    {
        let mut buffer = PixelBuffer::solid(width, height, (0, 0, 0));
        let ghost b0 = rows_of(buffer);
        buffer.set(width / 2, height / 2, (255, 255, 255));
        proof {
            lemma_black_rows(width as nat, height as nat);
            let cy = (height / 2) as int;
            let cx = (width / 2) as int;
            lemma_row_update(b0[cy], cx, white());
            lemma_rows_update(b0, cy, b0[cy].update(cx, white()));
            assert(width * height >= 1) by (nonlinear_arith)
                requires width >= 1, height >= 1;
        }
        Dla { buffer, width, height, ratio, count: 1, walker: None }
    }

    /// Advances the simulation by one tick, with two random draws `r1` and `r2`.
    /// With no particle in flight, one is released at `(r1 % width, r2 % height)`
    /// if that pixel is black. A particle in flight sticks, turning white, when a
    /// neighbour is white; otherwise it steps in direction `r1 % 4`.
    /// Once the target is reached nothing changes.
    pub fn step(&mut self, r1: u32, r2: u32)
        requires
            old(self).wf(),
        ensures
            final(self).wf(),
            final(self).width == old(self).width,
            final(self).height == old(self).height,
            final(self).ratio == old(self).ratio,
            old(self).done() ==> *final(self) == *old(self),
            !old(self).done() && old(self).walker is None ==> {
                let x = r1 % old(self).width;
                let y = r2 % old(self).height;
                &&& rows_of(final(self).buffer) == rows_of(old(self).buffer)
                &&& final(self).count == old(self).count
                &&& final(self).walker == if old(self).buffer.at(x as int, y as int) == black() {
                    Some((x, y))
                } else {
                    None
                }
            },
            !old(self).done() ==> (old(self).walker matches Some((x, y)) ==> {
                if touches_cluster(old(self).buffer, x as int, y as int) {
                    &&& rows_of(final(self).buffer) == rows_of(old(self).buffer).update(
                        y as int,
                        rows_of(old(self).buffer)[y as int].update(x as int, white()),
                    )
                    &&& final(self).count == old(self).count + 1
                    &&& final(self).walker is None
                } else {
                    let m = moved(x as int, y as int, (r1 % 4) as int, old(self).width as int, old(self).height as int);
                    &&& rows_of(final(self).buffer) == rows_of(old(self).buffer)
                    &&& final(self).count == old(self).count
                    &&& final(self).walker == Some((m.0 as u32, m.1 as u32))
                }
            }),
    {
        if self.is_done() {
            return;
        }
        let width = self.width;
        let height = self.height;
        match self.walker {
            None => {
                let x = r1 % width;
                let y = r2 % height;
                let p = self.buffer.get(x, y);
                if p.0 == 0 && p.1 == 0 && p.2 == 0 {
                    self.walker = Some((x, y));
                }
            },
            Some((x, y)) => {
                let touching = (y != 0 && self.buffer.get(x, y - 1).0 == 255)
                    || (y != height - 1 && self.buffer.get(x, y + 1).0 == 255)
                    || (x != width - 1 && self.buffer.get(x + 1, y).0 == 255)
                    || (x != 0 && self.buffer.get(x - 1, y).0 == 255);
                if touching {
                    let ghost b0 = rows_of(self.buffer);
                    let ghost w0 = self.buffer;
                    self.buffer.set(x, y, (255, 255, 255));
                    proof {
                        lemma_row_update(b0[y as int], x as int, white());
                        lemma_rows_update(b0, y as int, b0[y as int].update(x as int, white()));
                        assert forall|i: int, j: int| 0 <= i < width && 0 <= j < height implies
                            (#[trigger] self.buffer.at(i, j) == white() || self.buffer.at(i, j) == black()) by {
                            assert(w0.at(i, j) == white() || w0.at(i, j) == black());
                        }
                    }
                    assert(width * height <= 0xffff_ffff * 0xffff_ffff) by (nonlinear_arith)
                        requires width <= 0xffff_ffff, height <= 0xffff_ffff;
                    self.count = self.count + 1;
                    self.walker = None;
                } else {
                    let d = r1 % 4;
                    let (nx, ny) = if d == 0 && y != 0 {
                        (x, y - 1)
                    } else if d == 1 && x != width - 1 {
                        (x + 1, y)
                    } else if d == 2 && y != height - 1 {
                        (x, y + 1)
                    } else if d == 3 && x != 0 {
                        (x - 1, y)
                    } else {
                        (x, y)
                    };
                    proof {
                        let b = self.buffer;
                        assert(b.at(x as int, y as int) == white() || b.at(x as int, y as int) == black());
                        assert(b.at(nx as int, ny as int) == white() || b.at(nx as int, ny as int) == black());
                    }
                    self.walker = Some((nx, ny));
                }
            },
        }
    }

    pub fn is_done(&self) -> (r: bool)
        requires
            self.wf(),
        ensures
            r == self.done(),
    {
        let w = self.width as u128;
        let h = self.height as u128;
        let c = self.count as u128;
        let r = self.ratio as u128;
        assert(w * h <= 0xffff_ffff_ffff_ffff && r * w <= 0xffff_ffff_ffff_ffff) by (nonlinear_arith)
            requires w <= 0xffff_ffff, h <= 0xffff_ffff, r <= 0xffff_ffff;
        let rw = r * w;
        assert(rw * h <= 0xffff_ffff_ffff_ffff * 0xffff_ffff) by (nonlinear_arith)
            requires rw <= 0xffff_ffff_ffff_ffff, h <= 0xffff_ffff;
        c >= w * h || c * 100 >= rw * h
    }
}

} // verus!
