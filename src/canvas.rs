//! A raster of pixels: `width` columns by `height` rows, whatever a pixel
//! holds, stored row after row.
use vstd::prelude::*;

use crate::ppm::{ppm, ppm_text};

verus! {

pub struct Canvas<P> {
    width: usize,
    height: usize,
    data: Vec<P>,
}

impl<P> Canvas<P> {
    /// The pixels fill the raster exactly.
    pub closed spec fn wf(&self) -> bool {
        &&& self.width * self.height <= usize::MAX
        &&& self.data@.len() == self.width * self.height
    }

    /// Number of columns.
    pub closed spec fn columns(&self) -> nat {
        self.width as nat
    }

    /// Number of rows.
    pub closed spec fn rows(&self) -> nat {
        self.height as nat
    }

    /// The pixels, the top row first, each row from left to right.
    pub closed spec fn pixels(&self) -> Seq<P> {
        self.data@
    }

    /// The pixel in column `x` of row `y`.
    pub open spec fn pixel(&self, x: int, y: int) -> P {
        self.pixels()[y * self.columns() + x]
    }

    /// `x`, `y` name a pixel of the raster.
    pub open spec fn holds(&self, x: int, y: int) -> bool {
        0 <= x < self.columns() && 0 <= y < self.rows()
    }

    pub fn get_width(&self) -> (r: usize)
        ensures
            r == self.columns(),
    {
        self.width
    }

    pub fn get_height(&self) -> (r: usize)
        ensures
            r == self.rows(),
    {
        self.height
    }

    /// The pixels, row after row.
    pub fn data(&self) -> (r: &Vec<P>)
        requires
            self.wf(),
        ensures
            r@ == self.pixels(),
            r@.len() == self.columns() * self.rows(),
    {
        &self.data
    }
}

proof fn lemma_index_in_range(x: int, y: int, w: int, h: int)
    requires
        0 <= x < w,
        0 <= y < h,
    ensures
        0 <= y * w + x < w * h,
{
    assert(y * w + x < w * h) by (nonlinear_arith)
        requires
            0 <= x < w,
            0 <= y < h,
    ;
    assert(0 <= y * w) by (nonlinear_arith)
        requires
            0 <= x < w,
            0 <= y < h,
    ;
}

proof fn lemma_index_unique(x1: int, y1: int, x2: int, y2: int, w: int)
    requires
        0 <= x1 < w,
        0 <= x2 < w,
        0 <= y1,
        0 <= y2,
        y1 * w + x1 == y2 * w + x2,
    ensures
        x1 == x2 && y1 == y2,
{
    if y1 < y2 {
        assert(y1 * w + x1 < y2 * w + x2) by (nonlinear_arith)
            requires
                0 <= x1 < w,
                0 <= x2,
                y1 < y2,
        ;
    } else if y2 < y1 {
        assert(y2 * w + x2 < y1 * w + x1) by (nonlinear_arith)
            requires
                0 <= x2 < w,
                0 <= x1,
                y2 < y1,
        ;
    }
}

impl<P: Copy> Canvas<P> {
    /// A raster of `width` by `height` pixels, each of them `fill`.
    pub fn new(width: usize, height: usize, fill: P) -> (r: Self)
        requires
            width * height <= usize::MAX,
        ensures
            r.wf(),
            r.columns() == width,
            r.rows() == height,
            forall|x: int, y: int| r.holds(x, y) ==> r.pixel(x, y) == fill,
    {
        let n = width * height;
        let data = filled(n, fill);
        let r = Canvas { width, height, data };
        proof {
            assert forall|x: int, y: int| r.holds(x, y) implies r.pixel(x, y) == fill by {
                lemma_index_in_range(x, y, width as int, height as int);
            }
        }
        r
    }

    /// Sets the pixel in column `x` of row `y`; an error, with the raster
    /// unchanged, where there is no such pixel.
    pub fn write_pixel(&mut self, x: usize, y: usize, color: P) -> (r: Result<(), &'static str>)
        requires
            old(self).wf(),
        ensures
            final(self).wf(),
            r is Ok <==> old(self).holds(x as int, y as int),
            final(self).columns() == old(self).columns(),
            final(self).rows() == old(self).rows(),
            r is Ok ==> final(self).pixel(x as int, y as int) == color,
            forall|i: int, j: int|
                final(self).holds(i, j) && (i != x || j != y) ==> final(self).pixel(i, j)
                    == old(self).pixel(i, j),
    {
        if x < self.width && y < self.height {
            proof {
                lemma_index_in_range(x as int, y as int, self.width as int, self.height as int);
            }
            let k = y * self.width + x;
            let ghost before = self.data@;
            self.data.set(k, color);
            proof {
                assert forall|i: int, j: int|
                    self.holds(i, j) && (i != x || j != y) implies self.pixel(i, j) == before[j
                    * self.width + i] by {
                    lemma_index_in_range(i, j, self.width as int, self.height as int);
                    if j * self.width + i == k {
                        lemma_index_unique(i, j, x as int, y as int, self.width as int);
                    }
                }
            }
            Ok(())
        } else {
            Err("Tried to write to a pixel outside the canvas")
        }
    }

    /// Sets every pixel to `color`.
    pub fn fill(&mut self, color: P)
        requires
            old(self).wf(),
        ensures
            final(self).wf(),
            final(self).columns() == old(self).columns(),
            final(self).rows() == old(self).rows(),
            forall|x: int, y: int| final(self).holds(x, y) ==> final(self).pixel(x, y) == color,
    {
        self.data = filled(self.width * self.height, color);
        proof {
            assert forall|x: int, y: int| self.holds(x, y) implies self.pixel(x, y) == color by {
                lemma_index_in_range(x, y, self.width as int, self.height as int);
            }
        }
    }

    /// The pixel in column `column` of row `row`; an error where there is
    /// no such pixel.
    pub fn get_color(&self, column: usize, row: usize) -> (r: Result<P, ()>)
        requires
            self.wf(),
        ensures
            r is Ok <==> self.holds(column as int, row as int),
            r matches Ok(c) ==> c == self.pixel(column as int, row as int),
    {
        if column < self.width && row < self.height {
            proof {
                lemma_index_in_range(
                    column as int,
                    row as int,
                    self.width as int,
                    self.height as int,
                );
            }
            Ok(self.data[row * self.width + column])
        } else {
            Err(())
        }
    }
}

fn filled<P: Copy>(n: usize, fill: P) -> (r: Vec<P>)
    ensures
        r@.len() == n,
        forall|k: int| 0 <= k < n ==> r@[k] == fill,
{
    let mut r: Vec<P> = Vec::with_capacity(n);
    let mut k: usize = 0;
    while k < n
        invariant
            k <= n,
            r@.len() == k,
            forall|i: int| 0 <= i < k ==> r@[i] == fill,
        decreases n - k,
    {
        r.push(fill);
        k = k + 1;
    }
    r
}

/// The levels of row `y` of a raster of quantised pixels: red, green and
/// blue of each pixel in turn.
pub open spec fn row_levels(c: &Canvas<[u8; 3]>, y: int) -> Seq<u8> {
    Seq::new(3 * c.columns(), |k: int| c.pixel(k / 3, y)@[k % 3])
}

/// The levels of every row of a raster of quantised pixels.
pub open spec fn raster_levels(c: &Canvas<[u8; 3]>) -> Seq<Seq<u8>> {
    Seq::new(c.rows(), |y: int| row_levels(c, y))
}

impl Canvas<[u8; 3]> {
    /// The raster as a plain-text PPM file (see `ppm_text`), each pixel
    /// given by its red, green and blue levels.
    pub fn to_ppm(&self) -> (r: String)
        requires
            self.wf(),
        ensures
            r@ == ppm(self.columns(), self.rows(), raster_levels(self)),
    {
        let mut rows: Vec<Vec<u8>> = Vec::new();
        let mut y: usize = 0;
        while y < self.height
            invariant
                y <= self.height,
                self.wf(),
                rows@.len() == y,
                forall|j: int| 0 <= j < y ==> rows@[j]@ == row_levels(self, j),
            decreases self.height - y,
        {
            let mut row: Vec<u8> = Vec::new();
            let mut x: usize = 0;
            while x < self.width
                invariant
                    x <= self.width,
                    y < self.height,
                    self.wf(),
                    row@.len() == 3 * x,
                    forall|k: int| 0 <= k < 3 * x ==> row@[k] == self.pixel(k / 3, y as int)@[k % 3],
                decreases self.width - x,
            {
                proof {
                    lemma_index_in_range(x as int, y as int, self.width as int, self.height as int);
                }
                let c = self.data[y * self.width + x];
                row.push(c[0]);
                row.push(c[1]);
                row.push(c[2]);
                x = x + 1;
            }
            proof {
                assert(row@ =~= row_levels(self, y as int));
            }
            rows.push(row);
            y = y + 1;
        }
        proof {
            assert(rows@.map_values(|row: Vec<u8>| row@) =~= raster_levels(self));
        }
        ppm_text(self.width, self.height, &rows)
    }
}

} // verus!
