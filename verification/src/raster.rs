//! The image buffer: a flat, row-major pixel array with verified indexing,
//! band writes, and the deterministic fill that turns escape-time outcomes
//! into pixel intensities.

use vstd::prelude::*;
use vstd::pervasive::VecAdditionalExecFns;
use vstd::arithmetic::div_mod::lemma_fundamental_div_mod_converse;
use crate::bands::{covers_rows, is_partition, Band};
use crate::escape::{escape_color, escape_color_spec, IterationResult, Pixel};

verus! {

/// A rectangular grayscale image: `width * height` pixel intensities in
/// row-major order, the pixel at `(column, row)` stored at index
/// `row * width + column`.
pub struct Image<P> {
    width: usize,
    height: usize,
    pixels: Vec<P>,
}

/// The intensities that a sequence of per-pixel iteration outcomes renders
/// to: pixel `k` shows the escape color of outcome `k`.
pub open spec fn rendered_spec<P: Pixel>(results: Seq<IterationResult>) -> Seq<P> {
    Seq::new(results.len(), |k: int| escape_color_spec::<P>(results[k]))
}

/// Every divergence count in the sequence lies below the pixel type's
/// maximum, as the escape iteration's limit guarantees.
pub open spec fn counts_below_max<P: Pixel>(results: Seq<IterationResult>) -> bool {
    forall|k: int|
        0 <= k < results.len() ==> ((#[trigger] results[k]) matches IterationResult::Divergent(n)
            ==> (n as nat) < P::spec_max())
}

impl<P> Image<P> {
    /// The pixel width of the image.
    pub closed spec fn spec_width(self) -> nat {
        self.width as nat
    }

    /// The pixel height of the image.
    pub closed spec fn spec_height(self) -> nat {
        self.height as nat
    }

    /// The flat row-major pixel contents.
    pub closed spec fn spec_pixels(self) -> Seq<P> {
        self.pixels@
    }

    /// The buffer holds exactly one entry per pixel.
    pub open spec fn wf(self) -> bool {
        self.spec_pixels().len() == self.spec_width() * self.spec_height()
    }

    /// The image width.
    pub fn width(&self) -> (w: usize)
        ensures
            w as nat == self.spec_width(),
    {
        self.width
    }

    /// The image height.
    pub fn height(&self) -> (h: usize)
        ensures
            h as nat == self.spec_height(),
    {
        self.height
    }

    /// The completed buffer as a flat row-major sequence, ready for an
    /// external encoder.
    pub fn pixels(&self) -> (p: &Vec<P>)
        ensures
            p@ == self.spec_pixels(),
    {
        &self.pixels
    }

    /// Read the pixel at `(column, row)`.
    pub fn get_pixel(&self, column: usize, row: usize) -> (p: &P)
        requires
            self.wf(),
            column < self.spec_width(),
            row < self.spec_height(),
        ensures
            *p == self.spec_pixels()[row as int * self.spec_width() as int + column as int],
    {
        let total: usize = self.pixels.len();
        proof {
            lemma_row_major_index_in_range(
                self.spec_width() as int,
                self.spec_height() as int,
                column as int,
                row as int,
            );
            assert((row as int) * (self.width as int) + (column as int) < (total as int));
        }
        let idx: usize = row * self.width + column;
        &self.pixels[idx]
    }

    /// Overwrite the pixel at `(column, row)`, leaving every other pixel
    /// unchanged.
    pub fn set_pixel(&mut self, column: usize, row: usize, value: P)
        requires
            old(self).wf(),
            column < old(self).spec_width(),
            row < old(self).spec_height(),
        ensures
            final(self).wf(),
            final(self).spec_width() == old(self).spec_width(),
            final(self).spec_height() == old(self).spec_height(),
            final(self).spec_pixels() == old(self).spec_pixels().update(
                row as int * old(self).spec_width() as int + column as int,
                value,
            ),
    {
        let total: usize = self.pixels.len();
        proof {
            lemma_row_major_index_in_range(
                self.spec_width() as int,
                self.spec_height() as int,
                column as int,
                row as int,
            );
            assert((row as int) * (self.width as int) + (column as int) < (total as int));
        }
        let idx: usize = row * self.width + column;
        self.pixels.set(idx, value);
    }

    /// List every pixel of the image as a `(column, row)` pair, in
    /// row-major order: entry `k` is `(k % width, k / width)`.
    #[verifier::loop_isolation(false)]
    pub fn get_indices(&self) -> (v: Vec<(usize, usize)>)
        requires
            self.wf(),
        ensures
            v@.len() == self.spec_width() * self.spec_height(),
            forall|k: int|
                0 <= k < v@.len() ==> (#[trigger] v@[k]).0 as int == k % (self.spec_width() as int)
                    && v@[k].1 as int == k / (self.spec_width() as int),
    {
        let mut v: Vec<(usize, usize)> = Vec::new();
        let mut row: usize = 0;
        while row < self.height
            invariant
                row <= self.height,
                v@.len() == row as int * self.width as int,
                forall|k: int|
                    0 <= k < v@.len() ==> (#[trigger] v@[k]).0 as int == k % (self.width as int)
                        && v@[k].1 as int == k / (self.width as int),
            decreases self.height - row,
        {
            let mut col: usize = 0;
            while col < self.width
                invariant
                    row < self.height,
                    col <= self.width,
                    v@.len() == row as int * self.width as int + col as int,
                    forall|k: int|
                        0 <= k < v@.len() ==> (#[trigger] v@[k]).0 as int == k % (self.width as int)
                            && v@[k].1 as int == k / (self.width as int),
                decreases self.width - col,
            {
                proof {
                    lemma_fundamental_div_mod_converse(
                        v@.len() as int,
                        self.width as int,
                        row as int,
                        col as int,
                    );
                }
                v.push((col, row));
                col = col + 1;
            }
            proof {
                assert((row as int + 1) * (self.width as int) == row as int * self.width as int
                    + self.width as int) by (nonlinear_arith);
            }
            row = row + 1;
        }
        proof {
            assert(self.height as int * self.width as int == self.width as int
                * self.height as int) by (nonlinear_arith);
        }
        v
    }
}

/// The buffer that results from overwriting one band's rows with `values`
/// and leaving every pixel outside the band untouched.
pub open spec fn band_write_spec<P>(pixels: Seq<P>, width: nat, band: Band, values: Seq<P>) -> Seq<
    P,
> {
    Seq::new(
        pixels.len(),
        |k: int|
            if band.top as int * width as int <= k
                && k < (band.top as int + band.num_rows as int) * width as int {
                values[k - band.top as int * width as int]
            } else {
                pixels[k]
            },
    )
}

/// Arithmetic bounds of one band's slice of the flat buffer.
proof fn lemma_band_slice_bounds(top: int, rows: int, width: int, height: int)
    requires
        0 <= top,
        0 <= rows,
        0 <= width,
        0 <= height,
        top + rows <= height,
    ensures
        top * width + rows * width == (top + rows) * width,
        top * width <= (top + rows) * width,
        (top + rows) * width <= height * width,
        height * width == width * height,
        0 <= top * width,
        0 <= rows * width,
{
    assert(0 <= top * width) by (nonlinear_arith)
        requires
            0 <= top,
            0 <= width,
    ;
    assert(0 <= rows * width) by (nonlinear_arith)
        requires
            0 <= rows,
            0 <= width,
    ;
    assert(top * width + rows * width == (top + rows) * width) by (nonlinear_arith);
    assert(top * width <= (top + rows) * width) by (nonlinear_arith)
        requires
            0 <= rows,
            0 <= width,
    ;
    assert((top + rows) * width <= height * width) by (nonlinear_arith)
        requires
            top + rows <= height,
            0 <= width,
    ;
    assert(height * width == width * height) by (nonlinear_arith);
}

/// Rendering is deterministic and idempotent: two buffers rendered from
/// the same per-pixel outcomes hold identical pixels, whether each was
/// filled in one pass or band by band under any partition (any worker
/// count), and whether it was rendered once or again on a fresh buffer.
pub proof fn lemma_render_deterministic<P: Pixel>(
    a: Image<P>,
    b: Image<P>,
    results: Seq<IterationResult>,
)
    requires
        a.spec_pixels() == rendered_spec::<P>(results),
        b.spec_pixels() == rendered_spec::<P>(results),
    ensures
        a.spec_pixels() == b.spec_pixels(),
{
}

/// A pixel's row-major index lies inside the buffer: if `column < width`
/// and `row < height` then `row * width + column < width * height`.
pub proof fn lemma_row_major_index_in_range(width: int, height: int, column: int, row: int)
    requires
        0 <= column < width,
        0 <= row < height,
    ensures
        0 <= row * width + column < width * height,
{
    assert(0 <= row * width + column < width * height) by (nonlinear_arith)
        requires
            0 <= column < width,
            0 <= row < height,
    ;
}

impl<P: Pixel> Image<P> {
    /// Make a blank image of `width * height` pixels, all at the pixel
    /// type's minimum (zero) value. A zero dimension yields an empty
    /// buffer.
    pub fn new(width: usize, height: usize) -> (img: Self)
        requires
            width * height <= usize::MAX,
        ensures
            img.wf(),
            img.spec_width() == width as nat,
            img.spec_height() == height as nat,
            forall|k: int|
                0 <= k < img.spec_pixels().len() ==> img.spec_pixels()[k] == P::spec_from_nat(0),
    {
        let total: usize = width * height;
        let mut pixels: Vec<P> = Vec::new();
        let mut k: usize = 0;
        while k < total
            invariant
                k <= total,
                pixels@.len() == k as nat,
                forall|j: int| 0 <= j < k ==> pixels@[j] == P::spec_from_nat(0),
            decreases total - k,
        {
            pixels.push(P::min_value());
            k = k + 1;
        }
        Image { width, height, pixels }
    }

    /// The contents of row `i`: exactly `width` contiguous entries of the
    /// flat buffer. A row index out of range is a caller error, excluded
    /// by the precondition rather than clamped.
    #[verifier::loop_isolation(false)]
    pub fn row(&self, i: usize) -> (r: Vec<P>)
        requires
            self.wf(),
            i < self.spec_height(),
        ensures
            r@ == self.spec_pixels().subrange(
                i as int * self.spec_width() as int,
                (i as int + 1) * self.spec_width() as int,
            ),
    {
        let total: usize = self.pixels.len();
        proof {
            lemma_band_slice_bounds(i as int, 1, self.width as int, self.height as int);
        }
        let base: usize = i * self.width;
        let mut r: Vec<P> = Vec::new();
        let mut col: usize = 0;
        while col < self.width
            invariant
                col <= self.width,
                r@.len() == col as nat,
                forall|c: int| 0 <= c < col ==> r@[c] == self.pixels@[base + c],
            decreases self.width - col,
        {
            r.push(self.pixels[base + col]);
            col = col + 1;
        }
        proof {
            assert(r@ =~= self.spec_pixels().subrange(
                i as int * self.spec_width() as int,
                (i as int + 1) * self.spec_width() as int,
            ));
        }
        r
    }

    /// Overwrite exactly the rows of one band with the given values (one
    /// value per pixel of the band, row-major), leaving every pixel
    /// outside the band unchanged. Disjoint bands therefore never disturb
    /// one another's pixels.
    #[verifier::loop_isolation(false)]
    pub fn write_band(&mut self, band: Band, values: &Vec<P>)
        requires
            old(self).wf(),
            band.top + band.num_rows <= old(self).spec_height(),
            values@.len() == band.num_rows as nat * old(self).spec_width(),
        ensures
            final(self).wf(),
            final(self).spec_width() == old(self).spec_width(),
            final(self).spec_height() == old(self).spec_height(),
            final(self).spec_pixels() == band_write_spec(
                old(self).spec_pixels(),
                old(self).spec_width(),
                band,
                values@,
            ),
    {
        let ghost orig = *self;
        let total: usize = self.pixels.len();
        proof {
            lemma_band_slice_bounds(
                band.top as int,
                band.num_rows as int,
                self.width as int,
                self.height as int,
            );
        }
        let base: usize = band.top * self.width;
        let count: usize = values.len();
        let mut j: usize = 0;
        while j < count
            invariant
                j <= count,
                self.width == orig.width,
                self.height == orig.height,
                self.pixels@.len() == orig.pixels@.len(),
                forall|k: int|
                    base <= k < base + j ==> self.pixels@[k] == values@[k - base],
                forall|k: int|
                    0 <= k < self.pixels@.len() && !(base <= k < base + j) ==> self.pixels@[k]
                        == orig.pixels@[k],
            decreases count - j,
        {
            self.pixels.set(base + j, values[j]);
            j = j + 1;
        }
        proof {
            assert(self.spec_pixels() =~= band_write_spec(
                orig.spec_pixels(),
                orig.spec_width(),
                band,
                values@,
            ));
        }
    }

    /// Fill the whole buffer from one per-pixel sequence of iteration
    /// outcomes: pixel `k` receives the escape color of `results[k]`. The
    /// final buffer is a function of the outcomes alone, so rendering the
    /// same outcomes twice gives identical buffers.
    #[verifier::loop_isolation(false)]
    pub fn render(&mut self, results: &Vec<IterationResult>)
        requires
            old(self).wf(),
            results@.len() == old(self).spec_width() * old(self).spec_height(),
            counts_below_max::<P>(results@),
        ensures
            final(self).wf(),
            final(self).spec_width() == old(self).spec_width(),
            final(self).spec_height() == old(self).spec_height(),
            final(self).spec_pixels() == rendered_spec::<P>(results@),
    {
        let ghost orig = *self;
        let total: usize = self.pixels.len();
        let mut k: usize = 0;
        while k < total
            invariant
                k <= total,
                self.width == orig.width,
                self.height == orig.height,
                self.pixels@.len() == orig.pixels@.len(),
                forall|j: int|
                    0 <= j < k ==> self.pixels@[j] == escape_color_spec::<P>(results@[j]),
            decreases total - k,
        {
            let r: IterationResult = results[k];
            let p: P = escape_color::<P>(r);
            self.pixels.set(k, p);
            k = k + 1;
        }
        proof {
            assert(self.spec_pixels() =~= rendered_spec::<P>(results@));
        }
    }

    /// Fill the buffer band by band, each band receiving the escape colors
    /// of its own rows' outcomes.
    ///
    /// The bands may be any partition of the row range — one band, one per
    /// worker, or one per row — and the contract does not mention them:
    /// the final buffer equals `rendered_spec(results)` whatever the
    /// partition, which is the determinism of rendering under any choice
    /// of worker count.
    #[verifier::loop_isolation(false)]
    pub fn render_bands(&mut self, bands: &Vec<Band>, results: &Vec<IterationResult>)
        requires
            old(self).wf(),
            is_partition(bands@, old(self).spec_height()),
            results@.len() == old(self).spec_width() * old(self).spec_height(),
            counts_below_max::<P>(results@),
        ensures
            final(self).wf(),
            final(self).spec_width() == old(self).spec_width(),
            final(self).spec_height() == old(self).spec_height(),
            final(self).spec_pixels() == rendered_spec::<P>(results@),
    {
        let ghost orig = *self;
        let ghost mut done: nat = 0;
        proof {
            assert(bands@.skip(0) =~= bands@);
        }
        let nbands: usize = bands.len();
        let mut i: usize = 0;
        while i < nbands
            invariant
                i <= nbands,
                self.width == orig.width,
                self.height == orig.height,
                self.pixels@.len() == orig.pixels@.len(),
                covers_rows(bands@.skip(i as int), done, self.spec_height()),
                done <= self.spec_height(),
                forall|k: int|
                    0 <= k < done * self.spec_width() ==> self.pixels@[k] == escape_color_spec::<
                        P,
                    >(results@[k]),
                forall|k: int|
                    done * self.spec_width() <= k < self.pixels@.len() ==> self.pixels@[k]
                        == orig.pixels@[k],
            decreases nbands - i,
        {
            let band: Band = bands[i];
            let total: usize = self.pixels.len();
            proof {
                assert(bands@.skip(i as int)[0] == bands@[i as int]);
                assert(band.top == done);
                lemma_band_slice_bounds(
                    band.top as int,
                    band.num_rows as int,
                    self.width as int,
                    self.height as int,
                );
                assert((band.top as int + band.num_rows as int) * (self.width as int) <= (
                total as int));
            }
            let base: usize = band.top * self.width;
            let count: usize = band.num_rows * self.width;
            let mut values: Vec<P> = Vec::new();
            let mut j: usize = 0;
            while j < count
                invariant
                    j <= count,
                    values@.len() == j as nat,
                    forall|t: int|
                        0 <= t < j ==> values@[t] == escape_color_spec::<P>(
                            results@[base + t],
                        ),
                decreases count - j,
            {
                let r: IterationResult = results[base + j];
                let p: P = escape_color::<P>(r);
                values.push(p);
                j = j + 1;
            }
            let ghost prev = *self;
            self.write_band(band, &values);
            proof {
                done = done + band.num_rows as nat;
                assert(bands@.skip(i as int).drop_first() =~= bands@.skip(i as int + 1));
                assert forall|k: int| 0 <= k < done * self.spec_width() implies self.pixels@[k]
                    == escape_color_spec::<P>(results@[k]) by {
                    if k < base {
                        assert(self.pixels@[k] == prev.pixels@[k]);
                    } else {
                        assert(self.pixels@[k] == values@[k - base]);
                    }
                }
                assert forall|k: int|
                    done * self.spec_width() <= k < self.pixels@.len() implies self.pixels@[k]
                    == orig.pixels@[k] by {
                    assert(self.pixels@[k] == prev.pixels@[k]);
                }
            }
            i = i + 1;
        }
        proof {
            assert(bands@.skip(nbands as int) =~= Seq::<Band>::empty());
            assert(done == self.spec_height());
            assert(self.spec_height() * self.spec_width() == self.spec_width()
                * self.spec_height()) by (nonlinear_arith);
            assert(self.spec_pixels() =~= rendered_spec::<P>(results@));
        }
    }
}

} // verus!
