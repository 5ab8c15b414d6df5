//! Decomposition of an image's row range into disjoint horizontal bands,
//! one per parallel worker.
//!
//! The bands of a partition are consecutive, non-empty, and cover the row
//! range exactly; this disjointness is the sole requirement that makes the
//! concurrent fill of the buffer race free.

use vstd::prelude::*;

verus! {

/// A contiguous range of rows `[top, top + num_rows)` assigned to one
/// worker.
#[derive(Clone, Copy, PartialEq, Eq, Structural, Debug)]
pub struct Band {
    pub top: usize,
    pub num_rows: usize,
}

/// The bands are consecutive non-empty row ranges that exactly cover
/// `[start, height)`.
pub open spec fn covers_rows(bands: Seq<Band>, start: nat, height: nat) -> bool
    decreases bands.len(),
{
    if bands.len() == 0 {
        start == height
    } else {
        &&& bands[0].top == start
        &&& bands[0].num_rows > 0
        &&& bands[0].top + bands[0].num_rows <= height
        &&& covers_rows(bands.drop_first(), (bands[0].top + bands[0].num_rows) as nat, height)
    }
}

/// The bands exactly cover the full row range `[0, height)`: no gaps, no
/// overlap.
pub open spec fn is_partition(bands: Seq<Band>, height: nat) -> bool {
    covers_rows(bands, 0, height)
}

/// The number of rows each band receives: the ceiling of
/// `height / worker_count`, so that `worker_count` bands always suffice.
pub open spec fn spec_rows_per_band(height: nat, worker_count: nat) -> nat
    recommends
        worker_count > 0,
{
    if height % worker_count == 0 {
        height / worker_count
    } else {
        height / worker_count + 1
    }
}

/// Two consecutive covers concatenate into one.
proof fn lemma_covers_concat(first: Seq<Band>, second: Seq<Band>, start: nat, mid: nat, height: nat)
    requires
        covers_rows(first, start, mid),
        covers_rows(second, mid, height),
    ensures
        covers_rows(first + second, start, height),
    decreases first.len(),
{
    if first.len() == 0 {
        assert(first + second =~= second);
    } else {
        let rest = first.drop_first();
        lemma_covers_concat(rest, second, (first[0].top + first[0].num_rows) as nat, mid, height);
        assert((first + second).drop_first() =~= rest + second);
    }
}

/// Every band of a cover lies within `[start, height)`, and the bands'
/// row ranges increase from one band to the next.
proof fn lemma_covers_bounds(bands: Seq<Band>, start: nat, height: nat, i: int)
    requires
        covers_rows(bands, start, height),
        0 <= i < bands.len(),
    ensures
        start <= bands[i].top,
        bands[i].top + bands[i].num_rows <= height,
        bands[i].num_rows > 0,
        covers_rows(
            bands.skip(i + 1),
            (bands[i].top + bands[i].num_rows) as nat,
            height,
        ),
    decreases i,
{
    if i == 0 {
        assert(bands.skip(1) =~= bands.drop_first());
    } else {
        lemma_covers_bounds(
            bands.drop_first(),
            (bands[0].top + bands[0].num_rows) as nat,
            height,
            i - 1,
        );
        assert(bands.drop_first()[i - 1] == bands[i]);
        assert(bands.drop_first().skip(i) =~= bands.skip(i + 1));
    }
}

/// Disjointness of a partition's bands: an earlier band's rows all lie
/// strictly below a later band's rows, so no two workers ever write the
/// same row.
pub proof fn lemma_bands_disjoint(bands: Seq<Band>, height: nat, i: int, j: int)
    requires
        is_partition(bands, height),
        0 <= i < j < bands.len(),
    ensures
        bands[i].top + bands[i].num_rows <= bands[j].top,
{
    lemma_covers_bounds(bands, 0, height, i);
    let mid = (bands[i].top + bands[i].num_rows) as nat;
    lemma_covers_bounds(bands.skip(i + 1), mid, height, j - i - 1);
    assert(bands.skip(i + 1)[j - i - 1] == bands[j]);
}

/// Every row of the image belongs to some band of a partition.
pub proof fn lemma_bands_cover(bands: Seq<Band>, height: nat, row: int)
    requires
        is_partition(bands, height),
        0 <= row < height,
    ensures
        exists|i: int|
            0 <= i < bands.len() && (#[trigger] bands[i]).top <= row < bands[i].top
                + bands[i].num_rows,
{
    lemma_covers_some_band(bands, 0, height, row);
}

/// Helper for `lemma_bands_cover`, generalized over the cover's start.
proof fn lemma_covers_some_band(bands: Seq<Band>, start: nat, height: nat, row: int)
    requires
        covers_rows(bands, start, height),
        start <= row < height,
    ensures
        exists|i: int|
            0 <= i < bands.len() && (#[trigger] bands[i]).top <= row < bands[i].top
                + bands[i].num_rows,
    decreases bands.len(),
{
    assert(bands.len() > 0);
    if bands[0].top <= row < bands[0].top + bands[0].num_rows {
        assert(bands[0].top <= row < bands[0].top + bands[0].num_rows);
    } else {
        lemma_covers_some_band(
            bands.drop_first(),
            (bands[0].top + bands[0].num_rows) as nat,
            height,
            row,
        );
        let w = choose|i: int|
            0 <= i < bands.drop_first().len() && (#[trigger] bands.drop_first()[i]).top <= row
                < bands.drop_first()[i].top + bands.drop_first()[i].num_rows;
        assert(bands[w + 1] == bands.drop_first()[w]);
    }
}

/// Split the row range `[0, height)` into consecutive bands of
/// `ceil(height / worker_count)` rows each (the final band may be
/// shorter). A zero height yields no bands at all, so nothing is ever
/// dispatched for an empty image.
pub fn partition(height: usize, worker_count: usize) -> (bands: Vec<Band>)
    requires
        worker_count > 0,
    ensures
        is_partition(bands@, height as nat),
        height == 0 ==> bands@.len() == 0,
        bands@.len() <= worker_count,
        forall|i: int|
            0 <= i < bands@.len() ==> (#[trigger] bands@[i]).num_rows as nat <= spec_rows_per_band(
                height as nat,
                worker_count as nat,
            ),
{
    let rows_per_band: usize = if height % worker_count == 0 {
        height / worker_count
    } else {
        proof {
            assert(height / worker_count + 1 <= usize::MAX) by (nonlinear_arith)
                requires
                    worker_count > 0,
                    height % worker_count != 0,
                    height <= usize::MAX,
            ;
        }
        height / worker_count + 1
    };
    proof {
        assert(height > 0 ==> rows_per_band > 0) by (nonlinear_arith)
            requires
                worker_count > 0,
                rows_per_band as int == (if height as int % worker_count as int == 0 {
                    height as int / worker_count as int
                } else {
                    height as int / worker_count as int + 1
                }),
        ;
        assert(height as int <= rows_per_band as int * worker_count as int) by (nonlinear_arith)
            requires
                worker_count > 0,
                rows_per_band as int == (if height as int % worker_count as int == 0 {
                    height as int / worker_count as int
                } else {
                    height as int / worker_count as int + 1
                }),
        ;
    }
    let mut bands: Vec<Band> = Vec::new();
    let mut top: usize = 0;
    proof {
        assert(bands@.len() * rows_per_band as int == 0) by (nonlinear_arith)
            requires
                bands@.len() == 0,
        ;
    }
    while top < height
        invariant
            worker_count > 0,
            rows_per_band as nat == spec_rows_per_band(height as nat, worker_count as nat),
            height > 0 ==> rows_per_band > 0,
            height as int <= rows_per_band as int * worker_count as int,
            top <= height,
            covers_rows(bands@, 0, top as nat),
            top as int <= bands@.len() * rows_per_band as int,
            forall|i: int|
                0 <= i < bands@.len() ==> (#[trigger] bands@[i]).num_rows <= rows_per_band,
            top < height ==> top as int == bands@.len() * rows_per_band as int,
            bands@.len() > 0 ==> (bands@.len() - 1) * (rows_per_band as int) < (height as int),
        decreases height - top,
    {
        let remaining = height - top;
        let rows = if remaining < rows_per_band {
            remaining
        } else {
            rows_per_band
        };
        let band = Band { top, num_rows: rows };
        proof {
            let ghost prev = bands@;
            assert(covers_rows(seq![band], top as nat, (top + rows) as nat)) by {
                assert(seq![band].drop_first() =~= Seq::<Band>::empty());
                assert(covers_rows(Seq::<Band>::empty(), (top + rows) as nat, (top + rows) as nat));
                assert(seq![band][0] == band);
            }
            lemma_covers_concat(prev, seq![band], 0, top as nat, (top + rows) as nat);
            assert(prev + seq![band] =~= prev.push(band));
        }
        let ghost old_len = bands@.len();
        bands.push(band);
        top = top + rows;
        proof {
            assert(bands@.len() * rows_per_band as int == old_len * rows_per_band as int
                + rows_per_band as int) by (nonlinear_arith)
                requires
                    bands@.len() == old_len + 1,
            ;
            assert(top as int <= bands@.len() * rows_per_band as int);
            assert(top < height ==> top as int == bands@.len() * rows_per_band as int);
            assert((bands@.len() - 1) * (rows_per_band as int) < (height as int));
        }
    }
    proof {
        if height > 0 {
            assert(bands@.len() <= worker_count) by (nonlinear_arith)
                requires
                    bands@.len() >= 1,
                    height as int <= rows_per_band as int * worker_count as int,
                    (bands@.len() - 1) * (rows_per_band as int) < (height as int),
                    rows_per_band > 0,
            ;
        }
    }
    bands
}

} // verus!
