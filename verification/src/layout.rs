//! The capacity search: smallest bin, then scale fallback.
//!
//! For each scale factor of the ladder (100 down to 20 percent) the engine
//! scales every sprite, pads it on all four sides, and asks the packing
//! oracle for a placement into square bins of 256, 512, 1024 and 2048
//! pixels, in that order. The first feasible placement wins. Every placement
//! the oracle returns is validated here — indices, bounds and pairwise
//! disjointness — before anything downstream relies on it; a malformed
//! placement surfaces as `CompositionError`. The final canvas is the tight
//! bounding box of the placed padded rectangles, not the bin.

use vstd::prelude::*;

verus! {

use crate::errors::AtlasError;
use crate::oracle::{pack_into_bin, spec_packed};
use crate::scaling::{scale_steps, scaled_dim, spec_scale_steps, spec_scaled_dim};

/// The largest square bin ever tried.
pub const MAX_BIN: u32 = 2048;

/// Candidate square bin sizes, doubling from 256 to the ceiling.
pub open spec fn spec_bin_steps() -> Seq<u32> {
    seq![256u32, 512u32, 1024u32, 2048u32]
}

/// Builds the candidate bin sizes as a vector.
pub fn bin_steps() -> (v: Vec<u32>)
    ensures
        v@ == spec_bin_steps(),
{
    let mut v: Vec<u32> = Vec::new();
    v.push(256);
    v.push(512);
    v.push(1024);
    v.push(2048);
    proof {
        assert(v@ =~= spec_bin_steps());
    }
    v
}

/// Every candidate bin size is between 256 and the ceiling.
pub proof fn lemma_bin_steps_bounds()
    ensures
        forall|k: int|
            0 <= k < spec_bin_steps().len() ==> 256 <= #[trigger] spec_bin_steps()[k] <= MAX_BIN,
{
    assert forall|k: int|
        0 <= k < spec_bin_steps().len() implies 256 <= #[trigger] spec_bin_steps()[k]
        <= MAX_BIN by {
        if k == 0 {
            assert(spec_bin_steps()[0] == 256u32);
        } else if k == 1 {
            assert(spec_bin_steps()[1] == 512u32);
        } else if k == 2 {
            assert(spec_bin_steps()[2] == 1024u32);
        } else {
            assert(spec_bin_steps()[3] == 2048u32);
        }
    }
}

/// Every scale factor of the ladder is a percentage between 1 and 100.
pub proof fn lemma_scale_steps_bounds()
    ensures
        forall|k: int|
            0 <= k < spec_scale_steps().len() ==> 20 <= #[trigger] spec_scale_steps()[k] <= 100,
{
    assert forall|k: int|
        0 <= k < spec_scale_steps().len() implies 20 <= #[trigger] spec_scale_steps()[k]
        <= 100 by {
        if k == 0 {
            assert(spec_scale_steps()[0] == 100u32);
        } else if k == 1 {
            assert(spec_scale_steps()[1] == 90u32);
        } else if k == 2 {
            assert(spec_scale_steps()[2] == 80u32);
        } else if k == 3 {
            assert(spec_scale_steps()[3] == 70u32);
        } else if k == 4 {
            assert(spec_scale_steps()[4] == 60u32);
        } else if k == 5 {
            assert(spec_scale_steps()[5] == 50u32);
        } else if k == 6 {
            assert(spec_scale_steps()[6] == 40u32);
        } else if k == 7 {
            assert(spec_scale_steps()[7] == 30u32);
        } else if k == 8 {
            assert(spec_scale_steps()[8] == 25u32);
        } else {
            assert(spec_scale_steps()[9] == 20u32);
        }
    }
}

/// All padded, scaled sprite rectangles fit a `MAX_BIN` square on their own.
pub open spec fn spec_fits(dims: Seq<(u32, u32)>, pct: nat, padding: nat) -> bool {
    forall|i: int|
        0 <= i < dims.len() ==> {
            &&& spec_scaled_dim((#[trigger] dims[i]).0 as nat, pct) + 2 * padding <= MAX_BIN
            &&& spec_scaled_dim(dims[i].1 as nat, pct) + 2 * padding <= MAX_BIN
        }
}

/// The padded rectangles submitted to the oracle at a given scale.
pub open spec fn spec_rects(dims: Seq<(u32, u32)>, pct: nat, padding: nat) -> Seq<(u32, u32)> {
    Seq::new(
        dims.len(),
        |i: int|
            (
                (spec_scaled_dim(dims[i].0 as nat, pct) + 2 * padding) as u32,
                (spec_scaled_dim(dims[i].1 as nat, pct) + 2 * padding) as u32,
            ),
    )
}

/// The scaled (unpadded) sprite sizes at a given scale.
pub open spec fn spec_layout_sizes(dims: Seq<(u32, u32)>, pct: nat) -> Seq<(u32, u32)> {
    Seq::new(
        dims.len(),
        |i: int|
            (
                spec_scaled_dim(dims[i].0 as nat, pct) as u32,
                spec_scaled_dim(dims[i].1 as nat, pct) as u32,
            ),
    )
}

/// The first bin of `bins` the oracle packs `rects` into, with its placement.
pub open spec fn spec_bin_attempt(rects: Seq<(u32, u32)>, bins: Seq<u32>) -> Option<
    (u32, Seq<(usize, u32, u32)>),
>
    decreases bins.len(),
{
    if bins.len() == 0 {
        None
    } else {
        match spec_packed(rects, bins[0]) {
            Some(p) => Some((bins[0], p)),
            None => spec_bin_attempt(rects, bins.drop_first()),
        }
    }
}

/// The outcome of one scale factor: `None` when some padded rectangle alone
/// exceeds the ceiling, otherwise the first feasible bin and its placement.
pub open spec fn spec_scale_attempt(dims: Seq<(u32, u32)>, padding: u32, pct: u32) -> Option<
    (u32, Seq<(usize, u32, u32)>),
> {
    if !spec_fits(dims, pct as nat, padding as nat) {
        None
    } else {
        spec_bin_attempt(spec_rects(dims, pct as nat, padding as nat), spec_bin_steps())
    }
}

/// The first scale factor of `steps` that packs, with its bin and placement.
pub open spec fn spec_search(dims: Seq<(u32, u32)>, padding: u32, steps: Seq<u32>) -> Option<
    (u32, u32, Seq<(usize, u32, u32)>),
>
    decreases steps.len(),
{
    if steps.len() == 0 {
        None
    } else {
        match spec_scale_attempt(dims, padding, steps[0]) {
            Some(bp) => Some((steps[0], bp.0, bp.1)),
            None => spec_search(dims, padding, steps.drop_first()),
        }
    }
}

/// Two axis-aligned rectangles, given as corner and extent, do not overlap.
pub open spec fn spec_disjoint(
    x1: int,
    y1: int,
    w1: int,
    h1: int,
    x2: int,
    y2: int,
    w2: int,
    h2: int,
) -> bool {
    x1 + w1 <= x2 || x2 + w2 <= x1 || y1 + h1 <= y2 || y2 + h2 <= y1
}

/// A placement is well formed: one entry per rectangle in index order, every
/// rectangle inside the bin, and no two rectangles overlapping.
pub open spec fn placements_ok(
    pl: Seq<(usize, u32, u32)>,
    rects: Seq<(u32, u32)>,
    bin: u32,
) -> bool {
    &&& pl.len() == rects.len()
    &&& forall|i: int|
        0 <= i < pl.len() ==> {
            &&& (#[trigger] pl[i]).0 == i
            &&& pl[i].1 + rects[i].0 <= bin
            &&& pl[i].2 + rects[i].1 <= bin
        }
    &&& forall|i: int, j: int|
        0 <= i < pl.len() && 0 <= j < pl.len() && i != j ==> spec_disjoint(
            (#[trigger] pl[i]).1 as int,
            pl[i].2 as int,
            rects[i].0 as int,
            rects[i].1 as int,
            (#[trigger] pl[j]).1 as int,
            pl[j].2 as int,
            rects[j].0 as int,
            rects[j].1 as int,
        )
}

/// The right and bottom extents of the first `n` placed padded rectangles:
/// the tight bounding box of the placement.
pub open spec fn spec_extents(pl: Seq<(usize, u32, u32)>, rects: Seq<(u32, u32)>, n: int) -> (
    int,
    int,
)
    decreases n,
{
    if n <= 0 {
        (0, 0)
    } else {
        let p = spec_extents(pl, rects, n - 1);
        let ex = pl[n - 1].1 + rects[n - 1].0;
        let ey = pl[n - 1].2 + rects[n - 1].1;
        (if ex > p.0 { ex } else { p.0 }, if ey > p.1 { ey } else { p.1 })
    }
}

/// A feasible packing: the accepted scale factor and bin, each sprite's
/// scaled size, the corner of each padded rectangle, and the tight canvas.
pub struct Layout {
    /// The accepted scale factor, in percent.
    pub scale_pct: u32,
    /// The square bin size the placement was found in.
    pub bin_size: u32,
    /// Scaled sprite sizes, without padding, one per input sprite.
    pub sizes: Vec<(u32, u32)>,
    /// Top-left corner of each sprite's padded rectangle on the canvas.
    pub spots: Vec<(u32, u32)>,
    /// Canvas width: the largest right edge of any padded rectangle.
    pub canvas_w: u32,
    /// Canvas height: the largest bottom edge of any padded rectangle.
    pub canvas_h: u32,
}

/// What compositing and the manifest rely on: equal lengths, at least one
/// sprite, every padded rectangle inside the canvas, and pairwise
/// disjointness of the padded rectangles.
pub open spec fn layout_ok(
    sizes: Seq<(u32, u32)>,
    spots: Seq<(u32, u32)>,
    padding: u32,
    cw: u32,
    ch: u32,
) -> bool {
    &&& sizes.len() == spots.len()
    &&& sizes.len() >= 1
    &&& 1 <= cw <= MAX_BIN
    &&& 1 <= ch <= MAX_BIN
    &&& forall|i: int|
        0 <= i < sizes.len() ==> {
            &&& (#[trigger] spots[i]).0 + (#[trigger] sizes[i]).0 + 2 * padding <= cw
            &&& spots[i].1 + sizes[i].1 + 2 * padding <= ch
        }
    &&& forall|i: int, j: int|
        0 <= i < sizes.len() && 0 <= j < sizes.len() && i != j ==> spec_disjoint(
            (#[trigger] spots[i]).0 as int,
            spots[i].1 as int,
            sizes[i].0 + 2 * padding,
            sizes[i].1 + 2 * padding,
            (#[trigger] spots[j]).0 as int,
            spots[j].1 as int,
            sizes[j].0 + 2 * padding,
            sizes[j].1 + 2 * padding,
        )
}

/// The corners of a placement, in index order.
pub open spec fn spec_spots(pl: Seq<(usize, u32, u32)>) -> Seq<(u32, u32)> {
    Seq::new(pl.len(), |i: int| (pl[i].1, pl[i].2))
}

/// The exact outcome of the capacity search for `dims` and `padding`: the
/// search fails with `PackingInfeasible` exactly when no scale factor packs;
/// a malformed oracle placement fails with `CompositionError`; otherwise the
/// layout reflects the first feasible scale, bin and placement, with the
/// canvas the tight bounding box of the placed padded rectangles.
pub open spec fn plan_ok(
    dims: Seq<(u32, u32)>,
    padding: u32,
    r: Result<Layout, AtlasError>,
) -> bool {
    match spec_search(dims, padding, spec_scale_steps()) {
        None => r matches Err(e) && e == AtlasError::PackingInfeasible,
        Some((pct, bin, pl)) => {
            let rects = spec_rects(dims, pct as nat, padding as nat);
            if placements_ok(pl, rects, bin) {
                match r {
                    Ok(l) => {
                        &&& l.scale_pct == pct
                        &&& l.bin_size == bin
                        &&& l.sizes@ == spec_layout_sizes(dims, pct as nat)
                        &&& l.spots@ == spec_spots(pl)
                        &&& (l.canvas_w as int, l.canvas_h as int) == spec_extents(
                            pl,
                            rects,
                            pl.len() as int,
                        )
                        &&& layout_ok(l.sizes@, l.spots@, padding, l.canvas_w, l.canvas_h)
                    },
                    Err(_) => false,
                }
            } else {
                r matches Err(e) && e == AtlasError::CompositionError
            }
        },
    }
}

/// A prefix of all-failing bins makes the first success the attempt's value.
proof fn lemma_bin_attempt_first(
    rects: Seq<(u32, u32)>,
    bins: Seq<u32>,
    k: int,
    p: Seq<(usize, u32, u32)>,
)
    requires
        0 <= k < bins.len(),
        forall|j: int| 0 <= j < k ==> spec_packed(rects, #[trigger] bins[j]) is None,
        spec_packed(rects, bins[k]) == Some(p),
    ensures
        spec_bin_attempt(rects, bins) == Some((bins[k], p)),
    decreases k,
{
    if k == 0 {
    } else {
        assert(spec_packed(rects, bins[0]) is None);
        lemma_bin_attempt_first(rects, bins.drop_first(), k - 1, p);
    }
}

/// When the oracle fails on every bin, the attempt fails.
proof fn lemma_bin_attempt_none(rects: Seq<(u32, u32)>, bins: Seq<u32>)
    requires
        forall|j: int| 0 <= j < bins.len() ==> spec_packed(rects, #[trigger] bins[j]) is None,
    ensures
        spec_bin_attempt(rects, bins) is None,
    decreases bins.len(),
{
    if bins.len() > 0 {
        assert(spec_packed(rects, bins[0]) is None);
        lemma_bin_attempt_none(rects, bins.drop_first());
    }
}

/// A prefix of all-failing scales makes the first success the search result.
proof fn lemma_search_first(
    dims: Seq<(u32, u32)>,
    padding: u32,
    steps: Seq<u32>,
    k: int,
    bin: u32,
    p: Seq<(usize, u32, u32)>,
)
    requires
        0 <= k < steps.len(),
        forall|j: int|
            0 <= j < k ==> spec_scale_attempt(dims, padding, #[trigger] steps[j]) is None,
        spec_scale_attempt(dims, padding, steps[k]) == Some((bin, p)),
    ensures
        spec_search(dims, padding, steps) == Some((steps[k], bin, p)),
    decreases k,
{
    if k == 0 {
    } else {
        assert(spec_scale_attempt(dims, padding, steps[0]) is None);
        lemma_search_first(dims, padding, steps.drop_first(), k - 1, bin, p);
    }
}

/// When every scale factor fails, the search fails.
pub proof fn lemma_search_none(dims: Seq<(u32, u32)>, padding: u32, steps: Seq<u32>)
    requires
        forall|j: int|
            0 <= j < steps.len() ==> spec_scale_attempt(dims, padding, #[trigger] steps[j]) is None,
    ensures
        spec_search(dims, padding, steps) is None,
    decreases steps.len(),
{
    if steps.len() > 0 {
        assert(spec_scale_attempt(dims, padding, steps[0]) is None);
        lemma_search_none(dims, padding, steps.drop_first());
    }
}

/// A successful search accepts a scale factor from the ladder it was given.
pub proof fn lemma_search_pct_in_steps(dims: Seq<(u32, u32)>, padding: u32, steps: Seq<u32>)
    ensures
        spec_search(dims, padding, steps) matches Some(t) ==> steps.contains(t.0),
    decreases steps.len(),
{
    if steps.len() > 0 {
        match spec_scale_attempt(dims, padding, steps[0]) {
            Some(_) => {
                assert(steps[0] == steps[0]);
            },
            None => {
                lemma_search_pct_in_steps(dims, padding, steps.drop_first());
                if let Some(t) = spec_search(dims, padding, steps.drop_first()) {
                    let k = choose|k: int|
                        0 <= k < steps.drop_first().len() && steps.drop_first()[k] == t.0;
                    assert(steps[k + 1] == t.0);
                }
            },
        }
    }
}

/// Every placed rectangle ends at or before the extents.
proof fn lemma_extents_cover(pl: Seq<(usize, u32, u32)>, rects: Seq<(u32, u32)>, n: int, i: int)
    requires
        0 <= i < n,
    ensures
        pl[i].1 + rects[i].0 <= spec_extents(pl, rects, n).0,
        pl[i].2 + rects[i].1 <= spec_extents(pl, rects, n).1,
    decreases n,
{
    if i < n - 1 {
        lemma_extents_cover(pl, rects, n - 1, i);
    }
}

/// The extents stay within any bound that bounds every rectangle's edges.
proof fn lemma_extents_bounded(
    pl: Seq<(usize, u32, u32)>,
    rects: Seq<(u32, u32)>,
    n: int,
    bound: int,
)
    requires
        0 <= bound,
        forall|i: int|
            0 <= i < n ==> (#[trigger] pl[i]).1 + rects[i].0 <= bound && pl[i].2 + rects[i].1
                <= bound,
    ensures
        spec_extents(pl, rects, n).0 <= bound,
        spec_extents(pl, rects, n).1 <= bound,
    decreases n,
{
    if n > 0 {
        lemma_extents_bounded(pl, rects, n - 1, bound);
    }
}

/// Checks whether two padded rectangles are disjoint, in wide arithmetic.
fn rect_disjoint(x1: u32, y1: u32, w1: u32, h1: u32, x2: u32, y2: u32, w2: u32, h2: u32) -> (b:
    bool)
    ensures
        b == spec_disjoint(
            x1 as int,
            y1 as int,
            w1 as int,
            h1 as int,
            x2 as int,
            y2 as int,
            w2 as int,
            h2 as int,
        ),
{
    (x1 as u64) + (w1 as u64) <= x2 as u64 || (x2 as u64) + (w2 as u64) <= x1 as u64 || (y1 as u64)
        + (h1 as u64) <= y2 as u64 || (y2 as u64) + (h2 as u64) <= y1 as u64
}

/// Validates an oracle placement against the submitted rectangles.
fn check_placements(pl: &Vec<(usize, u32, u32)>, rects: &Vec<(u32, u32)>, bin: u32) -> (b: bool)
    ensures
        b == placements_ok(pl@, rects@, bin),
{
    if pl.len() != rects.len() {
        return false;
    }
    let n = pl.len();
    let mut i: usize = 0;
    while i < n
        invariant
            n == pl@.len() == rects@.len(),
            0 <= i <= n,
            forall|k: int|
                0 <= k < i ==> {
                    &&& (#[trigger] pl@[k]).0 == k
                    &&& pl@[k].1 + rects@[k].0 <= bin
                    &&& pl@[k].2 + rects@[k].1 <= bin
                },
        decreases n - i,
    {
        let e = pl[i];
        if e.0 != i {
            return false;
        }
        if (e.1 as u64) + (rects[i].0 as u64) > bin as u64 {
            return false;
        }
        if (e.2 as u64) + (rects[i].1 as u64) > bin as u64 {
            return false;
        }
        i += 1;
    }
    let mut a: usize = 0;
    while a < n
        invariant
            n == pl@.len() == rects@.len(),
            0 <= a <= n,
            forall|k: int, m: int|
                0 <= k < a && k < m < n ==> spec_disjoint(
                    (#[trigger] pl@[k]).1 as int,
                    pl@[k].2 as int,
                    rects@[k].0 as int,
                    rects@[k].1 as int,
                    (#[trigger] pl@[m]).1 as int,
                    pl@[m].2 as int,
                    rects@[m].0 as int,
                    rects@[m].1 as int,
                ),
        decreases n - a,
    {
        let mut b: usize = a + 1;
        while b < n
            invariant
                n == pl@.len() == rects@.len(),
                0 <= a < n,
                a < b <= n,
                forall|m: int|
                    a < m < b ==> spec_disjoint(
                        pl@[a as int].1 as int,
                        pl@[a as int].2 as int,
                        rects@[a as int].0 as int,
                        rects@[a as int].1 as int,
                        (#[trigger] pl@[m]).1 as int,
                        pl@[m].2 as int,
                        rects@[m].0 as int,
                        rects@[m].1 as int,
                    ),
            decreases n - b,
        {
            let pa = pl[a];
            let pb = pl[b];
            if !rect_disjoint(
                pa.1,
                pa.2,
                rects[a].0,
                rects[a].1,
                pb.1,
                pb.2,
                rects[b].0,
                rects[b].1,
            ) {
                return false;
            }
            b += 1;
        }
        a += 1;
    }
    true
}

/// Computes the tight bounding box of a validated placement.
fn extents(pl: &Vec<(usize, u32, u32)>, rects: &Vec<(u32, u32)>, bin: u32) -> (r: (u32, u32))
    requires
        placements_ok(pl@, rects@, bin),
        bin <= MAX_BIN,
    ensures
        (r.0 as int, r.1 as int) == spec_extents(pl@, rects@, pl@.len() as int),
{
    let n = pl.len();
    let mut mx: u32 = 0;
    let mut my: u32 = 0;
    let mut i: usize = 0;
    while i < n
        invariant
            n == pl@.len() == rects@.len(),
            placements_ok(pl@, rects@, bin),
            bin <= MAX_BIN,
            0 <= i <= n,
            (mx as int, my as int) == spec_extents(pl@, rects@, i as int),
        decreases n - i,
    {
        let e = pl[i];
        let ex = e.1 + rects[i].0;
        let ey = e.2 + rects[i].1;
        if ex > mx {
            mx = ex;
        }
        if ey > my {
            my = ey;
        }
        i += 1;
    }
    (mx, my)
}

/// Decides whether every padded, scaled sprite fits a `MAX_BIN` square.
fn fits_at(dims: &Vec<(u32, u32)>, pct: u32, padding: u32) -> (b: bool)
    requires
        1 <= pct <= 100,
    ensures
        b == spec_fits(dims@, pct as nat, padding as nat),
{
    let n = dims.len();
    let mut ok = true;
    let mut i: usize = 0;
    while i < n
        invariant
            n == dims@.len(),
            1 <= pct <= 100,
            0 <= i <= n,
            ok == forall|k: int|
                0 <= k < i ==> {
                    &&& spec_scaled_dim((#[trigger] dims@[k]).0 as nat, pct as nat) + 2 * (
                    padding as nat) <= MAX_BIN
                    &&& spec_scaled_dim(dims@[k].1 as nat, pct as nat) + 2 * (padding as nat)
                        <= MAX_BIN
                },
        decreases n - i,
    {
        let d = dims[i];
        let sw = scaled_dim(d.0, pct);
        let sh = scaled_dim(d.1, pct);
        let pw: u64 = sw as u64 + 2 * (padding as u64);
        let ph: u64 = sh as u64 + 2 * (padding as u64);
        let here = pw <= MAX_BIN as u64 && ph <= MAX_BIN as u64;
        ok = ok && here;
        i += 1;
    }
    ok
}

/// Searches the scale ladder and bin sizes for the first feasible packing.
///
/// On success the layout is pinned to the search result: the accepted scale
/// and bin, the scaled sizes, the placement corners, and the tight canvas.
#[verifier::loop_isolation(false)]
pub fn plan_pack(dims: &Vec<(u32, u32)>, padding: u32) -> (r: Result<Layout, AtlasError>)
    requires
        dims@.len() >= 1,
        forall|i: int| 0 <= i < dims@.len() ==> (#[trigger] dims@[i]).0 >= 1 && dims@[i].1 >= 1,
    ensures
        plan_ok(dims@, padding, r),
{
    proof {
        lemma_scale_steps_bounds();
    }
    let steps = scale_steps();
    let n = dims.len();
    let mut si: usize = 0;
    while si < steps.len()
        invariant
            steps@ == spec_scale_steps(),
            n == dims@.len(),
            n >= 1,
            forall|i: int| 0 <= i < dims@.len() ==> (#[trigger] dims@[i]).0 >= 1 && dims@[i].1 >= 1,
            0 <= si <= steps@.len(),
            forall|k: int|
                0 <= k < si ==> spec_scale_attempt(dims@, padding, #[trigger] steps@[k]) is None,
            forall|k: int|
                0 <= k < spec_scale_steps().len() ==> 1 <= #[trigger] spec_scale_steps()[k] <= 100,
        decreases steps@.len() - si,
    {
        let pct = steps[si];
        let ghost pctn = pct as nat;
        let ghost padn = padding as nat;
        let fits = fits_at(dims, pct, padding);
        if fits {
            let mut sizes: Vec<(u32, u32)> = Vec::new();
            let mut rects: Vec<(u32, u32)> = Vec::new();
            let mut i: usize = 0;
            while i < n
                invariant
                    n == dims@.len(),
                    1 <= pct <= 100,
                    pctn == pct as nat,
                    padn == padding as nat,
                    spec_fits(dims@, pctn, padn),
                    0 <= i <= n,
                    sizes@.len() == i,
                    rects@.len() == i,
                    forall|k: int|
                        0 <= k < i ==> #[trigger] sizes@[k] == spec_layout_sizes(dims@, pctn)[k],
                    forall|k: int|
                        0 <= k < i ==> #[trigger] rects@[k] == spec_rects(dims@, pctn, padn)[k],
                decreases n - i,
            {
                let d = dims[i];
                let sw = scaled_dim(d.0, pct);
                let sh = scaled_dim(d.1, pct);
                proof {
                    assert(spec_scaled_dim((dims@[i as int]).0 as nat, pctn) + 2 * padn
                        <= MAX_BIN);
                }
                let pw: u64 = sw as u64 + 2 * (padding as u64);
                let ph: u64 = sh as u64 + 2 * (padding as u64);
                sizes.push((sw, sh));
                rects.push((pw as u32, ph as u32));
                i += 1;
            }
            proof {
                assert(rects@ =~= spec_rects(dims@, pctn, padn));
                assert(sizes@ =~= spec_layout_sizes(dims@, pctn));
            }
            let bins = bin_steps();
            let mut bi: usize = 0;
            while bi < bins.len()
                invariant
                    bins@ == spec_bin_steps(),
                    0 <= bi <= bins@.len(),
                    rects@ == spec_rects(dims@, pctn, padn),
                    forall|k: int|
                        0 <= k < bi ==> spec_packed(rects@, #[trigger] bins@[k]) is None,
                decreases bins@.len() - bi,
            {
                let bin = bins[bi];
                match pack_into_bin(&rects, bin) {
                    Some(pl) => {
                        proof {
                            assert(si < steps@.len());
                            lemma_bin_attempt_first(rects@, bins@, bi as int, pl@);
                            assert(spec_scale_attempt(dims@, padding, pct) == Some((bin, pl@)));
                            lemma_search_first(dims@, padding, steps@, si as int, bin, pl@);
                        }
                        if !check_placements(&pl, &rects, bin) {
                            return Err(AtlasError::CompositionError);
                        }
                        let ghost rs = spec_rects(dims@, pctn, padn);
                        let (cw, ch) = extents(&pl, &rects, bin);
                        let mut spots: Vec<(u32, u32)> = Vec::new();
                        let mut k: usize = 0;
                        while k < pl.len()
                            invariant
                                0 <= k <= pl@.len(),
                                spots@.len() == k,
                                forall|m: int|
                                    0 <= m < k ==> #[trigger] spots@[m] == (pl@[m].1, pl@[m].2),
                            decreases pl@.len() - k,
                        {
                            let e = pl[k];
                            spots.push((e.1, e.2));
                            k += 1;
                        }
                        proof {
                            assert(spots@ =~= spec_spots(pl@));
                            let nn = pl@.len() as int;
                            assert(nn == dims@.len());
                            assert forall|m: int| 0 <= m < nn implies {
                                &&& rs[m].0 == spec_scaled_dim(
                                    (#[trigger] dims@[m]).0 as nat,
                                    pctn,
                                ) + 2 * padn
                                &&& rs[m].1 == spec_scaled_dim(dims@[m].1 as nat, pctn) + 2 * padn
                                &&& sizes@[m].0 == spec_scaled_dim(dims@[m].0 as nat, pctn)
                                &&& sizes@[m].1 == spec_scaled_dim(dims@[m].1 as nat, pctn)
                                &&& rs[m].0 >= 1
                                &&& rs[m].1 >= 1
                            } by {
                                assert(spec_scaled_dim((dims@[m]).0 as nat, pctn) + 2 * padn
                                    <= MAX_BIN);
                                assert(spec_scaled_dim((dims@[m]).1 as nat, pctn) + 2 * padn
                                    <= MAX_BIN);
                                assert(spec_scaled_dim((dims@[m]).0 as nat, pctn) >= 1);
                                assert(spec_scaled_dim((dims@[m]).1 as nat, pctn) >= 1);
                            }
                            assert forall|m: int| 0 <= m < nn implies (#[trigger] pl@[m]).1
                                + rs[m].0 <= cw as int && pl@[m].2 + rs[m].1 <= ch as int by {
                                lemma_extents_cover(pl@, rs, nn, m);
                            }
                            lemma_bin_steps_bounds();
                            lemma_extents_bounded(pl@, rs, nn, bin as int);
                            assert(cw <= MAX_BIN && ch <= MAX_BIN);
                            assert(pl@[0].1 + rs[0].0 <= cw as int);
                            assert(cw >= 1 && ch >= 1);
                            assert forall|a: int, b: int|
                                0 <= a < nn && 0 <= b < nn && a != b implies spec_disjoint(
                                (#[trigger] spots@[a]).0 as int,
                                spots@[a].1 as int,
                                sizes@[a].0 + 2 * padding,
                                sizes@[a].1 + 2 * padding,
                                (#[trigger] spots@[b]).0 as int,
                                spots@[b].1 as int,
                                sizes@[b].0 + 2 * padding,
                                sizes@[b].1 + 2 * padding,
                            ) by {
                                assert(spec_disjoint(
                                    pl@[a].1 as int,
                                    pl@[a].2 as int,
                                    rs[a].0 as int,
                                    rs[a].1 as int,
                                    pl@[b].1 as int,
                                    pl@[b].2 as int,
                                    rs[b].0 as int,
                                    rs[b].1 as int,
                                ));
                            }
                            assert(layout_ok(sizes@, spots@, padding, cw, ch));
                        }
                        return Ok(
                            Layout {
                                scale_pct: pct,
                                bin_size: bin,
                                sizes,
                                spots,
                                canvas_w: cw,
                                canvas_h: ch,
                            },
                        );
                    },
                    None => {
                        bi += 1;
                    },
                }
            }
            proof {
                lemma_bin_attempt_none(rects@, bins@);
                assert(spec_scale_attempt(dims@, padding, steps@[si as int]) is None);
            }
        } else {
            proof {
                assert(spec_scale_attempt(dims@, padding, steps@[si as int]) is None);
            }
        }
        si += 1;
    }
    proof {
        lemma_search_none(dims@, padding, steps@);
    }
    Err(AtlasError::PackingInfeasible)
}

} // verus!
