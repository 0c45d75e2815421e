//! The rectangle-packing oracle.
//!
//! Packing a list of padded sprite rectangles into a square bin is delegated
//! to the `rectangle_pack` crate. Its placement heuristic (largest volume
//! first, into the section that keeps the smallest remaining box) is a pure
//! function of the submitted rectangles and the bin size: the crate keeps
//! rectangles, groups and results in `BTreeMap`s and orders candidates with
//! stable sorts, so identical inputs give identical placements. The result
//! is therefore given a name, `spec_packed`, and nothing further is assumed
//! about it: callers validate every returned placement before relying on it.

use vstd::prelude::*;

verus! {

/// What `rectangle_pack::pack_rects` returns for rectangles `rects` (width,
/// height pairs, one rectangle per index) packed into a `bin` x `bin` bin:
/// `None` when the heuristic finds no placement, otherwise the placed
/// rectangles as (index, x, y) triples in ascending index order.
pub uninterp spec fn spec_packed(rects: Seq<(u32, u32)>, bin: u32) -> Option<
    Seq<(usize, u32, u32)>,
>;

/// Relies on `rectangle_pack::pack_rects` with the `volume_heuristic` and
/// `contains_smallest_box` strategies, one rectangle per index and a single
/// `bin` x `bin` x 1 target bin; its `Ok` result maps every submitted index
/// to a location, iterated here in ascending index order (`BTreeMap`).
/// The outcome depends only on the arguments (`spec_packed`).
#[verifier::external_body]
pub(crate) fn pack_into_bin(rects: &Vec<(u32, u32)>, bin: u32) -> (r: Option<Vec<(usize, u32, u32)>>)
    ensures
        match r {
            Some(v) => spec_packed(rects@, bin) == Some(v@),
            None => spec_packed(rects@, bin) is None,
        },
{
    let mut group = rectangle_pack::GroupedRectsToPlace::<usize, ()>::new();
    for (i, r) in rects.iter().enumerate() {
        group.push_rect(i, None, rectangle_pack::RectToInsert::new(r.0, r.1, 1));
    }
    let mut bins = std::collections::BTreeMap::new();
    bins.insert(0u8, rectangle_pack::TargetBin::new(bin, bin, 1));
    let strategy = (&rectangle_pack::volume_heuristic, &rectangle_pack::contains_smallest_box);
    rectangle_pack::pack_rects(&group, &mut bins, strategy.0, strategy.1).ok().map(
        |p| p.packed_locations().iter().map(|(id, (_, loc))| (*id, loc.x(), loc.y())).collect(),
    )
}

} // verus!
