//! The engine's stated guarantees, proved from the contracts of the other
//! modules: manifest completeness, frame containment and disjointness,
//! tight canvas bounds, determinism, the identity scale factor on an easy
//! first fit, and guaranteed infeasibility on oversized input.

use vstd::prelude::*;

verus! {

use crate::atlas::{pack_result_ok, AtlasOutput, SpriteInput};
use crate::compose::{frame_left, frame_top};
use crate::errors::AtlasError;
use crate::layout::{
    layout_ok,
    lemma_scale_steps_bounds,
    lemma_search_none,
    plan_ok,
    spec_bin_steps,
    spec_disjoint,
    spec_fits,
    spec_rects,
    spec_scale_attempt,
    spec_search,
    Layout,
    MAX_BIN,
};
use crate::oracle::spec_packed;
use crate::manifest::{spec_frames_fold, spec_frames_input, spec_insert_frame, spec_sorted_frames, Frame};
use crate::scaling::{lemma_scaled_dim_monotone, spec_scale_steps, spec_scaled_dim};
use crate::textutil::{
    lemma_lex_irrefl,
    lemma_lex_lt_trans,
    lemma_lex_total,
    spec_lex_lt,
};

/// A frame list is strictly sorted by name.
pub open spec fn frames_sorted(s: Seq<Frame>) -> bool {
    forall|i: int, j: int|
        0 <= i < j < s.len() ==> spec_lex_lt((#[trigger] s[i]).name@, (#[trigger] s[j]).name@)
}

/// A frame list holds an entry of the given name.
pub open spec fn spec_has_name(s: Seq<Frame>, nm: Seq<char>) -> bool {
    exists|k: int| 0 <= k < s.len() && (#[trigger] s[k]).name@ == nm
}

/// Inserting a frame into a sorted list keeps it sorted, adds exactly the
/// inserted name, and grows the list only when the name is new; every entry
/// of the result is the inserted frame or one of the old entries.
proof fn lemma_insert_props(s: Seq<Frame>, e: Frame)
    requires
        frames_sorted(s),
    ensures
        frames_sorted(spec_insert_frame(s, e)),
        forall|nm: Seq<char>|
            spec_has_name(spec_insert_frame(s, e), nm) <==> (spec_has_name(s, nm) || nm == e.name@),
        spec_has_name(s, e.name@) ==> spec_insert_frame(s, e).len() == s.len(),
        !spec_has_name(s, e.name@) ==> spec_insert_frame(s, e).len() == s.len() + 1,
        forall|k: int|
            0 <= k < spec_insert_frame(s, e).len() ==> (#[trigger] spec_insert_frame(s, e)[k] == e
                || exists|m: int| 0 <= m < s.len() && spec_insert_frame(s, e)[k] == s[m]),
    decreases s.len(),
{
    let r = spec_insert_frame(s, e);
    if s.len() == 0 {
        assert(r =~= seq![e]);
        assert forall|nm: Seq<char>|
            spec_has_name(r, nm) <==> (spec_has_name(s, nm) || nm == e.name@) by {
            if nm == e.name@ {
                assert(r[0].name@ == nm);
            }
        }
    } else if spec_lex_lt(s[0].name@, e.name@) {
        let s1 = s.drop_first();
        assert forall|i: int, j: int|
            0 <= i < j < s1.len() implies spec_lex_lt(
            (#[trigger] s1[i]).name@,
            (#[trigger] s1[j]).name@,
        ) by {
            assert(s1[i] == s[i + 1] && s1[j] == s[j + 1]);
        }
        lemma_insert_props(s1, e);
        let r1 = spec_insert_frame(s1, e);
        assert(r =~= seq![s[0]] + r1);
        lemma_lex_irrefl(e.name@);
        assert forall|i: int, j: int|
            0 <= i < j < r.len() implies spec_lex_lt(
            (#[trigger] r[i]).name@,
            (#[trigger] r[j]).name@,
        ) by {
            if i == 0 {
                assert(r[j] == r1[j - 1]);
                if r1[j - 1] == e {
                } else {
                    let m = choose|m: int| 0 <= m < s1.len() && r1[j - 1] == s1[m];
                    assert(s1[m] == s[m + 1]);
                    assert(spec_lex_lt(s[0].name@, s[m + 1].name@));
                }
            } else {
                assert(r[i] == r1[i - 1] && r[j] == r1[j - 1]);
            }
        }
        assert forall|nm: Seq<char>|
            spec_has_name(r, nm) <==> (spec_has_name(s, nm) || nm == e.name@) by {
            if spec_has_name(r, nm) {
                let k = choose|k: int| 0 <= k < r.len() && (#[trigger] r[k]).name@ == nm;
                if k == 0 {
                    assert(s[0].name@ == nm);
                } else {
                    assert(r1[k - 1].name@ == nm);
                    assert(spec_has_name(r1, nm));
                    if spec_has_name(s1, nm) {
                        let m = choose|m: int|
                            0 <= m < s1.len() && (#[trigger] s1[m]).name@ == nm;
                        assert(s[m + 1].name@ == nm);
                    }
                }
            }
            if spec_has_name(s, nm) {
                let k = choose|k: int| 0 <= k < s.len() && (#[trigger] s[k]).name@ == nm;
                if k == 0 {
                    assert(r[0].name@ == nm);
                } else {
                    assert(s1[k - 1].name@ == nm);
                    assert(spec_has_name(s1, nm));
                    assert(spec_has_name(r1, nm));
                    let m = choose|m: int| 0 <= m < r1.len() && (#[trigger] r1[m]).name@ == nm;
                    assert(r[m + 1].name@ == nm);
                }
            }
            if nm == e.name@ {
                assert(spec_has_name(r1, nm));
                let m = choose|m: int| 0 <= m < r1.len() && (#[trigger] r1[m]).name@ == nm;
                assert(r[m + 1].name@ == nm);
            }
        }
        if spec_has_name(s, e.name@) {
            let k = choose|k: int| 0 <= k < s.len() && (#[trigger] s[k]).name@ == e.name@;
            assert(k != 0);
            assert(s1[k - 1].name@ == e.name@);
            assert(spec_has_name(s1, e.name@));
        }
        if spec_has_name(s1, e.name@) {
            let k = choose|k: int| 0 <= k < s1.len() && (#[trigger] s1[k]).name@ == e.name@;
            assert(s[k + 1].name@ == e.name@);
            assert(spec_has_name(s, e.name@));
        }
        assert forall|k: int|
            0 <= k < r.len() implies (#[trigger] r[k] == e || exists|m: int|
            0 <= m < s.len() && r[k] == s[m]) by {
            if k == 0 {
                assert(r[0] == s[0]);
            } else {
                assert(r[k] == r1[k - 1]);
                if r1[k - 1] != e {
                    let m = choose|m: int| 0 <= m < s1.len() && r1[k - 1] == s1[m];
                    assert(r[k] == s[m + 1]);
                }
            }
        }
    } else if s[0].name@ == e.name@ {
        let s1 = s.drop_first();
        assert(r =~= seq![e] + s1);
        assert forall|i: int, j: int|
            0 <= i < j < r.len() implies spec_lex_lt(
            (#[trigger] r[i]).name@,
            (#[trigger] r[j]).name@,
        ) by {
            if i == 0 {
                assert(r[j] == s[j]);
                assert(spec_lex_lt(s[0].name@, s[j].name@));
            } else {
                assert(r[i] == s[i] && r[j] == s[j]);
            }
        }
        assert(spec_has_name(s, e.name@)) by {
            assert(s[0].name@ == e.name@);
        }
        assert forall|nm: Seq<char>|
            spec_has_name(r, nm) <==> (spec_has_name(s, nm) || nm == e.name@) by {
            if spec_has_name(r, nm) {
                let k = choose|k: int| 0 <= k < r.len() && (#[trigger] r[k]).name@ == nm;
                if k == 0 {
                } else {
                    assert(r[k] == s[k]);
                }
            }
            if spec_has_name(s, nm) {
                let k = choose|k: int| 0 <= k < s.len() && (#[trigger] s[k]).name@ == nm;
                if k == 0 {
                    assert(r[0].name@ == nm);
                } else {
                    assert(r[k].name@ == nm);
                }
            }
            if nm == e.name@ {
                assert(r[0].name@ == nm);
            }
        }
        assert forall|k: int|
            0 <= k < r.len() implies (#[trigger] r[k] == e || exists|m: int|
            0 <= m < s.len() && r[k] == s[m]) by {
            if k != 0 {
                assert(r[k] == s[k]);
            }
        }
    } else {
        lemma_lex_total(s[0].name@, e.name@);
        assert(spec_lex_lt(e.name@, s[0].name@));
        assert(r =~= seq![e] + s);
        assert forall|i: int, j: int|
            0 <= i < j < r.len() implies spec_lex_lt(
            (#[trigger] r[i]).name@,
            (#[trigger] r[j]).name@,
        ) by {
            if i == 0 {
                assert(r[j] == s[j - 1]);
                if j > 1 {
                    assert(spec_lex_lt(s[0].name@, s[j - 1].name@));
                    lemma_lex_lt_trans(e.name@, s[0].name@, s[j - 1].name@);
                }
            } else {
                assert(r[i] == s[i - 1] && r[j] == s[j - 1]);
            }
        }
        assert(!spec_has_name(s, e.name@)) by {
            if spec_has_name(s, e.name@) {
                let k = choose|k: int| 0 <= k < s.len() && (#[trigger] s[k]).name@ == e.name@;
                if k > 0 {
                    assert(spec_lex_lt(s[0].name@, s[k].name@));
                    lemma_lex_lt_trans(e.name@, s[0].name@, s[k].name@);
                    lemma_lex_irrefl(e.name@);
                }
            }
        }
        assert forall|nm: Seq<char>|
            spec_has_name(r, nm) <==> (spec_has_name(s, nm) || nm == e.name@) by {
            if spec_has_name(r, nm) {
                let k = choose|k: int| 0 <= k < r.len() && (#[trigger] r[k]).name@ == nm;
                if k > 0 {
                    assert(s[k - 1].name@ == nm);
                }
            }
            if spec_has_name(s, nm) {
                let k = choose|k: int| 0 <= k < s.len() && (#[trigger] s[k]).name@ == nm;
                assert(r[k + 1].name@ == nm);
            }
            if nm == e.name@ {
                assert(r[0].name@ == nm);
            }
        }
        assert forall|k: int|
            0 <= k < r.len() implies (#[trigger] r[k] == e || exists|m: int|
            0 <= m < s.len() && r[k] == s[m]) by {
            if k != 0 {
                assert(r[k] == s[k - 1]);
            }
        }
    }
}

/// Folding the first `n` frames gives a sorted list whose names are exactly
/// the first `n` input names; with distinct names the list has `n` entries.
proof fn lemma_fold_props(frames: Seq<Frame>, n: int)
    requires
        0 <= n <= frames.len(),
    ensures
        frames_sorted(spec_frames_fold(frames, n)),
        forall|nm: Seq<char>|
            spec_has_name(spec_frames_fold(frames, n), nm) <==> exists|k: int|
                0 <= k < n && (#[trigger] frames[k]).name@ == nm,
        (forall|k1: int, k2: int|
            0 <= k1 < k2 < n ==> (#[trigger] frames[k1]).name@ != (#[trigger] frames[k2]).name@)
            ==> spec_frames_fold(frames, n).len() == n,
    decreases n,
{
    if n > 0 {
        lemma_fold_props(frames, n - 1);
        let prev = spec_frames_fold(frames, n - 1);
        let e = frames[n - 1];
        lemma_insert_props(prev, e);
        let r = spec_frames_fold(frames, n);
        assert(r == spec_insert_frame(prev, e));
        assert forall|nm: Seq<char>|
            spec_has_name(r, nm) <==> exists|k: int|
                0 <= k < n && (#[trigger] frames[k]).name@ == nm by {
            assert(spec_has_name(r, nm) == spec_has_name(spec_insert_frame(prev, e), nm));
            if spec_has_name(r, nm) {
                if nm == e.name@ {
                    assert(0 <= n - 1 < n && frames[n - 1].name@ == nm);
                } else {
                    assert(spec_has_name(prev, nm));
                    let k = choose|k: int|
                        0 <= k < n - 1 && (#[trigger] frames[k]).name@ == nm;
                    assert(0 <= k < n && frames[k].name@ == nm);
                }
            }
            if exists|k: int| 0 <= k < n && (#[trigger] frames[k]).name@ == nm {
                let k = choose|k: int| 0 <= k < n && (#[trigger] frames[k]).name@ == nm;
                if k == n - 1 {
                    assert(nm == e.name@);
                    assert(spec_has_name(spec_insert_frame(prev, e), nm));
                } else {
                    assert(spec_has_name(prev, nm));
                    assert(spec_has_name(spec_insert_frame(prev, e), nm));
                }
            }
        }
        if forall|k1: int, k2: int|
            0 <= k1 < k2 < n ==> (#[trigger] frames[k1]).name@ != (#[trigger] frames[k2]).name@ {
            assert(!spec_has_name(prev, e.name@)) by {
                if spec_has_name(prev, e.name@) {
                    let k = choose|k: int|
                        0 <= k < n - 1 && (#[trigger] frames[k]).name@ == e.name@;
                    assert(frames[k].name@ != frames[n - 1].name@);
                }
            }
            assert(prev.len() == n - 1);
            assert(r.len() == n);
        }
    }
}

/// For every non-empty sprite set with distinct names, the manifest holds
/// exactly one frame per sprite: its length equals the sprite count, every
/// sprite name appears, and no name appears twice (the list is strictly
/// sorted by name).
pub proof fn lemma_manifest_complete(frames: Seq<Frame>)
    requires
        forall|k1: int, k2: int|
            0 <= k1 < k2 < frames.len() ==> (#[trigger] frames[k1]).name@ != (
            #[trigger] frames[k2]).name@,
    ensures
        spec_sorted_frames(frames).len() == frames.len(),
        forall|k: int|
            0 <= k < frames.len() ==> spec_has_name(
                spec_sorted_frames(frames),
                (#[trigger] frames[k]).name@,
            ),
        frames_sorted(spec_sorted_frames(frames)),
        forall|i: int, j: int|
            0 <= i < j < spec_sorted_frames(frames).len() ==> (#[trigger] spec_sorted_frames(
                frames,
            )[i]).name@ != (#[trigger] spec_sorted_frames(frames)[j]).name@,
{
    lemma_fold_props(frames, frames.len() as int);
    let r = spec_sorted_frames(frames);
    assert forall|i: int, j: int|
        0 <= i < j < r.len() implies (#[trigger] r[i]).name@ != (#[trigger] r[j]).name@ by {
        assert(spec_lex_lt(r[i].name@, r[j].name@));
        if r[i].name@ == r[j].name@ {
            lemma_lex_irrefl(r[i].name@);
        }
    }
}

/// For every non-empty sprite set with distinct names and any feasible
/// layout, the manifest holds exactly one frame per sprite: the frame count
/// equals the sprite count and every sprite name appears exactly once.
pub proof fn lemma_pack_manifest_complete(
    sprites: Seq<SpriteInput>,
    sizes: Seq<(u32, u32)>,
    spots: Seq<(u32, u32)>,
    padding: u32,
    pct: u32,
)
    requires
        forall|k1: int, k2: int|
            0 <= k1 < k2 < sprites.len() ==> (#[trigger] sprites[k1]).name@ != (
            #[trigger] sprites[k2]).name@,
    ensures
        spec_sorted_frames(
            spec_frames_input(
                crate::atlas::spec_names(sprites),
                crate::atlas::spec_offsets(sprites),
                sizes,
                spots,
                padding,
                pct,
            ),
        ).len() == sprites.len(),
        forall|k: int|
            0 <= k < sprites.len() ==> spec_has_name(
                spec_sorted_frames(
                    spec_frames_input(
                        crate::atlas::spec_names(sprites),
                        crate::atlas::spec_offsets(sprites),
                        sizes,
                        spots,
                        padding,
                        pct,
                    ),
                ),
                (#[trigger] sprites[k]).name@,
            ),
        forall|i: int, j: int|
            0 <= i < j < sprites.len() ==> (#[trigger] spec_sorted_frames(
                spec_frames_input(
                    crate::atlas::spec_names(sprites),
                    crate::atlas::spec_offsets(sprites),
                    sizes,
                    spots,
                    padding,
                    pct,
                ),
            )[i]).name@ != (#[trigger] spec_sorted_frames(
                spec_frames_input(
                    crate::atlas::spec_names(sprites),
                    crate::atlas::spec_offsets(sprites),
                    sizes,
                    spots,
                    padding,
                    pct,
                ),
            )[j]).name@,
{
    let frames = spec_frames_input(
        crate::atlas::spec_names(sprites),
        crate::atlas::spec_offsets(sprites),
        sizes,
        spots,
        padding,
        pct,
    );
    assert forall|k1: int, k2: int|
        0 <= k1 < k2 < frames.len() implies (#[trigger] frames[k1]).name@ != (
    #[trigger] frames[k2]).name@ by {
        assert(frames[k1].name == sprites[k1].name);
        assert(frames[k2].name == sprites[k2].name);
    }
    lemma_manifest_complete(frames);
    assert forall|k: int|
        0 <= k < sprites.len() implies spec_has_name(
        spec_sorted_frames(frames),
        (#[trigger] sprites[k]).name@,
    ) by {
        assert(frames[k].name == sprites[k].name);
    }
}

/// Every frame rectangle of a feasible layout lies within the canvas:
/// `[0, canvas_w) x [0, canvas_h)`.
pub proof fn lemma_frames_within_canvas(
    sizes: Seq<(u32, u32)>,
    spots: Seq<(u32, u32)>,
    padding: u32,
    cw: u32,
    ch: u32,
)
    requires
        layout_ok(sizes, spots, padding, cw, ch),
    ensures
        forall|i: int|
            0 <= i < sizes.len() ==> 0 <= frame_left(spots, padding, i) && frame_left(
                spots,
                padding,
                i,
            ) + (#[trigger] sizes[i]).0 <= cw && 0 <= frame_top(spots, padding, i) && frame_top(
                spots,
                padding,
                i,
            ) + sizes[i].1 <= ch,
{
    assert forall|i: int|
        0 <= i < sizes.len() implies 0 <= frame_left(spots, padding, i) && frame_left(
        spots,
        padding,
        i,
    ) + (#[trigger] sizes[i]).0 <= cw && 0 <= frame_top(spots, padding, i) && frame_top(
        spots,
        padding,
        i,
    ) + sizes[i].1 <= ch by {
        assert((#[trigger] spots[i]).0 + sizes[i].0 + 2 * padding <= cw);
        assert(spots[i].1 + sizes[i].1 + 2 * padding <= ch);
    }
}

/// No two frame rectangles of a feasible layout, each inflated by the
/// padding on all four sides, overlap.
pub proof fn lemma_frames_disjoint(
    sizes: Seq<(u32, u32)>,
    spots: Seq<(u32, u32)>,
    padding: u32,
    cw: u32,
    ch: u32,
)
    requires
        layout_ok(sizes, spots, padding, cw, ch),
    ensures
        forall|i: int, j: int|
            0 <= i < sizes.len() && 0 <= j < sizes.len() && i != j ==> spec_disjoint(
                (#[trigger] spots[i]).0 as int,
                spots[i].1 as int,
                sizes[i].0 + 2 * padding,
                sizes[i].1 + 2 * padding,
                (#[trigger] spots[j]).0 as int,
                spots[j].1 as int,
                sizes[j].0 + 2 * padding,
                sizes[j].1 + 2 * padding,
            ),
{
}

/// The capacity search is deterministic: two results for the same sprite
/// dimensions and padding agree — same success or same error, and on
/// success the same scale, bin, sizes, placements and canvas.
pub proof fn lemma_plan_deterministic(
    dims: Seq<(u32, u32)>,
    padding: u32,
    r1: Result<Layout, AtlasError>,
    r2: Result<Layout, AtlasError>,
)
    requires
        plan_ok(dims, padding, r1),
        plan_ok(dims, padding, r2),
    ensures
        r1 is Ok <==> r2 is Ok,
        r1 matches Err(e1) ==> (r2 matches Err(e2) && e1 == e2),
        r1 matches Ok(l1) ==> r2 matches Ok(l2) ==> (l1.scale_pct == l2.scale_pct && l1.bin_size
            == l2.bin_size && l1.sizes@ == l2.sizes@ && l1.spots@ == l2.spots@ && l1.canvas_w
            == l2.canvas_w && l1.canvas_h == l2.canvas_h),
{
}

/// The whole engine is deterministic: two results for the same sprites and
/// padding agree — same error, or the same manifest text and image text.
pub proof fn lemma_pack_deterministic(
    sprites: Seq<SpriteInput>,
    padding: u32,
    r1: Result<AtlasOutput, AtlasError>,
    r2: Result<AtlasOutput, AtlasError>,
)
    requires
        pack_result_ok(sprites, padding, r1),
        pack_result_ok(sprites, padding, r2),
    ensures
        r1 is Ok <==> r2 is Ok,
        r1 matches Err(e1) ==> (r2 matches Err(e2) && e1 == e2),
        r1 matches Ok(o1) ==> r2 matches Ok(o2) ==> (o1.json@ == o2.json@ && o1.image_base64@
            == o2.image_base64@),
{
}

/// When the sprites fit at full scale into the very first bin — the oracle
/// packs them into a 256 square at 100 percent — the engine accepts scale
/// factor 1.0 and the first bin (or reports the oracle's placement as
/// malformed; it never falls back to a smaller scale).
pub proof fn lemma_scale_one_when_first_fit(
    dims: Seq<(u32, u32)>,
    padding: u32,
    pl: Seq<(usize, u32, u32)>,
    r: Result<Layout, AtlasError>,
)
    requires
        spec_fits(dims, 100, padding as nat),
        spec_packed(spec_rects(dims, 100, padding as nat), 256) == Some(pl),
        plan_ok(dims, padding, r),
    ensures
        r matches Ok(l) ==> l.scale_pct == 100 && l.bin_size == 256,
        r matches Err(e) ==> e == AtlasError::CompositionError,
{
    assert(spec_bin_steps()[0] == 256u32);
    assert(spec_scale_steps()[0] == 100u32);
    assert(spec_scale_attempt(dims, padding, 100) == Some((256u32, pl)));
    assert(spec_search(dims, padding, spec_scale_steps()) == Some((100u32, 256u32, pl)));
}

/// When some sprite alone exceeds the bin ceiling even at the smallest
/// scale factor, the search is exhausted and the engine fails with
/// `PackingInfeasible`.
pub proof fn lemma_infeasible_when_oversized(
    dims: Seq<(u32, u32)>,
    padding: u32,
    r: Result<Layout, AtlasError>,
)
    requires
        forall|i: int| 0 <= i < dims.len() ==> (#[trigger] dims[i]).0 >= 1 && dims[i].1 >= 1,
        !spec_fits(dims, 20, padding as nat),
        plan_ok(dims, padding, r),
    ensures
        r matches Err(e) && e == AtlasError::PackingInfeasible,
{
    lemma_scale_steps_bounds();
    let steps = spec_scale_steps();
    let padn = padding as nat;
    assert(exists|i: int|
        0 <= i < dims.len() && !(spec_scaled_dim((#[trigger] dims[i]).0 as nat, 20) + 2 * padn
            <= MAX_BIN && spec_scaled_dim(dims[i].1 as nat, 20) + 2 * padn <= MAX_BIN));
    let i = choose|i: int|
        0 <= i < dims.len() && !(spec_scaled_dim((#[trigger] dims[i]).0 as nat, 20) + 2 * padn
            <= MAX_BIN && spec_scaled_dim(dims[i].1 as nat, 20) + 2 * padn <= MAX_BIN);
    assert forall|j: int|
        0 <= j < steps.len() implies spec_scale_attempt(dims, padding, #[trigger] steps[j])
        is None by {
        let pct = steps[j];
        assert(20 <= pct <= 100);
        lemma_scaled_dim_monotone(dims[i].0 as nat, 20, pct as nat);
        lemma_scaled_dim_monotone(dims[i].1 as nat, 20, pct as nat);
        assert(!spec_fits(dims, pct as nat, padn));
    }
    lemma_search_none(dims, padding, steps);
}

/// An empty sprite list fails with `EmptyInput`, before any packing.
pub proof fn lemma_empty_input(
    sprites: Seq<SpriteInput>,
    padding: u32,
    r: Result<AtlasOutput, AtlasError>,
)
    requires
        sprites.len() == 0,
        pack_result_ok(sprites, padding, r),
    ensures
        r matches Err(e) && e == AtlasError::EmptyInput,
{
}

} // verus!
