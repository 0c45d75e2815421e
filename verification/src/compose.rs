//! Canvas composition.
//!
//! Given a validated layout and the scaled sprite pixel buffers (RGBA, four
//! bytes per pixel, row major), the compositor builds the canvas buffer:
//! every sprite's pixels are copied verbatim — alpha included, no blending —
//! to its frame, the padded corner inset by the padding on both axes, and
//! every byte outside all frames stays fully transparent (zero).

use vstd::prelude::*;

verus! {

use crate::layout::{layout_ok, spec_disjoint, MAX_BIN};

/// Byte index of channel `c` of pixel `(x, y)` in a `cw`-wide RGBA buffer.
pub open spec fn px_index(cw: int, x: int, y: int, c: int) -> int {
    4 * (y * cw + x) + c
}

/// Left edge of sprite `i`'s frame: its padded corner inset by the padding.
pub open spec fn frame_left(spots: Seq<(u32, u32)>, padding: u32, i: int) -> int {
    spots[i].0 + padding
}

/// Top edge of sprite `i`'s frame.
pub open spec fn frame_top(spots: Seq<(u32, u32)>, padding: u32, i: int) -> int {
    spots[i].1 + padding
}

/// Pixel `(x, y)` lies inside sprite `i`'s frame.
pub open spec fn in_frame(
    sizes: Seq<(u32, u32)>,
    spots: Seq<(u32, u32)>,
    padding: u32,
    i: int,
    x: int,
    y: int,
) -> bool {
    &&& frame_left(spots, padding, i) <= x < frame_left(spots, padding, i) + sizes[i].0
    &&& frame_top(spots, padding, i) <= y < frame_top(spots, padding, i) + sizes[i].1
}

/// Pixel `(x, y)` lies inside one of the first `n` frames.
pub open spec fn covered(
    sizes: Seq<(u32, u32)>,
    spots: Seq<(u32, u32)>,
    padding: u32,
    n: int,
    x: int,
    y: int,
) -> bool {
    exists|i: int| 0 <= i < n && in_frame(sizes, spots, padding, i, x, y)
}

/// The byte at flat index `k` of the composed canvas: inside a frame, the
/// owning sprite's byte; outside every frame, zero.
pub open spec fn spec_canvas_byte(
    sizes: Seq<(u32, u32)>,
    spots: Seq<(u32, u32)>,
    padding: u32,
    images: Seq<Seq<u8>>,
    cw: u32,
    k: int,
) -> u8 {
    let x = (k / 4) % (cw as int);
    let y = (k / 4) / (cw as int);
    let c = k % 4;
    if covered(sizes, spots, padding, sizes.len() as int, x, y) {
        let i = choose|i: int| 0 <= i < sizes.len() && in_frame(sizes, spots, padding, i, x, y);
        images[i][px_index(
            sizes[i].0 as int,
            x - frame_left(spots, padding, i),
            y - frame_top(spots, padding, i),
            c,
        )]
    } else {
        0u8
    }
}

/// The composed canvas, byte by byte.
pub open spec fn spec_canvas(
    sizes: Seq<(u32, u32)>,
    spots: Seq<(u32, u32)>,
    padding: u32,
    images: Seq<Seq<u8>>,
    cw: u32,
    ch: u32,
) -> Seq<u8> {
    Seq::new((4 * cw * ch) as nat, |k: int| spec_canvas_byte(sizes, spots, padding, images, cw, k))
}

/// Distinct byte coordinates have distinct buffer indices.
proof fn lemma_px_inj(cw: int, x1: int, y1: int, c1: int, x2: int, y2: int, c2: int)
    requires
        0 < cw,
        0 <= x1 < cw,
        0 <= x2 < cw,
        0 <= c1 < 4,
        0 <= c2 < 4,
        0 <= y1,
        0 <= y2,
        px_index(cw, x1, y1, c1) == px_index(cw, x2, y2, c2),
    ensures
        x1 == x2 && y1 == y2 && c1 == c2,
{
    let a = y1 * cw + x1;
    let b = y2 * cw + x2;
    assert(4 * a + c1 == 4 * b + c2);
    assert(a == b && c1 == c2);
    assert(y1 == y2 && x1 == x2) by (nonlinear_arith)
        requires
            y1 * cw + x1 == y2 * cw + x2,
            0 < cw,
            0 <= x1 < cw,
            0 <= x2 < cw,
            0 <= y1,
            0 <= y2,
    ;
}

/// A pixel of one frame lies in no other frame: frames sit strictly inside
/// their padded rectangles, and those are pairwise disjoint.
proof fn lemma_frames_exclusive(
    sizes: Seq<(u32, u32)>,
    spots: Seq<(u32, u32)>,
    padding: u32,
    cw: u32,
    ch: u32,
    i: int,
    j: int,
    x: int,
    y: int,
)
    requires
        layout_ok(sizes, spots, padding, cw, ch),
        0 <= i < sizes.len(),
        0 <= j < sizes.len(),
        i != j,
        in_frame(sizes, spots, padding, i, x, y),
    ensures
        !in_frame(sizes, spots, padding, j, x, y),
{
    assert(spec_disjoint(
        spots[i].0 as int,
        spots[i].1 as int,
        sizes[i].0 + 2 * padding,
        sizes[i].1 + 2 * padding,
        spots[j].0 as int,
        spots[j].1 as int,
        sizes[j].0 + 2 * padding,
        sizes[j].1 + 2 * padding,
    ));
}

/// Composites the sprites onto a transparent canvas.
///
/// Every byte of the result is pinned: inside sprite `i`'s frame the canvas
/// holds exactly sprite `i`'s bytes, and every byte outside all frames is
/// zero.
#[verifier::loop_isolation(false)]
pub fn compose_canvas(
    sizes: &Vec<(u32, u32)>,
    spots: &Vec<(u32, u32)>,
    padding: u32,
    images: &Vec<Vec<u8>>,
    cw: u32,
    ch: u32,
) -> (canvas: Vec<u8>)
    requires
        layout_ok(sizes@, spots@, padding, cw, ch),
        images@.len() == sizes@.len(),
        forall|i: int|
            0 <= i < images@.len() ==> (#[trigger] images@[i])@.len() == 4 * sizes@[i].0
                * sizes@[i].1,
    ensures
        canvas@.len() == 4 * cw * ch,
        forall|i: int, x: int, y: int, c: int|
            #![trigger in_frame(sizes@, spots@, padding, i, x, y), px_index(cw as int, x, y, c)]
            0 <= i < sizes@.len() && in_frame(sizes@, spots@, padding, i, x, y) && 0 <= c < 4
                ==> canvas@[px_index(cw as int, x, y, c)] == images@[i]@[px_index(
                sizes@[i].0 as int,
                x - frame_left(spots@, padding, i),
                y - frame_top(spots@, padding, i),
                c,
            )],
        forall|x: int, y: int, c: int|
            #![trigger px_index(cw as int, x, y, c)]
            0 <= x < cw && 0 <= y < ch && 0 <= c < 4 && !covered(
                sizes@,
                spots@,
                padding,
                sizes@.len() as int,
                x,
                y,
            ) ==> canvas@[px_index(cw as int, x, y, c)] == 0,
        canvas@ == spec_canvas(sizes@, spots@, padding, images.deep_view(), cw, ch),
{
    let n = sizes.len();
    proof {
        assert(0 <= 4 * (cw as int) * (ch as int) <= 4 * 2048 * 2048) by (nonlinear_arith)
            requires
                1 <= (cw as int) <= 2048,
                1 <= (ch as int) <= 2048,
        ;
    }
    let total: usize = 4 * (cw as usize) * (ch as usize);
    let mut canvas: Vec<u8> = Vec::new();
    canvas.resize(total, 0u8);
    proof {
        assert forall|x: int, y: int, c: int|
            0 <= x < cw && 0 <= y < ch && 0 <= c < 4 implies 0 <= #[trigger] px_index(
            cw as int,
            x,
            y,
            c,
        ) < 4 * cw * ch by {
            assert(0 <= 4 * (y * (cw as int) + x) + c < 4 * (cw as int) * (ch as int))
                by (nonlinear_arith)
                requires
                    0 <= x < (cw as int),
                    0 <= y < (ch as int),
                    0 <= c < 4,
            ;
        }
    }
    let mut i: usize = 0;
    while i < n
        invariant
            canvas@.len() == 4 * cw * ch,
            0 <= i <= n,
            forall|j: int, x: int, y: int, c: int|
                #![trigger in_frame(sizes@, spots@, padding, j, x, y), px_index(cw as int, x, y, c)]
                0 <= j < i && in_frame(sizes@, spots@, padding, j, x, y) && 0 <= c < 4
                    ==> canvas@[px_index(cw as int, x, y, c)] == images@[j]@[px_index(
                    sizes@[j].0 as int,
                    x - frame_left(spots@, padding, j),
                    y - frame_top(spots@, padding, j),
                    c,
                )],
            forall|x: int, y: int, c: int|
                #![trigger px_index(cw as int, x, y, c)]
                0 <= x < cw && 0 <= y < ch && 0 <= c < 4 && !covered(
                    sizes@,
                    spots@,
                    padding,
                    i as int,
                    x,
                    y,
                ) ==> canvas@[px_index(cw as int, x, y, c)] == 0,
        decreases n - i,
    {
        let w = sizes[i].0;
        let h = sizes[i].1;
        let fx = spots[i].0 + padding;
        let fy = spots[i].1 + padding;
        let ghost fxi = fx as int;
        let ghost fyi = fy as int;
        let mut dy: u32 = 0;
        while dy < h
            invariant
                canvas@.len() == 4 * cw * ch,
                0 <= dy <= h,
                forall|j: int, x: int, y: int, c: int|
                    #![trigger in_frame(sizes@, spots@, padding, j, x, y), px_index(cw as int, x, y, c)]
                    0 <= j < i && in_frame(sizes@, spots@, padding, j, x, y) && 0 <= c < 4
                        ==> canvas@[px_index(cw as int, x, y, c)] == images@[j]@[px_index(
                        sizes@[j].0 as int,
                        x - frame_left(spots@, padding, j),
                        y - frame_top(spots@, padding, j),
                        c,
                    )],
                forall|x: int, y: int, c: int|
                    #![trigger px_index(cw as int, x, y, c)]
                    in_frame(sizes@, spots@, padding, i as int, x, y) && y < fyi + dy && 0 <= c < 4
                        ==> canvas@[px_index(cw as int, x, y, c)] == images@[i as int]@[px_index(
                        sizes@[i as int].0 as int,
                        x - fxi,
                        y - fyi,
                        c,
                    )],
                forall|x: int, y: int, c: int|
                    #![trigger px_index(cw as int, x, y, c)]
                    0 <= x < cw && 0 <= y < ch && 0 <= c < 4 && !covered(
                        sizes@,
                        spots@,
                        padding,
                        i as int,
                        x,
                        y,
                    ) && !(in_frame(sizes@, spots@, padding, i as int, x, y) && y < fyi + dy)
                        ==> canvas@[px_index(cw as int, x, y, c)] == 0,
            decreases h - dy,
        {
            proof {
                assert(spots@[i as int].0 + sizes@[i as int].0 + 2 * padding <= cw);
                assert(spots@[i as int].1 + sizes@[i as int].1 + 2 * padding <= ch);
            }
            let yy = fy + dy;
            let rowlen: usize = 4 * (w as usize);
            proof {
                assert(yy < ch && fx + w <= cw);
                assert(0 <= (yy as int) * (cw as int) + fxi && ((yy as int) * (cw as int) + fxi)
                    + w <= (ch as int) * (cw as int)) by (nonlinear_arith)
                    requires
                        0 <= fxi,
                        fxi + w <= (cw as int),
                        0 <= (yy as int) < (ch as int),
                ;
                assert(0 <= (dy as int) * (w as int) && ((dy as int) * (w as int)) + w <= (
                h as int) * (w as int)) by (nonlinear_arith)
                    requires
                        0 <= (dy as int) < (h as int),
                        0 <= (w as int),
                ;
                assert(images@[i as int]@.len() == 4 * w * h);
                assert(4 * (h as int) * (w as int) == 4 * (w as int) * (h as int))
                    by (nonlinear_arith);
                assert(0 <= (yy as int) * (cw as int) <= 2048 * 2048) by (nonlinear_arith)
                    requires
                        0 <= (yy as int) <= 2048,
                        0 <= (cw as int) <= 2048,
                ;
                assert(0 <= (dy as int) * (w as int) <= 2048 * 2048) by (nonlinear_arith)
                    requires
                        0 <= (dy as int) <= 2048,
                        0 <= (w as int) <= 2048,
                ;
            }
            let base: usize = 4 * ((yy as usize) * (cw as usize) + (fx as usize));
            let srcbase: usize = 4 * ((dy as usize) * (w as usize));
            let mut t: usize = 0;
            while t < rowlen
                invariant
                    canvas@.len() == 4 * cw * ch,
                    0 <= t <= rowlen,
                    forall|j: int, x: int, y: int, c: int|
                        #![trigger in_frame(sizes@, spots@, padding, j, x, y), px_index(cw as int, x, y, c)]
                        0 <= j < i && in_frame(sizes@, spots@, padding, j, x, y) && 0 <= c < 4
                            ==> canvas@[px_index(cw as int, x, y, c)] == images@[j]@[px_index(
                            sizes@[j].0 as int,
                            x - frame_left(spots@, padding, j),
                            y - frame_top(spots@, padding, j),
                            c,
                        )],
                    forall|x: int, y: int, c: int|
                        #![trigger px_index(cw as int, x, y, c)]
                        in_frame(sizes@, spots@, padding, i as int, x, y) && 0 <= c < 4 && (y < fyi
                            + dy || (y == fyi + dy && 4 * (x - fxi) + c < t))
                            ==> canvas@[px_index(cw as int, x, y, c)] == images@[i as int]@[
                        px_index(sizes@[i as int].0 as int, x - fxi, y - fyi, c)],
                    forall|x: int, y: int, c: int|
                        #![trigger px_index(cw as int, x, y, c)]
                        0 <= x < cw && 0 <= y < ch && 0 <= c < 4 && !covered(
                            sizes@,
                            spots@,
                            padding,
                            i as int,
                            x,
                            y,
                        ) && !(in_frame(sizes@, spots@, padding, i as int, x, y) && (y < fyi + dy
                            || (y == fyi + dy && 4 * (x - fxi) + c < t)))
                            ==> canvas@[px_index(cw as int, x, y, c)] == 0,
                decreases rowlen - t,
            {
                let idx: usize = base + t;
                let sidx: usize = srcbase + t;
                let ghost dxg = (t as int) / 4;
                let ghost cg = (t as int) % 4;
                let ghost xw = fxi + dxg;
                let ghost yw = fyi + dy;
                proof {
                    assert(4 * dxg + cg == t);
                    assert(0 <= dxg < w);
                    assert(idx == px_index(cw as int, xw, yw, cg)) by (nonlinear_arith)
                        requires
                            idx == 4 * ((yw) * (cw as int) + fxi) + t,
                            t == 4 * dxg + cg,
                            xw == fxi + dxg,
                    ;
                    assert(sidx == px_index(w as int, dxg, dy as int, cg)) by (nonlinear_arith)
                        requires
                            sidx == 4 * ((dy as int) * (w as int)) + t,
                            t == 4 * dxg + cg,
                    ;
                    assert(idx < 4 * cw * ch);
                    assert(sidx < 4 * w * h) by (nonlinear_arith)
                        requires
                            sidx == 4 * ((dy as int) * (w as int)) + t,
                            t < 4 * (w as int),
                            0 <= (dy as int) < (h as int),
                    ;
                    assert(in_frame(sizes@, spots@, padding, i as int, xw, yw));
                }
                let v = images[i][sidx];
                canvas[idx] = v;
                proof {
                    let cwi = cw as int;
                    assert forall|x: int, y: int, c: int|
                        0 <= x < cw && 0 <= y < ch && 0 <= c < 4 && (x, y, c) != (xw, yw, cg)
                            implies px_index(cwi, x, y, c) != idx by {
                        if px_index(cwi, x, y, c) == idx {
                            lemma_px_inj(cwi, x, y, c, xw, yw, cg);
                        }
                    }
                    assert forall|j: int, x: int, y: int|
                        0 <= j < i && in_frame(
                            sizes@,
                            spots@,
                            padding,
                            j,
                            x,
                            y,
                        ) implies !in_frame(sizes@, spots@, padding, i as int, x, y) by {
                        lemma_frames_exclusive(
                            sizes@,
                            spots@,
                            padding,
                            cw,
                            ch,
                            j,
                            i as int,
                            x,
                            y,
                        );
                    }
                }
                t += 1;
            }
            dy += 1;
        }
        proof {
            assert forall|x: int, y: int, c: int|
                in_frame(sizes@, spots@, padding, i as int, x, y) && 0 <= c
                    < 4 implies canvas@[px_index(cw as int, x, y, c)] == images@[i as int]@[
            px_index(sizes@[i as int].0 as int, x - fxi, y - fyi, c)] by {
                assert(y < fyi + h);
            }
            assert forall|j: int, x: int, y: int|
                0 <= j < i + 1 && in_frame(sizes@, spots@, padding, j, x, y) && j != i
                    as int implies !in_frame(sizes@, spots@, padding, i as int, x, y) by {
                lemma_frames_exclusive(sizes@, spots@, padding, cw, ch, j, i as int, x, y);
            }
        }
        i += 1;
    }
    proof {
        let imgs = images.deep_view();
        let cwi = cw as int;
        let chi = ch as int;
        let nn = sizes@.len() as int;
        assert forall|k: int|
            0 <= k < canvas@.len() implies canvas@[k] == spec_canvas_byte(
            sizes@,
            spots@,
            padding,
            imgs,
            cw,
            k,
        ) by {
            let q = k / 4;
            let c = k % 4;
            let x = q % cwi;
            let y = q / cwi;
            vstd::arithmetic::div_mod::lemma_fundamental_div_mod(k, 4);
            vstd::arithmetic::div_mod::lemma_mod_bound(k, 4);
            vstd::arithmetic::div_mod::lemma_fundamental_div_mod(q, cwi);
            vstd::arithmetic::div_mod::lemma_mod_bound(q, cwi);
            assert(4 * cwi * chi == 4 * (cwi * chi)) by (nonlinear_arith);
            assert(0 <= q < cwi * chi);
            assert(0 <= y < chi) by (nonlinear_arith)
                requires
                    q == cwi * y + x,
                    0 <= x < cwi,
                    0 <= q < cwi * chi,
                    0 < cwi,
            ;
            assert(px_index(cwi, x, y, c) == k) by (nonlinear_arith)
                requires
                    q == cwi * y + x,
                    k == 4 * q + c,
            ;
            if covered(sizes@, spots@, padding, nn, x, y) {
                let j = choose|j: int|
                    0 <= j < sizes@.len() && in_frame(sizes@, spots@, padding, j, x, y);
                assert(in_frame(sizes@, spots@, padding, j, x, y));
                assert(canvas@[px_index(cwi, x, y, c)] == images@[j]@[px_index(
                    sizes@[j].0 as int,
                    x - frame_left(spots@, padding, j),
                    y - frame_top(spots@, padding, j),
                    c,
                )]);
                assert(imgs[j] == images@[j]@);
            }
        }
        assert(canvas@ =~= spec_canvas(sizes@, spots@, padding, imgs, cw, ch));
    }
    canvas
}

} // verus!
