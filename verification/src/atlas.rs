//! The atlas packing engine's entry point.
//!
//! `pack_atlas` decodes every sprite (base64, then PNG), searches for the
//! first feasible packing over the scale ladder and bin sizes, composites
//! the canvas, and returns the encoded canvas together with the frame
//! manifest. Its contract pins the whole pipeline: exactly which error comes
//! back on which inputs, and, on success, every character of the manifest
//! and the encoded composition of the placed sprites.

use vstd::prelude::*;

verus! {

use vstd::string::{StrSliceExecFns, StringExecFns};
use crate::codec::{
    decode_base64,
    decode_png,
    encode_base64,
    encode_png,
    resize_rgba,
    spec_b64_decoded,
    spec_b64_encoded,
    spec_png_decoded,
    spec_png_encoded,
    spec_resampled,
};
use crate::compose::{compose_canvas, spec_canvas};
use crate::errors::AtlasError;
use crate::layout::{
    layout_ok,
    lemma_scale_steps_bounds,
    lemma_search_pct_in_steps,
    placements_ok,
    plan_ok,
    plan_pack,
    spec_extents,
    spec_layout_sizes,
    spec_rects,
    spec_search,
    spec_spots,
};
use crate::manifest::{
    build_frames,
    render_manifest,
    spec_frames_input,
    spec_manifest_json,
    spec_sorted_frames,
};
use crate::scaling::{spec_scale_steps, spec_scaled_dim};

/// One sprite handed to the engine: a name (the manifest key), the image as
/// base64-encoded PNG bytes (a `data:image/png;base64,` prefix is
/// tolerated), and the sprite's anchor offset.
pub struct SpriteInput {
    /// The sprite's unique name, the manifest key.
    pub name: String,
    /// The image, base64-encoded PNG bytes.
    pub base64: String,
    /// Horizontal anchor offset in the original coordinate space.
    pub offset_x: i32,
    /// Vertical anchor offset in the original coordinate space.
    pub offset_y: i32,
}

/// A finished atlas: the composited canvas as a base64 PNG data URL, and
/// the frame manifest as JSON text.
pub struct AtlasOutput {
    /// The canvas, PNG-encoded and base64-wrapped as a data URL.
    pub image_base64: String,
    /// The frame manifest, JSON text.
    pub json: String,
}

/// The data-URL prefix tolerated (and emitted) by the engine.
pub open spec fn spec_data_url_prefix() -> Seq<char> {
    "data:image/png;base64,"@
}

/// A sprite's base64 payload: the data-URL prefix is dropped when present.
pub open spec fn spec_stripped(s: Seq<char>) -> Seq<char> {
    let p = spec_data_url_prefix();
    if s.len() >= p.len() && s.subrange(0, p.len() as int) == p {
        s.skip(p.len() as int)
    } else {
        s
    }
}

/// What decoding a sprite yields: RGBA pixels and dimensions, or `None`
/// when the base64 or the PNG is malformed or the image has no pixels.
pub open spec fn spec_decoded(sp: SpriteInput) -> Option<(Seq<u8>, u32, u32)> {
    match spec_b64_decoded(spec_stripped(sp.base64@)) {
        None => None,
        Some(bytes) => match spec_png_decoded(bytes) {
            None => None,
            Some(t) => if t.1 >= 1 && t.2 >= 1 {
                Some(t)
            } else {
                None
            },
        },
    }
}

/// The decoded pixels of a sprite.
pub open spec fn spec_decoded_px(sp: SpriteInput) -> Seq<u8> {
    match spec_decoded(sp) {
        Some(t) => t.0,
        None => Seq::empty(),
    }
}

/// The decoded width of a sprite.
pub open spec fn spec_decoded_w(sp: SpriteInput) -> u32 {
    match spec_decoded(sp) {
        Some(t) => t.1,
        None => 0,
    }
}

/// The decoded height of a sprite.
pub open spec fn spec_decoded_h(sp: SpriteInput) -> u32 {
    match spec_decoded(sp) {
        Some(t) => t.2,
        None => 0,
    }
}

/// Every sprite decodes.
pub open spec fn spec_all_decoded(sprites: Seq<SpriteInput>) -> bool {
    forall|i: int| 0 <= i < sprites.len() ==> spec_decoded(#[trigger] sprites[i]) is Some
}

/// The decoded dimensions, in input order.
pub open spec fn spec_dims(sprites: Seq<SpriteInput>) -> Seq<(u32, u32)> {
    Seq::new(sprites.len(), |i: int| (spec_decoded_w(sprites[i]), spec_decoded_h(sprites[i])))
}

/// The sprite names, in input order.
pub open spec fn spec_names(sprites: Seq<SpriteInput>) -> Seq<String> {
    Seq::new(sprites.len(), |i: int| sprites[i].name)
}

/// The sprite anchor offsets, in input order.
pub open spec fn spec_offsets(sprites: Seq<SpriteInput>) -> Seq<(i32, i32)> {
    Seq::new(sprites.len(), |i: int| (sprites[i].offset_x, sprites[i].offset_y))
}

/// A sprite's pixels at the accepted scale: untouched at 100 percent,
/// resampled to the scaled dimensions otherwise.
pub open spec fn spec_scaled_px(sp: SpriteInput, pct: u32) -> Seq<u8> {
    if pct == 100 {
        spec_decoded_px(sp)
    } else {
        spec_resampled(
            spec_decoded_px(sp),
            spec_decoded_w(sp),
            spec_decoded_h(sp),
            spec_scaled_dim(spec_decoded_w(sp) as nat, pct as nat) as u32,
            spec_scaled_dim(spec_decoded_h(sp) as nat, pct as nat) as u32,
        )
    }
}

/// All sprites' pixels at the accepted scale, in input order.
pub open spec fn spec_scaled_images(sprites: Seq<SpriteInput>, pct: u32) -> Seq<Seq<u8>> {
    Seq::new(sprites.len(), |i: int| spec_scaled_px(sprites[i], pct))
}

/// The engine's full contract. A sprite that does not decode fails the call
/// with `DecodeError`; an empty sprite list fails with `EmptyInput`; an
/// exhausted search fails with `PackingInfeasible`; a malformed oracle
/// placement fails with `CompositionError`; a rejected canvas encoding
/// fails with `EncodeError`. Otherwise the manifest text and the canvas
/// data URL are pinned to the first feasible scale, bin and placement.
pub open spec fn pack_result_ok(
    sprites: Seq<SpriteInput>,
    padding: u32,
    r: Result<AtlasOutput, AtlasError>,
) -> bool {
    if !spec_all_decoded(sprites) {
        r matches Err(e) && e == AtlasError::DecodeError
    } else if sprites.len() == 0 {
        r matches Err(e) && e == AtlasError::EmptyInput
    } else {
        let dims = spec_dims(sprites);
        match spec_search(dims, padding, spec_scale_steps()) {
            None => r matches Err(e) && e == AtlasError::PackingInfeasible,
            Some((pct, bin, pl)) => {
                let rects = spec_rects(dims, pct as nat, padding as nat);
                if !placements_ok(pl, rects, bin) {
                    r matches Err(e) && e == AtlasError::CompositionError
                } else {
                    let sizes = spec_layout_sizes(dims, pct as nat);
                    let spots = spec_spots(pl);
                    let ext = spec_extents(pl, rects, pl.len() as int);
                    let cw = ext.0 as u32;
                    let ch = ext.1 as u32;
                    let canv = spec_canvas(
                        sizes,
                        spots,
                        padding,
                        spec_scaled_images(sprites, pct),
                        cw,
                        ch,
                    );
                    let entries = spec_sorted_frames(
                        spec_frames_input(
                            spec_names(sprites),
                            spec_offsets(sprites),
                            sizes,
                            spots,
                            padding,
                            pct,
                        ),
                    );
                    match spec_png_encoded(canv, cw, ch) {
                        None => r matches Err(e) && e == AtlasError::EncodeError,
                        Some(png) => r matches Ok(out) && out.json@ == spec_manifest_json(
                            entries,
                            cw,
                            ch,
                            pct,
                        ) && out.image_base64@ == spec_data_url_prefix() + spec_b64_encoded(png),
                    }
                }
            },
        }
    }
}

/// Strips the data-URL prefix when present and decodes the base64 payload.
#[verifier::loop_isolation(false)]
pub fn decode_payload(s: &String) -> (r: Option<Vec<u8>>)
    ensures
        match r {
            Some(v) => spec_b64_decoded(spec_stripped(s@)) == Some(v@),
            None => spec_b64_decoded(spec_stripped(s@)) is None,
        },
{
    let st = s.as_str();
    let sn = st.unicode_len();
    let p = "data:image/png;base64,";
    let pn = p.unicode_len();
    let mut has = sn >= pn;
    if has {
        let mut j: usize = 0;
        while j < pn
            invariant
                0 <= j <= pn,
                pn == spec_data_url_prefix().len(),
                sn == st@.len(),
                sn >= pn,
                has == forall|m: int| 0 <= m < j ==> st@[m] == #[trigger] spec_data_url_prefix()[m],
            decreases pn - j,
        {
            let ca = st.get_char(j);
            let cb = p.get_char(j);
            has = has && (ca == cb);
            j += 1;
        }
    }
    let body: &str = if has {
        proof {
            assert(st@.subrange(0, pn as int) =~= spec_data_url_prefix());
        }
        st.substring_char(pn, sn)
    } else {
        st
    };
    proof {
        if (!has) && sn >= pn {
            let m = choose|m: int| 0 <= m < pn && st@[m] != #[trigger] spec_data_url_prefix()[m];
            assert(st@.subrange(0, pn as int)[m] == st@[m]);
        }
        assert(body@ =~= spec_stripped(s@));
    }
    decode_base64(body)
}

/// The byte count of a sprite's decoded payload: what the base64 text
/// (data-URL prefix dropped) decodes to, or `None` on malformed input.
pub fn payload_size(s: &String) -> (r: Option<usize>)
    ensures
        match r {
            Some(n) => spec_b64_decoded(spec_stripped(s@)) matches Some(v) && v.len() == n,
            None => spec_b64_decoded(spec_stripped(s@)) is None,
        },
{
    match decode_payload(s) {
        Some(v) => Some(v.len()),
        None => None,
    }
}

/// Packs the sprites into a texture atlas.
///
/// See `pack_result_ok` for the exact outcome on every input.
#[verifier::loop_isolation(false)]
pub fn pack_atlas(sprites: Vec<SpriteInput>, padding: u32) -> (r: Result<AtlasOutput, AtlasError>)
    ensures
        pack_result_ok(sprites@, padding, r),
{
    let n = sprites.len();
    let mut names: Vec<String> = Vec::new();
    let mut offs: Vec<(i32, i32)> = Vec::new();
    let mut dims: Vec<(u32, u32)> = Vec::new();
    let mut pxs: Vec<Vec<u8>> = Vec::new();
    let mut i: usize = 0;
    while i < n
        invariant
            n == sprites@.len(),
            0 <= i <= n,
            names@.len() == i,
            offs@.len() == i,
            dims@.len() == i,
            pxs@.len() == i,
            forall|k: int| 0 <= k < i ==> spec_decoded(#[trigger] sprites@[k]) is Some,
            forall|k: int| 0 <= k < i ==> #[trigger] names@[k] == sprites@[k].name,
            forall|k: int|
                0 <= k < i ==> #[trigger] offs@[k] == (
                    sprites@[k].offset_x,
                    sprites@[k].offset_y,
                ),
            forall|k: int|
                0 <= k < i ==> #[trigger] dims@[k] == (
                    spec_decoded_w(sprites@[k]),
                    spec_decoded_h(sprites@[k]),
                ),
            forall|k: int| 0 <= k < i ==> (#[trigger] pxs@[k])@ == spec_decoded_px(sprites@[k]),
            forall|k: int|
                0 <= k < i ==> (#[trigger] pxs@[k])@.len() == 4 * spec_decoded_w(sprites@[k])
                    * spec_decoded_h(sprites@[k]),
        decreases n - i,
    {
        let sp = &sprites[i];
        match decode_payload(&sp.base64) {
            None => {
                proof {
                    assert(spec_decoded(sprites@[i as int]) is None);
                }
                return Err(AtlasError::DecodeError);
            },
            Some(bytes) => {
                match decode_png(&bytes) {
                    None => {
                        proof {
                            assert(spec_decoded(sprites@[i as int]) is None);
                        }
                        return Err(AtlasError::DecodeError);
                    },
                    Some(t) => {
                        let (px, w, h) = t;
                        if w == 0 || h == 0 {
                            proof {
                                assert(spec_decoded(sprites@[i as int]) is None);
                            }
                            return Err(AtlasError::DecodeError);
                        }
                        names.push(sp.name.clone());
                        offs.push((sp.offset_x, sp.offset_y));
                        dims.push((w, h));
                        pxs.push(px);
                    },
                }
            },
        }
        i += 1;
    }
    proof {
        assert(spec_all_decoded(sprites@));
    }
    if n == 0 {
        return Err(AtlasError::EmptyInput);
    }
    proof {
        assert(dims@ =~= spec_dims(sprites@));
        assert forall|k: int| 0 <= k < dims@.len() implies (#[trigger] dims@[k]).0 >= 1
            && dims@[k].1 >= 1 by {
            assert(spec_decoded(sprites@[k]) is Some);
        }
    }
    let lay = match plan_pack(&dims, padding) {
        Ok(l) => l,
        Err(e) => {
            return Err(e);
        },
    };
    let pct = lay.scale_pct;
    proof {
        lemma_search_pct_in_steps(dims@, padding, spec_scale_steps());
        lemma_scale_steps_bounds();
        let k = choose|k: int|
            0 <= k < spec_scale_steps().len() && #[trigger] spec_scale_steps()[k] == pct;
        assert(1 <= pct <= 100);
    }
    let mut simgs: Vec<Vec<u8>> = Vec::new();
    let mut i2: usize = 0;
    while i2 < n
        invariant
            0 <= i2 <= n,
            simgs@.len() == i2,
            forall|k: int|
                0 <= k < i2 ==> (#[trigger] simgs@[k])@ == spec_scaled_px(sprites@[k], pct)
                    && simgs@[k]@.len() == 4 * lay.sizes@[k].0 * lay.sizes@[k].1,
        decreases n - i2,
    {
        proof {
            assert(lay.sizes@[i2 as int] == spec_layout_sizes(dims@, pct as nat)[i2 as int]);
            assert(pxs@[i2 as int]@.len() == 4 * spec_decoded_w(sprites@[i2 as int])
                * spec_decoded_h(sprites@[i2 as int]));
        }
        if pct == 100 {
            let c = pxs[i2].clone();
            proof {
                assert(c@ =~= pxs@[i2 as int]@);
            }
            simgs.push(c);
        } else {
            let nw = lay.sizes[i2].0;
            let nh = lay.sizes[i2].1;
            proof {
                crate::scaling::lemma_scaled_dim_le(dims@[i2 as int].0 as nat, pct as nat);
                crate::scaling::lemma_scaled_dim_le(dims@[i2 as int].1 as nat, pct as nat);
                assert(nw >= 1 && nh >= 1);
            }
            let rz = resize_rgba(&pxs[i2], dims[i2].0, dims[i2].1, nw, nh);
            simgs.push(rz);
        }
        i2 += 1;
    }
    proof {
        assert(simgs.deep_view() =~~= spec_scaled_images(sprites@, pct));
        assert(layout_ok(lay.sizes@, lay.spots@, padding, lay.canvas_w, lay.canvas_h));
    }
    let canvas = compose_canvas(&lay.sizes, &lay.spots, padding, &simgs, lay.canvas_w, lay.canvas_h);
    let png = match encode_png(&canvas, lay.canvas_w, lay.canvas_h) {
        Some(v) => v,
        None => {
            return Err(AtlasError::EncodeError);
        },
    };
    let b64 = encode_base64(&png);
    let mut url = String::new();
    url.append("data:image/png;base64,");
    url.append(b64.as_str());
    let entries = build_frames(&names, &offs, &lay, padding);
    let json = render_manifest(&entries, lay.canvas_w, lay.canvas_h, pct);
    proof {
        assert(names@ =~= spec_names(sprites@));
        assert(offs@ =~= spec_offsets(sprites@));
    }
    Ok(AtlasOutput { image_base64: url, json })
}

} // verus!
