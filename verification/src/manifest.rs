//! The manifest emitter.
//!
//! Each sprite gets one frame descriptor: its frame rectangle (the padded
//! corner inset by the padding), its scaled size, a pivot fixed at the
//! center, and its scaled anchor offset. Frames are keyed by sprite name in
//! lexicographic order, later duplicates silently replacing earlier ones,
//! exactly as an ordered map keyed by name behaves. The manifest is
//! serialized to a compact JSON text whose every character is pinned by the
//! specification.

use vstd::prelude::*;

verus! {

use vstd::string::StringExecFns;
use crate::layout::{layout_ok, Layout};
use crate::scaling::{scaled_off, spec_scaled_off};
use crate::textutil::{
    push_dec_i32,
    push_dec_u32,
    push_escaped,
    spec_dec_i,
    spec_dec_u,
    spec_escaped,
    spec_lex_lt,
    str_lt,
};

/// One frame descriptor of the manifest.
pub struct Frame {
    /// The sprite's name, the manifest key.
    pub name: String,
    /// Left edge of the frame on the canvas.
    pub fx: u32,
    /// Top edge of the frame on the canvas.
    pub fy: u32,
    /// Frame width: the scaled sprite width.
    pub w: u32,
    /// Frame height: the scaled sprite height.
    pub h: u32,
    /// The sprite's anchor offset, scaled like the sprite.
    pub ox: i32,
    /// The sprite's anchor offset, scaled like the sprite.
    pub oy: i32,
}

/// Inserting one frame into a name-sorted frame list: it lands before the
/// first entry whose name is not below its own, replacing that entry when
/// the names are equal — an ordered map's insert, later writes winning.
pub open spec fn spec_insert_frame(s: Seq<Frame>, e: Frame) -> Seq<Frame>
    decreases s.len(),
{
    if s.len() == 0 {
        seq![e]
    } else if spec_lex_lt(s[0].name@, e.name@) {
        seq![s[0]] + spec_insert_frame(s.drop_first(), e)
    } else if s[0].name@ == e.name@ {
        seq![e] + s.drop_first()
    } else {
        seq![e] + s
    }
}

/// The first `n` frames of `frames`, folded into a name-sorted list.
pub open spec fn spec_frames_fold(frames: Seq<Frame>, n: int) -> Seq<Frame>
    decreases n,
{
    if n <= 0 {
        Seq::empty()
    } else {
        spec_insert_frame(spec_frames_fold(frames, n - 1), frames[n - 1])
    }
}

/// All frames, keyed and ordered by name, later duplicates winning.
pub open spec fn spec_sorted_frames(frames: Seq<Frame>) -> Seq<Frame> {
    spec_frames_fold(frames, frames.len() as int)
}

/// The frame descriptors in sprite input order, one per sprite.
pub open spec fn spec_frames_input(
    names: Seq<String>,
    offs: Seq<(i32, i32)>,
    sizes: Seq<(u32, u32)>,
    spots: Seq<(u32, u32)>,
    padding: u32,
    pct: u32,
) -> Seq<Frame> {
    Seq::new(
        names.len(),
        |i: int|
            Frame {
                name: names[i],
                fx: (spots[i].0 + padding) as u32,
                fy: (spots[i].1 + padding) as u32,
                w: sizes[i].0,
                h: sizes[i].1,
                ox: spec_scaled_off(offs[i].0 as int, pct as nat) as i32,
                oy: spec_scaled_off(offs[i].1 as int, pct as nat) as i32,
            },
    )
}

/// Finds where `e` belongs in a name-sorted list.
#[verifier::loop_isolation(false)]
fn find_pos(entries: &Vec<Frame>, e: &Frame) -> (pos: usize)
    ensures
        0 <= pos <= entries@.len(),
        forall|k: int| 0 <= k < pos ==> spec_lex_lt((#[trigger] entries@[k]).name@, e.name@),
        pos < entries@.len() ==> !spec_lex_lt(entries@[pos as int].name@, e.name@),
{
    let n = entries.len();
    let mut pos: usize = 0;
    while pos < n
        invariant
            0 <= pos <= n,
            n == entries@.len(),
            forall|k: int| 0 <= k < pos ==> spec_lex_lt((#[trigger] entries@[k]).name@, e.name@),
        decreases n - pos,
    {
        if !str_lt(&entries[pos].name, &e.name) {
            return pos;
        }
        pos += 1;
    }
    pos
}

/// An insert at the scan position is the recursive insert.
proof fn lemma_insert_at(s: Seq<Frame>, e: Frame, pos: int)
    requires
        0 <= pos <= s.len(),
        forall|k: int| 0 <= k < pos ==> spec_lex_lt((#[trigger] s[k]).name@, e.name@),
        pos < s.len() ==> !spec_lex_lt(s[pos].name@, e.name@),
    ensures
        spec_insert_frame(s, e) == if pos < s.len() && s[pos].name@ == e.name@ {
            s.update(pos, e)
        } else {
            s.insert(pos, e)
        },
    decreases pos,
{
    if pos == 0 {
        if s.len() == 0 {
            assert(spec_insert_frame(s, e) =~= s.insert(0, e));
        } else if s[0].name@ == e.name@ {
            crate::textutil::lemma_lex_irrefl(e.name@);
            assert(spec_insert_frame(s, e) =~= s.update(0, e));
        } else {
            assert(spec_insert_frame(s, e) =~= s.insert(0, e));
        }
    } else {
        assert(spec_lex_lt(s[0].name@, e.name@));
        lemma_insert_at(s.drop_first(), e, pos - 1);
        if pos < s.len() && s[pos].name@ == e.name@ {
            assert(spec_insert_frame(s, e) =~= s.update(pos, e));
        } else {
            assert(spec_insert_frame(s, e) =~= s.insert(pos, e));
        }
    }
}

/// Inserts `e` into a name-sorted list, replacing an entry of equal name.
fn insert_frame(entries: &mut Vec<Frame>, e: Frame)
    ensures
        final(entries)@ == spec_insert_frame(old(entries)@, e),
{
    let ghost eg = e;
    let pos = find_pos(entries, &e);
    proof {
        lemma_insert_at(entries@, eg, pos as int);
    }
    if pos < entries.len() && entries[pos].name == e.name {
        entries[pos] = e;
    } else {
        entries.insert(pos, e);
    }
}

/// Builds the manifest's frame list for a packed layout: one frame per
/// sprite, keyed and ordered by name, later duplicates winning.
#[verifier::loop_isolation(false)]
pub fn build_frames(names: &Vec<String>, offs: &Vec<(i32, i32)>, lay: &Layout, padding: u32) -> (entries:
    Vec<Frame>)
    requires
        layout_ok(lay.sizes@, lay.spots@, padding, lay.canvas_w, lay.canvas_h),
        names@.len() == lay.sizes@.len(),
        offs@.len() == lay.sizes@.len(),
        1 <= lay.scale_pct <= 100,
    ensures
        entries@ == spec_sorted_frames(
            spec_frames_input(names@, offs@, lay.sizes@, lay.spots@, padding, lay.scale_pct),
        ),
{
    let ghost input = spec_frames_input(
        names@,
        offs@,
        lay.sizes@,
        lay.spots@,
        padding,
        lay.scale_pct,
    );
    let n = names.len();
    let mut entries: Vec<Frame> = Vec::new();
    let mut i: usize = 0;
    while i < n
        invariant
            0 <= i <= n,
            n == names@.len(),
            entries@ == spec_frames_fold(input, i as int),
        decreases n - i,
    {
        proof {
            assert((#[trigger] lay.spots@[i as int]).0 + lay.sizes@[i as int].0 + 2 * padding
                <= lay.canvas_w);
            assert(lay.spots@[i as int].1 + lay.sizes@[i as int].1 + 2 * padding <= lay.canvas_h);
        }
        let name = names[i].clone();
        let fx = lay.spots[i].0 + padding;
        let fy = lay.spots[i].1 + padding;
        let w = lay.sizes[i].0;
        let h = lay.sizes[i].1;
        let ox = scaled_off(offs[i].0, lay.scale_pct);
        let oy = scaled_off(offs[i].1, lay.scale_pct);
        let e = Frame { name, fx, fy, w, h, ox, oy };
        proof {
            assert(e == input[i as int]);
        }
        insert_frame(&mut entries, e);
        i += 1;
    }
    entries
}

/// The manifest's `scale` field, the accepted percentage as decimal text.
pub open spec fn spec_scale_text(pct: u32) -> Seq<char> {
    if pct == 100 {
        "1.0"@
    } else if pct == 90 {
        "0.9"@
    } else if pct == 80 {
        "0.8"@
    } else if pct == 70 {
        "0.7"@
    } else if pct == 60 {
        "0.6"@
    } else if pct == 50 {
        "0.5"@
    } else if pct == 40 {
        "0.4"@
    } else if pct == 30 {
        "0.3"@
    } else if pct == 25 {
        "0.25"@
    } else {
        "0.2"@
    }
}

/// The JSON text of one frame entry, key included.
pub open spec fn spec_frame_json(e: Frame) -> Seq<char> {
    "\""@ + spec_escaped(e.name@) + "\":{\"frame\":{\"x\":"@ + spec_dec_u(e.fx as nat) + ",\"y\":"@
        + spec_dec_u(e.fy as nat) + ",\"w\":"@ + spec_dec_u(e.w as nat) + ",\"h\":"@ + spec_dec_u(
        e.h as nat,
    ) + "},\"rotated\":false,\"trimmed\":false,\"spriteSourceSize\":{\"x\":0,\"y\":0,\"w\":"@
        + spec_dec_u(e.w as nat) + ",\"h\":"@ + spec_dec_u(e.h as nat) + "},\"sourceSize\":{\"w\":"@
        + spec_dec_u(e.w as nat) + ",\"h\":"@ + spec_dec_u(e.h as nat)
        + "},\"pivot\":{\"x\":0.5,\"y\":0.5},\"offset\":{\"x\":"@ + spec_dec_i(e.ox as int)
        + ",\"y\":"@ + spec_dec_i(e.oy as int) + "}}"@
}

/// The JSON text of the first `n` frame entries, comma separated.
pub open spec fn spec_frames_json(entries: Seq<Frame>, n: int) -> Seq<char>
    decreases n,
{
    if n <= 0 {
        Seq::empty()
    } else if n == 1 {
        spec_frame_json(entries[0])
    } else {
        spec_frames_json(entries, n - 1) + ","@ + spec_frame_json(entries[n - 1])
    }
}

/// The whole manifest text.
pub open spec fn spec_manifest_json(entries: Seq<Frame>, cw: u32, ch: u32, pct: u32) -> Seq<char> {
    "{\"frames\":{"@ + spec_frames_json(entries, entries.len() as int)
        + "},\"meta\":{\"image\":\"atlas.png\",\"size\":{\"w\":"@ + spec_dec_u(cw as nat)
        + ",\"h\":"@ + spec_dec_u(ch as nat) + "},\"scale\":"@ + spec_scale_text(pct) + "}}"@
}

/// Appends one frame entry's JSON text.
fn push_frame_json(out: &mut String, e: &Frame)
    ensures
        final(out)@ == old(out)@ + spec_frame_json(*e),
{
    out.append("\"");
    push_escaped(out, &e.name);
    out.append("\":{\"frame\":{\"x\":");
    push_dec_u32(out, e.fx);
    out.append(",\"y\":");
    push_dec_u32(out, e.fy);
    out.append(",\"w\":");
    push_dec_u32(out, e.w);
    out.append(",\"h\":");
    push_dec_u32(out, e.h);
    out.append("},\"rotated\":false,\"trimmed\":false,\"spriteSourceSize\":{\"x\":0,\"y\":0,\"w\":");
    push_dec_u32(out, e.w);
    out.append(",\"h\":");
    push_dec_u32(out, e.h);
    out.append("},\"sourceSize\":{\"w\":");
    push_dec_u32(out, e.w);
    out.append(",\"h\":");
    push_dec_u32(out, e.h);
    out.append("},\"pivot\":{\"x\":0.5,\"y\":0.5},\"offset\":{\"x\":");
    push_dec_i32(out, e.ox);
    out.append(",\"y\":");
    push_dec_i32(out, e.oy);
    out.append("}}");
    proof {
        assert(out@ =~= old(out)@ + spec_frame_json(*e));
    }
}

/// Renders the manifest to its JSON text.
#[verifier::loop_isolation(false)]
pub fn render_manifest(entries: &Vec<Frame>, cw: u32, ch: u32, pct: u32) -> (r: String)
    ensures
        r@ == spec_manifest_json(entries@, cw, ch, pct),
{
    let mut out = String::new();
    out.append("{\"frames\":{");
    let n = entries.len();
    let mut i: usize = 0;
    while i < n
        invariant
            0 <= i <= n,
            n == entries@.len(),
            out@ == "{\"frames\":{"@ + spec_frames_json(entries@, i as int),
        decreases n - i,
    {
        if i > 0 {
            out.append(",");
        }
        push_frame_json(&mut out, &entries[i]);
        proof {
            assert(out@ =~= "{\"frames\":{"@ + spec_frames_json(entries@, i + 1));
        }
        i += 1;
    }
    out.append("},\"meta\":{\"image\":\"atlas.png\",\"size\":{\"w\":");
    push_dec_u32(&mut out, cw);
    out.append(",\"h\":");
    push_dec_u32(&mut out, ch);
    out.append("},\"scale\":");
    if pct == 100 {
        out.append("1.0");
    } else if pct == 90 {
        out.append("0.9");
    } else if pct == 80 {
        out.append("0.8");
    } else if pct == 70 {
        out.append("0.7");
    } else if pct == 60 {
        out.append("0.6");
    } else if pct == 50 {
        out.append("0.5");
    } else if pct == 40 {
        out.append("0.4");
    } else if pct == 30 {
        out.append("0.3");
    } else if pct == 25 {
        out.append("0.25");
    } else {
        out.append("0.2");
    }
    out.append("}}");
    proof {
        assert(out@ =~= spec_manifest_json(entries@, cw, ch, pct));
    }
    out
}

} // verus!
