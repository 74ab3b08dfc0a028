//! Flattening a frame's visible layers into one image, back to front.

use vstd::prelude::*;
use crate::document::{BlendMode, Document, LayerModel, MAX_OPACITY, clamp_opacity, frame_fits, layer_fits};
use crate::pixel::{Color, EditorError, filled_cells, transparent};

verus! {

/// One channel of source `s` over destination `d` under `mode`, before
/// alpha is taken into account.
pub open spec fn mix(mode: BlendMode, s: int, d: int) -> int {
    match mode {
        BlendMode::Normal => s,
        BlendMode::Multiply => s * d / 255,
        BlendMode::Screen => 255 - (255 - s) * (255 - d) / 255,
        BlendMode::Add => if s + d > 255 {
            255
        } else {
            s + d
        },
    }
}

/// The alpha a layer contributes: the cell's alpha scaled by the layer's
/// opacity in percent.
pub open spec fn effective_alpha(a: int, opacity: int) -> int {
    a * opacity / 100
}

/// How much of the destination shows through a source of alpha `ea`.
pub open spec fn dst_weight(da: int, ea: int) -> int {
    da * (255 - ea) / 255
}

/// Straight-alpha "over": the mixed source color weighted by its alpha and
/// the destination color weighted by what shows through, divided by the
/// resulting alpha.
pub open spec fn over_channel(mode: BlendMode, s: int, d: int, ea: int, dw: int) -> int {
    if ea + dw == 0 {
        0
    } else {
        (mix(mode, s, d) * ea + d * dw) / (ea + dw)
    }
}

/// Cell `src` of a layer drawn over `dst`, the opacity clamped to 100
/// percent.
pub open spec fn blend_spec(src: Color, dst: Color, mode: BlendMode, opacity: u8) -> Color {
    let ea = effective_alpha(src.a as int, clamp_opacity(opacity) as int);
    let dw = dst_weight(dst.a as int, ea);
    Color {
        r: over_channel(mode, src.r as int, dst.r as int, ea, dw) as u8,
        g: over_channel(mode, src.g as int, dst.g as int, ea, dw) as u8,
        b: over_channel(mode, src.b as int, dst.b as int, ea, dw) as u8,
        a: (ea + dw) as u8,
    }
}

/// Cell `k` of the composite of layers `ls`: the visible layers drawn in
/// order, each at its clamped opacity, over a transparent background.
pub open spec fn composite_cell(ls: Seq<LayerModel>, k: int) -> Color
    decreases ls.len(),
{
    if ls.len() == 0 {
        transparent()
    } else {
        let below = composite_cell(ls.drop_last(), k);
        let top = ls.last();
        if top.visible {
            blend_spec(top.cells[k], below, top.blend_mode, top.opacity)
        } else {
            below
        }
    }
}

fn mix_channel(mode: BlendMode, s: u8, d: u8) -> (r: u32)
    ensures
        r == mix(mode, s as int, d as int),
        r <= 255,
{
    let s = s as u32;
    let d = d as u32;
    match mode {
        BlendMode::Normal => s,
        BlendMode::Multiply => {
            proof {
                assert(s * d <= 255 * 255) by (nonlinear_arith)
                    requires
                        s <= 255,
                        d <= 255,
                ;
            }
            s * d / 255
        },
        BlendMode::Screen => {
            proof {
                assert((255 - s) * (255 - d) <= 255 * 255) by (nonlinear_arith)
                    requires
                        s <= 255,
                        d <= 255,
                ;
            }
            255 - (255 - s) * (255 - d) / 255
        },
        BlendMode::Add => if s + d > 255 {
            255
        } else {
            s + d
        },
    }
}

fn over(mode: BlendMode, s: u8, d: u8, ea: u32, dw: u32) -> (r: u8)
    requires
        ea <= 255,
        ea + dw <= 255,
    ensures
        r as int == over_channel(mode, s as int, d as int, ea as int, dw as int),
{
    let m = mix_channel(mode, s, d);
    let dd = d as u32;
    let t = ea + dw;
    if t == 0 {
        return 0;
    }
    proof {
        assert(m * ea + dd * dw <= 255 * t) by (nonlinear_arith)
            requires
                m <= 255,
                dd <= 255,
                t == ea + dw,
        ;
        assert((m * ea + dd * dw) / (t as int) <= 255) by (nonlinear_arith)
            requires
                m * ea + dd * dw <= 255 * t,
                t > 0,
        ;
    }
    ((m * ea + dd * dw) / t) as u8
}

/// Cell `src` of a layer drawn over `dst`; opacities above 100 percent
/// count as 100.
pub fn blend(src: Color, dst: Color, mode: BlendMode, opacity: u8) -> (r: Color)
    ensures
        r == blend_spec(src, dst, mode, opacity),
{
    let o: u32 = if opacity > MAX_OPACITY {
        MAX_OPACITY as u32
    } else {
        opacity as u32
    };
    let a = src.a as u32;
    proof {
        assert(a * o <= 255 * 100) by (nonlinear_arith)
            requires
                a <= 255,
                o <= 100,
        ;
        assert(a * o / 100 <= 255) by (nonlinear_arith)
            requires
                a * o <= 255 * 100,
        ;
    }
    let ea = a * o / 100;
    let da = dst.a as u32;
    proof {
        assert(da * (255 - ea) <= 255 * (255 - ea)) by (nonlinear_arith)
            requires
                da <= 255,
                ea <= 255,
        ;
        assert(da * (255 - ea) / 255 <= 255 - ea) by (nonlinear_arith)
            requires
                da * (255 - ea) <= 255 * (255 - ea),
                ea <= 255,
        ;
    }
    let dw = da * (255 - ea) / 255;
    Color {
        r: over(mode, src.r, dst.r, ea, dw),
        g: over(mode, src.g, dst.g, ea, dw),
        b: over(mode, src.b, dst.b, ea, dw),
        a: (ea + dw) as u8,
    }
}

/// The flattened image of frame `index` of `doc`, row by row;
/// `FrameIndexOutOfRange` where there is no such frame. Nothing changes.
pub fn composite_frame(doc: &Document, index: usize) -> (r: Result<Vec<Color>, EditorError>)
    requires
        doc.wf(),
    ensures
        index >= doc@.frames.len() ==> r == Err::<Vec<Color>, EditorError>(
            EditorError::FrameIndexOutOfRange,
        ),
        index < doc@.frames.len() ==> r is Ok && r->Ok_0@.len() == doc@.width * doc@.height
            && forall|k: int|
            0 <= k < doc@.width * doc@.height ==> #[trigger] r->Ok_0@[k] == composite_cell(
                doc@.frames[index as int],
                k,
            ),
{
    let frames = doc.frames();
    if index >= frames.len() {
        return Err(EditorError::FrameIndexOutOfRange);
    }
    let ghost ls = doc@.frames[index as int];
    let n = doc.area();
    let layers = &frames[index].layers;
    let mut out = filled_cells(n, Color::clear());
    let mut j: usize = 0;
    while j < layers.len()
        invariant
            doc.wf(),
            ls == doc@.frames[index as int],
            frame_fits(ls, doc@.width, doc@.height),
            n == doc@.width * doc@.height,
            layers@.len() == ls.len(),
            forall|q: int| 0 <= q < ls.len() ==> layers@[q]@ == ls[q],
            j <= ls.len(),
            out@.len() == n,
            forall|k: int| 0 <= k < n ==> #[trigger] out@[k] == composite_cell(ls.subrange(0, j as int), k),
        decreases ls.len() - j,
    {
        let layer = &layers[j];
        let ghost sub = ls.subrange(0, j + 1);
        proof {
            assert(sub.drop_last() =~= ls.subrange(0, j as int));
            assert(sub.last() == ls[j as int]);
            assert(layer_fits(ls[j as int], doc@.width, doc@.height));
        }
        if layer.visible {
            let mut k: usize = 0;
            while k < n
                invariant
                    n == layer.pixels.cells@.len(),
                    layer@ == ls[j as int],
                    layer.visible,
                    sub.drop_last() == ls.subrange(0, j as int),
                    sub.last() == ls[j as int],
                    sub.len() > 0,
                    k <= n,
                    out@.len() == n,
                    forall|i: int| 0 <= i < k ==> #[trigger] out@[i] == composite_cell(sub, i),
                    forall|i: int| k <= i < n ==> #[trigger] out@[i] == composite_cell(ls.subrange(0, j as int), i),
                decreases n - k,
            {
                let c = blend(layer.pixels.cells[k], out[k], layer.blend_mode, layer.opacity);
                out.set(k, c);
                k = k + 1;
            }
        } else {
            assert forall|k: int| 0 <= k < n implies #[trigger] out@[k] == composite_cell(sub, k) by {}
        }
        j = j + 1;
    }
    assert(ls.subrange(0, ls.len() as int) =~= ls);
    Ok(out)
}

} // verus!
