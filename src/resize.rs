//! Canvas resizing: every layer of every frame is remapped around an anchor,
//! as one undoable command.

use vstd::prelude::*;
use crate::document::{
    DocModel,
    Document,
    EditCommand,
    Frame,
    Layer,
    LayerModel,
    apply_spec,
    frame_fits,
    frames_view,
    layer_fits,
    layers_view,
};
use crate::pixel::{Color, PixelBuffer, cell_index, lemma_cell_index_bounds, transparent};

verus! {

/// Which part of the old content stays in place when the canvas changes size.
#[derive(Clone, Copy, Debug, PartialEq, Eq, Structural)]
pub enum Anchor {
    TopLeft,
    Top,
    TopRight,
    Left,
    Center,
    Right,
    BottomLeft,
    Bottom,
    BottomRight,
}

/// Placement along one axis: 0 at the start, 1 in the middle, 2 at the end.
pub open spec fn horizontal_place(a: Anchor) -> int {
    match a {
        Anchor::TopLeft | Anchor::Left | Anchor::BottomLeft => 0,
        Anchor::Top | Anchor::Center | Anchor::Bottom => 1,
        _ => 2,
    }
}

pub open spec fn vertical_place(a: Anchor) -> int {
    match a {
        Anchor::TopLeft | Anchor::Top | Anchor::TopRight => 0,
        Anchor::Left | Anchor::Center | Anchor::Right => 1,
        _ => 2,
    }
}

/// How far the old content moves along an axis of length `old` that becomes
/// `new`; the middle placement rounds toward the start.
pub open spec fn axis_offset(place: int, old: int, new: int) -> int {
    if place == 0 {
        0
    } else if place == 1 {
        if new >= old {
            (new - old) / 2
        } else {
            -((old - new) / 2)
        }
    } else {
        new - old
    }
}

/// The color of new cell `(x, y)`: the old cell it came from, or transparent
/// where none did.
pub open spec fn remap_cell(old: Seq<Color>, ow: int, oh: int, x: int, y: int, dx: int, dy: int) -> Color {
    let sx = x - dx;
    let sy = y - dy;
    if 0 <= sx < ow && 0 <= sy < oh {
        old[cell_index(ow, sx, sy)]
    } else {
        transparent()
    }
}

pub open spec fn is_remap(
    old: Seq<Color>,
    ow: int,
    oh: int,
    new: Seq<Color>,
    nw: int,
    nh: int,
    dx: int,
    dy: int,
) -> bool {
    &&& new.len() == nw * nh
    &&& forall|x: int, y: int|
        0 <= x < nw && 0 <= y < nh ==> new[#[trigger] cell_index(nw, x, y)] == remap_cell(
            old,
            ow,
            oh,
            x,
            y,
            dx,
            dy,
        )
}

/// `r` is layer `l` moved onto a `nw` by `nh` canvas at offset `(dx, dy)`,
/// every other attribute kept.
pub open spec fn resized_layer(l: LayerModel, r: LayerModel, nw: usize, nh: usize, dx: int, dy: int) -> bool {
    &&& r == LayerModel { width: nw, height: nh, cells: r.cells, ..l }
    &&& is_remap(l.cells, l.width as int, l.height as int, r.cells, nw as int, nh as int, dx, dy)
}

pub open spec fn resized_frames(
    fs: Seq<Seq<LayerModel>>,
    rs: Seq<Seq<LayerModel>>,
    nw: usize,
    nh: usize,
    dx: int,
    dy: int,
) -> bool {
    &&& rs.len() == fs.len()
    &&& forall|i: int|
        0 <= i < fs.len() ==> (#[trigger] rs[i]).len() == fs[i].len() && forall|j: int|
            0 <= j < fs[i].len() ==> #[trigger] resized_layer(fs[i][j], rs[i][j], nw, nh, dx, dy)
}

/// Cells added before and removed before the old content along one axis.
fn axis_shift(place: u8, old: usize, new: usize) -> (r: (usize, usize))
    requires
        place <= 2,
    ensures
        r.0 - r.1 == axis_offset(place as int, old as int, new as int),
        r.1 <= old,
        r.0 == 0 || r.1 == 0,
{
    if place == 0 {
        (0, 0)
    } else if place == 1 {
        if new >= old {
            ((new - old) / 2, 0)
        } else {
            (0, (old - new) / 2)
        }
    } else {
        if new >= old {
            (new - old, 0)
        } else {
            (0, old - new)
        }
    }
}

fn horizontal(a: Anchor) -> (r: u8)
    ensures
        r as int == horizontal_place(a),
{
    match a {
        Anchor::TopLeft | Anchor::Left | Anchor::BottomLeft => 0,
        Anchor::Top | Anchor::Center | Anchor::Bottom => 1,
        _ => 2,
    }
}

fn vertical(a: Anchor) -> (r: u8)
    ensures
        r as int == vertical_place(a),
{
    match a {
        Anchor::TopLeft | Anchor::Top | Anchor::TopRight => 0,
        Anchor::Left | Anchor::Center | Anchor::Right => 1,
        _ => 2,
    }
}

/// Source coordinate of new coordinate `x` along an axis, if any.
fn source(x: usize, pad: usize, crop: usize, old: usize) -> (r: Option<usize>)
    requires
        crop <= old,
        pad == 0 || crop == 0,
    ensures
        r is Some <==> 0 <= x - (pad - crop) < old,
        r is Some ==> r->Some_0 == x - (pad - crop),
{
    if x < pad {
        None
    } else if x - pad < old - crop {
        Some(x - pad + crop)
    } else {
        None
    }
}

/// The cells of a `ow` by `oh` grid moved onto a `nw` by `nh` grid.
pub fn remap_cells(
    old: &Vec<Color>,
    ow: usize,
    oh: usize,
    nw: usize,
    nh: usize,
    pad_x: usize,
    crop_x: usize,
    pad_y: usize,
    crop_y: usize,
) -> (r: Vec<Color>)
    requires
        old@.len() == ow * oh,
        nw * nh <= usize::MAX,
        crop_x <= ow,
        crop_y <= oh,
        pad_x == 0 || crop_x == 0,
        pad_y == 0 || crop_y == 0,
    ensures
        is_remap(old@, ow as int, oh as int, r@, nw as int, nh as int, pad_x - crop_x, pad_y - crop_y),
{
    let ghost dx = pad_x - crop_x;
    let ghost dy = pad_y - crop_y;
    let mut r: Vec<Color> = Vec::new();
    let mut y: usize = 0;
    while y < nh
        invariant
            old@.len() == ow * oh,
            nw * nh <= usize::MAX,
            crop_x <= ow,
            crop_y <= oh,
            pad_x == 0 || crop_x == 0,
            pad_y == 0 || crop_y == 0,
            dx == pad_x - crop_x,
            dy == pad_y - crop_y,
            y <= nh,
            r@.len() == y * nw,
            forall|xx: int, yy: int|
                0 <= xx < nw && 0 <= yy < y ==> r@[#[trigger] cell_index(nw as int, xx, yy)]
                    == remap_cell(old@, ow as int, oh as int, xx, yy, dx, dy),
        decreases nh - y,
    {
        let mut x: usize = 0;
        proof {
            assert(y * nw + nw <= nw * nh) by (nonlinear_arith)
                requires
                    y < nh,
                    0 <= nw,
            ;
        }
        while x < nw
            invariant
                old@.len() == ow * oh,
                nw * nh <= usize::MAX,
                y * nw + nw <= nw * nh,
                crop_x <= ow,
                crop_y <= oh,
                pad_x == 0 || crop_x == 0,
                pad_y == 0 || crop_y == 0,
                dx == pad_x - crop_x,
                dy == pad_y - crop_y,
                y < nh,
                x <= nw,
                r@.len() == y * nw + x,
                forall|xx: int, yy: int|
                    0 <= xx < nw && 0 <= yy < y ==> r@[#[trigger] cell_index(nw as int, xx, yy)]
                        == remap_cell(old@, ow as int, oh as int, xx, yy, dx, dy),
                forall|xx: int|
                    0 <= xx < x ==> r@[#[trigger] cell_index(nw as int, xx, y as int)] == remap_cell(
                        old@,
                        ow as int,
                        oh as int,
                        xx,
                        y as int,
                        dx,
                        dy,
                    ),
            decreases nw - x,
        {
            let c = match (source(x, pad_x, crop_x, ow), source(y, pad_y, crop_y, oh)) {
                (Some(sx), Some(sy)) => {
                    proof {
                        lemma_cell_index_bounds(ow as int, oh as int, sx as int, sy as int);
                        assert(old@.len() == old.len());
                    }
                    old[sy * ow + sx]
                },
                _ => Color::clear(),
            };
            let ghost prev = r@;
            r.push(c);
            proof {
                assert forall|xx: int, yy: int| 0 <= xx < nw && 0 <= yy < y implies r@[#[trigger] cell_index(
                    nw as int,
                    xx,
                    yy,
                )] == remap_cell(old@, ow as int, oh as int, xx, yy, dx, dy) by {
                    lemma_cell_index_bounds(nw as int, y as int, xx, yy);
                    assert(nw * y == y * nw) by (nonlinear_arith);
                    assert(r@[cell_index(nw as int, xx, yy)] == prev[cell_index(nw as int, xx, yy)]);
                }
                assert forall|xx: int| 0 <= xx < x + 1 implies r@[#[trigger] cell_index(
                    nw as int,
                    xx,
                    y as int,
                )] == remap_cell(old@, ow as int, oh as int, xx, y as int, dx, dy) by {
                    if xx < x {
                        assert(r@[cell_index(nw as int, xx, y as int)] == prev[cell_index(
                            nw as int,
                            xx,
                            y as int,
                        )]);
                    }
                }
            }
            x = x + 1;
        }
        proof {
            assert((y + 1) * nw == y * nw + nw) by (nonlinear_arith);
        }
        y = y + 1;
    }
    proof {
        assert(nh * nw == nw * nh) by (nonlinear_arith);
    }
    r
}

fn resize_layer(
    l: &Layer,
    nw: usize,
    nh: usize,
    pad_x: usize,
    crop_x: usize,
    pad_y: usize,
    crop_y: usize,
) -> (r: Layer)
    requires
        l@.cells.len() == l@.width * l@.height,
        nw * nh <= usize::MAX,
        crop_x <= l@.width,
        crop_y <= l@.height,
        pad_x == 0 || crop_x == 0,
        pad_y == 0 || crop_y == 0,
    ensures
        resized_layer(l@, r@, nw, nh, pad_x - crop_x, pad_y - crop_y),
{
    let cells = remap_cells(
        &l.pixels.cells,
        l.pixels.width,
        l.pixels.height,
        nw,
        nh,
        pad_x,
        crop_x,
        pad_y,
        crop_y,
    );
    Layer {
        name: l.name.clone(),
        visible: l.visible,
        opacity: l.opacity,
        blend_mode: l.blend_mode,
        pixels: PixelBuffer { width: nw, height: nh, cells },
    }
}

fn resize_frame(
    f: &Frame,
    ow: usize,
    oh: usize,
    nw: usize,
    nh: usize,
    pad_x: usize,
    crop_x: usize,
    pad_y: usize,
    crop_y: usize,
) -> (r: Frame)
    requires
        frame_fits(f@, ow, oh),
        nw * nh <= usize::MAX,
        crop_x <= ow,
        crop_y <= oh,
        pad_x == 0 || crop_x == 0,
        pad_y == 0 || crop_y == 0,
    ensures
        r@.len() == f@.len(),
        forall|j: int|
            0 <= j < f@.len() ==> #[trigger] resized_layer(
                f@[j],
                r@[j],
                nw,
                nh,
                pad_x - crop_x,
                pad_y - crop_y,
            ),
{
    let mut layers: Vec<Layer> = Vec::new();
    let mut j: usize = 0;
    while j < f.layers.len()
        invariant
            frame_fits(f@, ow, oh),
            nw * nh <= usize::MAX,
            crop_x <= ow,
            crop_y <= oh,
            pad_x == 0 || crop_x == 0,
            pad_y == 0 || crop_y == 0,
            j <= f@.len(),
            layers_view(layers@).len() == j,
            forall|k: int|
                0 <= k < j ==> #[trigger] resized_layer(
                    f@[k],
                    layers_view(layers@)[k],
                    nw,
                    nh,
                    pad_x - crop_x,
                    pad_y - crop_y,
                ),
        decreases f@.len() - j,
    {
        assert(layer_fits(f@[j as int], ow, oh));
        let l = resize_layer(&f.layers[j], nw, nh, pad_x, crop_x, pad_y, crop_y);
        let ghost prev = layers@;
        let ghost lv = l@;
        layers.push(l);
        proof {
            assert(layers_view(prev).len() == j);
            assert(layers@.len() == j + 1);
            assert forall|k: int| 0 <= k < j + 1 implies #[trigger] resized_layer(
                f@[k],
                layers_view(layers@)[k],
                nw,
                nh,
                pad_x - crop_x,
                pad_y - crop_y,
            ) by {
                if k < j {
                    assert(layers@[k] == prev[k]);
                    assert(layers_view(layers@)[k] == layers_view(prev)[k]);
                } else {
                    assert(layers_view(layers@)[k] == lv);
                }
            }
        }
        j = j + 1;
    }
    Frame { layers }
}

/// `c` resizes the canvas of `d` to `nw` by `nh`, placing the old content
/// by `anchor` and filling new area with transparent cells.
pub open spec fn is_resize_of(d: DocModel, nw: usize, nh: usize, anchor: Anchor, c: EditCommand) -> bool {
    match c {
        EditCommand::Resize {
            before_width,
            before_height,
            before,
            after_width,
            after_height,
            after,
        } => {
            &&& before_width == d.width
            &&& before_height == d.height
            &&& frames_view(before@) == d.frames
            &&& after_width == nw
            &&& after_height == nh
            &&& resized_frames(
                d.frames,
                frames_view(after@),
                nw,
                nh,
                axis_offset(horizontal_place(anchor), d.width as int, nw as int),
                axis_offset(vertical_place(anchor), d.height as int, nh as int),
            )
        },
        _ => false,
    }
}

/// The command that resizes the canvas of `doc` to `new_width` by
/// `new_height` around `anchor`. It applies to `doc` as it stands.
pub fn resize_canvas(doc: &Document, new_width: usize, new_height: usize, anchor: Anchor) -> (c:
    EditCommand)
    requires
        doc.wf(),
        new_width * new_height <= usize::MAX,
    ensures
        is_resize_of(doc@, new_width, new_height, anchor, c),
        apply_spec(doc@, c) is Ok,
{
    let ghost d = doc@;
    let ow = doc.width();
    let oh = doc.height();
    let (pad_x, crop_x) = axis_shift(horizontal(anchor), ow, new_width);
    let (pad_y, crop_y) = axis_shift(vertical(anchor), oh, new_height);
    let frames = doc.frames();
    let mut after: Vec<Frame> = Vec::new();
    let mut i: usize = 0;
    while i < frames.len()
        invariant
            d.wf(),
            frames_view(frames@) == d.frames,
            ow == d.width,
            oh == d.height,
            new_width * new_height <= usize::MAX,
            crop_x <= ow,
            crop_y <= oh,
            pad_x == 0 || crop_x == 0,
            pad_y == 0 || crop_y == 0,
            i <= frames@.len(),
            frames_view(after@).len() == i,
            forall|k: int|
                0 <= k < i ==> (#[trigger] frames_view(after@)[k]).len() == d.frames[k].len()
                    && forall|j: int|
                    0 <= j < d.frames[k].len() ==> #[trigger] resized_layer(
                        d.frames[k][j],
                        frames_view(after@)[k][j],
                        new_width,
                        new_height,
                        pad_x - crop_x,
                        pad_y - crop_y,
                    ),
        decreases frames@.len() - i,
    {
        assert(frame_fits(d.frames[i as int], ow, oh));
        let f = resize_frame(&frames[i], ow, oh, new_width, new_height, pad_x, crop_x, pad_y, crop_y);
        let ghost prev = after@;
        let ghost fv = f@;
        after.push(f);
        proof {
            assert(frames_view(prev).len() == i);
            assert(after@.len() == i + 1);
            assert forall|k: int| 0 <= k < i + 1 implies (#[trigger] frames_view(after@)[k]).len()
                == d.frames[k].len() && forall|j: int|
                0 <= j < d.frames[k].len() ==> #[trigger] resized_layer(
                    d.frames[k][j],
                    frames_view(after@)[k][j],
                    new_width,
                    new_height,
                    pad_x - crop_x,
                    pad_y - crop_y,
                ) by {
                if k < i {
                    assert(after@[k] == prev[k]);
                    assert(frames_view(after@)[k] == frames_view(prev)[k]);
                } else {
                    assert(frames_view(after@)[k] == fv);
                }
            }
        }
        i = i + 1;
    }
    let before = crate::document::duplicate_frames(frames);
    let c = EditCommand::Resize {
        before_width: ow,
        before_height: oh,
        before,
        after_width: new_width,
        after_height: new_height,
        after,
    };
    proof {
        let rs = frames_view(after@);
        assert forall|k: int| 0 <= k < rs.len() implies #[trigger] frame_fits(
            rs[k],
            new_width,
            new_height,
        ) by {
            assert(frame_fits(d.frames[k], ow, oh));
            assert forall|j: int| 0 <= j < rs[k].len() implies #[trigger] layer_fits(
                rs[k][j],
                new_width,
                new_height,
            ) by {
                assert(layer_fits(d.frames[k][j], ow, oh));
                assert(resized_layer(
                    d.frames[k][j],
                    rs[k][j],
                    new_width,
                    new_height,
                    pad_x - crop_x,
                    pad_y - crop_y,
                ));
            }
        }
        assert(rs[d.cursor.frame as int].len() == d.frames[d.cursor.frame as int].len());
    }
    c
}

} // verus!
