//! Layers, frames, the document, and the reversible commands that edit it.

use vstd::prelude::*;
use crate::pixel::{Color, EditorError, PixelBuffer, cells_equal, copy_cells, transparent};

verus! {

/// How a layer's colors combine with what lies beneath it.
#[derive(Clone, Copy, Debug, PartialEq, Eq, Structural)]
pub enum BlendMode {
    Normal,
    Multiply,
    Screen,
    Add,
}

/// Highest opacity of a layer, in percent.
pub const MAX_OPACITY: u8 = 100;

/// The mathematical value of a layer.
pub struct LayerModel {
    pub name: Seq<char>,
    pub visible: bool,
    pub opacity: u8,
    pub blend_mode: BlendMode,
    pub width: usize,
    pub height: usize,
    pub cells: Seq<Color>,
}

/// One paintable raster plane with its display attributes. Opacity is a
/// percentage; values above 100 are drawn as 100.
#[derive(Debug)]
pub struct Layer {
    pub name: String,
    pub visible: bool,
    pub opacity: u8,
    pub blend_mode: BlendMode,
    pub pixels: PixelBuffer,
}

impl View for Layer {
    type V = LayerModel;

    open spec fn view(&self) -> LayerModel {
        LayerModel {
            name: self.name@,
            visible: self.visible,
            opacity: self.opacity,
            blend_mode: self.blend_mode,
            width: self.pixels.width,
            height: self.pixels.height,
            cells: self.pixels.cells@,
        }
    }
}

/// A layer of a `w` by `h` canvas.
pub open spec fn layer_fits(l: LayerModel, w: usize, h: usize) -> bool {
    &&& l.width == w
    &&& l.height == h
    &&& l.cells.len() == w * h
}

/// The opacity a layer is drawn with: stored values above 100 percent count
/// as 100.
pub open spec fn clamp_opacity(o: u8) -> u8 {
    if o > MAX_OPACITY {
        MAX_OPACITY
    } else {
        o
    }
}

/// A frame is a non-empty stack of layers, back to front.
pub open spec fn frame_fits(f: Seq<LayerModel>, w: usize, h: usize) -> bool {
    &&& f.len() >= 1
    &&& forall|i: int| 0 <= i < f.len() ==> #[trigger] layer_fits(f[i], w, h)
}

/// A non-empty sequence of frames, all of one canvas size.
pub open spec fn frames_fit(fs: Seq<Seq<LayerModel>>, w: usize, h: usize) -> bool {
    &&& fs.len() >= 1
    &&& forall|i: int| 0 <= i < fs.len() ==> #[trigger] frame_fits(fs[i], w, h)
}

/// One step of an animation: an ordered stack of layers, back to front.
#[derive(Debug)]
pub struct Frame {
    pub layers: Vec<Layer>,
}

impl View for Frame {
    type V = Seq<LayerModel>;

    open spec fn view(&self) -> Seq<LayerModel> {
        layers_view(self.layers@)
    }
}

pub open spec fn layers_view(ls: Seq<Layer>) -> Seq<LayerModel> {
    ls.map_values(|l: Layer| l@)
}

pub open spec fn frames_view(fs: Seq<Frame>) -> Seq<Seq<LayerModel>> {
    fs.map_values(|f: Frame| f@)
}

/// The current frame and layer.
#[derive(Clone, Copy, Debug, PartialEq, Eq, Structural)]
pub struct Cursor {
    pub frame: usize,
    pub layer: usize,
}

pub open spec fn cursor_ok(fs: Seq<Seq<LayerModel>>, c: Cursor) -> bool {
    c.frame < fs.len() && c.layer < fs[c.frame as int].len()
}

/// The mathematical value of a document.
pub struct DocModel {
    pub width: usize,
    pub height: usize,
    pub frames: Seq<Seq<LayerModel>>,
    pub cursor: Cursor,
    pub palette: Seq<Color>,
}

impl DocModel {
    /// At least one frame, every layer of the canvas size, the cursor in
    /// bounds, and no color twice in the palette.
    pub open spec fn wf(self) -> bool {
        &&& frames_fit(self.frames, self.width, self.height)
        &&& cursor_ok(self.frames, self.cursor)
        &&& self.palette.no_duplicates()
    }
}

/// A reversible mutation of a document. Each variant carries what it needs
/// both to be applied and to be undone.
#[derive(Debug)]
pub enum EditCommand {
    /// Replaces the cells of one layer (a stroke, a fill, an erase).
    Paint { frame: usize, layer: usize, before: Vec<Color>, after: Vec<Color> },
    /// Replaces the canvas size and every layer of every frame.
    Resize {
        before_width: usize,
        before_height: usize,
        before: Vec<Frame>,
        after_width: usize,
        after_height: usize,
        after: Vec<Frame>,
    },
    /// Inserts a layer into one frame.
    AddLayer { frame: usize, index: usize, layer: Layer, cursor_before: Cursor, cursor_after: Cursor },
    /// Removes a layer from one frame.
    RemoveLayer {
        frame: usize,
        index: usize,
        layer: Layer,
        cursor_before: Cursor,
        cursor_after: Cursor,
    },
    /// Inserts a frame.
    AddFrame { index: usize, frame: Frame, cursor_before: Cursor, cursor_after: Cursor },
    /// Removes a frame.
    RemoveFrame { index: usize, frame: Frame, cursor_before: Cursor, cursor_after: Cursor },
    /// Inserts a color into the palette.
    AddColor { index: usize, color: Color },
    /// Removes a color from the palette.
    RemoveColor { index: usize, color: Color },
}

/// The command that undoes `c`.
pub open spec fn inverse_of(c: EditCommand) -> EditCommand {
    match c {
        EditCommand::Paint { frame, layer, before, after } => EditCommand::Paint {
            frame,
            layer,
            before: after,
            after: before,
        },
        EditCommand::Resize {
            before_width,
            before_height,
            before,
            after_width,
            after_height,
            after,
        } => EditCommand::Resize {
            before_width: after_width,
            before_height: after_height,
            before: after,
            after_width: before_width,
            after_height: before_height,
            after: before,
        },
        EditCommand::AddLayer { frame, index, layer, cursor_before, cursor_after } =>
            EditCommand::RemoveLayer {
            frame,
            index,
            layer,
            cursor_before: cursor_after,
            cursor_after: cursor_before,
        },
        EditCommand::RemoveLayer { frame, index, layer, cursor_before, cursor_after } =>
            EditCommand::AddLayer {
            frame,
            index,
            layer,
            cursor_before: cursor_after,
            cursor_after: cursor_before,
        },
        EditCommand::AddFrame { index, frame, cursor_before, cursor_after } =>
            EditCommand::RemoveFrame {
            index,
            frame,
            cursor_before: cursor_after,
            cursor_after: cursor_before,
        },
        EditCommand::RemoveFrame { index, frame, cursor_before, cursor_after } =>
            EditCommand::AddFrame {
            index,
            frame,
            cursor_before: cursor_after,
            cursor_after: cursor_before,
        },
        EditCommand::AddColor { index, color } => EditCommand::RemoveColor { index, color },
        EditCommand::RemoveColor { index, color } => EditCommand::AddColor { index, color },
    }
}

/// `d` with the cells of layer `l` of frame `f` replaced.
pub open spec fn with_cells(d: DocModel, f: int, l: int, cells: Seq<Color>) -> DocModel {
    DocModel {
        frames: d.frames.update(
            f,
            d.frames[f].update(l, LayerModel { cells, ..d.frames[f][l] }),
        ),
        ..d
    }
}

/// The result of applying `c` to `d`: the new document, or the error that
/// validation finds before anything is written.
pub open spec fn apply_spec(d: DocModel, c: EditCommand) -> Result<DocModel, EditorError> {
    let n = d.width * d.height;
    match c {
        EditCommand::Paint { frame, layer, before, after } => {
            if frame >= d.frames.len() || layer >= d.frames[frame as int].len() {
                Err(EditorError::InvalidTarget)
            } else if before@.len() != n || after@.len() != n {
                Err(EditorError::DimensionMismatch)
            } else if d.frames[frame as int][layer as int].cells != before@ {
                Err(EditorError::InvalidTarget)
            } else {
                Ok(with_cells(d, frame as int, layer as int, after@))
            }
        },
        EditCommand::Resize {
            before_width,
            before_height,
            before,
            after_width,
            after_height,
            after,
        } => {
            if before_width != d.width || before_height != d.height || frames_view(before@)
                != d.frames {
                Err(EditorError::InvalidTarget)
            } else if !frames_fit(frames_view(after@), after_width, after_height) || !cursor_ok(
                frames_view(after@),
                d.cursor,
            ) {
                Err(EditorError::DimensionMismatch)
            } else {
                Ok(
                    DocModel {
                        width: after_width,
                        height: after_height,
                        frames: frames_view(after@),
                        ..d
                    },
                )
            }
        },
        EditCommand::AddLayer { frame, index, layer, cursor_before, cursor_after } => {
            if frame >= d.frames.len() || index > d.frames[frame as int].len() || cursor_before
                != d.cursor {
                Err(EditorError::InvalidTarget)
            } else if !layer_fits(layer@, d.width, d.height) {
                Err(EditorError::DimensionMismatch)
            } else {
                let fs = d.frames.update(
                    frame as int,
                    d.frames[frame as int].insert(index as int, layer@),
                );
                if !cursor_ok(fs, cursor_after) {
                    Err(EditorError::InvalidTarget)
                } else {
                    Ok(DocModel { frames: fs, cursor: cursor_after, ..d })
                }
            }
        },
        EditCommand::RemoveLayer { frame, index, layer, cursor_before, cursor_after } => {
            if frame >= d.frames.len() || index >= d.frames[frame as int].len() || d.frames[frame
                as int].len() <= 1 || d.frames[frame as int][index as int] != layer@
                || cursor_before != d.cursor {
                Err(EditorError::InvalidTarget)
            } else {
                let fs = d.frames.update(
                    frame as int,
                    d.frames[frame as int].remove(index as int),
                );
                if !cursor_ok(fs, cursor_after) {
                    Err(EditorError::InvalidTarget)
                } else {
                    Ok(DocModel { frames: fs, cursor: cursor_after, ..d })
                }
            }
        },
        EditCommand::AddFrame { index, frame, cursor_before, cursor_after } => {
            if index > d.frames.len() || cursor_before != d.cursor {
                Err(EditorError::InvalidTarget)
            } else if !frame_fits(frame@, d.width, d.height) {
                Err(EditorError::DimensionMismatch)
            } else {
                let fs = d.frames.insert(index as int, frame@);
                if !cursor_ok(fs, cursor_after) {
                    Err(EditorError::InvalidTarget)
                } else {
                    Ok(DocModel { frames: fs, cursor: cursor_after, ..d })
                }
            }
        },
        EditCommand::RemoveFrame { index, frame, cursor_before, cursor_after } => {
            if index >= d.frames.len() || d.frames.len() <= 1 || d.frames[index as int] != frame@
                || cursor_before != d.cursor {
                Err(EditorError::InvalidTarget)
            } else {
                let fs = d.frames.remove(index as int);
                if !cursor_ok(fs, cursor_after) {
                    Err(EditorError::InvalidTarget)
                } else {
                    Ok(DocModel { frames: fs, cursor: cursor_after, ..d })
                }
            }
        },
        EditCommand::AddColor { index, color } => {
            if index > d.palette.len() || d.palette.contains(color) {
                Err(EditorError::InvalidTarget)
            } else {
                Ok(DocModel { palette: d.palette.insert(index as int, color), ..d })
            }
        },
        EditCommand::RemoveColor { index, color } => {
            if index >= d.palette.len() || d.palette[index as int] != color {
                Err(EditorError::InvalidTarget)
            } else {
                Ok(DocModel { palette: d.palette.remove(index as int), ..d })
            }
        },
    }
}

/// Applying a command keeps a well-formed document well-formed.
pub proof fn lemma_apply_wf(d: DocModel, c: EditCommand)
    requires
        d.wf(),
        apply_spec(d, c) is Ok,
    ensures
        apply_spec(d, c)->Ok_0.wf(),
{
    let r = apply_spec(d, c)->Ok_0;
    match c {
        EditCommand::Paint { frame, layer, before, after } => {
            let f = frame as int;
            assert forall|i: int| 0 <= i < r.frames.len() implies #[trigger] frame_fits(
                r.frames[i],
                r.width,
                r.height,
            ) by {
                if i == f {
                    assert(frame_fits(d.frames[i], d.width, d.height));
                    assert forall|j: int| 0 <= j < r.frames[i].len() implies #[trigger] layer_fits(
                        r.frames[i][j],
                        r.width,
                        r.height,
                    ) by {
                        assert(layer_fits(d.frames[i][j], d.width, d.height));
                    }
                }
            }
        },
        EditCommand::Resize { .. } => {},
        EditCommand::AddLayer { frame, index, layer, cursor_before, cursor_after } => {
            let f = frame as int;
            assert forall|i: int| 0 <= i < r.frames.len() implies #[trigger] frame_fits(
                r.frames[i],
                r.width,
                r.height,
            ) by {
                if i == f {
                    assert(frame_fits(d.frames[i], d.width, d.height));
                    assert forall|j: int| 0 <= j < r.frames[i].len() implies #[trigger] layer_fits(
                        r.frames[i][j],
                        r.width,
                        r.height,
                    ) by {
                        if j < index {
                            assert(layer_fits(d.frames[i][j], d.width, d.height));
                        } else if j > index {
                            assert(layer_fits(d.frames[i][j - 1], d.width, d.height));
                        }
                    }
                }
            }
        },
        EditCommand::RemoveLayer { frame, index, layer, cursor_before, cursor_after } => {
            let f = frame as int;
            assert forall|i: int| 0 <= i < r.frames.len() implies #[trigger] frame_fits(
                r.frames[i],
                r.width,
                r.height,
            ) by {
                if i == f {
                    assert(frame_fits(d.frames[i], d.width, d.height));
                    assert forall|j: int| 0 <= j < r.frames[i].len() implies #[trigger] layer_fits(
                        r.frames[i][j],
                        r.width,
                        r.height,
                    ) by {
                        if j < index {
                            assert(layer_fits(d.frames[i][j], d.width, d.height));
                        } else {
                            assert(layer_fits(d.frames[i][j + 1], d.width, d.height));
                        }
                    }
                }
            }
        },
        EditCommand::AddFrame { index, frame, cursor_before, cursor_after } => {
            assert forall|i: int| 0 <= i < r.frames.len() implies #[trigger] frame_fits(
                r.frames[i],
                r.width,
                r.height,
            ) by {
                if i < index {
                    assert(frame_fits(d.frames[i], d.width, d.height));
                } else if i > index {
                    assert(frame_fits(d.frames[i - 1], d.width, d.height));
                }
            }
        },
        EditCommand::RemoveFrame { index, frame, cursor_before, cursor_after } => {
            assert forall|i: int| 0 <= i < r.frames.len() implies #[trigger] frame_fits(
                r.frames[i],
                r.width,
                r.height,
            ) by {
                if i < index {
                    assert(frame_fits(d.frames[i], d.width, d.height));
                } else {
                    assert(frame_fits(d.frames[i + 1], d.width, d.height));
                }
            }
        },
        EditCommand::AddColor { index, color } => {
            let p = d.palette;
            let q = r.palette;
            assert forall|i: int, j: int| 0 <= i < q.len() && 0 <= j < q.len() && i != j implies q[i]
                != q[j] by {
                if i == index {
                    assert(q[j] == p[if j < index { j } else { j - 1 }]);
                } else if j == index {
                    assert(q[i] == p[if i < index { i } else { i - 1 }]);
                }
            }
        },
        EditCommand::RemoveColor { index, color } => {
            let p = d.palette;
            let q = r.palette;
            assert forall|i: int, j: int| 0 <= i < q.len() && 0 <= j < q.len() && i != j implies q[i]
                != q[j] by {
                assert(q[i] == p[if i < index { i } else { i + 1 }]);
                assert(q[j] == p[if j < index { j } else { j + 1 }]);
            }
        },
    }
}

/// Undoing a command that applied restores the document exactly: for every
/// command `c` and well-formed document `d` on which `c` succeeds, applying
/// the inverse of `c` to the result succeeds and gives back `d`.
pub proof fn lemma_apply_then_inverse(d: DocModel, c: EditCommand)
    requires
        d.wf(),
        apply_spec(d, c) is Ok,
    ensures
        apply_spec(apply_spec(d, c)->Ok_0, inverse_of(c)) == Ok::<DocModel, EditorError>(d),
{
    lemma_apply_wf(d, c);
    let r = apply_spec(d, c)->Ok_0;
    match c {
        EditCommand::Paint { frame, layer, before, after } => {
            let f = frame as int;
            let l = layer as int;
            assert(r.frames[f][l].cells == after@);
            let ic = inverse_of(c);
            assert(ic == (EditCommand::Paint { frame, layer, before: after, after: before }));
            assert(apply_spec(r, ic) == Ok::<DocModel, EditorError>(with_cells(r, f, l, before@)));
            assert(r.frames[f].update(l, LayerModel { cells: before@, ..r.frames[f][l] })
                =~= d.frames[f]);
            assert(r.frames.update(
                f,
                r.frames[f].update(l, LayerModel { cells: before@, ..r.frames[f][l] }),
            ) =~= d.frames);
            assert(with_cells(r, f, l, before@) == d);
        },
        EditCommand::Resize { .. } => {
            assert(apply_spec(r, inverse_of(c)) == Ok::<DocModel, EditorError>(d));
        },
        EditCommand::AddLayer { frame, index, layer, cursor_before, cursor_after } => {
            let f = frame as int;
            assert(frame_fits(d.frames[f], d.width, d.height));
            assert(r.frames[f][index as int] == layer@);
            assert(r.frames[f].remove(index as int) =~= d.frames[f]);
            assert(r.frames.update(f, r.frames[f].remove(index as int)) =~= d.frames);
            assert(apply_spec(r, inverse_of(c)) == Ok::<DocModel, EditorError>(d));
        },
        EditCommand::RemoveLayer { frame, index, layer, cursor_before, cursor_after } => {
            let f = frame as int;
            assert(frame_fits(d.frames[f], d.width, d.height));
            assert(layer_fits(d.frames[f][index as int], d.width, d.height));
            assert(r.frames[f].insert(index as int, layer@) =~= d.frames[f]);
            assert(r.frames.update(f, r.frames[f].insert(index as int, layer@)) =~= d.frames);
            assert(apply_spec(r, inverse_of(c)) == Ok::<DocModel, EditorError>(d));
        },
        EditCommand::AddFrame { index, frame, cursor_before, cursor_after } => {
            assert(r.frames[index as int] == frame@);
            assert(r.frames.remove(index as int) =~= d.frames);
            assert(apply_spec(r, inverse_of(c)) == Ok::<DocModel, EditorError>(d));
        },
        EditCommand::RemoveFrame { index, frame, cursor_before, cursor_after } => {
            assert(frame_fits(d.frames[index as int], d.width, d.height));
            assert(r.frames.insert(index as int, frame@) =~= d.frames);
            assert(apply_spec(r, inverse_of(c)) == Ok::<DocModel, EditorError>(d));
        },
        EditCommand::AddColor { index, color } => {
            assert(r.palette[index as int] == color);
            assert(r.palette.remove(index as int) =~= d.palette);
            assert(apply_spec(r, inverse_of(c)) == Ok::<DocModel, EditorError>(d));
        },
        EditCommand::RemoveColor { index, color } => {
            assert(!r.palette.contains(color)) by {
                if r.palette.contains(color) {
                    let k = choose|k: int| 0 <= k < r.palette.len() && r.palette[k] == color;
                    assert(r.palette[k] == d.palette[if k < index { k } else { k + 1 }]);
                }
            }
            assert(r.palette.insert(index as int, color) =~= d.palette);
        },
    }
}

/// Inverting twice gives the command back.
pub proof fn lemma_inverse_involutive(c: EditCommand)
    ensures
        inverse_of(inverse_of(c)) == c,
{
}

/// Whether `w * h` cells fit in memory, and how many they are.
fn checked_area(w: usize, h: usize) -> (r: Option<usize>)
    ensures
        r is Some <==> w * h <= usize::MAX,
        r is Some ==> r->Some_0 == w * h,
{
    w.checked_mul(h)
}

impl Layer {
    /// A visible, fully opaque layer of normal blending, every cell
    /// transparent.
    pub fn new(name: String, width: usize, height: usize) -> (l: Layer)
        requires
            width * height <= usize::MAX,
        ensures
            l@ == (LayerModel {
                name: name@,
                visible: true,
                opacity: MAX_OPACITY,
                blend_mode: BlendMode::Normal,
                width,
                height,
                cells: Seq::new((width * height) as nat, |i: int| transparent()),
            }),
    {
        Layer {
            name,
            visible: true,
            opacity: MAX_OPACITY,
            blend_mode: BlendMode::Normal,
            pixels: PixelBuffer::new(width, height),
        }
    }

    /// Sets the opacity, clamping values above 100 percent to 100.
    pub fn set_opacity(&mut self, percent: u32)
        ensures
            final(self)@ == (LayerModel {
                opacity: if percent > MAX_OPACITY as u32 {
                    MAX_OPACITY
                } else {
                    percent as u8
                },
                ..old(self)@
            }),
    {
        if percent > MAX_OPACITY as u32 {
            self.opacity = MAX_OPACITY;
        } else {
            self.opacity = percent as u8;
        }
    }

    /// The opacity this layer is drawn with.
    pub fn effective_opacity(&self) -> (r: u8)
        ensures
            r == clamp_opacity(self.opacity),
    {
        if self.opacity > MAX_OPACITY {
            MAX_OPACITY
        } else {
            self.opacity
        }
    }

    /// A copy of this layer.
    pub fn duplicate(&self) -> (r: Layer)
        ensures
            r@ == self@,
    {
        Layer {
            name: self.name.clone(),
            visible: self.visible,
            opacity: self.opacity,
            blend_mode: self.blend_mode,
            pixels: PixelBuffer {
                width: self.pixels.width,
                height: self.pixels.height,
                cells: copy_cells(&self.pixels.cells),
            },
        }
    }

    /// Whether two layers are equal in every attribute and cell.
    pub fn same_as(&self, o: &Layer) -> (r: bool)
        ensures
            r == (self@ == o@),
    {
        self.name == o.name && self.visible == o.visible && self.opacity == o.opacity
            && self.blend_mode == o.blend_mode && self.pixels.width == o.pixels.width
            && self.pixels.height == o.pixels.height && cells_equal(
            &self.pixels.cells,
            &o.pixels.cells,
        )
    }

    /// Whether this layer belongs on a `w` by `h` canvas.
    pub fn fits(&self, w: usize, h: usize) -> (r: bool)
        ensures
            r == layer_fits(self@, w, h),
    {
        if self.pixels.width != w || self.pixels.height != h {
            return false;
        }
        match checked_area(w, h) {
            Some(n) => self.pixels.cells.len() == n,
            None => {
                assert(self.pixels.cells@.len() == self.pixels.cells.len());
                false
            },
        }
    }
}

impl Frame {
    /// A frame holding the one layer given.
    pub fn new(layer: Layer) -> (f: Frame)
        ensures
            f@ == seq![layer@],
    {
        let mut layers: Vec<Layer> = Vec::new();
        layers.push(layer);
        let f = Frame { layers };
        assert(f@ =~= seq![layer@]);
        f
    }

    /// A copy of this frame.
    pub fn duplicate(&self) -> (r: Frame)
        ensures
            r@ == self@,
    {
        let mut layers: Vec<Layer> = Vec::new();
        let mut i: usize = 0;
        while i < self.layers.len()
            invariant
                i <= self.layers@.len(),
                layers_view(layers@) == self@.subrange(0, i as int),
            decreases self.layers@.len() - i,
        {
            let l = self.layers[i].duplicate();
            let ghost prev = layers@;
            layers.push(l);
            assert(layers_view(prev).len() == i);
            assert(layers@.len() == i + 1);
            assert forall|k: int| 0 <= k < i + 1 implies #[trigger] layers_view(layers@)[k] == self@[k] by {
                if k < i {
                    assert(layers@[k] == prev[k]);
                    assert(layers_view(prev)[k] == self@.subrange(0, i as int)[k]);
                }
            }
            i = i + 1;
            assert(layers_view(layers@) =~= self@.subrange(0, i as int));
        }
        let r = Frame { layers };
        assert(r@ =~= self@);
        r
    }

    /// Whether two frames hold equal layers.
    pub fn same_as(&self, o: &Frame) -> (r: bool)
        ensures
            r == (self@ == o@),
    {
        if self.layers.len() != o.layers.len() {
            assert(self@.len() != o@.len());
            return false;
        }
        let mut i: usize = 0;
        while i < self.layers.len()
            invariant
                self.layers@.len() == o.layers@.len(),
                i <= self.layers@.len(),
                forall|k: int| 0 <= k < i ==> self@[k] == o@[k],
            decreases self.layers@.len() - i,
        {
            if !self.layers[i].same_as(&o.layers[i]) {
                assert(self@[i as int] != o@[i as int]);
                return false;
            }
            i = i + 1;
        }
        assert(self@ =~= o@);
        true
    }

    /// Whether this frame belongs on a `w` by `h` canvas.
    pub fn fits(&self, w: usize, h: usize) -> (r: bool)
        ensures
            r == frame_fits(self@, w, h),
    {
        if self.layers.len() == 0 {
            return false;
        }
        let mut i: usize = 0;
        while i < self.layers.len()
            invariant
                i <= self.layers@.len(),
                forall|k: int| 0 <= k < i ==> #[trigger] layer_fits(self@[k], w, h),
            decreases self.layers@.len() - i,
        {
            if !self.layers[i].fits(w, h) {
                assert(!layer_fits(self@[i as int], w, h));
                return false;
            }
            i = i + 1;
        }
        true
    }
}

/// A copy of a sequence of frames.
pub fn duplicate_frames(v: &Vec<Frame>) -> (r: Vec<Frame>)
    ensures
        frames_view(r@) == frames_view(v@),
{
    let mut r: Vec<Frame> = Vec::new();
    let mut i: usize = 0;
    while i < v.len()
        invariant
            i <= v@.len(),
            frames_view(r@) == frames_view(v@).subrange(0, i as int),
        decreases v@.len() - i,
    {
        let f = v[i].duplicate();
        let ghost prev = r@;
        r.push(f);
        assert(frames_view(prev).len() == i);
        assert(r@.len() == i + 1);
        assert forall|k: int| 0 <= k < i + 1 implies #[trigger] frames_view(r@)[k] == frames_view(
            v@,
        )[k] by {
            if k < i {
                assert(r@[k] == prev[k]);
                assert(frames_view(prev)[k] == frames_view(v@).subrange(0, i as int)[k]);
            }
        }
        i = i + 1;
        assert(frames_view(r@) =~= frames_view(v@).subrange(0, i as int));
    }
    assert(frames_view(r@) =~= frames_view(v@));
    r
}

/// Whether two sequences of frames are equal.
pub fn frames_same(a: &Vec<Frame>, b: &Vec<Frame>) -> (r: bool)
    ensures
        r == (frames_view(a@) == frames_view(b@)),
{
    if a.len() != b.len() {
        assert(frames_view(a@).len() != frames_view(b@).len());
        return false;
    }
    let mut i: usize = 0;
    while i < a.len()
        invariant
            a@.len() == b@.len(),
            i <= a@.len(),
            forall|k: int| 0 <= k < i ==> frames_view(a@)[k] == frames_view(b@)[k],
        decreases a@.len() - i,
    {
        if !a[i].same_as(&b[i]) {
            assert(frames_view(a@)[i as int] != frames_view(b@)[i as int]);
            return false;
        }
        i = i + 1;
    }
    assert(frames_view(a@) =~= frames_view(b@));
    true
}

/// Whether every frame of `v` belongs on a `w` by `h` canvas, and there is
/// at least one.
pub fn frames_fit_exec(v: &Vec<Frame>, w: usize, h: usize) -> (r: bool)
    ensures
        r == frames_fit(frames_view(v@), w, h),
{
    if v.len() == 0 {
        return false;
    }
    let mut i: usize = 0;
    while i < v.len()
        invariant
            i <= v@.len(),
            forall|k: int| 0 <= k < i ==> #[trigger] frame_fits(frames_view(v@)[k], w, h),
        decreases v@.len() - i,
    {
        if !v[i].fits(w, h) {
            assert(!frame_fits(frames_view(v@)[i as int], w, h));
            return false;
        }
        i = i + 1;
    }
    true
}

/// Whether `c` occurs in `v`.
pub fn palette_contains(v: &Vec<Color>, c: Color) -> (r: bool)
    ensures
        r == v@.contains(c),
{
    let mut i: usize = 0;
    while i < v.len()
        invariant
            i <= v@.len(),
            forall|k: int| 0 <= k < i ==> v@[k] != c,
        decreases v@.len() - i,
    {
        if v[i] == c {
            return true;
        }
        i = i + 1;
    }
    false
}

/// A sprite: frames of layers on one canvas, a cursor and a palette. It
/// changes only through `apply`.
#[derive(Debug)]
pub struct Document {
    width: usize,
    height: usize,
    frames: Vec<Frame>,
    cursor: Cursor,
    palette: Vec<Color>,
}

impl View for Document {
    type V = DocModel;

    closed spec fn view(&self) -> DocModel {
        DocModel {
            width: self.width,
            height: self.height,
            frames: frames_view(self.frames@),
            cursor: self.cursor,
            palette: self.palette@,
        }
    }
}

impl Document {
    pub open spec fn wf(&self) -> bool {
        self@.wf()
    }

    /// A document of one frame holding one transparent layer named `name`,
    /// with an empty palette.
    pub fn new(width: usize, height: usize, name: String) -> (d: Document)
        requires
            width * height <= usize::MAX,
        ensures
            d.wf(),
            d@ == (DocModel {
                width,
                height,
                frames: seq![
                    seq![
                        LayerModel {
                            name: name@,
                            visible: true,
                            opacity: MAX_OPACITY,
                            blend_mode: BlendMode::Normal,
                            width,
                            height,
                            cells: Seq::new((width * height) as nat, |i: int| transparent()),
                        },
                    ],
                ],
                cursor: Cursor { frame: 0, layer: 0 },
                palette: Seq::empty(),
            }),
    {
        let layer = Layer::new(name, width, height);
        let frame = Frame::new(layer);
        let mut frames: Vec<Frame> = Vec::new();
        frames.push(frame);
        let d = Document {
            width,
            height,
            frames,
            cursor: Cursor { frame: 0, layer: 0 },
            palette: Vec::new(),
        };
        assert(d@.frames =~= seq![d@.frames[0]]);
        assert(d@.palette =~= Seq::empty());
        d
    }

    pub fn width(&self) -> (r: usize)
        ensures
            r == self@.width,
    {
        self.width
    }

    pub fn height(&self) -> (r: usize)
        ensures
            r == self@.height,
    {
        self.height
    }

    pub fn cursor(&self) -> (r: Cursor)
        ensures
            r == self@.cursor,
    {
        self.cursor
    }

    pub fn frame_count(&self) -> (r: usize)
        ensures
            r == self@.frames.len(),
    {
        self.frames.len()
    }

    /// The frames, front of the animation first.
    pub fn frames(&self) -> (r: &Vec<Frame>)
        ensures
            frames_view(r@) == self@.frames,
    {
        &self.frames
    }

    pub fn palette(&self) -> (r: &Vec<Color>)
        ensures
            r@ == self@.palette,
    {
        &self.palette
    }

    /// Number of cells of the canvas.
    pub fn area(&self) -> (r: usize)
        requires
            self.wf(),
        ensures
            r == self@.width * self@.height,
    {
        assert(frame_fits(self@.frames[0], self.width, self.height));
        assert(layer_fits(self@.frames[0][0], self.width, self.height));
        assert(self.frames@[0].layers@[0].pixels.cells@.len()
            == self.frames@[0].layers@[0].pixels.cells.len());
        self.width * self.height
    }

    /// Moves the cursor; fails with `OutOfBounds` where there is no such
    /// frame or layer, leaving the cursor where it was.
    pub fn select(&mut self, frame: usize, layer: usize) -> (r: Result<(), EditorError>)
        requires
            old(self).wf(),
        ensures
            final(self).wf(),
            cursor_ok(old(self)@.frames, Cursor { frame, layer }) ==> r is Ok
                && final(self)@ == (DocModel { cursor: Cursor { frame, layer }, ..old(self)@ }),
            !cursor_ok(old(self)@.frames, Cursor { frame, layer }) ==> r == Err::<(), EditorError>(
                EditorError::OutOfBounds,
            ) && final(self)@ == old(self)@,
    {
        if frame < self.frames.len() && layer < self.frames[frame].layers.len() {
            self.cursor = Cursor { frame, layer };
            Ok(())
        } else {
            Err(EditorError::OutOfBounds)
        }
    }

    /// Whether the cursor `c` would be in bounds once one layer is added to
    /// (`grow`) or removed from frame `f`.
    fn cursor_fits_layers(&self, c: Cursor, f: usize, grow: bool) -> (r: bool)
        requires
            f < self@.frames.len(),
            !grow ==> self@.frames[f as int].len() >= 1,
        ensures
            r == (c.frame < self@.frames.len() && c.layer < (if c.frame == f {
                if grow {
                    self@.frames[f as int].len() + 1 as int
                } else {
                    self@.frames[f as int].len() - 1
                }
            } else {
                self@.frames[c.frame as int].len() as int
            })),
    {
        if c.frame >= self.frames.len() {
            return false;
        }
        let n = self.frames[c.frame].layers.len();
        if c.frame == f {
            if grow {
                c.layer <= n
            } else {
                c.layer < n - 1
            }
        } else {
            c.layer < n
        }
    }

    /// Applies `c` if it validates against this document; otherwise fails
    /// without changing anything.
    pub fn apply(&mut self, c: &EditCommand) -> (r: Result<(), EditorError>)
        requires
            old(self).wf(),
        ensures
            final(self).wf(),
            apply_spec(old(self)@, *c) is Ok ==> r is Ok && final(self)@ == apply_spec(
                old(self)@,
                *c,
            )->Ok_0,
            apply_spec(old(self)@, *c) is Err ==> r == Err::<(), EditorError>(
                apply_spec(old(self)@, *c)->Err_0,
            ) && final(self)@ == old(self)@,
    {
        let ghost d = self@;
        let r = match c {
            EditCommand::Paint { frame, layer, before, after } => self.apply_paint(
                *frame,
                *layer,
                before,
                after,
            ),
            EditCommand::Resize {
                before_width,
                before_height,
                before,
                after_width,
                after_height,
                after,
            } => self.apply_resize(
                *before_width,
                *before_height,
                before,
                *after_width,
                *after_height,
                after,
            ),
            EditCommand::AddLayer { frame, index, layer, cursor_before, cursor_after } => {
                let f = *frame;
                let i = *index;
                if f >= self.frames.len() || i > self.frames[f].layers.len() || *cursor_before
                    != self.cursor {
                    Err(EditorError::InvalidTarget)
                } else if !layer.fits(self.width, self.height) {
                    Err(EditorError::DimensionMismatch)
                } else if !self.cursor_fits_layers(*cursor_after, f, true) {
                    Err(EditorError::InvalidTarget)
                } else {
                    let l = layer.duplicate();
                    self.frames[f].layers.insert(i, l);
                    self.cursor = *cursor_after;
                    assert(self.frames@[f as int]@ =~= d.frames[f as int].insert(i as int, layer@));
                    assert(frames_view(self.frames@) =~= d.frames.update(
                        f as int,
                        d.frames[f as int].insert(i as int, layer@),
                    ));
                    Ok(())
                }
            },
            EditCommand::RemoveLayer { frame, index, layer, cursor_before, cursor_after } => {
                let f = *frame;
                let i = *index;
                if f >= self.frames.len() || i >= self.frames[f].layers.len()
                    || self.frames[f].layers.len() <= 1 || !self.frames[f].layers[i].same_as(layer)
                    || *cursor_before != self.cursor {
                    Err(EditorError::InvalidTarget)
                } else if !self.cursor_fits_layers(*cursor_after, f, false) {
                    Err(EditorError::InvalidTarget)
                } else {
                    self.frames[f].layers.remove(i);
                    self.cursor = *cursor_after;
                    assert(self.frames@[f as int]@ =~= d.frames[f as int].remove(i as int));
                    assert(frames_view(self.frames@) =~= d.frames.update(
                        f as int,
                        d.frames[f as int].remove(i as int),
                    ));
                    Ok(())
                }
            },
            EditCommand::AddFrame { index, frame, cursor_before, cursor_after } => {
                let i = *index;
                if i > self.frames.len() || *cursor_before != self.cursor {
                    Err(EditorError::InvalidTarget)
                } else if !frame.fits(self.width, self.height) {
                    Err(EditorError::DimensionMismatch)
                } else {
                    let ca = *cursor_after;
                    let ok = if ca.frame < i {
                        ca.layer < self.frames[ca.frame].layers.len()
                    } else if ca.frame == i {
                        ca.layer < frame.layers.len()
                    } else {
                        ca.frame <= self.frames.len() && ca.layer < self.frames[ca.frame
                            - 1].layers.len()
                    };
                    assert(ok == cursor_ok(d.frames.insert(i as int, frame@), ca));
                    if !ok {
                        Err(EditorError::InvalidTarget)
                    } else {
                        let fr = frame.duplicate();
                        self.frames.insert(i, fr);
                        self.cursor = ca;
                        assert(frames_view(self.frames@) =~= d.frames.insert(i as int, frame@));
                        Ok(())
                    }
                }
            },
            EditCommand::RemoveFrame { index, frame, cursor_before, cursor_after } => {
                let i = *index;
                if i >= self.frames.len() || self.frames.len() <= 1 || !self.frames[i].same_as(
                    frame,
                ) || *cursor_before != self.cursor {
                    Err(EditorError::InvalidTarget)
                } else {
                    let ca = *cursor_after;
                    let ok = if ca.frame < i {
                        ca.layer < self.frames[ca.frame].layers.len()
                    } else {
                        ca.frame < self.frames.len() - 1 && ca.layer < self.frames[ca.frame
                            + 1].layers.len()
                    };
                    assert(ok == cursor_ok(d.frames.remove(i as int), ca));
                    if !ok {
                        Err(EditorError::InvalidTarget)
                    } else {
                        self.frames.remove(i);
                        self.cursor = ca;
                        assert(frames_view(self.frames@) =~= d.frames.remove(i as int));
                        Ok(())
                    }
                }
            },
            EditCommand::AddColor { index, color } => {
                if *index > self.palette.len() || palette_contains(&self.palette, *color) {
                    Err(EditorError::InvalidTarget)
                } else {
                    self.palette.insert(*index, *color);
                    Ok(())
                }
            },
            EditCommand::RemoveColor { index, color } => {
                if *index >= self.palette.len() || self.palette[*index] != *color {
                    Err(EditorError::InvalidTarget)
                } else {
                    self.palette.remove(*index);
                    Ok(())
                }
            },
        };
        proof {
            if apply_spec(d, *c) is Ok {
                lemma_apply_wf(d, *c);
            }
        }
        r
    }

    fn apply_paint(&mut self, frame: usize, layer: usize, before: &Vec<Color>, after: &Vec<Color>) -> (r:
        Result<(), EditorError>)
        requires
            old(self).wf(),
        ensures
            ({
                let c = EditCommand::Paint { frame, layer, before: *before, after: *after };
                &&& apply_spec(old(self)@, c) is Ok ==> r is Ok && final(self)@ == apply_spec(
                    old(self)@,
                    c,
                )->Ok_0
                &&& apply_spec(old(self)@, c) is Err ==> r == Err::<(), EditorError>(
                    apply_spec(old(self)@, c)->Err_0,
                ) && final(self)@ == old(self)@
            }),
    {
        let ghost d = self@;
        if frame >= self.frames.len() || layer >= self.frames[frame].layers.len() {
            return Err(EditorError::InvalidTarget);
        }
        let n = self.area();
        if before.len() != n || after.len() != n {
            return Err(EditorError::DimensionMismatch);
        }
        if !cells_equal(&self.frames[frame].layers[layer].pixels.cells, before) {
            return Err(EditorError::InvalidTarget);
        }
        let cells = copy_cells(after);
        self.frames[frame].layers[layer].pixels.cells = cells;
        assert(frames_view(self.frames@)[frame as int] =~= d.frames[frame as int].update(
            layer as int,
            LayerModel { cells: after@, ..d.frames[frame as int][layer as int] },
        ));
        assert(frames_view(self.frames@) =~= with_cells(
            d,
            frame as int,
            layer as int,
            after@,
        ).frames);
        Ok(())
    }

    fn apply_resize(
        &mut self,
        before_width: usize,
        before_height: usize,
        before: &Vec<Frame>,
        after_width: usize,
        after_height: usize,
        after: &Vec<Frame>,
    ) -> (r: Result<(), EditorError>)
        requires
            old(self).wf(),
        ensures
            ({
                let c = EditCommand::Resize {
                    before_width,
                    before_height,
                    before: *before,
                    after_width,
                    after_height,
                    after: *after,
                };
                &&& apply_spec(old(self)@, c) is Ok ==> r is Ok && final(self)@ == apply_spec(
                    old(self)@,
                    c,
                )->Ok_0
                &&& apply_spec(old(self)@, c) is Err ==> r == Err::<(), EditorError>(
                    apply_spec(old(self)@, c)->Err_0,
                ) && final(self)@ == old(self)@
            }),
    {
        if before_width != self.width || before_height != self.height || !frames_same(
            before,
            &self.frames,
        ) {
            return Err(EditorError::InvalidTarget);
        }
        if !frames_fit_exec(after, after_width, after_height) || self.cursor.frame >= after.len()
            || self.cursor.layer >= after[self.cursor.frame].layers.len() {
            return Err(EditorError::DimensionMismatch);
        }
        self.width = after_width;
        self.height = after_height;
        self.frames = duplicate_frames(after);
        Ok(())
    }
}

impl EditCommand {
    /// The command that undoes this one.
    pub fn inverse(self) -> (r: EditCommand)
        ensures
            r == inverse_of(self),
    {
        match self {
            EditCommand::Paint { frame, layer, before, after } => EditCommand::Paint {
                frame,
                layer,
                before: after,
                after: before,
            },
            EditCommand::Resize {
                before_width,
                before_height,
                before,
                after_width,
                after_height,
                after,
            } => EditCommand::Resize {
                before_width: after_width,
                before_height: after_height,
                before: after,
                after_width: before_width,
                after_height: before_height,
                after: before,
            },
            EditCommand::AddLayer { frame, index, layer, cursor_before, cursor_after } =>
                EditCommand::RemoveLayer {
                frame,
                index,
                layer,
                cursor_before: cursor_after,
                cursor_after: cursor_before,
            },
            EditCommand::RemoveLayer { frame, index, layer, cursor_before, cursor_after } =>
                EditCommand::AddLayer {
                frame,
                index,
                layer,
                cursor_before: cursor_after,
                cursor_after: cursor_before,
            },
            EditCommand::AddFrame { index, frame, cursor_before, cursor_after } =>
                EditCommand::RemoveFrame {
                index,
                frame,
                cursor_before: cursor_after,
                cursor_after: cursor_before,
            },
            EditCommand::RemoveFrame { index, frame, cursor_before, cursor_after } =>
                EditCommand::AddFrame {
                index,
                frame,
                cursor_before: cursor_after,
                cursor_after: cursor_before,
            },
            EditCommand::AddColor { index, color } => EditCommand::RemoveColor { index, color },
            EditCommand::RemoveColor { index, color } => EditCommand::AddColor { index, color },
        }
    }
}

/// The cursor once frame `index` is gone from `fs`: a cursor past it moves
/// down one, one left past the end moves to the new last frame, and the
/// layer is clamped to the layers of the frame it lands on.
pub open spec fn cursor_after_frame_removal(fs: Seq<Seq<LayerModel>>, c: Cursor, index: int) -> Cursor {
    let nf = fs.remove(index);
    let f: int = if c.frame > index {
        c.frame - 1
    } else if c.frame >= nf.len() {
        nf.len() - 1
    } else {
        c.frame as int
    };
    let l: int = if c.layer >= nf[f].len() {
        nf[f].len() - 1
    } else {
        c.layer as int
    };
    Cursor { frame: f as usize, layer: l as usize }
}

/// The cursor once layer `index` of frame `frame` is gone: on that frame, a
/// layer past it moves down one and one left past the end moves to the new
/// top layer.
pub open spec fn cursor_after_layer_removal(fs: Seq<Seq<LayerModel>>, c: Cursor, frame: int, index: int) -> Cursor {
    if c.frame != frame {
        c
    } else {
        let n = fs[frame].len() - 1;
        let l: int = if c.layer > index {
            c.layer - 1
        } else if c.layer >= n {
            n - 1
        } else {
            c.layer as int
        };
        Cursor { frame: c.frame, layer: l as usize }
    }
}

impl Document {
    /// The command that removes frame `index`, clamping the cursor;
    /// `InvalidTarget` where there is no such frame or it is the only one.
    pub fn remove_frame_command(&self, index: usize) -> (r: Result<EditCommand, EditorError>)
        requires
            self.wf(),
        ensures
            index >= self@.frames.len() || self@.frames.len() <= 1 ==> r == Err::<
                EditCommand,
                EditorError,
            >(EditorError::InvalidTarget),
            !(index >= self@.frames.len() || self@.frames.len() <= 1) ==> r is Ok && match r->Ok_0 {
                EditCommand::RemoveFrame { index: i, frame, cursor_before, cursor_after } => i
                    == index && frame@ == self@.frames[index as int] && cursor_before
                    == self@.cursor && cursor_after == cursor_after_frame_removal(
                    self@.frames,
                    self@.cursor,
                    index as int,
                ),
                _ => false,
            } && apply_spec(self@, r->Ok_0) is Ok,
    {
        let ghost d = self@;
        let n = self.frames.len();
        if index >= n || n <= 1 {
            return Err(EditorError::InvalidTarget);
        }
        let c = self.cursor;
        let f: usize = if c.frame > index {
            c.frame - 1
        } else if c.frame >= n - 1 {
            n - 2
        } else {
            c.frame
        };
        let src: usize = if f < index {
            f
        } else {
            f + 1
        };
        proof {
            assert(d.frames.remove(index as int)[f as int] == d.frames[src as int]);
            assert(frame_fits(d.frames[src as int], d.width, d.height));
        }
        let nl = self.frames[src].layers.len();
        let l: usize = if c.layer >= nl {
            nl - 1
        } else {
            c.layer
        };
        let frame = self.frames[index].duplicate();
        let cmd = EditCommand::RemoveFrame {
            index,
            frame,
            cursor_before: c,
            cursor_after: Cursor { frame: f, layer: l },
        };
        Ok(cmd)
    }

    /// The command that removes layer `index` of frame `frame`, clamping the
    /// cursor; `InvalidTarget` where there is no such layer or it is the
    /// frame's only one.
    pub fn remove_layer_command(&self, frame: usize, index: usize) -> (r: Result<
        EditCommand,
        EditorError,
    >)
        requires
            self.wf(),
        ensures
            frame >= self@.frames.len() || index >= self@.frames[frame as int].len()
                || self@.frames[frame as int].len() <= 1 ==> r == Err::<EditCommand, EditorError>(
                EditorError::InvalidTarget,
            ),
            !(frame >= self@.frames.len() || index >= self@.frames[frame as int].len()
                || self@.frames[frame as int].len() <= 1) ==> r is Ok && match r->Ok_0 {
                EditCommand::RemoveLayer { frame: f, index: i, layer, cursor_before, cursor_after } =>
                    f == frame && i == index && layer@ == self@.frames[frame as int][index as int]
                    && cursor_before == self@.cursor && cursor_after == cursor_after_layer_removal(
                    self@.frames,
                    self@.cursor,
                    frame as int,
                    index as int,
                ),
                _ => false,
            } && apply_spec(self@, r->Ok_0) is Ok,
    {
        let ghost d = self@;
        if frame >= self.frames.len() || index >= self.frames[frame].layers.len()
            || self.frames[frame].layers.len() <= 1 {
            return Err(EditorError::InvalidTarget);
        }
        let c = self.cursor;
        let after = if c.frame != frame {
            c
        } else {
            let n = self.frames[frame].layers.len() - 1;
            let l: usize = if c.layer > index {
                c.layer - 1
            } else if c.layer >= n {
                n - 1
            } else {
                c.layer
            };
            Cursor { frame: c.frame, layer: l }
        };
        let layer = self.frames[frame].layers[index].duplicate();
        proof {
            assert(layer@ == d.frames[frame as int][index as int]);
        }
        Ok(EditCommand::RemoveLayer { frame, index, layer, cursor_before: c, cursor_after: after })
    }

    /// The command that inserts `layer` at `index` of frame `frame` and puts
    /// the cursor on it; `InvalidTarget` where there is no such position,
    /// `DimensionMismatch` where the layer does not fit the canvas.
    pub fn add_layer_command(&self, frame: usize, index: usize, layer: Layer) -> (r: Result<
        EditCommand,
        EditorError,
    >)
        requires
            self.wf(),
        ensures
            frame >= self@.frames.len() || index > self@.frames[frame as int].len() ==> r == Err::<
                EditCommand,
                EditorError,
            >(EditorError::InvalidTarget),
            !(frame >= self@.frames.len() || index > self@.frames[frame as int].len())
                && !layer_fits(layer@, self@.width, self@.height) ==> r == Err::<
                EditCommand,
                EditorError,
            >(EditorError::DimensionMismatch),
            !(frame >= self@.frames.len() || index > self@.frames[frame as int].len())
                && layer_fits(layer@, self@.width, self@.height) ==> r is Ok && match r->Ok_0 {
                EditCommand::AddLayer { frame: f, index: i, layer: l, cursor_before, cursor_after } =>
                    f == frame && i == index && l@ == layer@ && cursor_before == self@.cursor
                    && cursor_after == (Cursor { frame, layer: index }),
                _ => false,
            } && apply_spec(self@, r->Ok_0) is Ok,
    {
        if frame >= self.frames.len() || index > self.frames[frame].layers.len() {
            return Err(EditorError::InvalidTarget);
        }
        if !layer.fits(self.width, self.height) {
            return Err(EditorError::DimensionMismatch);
        }
        Ok(
            EditCommand::AddLayer {
                frame,
                index,
                layer,
                cursor_before: self.cursor,
                cursor_after: Cursor { frame, layer: index },
            },
        )
    }

    /// The command that inserts `frame` at `index` and puts the cursor on
    /// its bottom layer; `InvalidTarget` past the end, `DimensionMismatch`
    /// where the frame does not fit the canvas.
    pub fn add_frame_command(&self, index: usize, frame: Frame) -> (r: Result<EditCommand, EditorError>)
        requires
            self.wf(),
        ensures
            index > self@.frames.len() ==> r == Err::<EditCommand, EditorError>(
                EditorError::InvalidTarget,
            ),
            index <= self@.frames.len() && !frame_fits(frame@, self@.width, self@.height) ==> r
                == Err::<EditCommand, EditorError>(EditorError::DimensionMismatch),
            index <= self@.frames.len() && frame_fits(frame@, self@.width, self@.height) ==> r is Ok
                && match r->Ok_0 {
                EditCommand::AddFrame { index: i, frame: f, cursor_before, cursor_after } => i
                    == index && f@ == frame@ && cursor_before == self@.cursor && cursor_after == (
                Cursor { frame: index, layer: 0 }),
                _ => false,
            } && apply_spec(self@, r->Ok_0) is Ok,
    {
        if index > self.frames.len() {
            return Err(EditorError::InvalidTarget);
        }
        if !frame.fits(self.width, self.height) {
            return Err(EditorError::DimensionMismatch);
        }
        Ok(
            EditCommand::AddFrame {
                index,
                frame,
                cursor_before: self.cursor,
                cursor_after: Cursor { frame: index, layer: 0 },
            },
        )
    }
}

} // verus!
