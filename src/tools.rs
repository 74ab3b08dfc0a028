//! Drawing tools: pointer input becomes commands; each tool also keeps a
//! cosmetic animation phase that never touches what it emits.

use vstd::prelude::*;
use crate::document::{DocModel, Document, EditCommand, apply_spec, frame_fits, layer_fits};
use crate::fill::{fill_command, is_fill_command};
use crate::pixel::{Color, EditorError, cell_index, cells_equal, copy_cells, lemma_cell_index_bounds, transparent};

verus! {

#[derive(Clone, Copy, Debug, PartialEq, Eq, Structural)]
pub enum ToolKind {
    Pencil,
    Eraser,
    Fill,
    Select,
    Shape,
}

/// Length of one animation cycle of each tool, in milliseconds.
pub open spec fn period_of(k: ToolKind) -> u64 {
    match k {
        ToolKind::Pencil => 1000,
        ToolKind::Eraser => 1000,
        ToolKind::Fill => 1500,
        ToolKind::Select => 800,
        ToolKind::Shape => 1200,
    }
}

pub fn period(k: ToolKind) -> (r: u64)
    ensures
        r == period_of(k),
        r > 0,
{
    match k {
        ToolKind::Pencil => 1000,
        ToolKind::Eraser => 1000,
        ToolKind::Fill => 1500,
        ToolKind::Select => 800,
        ToolKind::Shape => 1200,
    }
}

/// `cells` with every in-bounds point of `pts` set to `c`, first to last.
pub open spec fn painted(cells: Seq<Color>, w: int, h: int, pts: Seq<(usize, usize)>, c: Color) -> Seq<Color>
    decreases pts.len(),
{
    if pts.len() == 0 {
        cells
    } else {
        let rest = painted(cells, w, h, pts.drop_last(), c);
        let (x, y) = pts.last();
        if x < w && y < h {
            rest.update(cell_index(w, x as int, y as int), c)
        } else {
            rest
        }
    }
}

/// Cell `(x, y)` lies in the rectangle with corners `(x0, y0)` and
/// `(x1, y1)`, in either order.
pub open spec fn in_box(x: int, y: int, x0: int, y0: int, x1: int, y1: int) -> bool {
    (if x0 <= x1 { x0 <= x && x <= x1 } else { x1 <= x && x <= x0 })
        && (if y0 <= y1 { y0 <= y && y <= y1 } else { y1 <= y && y <= y0 })
}

/// `r` is the `w` by `h` grid `cells` with the rectangle between the two
/// corners filled with `c`.
pub open spec fn is_box_fill(cells: Seq<Color>, w: int, h: int, x0: int, y0: int, x1: int, y1: int, c: Color, r: Seq<Color>) -> bool {
    &&& r.len() == w * h
    &&& forall|x: int, y: int|
        0 <= x < w && 0 <= y < h ==> r[#[trigger] cell_index(w, x, y)] == if in_box(x, y, x0, y0, x1, y1) {
            c
        } else {
            cells[cell_index(w, x, y)]
        }
}

proof fn lemma_box_fill_unique(cells: Seq<Color>, w: int, h: int, x0: int, y0: int, x1: int, y1: int, c: Color, a: Seq<Color>, b: Seq<Color>)
    requires
        w >= 0,
        h >= 0,
        is_box_fill(cells, w, h, x0, y0, x1, y1, c, a),
        is_box_fill(cells, w, h, x0, y0, x1, y1, c, b),
    ensures
        a == b,
{
    assert forall|k: int| 0 <= k < a.len() implies a[k] == b[k] by {
        let x = k % w;
        let y = k / w;
        assert(w > 0 && h > 0) by (nonlinear_arith)
            requires
                0 <= k < w * h,
                w >= 0,
                h >= 0,
        ;
        assert(k == cell_index(w, x, y) && 0 <= x < w && 0 <= y < h) by (nonlinear_arith)
            requires
                w > 0,
                0 <= k < w * h,
                x == k % w,
                y == k / w,
        ;
    }
    assert(a =~= b);
}

fn box_cells(cells: &Vec<Color>, w: usize, h: usize, x0: usize, y0: usize, x1: usize, y1: usize, c: Color) -> (r: Vec<Color>)
    requires
        cells@.len() == w * h,
    ensures
        is_box_fill(cells@, w as int, h as int, x0 as int, y0 as int, x1 as int, y1 as int, c, r@),
{
    let (lx, hx) = if x0 <= x1 { (x0, x1) } else { (x1, x0) };
    let (ly, hy) = if y0 <= y1 { (y0, y1) } else { (y1, y0) };
    let mut r: Vec<Color> = Vec::new();
    let mut y: usize = 0;
    while y < h
        invariant
            cells@.len() == w * h,
            lx == (if x0 <= x1 { x0 } else { x1 }),
            hx == (if x0 <= x1 { x1 } else { x0 }),
            ly == (if y0 <= y1 { y0 } else { y1 }),
            hy == (if y0 <= y1 { y1 } else { y0 }),
            y <= h,
            r@.len() == y * w,
            forall|xx: int, yy: int|
                0 <= xx < w && 0 <= yy < y ==> r@[#[trigger] cell_index(w as int, xx, yy)] == if in_box(
                    xx,
                    yy,
                    x0 as int,
                    y0 as int,
                    x1 as int,
                    y1 as int,
                ) {
                    c
                } else {
                    cells@[cell_index(w as int, xx, yy)]
                },
        decreases h - y,
    {
        let mut x: usize = 0;
        while x < w
            invariant
                cells@.len() == w * h,
                lx == (if x0 <= x1 { x0 } else { x1 }),
                hx == (if x0 <= x1 { x1 } else { x0 }),
                ly == (if y0 <= y1 { y0 } else { y1 }),
                hy == (if y0 <= y1 { y1 } else { y0 }),
                y < h,
                x <= w,
                r@.len() == y * w + x,
                forall|xx: int, yy: int|
                    0 <= xx < w && 0 <= yy < y ==> r@[#[trigger] cell_index(w as int, xx, yy)] == if in_box(
                        xx,
                        yy,
                        x0 as int,
                        y0 as int,
                        x1 as int,
                        y1 as int,
                    ) {
                        c
                    } else {
                        cells@[cell_index(w as int, xx, yy)]
                    },
                forall|xx: int|
                    0 <= xx < x ==> r@[#[trigger] cell_index(w as int, xx, y as int)] == if in_box(
                        xx,
                        y as int,
                        x0 as int,
                        y0 as int,
                        x1 as int,
                        y1 as int,
                    ) {
                        c
                    } else {
                        cells@[cell_index(w as int, xx, y as int)]
                    },
            decreases w - x,
        {
            proof {
                lemma_cell_index_bounds(w as int, h as int, x as int, y as int);
                assert(cells@.len() == cells.len());
            }
            let v = if lx <= x && x <= hx && ly <= y && y <= hy {
                c
            } else {
                cells[y * w + x]
            };
            let ghost prev = r@;
            r.push(v);
            proof {
                assert forall|xx: int, yy: int| 0 <= xx < w && 0 <= yy < y implies r@[#[trigger] cell_index(
                    w as int,
                    xx,
                    yy,
                )] == prev[cell_index(w as int, xx, yy)] by {
                    lemma_cell_index_bounds(w as int, y as int, xx, yy);
                    assert(w * y == y * w) by (nonlinear_arith);
                }
                assert forall|xx: int| 0 <= xx < x implies r@[#[trigger] cell_index(
                    w as int,
                    xx,
                    y as int,
                )] == prev[cell_index(w as int, xx, y as int)] by {}
            }
            x = x + 1;
        }
        proof {
            assert((y + 1) * w == y * w + w) by (nonlinear_arith);
        }
        y = y + 1;
    }
    proof {
        assert(h * w == w * h) by (nonlinear_arith);
    }
    r
}

/// The active tool, the stroke it is gathering, the color it draws with and
/// its animation phase in milliseconds.
#[derive(Debug)]
pub struct ToolEngine {
    pub kind: ToolKind,
    pub color: Color,
    pub active: bool,
    pub stroke: Vec<(usize, usize)>,
    pub phase_ms: u64,
}

/// The command a stroke of `kind` with `color` over `pts` makes on the
/// current layer of `d`, if any.
pub open spec fn stroke_result(d: DocModel, kind: ToolKind, color: Color, pts: Seq<(usize, usize)>, r: Option<EditCommand>) -> bool {
    let cells = d.frames[d.cursor.frame as int][d.cursor.layer as int].cells;
    match kind {
        ToolKind::Pencil | ToolKind::Eraser => {
            let c = if kind == ToolKind::Pencil { color } else { transparent() };
            let after = painted(cells, d.width as int, d.height as int, pts, c);
            &&& after == cells ==> r is None
            &&& after != cells ==> r is Some && match r->Some_0 {
                EditCommand::Paint { frame, layer, before, after: a } => frame == d.cursor.frame
                    && layer == d.cursor.layer && before@ == cells && a@ == after,
                _ => false,
            } && apply_spec(d, r->Some_0) is Ok
        },
        ToolKind::Fill => {
            let (x, y) = pts[0];
            let s = cell_index(d.width as int, x as int, y as int);
            &&& (x >= d.width || y >= d.height || cells[s] == color) ==> r is None
            &&& !(x >= d.width || y >= d.height || cells[s] == color) ==> r is Some && is_fill_command(
                d,
                x as int,
                y as int,
                color,
                r->Some_0,
            ) && apply_spec(d, r->Some_0) is Ok
        },
        ToolKind::Select => r is None,
        ToolKind::Shape => {
            let (x0, y0) = pts[0];
            let (x1, y1) = pts.last();
            let unchanged = is_box_fill(
                cells,
                d.width as int,
                d.height as int,
                x0 as int,
                y0 as int,
                x1 as int,
                y1 as int,
                color,
                cells,
            );
            &&& unchanged ==> r is None
            &&& !unchanged ==> r is Some && match r->Some_0 {
                EditCommand::Paint { frame, layer, before, after: a } => frame == d.cursor.frame
                    && layer == d.cursor.layer && before@ == cells && is_box_fill(
                    cells,
                    d.width as int,
                    d.height as int,
                    x0 as int,
                    y0 as int,
                    x1 as int,
                    y1 as int,
                    color,
                    a@,
                ),
                _ => false,
            } && apply_spec(d, r->Some_0) is Ok
        },
    }
}

fn paint_points(cells: &Vec<Color>, w: usize, h: usize, pts: &Vec<(usize, usize)>, c: Color) -> (r: Vec<Color>)
    requires
        cells@.len() == w * h,
    ensures
        r@ == painted(cells@, w as int, h as int, pts@, c),
{
    let mut r = copy_cells(cells);
    let mut i: usize = 0;
    while i < pts.len()
        invariant
            cells@.len() == w * h,
            i <= pts@.len(),
            r@ == painted(cells@, w as int, h as int, pts@.subrange(0, i as int), c),
        decreases pts@.len() - i,
    {
        let (x, y) = pts[i];
        proof {
            assert(pts@.subrange(0, i + 1).drop_last() =~= pts@.subrange(0, i as int));
            assert(pts@.subrange(0, i + 1).last() == pts@[i as int]);
        }
        if x < w && y < h {
            proof {
                lemma_cell_index_bounds(w as int, h as int, x as int, y as int);
                assert(r@.len() == painted(cells@, w as int, h as int, pts@.subrange(0, i as int), c).len());
                lemma_painted_len(cells@, w as int, h as int, pts@.subrange(0, i as int), c);
                assert(r@.len() == r.len());
            }
            r.set(y * w + x, c);
        }
        i = i + 1;
    }
    assert(pts@.subrange(0, pts@.len() as int) =~= pts@);
    r
}

proof fn lemma_painted_len(cells: Seq<Color>, w: int, h: int, pts: Seq<(usize, usize)>, c: Color)
    requires
        cells.len() == w * h,
    ensures
        painted(cells, w, h, pts, c).len() == cells.len(),
    decreases pts.len(),
{
    if pts.len() > 0 {
        lemma_painted_len(cells, w, h, pts.drop_last(), c);
        let (x, y) = pts.last();
        if x < w && y < h {
            lemma_cell_index_bounds(w, h, x as int, y as int);
        }
    }
}

impl ToolEngine {
    pub fn new(kind: ToolKind, color: Color) -> (t: ToolEngine)
        ensures
            t.kind == kind,
            t.color == color,
            !t.active,
            t.stroke@.len() == 0,
            t.phase_ms == 0,
    {
        ToolEngine { kind, color, active: false, stroke: Vec::new(), phase_ms: 0 }
    }

    /// Advances the animation phase by `dt_ms`, wrapping at the tool's
    /// period. Nothing else changes.
    pub fn tick(&mut self, dt_ms: u64)
        ensures
            final(self).phase_ms as int == (old(self).phase_ms as int % period_of(old(self).kind) as int
                + dt_ms as int % period_of(old(self).kind) as int) % (period_of(
                old(self).kind,
            ) as int),
            final(self).phase_ms < period_of(final(self).kind),
            final(self).kind == old(self).kind,
            final(self).color == old(self).color,
            final(self).active == old(self).active,
            final(self).stroke@ == old(self).stroke@,
    {
        let p = period(self.kind);
        self.phase_ms = (self.phase_ms % p + dt_ms % p) % p;
    }

    /// Starts a stroke at `(x, y)` if it lies on a `w` by `h` canvas.
    pub fn pointer_down(&mut self, x: usize, y: usize, w: usize, h: usize)
        ensures
            final(self).kind == old(self).kind,
            final(self).color == old(self).color,
            final(self).phase_ms == old(self).phase_ms,
            x < w && y < h ==> final(self).active && final(self).stroke@ == seq![(x, y)],
            !(x < w && y < h) ==> final(self).active == old(self).active && final(self).stroke@
                == old(self).stroke@,
    {
        if x < w && y < h {
            self.active = true;
            self.stroke = Vec::new();
            self.stroke.push((x, y));
            assert(self.stroke@ =~= seq![(x, y)]);
        }
    }

    /// Extends the stroke in progress with `(x, y)` if it lies on the canvas.
    pub fn pointer_move(&mut self, x: usize, y: usize, w: usize, h: usize)
        ensures
            final(self).kind == old(self).kind,
            final(self).color == old(self).color,
            final(self).phase_ms == old(self).phase_ms,
            final(self).active == old(self).active,
            old(self).active && x < w && y < h ==> final(self).stroke@ == old(self).stroke@.push(
                (x, y),
            ),
            !(old(self).active && x < w && y < h) ==> final(self).stroke@ == old(self).stroke@,
    {
        if self.active && x < w && y < h {
            self.stroke.push((x, y));
        }
    }

    /// Drops the stroke in progress without emitting anything.
    pub fn cancel(&mut self)
        ensures
            !final(self).active,
            final(self).stroke@.len() == 0,
            final(self).kind == old(self).kind,
            final(self).color == old(self).color,
            final(self).phase_ms == old(self).phase_ms,
    {
        self.active = false;
        self.stroke = Vec::new();
    }

    /// Ends the stroke in progress and returns the command it makes on the
    /// current layer of `doc`, or none where it changes nothing.
    pub fn pointer_up(&mut self, doc: &Document) -> (r: Option<EditCommand>)
        requires
            doc.wf(),
        ensures
            !final(self).active,
            final(self).stroke@.len() == 0,
            final(self).kind == old(self).kind,
            final(self).color == old(self).color,
            final(self).phase_ms == old(self).phase_ms,
            !old(self).active || old(self).stroke@.len() == 0 ==> r is None,
            old(self).active && old(self).stroke@.len() > 0 ==> stroke_result(
                doc@,
                old(self).kind,
                old(self).color,
                old(self).stroke@,
                r,
            ),
    {
        if !self.active || self.stroke.len() == 0 {
            self.cancel();
            return None;
        }
        let r = self.emit(doc);
        self.cancel();
        r
    }

    /// Ends the stroke at `(x, y)`: released off the `doc` canvas it is
    /// aborted with no command, otherwise it ends as `pointer_up` does after
    /// the point is added to the stroke.
    pub fn pointer_up_at(&mut self, x: usize, y: usize, doc: &Document) -> (r: Option<EditCommand>)
        requires
            doc.wf(),
        ensures
            !final(self).active,
            final(self).stroke@.len() == 0,
            final(self).kind == old(self).kind,
            final(self).color == old(self).color,
            final(self).phase_ms == old(self).phase_ms,
            !(x < doc@.width && y < doc@.height) || !old(self).active ==> r is None,
            x < doc@.width && y < doc@.height && old(self).active ==> stroke_result(
                doc@,
                old(self).kind,
                old(self).color,
                old(self).stroke@.push((x, y)),
                r,
            ),
    {
        let w = doc.width();
        let h = doc.height();
        if !(x < w && y < h) {
            self.cancel();
            return None;
        }
        self.pointer_move(x, y, w, h);
        self.pointer_up(doc)
    }

    fn emit(&self, doc: &Document) -> (r: Option<EditCommand>)
        requires
            doc.wf(),
            self.stroke@.len() > 0,
        ensures
            stroke_result(doc@, self.kind, self.color, self.stroke@, r),
    {
        let ghost d = doc@;
        match self.kind {
            ToolKind::Select => None,
            ToolKind::Shape => {
                let (x0, y0) = self.stroke[0];
                let (x1, y1) = self.stroke[self.stroke.len() - 1];
                let w = doc.width();
                let h = doc.height();
                let cur = doc.cursor();
                let frames = doc.frames();
                proof {
                    assert(frame_fits(d.frames[cur.frame as int], w, h));
                    assert(layer_fits(d.frames[cur.frame as int][cur.layer as int], w, h));
                    assert(frames@[cur.frame as int].layers@[cur.layer as int].pixels.cells@
                        == d.frames[cur.frame as int][cur.layer as int].cells);
                }
                let cells = &frames[cur.frame].layers[cur.layer].pixels.cells;
                let after = box_cells(cells, w, h, x0, y0, x1, y1, self.color);
                if cells_equal(&after, cells) {
                    None
                } else {
                    proof {
                        if is_box_fill(cells@, w as int, h as int, x0 as int, y0 as int, x1 as int, y1 as int, self.color, cells@) {
                            lemma_box_fill_unique(cells@, w as int, h as int, x0 as int, y0 as int, x1 as int, y1 as int, self.color, cells@, after@);
                        }
                    }
                    let before = copy_cells(cells);
                    Some(EditCommand::Paint { frame: cur.frame, layer: cur.layer, before, after })
                }
            },
            ToolKind::Fill => {
                let (x, y) = self.stroke[0];
                match fill_command(doc, x, y, self.color) {
                    Ok(c) => c,
                    Err(_) => None,
                }
            },
            _ => {
                let c = if self.kind == ToolKind::Pencil {
                    self.color
                } else {
                    Color::clear()
                };
                let w = doc.width();
                let h = doc.height();
                let cur = doc.cursor();
                let frames = doc.frames();
                proof {
                    assert(frame_fits(d.frames[cur.frame as int], w, h));
                    assert(layer_fits(d.frames[cur.frame as int][cur.layer as int], w, h));
                    assert(frames@[cur.frame as int].layers@[cur.layer as int].pixels.cells@
                        == d.frames[cur.frame as int][cur.layer as int].cells);
                }
                let cells = &frames[cur.frame].layers[cur.layer].pixels.cells;
                let after = paint_points(cells, w, h, &self.stroke, c);
                if cells_equal(&after, cells) {
                    None
                } else {
                    proof {
                        lemma_painted_len(cells@, w as int, h as int, self.stroke@, c);
                    }
                    let before = copy_cells(cells);
                    Some(EditCommand::Paint { frame: cur.frame, layer: cur.layer, before, after })
                }
            },
        }
    }

    /// Switches to tool `kind`. A stroke in progress is completed first and
    /// its command returned; the new tool starts with no stroke and phase 0.
    pub fn switch_tool(&mut self, kind: ToolKind, doc: &Document) -> (r: Option<EditCommand>)
        requires
            doc.wf(),
        ensures
            final(self).kind == kind,
            final(self).color == old(self).color,
            !final(self).active,
            final(self).stroke@.len() == 0,
            final(self).phase_ms == 0,
            !old(self).active || old(self).stroke@.len() == 0 ==> r is None,
            old(self).active && old(self).stroke@.len() > 0 ==> stroke_result(
                doc@,
                old(self).kind,
                old(self).color,
                old(self).stroke@,
                r,
            ),
    {
        let r = self.pointer_up(doc);
        self.kind = kind;
        self.phase_ms = 0;
        r
    }
}

} // verus!
