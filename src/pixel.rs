//! Colors, error kinds and the fixed-size pixel grid.

use vstd::prelude::*;

verus! {

/// An RGBA color with 8 bits per channel.
#[derive(Clone, Copy, Debug, PartialEq, Eq, Structural)]
pub struct Color {
    pub r: u8,
    pub g: u8,
    pub b: u8,
    pub a: u8,
}

/// The fully transparent color that new canvas area is filled with.
pub open spec fn transparent() -> Color {
    Color { r: 0, g: 0, b: 0, a: 0 }
}

impl Color {
    pub fn rgba(r: u8, g: u8, b: u8, a: u8) -> (c: Color)
        ensures
            c == (Color { r, g, b, a }),
    {
        Color { r, g, b, a }
    }

    pub fn clear() -> (c: Color)
        ensures
            c == transparent(),
    {
        Color { r: 0, g: 0, b: 0, a: 0 }
    }
}

/// Failures of the edit path. Every one is detected before any write.
#[derive(Clone, Copy, Debug, PartialEq, Eq, Structural)]
pub enum EditorError {
    /// A coordinate or index past the bounds of a buffer, frame or layer.
    OutOfBounds,
    /// A payload whose size disagrees with the canvas size.
    DimensionMismatch,
    /// A command that refers to a frame, layer or content that is not there.
    InvalidTarget,
    /// A composite was asked for a frame that does not exist.
    FrameIndexOutOfRange,
    /// A plugin lacks the capability for the kind of mutation it submitted.
    Unauthorized,
}

/// Row-major position of cell `(x, y)` in a grid `w` cells wide.
pub open spec fn cell_index(w: int, x: int, y: int) -> int {
    y * w + x
}

pub proof fn lemma_cell_index_bounds(w: int, h: int, x: int, y: int)
    requires
        0 <= x < w,
        0 <= y < h,
    ensures
        0 <= cell_index(w, x, y) < w * h,
{
    assert(0 <= y * w) by (nonlinear_arith)
        requires
            0 <= y,
            0 <= w,
    ;
    assert(y * w + w <= w * h) by (nonlinear_arith)
        requires
            y < h,
            0 <= w,
    ;
}

/// A width by height grid of colors, stored row by row.
#[derive(Debug)]
pub struct PixelBuffer {
    pub width: usize,
    pub height: usize,
    pub cells: Vec<Color>,
}

impl PixelBuffer {
    pub open spec fn wf(&self) -> bool {
        self.cells@.len() == self.width * self.height
    }

    /// A buffer of the given size, every cell transparent.
    pub fn new(width: usize, height: usize) -> (b: PixelBuffer)
        requires
            width * height <= usize::MAX,
        ensures
            b.wf(),
            b.width == width,
            b.height == height,
            b.cells@ == Seq::new((width * height) as nat, |i: int| transparent()),
    {
        let n: usize = width * height;
        let cells = filled_cells(n, Color::clear());
        PixelBuffer { width, height, cells }
    }

    /// The color at `(x, y)`, or `OutOfBounds`.
    pub fn get(&self, x: usize, y: usize) -> (r: Result<Color, EditorError>)
        requires
            self.wf(),
        ensures
            x < self.width && y < self.height ==> r == Ok::<Color, EditorError>(
                self.cells@[cell_index(self.width as int, x as int, y as int)],
            ),
            !(x < self.width && y < self.height) ==> r == Err::<Color, EditorError>(
                EditorError::OutOfBounds,
            ),
    {
        if x < self.width && y < self.height {
            proof {
                lemma_cell_index_bounds(self.width as int, self.height as int, x as int, y as int);
                assert(self.cells@.len() == self.cells.len());
            }
            Ok(self.cells[y * self.width + x])
        } else {
            Err(EditorError::OutOfBounds)
        }
    }

    /// Sets the color at `(x, y)`; out-of-range coordinates leave the buffer
    /// unchanged and fail with `OutOfBounds`.
    pub fn set(&mut self, x: usize, y: usize, c: Color) -> (r: Result<(), EditorError>)
        requires
            old(self).wf(),
        ensures
            final(self).wf(),
            final(self).width == old(self).width,
            final(self).height == old(self).height,
            x < old(self).width && y < old(self).height ==> r == Ok::<(), EditorError>(())
                && final(self).cells@ == old(self).cells@.update(
                cell_index(old(self).width as int, x as int, y as int),
                c,
            ),
            !(x < old(self).width && y < old(self).height) ==> r == Err::<(), EditorError>(
                EditorError::OutOfBounds,
            ) && final(self).cells@ == old(self).cells@,
    {
        if x < self.width && y < self.height {
            proof {
                lemma_cell_index_bounds(self.width as int, self.height as int, x as int, y as int);
                assert(self.cells@.len() == self.cells.len());
            }
            let i: usize = y * self.width + x;
            self.cells.set(i, c);
            Ok(())
        } else {
            Err(EditorError::OutOfBounds)
        }
    }
}

/// `n` cells of color `c`.
pub fn filled_cells(n: usize, c: Color) -> (v: Vec<Color>)
    ensures
        v@ == Seq::new(n as nat, |i: int| c),
{
    let mut v: Vec<Color> = Vec::new();
    let mut i: usize = 0;
    while i < n
        invariant
            i <= n,
            v@ == Seq::new(i as nat, |k: int| c),
        decreases n - i,
    {
        v.push(c);
        i = i + 1;
        assert(v@ =~= Seq::new(i as nat, |k: int| c));
    }
    v
}

/// A copy of `v`, element for element.
pub fn copy_cells(v: &Vec<Color>) -> (r: Vec<Color>)
    ensures
        r@ == v@,
{
    let mut r: Vec<Color> = Vec::new();
    let mut i: usize = 0;
    while i < v.len()
        invariant
            i <= v@.len(),
            r@ == v@.subrange(0, i as int),
        decreases v@.len() - i,
    {
        r.push(v[i]);
        i = i + 1;
        assert(r@ =~= v@.subrange(0, i as int));
    }
    assert(r@ =~= v@);
    r
}

/// Whether two color sequences are equal, cell for cell.
pub fn cells_equal(a: &Vec<Color>, b: &Vec<Color>) -> (r: bool)
    ensures
        r == (a@ == b@),
{
    if a.len() != b.len() {
        return false;
    }
    let mut i: usize = 0;
    while i < a.len()
        invariant
            a@.len() == b@.len(),
            i <= a@.len(),
            forall|k: int| 0 <= k < i ==> a@[k] == b@[k],
        decreases a@.len() - i,
    {
        if a[i] != b[i] {
            return false;
        }
        i = i + 1;
    }
    assert(a@ =~= b@);
    true
}

} // verus!
