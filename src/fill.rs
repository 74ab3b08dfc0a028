//! Flood fill over same-colored 4-neighborhoods.

use vstd::prelude::*;
use crate::document::{DocModel, Document, EditCommand, apply_spec, frame_fits, layer_fits};
use crate::pixel::{Color, EditorError, cell_index, copy_cells, lemma_cell_index_bounds};

verus! {

/// Cells `i` and `j` of a grid `w` cells wide and `n` cells in all share an
/// edge: `j` is left of, right of, above or below `i`.
pub open spec fn adjacent(w: int, n: int, i: int, j: int) -> bool {
    ||| (j == i - 1 && i > 0 && i % w != 0)
    ||| (j == i + 1 && j < n && j % w != 0)
    ||| (j == i - w && i >= w)
    ||| (j == i + w && j < n)
}

/// `path` walks from `start` through edge-sharing cells, all of color `t`.
pub open spec fn is_path(cells: Seq<Color>, w: int, t: Color, start: int, path: Seq<int>) -> bool {
    let n = cells.len() as int;
    &&& path.len() >= 1
    &&& path[0] == start
    &&& forall|k: int| 0 <= k < path.len() ==> 0 <= #[trigger] path[k] < n && cells[path[k]] == t
    &&& forall|k: int| 0 <= k < path.len() - 1 ==> adjacent(w, n, #[trigger] path[k], path[k + 1])
}

/// Cell `i` can be reached from `start` through cells of `start`'s color.
pub open spec fn reachable(cells: Seq<Color>, w: int, start: int, i: int) -> bool {
    exists|path: Seq<int>| is_path(cells, w, cells[start], start, path) && path.last() == i
}

proof fn lemma_reach_step(cells: Seq<Color>, w: int, start: int, p: int, q: int)
    requires
        reachable(cells, w, start, p),
        0 <= q < cells.len(),
        cells[q] == cells[start],
        adjacent(w, cells.len() as int, p, q as int),
    ensures
        reachable(cells, w, start, q),
{
    let path = choose|path: Seq<int>| is_path(cells, w, cells[start], start, path) && path.last() == p;
    let np = path.push(q);
    assert forall|k: int| 0 <= k < np.len() - 1 implies adjacent(w, cells.len() as int, #[trigger] np[k], np[k + 1]) by {
        if k < path.len() - 1 {
            assert(np[k] == path[k] && np[k + 1] == path[k + 1]);
        }
    }
    assert forall|k: int| 0 <= k < np.len() implies 0 <= #[trigger] np[k] < cells.len() && cells[np[k]] == cells[start] by {
        if k < path.len() {
            assert(np[k] == path[k]);
        }
    }
    assert(is_path(cells, w, cells[start], start, np) && np.last() == q);
}

/// Number of cells of color `t` in `s`.
pub open spec fn count_color(s: Seq<Color>, t: Color) -> nat
    decreases s.len(),
{
    if s.len() == 0 {
        0
    } else {
        count_color(s.drop_last(), t) + if s.last() == t {
            1nat
        } else {
            0nat
        }
    }
}

proof fn lemma_count_update(s: Seq<Color>, i: int, v: Color, t: Color)
    requires
        0 <= i < s.len(),
        s[i] == t,
        v != t,
    ensures
        count_color(s.update(i, v), t) + 1 == count_color(s, t),
    decreases s.len(),
{
    let u = s.update(i, v);
    if i == s.len() - 1 {
        assert(u.drop_last() =~= s.drop_last());
    } else {
        assert(u.drop_last() =~= s.drop_last().update(i, v));
        lemma_count_update(s.drop_last(), i, v, t);
    }
}

/// `r` is `cells` flood-filled with `color` from `start`: where the start
/// cell already has `color` nothing changes; otherwise the start cell is
/// filled, the cells that change are reachable from the start through cells
/// of its former color and become `color`, and no filled cell borders an
/// unfilled cell of that former color. So exactly the start's same-colored
/// 4-connected region is filled.
pub open spec fn is_flood_fill(cells: Seq<Color>, w: int, start: int, color: Color, r: Seq<Color>) -> bool {
    let n = cells.len() as int;
    let t = cells[start];
    &&& r.len() == n
    &&& t == color ==> r == cells
    &&& t != color ==> {
        &&& r[start] == color
        &&& forall|i: int|
            0 <= i < n && r[i] != cells[i] ==> cells[i] == t && r[i] == color && reachable(
                cells,
                w,
                start,
                i,
            )
        &&& forall|i: int, j: int|
            0 <= i < n && 0 <= j < n && cells[i] == t && r[i] == color && #[trigger] adjacent(
                w,
                n,
                i,
                j,
            ) && cells[j] == t ==> r[j] == color
    }
}

/// Every filled cell other than `skip` and those still on `stack` has no
/// unfilled neighbor of color `t`.
pub open spec fn closed_except(
    cells: Seq<Color>,
    after: Seq<Color>,
    stack: Seq<usize>,
    w: int,
    t: Color,
    color: Color,
    skip: int,
) -> bool {
    let n = cells.len() as int;
    forall|i: int, j: int|
        0 <= i < n && 0 <= j < n && cells[i] == t && after[i] == color && i != skip
            && !stack.contains(i as usize) && #[trigger] adjacent(w, n, i, j) && cells[j] == t
            ==> after[j] == color
}

/// The state of a fill in progress: cells change only from `t` to `color`,
/// and the stack holds distinct filled cells.
pub open spec fn fill_state(
    cells: Seq<Color>,
    after: Seq<Color>,
    stack: Seq<usize>,
    t: Color,
    color: Color,
    w: int,
    start: int,
) -> bool {
    let n = cells.len() as int;
    &&& 0 <= start < n
    &&& cells[start] == t
    &&& forall|i: int| 0 <= i < n && after[i] != cells[i] ==> #[trigger] reachable(cells, w, start, i)
    &&& after.len() == n
    &&& forall|i: int| 0 <= i < n ==> after[i] == cells[i] || (cells[i] == t && after[i] == color)
    &&& forall|k: int|
        0 <= k < stack.len() ==> stack[k] < n && after[stack[k] as int] == color && cells[stack[k] as int] == t
    &&& stack.no_duplicates()
}

/// Fills cell `q` and puts it on the stack if it still has color `t`.
fn visit(
    after: &mut Vec<Color>,
    stack: &mut Vec<usize>,
    q: usize,
    t: Color,
    color: Color,
    Ghost(cells): Ghost<Seq<Color>>,
    Ghost(w): Ghost<int>,
    Ghost(p): Ghost<int>,
    Ghost(start): Ghost<int>,
)
    requires
        q < cells.len(),
        0 <= p < cells.len(),
        old(after)@[p] != cells[p] || p == start,
        adjacent(w, cells.len() as int, p, q as int),
        t != color,
        fill_state(cells, old(after)@, old(stack)@, t, color, w, start),
        closed_except(cells, old(after)@, old(stack)@, w, t, color, p),
    ensures
        fill_state(cells, final(after)@, final(stack)@, t, color, w, start),
        closed_except(cells, final(after)@, final(stack)@, w, t, color, p),
        final(after)@[q as int] != t,
        forall|i: int|
            0 <= i < cells.len() && old(after)@[i] != t ==> #[trigger] final(after)@[i] == old(
                after,
            )@[i],
        final(stack)@.len() + 5 * count_color(final(after)@, t) <= old(stack)@.len() + 5 * count_color(old(after)@, t),
{
    if after[q] == t {
        proof {
            lemma_count_update(after@, q as int, color, t);
            assert(!stack@.contains(q)) by {
                if stack@.contains(q) {
                    let k = choose|k: int| 0 <= k < stack@.len() && stack@[k] == q;
                }
            }
        }
        proof {
            if p == start {
                let path = seq![start];
                assert(is_path(cells, w, cells[start], start, path) && path.last() == start);
            }
            lemma_reach_step(cells, w, start, p, q as int);
        }
        after.set(q, color);
        stack.push(q);
        proof {
            let s = stack@;
            assert forall|k: int| 0 <= k < s.len() implies s[k] < cells.len() && after@[s[k] as int] == color && cells[s[k] as int] == t by {
                if k < s.len() - 1 {
                    assert(s[k] == old(stack)@[k]);
                }
            }
            assert forall|a: int, b: int| 0 <= a < s.len() && 0 <= b < s.len() && a != b implies s[a] != s[b] by {
                if a < s.len() - 1 && b < s.len() - 1 {
                    assert(s[a] == old(stack)@[a] && s[b] == old(stack)@[b]);
                } else if a < s.len() - 1 {
                    assert(old(stack)@.contains(s[a]) ==> s[a] != q);
                    assert(old(stack)@[a] == s[a]);
                } else {
                    assert(old(stack)@[b] == s[b]);
                }
            }
            let n = cells.len() as int;
            assert forall|i: int, j: int|
                0 <= i < n && 0 <= j < n && cells[i] == t && after@[i] == color && i != p
                    && !s.contains(i as usize) && #[trigger] adjacent(w, n, i, j) && cells[j] == t
                    implies after@[j] == color by {
                assert(s[s.len() - 1] == q);
                assert(i != q);
                assert forall|k: int| 0 <= k < old(stack)@.len() implies old(stack)@[k] != i as usize by {
                    assert(s[k] == old(stack)@[k]);
                }
            }
        }
    }
}

/// Flood-fills a grid `w` cells wide from cell `start`.
pub fn flood_fill_cells(cells: &Vec<Color>, w: usize, start: usize, color: Color) -> (r: Vec<Color>)
    requires
        start < cells@.len(),
        w > 0,
    ensures
        is_flood_fill(cells@, w as int, start as int, color, r@),
{
    let n = cells.len();
    let t = cells[start];
    let mut after = copy_cells(cells);
    if t == color {
        return after;
    }
    after.set(start, color);
    let mut stack: Vec<usize> = Vec::new();
    stack.push(start);
    proof {
        assert(stack@ =~= seq![start]);
        assert(stack@[0] == start);
        let path = seq![start as int];
        assert(is_path(cells@, w as int, cells@[start as int], start as int, path) && path.last() == start as int);
        assert forall|i: int| 0 <= i < n && after@[i] != cells@[i] implies #[trigger] reachable(cells@, w as int, start as int, i) by {
            assert(i == start as int);
        }
        assert forall|i: int, j: int|
            0 <= i < n && 0 <= j < n && cells@[i] == t && after@[i] == color && i != -1
                && !stack@.contains(i as usize) && #[trigger] adjacent(w as int, n as int, i, j)
                && cells@[j] == t implies after@[j] == color by {
            if i != start as int {
                assert(after@[i] == cells@[i]);
            }
        }
    }
    while stack.len() > 0
        invariant
            n == cells@.len(),
            start < n,
            t == cells@[start as int],
            t != color,
            w > 0,
            after@[start as int] == color,
            fill_state(cells@, after@, stack@, t, color, w as int, start as int),
            closed_except(cells@, after@, stack@, w as int, t, color, -1),
        decreases 5 * count_color(after@, t) + stack@.len(),
    {
        let ghost s0 = stack@;
        let p = stack.pop().unwrap();
        proof {
            let s1 = stack@;
            assert(s0 == s1.push(p));
            assert forall|k: int| 0 <= k < s1.len() implies s1[k] != p by {
                assert(s0[k] == s1[k]);
                assert(s0[s1.len() as int] == p);
            }
            assert forall|k: int| 0 <= k < s1.len() implies s1[k] < n && after@[s1[k] as int] == color && cells@[s1[k] as int] == t by {
                assert(s0[k] == s1[k]);
            }
            assert forall|a: int, b: int| 0 <= a < s1.len() && 0 <= b < s1.len() && a != b implies s1[a] != s1[b] by {
                assert(s0[a] == s1[a] && s0[b] == s1[b]);
            }
            assert forall|i: int, j: int|
                0 <= i < n && 0 <= j < n && cells@[i] == t && after@[i] == color && i != p as int
                    && !s1.contains(i as usize) && #[trigger] adjacent(w as int, n as int, i, j) && cells@[j] == t
                    implies after@[j] == color by {
                assert forall|k: int| 0 <= k < s0.len() implies s0[k] != i as usize by {
                    if k < s1.len() {
                        assert(s0[k] == s1[k]);
                    }
                }
            }
        }
        let ghost a0 = after@;
        if p > 0 && p % w != 0 {
            visit(&mut after, &mut stack, p - 1, t, color, Ghost(cells@), Ghost(w as int), Ghost(p as int), Ghost(start as int));
        }
        if p + 1 < n && (p + 1) % w != 0 {
            visit(&mut after, &mut stack, p + 1, t, color, Ghost(cells@), Ghost(w as int), Ghost(p as int), Ghost(start as int));
        }
        if p >= w {
            visit(&mut after, &mut stack, p - w, t, color, Ghost(cells@), Ghost(w as int), Ghost(p as int), Ghost(start as int));
        }
        if w <= n && p < n - w {
            visit(&mut after, &mut stack, p + w, t, color, Ghost(cells@), Ghost(w as int), Ghost(p as int), Ghost(start as int));
        }
        proof {
            assert(after@[p as int] == color);
            assert forall|i: int, j: int|
                0 <= i < n && 0 <= j < n && cells@[i] == t && after@[i] == color
                    && !stack@.contains(i as usize) && #[trigger] adjacent(w as int, n as int, i, j) && cells@[j] == t
                    implies after@[j] == color by {
                if i == p as int {
                    assert(after@[j] != t);
                }
            }
        }
    }
    proof {
        assert forall|i: int, j: int|
            0 <= i < n && 0 <= j < n && cells@[i] == t && after@[i] == color && #[trigger] adjacent(
                w as int,
                n as int,
                i,
                j,
            ) && cells@[j] == t implies after@[j] == color by {
            assert(!stack@.contains(i as usize));
        }
    }
    after
}

/// `c` paints onto layer `cursor` of `d` the flood fill with `color` from
/// cell `(x, y)`.
pub open spec fn is_fill_command(d: DocModel, x: int, y: int, color: Color, c: EditCommand) -> bool {
    let cells = d.frames[d.cursor.frame as int][d.cursor.layer as int].cells;
    match c {
        EditCommand::Paint { frame, layer, before, after } => {
            &&& frame == d.cursor.frame
            &&& layer == d.cursor.layer
            &&& before@ == cells
            &&& is_flood_fill(cells, d.width as int, cell_index(d.width as int, x, y), color, after@)
        },
        _ => false,
    }
}

/// The fill of the current layer from `(x, y)` with `color`, as a command:
/// `OutOfBounds` off the canvas, and no command where the cell already has
/// that color.
pub fn fill_command(doc: &Document, x: usize, y: usize, color: Color) -> (r: Result<
    Option<EditCommand>,
    EditorError,
>)
    requires
        doc.wf(),
    ensures
        !(x < doc@.width && y < doc@.height) ==> r == Err::<Option<EditCommand>, EditorError>(
            EditorError::OutOfBounds,
        ),
        x < doc@.width && y < doc@.height ==> r is Ok && {
            let cells = doc@.frames[doc@.cursor.frame as int][doc@.cursor.layer as int].cells;
            let s = cell_index(doc@.width as int, x as int, y as int);
            &&& cells[s] == color ==> r->Ok_0 is None
            &&& cells[s] != color ==> r->Ok_0 is Some && is_fill_command(
                doc@,
                x as int,
                y as int,
                color,
                r->Ok_0->Some_0,
            ) && apply_spec(doc@, r->Ok_0->Some_0) is Ok
        },
{
    let w = doc.width();
    let h = doc.height();
    if !(x < w && y < h) {
        return Err(EditorError::OutOfBounds);
    }
    let cur = doc.cursor();
    let frames = doc.frames();
    let ghost d = doc@;
    proof {
        assert(frame_fits(d.frames[cur.frame as int], w, h));
        assert(layer_fits(d.frames[cur.frame as int][cur.layer as int], w, h));
        lemma_cell_index_bounds(w as int, h as int, x as int, y as int);
        assert(frames@[cur.frame as int].layers@[cur.layer as int].pixels.cells@ == d.frames[cur.frame as int][cur.layer as int].cells);
    }
    let cells = &frames[cur.frame].layers[cur.layer].pixels.cells;
    assert(cells@.len() == cells.len());
    let start = y * w + x;
    if cells[start] == color {
        return Ok(None);
    }
    let after = flood_fill_cells(cells, w, start, color);
    let before = copy_cells(cells);
    Ok(Some(EditCommand::Paint { frame: cur.frame, layer: cur.layer, before, after }))
}

proof fn lemma_index_facts(w: int, h: int, x: int, y: int)
    requires
        w > 0,
        0 <= x < w,
        0 <= y < h,
    ensures
        0 <= y * w + x < w * h,
        (y * w + x) % w == x,
        (y * w + x) / w == y,
        y * w + x >= w <==> y >= 1,
        (y + 1) * w + x == y * w + x + w,
{
    vstd::arithmetic::div_mod::lemma_fundamental_div_mod_converse(y * w + x, w, y, x);
    assert(0 <= y * w + x < w * h) by (nonlinear_arith)
        requires
            w > 0,
            0 <= x < w,
            0 <= y < h,
    ;
    assert(y * w + x >= w <==> y >= 1) by (nonlinear_arith)
        requires
            w > 0,
            0 <= x < w,
            0 <= y,
    ;
    assert((y + 1) * w + x == y * w + x + w) by (nonlinear_arith);
}

proof fn lemma_row_right(cells: Seq<Color>, w: int, h: int, start: int, color: Color, r: Seq<Color>, y: int, x0: int, x: int)
    requires
        w > 0,
        cells.len() == w * h,
        0 <= start < cells.len(),
        forall|i: int| 0 <= i < cells.len() ==> cells[i] == cells[start],
        cells[start] != color,
        is_flood_fill(cells, w, start, color, r),
        0 <= y < h,
        0 <= x0 <= x < w,
        r[y * w + x0] == color,
    ensures
        r[y * w + x] == color,
    decreases x - x0,
{
    if x > x0 {
        lemma_row_right(cells, w, h, start, color, r, y, x0, x - 1);
        lemma_index_facts(w, h, x, y);
        lemma_index_facts(w, h, x - 1, y);
        assert(adjacent(w, cells.len() as int, y * w + x - 1, y * w + x));
    }
}

proof fn lemma_row_left(cells: Seq<Color>, w: int, h: int, start: int, color: Color, r: Seq<Color>, y: int, x0: int, x: int)
    requires
        w > 0,
        cells.len() == w * h,
        0 <= start < cells.len(),
        forall|i: int| 0 <= i < cells.len() ==> cells[i] == cells[start],
        cells[start] != color,
        is_flood_fill(cells, w, start, color, r),
        0 <= y < h,
        0 <= x <= x0 < w,
        r[y * w + x0] == color,
    ensures
        r[y * w + x] == color,
    decreases x0 - x,
{
    if x < x0 {
        lemma_row_left(cells, w, h, start, color, r, y, x0, x + 1);
        lemma_index_facts(w, h, x, y);
        lemma_index_facts(w, h, x + 1, y);
        assert(adjacent(w, cells.len() as int, y * w + x + 1, y * w + x));
    }
}

proof fn lemma_column(cells: Seq<Color>, w: int, h: int, start: int, color: Color, r: Seq<Color>, x: int, y0: int, y: int)
    requires
        w > 0,
        cells.len() == w * h,
        0 <= start < cells.len(),
        forall|i: int| 0 <= i < cells.len() ==> cells[i] == cells[start],
        cells[start] != color,
        is_flood_fill(cells, w, start, color, r),
        0 <= x < w,
        0 <= y0 < h,
        0 <= y < h,
        r[y0 * w + x] == color,
    ensures
        r[y * w + x] == color,
    decreases if y > y0 {
        y - y0
    } else {
        y0 - y
    },
{
    if y > y0 {
        lemma_column(cells, w, h, start, color, r, x, y0, y - 1);
        lemma_index_facts(w, h, x, y);
        lemma_index_facts(w, h, x, y - 1);
        assert(adjacent(w, cells.len() as int, (y - 1) * w + x, y * w + x));
    } else if y < y0 {
        lemma_column(cells, w, h, start, color, r, x, y0, y + 1);
        lemma_index_facts(w, h, x, y);
        lemma_index_facts(w, h, x, y + 1);
        assert(adjacent(w, cells.len() as int, (y + 1) * w + x, y * w + x));
    }
}

/// A flood fill of a buffer of one uniform color, with a different color,
/// fills every cell.
pub proof fn lemma_uniform_fill_covers(cells: Seq<Color>, w: int, h: int, start: int, color: Color, r: Seq<Color>)
    requires
        w > 0,
        cells.len() == w * h,
        0 <= start < cells.len(),
        forall|i: int| 0 <= i < cells.len() ==> cells[i] == cells[start],
        cells[start] != color,
        is_flood_fill(cells, w, start, color, r),
    ensures
        forall|i: int| 0 <= i < cells.len() ==> r[i] == color,
{
    let sx = start % w;
    let sy = start / w;
    assert(start == sy * w + sx && 0 <= sx < w && 0 <= sy < h) by (nonlinear_arith)
        requires
            w > 0,
            0 <= start < w * h,
            sx == start % w,
            sy == start / w,
    ;
    assert forall|i: int| 0 <= i < cells.len() implies r[i] == color by {
        let x = i % w;
        let y = i / w;
        assert(i == y * w + x && 0 <= x < w && 0 <= y < h) by (nonlinear_arith)
            requires
                w > 0,
                0 <= i < w * h,
                x == i % w,
                y == i / w,
        ;
        if x >= sx {
            lemma_row_right(cells, w, h, start, color, r, sy, sx, x);
        } else {
            lemma_row_left(cells, w, h, start, color, r, sy, sx, x);
        }
        lemma_column(cells, w, h, start, color, r, x, sy, y);
    }
}

} // verus!
