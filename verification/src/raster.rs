//! What the line, triangle and wireframe routines of the panel driver send:
//! spans clipped to the 240-pixel-wide screen, Bresenham lines batched per
//! scanline, and 16.16 fixed-point triangle scanlines.
//!
//! Each routine's transfers are given by a function that returns `None`
//! exactly on the inputs on which the routine's integer arithmetic would
//! overflow or its clipped span would be negative, which the driver rejects
//! by its `requires`.
use vstd::prelude::*;
use crate::ops::OpView;
use crate::st7789::{window_ops, solid, pixel_byte, hi, lo};

verus! {

/// Whether `v` fits in an `i16`.
pub open spec fn fits_i16(v: int) -> bool {
    i16::MIN <= v <= i16::MAX
}

/// Whether `v` fits in an `i32`.
pub open spec fn fits_i32(v: int) -> bool {
    i32::MIN <= v <= i32::MAX
}

pub open spec fn min_int(a: int, b: int) -> int {
    if a < b {
        a
    } else {
        b
    }
}

pub open spec fn max_int(a: int, b: int) -> int {
    if a > b {
        a
    } else {
        b
    }
}

/// Transfers that paint the horizontal span between `xa` and `xb` on row
/// `y`, clipped to columns 0..=239; nothing for rows off the screen or an
/// empty clipped span; `None` when the clipped span has negative length
/// (the span lies more than one pixel left of or right of the screen).
pub open spec fn span_ops(y: int, xa: int, xb: int, color: u16) -> Option<Seq<OpView>> {
    if y < 0 || y >= 240 {
        Some(Seq::empty())
    } else {
        let l = max_int(min_int(xa, xb), 0);
        let r = min_int(max_int(xa, xb), 239);
        let count = r - l + 1;
        if count < 0 {
            None
        } else if count == 0 {
            Some(Seq::empty())
        } else {
            Some(
                window_ops(l as u16, y as u16, r as u16, y as u16) + seq![
                    OpView::Data(solid(count as nat, color)),
                ],
            )
        }
    }
}

/// `a + b` where both are present.
pub open spec fn cat(a: Option<Seq<OpView>>, b: Option<Seq<OpView>>) -> Option<Seq<OpView>> {
    match (a, b) {
        (Some(x), Some(y)) => Some(x + y),
        _ => None,
    }
}

/// The constants of one Bresenham run towards `(x1, y1)`.
pub struct LineParams {
    pub x1: int,
    pub y1: int,
    pub dx: int,
    pub dy: int,
    pub sx: int,
    pub sy: int,
    pub color: u16,
}

/// The position, error term and open scanline batch of a Bresenham run.
pub struct LineState {
    pub x: int,
    pub y: int,
    pub err: int,
    pub batch_y: int,
    pub batch_min: int,
    pub batch_max: int,
}

/// The batch after taking in the current pixel, and the span (if any)
/// that a change of row closes.
pub open spec fn line_batch(p: LineParams, s: LineState) -> (Option<Seq<OpView>>, LineState) {
    if s.y == s.batch_y {
        (
            Some(Seq::empty()),
            LineState {
                batch_min: min_int(s.batch_min, s.x),
                batch_max: max_int(s.batch_max, s.x),
                ..s
            },
        )
    } else {
        (
            span_ops(s.batch_y, s.batch_min, s.batch_max, p.color),
            LineState { batch_y: s.y, batch_min: s.x, batch_max: s.x, ..s },
        )
    }
}

/// One Bresenham step from a state that is not the end point; `None` when
/// the doubled error term or an updated error term leaves `i16`.
pub open spec fn line_advance(p: LineParams, s: LineState) -> Option<LineState> {
    let e2 = 2 * s.err;
    let err1 = if e2 >= p.dy {
        s.err + p.dy
    } else {
        s.err
    };
    let x = if e2 >= p.dy {
        s.x + p.sx
    } else {
        s.x
    };
    let err2 = if e2 <= p.dx {
        err1 + p.dx
    } else {
        err1
    };
    let y = if e2 <= p.dx {
        s.y + p.sy
    } else {
        s.y
    };
    if fits_i16(e2) && fits_i16(err1) && fits_i16(err2) {
        Some(LineState { x, y, err: err2, ..s })
    } else {
        None
    }
}

/// The transfers of the rest of a Bresenham run, given at most `fuel` more
/// steps.
pub open spec fn line_run(p: LineParams, s: LineState, fuel: nat) -> Option<Seq<OpView>>
    decreases fuel,
{
    if fuel == 0 {
        None
    } else {
        let (closed, b) = line_batch(p, s);
        if s.x == p.x1 && s.y == p.y1 {
            cat(closed, span_ops(b.batch_y, b.batch_min, b.batch_max, p.color))
        } else {
            match line_advance(p, b) {
                Some(n) => cat(closed, line_run(p, n, (fuel - 1) as nat)),
                None => None,
            }
        }
    }
}

pub open spec fn abs_int(v: int) -> int {
    if v < 0 {
        -v
    } else {
        v
    }
}

/// The constants of the run from `(x0, y0)` to `(x1, y1)`.
pub open spec fn line_params(x0: i16, y0: i16, x1: i16, y1: i16, color: u16) -> LineParams {
    LineParams {
        x1: x1 as int,
        y1: y1 as int,
        dx: abs_int(x1 - x0),
        dy: -abs_int(y1 - y0),
        sx: if x0 < x1 {
            1
        } else {
            -1
        },
        sy: if y0 < y1 {
            1
        } else {
            -1
        },
        color,
    }
}

/// The transfers of `draw_line` from `(x0, y0)` to `(x1, y1)`: the pixels
/// of the Bresenham line, one span per run of pixels on the same row; `None`
/// where the `i16` arithmetic of the line overflows or a span is rejected.
pub open spec fn line_ops(x0: i16, y0: i16, x1: i16, y1: i16, color: u16) -> Option<
    Seq<OpView>,
> {
    let ddx = x1 - x0;
    let ddy = y1 - y0;
    if !fits_i16(ddx) || !fits_i16(ddy) || ddx == i16::MIN || ddy == i16::MIN {
        None
    } else {
        let p = line_params(x0, y0, x1, y1, color);
        line_run(
            p,
            LineState {
                x: x0 as int,
                y: y0 as int,
                err: p.dx + p.dy,
                batch_y: y0 as int,
                batch_min: x0 as int,
                batch_max: x0 as int,
            },
            (p.dx - p.dy + 1) as nat,
        )
    }
}

/// Integer division rounding towards zero, as Rust's `/` does.
pub open spec fn tdiv(a: int, b: int) -> int {
    let q = abs_int(a) / abs_int(b);
    if (a >= 0) == (b >= 0) {
        q
    } else {
        -q
    }
}

/// `v` reduced to 32 bits, as a left shift of an `i32` leaves it.
pub open spec fn wrap_i32(v: int) -> int {
    (v as i32) as int
}

/// The three vertices ordered by `y` with the compare-and-swap network
/// (0,1), (0,2), (1,2), ties keeping their order.
pub open spec fn sort3(v0: (int, int), v1: (int, int), v2: (int, int)) -> ((int, int), (int, int), (int, int)) {
    let (a, b) = if v0.1 > v1.1 {
        (v1, v0)
    } else {
        (v0, v1)
    };
    let (a2, c) = if a.1 > v2.1 {
        (v2, a)
    } else {
        (a, v2)
    };
    let (b2, c2) = if b.1 > c.1 {
        (c, b)
    } else {
        (b, c)
    };
    (a2, b2, c2)
}

/// The 16.16 fixed-point slope from `(xa, ya)` to `(xb, yb)`, or 0 for a
/// flat edge.
pub open spec fn slope(xa: int, ya: int, xb: int, yb: int) -> int {
    if yb != ya {
        tdiv(wrap_i32((xb - xa) * 65536), yb - ya)
    } else {
        0
    }
}

/// The transfers of the scanlines `y..stop` of a triangle whose two edges
/// are at `xa` and `xb` (16.16 fixed point) on row `y` and advance by `da`
/// and `db` per row, together with the first edge's position after the
/// last row; `None` on an `i32` overflow or a rejected span.
pub open spec fn tri_rows(y: int, stop: int, xa: int, xb: int, da: int, db: int, color: u16) -> Option<
    (Seq<OpView>, int),
>
    decreases stop - y,
{
    if y >= stop {
        Some((Seq::empty(), xa))
    } else {
        let here = if 0 <= y < 240 {
            span_ops(y, xa / 65536, xb / 65536, color)
        } else {
            Some(Seq::empty())
        };
        if here is None || !fits_i32(xa + da) || !fits_i32(xb + db) {
            None
        } else {
            match tri_rows(y + 1, stop, xa + da, xb + db, da, db, color) {
                Some((rest, xf)) => Some((here.unwrap() + rest, xf)),
                None => None,
            }
        }
    }
}

/// `e` followed by the transfers of `r`, keeping `r`'s end position.
pub open spec fn prepend(e: Seq<OpView>, r: Option<(Seq<OpView>, int)>) -> Option<(Seq<OpView>, int)> {
    match r {
        Some((s, x)) => Some((e + s, x)),
        None => None,
    }
}

/// The transfers of `fill_triangle`: the vertices sorted by `y`, the rows
/// from the top vertex down to (not including) the middle one spanning the
/// long edge and the upper short edge, then the rows from the middle vertex
/// down to the bottom one (inclusive) spanning the long edge and the lower
/// short edge; nothing for a triangle of zero height.
pub open spec fn triangle_ops(
    x0: i16,
    y0: i16,
    x1: i16,
    y1: i16,
    x2: i16,
    y2: i16,
    color: u16,
) -> Option<Seq<OpView>> {
    let (a, b, c) = sort3((x0 as int, y0 as int), (x1 as int, y1 as int), (x2 as int, y2 as int));
    if a.1 == c.1 {
        Some(Seq::empty())
    } else {
        let dac = slope(a.0, a.1, c.0, c.1);
        let dab = slope(a.0, a.1, b.0, b.1);
        let dbc = slope(b.0, b.1, c.0, c.1);
        match tri_rows(a.1, b.1, a.0 * 65536, a.0 * 65536, dac, dab, color) {
            Some((top, xac)) => match tri_rows(b.1, c.1 + 1, xac, b.0 * 65536, dac, dbc, color) {
                Some((bottom, _)) => Some(top + bottom),
                None => None,
            },
            None => None,
        }
    }
}

/// The transfers of two triangles that share the quadrilateral's first
/// corner: corners 0, 1, 2 and corners 0, 2, 3.
pub open spec fn quad_ops(pts: [[i16; 2]; 4], color: u16) -> Option<Seq<OpView>> {
    cat(
        triangle_ops(pts[0][0], pts[0][1], pts[1][0], pts[1][1], pts[2][0], pts[2][1], color),
        triangle_ops(pts[0][0], pts[0][1], pts[2][0], pts[2][1], pts[3][0], pts[3][1], color),
    )
}

/// The transfers of the line for one wireframe edge, whose ends index the
/// projected points.
pub open spec fn edge_line_ops(e: (usize, usize), proj: [[i16; 2]; 8], color: u16) -> Option<
    Seq<OpView>,
> {
    if e.0 < 8 && e.1 < 8 {
        line_ops(proj[e.0 as int][0], proj[e.0 as int][1], proj[e.1 as int][0], proj[e.1 as int][1], color)
    } else {
        None
    }
}

/// The transfers of the lines for the first `n` edges, in order.
pub open spec fn edge_lines_ops(edges: [(usize, usize); 12], n: int, proj: [[i16; 2]; 8], color: u16) -> Option<
    Seq<OpView>,
>
    decreases n,
{
    if n <= 0 {
        Some(Seq::empty())
    } else {
        cat(edge_lines_ops(edges, n - 1, proj, color), edge_line_ops(edges[n - 1], proj, color))
    }
}

/// When the lines of the first `n` edges can be drawn, so can those of any
/// shorter prefix.
pub proof fn lemma_edge_lines_prefix(
    edges: [(usize, usize); 12],
    n: int,
    m: int,
    proj: [[i16; 2]; 8],
    color: u16,
)
    requires
        0 <= m <= n,
        edge_lines_ops(edges, n, proj, color) is Some,
    ensures
        edge_lines_ops(edges, m, proj, color) is Some,
    decreases n - m,
{
    if m < n {
        lemma_edge_lines_prefix(edges, n - 1, m, proj, color);
    }
}

/// Whether the edge from `(ax, ay)` to `(bx, by)` marks column `px` of
/// screen row `sy`: a flat edge marks every column between its ends, any
/// other edge the one column where it crosses the row (its `x` at that row,
/// rounded towards the first end).
pub open spec fn edge_marks(ax: int, ay: int, bx: int, b_y: int, sy: int, px: int) -> bool {
    &&& min_int(ay, b_y) <= sy <= max_int(ay, b_y)
    &&& if ay == b_y {
        min_int(ax, bx) <= px <= max_int(ax, bx)
    } else {
        px == ((ax + tdiv((bx - ax) * (sy - ay), b_y - ay)) as i16) as int
    }
}

/// Whether the crossing of the edge with screen row `sy` is computed
/// without `i32` overflow.
pub open spec fn edge_row_fits(ax: int, ay: int, bx: int, b_y: int, sy: int) -> bool {
    min_int(ay, b_y) <= sy <= max_int(ay, b_y) && ay != b_y ==> {
        &&& fits_i32((bx - ax) * (sy - ay))
        &&& fits_i32(ax + tdiv((bx - ax) * (sy - ay), b_y - ay))
    }
}

/// The projected point `i`.
pub open spec fn proj_pt(proj: [[i16; 2]; 8], i: usize) -> (int, int) {
    (proj[i as int][0] as int, proj[i as int][1] as int)
}

/// Whether one of the first `n` edges marks column `px` of row `sy`.
pub open spec fn marked(edges: [(usize, usize); 12], n: int, proj: [[i16; 2]; 8], sy: int, px: int) -> bool
    decreases n,
{
    if n <= 0 {
        false
    } else {
        marked(edges, n - 1, proj, sy, px) || {
            let a = proj_pt(proj, edges[n - 1].0);
            let b = proj_pt(proj, edges[n - 1].1);
            edge_marks(a.0, a.1, b.0, b.1, sy, px)
        }
    }
}

/// Screen row `row` of the rectangle starting at row `ry`, computed in
/// `i16` as the driver does.
pub open spec fn rect_screen_y(ry: u16, row: int) -> int {
    (ry as i16) as int + (row as i16) as int
}

/// The pixel bytes of row `row` of the rectangle: edge colour where some
/// edge marks the column, background elsewhere.
pub open spec fn edges_row(
    rx: u16,
    ry: u16,
    rw: u16,
    row: int,
    edges: [(usize, usize); 12],
    proj: [[i16; 2]; 8],
    bg: u16,
    fg: u16,
) -> Seq<u8> {
    Seq::new(
        2 * rw as nat,
        |i: int|
            pixel_byte(
                if marked(edges, 12, proj, rect_screen_y(ry, row), (rx as i16) + i / 2) {
                    fg
                } else {
                    bg
                },
                i,
            ),
    )
}

/// Whether `draw_edges_in_rect` runs without overflow or an out-of-range
/// index: its window corners fit in `u16`, the rectangle is at most as wide
/// as the scratch row, its right end and its rows fit in `i16`, every edge
/// indexes a projected point, and every crossing is computed in `i32`.
pub open spec fn edges_rect_fits(
    rx: u16,
    ry: u16,
    rw: u16,
    rh: u16,
    edges: [(usize, usize); 12],
    proj: [[i16; 2]; 8],
) -> bool {
    rw == 0 || rh == 0 || {
        &&& rx + rw <= u16::MAX
        &&& ry + rh <= u16::MAX
        &&& rw <= 240
        &&& fits_i16((rx as i16) + rw)
        &&& forall|k: int| 0 <= k < 12 ==> #[trigger] edges[k].0 < 8 && edges[k].1 < 8
        &&& forall|row: int| 0 <= row < rh ==> fits_i16(#[trigger] rect_screen_y(ry, row))
        &&& forall|row: int, k: int|
            #![trigger rect_screen_y(ry, row), edges[k]]
            0 <= row < rh && 0 <= k < 12 ==> edge_row_fits(
                proj_pt(proj, edges[k].0).0,
                proj_pt(proj, edges[k].0).1,
                proj_pt(proj, edges[k].1).0,
                proj_pt(proj, edges[k].1).1,
                rect_screen_y(ry, row),
            )
    }
}

/// The transfers of `draw_edges_in_rect`.
pub open spec fn edges_rect_ops(
    rx: u16,
    ry: u16,
    rw: u16,
    rh: u16,
    edges: [(usize, usize); 12],
    proj: [[i16; 2]; 8],
    bg: u16,
    fg: u16,
) -> Seq<OpView> {
    if rw == 0 || rh == 0 {
        Seq::empty()
    } else {
        window_ops(rx, ry, (rx + rw - 1) as u16, (ry + rh - 1) as u16) + Seq::new(
            rh as nat,
            |row: int| OpView::Data(edges_row(rx, ry, rw, row, edges, proj, bg, fg)),
        )
    }
}

/// The quotient that `i32::checked_div` computes, as vstd specifies it.
pub open spec fn checked_quotient(x: int, d: int) -> int {
    if x == 0 {
        0
    } else if x > 0 && d > 0 {
        x / d
    } else if x < 0 && d < 0 {
        ((x * -1) / (d * -1))
    } else if x < 0 {
        ((x * -1) / d) * -1
    } else {
        (x / (d * -1)) * -1
    }
}

/// The crossing of a non-flat edge with a row between its ends, `f * g / d`
/// with `|g| <= |d|`, is a truncated quotient that fits in `i32`.
pub proof fn lemma_crossing_quotient(f: int, g: int, d: int)
    requires
        -65535 <= f <= 65535,
        d != 0,
        abs_int(g) <= abs_int(d),
        fits_i32(f * g),
    ensures
        checked_quotient(f * g, d) == tdiv(f * g, d),
        fits_i32(tdiv(f * g, d)),
{
    let n = f * g;
    let q = abs_int(n) / abs_int(d);
    assert(abs_int(n) == abs_int(f) * abs_int(g)) by (nonlinear_arith)
        requires
            n == f * g,
    ;
    if abs_int(d) == 1 {
        assert(abs_int(f) * abs_int(g) <= 65535) by (nonlinear_arith)
            requires
                abs_int(f) <= 65535,
                abs_int(g) <= 1,
                abs_int(g) >= 0,
        ;
        assert(q == abs_int(n));
    } else {
        assert(q <= abs_int(n) / 2) by (nonlinear_arith)
            requires
                q == abs_int(n) / abs_int(d),
                abs_int(d) >= 2,
                abs_int(n) >= 0,
        ;
    }
}

/// The Bresenham error term after `i` horizontal and `j` vertical steps of
/// a run with `dxa` horizontal and `dya` vertical extent.
pub open spec fn bresenham_err(dxa: int, dya: int, i: int, j: int) -> int {
    dxa * (j + 1) - dya * (i + 1)
}

/// A Bresenham run never steps past its end point: from a position short of
/// the end, a horizontal step happens only while columns remain, a vertical
/// step only while rows remain, and at least one of the two happens.
pub proof fn lemma_bresenham_step(dxa: int, dya: int, i: int, j: int)
    requires
        0 <= i <= dxa,
        0 <= j <= dya,
        !(i == dxa && j == dya),
    ensures
        2 * bresenham_err(dxa, dya, i, j) >= -dya ==> i < dxa,
        2 * bresenham_err(dxa, dya, i, j) <= dxa ==> j < dya,
        2 * bresenham_err(dxa, dya, i, j) >= -dya || 2 * bresenham_err(dxa, dya, i, j) <= dxa,
        bresenham_err(dxa, dya, i, j) - dya == bresenham_err(dxa, dya, i + 1, j),
        bresenham_err(dxa, dya, i, j) + dxa == bresenham_err(dxa, dya, i, j + 1),
{
    assert(dya * (i + 2) == dya * (i + 1) + dya) by (nonlinear_arith);
    assert(dxa * (j + 2) == dxa * (j + 1) + dxa) by (nonlinear_arith);
    if i == dxa {
        assert(dxa * (j + 1) <= dxa * dya) by (nonlinear_arith)
            requires
                j + 1 <= dya,
                0 <= dxa,
        ;
        assert(dya * (i + 1) == dya * dxa + dya) by (nonlinear_arith)
            requires
                i == dxa,
        ;
        assert(dxa * dya == dya * dxa) by (nonlinear_arith);
    }
    if j == dya {
        assert(dya * (i + 1) <= dya * dxa) by (nonlinear_arith)
            requires
                i + 1 <= dxa,
                0 <= dya,
        ;
        assert(dxa * (j + 1) == dxa * dya + dxa) by (nonlinear_arith)
            requires
                j == dya,
        ;
        assert(dxa * dya == dya * dxa) by (nonlinear_arith);
    }
}

/// A triangle whose corners lie on three different rows is filled the same
/// whichever order its corners are given in.
pub proof fn lemma_triangle_order(
    x0: i16,
    y0: i16,
    x1: i16,
    y1: i16,
    x2: i16,
    y2: i16,
    color: u16,
)
    requires
        y0 != y1,
        y1 != y2,
        y0 != y2,
    ensures
        triangle_ops(x0, y0, x1, y1, x2, y2, color) == triangle_ops(x1, y1, x0, y0, x2, y2, color),
        triangle_ops(x0, y0, x1, y1, x2, y2, color) == triangle_ops(x0, y0, x2, y2, x1, y1, color),
        triangle_ops(x0, y0, x1, y1, x2, y2, color) == triangle_ops(x2, y2, x0, y0, x1, y1, color),
{
    let a = (x0 as int, y0 as int);
    let b = (x1 as int, y1 as int);
    let c = (x2 as int, y2 as int);
    assert(sort3(a, b, c) == sort3(b, a, c));
    assert(sort3(a, b, c) == sort3(a, c, b));
    assert(sort3(a, b, c) == sort3(c, a, b));
}

/// The pixels that a plain Bresenham run visits from the position of `s`
/// to `(p.x1, p.y1)`, in order, given at most `fuel` more steps; `None`
/// where the run's `i16` arithmetic overflows or the steps run out.
pub open spec fn bresenham_points(p: LineParams, s: LineState, fuel: nat) -> Option<Seq<(int, int)>>
    decreases fuel,
{
    if fuel == 0 {
        None
    } else if s.x == p.x1 && s.y == p.y1 {
        Some(seq![(s.x, s.y)])
    } else {
        match line_advance(p, s) {
            Some(n) => match bresenham_points(p, n, (fuel - 1) as nat) {
                Some(rest) => Some(seq![(s.x, s.y)] + rest),
                None => None,
            },
            None => None,
        }
    }
}

/// The rows of pixels `pts` as `(row, leftmost, rightmost)` runs, each run
/// a stretch of consecutive pixels on one row, the first run continuing the
/// open run `open`.
pub open spec fn row_runs(open: (int, int, int), pts: Seq<(int, int)>) -> Seq<(int, int, int)>
    decreases pts.len(),
{
    if pts.len() == 0 {
        seq![open]
    } else if pts[0].1 == open.0 {
        row_runs((open.0, min_int(open.1, pts[0].0), max_int(open.2, pts[0].0)), pts.drop_first())
    } else {
        seq![open] + row_runs((pts[0].1, pts[0].0, pts[0].0), pts.drop_first())
    }
}

/// The transfers that paint each run, in order.
pub open spec fn runs_ops(runs: Seq<(int, int, int)>, color: u16) -> Option<Seq<OpView>>
    decreases runs.len(),
{
    if runs.len() == 0 {
        Some(Seq::empty())
    } else {
        cat(span_ops(runs[0].0, runs[0].1, runs[0].2, color), runs_ops(runs.drop_first(), color))
    }
}

proof fn lemma_cat_empty(a: Option<Seq<OpView>>)
    ensures
        cat(Some(Seq::empty()), a) == a,
        cat(a, Some(Seq::empty())) == a,
{
    match a {
        Some(x) => {
            assert(Seq::<OpView>::empty() + x =~= x);
            assert(x + Seq::<OpView>::empty() =~= x);
        },
        None => {},
    }
}

/// From any state, the batched run sends the spans of the row runs of the
/// pixels that the plain run visits, the open batch continuing the first.
proof fn lemma_line_run_rows(p: LineParams, s: LineState, fuel: nat)
    ensures
        line_run(p, s, fuel) == match bresenham_points(p, s, fuel) {
            Some(pts) => runs_ops(row_runs((s.batch_y, s.batch_min, s.batch_max), pts), p.color),
            None => None,
        },
    decreases fuel,
{
    if fuel > 0 {
        let (closed, b) = line_batch(p, s);
        let open = (s.batch_y, s.batch_min, s.batch_max);
        let bb = (b.batch_y, b.batch_min, b.batch_max);
        let here = seq![(s.x, s.y)];
        let same = s.y == s.batch_y;
        if same {
            assert(closed == Some(Seq::<OpView>::empty()));
            assert(bb == (s.batch_y, min_int(s.batch_min, s.x), max_int(s.batch_max, s.x)));
        } else {
            assert(closed == span_ops(s.batch_y, s.batch_min, s.batch_max, p.color));
            assert(bb == (s.y, s.x, s.x));
        }
        if s.x == p.x1 && s.y == p.y1 {
            assert(bresenham_points(p, s, fuel) == Some(here));
            assert(here.drop_first() =~= Seq::<(int, int)>::empty());
            assert(here[0] == (s.x, s.y));
            let last = row_runs(bb, here.drop_first());
            assert(last == seq![bb]);
            assert(last.drop_first() =~= Seq::<(int, int, int)>::empty());
            assert(runs_ops(last.drop_first(), p.color) == Some(Seq::<OpView>::empty()));
            lemma_cat_empty(span_ops(bb.0, bb.1, bb.2, p.color));
            assert(runs_ops(last, p.color) == span_ops(bb.0, bb.1, bb.2, p.color));
            let runs = row_runs(open, here);
            if same {
                assert(runs == last);
                lemma_cat_empty(span_ops(b.batch_y, b.batch_min, b.batch_max, p.color));
            } else {
                assert(runs == seq![open] + last);
                assert(runs[0] == open);
                assert(runs.drop_first() =~= last);
            }
        } else {
            match line_advance(p, b) {
                Some(n) => {
                    lemma_line_run_rows(p, n, (fuel - 1) as nat);
                    let sn = LineState { batch_y: s.batch_y, batch_min: s.batch_min, batch_max: s.batch_max, ..n };
                    assert(line_advance(p, s) == Some(sn));
                    lemma_points_ignore_batch(p, sn, n, (fuel - 1) as nat);
                    assert(line_run(p, s, fuel) == cat(closed, line_run(p, n, (fuel - 1) as nat)));
                    match bresenham_points(p, n, (fuel - 1) as nat) {
                        Some(rest) => {
                            let pts = here + rest;
                            assert(bresenham_points(p, s, fuel) == Some(pts));
                            assert(pts[0] == (s.x, s.y));
                            assert(pts.drop_first() =~= rest);
                            assert(pts.len() > 0);
                            let tail = row_runs(bb, rest);
                            assert(line_run(p, n, (fuel - 1) as nat) == runs_ops(tail, p.color));
                            let runs = row_runs(open, pts);
                            if same {
                                assert(runs == tail);
                                lemma_cat_empty(runs_ops(tail, p.color));
                            } else {
                                assert(runs == seq![open] + tail);
                                assert(runs[0] == open);
                                assert(runs.drop_first() =~= tail);
                            }
                        },
                        None => {
                            assert(bresenham_points(p, s, fuel) is None);
                            assert(line_run(p, n, (fuel - 1) as nat) is None);
                        },
                    }
                },
                None => {
                    let sn = LineState { batch_y: s.batch_y, batch_min: s.batch_min, batch_max: s.batch_max, ..b };
                    assert(sn == s);
                    assert(line_advance(p, s) is None);
                },
            }
        }
    }
}

/// The pixels a run visits do not depend on its open batch.
proof fn lemma_points_ignore_batch(p: LineParams, s: LineState, t: LineState, fuel: nat)
    requires
        s.x == t.x,
        s.y == t.y,
        s.err == t.err,
    ensures
        bresenham_points(p, s, fuel) == bresenham_points(p, t, fuel),
    decreases fuel,
{
    if fuel > 0 && !(s.x == p.x1 && s.y == p.y1) {
        match line_advance(p, s) {
            Some(n) => {
                let m = line_advance(p, t).unwrap();
                lemma_points_ignore_batch(p, n, m, (fuel - 1) as nat);
            },
            None => {},
        }
    }
}

/// `draw_line` paints the pixels of the Bresenham line from `(x0, y0)` to
/// `(x1, y1)`: a path from the one to the other in which each pixel is a
/// different neighbour of the one before, one step towards the end point
/// in each direction at most; its transfers are one clipped span per run
/// of consecutive pixels on the same row, in the order the line visits
/// them.
pub proof fn lemma_line_is_bresenham(x0: i16, y0: i16, x1: i16, y1: i16, color: u16)
    requires
        line_ops(x0, y0, x1, y1, color) is Some,
    ensures
        ({
            let p = line_params(x0, y0, x1, y1, color);
            let start = LineState {
                x: x0 as int,
                y: y0 as int,
                err: p.dx + p.dy,
                batch_y: y0 as int,
                batch_min: x0 as int,
                batch_max: x0 as int,
            };
            let pts = bresenham_points(p, start, (p.dx - p.dy + 1) as nat);
            &&& pts is Some
            &&& pts.unwrap()[0] == (x0 as int, y0 as int)
            &&& pts.unwrap().last() == (x1 as int, y1 as int)
            &&& forall|i: int|
                0 <= i < pts.unwrap().len() - 1 ==> {
                    let (ax, ay) = #[trigger] pts.unwrap()[i];
                    let (bx, by) = pts.unwrap()[i + 1];
                    &&& (bx == ax || bx == ax + p.sx)
                    &&& (by == ay || by == ay + p.sy)
                    &&& (ax, ay) != (bx, by)
                }
            &&& line_ops(x0, y0, x1, y1, color) == runs_ops(
                row_runs((y0 as int, x0 as int, x0 as int), pts.unwrap()),
                color,
            )
        }),
{
    let p = line_params(x0, y0, x1, y1, color);
    let start = LineState {
        x: x0 as int,
        y: y0 as int,
        err: p.dx + p.dy,
        batch_y: y0 as int,
        batch_min: x0 as int,
        batch_max: x0 as int,
    };
    let fuel = (p.dx - p.dy + 1) as nat;
    lemma_line_run_rows(p, start, fuel);
    lemma_points_shape(p, start, fuel);
    assert(bresenham_err(p.dx, -p.dy, 0, 0) == p.dx + p.dy) by (nonlinear_arith);
    lemma_points_move(p, start, fuel, x0 as int, y0 as int, 0, 0);
}

/// A run's pixels start at its position, end at its end point and move by
/// at most one step in each direction at a time.
proof fn lemma_points_shape(p: LineParams, s: LineState, fuel: nat)
    ensures
        bresenham_points(p, s, fuel) matches Some(pts) ==> {
            &&& pts.len() >= 1
            &&& pts[0] == (s.x, s.y)
            &&& pts.last() == (p.x1, p.y1)
            &&& forall|i: int|
                0 <= i < pts.len() - 1 ==> {
                    let (ax, ay) = #[trigger] pts[i];
                    let (bx, by) = pts[i + 1];
                    &&& (bx == ax || bx == ax + p.sx)
                    &&& (by == ay || by == ay + p.sy)
                }
        },
    decreases fuel,
{
    if fuel > 0 && !(s.x == p.x1 && s.y == p.y1) {
        match line_advance(p, s) {
            Some(n) => {
                lemma_points_shape(p, n, (fuel - 1) as nat);
                match bresenham_points(p, n, (fuel - 1) as nat) {
                    Some(rest) => {
                        let pts = seq![(s.x, s.y)] + rest;
                        assert forall|i: int| 0 <= i < pts.len() - 1 implies {
                            let (ax, ay) = #[trigger] pts[i];
                            let (bx, by) = pts[i + 1];
                            &&& (bx == ax || bx == ax + p.sx)
                            &&& (by == ay || by == ay + p.sy)
                        } by {
                            if i > 0 {
                                assert(pts[i] == rest[i - 1]);
                                assert(pts[i + 1] == rest[i]);
                            }
                        }
                    },
                    None => {},
                }
            },
            None => {},
        }
    }
}

/// Along a run, the position is `i` columns and `j` rows from the start
/// with the error term of that point, and every step moves: no pixel is
/// visited twice in a row.
proof fn lemma_points_move(p: LineParams, s: LineState, fuel: nat, x0: int, y0: int, i: int, j: int)
    requires
        p.dx >= 0,
        p.dy <= 0,
        p.sx == 1 || p.sx == -1,
        p.sy == 1 || p.sy == -1,
        p.x1 == (if p.sx == 1 {
            x0 + p.dx
        } else {
            x0 - p.dx
        }),
        p.y1 == (if p.sy == 1 {
            y0 - p.dy
        } else {
            y0 + p.dy
        }),
        0 <= i <= p.dx,
        0 <= j <= -p.dy,
        s.x == (if p.sx == 1 {
            x0 + i
        } else {
            x0 - i
        }),
        s.y == (if p.sy == 1 {
            y0 + j
        } else {
            y0 - j
        }),
        s.err == bresenham_err(p.dx, -p.dy, i, j),
    ensures
        bresenham_points(p, s, fuel) matches Some(pts) ==> forall|k: int|
            0 <= k < pts.len() - 1 ==> #[trigger] pts[k] != pts[k + 1],
    decreases fuel,
{
    if fuel > 0 && !(s.x == p.x1 && s.y == p.y1) {
        let dxa = p.dx;
        let dya = -p.dy;
        assert(!(i == dxa && j == dya));
        lemma_bresenham_step(dxa, dya, i, j);
        match line_advance(p, s) {
            Some(n) => {
                let e2 = 2 * s.err;
                let h = e2 >= p.dy;
                let v = e2 <= p.dx;
                let i2 = if h {
                    i + 1
                } else {
                    i
                };
                let j2 = if v {
                    j + 1
                } else {
                    j
                };
                assert(h || v);
                assert(n.err == bresenham_err(dxa, dya, i2, j2)) by {
                    if h && v {
                        lemma_bresenham_step(dxa, dya, i + 1, j);
                    }
                }
                lemma_points_move(p, n, (fuel - 1) as nat, x0, y0, i2, j2);
                lemma_points_shape(p, n, (fuel - 1) as nat);
                match bresenham_points(p, n, (fuel - 1) as nat) {
                    Some(rest) => {
                        let pts = seq![(s.x, s.y)] + rest;
                        assert(rest[0] == (n.x, n.y));
                        assert((n.x, n.y) != (s.x, s.y));
                        assert forall|k: int| 0 <= k < pts.len() - 1 implies #[trigger] pts[k] != pts[k + 1] by {
                            if k > 0 {
                                assert(pts[k] == rest[k - 1]);
                                assert(pts[k + 1] == rest[k]);
                            } else {
                                assert(pts[1] == rest[0]);
                            }
                        }
                    },
                    None => {},
                }
            },
            None => {},
        }
    }
}

/// Whether edge `k` of the wireframe crosses row `sy` at column `px`.
pub open spec fn edge_k_marks(edges: [(usize, usize); 12], k: int, proj: [[i16; 2]; 8], sy: int, px: int) -> bool {
    let a = proj_pt(proj, edges[k].0);
    let b = proj_pt(proj, edges[k].1);
    edge_marks(a.0, a.1, b.0, b.1, sy, px)
}

/// A column is marked by the first `n` edges exactly when one of them
/// crosses it.
proof fn lemma_marked_exists(edges: [(usize, usize); 12], n: int, proj: [[i16; 2]; 8], sy: int, px: int)
    requires
        0 <= n,
    ensures
        marked(edges, n, proj, sy, px) <==> exists|k: int| 0 <= k < n && #[trigger] edge_k_marks(edges, k, proj, sy, px),
    decreases n,
{
    if n > 0 {
        lemma_marked_exists(edges, n - 1, proj, sy, px);
        if edge_k_marks(edges, n - 1, proj, sy, px) {
            assert(exists|k: int| 0 <= k < n && #[trigger] edge_k_marks(edges, k, proj, sy, px));
        }
    }
}

/// Every pixel of a redrawn rectangle row is in the edge colour where any
/// of the twelve edges crosses its column, and in the background colour
/// where none does: pixel `px` of rectangle row `row` is screen column
/// `rx + px` of screen row `ry + row`.
pub proof fn lemma_edges_row_pixels(
    rx: u16,
    ry: u16,
    rw: u16,
    row: int,
    edges: [(usize, usize); 12],
    proj: [[i16; 2]; 8],
    bg: u16,
    fg: u16,
    px: int,
)
    requires
        0 <= px < rw,
    ensures
        ({
            let r = edges_row(rx, ry, rw, row, edges, proj, bg, fg);
            let sy = rect_screen_y(ry, row);
            let sx = (rx as i16) as int + px;
            &&& r.len() == 2 * rw
            &&& forall|k: int| 0 <= k < 12 && #[trigger] edge_k_marks(edges, k, proj, sy, sx) ==> r[2 * px]
                == hi(fg) && r[2 * px + 1] == lo(fg)
            &&& (forall|k: int| 0 <= k < 12 ==> !#[trigger] edge_k_marks(edges, k, proj, sy, sx)) ==> r[2
                * px] == hi(bg) && r[2 * px + 1] == lo(bg)
        }),
{
    let sy = rect_screen_y(ry, row);
    let sx = (rx as i16) as int + px;
    lemma_marked_exists(edges, 12, proj, sy, sx);
    assert((2 * px) / 2 == px);
    assert((2 * px + 1) / 2 == px);
}

/// The rows of a redrawn rectangle, after its window, are the rectangle's
/// rows in order.
pub proof fn lemma_edges_rect_rows(
    rx: u16,
    ry: u16,
    rw: u16,
    rh: u16,
    edges: [(usize, usize); 12],
    proj: [[i16; 2]; 8],
    bg: u16,
    fg: u16,
    row: int,
)
    requires
        rw > 0,
        0 <= row < rh,
    ensures
        edges_rect_ops(rx, ry, rw, rh, edges, proj, bg, fg).len() == 5 + rh,
        edges_rect_ops(rx, ry, rw, rh, edges, proj, bg, fg)[5 + row] == OpView::Data(
            edges_row(rx, ry, rw, row, edges, proj, bg, fg),
        ),
{
}

/// Rows `y..stop` of a triangle whose two edges are straight fixed-point
/// lines: on row `t` the first edge is at `xa + (t - ya) * da` and the
/// second at `xb + (t - yb) * db` (16.16 fixed point); each row on the
/// screen paints the span between the whole columns of the two edges.
pub open spec fn scan_rows(
    ya: int,
    xa: int,
    da: int,
    yb: int,
    xb: int,
    db: int,
    y: int,
    stop: int,
    color: u16,
) -> Seq<OpView>
    decreases stop - y,
{
    if y >= stop {
        Seq::empty()
    } else {
        let l = xa + (y - ya) * da;
        let r = xb + (y - yb) * db;
        (if 0 <= y < 240 {
            span_ops(y, l / 65536, r / 65536, color).unwrap()
        } else {
            Seq::empty()
        }) + scan_rows(ya, xa, da, yb, xb, db, y + 1, stop, color)
    }
}

/// A run of scanlines whose edges start on the straight lines through
/// `(ya, xa)` and `(yb, xb)` stays on them: it paints `scan_rows` and ends
/// with the first edge where its line reaches row `stop`.
proof fn lemma_tri_rows_straight(
    ya: int,
    xa: int,
    da: int,
    yb: int,
    xb: int,
    db: int,
    y: int,
    stop: int,
    color: u16,
)
    requires
        tri_rows(y, stop, xa + (y - ya) * da, xb + (y - yb) * db, da, db, color) is Some,
    ensures
        ({
            let r = tri_rows(y, stop, xa + (y - ya) * da, xb + (y - yb) * db, da, db, color).unwrap();
            &&& r.0 == scan_rows(ya, xa, da, yb, xb, db, y, stop, color)
            &&& r.1 == xa + (if y < stop {
                stop
            } else {
                y
            } - ya) * da
        }),
    decreases stop - y,
{
    if y < stop {
        assert(xa + (y - ya) * da + da == xa + (y + 1 - ya) * da) by (nonlinear_arith);
        assert(xb + (y - yb) * db + db == xb + (y + 1 - yb) * db) by (nonlinear_arith);
        lemma_tri_rows_straight(ya, xa, da, yb, xb, db, y + 1, stop, color);
    }
}

/// `fill_triangle` paints, on every row from the top corner down to the
/// bottom one, the span between the long edge (top corner to bottom
/// corner) and the short edge of that half: the long edge is the straight
/// fixed-point line from the top corner with the long slope on every row of
/// both halves, and each short edge the straight line from its upper
/// corner with its own slope.
pub proof fn lemma_triangle_scanlines(x0: i16, y0: i16, x1: i16, y1: i16, x2: i16, y2: i16, color: u16)
    requires
        triangle_ops(x0, y0, x1, y1, x2, y2, color) is Some,
    ensures
        ({
            let (a, b, c) = sort3((x0 as int, y0 as int), (x1 as int, y1 as int), (x2 as int, y2 as int));
            let dac = slope(a.0, a.1, c.0, c.1);
            let dab = slope(a.0, a.1, b.0, b.1);
            let dbc = slope(b.0, b.1, c.0, c.1);
            &&& a.1 <= b.1 <= c.1
            &&& a.1 == c.1 ==> triangle_ops(x0, y0, x1, y1, x2, y2, color).unwrap() == Seq::<OpView>::empty()
            &&& a.1 != c.1 ==> triangle_ops(x0, y0, x1, y1, x2, y2, color).unwrap() == scan_rows(
                a.1,
                a.0 * 65536,
                dac,
                a.1,
                a.0 * 65536,
                dab,
                a.1,
                b.1,
                color,
            ) + scan_rows(a.1, a.0 * 65536, dac, b.1, b.0 * 65536, dbc, b.1, c.1 + 1, color)
        }),
{
    let (a, b, c) = sort3((x0 as int, y0 as int), (x1 as int, y1 as int), (x2 as int, y2 as int));
    if a.1 != c.1 {
        let dac = slope(a.0, a.1, c.0, c.1);
        let dab = slope(a.0, a.1, b.0, b.1);
        let dbc = slope(b.0, b.1, c.0, c.1);
        assert(a.0 * 65536 + (a.1 - a.1) * dac == a.0 * 65536);
        assert(a.0 * 65536 + (a.1 - a.1) * dab == a.0 * 65536);
        assert(b.0 * 65536 + (b.1 - b.1) * dbc == b.0 * 65536);
        lemma_tri_rows_straight(a.1, a.0 * 65536, dac, a.1, a.0 * 65536, dab, a.1, b.1, color);
        let xac = tri_rows(a.1, b.1, a.0 * 65536, a.0 * 65536, dac, dab, color).unwrap().1;
        assert(xac == a.0 * 65536 + (b.1 - a.1) * dac);
        lemma_tri_rows_straight(a.1, a.0 * 65536, dac, b.1, b.0 * 65536, dbc, b.1, c.1 + 1, color);
    }
}

/// The fixed-point slope of an edge is its true slope to within rounding:
/// over the edge's height it is off by less than one unit per row.
pub proof fn lemma_slope_rounding(xa: int, ya: int, xb: int, yb: int)
    requires
        ya < yb,
        fits_i32((xb - xa) * 65536),
    ensures
        abs_int(slope(xa, ya, xb, yb) * (yb - ya) - (xb - xa) * 65536) < yb - ya,
{
    let n = (xb - xa) * 65536;
    let d = yb - ya;
    assert(wrap_i32(n) == n);
    let q = abs_int(n) / d;
    let r = abs_int(n) % d;
    vstd::arithmetic::div_mod::lemma_fundamental_div_mod(abs_int(n), d);
    assert(abs_int(n) == d * q + r);
    assert(0 <= r < d);
    if n >= 0 {
        assert(slope(xa, ya, xb, yb) == q);
        assert(q * d - n == -r) by (nonlinear_arith)
            requires
                n == d * q + r,
        ;
    } else {
        assert(slope(xa, ya, xb, yb) == -q);
        assert((-q) * d - n == r) by (nonlinear_arith)
            requires
                -n == d * q + r,
        ;
    }
}

} // verus!
