//! Run-time tests of the preconditions of the line, triangle and wireframe
//! routines of the panel driver: each tells, without drawing, whether the
//! routine's integer arithmetic stays in range for the given input, so that
//! a caller can reject an input before the routine would overflow.
use vstd::prelude::*;
use crate::raster::{
    bresenham_err,
    edge_lines_ops,
    edge_row_fits,
    edges_rect_fits,
    fits_i16,
    lemma_bresenham_step,
    lemma_edge_lines_prefix,
    line_batch,
    line_ops,
    line_params,
    line_run,
    proj_pt,
    quad_ops,
    rect_screen_y,
    sort3,
    span_ops,
    tdiv,
    tri_rows,
    triangle_ops,
    LineState,
};

verus! {

/// Whether the span between `xa` and `xb` on row `y` can be painted: it is
/// off the screen vertically, or its clipped length is not negative.
pub fn span_fits(y: i64, xa: i64, xb: i64, color: u16) -> (ok: bool)
    ensures
        ok == (span_ops(y as int, xa as int, xb as int, color) is Some),
{
    if y < 0 || y >= 240 {
        return true;
    }
    let mut l = if xa < xb {
        xa
    } else {
        xb
    };
    let mut r = if xa > xb {
        xa
    } else {
        xb
    };
    if l < 0 {
        l = 0;
    }
    if r >= 240 {
        r = 239;
    }
    r - l + 1 >= 0
}

/// Whether `draw_line` from `(x0, y0)` to `(x1, y1)` stays within its
/// `i16` arithmetic and paints only spans it can paint.
pub fn line_fits(x0: i16, y0: i16, x1: i16, y1: i16, color: u16) -> (ok: bool)
    ensures
        ok == (line_ops(x0, y0, x1, y1, color) is Some),
{
    let ddx: i32 = x1 as i32 - x0 as i32;
    let ddy: i32 = y1 as i32 - y0 as i32;
    if ddx < -32767 || ddx > 32767 || ddy < -32767 || ddy > 32767 {
        return false;
    }
    let ghost p = line_params(x0, y0, x1, y1, color);
    let dx: i32 = if ddx < 0 {
        -ddx
    } else {
        ddx
    };
    let dy: i32 = -(if ddy < 0 {
        -ddy
    } else {
        ddy
    });
    let sx: i32 = if x0 < x1 {
        1
    } else {
        -1
    };
    let sy: i32 = if y0 < y1 {
        1
    } else {
        -1
    };
    let mut x: i32 = x0 as i32;
    let mut y: i32 = y0 as i32;
    let mut err: i32 = dx + dy;
    let mut batch_y: i32 = y;
    let mut batch_min: i32 = x;
    let mut batch_max: i32 = x;
    let ghost mut fuel: nat = (p.dx - p.dy + 1) as nat;
    let ghost mut i: int = 0;
    let ghost mut j: int = 0;
    assert(bresenham_err(dx as int, -dy, 0, 0) == dx + dy) by (nonlinear_arith);
    loop
        invariant
            p == line_params(x0, y0, x1, y1, color),
            dx == p.dx,
            dy == p.dy,
            sx == p.sx,
            sy == p.sy,
            0 <= i <= dx,
            0 <= j <= -dy,
            x0 < x1 ==> x == x0 + i,
            x0 >= x1 ==> x == x0 - i,
            y0 < y1 ==> y == y0 + j,
            y0 >= y1 ==> y == y0 - j,
            err == bresenham_err(dx as int, -dy, i, j),
            fits_i16(err as int),
            fuel >= (dx - i) + (-dy - j) + 1,
            -32768 <= batch_y <= 32767,
            -32768 <= batch_min <= 32767,
            -32768 <= batch_max <= 32767,
            (line_ops(x0, y0, x1, y1, color) is Some) == (line_run(
                p,
                LineState {
                    x: x as int,
                    y: y as int,
                    err: err as int,
                    batch_y: batch_y as int,
                    batch_min: batch_min as int,
                    batch_max: batch_max as int,
                },
                fuel,
            ) is Some),
        decreases (dx - i) + (-dy - j),
    {
        let ghost s = LineState {
            x: x as int,
            y: y as int,
            err: err as int,
            batch_y: batch_y as int,
            batch_min: batch_min as int,
            batch_max: batch_max as int,
        };
        let ghost (closed, b) = line_batch(p, s);
        if y == batch_y {
            if x < batch_min {
                batch_min = x;
            }
            if x > batch_max {
                batch_max = x;
            }
        } else {
            if !span_fits(batch_y as i64, batch_min as i64, batch_max as i64, color) {
                return false;
            }
            batch_y = y;
            batch_min = x;
            batch_max = x;
        }
        if x == x1 as i32 && y == y1 as i32 {
            return span_fits(batch_y as i64, batch_min as i64, batch_max as i64, color);
        }
        proof {
            lemma_bresenham_step(dx as int, -dy, i, j);
        }
        let e2 = 2 * err;
        if e2 < -32768 || e2 > 32767 {
            return false;
        }
        let mut err1 = err;
        if e2 >= dy {
            err1 = err + dy;
        }
        if err1 < -32768 || err1 > 32767 {
            return false;
        }
        let mut err2 = err1;
        if e2 <= dx {
            err2 = err1 + dx;
        }
        if err2 < -32768 || err2 > 32767 {
            return false;
        }
        if e2 >= dy {
            x = x + sx;
            proof {
                i = i + 1;
            }
        }
        if e2 <= dx {
            y = y + sy;
            proof {
                j = j + 1;
            }
        }
        err = err2;
        proof {
            fuel = (fuel - 1) as nat;
        }
    }
}

/// Whether the triangle scanlines `y..stop` stay within `i32` and paint only
/// spans they can paint; if so, the first edge's position after them.
fn rows_fit(y: i32, stop: i32, xa: i32, xb: i32, da: i32, db: i32, color: u16) -> (r: Option<i32>)
    requires
        stop <= i16::MAX + 1,
        y >= i16::MIN,
    ensures
        r is Some == (tri_rows(y as int, stop as int, xa as int, xb as int, da as int, db as int, color) is Some),
        r is Some ==> r.unwrap() == tri_rows(
            y as int,
            stop as int,
            xa as int,
            xb as int,
            da as int,
            db as int,
            color,
        ).unwrap().1,
{
    let ghost total = tri_rows(y as int, stop as int, xa as int, xb as int, da as int, db as int, color);
    let mut row = y;
    let mut ca = xa;
    let mut cb = xb;
    while row < stop
        invariant
            total == tri_rows(y as int, stop as int, xa as int, xb as int, da as int, db as int, color),
            y <= row,
            stop <= i16::MAX + 1,
            row <= stop || row == y,
            (total is Some) == (tri_rows(row as int, stop as int, ca as int, cb as int, da as int, db as int, color) is Some),
            total is Some ==> total.unwrap().1 == tri_rows(
                row as int,
                stop as int,
                ca as int,
                cb as int,
                da as int,
                db as int,
                color,
            ).unwrap().1,
        decreases stop - row,
    {
        if row >= 0 && row < 240 {
            if !span_fits(row as i64, (ca >> 16) as i64, (cb >> 16) as i64, color) {
                assert((ca >> 16) == ca / 65536 && (cb >> 16) == cb / 65536) by (bit_vector);
                assert(tri_rows(row as int, stop as int, ca as int, cb as int, da as int, db as int, color) is None);
                return None;
            }
            assert((ca >> 16) == ca / 65536 && (cb >> 16) == cb / 65536) by (bit_vector);
        }
        let na = ca as i64 + da as i64;
        let nb = cb as i64 + db as i64;
        if na < i32::MIN as i64 || na > i32::MAX as i64 || nb < i32::MIN as i64 || nb > i32::MAX as i64 {
            assert(tri_rows(row as int, stop as int, ca as int, cb as int, da as int, db as int, color) is None);
            return None;
        }
        ca = na as i32;
        cb = nb as i32;
        row = row + 1;
    }
    Some(ca)
}

/// Whether `fill_triangle` with these corners stays within its `i32`
/// arithmetic and paints only spans it can paint.
pub fn triangle_fits(x0: i16, y0: i16, x1: i16, y1: i16, x2: i16, y2: i16, color: u16) -> (ok: bool)
    ensures
        ok == (triangle_ops(x0, y0, x1, y1, x2, y2, color) is Some),
{
    let mut v0 = (x0, y0);
    let mut v1 = (x1, y1);
    let mut v2 = (x2, y2);
    if v0.1 > v1.1 {
        let t = v0;
        v0 = v1;
        v1 = t;
    }
    if v0.1 > v2.1 {
        let t = v0;
        v0 = v2;
        v2 = t;
    }
    if v1.1 > v2.1 {
        let t = v1;
        v1 = v2;
        v2 = t;
    }
    let (ax, ay) = v0;
    let (bx, b_y) = v1;
    let (cx, cy) = v2;
    let ghost sorted = sort3((x0 as int, y0 as int), (x1 as int, y1 as int), (x2 as int, y2 as int));
    assert(sorted.0 == (ax as int, ay as int));
    assert(sorted.1 == (bx as int, b_y as int));
    assert(sorted.2 == (cx as int, cy as int));
    if ay == cy {
        return true;
    }
    let x_ac: i32 = (ax as i32) << 16;
    let x_bc: i32 = (bx as i32) << 16;
    assert(x_ac == ax * 65536 && x_bc == bx * 65536) by (bit_vector)
        requires
            x_ac == (ax as i32) << 16,
            x_bc == (bx as i32) << 16,
    ;
    let dx_ac = crate::st7789::fixed_slope(ax, ay, cx, cy);
    let dx_ab = crate::st7789::fixed_slope(ax, ay, bx, b_y);
    let dx_bc = crate::st7789::fixed_slope(bx, b_y, cx, cy);
    match rows_fit(ay as i32, b_y as i32, x_ac, x_ac, dx_ac, dx_ab, color) {
        Some(xa) => match rows_fit(b_y as i32, cy as i32 + 1, xa, x_bc, dx_ac, dx_bc, color) {
            Some(_) => true,
            None => false,
        },
        None => false,
    }
}

/// Whether `fill_quad` with these corners can run.
pub fn quad_fits(pts: &[[i16; 2]; 4], color: u16) -> (ok: bool)
    ensures
        ok == (quad_ops(*pts, color) is Some),
{
    triangle_fits(pts[0][0], pts[0][1], pts[1][0], pts[1][1], pts[2][0], pts[2][1], color)
        && triangle_fits(pts[0][0], pts[0][1], pts[2][0], pts[2][1], pts[3][0], pts[3][1], color)
}

/// Whether `draw_line_batch` can run: every edge indexes a projected point
/// and every line fits.
pub fn line_batch_fits(edges: &[(usize, usize); 12], proj: &[[i16; 2]; 8], color: u16) -> (ok: bool)
    ensures
        ok == (edge_lines_ops(*edges, 12, *proj, color) is Some),
{
    let mut e: usize = 0;
    while e < 12
        invariant
            e <= 12,
            edge_lines_ops(*edges, e as int, *proj, color) is Some,
        decreases 12 - e,
    {
        let (a, b) = edges[e];
        if a >= 8 || b >= 8 || !line_fits(proj[a][0], proj[a][1], proj[b][0], proj[b][1], color) {
            proof {
                if edge_lines_ops(*edges, 12, *proj, color) is Some {
                    lemma_edge_lines_prefix(*edges, 12, e + 1, *proj, color);
                }
            }
            return false;
        }
        e = e + 1;
    }
    true
}

/// Whether the crossing of the edge from `(ax, ay)` to `(bx, b_y)` with row
/// `sy` is computed within `i32`.
fn edge_row_check(ax: i16, ay: i16, bx: i16, b_y: i16, sy: i64) -> (ok: bool)
    requires
        -65536 <= sy <= 65536,
    ensures
        ok == edge_row_fits(ax as int, ay as int, bx as int, b_y as int, sy as int),
{
    let lo = if ay < b_y {
        ay as i64
    } else {
        b_y as i64
    };
    let hi = if ay > b_y {
        ay as i64
    } else {
        b_y as i64
    };
    if sy < lo || sy > hi || ay == b_y {
        return true;
    }
    let f = bx as i64 - ax as i64;
    let g = sy - ay as i64;
    assert(-65535 <= f <= 65535 && -131072 <= g <= 131072);
    assert(-65535 * 131072 <= f * g <= 65535 * 131072) by (nonlinear_arith)
        requires
            -65535 <= f <= 65535,
            -131072 <= g <= 131072,
    ;
    let num = f * g;
    if num < i32::MIN as i64 || num > i32::MAX as i64 {
        return false;
    }
    let den = b_y as i64 - ay as i64;
    let q = if den < 0 {
        (-num) / (-den)
    } else {
        num / den
    };
    assert(q == tdiv(num as int, den as int));
    let s = ax as i64 + q;
    s >= i32::MIN as i64 && s <= i32::MAX as i64
}

/// Whether `draw_edges_in_rect` can run with these arguments.
pub fn edges_rect_check(
    rx: u16,
    ry: u16,
    rw: u16,
    rh: u16,
    edges: &[(usize, usize); 12],
    proj: &[[i16; 2]; 8],
) -> (ok: bool)
    ensures
        ok == edges_rect_fits(rx, ry, rw, rh, *edges, *proj),
{
    if rw == 0 || rh == 0 {
        return true;
    }
    if rx as u32 + rw as u32 > 65535 || ry as u32 + rh as u32 > 65535 || rw > 240 {
        return false;
    }
    let rx_i = rx as i16;
    assert(rx_i == rx as i16);
    if rx_i as i32 + rw as i32 > 32767 {
        assert(!fits_i16((rx as i16) + rw));
        assert(!edges_rect_fits(rx, ry, rw, rh, *edges, *proj));
        return false;
    }
    let mut e: usize = 0;
    while e < 12
        invariant
            e <= 12,
            rw >= 1,
            rh >= 1,
            rx as int + rw <= u16::MAX,
            ry as int + rh <= u16::MAX,
            rw <= 240,
            fits_i16((rx as i16) + rw),
            forall|k: int| 0 <= k < e ==> #[trigger] edges[k].0 < 8 && edges[k].1 < 8,
        decreases 12 - e,
    {
        if edges[e].0 >= 8 || edges[e].1 >= 8 {
            assert(!(edges[e as int].0 < 8 && edges[e as int].1 < 8));
            return false;
        }
        e = e + 1;
    }
    let ry_i = ry as i16;
    let mut row: u32 = 0;
    while row < rh as u32
        invariant
            row <= rh,
            rw >= 1,
            rh >= 1,
            rx as int + rw <= u16::MAX,
            ry as int + rh <= u16::MAX,
            rw <= 240,
            fits_i16((rx as i16) + rw),
            ry_i == ry as i16,
            forall|k: int| 0 <= k < 12 ==> #[trigger] edges[k].0 < 8 && edges[k].1 < 8,
            forall|r: int| 0 <= r < row ==> fits_i16(#[trigger] rect_screen_y(ry, r)),
            forall|r: int, k: int|
                #![trigger rect_screen_y(ry, r), edges[k]]
                0 <= r < row && 0 <= k < 12 ==> edge_row_fits(
                    proj_pt(*proj, edges[k].0).0,
                    proj_pt(*proj, edges[k].0).1,
                    proj_pt(*proj, edges[k].1).0,
                    proj_pt(*proj, edges[k].1).1,
                    rect_screen_y(ry, r),
                ),
        decreases rh - row,
    {
        let sy: i64 = ry_i as i64 + (row as usize as i16) as i64;
        assert(sy == rect_screen_y(ry, row as int));
        if sy < -32768 || sy > 32767 {
            return false;
        }
        let mut k: usize = 0;
        while k < 12
            invariant
                k <= 12,
                row < rh,
                rw >= 1,
                rh >= 1,
                rx as int + rw <= u16::MAX,
                ry as int + rh <= u16::MAX,
                rw <= 240,
                fits_i16((rx as i16) + rw),
                sy == rect_screen_y(ry, row as int),
                fits_i16(sy as int),
                forall|kk: int| 0 <= kk < 12 ==> #[trigger] edges[kk].0 < 8 && edges[kk].1 < 8,
                forall|kk: int|
                    0 <= kk < k ==> edge_row_fits(
                        proj_pt(*proj, #[trigger] edges[kk].0).0,
                        proj_pt(*proj, edges[kk].0).1,
                        proj_pt(*proj, edges[kk].1).0,
                        proj_pt(*proj, edges[kk].1).1,
                        sy as int,
                    ),
            decreases 12 - k,
        {
            let (a, b) = edges[k];
            assert(a < 8 && b < 8);
            if !edge_row_check(proj[a][0], proj[a][1], proj[b][0], proj[b][1], sy) {
                assert(proj_pt(*proj, edges[k as int].0) == (proj[a as int][0] as int, proj[a as int][1] as int));
                assert(proj_pt(*proj, edges[k as int].1) == (proj[b as int][0] as int, proj[b as int][1] as int));
                assert(!edge_row_fits(
                    proj_pt(*proj, edges[k as int].0).0,
                    proj_pt(*proj, edges[k as int].0).1,
                    proj_pt(*proj, edges[k as int].1).0,
                    proj_pt(*proj, edges[k as int].1).1,
                    rect_screen_y(ry, row as int),
                ));
                return false;
            }
            k = k + 1;
        }
        row = row + 1;
    }
    true
}

} // verus!
