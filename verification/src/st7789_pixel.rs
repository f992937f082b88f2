//! The ST7789 driver of the DHT11 program: no scratch row, every pixel
//! (every doubled column, for the scaled bitmap) sent as a transfer of its
//! own.
use vstd::prelude::*;
use vstd::arithmetic::div_mod::lemma_fundamental_div_mod_converse;
use crate::ops::{Bus, OpView};
use crate::st7789::{
    be,
    bitmap_fits,
    bitmap_on,
    bitmap_pixel,
    fill_rect_fits,
    hi,
    init_ops,
    lo,
    pick,
    pixel_byte,
    push_init,
    push_window,
    split_word,
    window_ops,
};

verus! {

/// Transfers that fill the rectangle at `(x, y)` of size `w` by `h`: the
/// window, then one two-byte transfer per pixel.
pub open spec fn pixel_fill_ops(x: u16, y: u16, w: u16, h: u16, color: u16) -> Seq<OpView> {
    if w == 0 || h == 0 {
        Seq::empty()
    } else {
        window_ops(x, y, (x + w - 1) as u16, (y + h - 1) as u16) + Seq::new(
            (w * h) as nat,
            |i: int| OpView::Data(be(color)),
        )
    }
}

/// Transfers that draw a bitmap at natural size: the window, then one
/// transfer per pixel, row by row.
pub open spec fn pixel_bitmap_ops(
    x: u16,
    y: u16,
    bitmap: Seq<u8>,
    width: u16,
    height: u16,
    color: u16,
    bg: u16,
) -> Seq<OpView> {
    window_ops(x, y, (x + width - 1) as u16, (y + height - 1) as u16) + Seq::new(
        (height * width) as nat,
        |k: int|
            OpView::Data(
                be(pick(bitmap_on(bitmap, height, k / (width as int), k % (width as int)), color, bg)),
            ),
    )
}

/// The column whose colour the doubled drawing keeps in its scratch slot of
/// parity `p` once all `width` columns of a row have been composed: the
/// last column of that parity.
pub open spec fn last_col_of_parity(width: int, p: int) -> int {
    if (width - 1) % 2 == p {
        width - 1
    } else {
        width - 2
    }
}

/// Two pixels of one colour.
pub open spec fn quad(c: u16) -> Seq<u8> {
    be(c) + be(c)
}

/// Whether `draw_bitmap_scaled2x` computes its sizes and window without
/// overflow.
pub open spec fn scaled_fits(x: u16, y: u16, width: u16, height: u16) -> bool {
    &&& 2 * width <= u16::MAX
    &&& 2 * height <= u16::MAX
    &&& 1 <= x + 2 * width <= u16::MAX
    &&& 1 <= y + 2 * height <= u16::MAX
}

/// Transfers of `draw_bitmap_scaled2x`: the window, then for every source
/// row two passes of one four-byte transfer per source column, taken from
/// the scratch slot of that column's parity.
pub open spec fn scaled_ops(
    x: u16,
    y: u16,
    bitmap: Seq<u8>,
    width: u16,
    height: u16,
    color: u16,
    bg: u16,
) -> Seq<OpView> {
    window_ops(x, y, (x + 2 * width - 1) as u16, (y + 2 * height - 1) as u16) + Seq::new(
        (2 * height * width) as nat,
        |k: int|
            OpView::Data(
                quad(
                    pick(
                        bitmap_on(
                            bitmap,
                            height,
                            (k / (width as int)) / 2,
                            last_col_of_parity(width as int, (k % (width as int)) % 2),
                        ),
                        color,
                        bg,
                    ),
                ),
            ),
    )
}

/// An ST7789 panel with its data/command and reset lines, driven without
/// a scratch row.
pub struct ST7789<DC, RST> {
    dc: DC,
    rst: RST,
    width: u16,
    height: u16,
}

impl<DC, RST> ST7789<DC, RST> {
    /// The data/command line.
    pub closed spec fn dc_line(&self) -> DC {
        self.dc
    }

    /// The reset line.
    pub closed spec fn rst_line(&self) -> RST {
        self.rst
    }

    /// Width of the panel in pixels.
    pub closed spec fn panel_width(&self) -> u16 {
        self.width
    }

    /// Height of the panel in pixels.
    pub closed spec fn panel_height(&self) -> u16 {
        self.height
    }

    /// A 240x240 panel driven through the given lines.
    pub fn new(dc: DC, rst: RST) -> (s: Self)
        ensures
            s.dc_line() == dc,
            s.rst_line() == rst,
            s.panel_width() == 240,
            s.panel_height() == 240,
    {
        ST7789 { dc, rst, width: 240, height: 240 }
    }

    /// The data/command line, for the code that drives the bus.
    pub fn dc_mut(&mut self) -> (r: &mut DC)
        ensures
            *r == old(self).dc_line(),
            final(self).dc_line() == *final(r),
            final(self).rst_line() == old(self).rst_line(),
            final(self).panel_width() == old(self).panel_width(),
            final(self).panel_height() == old(self).panel_height(),
    {
        &mut self.dc
    }

    /// The reset line, for the code that drives the bus.
    pub fn rst_mut(&mut self) -> (r: &mut RST)
        ensures
            *r == old(self).rst_line(),
            final(self).rst_line() == *final(r),
            final(self).dc_line() == old(self).dc_line(),
            final(self).panel_width() == old(self).panel_width(),
            final(self).panel_height() == old(self).panel_height(),
    {
        &mut self.rst
    }

    /// Hardware reset followed by the panel's initialisation sequence.
    pub fn init(&mut self, bus: &mut Bus)
        ensures
            final(bus)@ == old(bus)@ + init_ops(),
            *final(self) == *old(self),
    {
        push_init(bus);
    }

    /// Selects the drawing window with corners `(x0, y0)` and `(x1, y1)`
    /// and starts a memory write.
    pub fn set_address_window(&mut self, bus: &mut Bus, x0: u16, y0: u16, x1: u16, y1: u16)
        ensures
            final(bus)@ == old(bus)@ + window_ops(x0, y0, x1, y1),
            *final(self) == *old(self),
    {
        push_window(bus, x0, y0, x1, y1);
    }

    /// Fills the rectangle at `(x, y)` of size `w` by `h` with `color`,
    /// one pixel per transfer.
    pub fn fill_rect(&mut self, bus: &mut Bus, x: u16, y: u16, w: u16, h: u16, color: u16)
        requires
            fill_rect_fits(x, y, w, h),
        ensures
            final(bus)@ == old(bus)@ + pixel_fill_ops(x, y, w, h, color),
            *final(self) == *old(self),
    {
        if w == 0 || h == 0 {
            assert(bus@ =~= old(bus)@ + pixel_fill_ops(x, y, w, h, color));
            return ;
        }
        push_window(bus, x, y, x + w - 1, y + h - 1);
        let ghost b1 = bus@;
        let (hc, lc) = split_word(color);
        assert((w as u32) * (h as u32) <= 65535 * 65535) by (nonlinear_arith)
            requires
                w <= 65535,
                h <= 65535,
        ;
        let count: u32 = w as u32 * h as u32;
        let mut i: u32 = 0;
        while i < count
            invariant
                i <= count,
                count == w * h,
                hc == hi(color),
                lc == lo(color),
                bus@ =~~= b1 + Seq::new(i as nat, |j: int| OpView::Data(be(color))),
            decreases count - i,
        {
            let v = vec![hc, lc];
            assert(v@ =~= be(color));
            bus.data(v);
            i = i + 1;
            assert(bus@ =~~= b1 + Seq::new(i as nat, |j: int| OpView::Data(be(color))));
        }
        assert(bus@ =~~= old(bus)@ + pixel_fill_ops(x, y, w, h, color));
    }

    /// Fills the whole panel with `color`.
    pub fn fill_screen(&mut self, bus: &mut Bus, color: u16)
        ensures
            final(bus)@ == old(bus)@ + pixel_fill_ops(
                0,
                0,
                old(self).panel_width(),
                old(self).panel_height(),
                color,
            ),
            *final(self) == *old(self),
    {
        let w = self.width;
        let h = self.height;
        self.fill_rect(bus, 0, 0, w, h, color);
    }

    /// Sets the pixel at `(x, y)` to `color`.
    pub fn set_pixel(&mut self, bus: &mut Bus, x: u16, y: u16, color: u16)
        requires
            x < u16::MAX,
            y < u16::MAX,
        ensures
            final(bus)@ == old(bus)@ + pixel_fill_ops(x, y, 1, 1, color),
            *final(self) == *old(self),
    {
        self.fill_rect(bus, x, y, 1, 1, color);
    }

    /// Draws a column-major 1-bit bitmap of `width` by `height` pixels at
    /// `(x, y)`, one pixel per transfer: set bits in `color`, clear bits
    /// and bytes past the end of `bitmap` in `bg`.
    pub fn draw_bitmap(
        &mut self,
        bus: &mut Bus,
        x: u16,
        y: u16,
        bitmap: &[u8],
        width: u16,
        height: u16,
        color: u16,
        bg: u16,
    )
        requires
            bitmap_fits(x, y, width, height),
        ensures
            final(bus)@ == old(bus)@ + pixel_bitmap_ops(x, y, bitmap@, width, height, color, bg),
            *final(self) == *old(self),
    {
        push_window(bus, x, y, x + width - 1, y + height - 1);
        let ghost b1 = bus@;
        let ghost px = Seq::new(
            (height * width) as nat,
            |k: int|
                OpView::Data(
                    be(pick(bitmap_on(bitmap@, height, k / (width as int), k % (width as int)), color, bg)),
                ),
        );
        let mut row: u16 = 0;
        while row < height
            invariant
                row <= height,
                height + 7 <= u16::MAX,
                px == Seq::new(
                    (height * width) as nat,
                    |k: int|
                        OpView::Data(
                            be(
                                pick(
                                    bitmap_on(bitmap@, height, k / (width as int), k % (width as int)),
                                    color,
                                    bg,
                                ),
                            ),
                        ),
                ),
                bus@ =~~= b1 + px.take(row * width),
            decreases height - row,
        {
            let mut col: u16 = 0;
            while col < width
                invariant
                    col <= width,
                    row < height,
                    height + 7 <= u16::MAX,
                    px == Seq::new(
                        (height * width) as nat,
                        |k: int|
                            OpView::Data(
                                be(
                                    pick(
                                        bitmap_on(bitmap@, height, k / (width as int), k % (width as int)),
                                        color,
                                        bg,
                                    ),
                                ),
                            ),
                    ),
                    bus@ =~~= b1 + px.take(row * width + col),
                decreases width - col,
            {
                let on = bitmap_pixel(bitmap, height, row, col);
                let c = if on {
                    color
                } else {
                    bg
                };
                let (h, l) = split_word(c);
                let v = vec![h, l];
                assert(v@ =~= be(c));
                proof {
                    let k = row * width + col;
                    lemma_fundamental_div_mod_converse(k, width as int, row as int, col as int);
                    assert(k + 1 <= height * width) by (nonlinear_arith)
                        requires
                            row < height,
                            col < width,
                            k == row * width + col,
                    ;
                    assert(px[k] == OpView::Data(be(c)));
                    assert(px.take(k + 1) =~= px.take(k).push(px[k]));
                }
                bus.data(v);
                col = col + 1;
            }
            assert(row * width + width == (row + 1) * width) by (nonlinear_arith);
            row = row + 1;
        }
        assert(px.take(height * width) =~= px);
        assert(bus@ =~~= old(bus)@ + pixel_bitmap_ops(x, y, bitmap@, width, height, color, bg));
    }

    /// Draws a column-major 1-bit bitmap at twice its size: every source
    /// row is sent twice and every source column as two pixels in one
    /// transfer, the colour of each column being read back from a two-slot
    /// scratch buffer that holds, per column parity, the last column of
    /// that parity.
    pub fn draw_bitmap_scaled2x(
        &mut self,
        bus: &mut Bus,
        x: u16,
        y: u16,
        bitmap: &[u8],
        width: u16,
        height: u16,
        color: u16,
        bg: u16,
    )
        requires
            scaled_fits(x, y, width, height),
        ensures
            final(bus)@ == old(bus)@ + scaled_ops(x, y, bitmap@, width, height, color, bg),
            *final(self) == *old(self),
    {
        let sw = width * 2;
        let sh = height * 2;
        push_window(bus, x, y, x + sw - 1, y + sh - 1);
        let (hc, lc) = split_word(color);
        let (hb, lb) = split_word(bg);
        let ghost b1 = bus@;
        let ghost ops = Seq::new(
            (2 * height * width) as nat,
            |k: int|
                OpView::Data(
                    quad(
                        pick(
                            bitmap_on(
                                bitmap@,
                                height,
                                (k / (width as int)) / 2,
                                last_col_of_parity(width as int, (k % (width as int)) % 2),
                            ),
                            color,
                            bg,
                        ),
                    ),
                ),
        );
        let mut row: u16 = 0;
        while row < height
            invariant
                row <= height,
                2 * height <= u16::MAX,
                hc == hi(color),
                lc == lo(color),
                hb == hi(bg),
                lb == lo(bg),
                ops == Seq::new(
                    (2 * height * width) as nat,
                    |k: int|
                        OpView::Data(
                            quad(
                                pick(
                                    bitmap_on(
                                        bitmap@,
                                        height,
                                        (k / (width as int)) / 2,
                                        last_col_of_parity(width as int, (k % (width as int)) % 2),
                                    ),
                                    color,
                                    bg,
                                ),
                            ),
                        ),
                ),
                bus@ =~~= b1 + ops.take(2 * row * width),
            decreases height - row,
        {
            let ghost pc = |cc: int| pick(bitmap_on(bitmap@, height, row as int, cc), color, bg);
            let mut row_buf: [u8; 8] = [0u8; 8];
            let mut col: u16 = 0;
            while col < width
                invariant
                    col <= width,
                    row < height,
                    2 * height <= u16::MAX,
                    hc == hi(color),
                    lc == lo(color),
                    hb == hi(bg),
                    lb == lo(bg),
                    pc == (|cc: int| pick(bitmap_on(bitmap@, height, row as int, cc), color, bg)),
                    row_buf@.len() == 8,
                    forall|p: int, j: int|
                        0 <= p < 2 && p < col && 0 <= j < 4 ==> #[trigger] row_buf@[4 * p + j]
                            == pixel_byte(pc(last_col_of_parity(col as int, p)), j),
                decreases width - col,
            {
                let on = bitmap_pixel(bitmap, height, row, col);
                let (h, l) = if on {
                    (hc, lc)
                } else {
                    (hb, lb)
                };
                let ci = col as usize * 4;
                row_buf[ci % 8] = h;
                row_buf[ci % 8 + 1] = l;
                row_buf[ci % 8 + 2] = h;
                row_buf[ci % 8 + 3] = l;
                col = col + 1;
            }
            let mut pass: u16 = 0;
            while pass < 2
                invariant
                    pass <= 2,
                    row < height,
                    2 * height <= u16::MAX,
                    row_buf@.len() == 8,
                    forall|p: int, j: int|
                        0 <= p < 2 && p < width && 0 <= j < 4 ==> #[trigger] row_buf@[4 * p + j]
                            == pixel_byte(pc(last_col_of_parity(width as int, p)), j),
                    pc == (|cc: int| pick(bitmap_on(bitmap@, height, row as int, cc), color, bg)),
                    ops == Seq::new(
                        (2 * height * width) as nat,
                        |k: int|
                            OpView::Data(
                                quad(
                                    pick(
                                        bitmap_on(
                                            bitmap@,
                                            height,
                                            (k / (width as int)) / 2,
                                            last_col_of_parity(width as int, (k % (width as int)) % 2),
                                        ),
                                        color,
                                        bg,
                                    ),
                                ),
                            ),
                    ),
                    bus@ =~~= b1 + ops.take((2 * row + pass) * width),
                decreases 2 - pass,
            {
                let mut c2: u16 = 0;
                while c2 < width
                    invariant
                        c2 <= width,
                        pass < 2,
                        row < height,
                        2 * height <= u16::MAX,
                        row_buf@.len() == 8,
                        forall|p: int, j: int|
                            0 <= p < 2 && p < width && 0 <= j < 4 ==> #[trigger] row_buf@[4 * p + j]
                                == pixel_byte(pc(last_col_of_parity(width as int, p)), j),
                        pc == (|cc: int| pick(bitmap_on(bitmap@, height, row as int, cc), color, bg)),
                        ops == Seq::new(
                            (2 * height * width) as nat,
                            |k: int|
                                OpView::Data(
                                    quad(
                                        pick(
                                            bitmap_on(
                                                bitmap@,
                                                height,
                                                (k / (width as int)) / 2,
                                                last_col_of_parity(width as int, (k % (width as int)) % 2),
                                            ),
                                            color,
                                            bg,
                                        ),
                                    ),
                                ),
                        ),
                        bus@ =~~= b1 + ops.take((2 * row + pass) * width + c2),
                    decreases width - c2,
                {
                    let ci = (c2 as usize * 4) % 8;
                    let v = vec![row_buf[ci], row_buf[ci + 1], row_buf[ci + 2], row_buf[ci + 3]];
                    proof {
                        let p = (c2 % 2) as int;
                        assert(ci == 4 * p);
                        let cc = pc(last_col_of_parity(width as int, p));
                        assert(row_buf@[4 * p + 0] == pixel_byte(cc, 0));
                        assert(row_buf@[4 * p + 1] == pixel_byte(cc, 1));
                        assert(row_buf@[4 * p + 2] == pixel_byte(cc, 2));
                        assert(row_buf@[4 * p + 3] == pixel_byte(cc, 3));
                        assert(v@ =~= quad(cc));
                        let m = 2 * row + pass;
                        let k = m * width + c2;
                        lemma_fundamental_div_mod_converse(k, width as int, m as int, c2 as int);
                        assert(m / 2 == row);
                        assert(k + 1 <= 2 * height * width) by (nonlinear_arith)
                            requires
                                m < 2 * height,
                                c2 < width,
                                k == m * width + c2,
                        ;
                        assert(ops[k] == OpView::Data(quad(cc)));
                        assert(ops.take(k + 1) =~= ops.take(k).push(ops[k]));
                    }
                    bus.data(v);
                    c2 = c2 + 1;
                }
                assert((2 * row + pass) * width + width == (2 * row + pass + 1) * width)
                    by (nonlinear_arith);
                pass = pass + 1;
            }
            assert((2 * row + 2) * width == 2 * (row + 1) * width) by (nonlinear_arith);
            row = row + 1;
        }
        assert(ops.take(2 * height * width) =~= ops);
        assert(bus@ =~~= old(bus)@ + scaled_ops(x, y, bitmap@, width, height, color, bg));
    }
}

} // verus!
