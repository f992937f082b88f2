//! Driver logic for a 240x240 ST7789 panel: every drawing call appends to a
//! [`Bus`] the exact transfers that the panel has to receive.
use vstd::prelude::*;
use crate::ops::{Bus, OpView};
use crate::raster::{
    LineState,
    bresenham_err,
    cat,
    edge_line_ops,
    edge_lines_ops,
    edge_marks,
    edge_row_fits,
    edges_rect_fits,
    edges_rect_ops,
    edges_row,
    fits_i16,
    lemma_bresenham_step,
    lemma_crossing_quotient,
    lemma_edge_lines_prefix,
    line_batch,
    line_ops,
    line_params,
    line_run,
    marked,
    prepend,
    proj_pt,
    quad_ops,
    rect_screen_y,
    slope,
    sort3,
    span_ops,
    tdiv,
    tri_rows,
    triangle_ops,
    wrap_i32,
};

verus! {

/// Length in bytes of the panel driver's scratch row (240 RGB565 pixels).
pub const ROW_BUF_LEN: usize = 480;

/// High byte of a 16-bit word.
pub open spec fn hi(v: u16) -> u8 {
    (v / 256) as u8
}

/// Low byte of a 16-bit word.
pub open spec fn lo(v: u16) -> u8 {
    (v % 256) as u8
}

/// A 16-bit word in big-endian byte order, as the panel expects it.
pub open spec fn be(v: u16) -> Seq<u8> {
    seq![hi(v), lo(v)]
}

/// `n` pixels of one RGB565 colour.
pub open spec fn solid(n: nat, color: u16) -> Seq<u8> {
    Seq::new(2 * n, |i: int| if i % 2 == 0 { hi(color) } else { lo(color) })
}

/// Transfers that select the drawing window with corners `(x0, y0)` and
/// `(x1, y1)` (CASET, RASET) and start a memory write (RAMWR).
pub open spec fn window_ops(x0: u16, y0: u16, x1: u16, y1: u16) -> Seq<OpView> {
    seq![
        OpView::Command(0x2A),
        OpView::Data(be(x0) + be(x1)),
        OpView::Command(0x2B),
        OpView::Data(be(y0) + be(y1)),
        OpView::Command(0x2C),
    ]
}

/// `n` transfers, each of one row of data.
pub open spec fn data_rows(n: nat, row: Seq<u8>) -> Seq<OpView> {
    Seq::new(n, |i: int| OpView::Data(row))
}

/// Transfers that fill the rectangle at `(x, y)` of size `w` by `h`.
pub open spec fn fill_rect_ops(x: u16, y: u16, w: u16, h: u16, color: u16) -> Seq<OpView> {
    if w == 0 || h == 0 {
        Seq::empty()
    } else {
        window_ops(x, y, (x + w - 1) as u16, (y + h - 1) as u16) + data_rows(
            h as nat,
            solid(w as nat, color),
        )
    }
}

/// Whether `fill_rect` computes its window corners without overflow.
pub open spec fn fill_rect_fits(x: u16, y: u16, w: u16, h: u16) -> bool {
    w == 0 || h == 0 || (x + w <= u16::MAX && y + h <= u16::MAX)
}

/// The initialisation sequence: hardware reset, sleep out, colour mode
/// RGB565, porch, gate, VCOM, power and gamma settings, inversion on and
/// display on.
pub open spec fn init_ops() -> Seq<OpView> {
    seq![
        OpView::Reset(false),
        OpView::DelayMs(10),
        OpView::Reset(true),
        OpView::DelayMs(120),
        OpView::Command(0x11),
        OpView::DelayMs(120),
        OpView::Command(0x36),
        OpView::Data(seq![0x00u8]),
        OpView::Command(0x3A),
        OpView::Data(seq![0x05u8]),
        OpView::Command(0xB2),
        OpView::Data(seq![0x0Cu8, 0x0C, 0x00, 0x33, 0x33]),
        OpView::Command(0xB7),
        OpView::Data(seq![0x35u8]),
        OpView::Command(0xBB),
        OpView::Data(seq![0x19u8]),
        OpView::Command(0xC0),
        OpView::Data(seq![0x2Cu8]),
        OpView::Command(0xC2),
        OpView::Data(seq![0x01u8]),
        OpView::Command(0xC3),
        OpView::Data(seq![0x12u8]),
        OpView::Command(0xC4),
        OpView::Data(seq![0x20u8]),
        OpView::Command(0xC6),
        OpView::Data(seq![0x0Fu8]),
        OpView::Command(0xD0),
        OpView::Data(seq![0xA4u8, 0xA1]),
        OpView::Command(0xE0),
        OpView::Data(
            seq![0xD0u8, 0x04, 0x0D, 0x11, 0x13, 0x2B, 0x3F, 0x54, 0x4C, 0x18, 0x0D, 0x0B, 0x1F, 0x23],
        ),
        OpView::Command(0xE1),
        OpView::Data(
            seq![0xD0u8, 0x04, 0x0C, 0x11, 0x13, 0x2C, 0x3F, 0x44, 0x51, 0x2F, 0x1F, 0x1F, 0x20, 0x23],
        ),
        OpView::Command(0x21),
        OpView::Command(0x29),
        OpView::DelayMs(20),
    ]
}

/// Byte `i` of a run of RGB565 pixels of colour `c`: high byte at even
/// positions, low byte at odd ones.
pub open spec fn pixel_byte(c: u16, i: int) -> u8 {
    if i % 2 == 0 {
        hi(c)
    } else {
        lo(c)
    }
}

/// Whether bit `k` of `b` is set.
pub open spec fn bit_set(b: u8, k: u8) -> bool {
    (b >> k) & 1 == 1
}

/// Bytes per column of a column-major 1-bit bitmap of the given height.
pub open spec fn bytes_per_col(height: u16) -> int {
    (height + 7) / 8
}

/// Whether the column-major 1-bit bitmap has the pixel at `(row, col)` set;
/// pixels whose byte lies past the end of the bitmap are clear.
pub open spec fn bitmap_on(bitmap: Seq<u8>, height: u16, row: int, col: int) -> bool {
    let idx = col * bytes_per_col(height) + row / 8;
    idx < bitmap.len() && bit_set(bitmap[idx], (row % 8) as u8)
}

/// A column-major 1-bit bitmap of height `height` gives each column the
/// fewest whole bytes that hold `height` bits: `n` bytes with
/// `8 * (n - 1) < height <= 8 * n`. Pixel `(row, col)` of the picture is
/// bit `row % 8` of byte `col * n + row / 8`, so a column's pixels lie in
/// its own `n` bytes and the columns follow each other without gaps; for a
/// height of 8 the pixels of column `col` are the bits of byte `col`.
pub proof fn lemma_bitmap_layout(bitmap: Seq<u8>, height: u16, row: int, col: int)
    requires
        0 < height,
        0 <= row < height,
        0 <= col,
    ensures
        8 * (bytes_per_col(height) - 1) < height <= 8 * bytes_per_col(height),
        col * bytes_per_col(height) <= col * bytes_per_col(height) + row / 8 < (col + 1)
            * bytes_per_col(height),
        bitmap_on(bitmap, height, row, col) == {
            let idx = col * bytes_per_col(height) + row / 8;
            idx < bitmap.len() && (bitmap[idx] >> ((row % 8) as u8)) & 1 == 1
        },
        height == 8 ==> bitmap_on(bitmap, height, row, col) == (col < bitmap.len() && (bitmap[col]
            >> (row as u8)) & 1 == 1),
{
    let n = bytes_per_col(height);
    assert(row / 8 < n);
    assert((col + 1) * n == col * n + n) by (nonlinear_arith);
    if height == 8 {
        assert(n == 1);
        assert(row / 8 == 0 && row % 8 == row);
    }
}

/// Foreground or background colour.
pub open spec fn pick(on: bool, color: u16, bg: u16) -> u16 {
    if on {
        color
    } else {
        bg
    }
}

/// The pixel bytes of one row of a bitmap drawn at natural size.
pub open spec fn bitmap_row(
    bitmap: Seq<u8>,
    width: u16,
    height: u16,
    row: int,
    color: u16,
    bg: u16,
) -> Seq<u8> {
    Seq::new(
        2 * width as nat,
        |i: int| pixel_byte(pick(bitmap_on(bitmap, height, row, i / 2), color, bg), i),
    )
}

/// Whether `draw_bitmap` computes its window without overflow.
pub open spec fn bitmap_fits(x: u16, y: u16, width: u16, height: u16) -> bool {
    &&& height + 7 <= u16::MAX
    &&& 1 <= x + width <= u16::MAX
    &&& 1 <= y + height <= u16::MAX
}

/// Transfers that draw a bitmap at natural size.
pub open spec fn bitmap_ops(
    x: u16,
    y: u16,
    bitmap: Seq<u8>,
    width: u16,
    height: u16,
    color: u16,
    bg: u16,
) -> Seq<OpView> {
    window_ops(x, y, (x + width - 1) as u16, (y + height - 1) as u16) + Seq::new(
        height as nat,
        |r: int| OpView::Data(bitmap_row(bitmap, width, height, r, color, bg)),
    )
}

/// Whether pixel `(row, col)` of a column-major 1-bit bitmap is set.
pub fn bitmap_pixel(bitmap: &[u8], height: u16, row: u16, col: u16) -> (on: bool)
    requires
        height + 7 <= u16::MAX,
    ensures
        on == bitmap_on(bitmap@, height, row as int, col as int),
{
    let bpc: usize = ((height + 7) / 8) as usize;
    assert(col as usize * bpc <= 65535 * 8192) by (nonlinear_arith)
        requires
            bpc <= 8192,
    ;
    let byte_idx = col as usize * bpc + row as usize / 8;
    let bit_idx = (row % 8) as u8;
    if byte_idx < bitmap.len() {
        let b = bitmap[byte_idx];
        let on = b & (1u8 << bit_idx) != 0;
        assert(on == ((b >> bit_idx) & 1 == 1)) by (bit_vector)
            requires
                bit_idx < 8,
                on == (b & (1u8 << bit_idx) != 0),
        ;
        on
    } else {
        false
    }
}

/// The two bytes of pixel `k` in a row buffer.
pub open spec fn buf_pixel(buf: Seq<u8>, k: int) -> (u8, u8) {
    (buf[2 * k], buf[2 * k + 1])
}

/// Edge colour where one of the first `n` edges marks column `px` of row
/// `sy`, background elsewhere.
pub open spec fn marked_color(
    edges: [(usize, usize); 12],
    n: int,
    proj: [[i16; 2]; 8],
    sy: int,
    px: int,
    bg: u16,
    fg: u16,
) -> u16 {
    if marked(edges, n, proj, sy, px) {
        fg
    } else {
        bg
    }
}

/// Whether the first `rw` pixels of `buf` show the marks of the first `n`
/// edges on row `sy`, the buffer starting at screen column `rxi`.
pub open spec fn row_shows_marks(
    buf: Seq<u8>,
    rw: int,
    rxi: int,
    edges: [(usize, usize); 12],
    n: int,
    proj: [[i16; 2]; 8],
    sy: int,
    bg: u16,
    fg: u16,
) -> bool {
    &&& buf.len() == ROW_BUF_LEN
    &&& forall|k: int|
        0 <= k < rw ==> #[trigger] buf_pixel(buf, k) == (
            hi(marked_color(edges, n, proj, sy, rxi + k, bg, fg)),
            lo(marked_color(edges, n, proj, sy, rxi + k, bg, fg)),
        )
}

/// Packs 8-bit red, green and blue channels into an RGB565 colour: the top
/// five bits of red, six of green and five of blue.
pub fn rgb565(r: u8, g: u8, b: u8) -> (c: u16)
    ensures
        c == (r as int / 8) * 2048 + (g as int / 4) * 32 + b as int / 8,
{
    let c = ((r as u16 & 0xF8) << 8) | ((g as u16 & 0xFC) << 3) | (b as u16 >> 3);
    assert(c == (r as int / 8) * 2048 + (g as int / 4) * 32 + b as int / 8) by (bit_vector)
        requires
            c == ((r as u16 & 0xF8) << 8) | ((g as u16 & 0xFC) << 3) | (b as u16 >> 3),
    ;
    c
}

/// Splits a word into its high and low byte.
pub fn split_word(v: u16) -> (r: (u8, u8))
    ensures
        r.0 == hi(v),
        r.1 == lo(v),
{
    let h = (v >> 8) as u8;
    let l = (v & 0xFF) as u8;
    assert(h == (v / 256) as u8 && l == (v % 256) as u8) by (bit_vector)
        requires
            h == (v >> 8) as u8,
            l == (v & 0xFF) as u8,
    ;
    (h, l)
}

/// A row of `n` pixels of one colour.
fn solid_row(n: usize, color: u16) -> (row: Vec<u8>)
    requires
        n <= usize::MAX / 2,
    ensures
        row@ == solid(n as nat, color),
{
    let (h, l) = split_word(color);
    let mut row: Vec<u8> = Vec::new();
    let mut i: usize = 0;
    while i < n
        invariant
            i <= n,
            n <= usize::MAX / 2,
            h == hi(color),
            l == lo(color),
            row@ =~= solid(i as nat, color),
        decreases n - i,
    {
        row.push(h);
        row.push(l);
        i = i + 1;
        assert(row@ =~= solid(i as nat, color));
    }
    row
}

/// The 16.16 fixed-point slope of the edge from `(xa, ya)` down to
/// `(xb, yb)`, or 0 for a flat edge.
pub(crate) fn fixed_slope(xa: i16, ya: i16, xb: i16, yb: i16) -> (r: i32)
    requires
        ya <= yb,
    ensures
        r == slope(xa as int, ya as int, xb as int, yb as int),
{
    if yb != ya {
        let d: i32 = (xb as i32) - (xa as i32);
        let n: i32 = d << 16;
        assert(n == wrap_i32(d * 65536)) by (bit_vector)
            requires
                n == d << 16,
        ;
        let den: i32 = (yb as i32) - (ya as i32);
        let q = n / den;
        assert(q == tdiv(n as int, den as int));
        q
    } else {
        0
    }
}

/// Appends the hardware reset and the initialisation sequence.
pub(crate) fn push_init(bus: &mut Bus)
    ensures
        final(bus)@ == old(bus)@ + init_ops(),
{
    let ghost b0 = bus@;
    bus.reset(false);
    bus.delay_ms(10);
    bus.reset(true);
    bus.delay_ms(120);
    bus.command(0x11);
    bus.delay_ms(120);
    bus.command(0x36);
    {
        let d = vec![0x00];
        assert(d@ =~= seq![0x00u8]);
        bus.data(d);
    }
    bus.command(0x3A);
    {
        let d = vec![0x05];
        assert(d@ =~= seq![0x05u8]);
        bus.data(d);
    }
    bus.command(0xB2);
    {
        let d = vec![0x0C, 0x0C, 0x00, 0x33, 0x33];
        assert(d@ =~= seq![0x0Cu8, 0x0C, 0x00, 0x33, 0x33]);
        bus.data(d);
    }
    bus.command(0xB7);
    {
        let d = vec![0x35];
        assert(d@ =~= seq![0x35u8]);
        bus.data(d);
    }
    bus.command(0xBB);
    {
        let d = vec![0x19];
        assert(d@ =~= seq![0x19u8]);
        bus.data(d);
    }
    bus.command(0xC0);
    {
        let d = vec![0x2C];
        assert(d@ =~= seq![0x2Cu8]);
        bus.data(d);
    }
    bus.command(0xC2);
    {
        let d = vec![0x01];
        assert(d@ =~= seq![0x01u8]);
        bus.data(d);
    }
    bus.command(0xC3);
    {
        let d = vec![0x12];
        assert(d@ =~= seq![0x12u8]);
        bus.data(d);
    }
    bus.command(0xC4);
    {
        let d = vec![0x20];
        assert(d@ =~= seq![0x20u8]);
        bus.data(d);
    }
    bus.command(0xC6);
    {
        let d = vec![0x0F];
        assert(d@ =~= seq![0x0Fu8]);
        bus.data(d);
    }
    bus.command(0xD0);
    {
        let d = vec![0xA4, 0xA1];
        assert(d@ =~= seq![0xA4u8, 0xA1]);
        bus.data(d);
    }
    bus.command(0xE0);
    {
        let d = vec![0xD0, 0x04, 0x0D, 0x11, 0x13, 0x2B, 0x3F, 0x54, 0x4C, 0x18, 0x0D, 0x0B, 0x1F, 0x23];
        assert(d@ =~= seq![0xD0u8, 0x04, 0x0D, 0x11, 0x13, 0x2B, 0x3F, 0x54, 0x4C, 0x18, 0x0D, 0x0B, 0x1F, 0x23]);
        bus.data(d);
    }
    bus.command(0xE1);
    {
        let d = vec![0xD0, 0x04, 0x0C, 0x11, 0x13, 0x2C, 0x3F, 0x44, 0x51, 0x2F, 0x1F, 0x1F, 0x20, 0x23];
        assert(d@ =~= seq![0xD0u8, 0x04, 0x0C, 0x11, 0x13, 0x2C, 0x3F, 0x44, 0x51, 0x2F, 0x1F, 0x1F, 0x20, 0x23]);
        bus.data(d);
    }
    bus.command(0x21);
    bus.command(0x29);
    bus.delay_ms(20);
    assert(bus@ =~~= b0 + init_ops());
}

/// Appends the selection of the drawing window with corners `(x0, y0)`
/// and `(x1, y1)` and the start of a memory write.
pub(crate) fn push_window(bus: &mut Bus, x0: u16, y0: u16, x1: u16, y1: u16)
    ensures
        final(bus)@ == old(bus)@ + window_ops(x0, y0, x1, y1),
{
    let ghost b0 = bus@;
    let (x0h, x0l) = split_word(x0);
    let (x1h, x1l) = split_word(x1);
    let (y0h, y0l) = split_word(y0);
    let (y1h, y1l) = split_word(y1);
    let xs = vec![x0h, x0l, x1h, x1l];
    assert(xs@ =~= be(x0) + be(x1));
    let ys = vec![y0h, y0l, y1h, y1l];
    assert(ys@ =~= be(y0) + be(y1));
    bus.command(0x2A);
    bus.data(xs);
    bus.command(0x2B);
    bus.data(ys);
    bus.command(0x2C);
    assert(bus@ =~~= b0 + window_ops(x0, y0, x1, y1));
}

/// An ST7789 panel with its data/command and reset lines.
pub struct ST7789<DC, RST> {
    dc: DC,
    rst: RST,
    width: u16,
    height: u16,
    row_buf: [u8; ROW_BUF_LEN],
}

impl<DC, RST> ST7789<DC, RST> {
    /// The data/command line.
    pub closed spec fn dc_line(&self) -> DC {
        self.dc
    }

    /// The reset line.
    pub closed spec fn rst_line(&self) -> RST {
        self.rst
    }

    /// Width of the panel in pixels.
    pub closed spec fn panel_width(&self) -> u16 {
        self.width
    }

    /// Height of the panel in pixels.
    pub closed spec fn panel_height(&self) -> u16 {
        self.height
    }

    /// Contents of the scratch row buffer.
    pub closed spec fn row_buffer(&self) -> Seq<u8> {
        self.row_buf@
    }

    /// The scratch row holds 240 pixels.
    pub proof fn lemma_row_buffer_len(&self)
        ensures
            self.row_buffer().len() == ROW_BUF_LEN,
    {
    }

    /// A 240x240 panel driven through the given lines.
    pub fn new(dc: DC, rst: RST) -> (s: Self)
        ensures
            s.dc_line() == dc,
            s.rst_line() == rst,
            s.panel_width() == 240,
            s.panel_height() == 240,
            s.row_buffer() == Seq::new(ROW_BUF_LEN as nat, |i: int| 0u8),
    {
        let s = ST7789 { dc, rst, width: 240, height: 240, row_buf: [0u8; 480] };
        assert(s.row_buf@ =~= Seq::new(ROW_BUF_LEN as nat, |i: int| 0u8));
        s
    }

    /// The data/command line, for the code that drives the bus.
    pub fn dc_mut(&mut self) -> (r: &mut DC)
        ensures
            *r == old(self).dc_line(),
            final(self).dc_line() == *final(r),
            final(self).rst_line() == old(self).rst_line(),
            final(self).panel_width() == old(self).panel_width(),
            final(self).panel_height() == old(self).panel_height(),
            final(self).row_buffer() == old(self).row_buffer(),
    {
        &mut self.dc
    }

    /// The reset line, for the code that drives the bus.
    pub fn rst_mut(&mut self) -> (r: &mut RST)
        ensures
            *r == old(self).rst_line(),
            final(self).rst_line() == *final(r),
            final(self).dc_line() == old(self).dc_line(),
            final(self).panel_width() == old(self).panel_width(),
            final(self).panel_height() == old(self).panel_height(),
            final(self).row_buffer() == old(self).row_buffer(),
    {
        &mut self.rst
    }

    /// Hardware reset followed by the panel's initialisation sequence.
    pub fn init(&mut self, bus: &mut Bus)
        ensures
            final(bus)@ == old(bus)@ + init_ops(),
            *final(self) == *old(self),
    {
        push_init(bus);
    }

    /// Selects the drawing window with corners `(x0, y0)` and `(x1, y1)`
    /// and starts a memory write.
    pub fn set_address_window(&mut self, bus: &mut Bus, x0: u16, y0: u16, x1: u16, y1: u16)
        ensures
            final(bus)@ == old(bus)@ + window_ops(x0, y0, x1, y1),
            *final(self) == *old(self),
    {
        push_window(bus, x0, y0, x1, y1);
    }

    /// Fills the first `w` pixels of the scratch row with `color`.
    pub fn fill_row_buf(&mut self, w: usize, color: u16)
        requires
            w <= ROW_BUF_LEN / 2,
        ensures
            final(self).row_buffer() == solid(w as nat, color) + old(self).row_buffer().skip(
                2 * w,
            ),
            final(self).dc_line() == old(self).dc_line(),
            final(self).rst_line() == old(self).rst_line(),
            final(self).panel_width() == old(self).panel_width(),
            final(self).panel_height() == old(self).panel_height(),
    {
        let (h, l) = split_word(color);
        let ghost old_buf = self.row_buf@;
        let mut k: usize = 0;
        while k < w
            invariant
                w <= ROW_BUF_LEN / 2,
                k <= w,
                h == hi(color),
                l == lo(color),
                self.row_buf@.len() == ROW_BUF_LEN,
                old_buf.len() == ROW_BUF_LEN,
                self.row_buf@ =~= solid(k as nat, color) + old_buf.skip(2 * k),
                self.dc == old(self).dc,
                self.rst == old(self).rst,
                self.width == old(self).width,
                self.height == old(self).height,
            decreases w - k,
        {
            let ghost prev = self.row_buf@;
            let i = 2 * k;
            self.row_buf[i] = h;
            self.row_buf[i + 1] = l;
            assert forall|j: int| 0 <= j < ROW_BUF_LEN implies #[trigger] self.row_buf@[j] == (
            solid((k + 1) as nat, color) + old_buf.skip(2 * k + 2))[j] by {
                if j < 2 * k {
                    assert(prev[j] == solid(k as nat, color)[j]);
                } else if j == 2 * k || j == 2 * k + 1 {
                } else {
                    assert(prev[j] == old_buf.skip(2 * k)[j - 2 * k]);
                }
            }
            k = k + 1;
            assert(self.row_buf@ =~= solid(k as nat, color) + old_buf.skip(2 * k));
        }
    }

    /// Fills the rectangle at `(x, y)` of size `w` by `h` with `color`.
    pub fn fill_rect(&mut self, bus: &mut Bus, x: u16, y: u16, w: u16, h: u16, color: u16)
        requires
            fill_rect_fits(x, y, w, h),
        ensures
            final(bus)@ == old(bus)@ + fill_rect_ops(x, y, w, h, color),
            final(self).dc_line() == old(self).dc_line(),
            final(self).rst_line() == old(self).rst_line(),
            final(self).panel_width() == old(self).panel_width(),
            final(self).panel_height() == old(self).panel_height(),
    {
        if w == 0 || h == 0 {
            assert(bus@ =~= old(bus)@ + fill_rect_ops(x, y, w, h, color));
            return ;
        }
        self.set_address_window(bus, x, y, x + w - 1, y + h - 1);
        let ghost b1 = bus@;
        let row: Vec<u8> = if (w as usize) <= ROW_BUF_LEN / 2 {
            self.row_prefix(w as usize, color)
        } else {
            solid_row(w as usize, color)
        };
        let mut r: u16 = 0;
        while r < h
            invariant
                r <= h,
                row@ == solid(w as nat, color),
                bus@ =~= b1 + data_rows(r as nat, solid(w as nat, color)),
            decreases h - r,
        {
            bus.data(row.clone());
            r = r + 1;
            assert(bus@ =~= b1 + data_rows(r as nat, solid(w as nat, color)));
        }
        assert(bus@ =~= old(bus)@ + fill_rect_ops(x, y, w, h, color));
    }

    /// Fills the whole panel with `color`.
    pub fn fill_screen(&mut self, bus: &mut Bus, color: u16)
        ensures
            final(bus)@ == old(bus)@ + fill_rect_ops(
                0,
                0,
                old(self).panel_width(),
                old(self).panel_height(),
                color,
            ),
            final(self).dc_line() == old(self).dc_line(),
            final(self).rst_line() == old(self).rst_line(),
            final(self).panel_width() == old(self).panel_width(),
            final(self).panel_height() == old(self).panel_height(),
    {
        let w = self.width;
        let h = self.height;
        self.fill_rect(bus, 0, 0, w, h, color);
    }

    /// Draws a column-major 1-bit bitmap of `width` by `height` pixels at
    /// `(x, y)`: set bits in `color`, clear bits and bytes past the end of
    /// `bitmap` in `bg`.
    pub fn draw_bitmap(
        &mut self,
        bus: &mut Bus,
        x: u16,
        y: u16,
        bitmap: &[u8],
        width: u16,
        height: u16,
        color: u16,
        bg: u16,
    )
        requires
            bitmap_fits(x, y, width, height),
        ensures
            final(bus)@ == old(bus)@ + bitmap_ops(x, y, bitmap@, width, height, color, bg),
            *final(self) == *old(self),
    {
        self.set_address_window(bus, x, y, x + width - 1, y + height - 1);
        let ghost b1 = bus@;
        let ghost rows = Seq::new(
            height as nat,
            |r: int| OpView::Data(bitmap_row(bitmap@, width, height, r, color, bg)),
        );
        let mut row: u16 = 0;
        while row < height
            invariant
                row <= height,
                height + 7 <= u16::MAX,
                rows == Seq::new(
                    height as nat,
                    |r: int| OpView::Data(bitmap_row(bitmap@, width, height, r, color, bg)),
                ),
                bus@ =~= b1 + rows.take(row as int),
            decreases height - row,
        {
            let mut buf: Vec<u8> = Vec::new();
            let mut col: u16 = 0;
            while col < width
                invariant
                    col <= width,
                    row < height,
                    height + 7 <= u16::MAX,
                    buf@ =~= bitmap_row(bitmap@, width, height, row as int, color, bg).take(
                        2 * col as int,
                    ),
                decreases width - col,
            {
                let on = bitmap_pixel(bitmap, height, row, col);
                let c = if on {
                    color
                } else {
                    bg
                };
                let (h, l) = split_word(c);
                buf.push(h);
                buf.push(l);
                col = col + 1;
                assert(buf@ =~= bitmap_row(bitmap@, width, height, row as int, color, bg).take(
                    2 * col as int,
                ));
            }
            assert(buf@ =~= bitmap_row(bitmap@, width, height, row as int, color, bg));
            bus.data(buf);
            row = row + 1;
            assert(rows.take(row as int) =~~= rows.take(row - 1).push(rows[row - 1]));
        }
        assert(rows.take(height as int) =~= rows);
        assert(bus@ =~~= old(bus)@ + bitmap_ops(x, y, bitmap@, width, height, color, bg));
    }

    /// Fills the first `n` pixels of the scratch row with `color` and
    /// returns a copy of them.
    fn row_prefix(&mut self, n: usize, color: u16) -> (row: Vec<u8>)
        requires
            n <= ROW_BUF_LEN / 2,
        ensures
            row@ == solid(n as nat, color),
            final(self).dc_line() == old(self).dc_line(),
            final(self).rst_line() == old(self).rst_line(),
            final(self).panel_width() == old(self).panel_width(),
            final(self).panel_height() == old(self).panel_height(),
    {
        self.fill_row_buf(n, color);
        let mut row: Vec<u8> = Vec::new();
        let mut k: usize = 0;
        while k < 2 * n
            invariant
                k <= 2 * n,
                n <= ROW_BUF_LEN / 2,
                self.row_buf@.len() == ROW_BUF_LEN,
                self.row_buf@.take(2 * n as int) =~= solid(n as nat, color),
                row@ =~= self.row_buf@.take(k as int),
            decreases 2 * n - k,
        {
            row.push(self.row_buf[k]);
            k = k + 1;
            assert(row@ =~= self.row_buf@.take(k as int));
        }
        row
    }

    /// Paints the span between `x0` and `x1` on row `y`, clipped to the
    /// screen.
    fn flush_line_span(&mut self, bus: &mut Bus, y: i16, x0: i16, x1: i16, color: u16)
        requires
            span_ops(y as int, x0 as int, x1 as int, color) is Some,
        ensures
            final(bus)@ == old(bus)@ + span_ops(y as int, x0 as int, x1 as int, color).unwrap(),
            final(self).dc_line() == old(self).dc_line(),
            final(self).rst_line() == old(self).rst_line(),
            final(self).panel_width() == old(self).panel_width(),
            final(self).panel_height() == old(self).panel_height(),
    {
        if y < 0 || y >= 240 {
            assert(bus@ =~= old(bus)@ + Seq::<OpView>::empty());
            return ;
        }
        let mut l = if x0 < x1 {
            x0
        } else {
            x1
        };
        let mut r = if x0 > x1 {
            x0
        } else {
            x1
        };
        if l < 0 {
            l = 0;
        }
        if r >= 240 {
            r = 239;
        }
        let count = r - l + 1;
        if count == 0 {
            assert(bus@ =~= old(bus)@ + Seq::<OpView>::empty());
            return ;
        }
        self.set_address_window(bus, l as u16, y as u16, r as u16, y as u16);
        let row = self.row_prefix(count as usize, color);
        bus.data(row);
        assert(bus@ =~~= old(bus)@ + span_ops(y as int, x0 as int, x1 as int, color).unwrap());
    }

    /// Draws a line from `(x0, y0)` to `(x1, y1)` with Bresenham's
    /// algorithm, sending each run of pixels on one row as a single span.
    pub fn draw_line(&mut self, bus: &mut Bus, x0: i16, y0: i16, x1: i16, y1: i16, color: u16)
        requires
            line_ops(x0, y0, x1, y1, color) is Some,
        ensures
            final(bus)@ == old(bus)@ + line_ops(x0, y0, x1, y1, color).unwrap(),
            final(self).dc_line() == old(self).dc_line(),
            final(self).rst_line() == old(self).rst_line(),
            final(self).panel_width() == old(self).panel_width(),
            final(self).panel_height() == old(self).panel_height(),
    {
        let ghost p = line_params(x0, y0, x1, y1, color);
        let ghost b0 = bus@;
        let mut x = x0;
        let mut y = y0;
        let ddx = x1 - x0;
        let dx: i16 = if ddx < 0 {
            -ddx
        } else {
            ddx
        };
        let ddy = y1 - y0;
        let ady: i16 = if ddy < 0 {
            -ddy
        } else {
            ddy
        };
        let dy: i16 = -ady;
        let sx: i16 = if x0 < x1 {
            1
        } else {
            -1
        };
        let sy: i16 = if y0 < y1 {
            1
        } else {
            -1
        };
        let mut err: i16 = dx + dy;
        let mut batch_y = y0;
        let mut batch_min_x = x0;
        let mut batch_max_x = x0;
        let ghost mut fuel: nat = (p.dx - p.dy + 1) as nat;
        let ghost mut i: int = 0;
        let ghost mut j: int = 0;
        let ghost mut emitted: Seq<OpView> = Seq::empty();
        assert(bus@ =~= b0 + emitted);
        assert(bresenham_err(dx as int, -dy, 0, 0) == dx + dy) by (nonlinear_arith);
        loop
            invariant_except_break
                line_ops(x0, y0, x1, y1, color) is Some,
                p == line_params(x0, y0, x1, y1, color),
                dx == p.dx,
                dy == p.dy,
                sx == p.sx,
                sy == p.sy,
                0 <= i <= dx,
                0 <= j <= -dy,
                x0 < x1 ==> x == x0 + i,
                x0 >= x1 ==> x == x0 - i,
                y0 < y1 ==> y == y0 + j,
                y0 >= y1 ==> y == y0 - j,
                err == bresenham_err(dx as int, -dy, i, j),
                fuel >= (dx - i) + (-dy - j) + 1,
                bus@ == b0 + emitted,
                line_ops(x0, y0, x1, y1, color) == cat(
                    Some(emitted),
                    line_run(
                        p,
                        LineState {
                            x: x as int,
                            y: y as int,
                            err: err as int,
                            batch_y: batch_y as int,
                            batch_min: batch_min_x as int,
                            batch_max: batch_max_x as int,
                        },
                        fuel,
                    ),
                ),
                self.dc_line() == old(self).dc_line(),
                self.rst_line() == old(self).rst_line(),
                self.panel_width() == old(self).panel_width(),
                self.panel_height() == old(self).panel_height(),
            ensures
                bus@ == b0 + emitted,
                line_ops(x0, y0, x1, y1, color) == cat(
                    Some(emitted),
                    span_ops(batch_y as int, batch_min_x as int, batch_max_x as int, color),
                ),
                self.dc_line() == old(self).dc_line(),
                self.rst_line() == old(self).rst_line(),
                self.panel_width() == old(self).panel_width(),
                self.panel_height() == old(self).panel_height(),
            decreases (dx - i) + (-dy - j),
        {
            let ghost s = LineState {
                x: x as int,
                y: y as int,
                err: err as int,
                batch_y: batch_y as int,
                batch_min: batch_min_x as int,
                batch_max: batch_max_x as int,
            };
            let ghost (closed, bst) = line_batch(p, s);
            assert(line_run(p, s, fuel) is Some);
            assert(fuel > 0);
            assert(closed is Some);
            if y == batch_y {
                if x < batch_min_x {
                    batch_min_x = x;
                }
                if x > batch_max_x {
                    batch_max_x = x;
                }
            } else {
                self.flush_line_span(bus, batch_y, batch_min_x, batch_max_x, color);
                batch_y = y;
                batch_min_x = x;
                batch_max_x = x;
            }
            proof {
                emitted = emitted + closed.unwrap();
            }
            assert(bus@ =~= b0 + emitted);
            if x == x1 && y == y1 {
                break;
            }
            proof {
                lemma_bresenham_step(dx as int, -dy, i, j);
            }
            let e2 = 2 * err;
            if e2 >= dy {
                err = err + dy;
                x = x + sx;
                proof {
                    i = i + 1;
                }
            }
            if e2 <= dx {
                err = err + dx;
                y = y + sy;
                proof {
                    j = j + 1;
                }
            }
            proof {
                fuel = (fuel - 1) as nat;
            }
        }
        self.flush_line_span(bus, batch_y, batch_min_x, batch_max_x, color);
        assert(bus@ =~= old(bus)@ + line_ops(x0, y0, x1, y1, color).unwrap());
    }

    /// Paints row `y` between the 16.16 fixed-point positions `xl` and
    /// `xr`, clipped to the screen.
    fn draw_span(&mut self, bus: &mut Bus, y: i16, xl: i32, xr: i32, color: u16)
        requires
            span_ops(y as int, xl / 65536, xr / 65536, color) is Some,
        ensures
            final(bus)@ == old(bus)@ + span_ops(y as int, xl / 65536, xr / 65536, color).unwrap(),
            final(self).dc_line() == old(self).dc_line(),
            final(self).rst_line() == old(self).rst_line(),
            final(self).panel_width() == old(self).panel_width(),
            final(self).panel_height() == old(self).panel_height(),
    {
        let l = (xl >> 16) as i16;
        let r = (xr >> 16) as i16;
        assert(l == xl / 65536 && r == xr / 65536) by (bit_vector)
            requires
                l == (xl >> 16) as i16,
                r == (xr >> 16) as i16,
        ;
        self.flush_line_span(bus, y, l, r, color);
    }

    /// Paints the triangle scanlines `y..stop`, the edges starting at `xa`
    /// and `xb` and advancing by `da` and `db` per row; returns the first
    /// edge's position after the last row.
    fn triangle_rows(
        &mut self,
        bus: &mut Bus,
        y: i16,
        stop: i32,
        xa: i32,
        xb: i32,
        da: i32,
        db: i32,
        color: u16,
    ) -> (xa_end: i32)
        requires
            stop <= i16::MAX + 1,
            tri_rows(y as int, stop as int, xa as int, xb as int, da as int, db as int, color) is Some,
        ensures
            final(bus)@ == old(bus)@ + tri_rows(
                y as int,
                stop as int,
                xa as int,
                xb as int,
                da as int,
                db as int,
                color,
            ).unwrap().0,
            xa_end == tri_rows(
                y as int,
                stop as int,
                xa as int,
                xb as int,
                da as int,
                db as int,
                color,
            ).unwrap().1,
            final(self).dc_line() == old(self).dc_line(),
            final(self).rst_line() == old(self).rst_line(),
            final(self).panel_width() == old(self).panel_width(),
            final(self).panel_height() == old(self).panel_height(),
    {
        let ghost total = tri_rows(
            y as int,
            stop as int,
            xa as int,
            xb as int,
            da as int,
            db as int,
            color,
        );
        let ghost b0 = bus@;
        let ghost mut emitted: Seq<OpView> = Seq::empty();
        let mut row: i32 = y as i32;
        let mut xa = xa;
        let mut xb = xb;
        assert(bus@ =~= b0 + emitted);
        assert(total == prepend(
            emitted,
            tri_rows(row as int, stop as int, xa as int, xb as int, da as int, db as int, color),
        ));
        while row < stop
            invariant
                y <= row,
                stop <= i16::MAX + 1,
                row <= stop || row == y,
                total is Some,
                total == prepend(
                    emitted,
                    tri_rows(row as int, stop as int, xa as int, xb as int, da as int, db as int, color),
                ),
                bus@ == b0 + emitted,
                self.dc_line() == old(self).dc_line(),
                self.rst_line() == old(self).rst_line(),
                self.panel_width() == old(self).panel_width(),
                self.panel_height() == old(self).panel_height(),
            decreases stop - row,
        {
            let ghost here = if 0 <= row < 240 {
                span_ops(row as int, xa / 65536, xb / 65536, color)
            } else {
                Some(Seq::<OpView>::empty())
            };
            if row >= 0 && row < 240 {
                self.draw_span(bus, row as i16, xa, xb, color);
            }
            proof {
                emitted = emitted + here.unwrap();
            }
            assert(bus@ =~= b0 + emitted);
            xa = xa + da;
            xb = xb + db;
            row = row + 1;
        }
        assert(tri_rows(row as int, stop as int, xa as int, xb as int, da as int, db as int, color)
            == Some((Seq::<OpView>::empty(), xa as int)));
        assert(emitted + Seq::<OpView>::empty() =~= emitted);
        xa
    }

    /// Fills the triangle with corners `(x0, y0)`, `(x1, y1)`, `(x2, y2)`
    /// scanline by scanline, edges in 16.16 fixed point.
    pub fn fill_triangle(
        &mut self,
        bus: &mut Bus,
        x0: i16,
        y0: i16,
        x1: i16,
        y1: i16,
        x2: i16,
        y2: i16,
        color: u16,
    )
        requires
            triangle_ops(x0, y0, x1, y1, x2, y2, color) is Some,
        ensures
            final(bus)@ == old(bus)@ + triangle_ops(x0, y0, x1, y1, x2, y2, color).unwrap(),
            final(self).dc_line() == old(self).dc_line(),
            final(self).rst_line() == old(self).rst_line(),
            final(self).panel_width() == old(self).panel_width(),
            final(self).panel_height() == old(self).panel_height(),
    {
        let mut v0 = (x0, y0);
        let mut v1 = (x1, y1);
        let mut v2 = (x2, y2);
        if v0.1 > v1.1 {
            let t = v0;
            v0 = v1;
            v1 = t;
        }
        if v0.1 > v2.1 {
            let t = v0;
            v0 = v2;
            v2 = t;
        }
        if v1.1 > v2.1 {
            let t = v1;
            v1 = v2;
            v2 = t;
        }
        let (ax, ay) = v0;
        let (bx, b_y) = v1;
        let (cx, cy) = v2;
        let ghost sorted = sort3(
            (x0 as int, y0 as int),
            (x1 as int, y1 as int),
            (x2 as int, y2 as int),
        );
        assert(sorted.0 == (ax as int, ay as int));
        assert(sorted.1 == (bx as int, b_y as int));
        assert(sorted.2 == (cx as int, cy as int));
        if ay == cy {
            assert(bus@ =~= old(bus)@ + Seq::<OpView>::empty());
            return ;
        }
        let x_ac: i32 = (ax as i32) << 16;
        let x_bc: i32 = (bx as i32) << 16;
        assert(x_ac == ax * 65536 && x_bc == bx * 65536) by (bit_vector)
            requires
                x_ac == (ax as i32) << 16,
                x_bc == (bx as i32) << 16,
        ;
        let dx_ac = fixed_slope(ax, ay, cx, cy);
        let dx_ab = fixed_slope(ax, ay, bx, b_y);
        let dx_bc = fixed_slope(bx, b_y, cx, cy);
        let x_ac = self.triangle_rows(bus, ay, b_y as i32, x_ac, x_ac, dx_ac, dx_ab, color);
        self.triangle_rows(bus, b_y, cy as i32 + 1, x_ac, x_bc, dx_ac, dx_bc, color);
        assert(bus@ =~= old(bus)@ + triangle_ops(x0, y0, x1, y1, x2, y2, color).unwrap());
    }

    /// Sets pixel `k` of the scratch row to the bytes `h`, `l`.
    fn put_buf_pixel(&mut self, k: usize, h: u8, l: u8)
        requires
            2 * k + 1 < ROW_BUF_LEN,
        ensures
            final(self).row_buf@ == old(self).row_buf@.update(2 * k as int, h).update(
                2 * k + 1,
                l,
            ),
            final(self).dc == old(self).dc,
            final(self).rst == old(self).rst,
            final(self).width == old(self).width,
            final(self).height == old(self).height,
    {
        self.row_buf[2 * k] = h;
        self.row_buf[2 * k + 1] = l;
    }

    /// A copy of the first `n` bytes of the scratch row.
    fn buf_prefix(&self, n: usize) -> (row: Vec<u8>)
        requires
            n <= ROW_BUF_LEN,
        ensures
            row@ == self.row_buf@.take(n as int),
    {
        let mut row: Vec<u8> = Vec::new();
        let mut k: usize = 0;
        while k < n
            invariant
                k <= n,
                n <= ROW_BUF_LEN,
                self.row_buf@.len() == ROW_BUF_LEN,
                row@ =~= self.row_buf@.take(k as int),
            decreases n - k,
        {
            row.push(self.row_buf[k]);
            k = k + 1;
            assert(row@ =~= self.row_buf@.take(k as int));
        }
        row
    }

    /// Adds the marks of edge `e` on screen row `sy` to the first `rw`
    /// pixels of the scratch row, which start at screen column `rx_i`.
    fn mark_edge(
        &mut self,
        rx_i: i16,
        rw: u16,
        sy: i16,
        edges: &[(usize, usize); 12],
        e: usize,
        proj: &[[i16; 2]; 8],
        bg: u16,
        fg: u16,
    )
        requires
            e < 12,
            edges[e as int].0 < 8,
            edges[e as int].1 < 8,
            1 <= rw <= 240,
            fits_i16(rx_i + rw),
            edge_row_fits(
                proj_pt(*proj, edges[e as int].0).0,
                proj_pt(*proj, edges[e as int].0).1,
                proj_pt(*proj, edges[e as int].1).0,
                proj_pt(*proj, edges[e as int].1).1,
                sy as int,
            ),
            row_shows_marks(old(self).row_buf@, rw as int, rx_i as int, *edges, e as int, *proj, sy as int, bg, fg),
        ensures
            row_shows_marks(final(self).row_buf@, rw as int, rx_i as int, *edges, e + 1, *proj, sy as int, bg, fg),
            final(self).dc == old(self).dc,
            final(self).rst == old(self).rst,
            final(self).width == old(self).width,
            final(self).height == old(self).height,
    {
        let (fg_hi, fg_lo) = split_word(fg);
        let rx_end: i16 = rx_i + rw as i16;
        let byte_len: usize = rw as usize * 2;
        let (a, b) = edges[e];
        let ax = proj[a][0];
        let ay = proj[a][1];
        let bx = proj[b][0];
        let b_y = proj[b][1];
        let ghost syi = sy as int;
        let ghost rxi = rx_i as int;
        assert(proj_pt(*proj, a) == (ax as int, ay as int));
        assert(proj_pt(*proj, b) == (bx as int, b_y as int));
        let ey_min = if ay < b_y {
            ay
        } else {
            b_y
        };
        let ey_max = if ay > b_y {
            ay
        } else {
            b_y
        };
        if sy < ey_min || sy > ey_max {
            assert forall|k: int| 0 <= k < rw implies #[trigger] buf_pixel(self.row_buf@, k) == (
                hi(marked_color(*edges, e + 1, *proj, syi, rxi + k, bg, fg)),
                lo(marked_color(*edges, e + 1, *proj, syi, rxi + k, bg, fg)),
            ) by {
                assert(!edge_marks(ax as int, ay as int, bx as int, b_y as int, syi, rxi + k));
                assert(buf_pixel(self.row_buf@, k) == (
                    hi(marked_color(*edges, e as int, *proj, syi, rxi + k, bg, fg)),
                    lo(marked_color(*edges, e as int, *proj, syi, rxi + k, bg, fg)),
                ));
            }
            return ;
        }
        if ay == b_y {
            let mut lx = if ax < bx {
                ax
            } else {
                bx
            };
            let mut hx = if ax > bx {
                ax
            } else {
                bx
            };
            if lx < rx_i {
                lx = rx_i;
            }
            if hx >= rx_end {
                hx = rx_end - 1;
            }
            let mut px = lx;
            while px <= hx
                invariant
                    lx <= px,
                    px <= hx + 1 || px == lx,
                    hx < rx_end,
                    rx_i <= lx,
                    rx_end == rx_i + rw,
                    byte_len == 2 * rw,
                    1 <= rw <= 240,
                    fg_hi == hi(fg),
                    fg_lo == lo(fg),
                    self.row_buf@.len() == ROW_BUF_LEN,
                    forall|k: int|
                        0 <= k < rw ==> #[trigger] buf_pixel(self.row_buf@, k) == (
                            hi(
                                if marked(*edges, e as int, *proj, sy as int, rx_i + k) || (lx
                                    <= rx_i + k < px) {
                                    fg
                                } else {
                                    bg
                                },
                            ),
                            lo(
                                if marked(*edges, e as int, *proj, sy as int, rx_i + k) || (lx
                                    <= rx_i + k < px) {
                                    fg
                                } else {
                                    bg
                                },
                            ),
                        ),
                    self.dc == old(self).dc,
                    self.rst == old(self).rst,
                    self.width == old(self).width,
                    self.height == old(self).height,
                decreases hx + 1 - px,
            {
                let idx = (px - rx_i) as usize * 2;
                if idx + 1 < byte_len {
                    let ghost prev = self.row_buf@;
                    self.put_buf_pixel((px - rx_i) as usize, fg_hi, fg_lo);
                    assert forall|k: int| 0 <= k < rw implies #[trigger] buf_pixel(
                        self.row_buf@,
                        k,
                    ) == buf_pixel(prev, k) || k == px - rx_i by {
                        if k != px - rx_i {
                            assert(self.row_buf@[2 * k] == prev[2 * k]);
                            assert(self.row_buf@[2 * k + 1] == prev[2 * k + 1]);
                        }
                    }
                }
                px = px + 1;
            }
            assert forall|k: int| 0 <= k < rw implies #[trigger] buf_pixel(self.row_buf@, k) == (
                hi(marked_color(*edges, e + 1, *proj, syi, rxi + k, bg, fg)),
                lo(marked_color(*edges, e + 1, *proj, syi, rxi + k, bg, fg)),
            ) by {
                let inr = lx <= rx_i + k < px;
                assert(inr == edge_marks(ax as int, ay as int, bx as int, b_y as int, syi, rxi + k));
            }
        } else {
            let num: i32 = (bx as i32 - ax as i32) * (sy as i32 - ay as i32);
            let den: i32 = b_y as i32 - ay as i32;
            proof {
                lemma_crossing_quotient(bx - ax, sy - ay, den as int);
            }
            let q: i32 = num.checked_div(den).unwrap();
            assert(q == tdiv(num as int, den as int));
            let px = (ax as i32 + q) as i16;
            if px >= rx_i && px < rx_end {
                let ghost prev = self.row_buf@;
                self.put_buf_pixel((px - rx_i) as usize, fg_hi, fg_lo);
                assert forall|k: int| 0 <= k < rw implies #[trigger] buf_pixel(self.row_buf@, k) == (
                    hi(marked_color(*edges, e + 1, *proj, syi, rxi + k, bg, fg)),
                    lo(marked_color(*edges, e + 1, *proj, syi, rxi + k, bg, fg)),
                ) by {
                    assert(edge_marks(ax as int, ay as int, bx as int, b_y as int, syi, rxi + k) == (
                    rxi + k == px as int));
                    if k != px - rx_i {
                        assert(self.row_buf@[2 * k] == prev[2 * k]);
                        assert(self.row_buf@[2 * k + 1] == prev[2 * k + 1]);
                        assert(buf_pixel(prev, k) == (
                            hi(marked_color(*edges, e as int, *proj, syi, rxi + k, bg, fg)),
                            lo(marked_color(*edges, e as int, *proj, syi, rxi + k, bg, fg)),
                        ));
                    }
                }
            } else {
                assert forall|k: int| 0 <= k < rw implies #[trigger] buf_pixel(self.row_buf@, k) == (
                    hi(marked_color(*edges, e + 1, *proj, syi, rxi + k, bg, fg)),
                    lo(marked_color(*edges, e + 1, *proj, syi, rxi + k, bg, fg)),
                ) by {
                    assert(!edge_marks(ax as int, ay as int, bx as int, b_y as int, syi, rxi + k));
                    assert(buf_pixel(self.row_buf@, k) == (
                        hi(marked_color(*edges, e as int, *proj, syi, rxi + k, bg, fg)),
                        lo(marked_color(*edges, e as int, *proj, syi, rxi + k, bg, fg)),
                    ));
                }
            }
        }
    }

    /// Redraws the rectangle at `(rx, ry)` of size `rw` by `rh` row by row:
    /// background, with the columns where a wireframe edge crosses each row
    /// (every column of a flat edge) in `edge_color`.
    pub fn draw_edges_in_rect(
        &mut self,
        bus: &mut Bus,
        rx: u16,
        ry: u16,
        rw: u16,
        rh: u16,
        edges: &[(usize, usize); 12],
        proj: &[[i16; 2]; 8],
        bg_color: u16,
        edge_color: u16,
    )
        requires
            edges_rect_fits(rx, ry, rw, rh, *edges, *proj),
        ensures
            final(bus)@ == old(bus)@ + edges_rect_ops(rx, ry, rw, rh, *edges, *proj, bg_color, edge_color),
            rw == 0 || rh == 0 ==> final(self).row_buffer() == old(self).row_buffer(),
            final(self).dc_line() == old(self).dc_line(),
            final(self).rst_line() == old(self).rst_line(),
            final(self).panel_width() == old(self).panel_width(),
            final(self).panel_height() == old(self).panel_height(),
    {
        if rw == 0 || rh == 0 {
            assert(bus@ =~= old(bus)@ + Seq::<OpView>::empty());
            return ;
        }
        self.set_address_window(bus, rx, ry, rx + rw - 1, ry + rh - 1);
        let ghost b1 = bus@;
        let ghost rows = Seq::new(
            rh as nat,
            |r: int| OpView::Data(edges_row(rx, ry, rw, r, *edges, *proj, bg_color, edge_color)),
        );
        let byte_len = rw as usize * 2;
        let rx_i = rx as i16;
        let ry_i = ry as i16;
        let mut row: usize = 0;
        while row < rh as usize
            invariant
                row <= rh,
                1 <= rw <= 240,
                rh >= 1,
                byte_len == 2 * rw,
                rx_i == rx as i16,
                ry_i == ry as i16,
                edges_rect_fits(rx, ry, rw, rh, *edges, *proj),
                rows == Seq::new(
                    rh as nat,
                    |r: int| OpView::Data(edges_row(rx, ry, rw, r, *edges, *proj, bg_color, edge_color)),
                ),
                bus@ =~= b1 + rows.take(row as int),
                self.dc_line() == old(self).dc_line(),
                self.rst_line() == old(self).rst_line(),
                self.panel_width() == old(self).panel_width(),
                self.panel_height() == old(self).panel_height(),
            decreases rh - row,
        {
            assert(fits_i16(rect_screen_y(ry, row as int)));
            let screen_y: i16 = ry_i + row as i16;
            self.fill_row_buf(rw as usize, bg_color);
            assert forall|k: int| 0 <= k < rw implies #[trigger] buf_pixel(self.row_buf@, k) == (
                hi(marked_color(*edges, 0, *proj, screen_y as int, rx_i + k, bg_color, edge_color)),
                lo(marked_color(*edges, 0, *proj, screen_y as int, rx_i + k, bg_color, edge_color)),
            ) by {
                assert(self.row_buf@[2 * k] == solid(rw as nat, bg_color)[2 * k]);
                assert(self.row_buf@[2 * k + 1] == solid(rw as nat, bg_color)[2 * k + 1]);
            }
            let mut e: usize = 0;
            while e < 12
                invariant
                    e <= 12,
                    row < rh,
                    1 <= rw <= 240,
                    rx_i == rx as i16,
                    screen_y as int == rect_screen_y(ry, row as int),
                    edges_rect_fits(rx, ry, rw, rh, *edges, *proj),
                    row_shows_marks(self.row_buf@, rw as int, rx_i as int, *edges, e as int, *proj, screen_y as int, bg_color, edge_color),
                    self.dc_line() == old(self).dc_line(),
                    self.rst_line() == old(self).rst_line(),
                    self.panel_width() == old(self).panel_width(),
                    self.panel_height() == old(self).panel_height(),
                decreases 12 - e,
            {
                assert(edges[e as int].0 < 8 && edges[e as int].1 < 8);
                assert(edge_row_fits(
                    proj_pt(*proj, edges[e as int].0).0,
                    proj_pt(*proj, edges[e as int].0).1,
                    proj_pt(*proj, edges[e as int].1).0,
                    proj_pt(*proj, edges[e as int].1).1,
                    rect_screen_y(ry, row as int),
                ));
                self.mark_edge(rx_i, rw, screen_y, edges, e, proj, bg_color, edge_color);
                e = e + 1;
            }
            let data = self.buf_prefix(byte_len);
            let ghost er = edges_row(rx, ry, rw, row as int, *edges, *proj, bg_color, edge_color);
            assert forall|i: int| 0 <= i < 2 * rw implies #[trigger] data@[i] == er[i] by {
                let k = i / 2;
                assert(buf_pixel(self.row_buf@, k) == (
                    hi(marked_color(*edges, 12, *proj, screen_y as int, rx_i + k, bg_color, edge_color)),
                    lo(marked_color(*edges, 12, *proj, screen_y as int, rx_i + k, bg_color, edge_color)),
                ));
            }
            assert(data@ =~= er);
            bus.data(data);
            row = row + 1;
            assert(rows.take(row as int) =~~= rows.take(row - 1).push(rows[row - 1]));
        }
        assert(rows.take(rh as int) =~= rows);
        assert(bus@ =~~= old(bus)@ + edges_rect_ops(rx, ry, rw, rh, *edges, *proj, bg_color, edge_color));
    }

    /// Fills the quadrilateral `pts` as the triangles (0, 1, 2) and
    /// (0, 2, 3).
    pub fn fill_quad(&mut self, bus: &mut Bus, pts: &[[i16; 2]; 4], color: u16)
        requires
            quad_ops(*pts, color) is Some,
        ensures
            final(bus)@ == old(bus)@ + quad_ops(*pts, color).unwrap(),
            final(self).dc_line() == old(self).dc_line(),
            final(self).rst_line() == old(self).rst_line(),
            final(self).panel_width() == old(self).panel_width(),
            final(self).panel_height() == old(self).panel_height(),
    {
        self.fill_triangle(
            bus,
            pts[0][0],
            pts[0][1],
            pts[1][0],
            pts[1][1],
            pts[2][0],
            pts[2][1],
            color,
        );
        self.fill_triangle(
            bus,
            pts[0][0],
            pts[0][1],
            pts[2][0],
            pts[2][1],
            pts[3][0],
            pts[3][1],
            color,
        );
        assert(bus@ =~= old(bus)@ + quad_ops(*pts, color).unwrap());
    }

    /// Draws the line of every wireframe edge, in order, between the
    /// projected points that the edge indexes.
    pub fn draw_line_batch(
        &mut self,
        bus: &mut Bus,
        edges: &[(usize, usize); 12],
        proj: &[[i16; 2]; 8],
        color: u16,
    )
        requires
            edge_lines_ops(*edges, 12, *proj, color) is Some,
        ensures
            final(bus)@ == old(bus)@ + edge_lines_ops(*edges, 12, *proj, color).unwrap(),
            final(self).dc_line() == old(self).dc_line(),
            final(self).rst_line() == old(self).rst_line(),
            final(self).panel_width() == old(self).panel_width(),
            final(self).panel_height() == old(self).panel_height(),
    {
        let mut e: usize = 0;
        assert(bus@ =~= old(bus)@ + edge_lines_ops(*edges, 0, *proj, color).unwrap());
        while e < 12
            invariant
                e <= 12,
                edge_lines_ops(*edges, 12, *proj, color) is Some,
                bus@ == old(bus)@ + edge_lines_ops(*edges, e as int, *proj, color).unwrap(),
                self.dc_line() == old(self).dc_line(),
                self.rst_line() == old(self).rst_line(),
                self.panel_width() == old(self).panel_width(),
                self.panel_height() == old(self).panel_height(),
            decreases 12 - e,
        {
            let (a, b) = edges[e];
            proof {
                lemma_edge_lines_prefix(*edges, 12, e + 1, *proj, color);
            }
            assert(edge_line_ops(edges[e as int], *proj, color) is Some);
            self.draw_line(bus, proj[a][0], proj[a][1], proj[b][0], proj[b][1], color);
            e = e + 1;
            assert(bus@ =~= old(bus)@ + edge_lines_ops(*edges, e as int, *proj, color).unwrap());
        }
    }

}

} // verus!
