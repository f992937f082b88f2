use dome_drivers::ops::{Bus, Op, SpanSender};
use dome_drivers::st7789::{rgb565, split_word, ST7789};

fn panel() -> ST7789<(), ()> {
    ST7789::new((), ())
}

fn data(bytes: &[u8]) -> Op {
    Op::Data(bytes.to_vec())
}

fn window(x0: u16, y0: u16, x1: u16, y1: u16) -> Vec<Op> {
    vec![
        Op::Command(0x2A),
        data(&[(x0 >> 8) as u8, x0 as u8, (x1 >> 8) as u8, x1 as u8]),
        Op::Command(0x2B),
        data(&[(y0 >> 8) as u8, y0 as u8, (y1 >> 8) as u8, y1 as u8]),
        Op::Command(0x2C),
    ]
}

fn solid(n: usize, color: u16) -> Op {
    let mut v = Vec::new();
    for _ in 0..n {
        v.push((color >> 8) as u8);
        v.push(color as u8);
    }
    Op::Data(v)
}

#[test]
fn rgb565_packs_channels() {
    assert_eq!(rgb565(255, 0, 0), 0xF800);
    assert_eq!(rgb565(0, 255, 0), 0x07E0);
    assert_eq!(rgb565(0, 0, 255), 0x001F);
    assert_eq!(rgb565(255, 255, 255), 0xFFFF);
    assert_eq!(rgb565(0x12, 0x34, 0x56), (0x12 >> 3) << 11 | (0x34 >> 2) << 5 | (0x56 >> 3));
}

#[test]
fn split_word_is_big_endian() {
    assert_eq!(split_word(0x1234), (0x12, 0x34));
    assert_eq!(split_word(0x00FF), (0x00, 0xFF));
}

#[test]
fn init_sends_the_panel_setup_sequence() {
    let mut p = panel();
    let mut bus = Bus::new();
    p.init(&mut bus);
    let ops = bus.ops();
    assert_eq!(ops.len(), 35);
    assert_eq!(ops[0], Op::Reset(false));
    assert_eq!(ops[1], Op::DelayMs(10));
    assert_eq!(ops[2], Op::Reset(true));
    assert_eq!(ops[3], Op::DelayMs(120));
    assert_eq!(ops[4], Op::Command(0x11));
    assert_eq!(ops[5], Op::DelayMs(120));
    assert_eq!(ops[8], Op::Command(0x3A));
    assert_eq!(ops[9], data(&[0x05]));
    assert_eq!(ops[11], data(&[0x0C, 0x0C, 0x00, 0x33, 0x33]));
    assert_eq!(ops[31], data(&[0xD0, 0x04, 0x0C, 0x11, 0x13, 0x2C, 0x3F, 0x44, 0x51, 0x2F, 0x1F, 0x1F, 0x20, 0x23]));
    assert_eq!(ops[32], Op::Command(0x21));
    assert_eq!(ops[33], Op::Command(0x29));
    assert_eq!(ops[34], Op::DelayMs(20));
}

#[test]
fn address_window_encodes_corners() {
    let mut p = panel();
    let mut bus = Bus::new();
    p.set_address_window(&mut bus, 10, 20, 300, 400);
    assert_eq!(bus.ops(), &window(10, 20, 300, 400)[..]);
    assert_eq!(bus.ops()[1], data(&[0, 10, 1, 44]));
    assert_eq!(bus.ops()[3], data(&[0, 20, 1, 144]));
}

#[test]
fn fill_rect_of_zero_size_sends_nothing() {
    let mut p = panel();
    let mut bus = Bus::new();
    p.fill_rect(&mut bus, 5, 5, 0, 10, 0xFFFF);
    p.fill_rect(&mut bus, 5, 5, 10, 0, 0xFFFF);
    assert_eq!(bus.len(), 0);
}

#[test]
fn fill_rect_sends_window_and_rows() {
    let mut p = panel();
    let mut bus = Bus::new();
    p.fill_rect(&mut bus, 1, 2, 2, 3, 0xF800);
    let mut expect = window(1, 2, 2, 4);
    for _ in 0..3 {
        expect.push(data(&[0xF8, 0x00, 0xF8, 0x00]));
    }
    assert_eq!(bus.ops(), &expect[..]);
}

#[test]
fn fill_rect_wider_than_scratch_row() {
    let mut p = panel();
    let mut bus = Bus::new();
    p.fill_rect(&mut bus, 0, 0, 300, 1, 0x1234);
    let mut expect = window(0, 0, 299, 0);
    expect.push(solid(300, 0x1234));
    assert_eq!(bus.ops(), &expect[..]);
}

#[test]
fn fill_screen_covers_the_panel() {
    let mut p = panel();
    let mut bus = Bus::new();
    p.fill_screen(&mut bus, 0x07E0);
    let ops = bus.ops();
    assert_eq!(ops.len(), 5 + 240);
    assert_eq!(&ops[..5], &window(0, 0, 239, 239)[..]);
    for op in &ops[5..] {
        assert_eq!(*op, solid(240, 0x07E0));
    }
}

#[test]
fn fill_row_buf_fills_prefix() {
    let mut p = panel();
    let mut bus = Bus::new();
    p.fill_row_buf(3, 0x0102);
    // the scratch row is then used by the next span of that colour
    p.draw_line(&mut bus, 0, 0, 2, 0, 0x0102);
    let mut expect = window(0, 0, 2, 0);
    expect.push(data(&[1, 2, 1, 2, 1, 2]));
    assert_eq!(bus.ops(), &expect[..]);
}

#[test]
fn draw_bitmap_reads_column_major_bits() {
    let mut p = panel();
    let mut bus = Bus::new();
    // 2 columns, 9 rows: 2 bytes per column.
    // column 0: rows 0 and 8 set; column 1: row 7 set
    let bitmap = [0b0000_0001u8, 0b0000_0001, 0b1000_0000, 0b0000_0000];
    p.draw_bitmap(&mut bus, 0, 0, &bitmap, 2, 9, 0xFFFF, 0x0000);
    let ops = bus.ops();
    assert_eq!(ops.len(), 5 + 9);
    assert_eq!(&ops[..5], &window(0, 0, 1, 8)[..]);
    assert_eq!(ops[5], data(&[0xFF, 0xFF, 0, 0]));
    assert_eq!(ops[6], data(&[0, 0, 0, 0]));
    assert_eq!(ops[12], data(&[0, 0, 0xFF, 0xFF]));
    assert_eq!(ops[13], data(&[0xFF, 0xFF, 0, 0]));
}

#[test]
fn draw_bitmap_past_the_end_uses_background() {
    let mut p = panel();
    let mut bus = Bus::new();
    let bitmap = [0xFFu8];
    p.draw_bitmap(&mut bus, 0, 0, &bitmap, 2, 1, 0x1111, 0x2222);
    assert_eq!(bus.ops()[5], data(&[0x11, 0x11, 0x22, 0x22]));
}

#[test]
fn draw_line_batches_rows() {
    let mut p = panel();
    let mut bus = Bus::new();
    p.draw_line(&mut bus, 0, 0, 5, 1, 0xFFFF);
    let mut expect = window(0, 0, 2, 0);
    expect.push(solid(3, 0xFFFF));
    expect.extend(window(3, 1, 5, 1));
    expect.push(solid(3, 0xFFFF));
    assert_eq!(bus.ops(), &expect[..]);
}

#[test]
fn draw_line_diagonal_is_one_pixel_per_row() {
    let mut p = panel();
    let mut bus = Bus::new();
    p.draw_line(&mut bus, 2, 2, 0, 0, 0x0001);
    let mut expect = Vec::new();
    for i in [2u16, 1, 0] {
        expect.extend(window(i, i, i, i));
        expect.push(solid(1, 0x0001));
    }
    assert_eq!(bus.ops(), &expect[..]);
}

#[test]
fn draw_line_single_point() {
    let mut p = panel();
    let mut bus = Bus::new();
    p.draw_line(&mut bus, 4, 4, 4, 4, 0x0F0F);
    let mut expect = window(4, 4, 4, 4);
    expect.push(solid(1, 0x0F0F));
    assert_eq!(bus.ops(), &expect[..]);
}

#[test]
fn draw_line_clips_to_screen() {
    let mut p = panel();
    let mut bus = Bus::new();
    // off the top: nothing
    p.draw_line(&mut bus, 0, -3, 10, -3, 0xFFFF);
    assert_eq!(bus.len(), 0);
    // crossing the right edge: clipped to column 239
    p.draw_line(&mut bus, 230, 5, 250, 5, 0xFFFF);
    let mut expect = window(230, 5, 239, 5);
    expect.push(solid(10, 0xFFFF));
    assert_eq!(bus.ops(), &expect[..]);
}

#[test]
fn fill_triangle_flat_top() {
    let mut p = panel();
    let mut bus = Bus::new();
    p.fill_triangle(&mut bus, 0, 0, 4, 0, 0, 4, 0x00FF);
    let mut expect = Vec::new();
    for y in 0..5u16 {
        let r = 4 - y;
        expect.extend(window(0, y, r, y));
        expect.push(solid((r + 1) as usize, 0x00FF));
    }
    assert_eq!(bus.ops(), &expect[..]);
}

#[test]
fn fill_triangle_of_zero_height_sends_nothing() {
    let mut p = panel();
    let mut bus = Bus::new();
    p.fill_triangle(&mut bus, 0, 7, 10, 7, 20, 7, 0xFFFF);
    assert_eq!(bus.len(), 0);
}

#[test]
fn fill_triangle_vertex_order_does_not_matter() {
    let mut a = panel();
    let mut b = panel();
    let mut bus_a = Bus::new();
    let mut bus_b = Bus::new();
    a.fill_triangle(&mut bus_a, 10, 30, 20, 10, 0, 20, 0x1234);
    b.fill_triangle(&mut bus_b, 0, 20, 10, 30, 20, 10, 0x1234);
    assert_eq!(bus_a.ops(), bus_b.ops());
    assert!(bus_a.len() > 0);
}

#[test]
fn fill_quad_is_two_triangles() {
    let mut p = panel();
    let mut q = panel();
    let mut bus = Bus::new();
    let mut expect = Bus::new();
    let pts = [[0i16, 0], [4, 0], [4, 4], [0, 4]];
    p.fill_quad(&mut bus, &pts, 0xF00F);
    q.fill_triangle(&mut expect, 0, 0, 4, 0, 4, 4, 0xF00F);
    q.fill_triangle(&mut expect, 0, 0, 4, 4, 0, 4, 0xF00F);
    assert_eq!(bus.ops(), expect.ops());
}

fn cube_edges() -> [(usize, usize); 12] {
    [(0, 1), (1, 2), (2, 3), (3, 0), (4, 5), (5, 6), (6, 7), (7, 4), (0, 4), (1, 5), (2, 6), (3, 7)]
}

fn cube_proj() -> [[i16; 2]; 8] {
    [[10, 10], [20, 10], [20, 20], [10, 20], [12, 12], [22, 12], [22, 22], [12, 22]]
}

#[test]
fn draw_line_batch_draws_every_edge_in_order() {
    let mut p = panel();
    let mut q = panel();
    let mut bus = Bus::new();
    let mut expect = Bus::new();
    let edges = cube_edges();
    let proj = cube_proj();
    p.draw_line_batch(&mut bus, &edges, &proj, 0xFFFF);
    for (a, b) in edges {
        q.draw_line(&mut expect, proj[a][0], proj[a][1], proj[b][0], proj[b][1], 0xFFFF);
    }
    assert_eq!(bus.ops(), expect.ops());
}

#[test]
fn draw_edges_in_rect_marks_crossings() {
    let mut p = panel();
    let mut bus = Bus::new();
    let edges = [(0usize, 1usize); 12];
    // one horizontal edge on row 11 from x 9 to 12, seen through a 4x2 window at (10, 10)
    let mut proj = [[0i16, 0]; 8];
    proj[0] = [9, 11];
    proj[1] = [12, 11];
    p.draw_edges_in_rect(&mut bus, 10, 10, 4, 2, &edges, &proj, 0x0000, 0xFFFF);
    let mut expect = window(10, 10, 13, 11);
    expect.push(solid(4, 0x0000));
    expect.push(data(&[0xFF, 0xFF, 0xFF, 0xFF, 0xFF, 0xFF, 0, 0]));
    assert_eq!(bus.ops(), &expect[..]);
}

#[test]
fn draw_edges_in_rect_sloped_edge() {
    let mut p = panel();
    let mut bus = Bus::new();
    let edges = [(0usize, 1usize); 12];
    let mut proj = [[0i16, 0]; 8];
    proj[0] = [0, 0];
    proj[1] = [3, 3];
    p.draw_edges_in_rect(&mut bus, 0, 0, 4, 4, &edges, &proj, 0x0000, 0x00FF);
    let ops = bus.ops();
    assert_eq!(ops.len(), 5 + 4);
    for row in 0..4usize {
        let mut bytes = vec![0u8; 8];
        bytes[2 * row] = 0x00;
        bytes[2 * row + 1] = 0xFF;
        assert_eq!(ops[5 + row], Op::Data(bytes));
    }
}

#[test]
fn draw_edges_in_empty_rect_sends_nothing() {
    let mut p = panel();
    let mut bus = Bus::new();
    p.draw_edges_in_rect(&mut bus, 10, 10, 0, 5, &cube_edges(), &cube_proj(), 0, 0xFFFF);
    assert_eq!(bus.len(), 0);
}

#[test]
fn span_sender_skips_only_the_rest_of_a_failed_span() {
    let mut s = SpanSender::new();
    let caset = Op::Command(0x2A);
    let other = Op::Command(0x2B);
    assert!(s.should_send(&caset));
    assert!(s.should_send(&other));
    s.failed();
    assert!(!s.should_send(&other));
    assert!(!s.should_send(&data(&[1, 2])));
    assert!(s.should_send(&caset));
    assert!(s.should_send(&other));
}

#[test]
fn draw_edges_in_empty_rect_keeps_the_scratch_row() {
    let mut p = panel();
    let mut bus = Bus::new();
    p.fill_row_buf(2, 0x0102);
    p.draw_edges_in_rect(&mut bus, 0, 0, 0, 5, &[(0, 1); 12], &[[0, 0]; 8], 0, 0xFFFF);
    assert_eq!(bus.len(), 0);
    // the prefix filled before is still there for the next span
    p.draw_line(&mut bus, 0, 0, 1, 0, 0x0102);
    assert_eq!(bus.ops()[5], data(&[1, 2, 1, 2]));
}
