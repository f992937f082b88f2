use dome_drivers::ops::{Bus, Op};
use dome_drivers::st7789_pixel::ST7789;

fn panel() -> ST7789<(), ()> {
    ST7789::new((), ())
}

fn data(bytes: &[u8]) -> Op {
    Op::Data(bytes.to_vec())
}

fn window(x0: u16, y0: u16, x1: u16, y1: u16) -> Vec<Op> {
    vec![
        Op::Command(0x2A),
        data(&[(x0 >> 8) as u8, x0 as u8, (x1 >> 8) as u8, x1 as u8]),
        Op::Command(0x2B),
        data(&[(y0 >> 8) as u8, y0 as u8, (y1 >> 8) as u8, y1 as u8]),
        Op::Command(0x2C),
    ]
}

#[test]
fn pixel_fill_rect_sends_one_transfer_per_pixel() {
    let mut p = panel();
    let mut bus = Bus::new();
    p.fill_rect(&mut bus, 3, 4, 2, 1, 0x1234);
    let mut expect = window(3, 4, 4, 4);
    expect.push(data(&[0x12, 0x34]));
    expect.push(data(&[0x12, 0x34]));
    assert_eq!(bus.ops(), &expect[..]);
    assert_eq!(bus.len(), 7);
}

#[test]
fn pixel_fill_rect_of_zero_size_sends_nothing() {
    let mut p = panel();
    let mut bus = Bus::new();
    p.fill_rect(&mut bus, 3, 4, 0, 5, 0x1234);
    p.fill_rect(&mut bus, 3, 4, 5, 0, 0x1234);
    assert_eq!(bus.len(), 0);
}

#[test]
fn pixel_fill_screen_sends_every_pixel() {
    let mut p = panel();
    let mut bus = Bus::new();
    p.fill_screen(&mut bus, 0xF800);
    assert_eq!(bus.len(), 5 + 240 * 240);
    assert_eq!(&bus.ops()[..5], &window(0, 0, 239, 239)[..]);
    assert!(bus.ops()[5..].iter().all(|o| *o == data(&[0xF8, 0x00])));
}

#[test]
fn pixel_set_pixel_is_one_pixel_rect() {
    let mut p = panel();
    let mut bus = Bus::new();
    p.set_pixel(&mut bus, 7, 9, 0xABCD);
    let mut expect = window(7, 9, 7, 9);
    expect.push(data(&[0xAB, 0xCD]));
    assert_eq!(bus.ops(), &expect[..]);
}

#[test]
fn pixel_draw_bitmap_sends_pixels_row_by_row() {
    let mut p = panel();
    let mut bus = Bus::new();
    // 2 columns, 9 rows: column 0 rows 0 and 8 set; column 1 row 7 set
    let bitmap = [0b0000_0001u8, 0b0000_0001, 0b1000_0000, 0b0000_0000];
    p.draw_bitmap(&mut bus, 0, 0, &bitmap, 2, 9, 0xFFFF, 0x0000);
    let ops = bus.ops();
    assert_eq!(ops.len(), 5 + 18);
    assert_eq!(&ops[..5], &window(0, 0, 1, 8)[..]);
    let on = data(&[0xFF, 0xFF]);
    let off = data(&[0, 0]);
    assert_eq!(ops[5], on); // row 0, column 0
    assert_eq!(ops[6], off); // row 0, column 1
    assert_eq!(ops[5 + 2 * 7], off); // row 7, column 0
    assert_eq!(ops[5 + 2 * 7 + 1], on); // row 7, column 1
    assert_eq!(ops[5 + 2 * 8], on); // row 8, column 0
    assert_eq!(ops[5 + 2 * 8 + 1], off);
}

#[test]
fn pixel_draw_bitmap_past_the_end_uses_background() {
    let mut p = panel();
    let mut bus = Bus::new();
    p.draw_bitmap(&mut bus, 0, 0, &[0xFFu8], 2, 1, 0x1111, 0x2222);
    assert_eq!(&bus.ops()[5..], &[data(&[0x11, 0x11]), data(&[0x22, 0x22])][..]);
}

#[test]
fn draw_bitmap_scaled2x_repeats_rows_and_reuses_parity_slots() {
    let mut p = panel();
    let mut bus = Bus::new();
    // 3 columns, 1 row: column 0 set, columns 1 and 2 clear
    let bitmap = [0b1u8, 0b0, 0b0];
    p.draw_bitmap_scaled2x(&mut bus, 0, 0, &bitmap, 3, 1, 0xAAAA, 0x5555);
    let ops = bus.ops();
    assert_eq!(ops.len(), 5 + 2 * 3);
    assert_eq!(&ops[..5], &window(0, 0, 5, 1)[..]);
    // column 0's slot was overwritten by column 2 (same parity)
    let bg = data(&[0x55, 0x55, 0x55, 0x55]);
    for k in 5..11 {
        assert_eq!(ops[k], bg);
    }
}

#[test]
fn draw_bitmap_scaled2x_two_columns() {
    let mut p = panel();
    let mut bus = Bus::new();
    let bitmap = [0b1u8, 0b0];
    p.draw_bitmap_scaled2x(&mut bus, 10, 20, &bitmap, 2, 1, 0xAAAA, 0x5555);
    let fg = data(&[0xAA, 0xAA, 0xAA, 0xAA]);
    let bg = data(&[0x55, 0x55, 0x55, 0x55]);
    assert_eq!(&bus.ops()[..5], &window(10, 20, 13, 21)[..]);
    assert_eq!(&bus.ops()[5..], &[fg.clone(), bg.clone(), fg, bg][..]);
}

#[test]
fn pixel_init_matches_the_row_driver() {
    let mut p = panel();
    let mut q: dome_drivers::st7789::ST7789<(), ()> = dome_drivers::st7789::ST7789::new((), ());
    let mut a = Bus::new();
    let mut b = Bus::new();
    p.init(&mut a);
    q.init(&mut b);
    assert_eq!(a.ops(), b.ops());
}
