use dome_drivers::eeprom::safe_text_len;
use dome_drivers::bits::{msb_bit, shift_in};
use dome_drivers::eeprom::{ack_after, plan_page_writes, plan_zero_fill, transfer_len, trimmed_len, PageWrite, Partition};
use dome_drivers::timing::{delay_cycles, systick_ticks};

#[test]
fn partition_max_len() {
    let p = Partition::new(0x10, 32);
    assert_eq!(p.offset, 0x10);
    assert_eq!(p.size, 32);
    assert_eq!(p.max_len(10), 10);
    assert_eq!(p.max_len(32), 32);
    assert_eq!(p.max_len(100), 32);
}

#[test]
fn transfers_stop_at_the_end_of_the_device() {
    assert_eq!(transfer_len(250, 10), 6);
    assert_eq!(transfer_len(0, 300), 256);
    assert_eq!(transfer_len(255, 1), 1);
    assert_eq!(transfer_len(10, 0), 0);
}

#[test]
fn page_writes_split_at_page_boundaries() {
    assert_eq!(
        plan_page_writes(5, 10),
        vec![PageWrite { addr: 5, start: 0, len: 3 }, PageWrite { addr: 8, start: 3, len: 7 }]
    );
    assert_eq!(
        plan_page_writes(0, 20),
        vec![
            PageWrite { addr: 0, start: 0, len: 8 },
            PageWrite { addr: 8, start: 8, len: 8 },
            PageWrite { addr: 16, start: 16, len: 4 },
        ]
    );
    assert_eq!(plan_page_writes(252, 10), vec![PageWrite { addr: 252, start: 0, len: 4 }]);
    assert_eq!(plan_page_writes(7, 0), vec![]);
}

#[test]
fn page_writes_tile_every_write() {
    for addr in 0..=255u8 {
        for len in [0usize, 1, 7, 8, 9, 30, 300] {
            let plan = plan_page_writes(addr, len);
            let mut next = 0usize;
            for w in &plan {
                assert_eq!(w.start, next);
                assert_eq!(w.addr as usize, addr as usize + w.start);
                assert!(w.len >= 1 && w.len <= 8);
                assert_eq!(w.addr as usize / 8, (w.addr as usize + w.len - 1) / 8);
                next += w.len;
            }
            assert_eq!(next, transfer_len(addr, len));
        }
    }
}

#[test]
fn zero_fill_completes_the_partition() {
    let p = Partition::new(0, 256);
    let plan = plan_zero_fill(&p, 200);
    assert_eq!(plan, vec![(200, 8), (208, 8), (216, 8), (224, 8), (232, 8), (240, 8), (248, 8)]);
    assert_eq!(plan_zero_fill(&p, 300), vec![]);
}

#[test]
fn zero_fill_wraps_addresses() {
    let p = Partition::new(250, 16);
    assert_eq!(plan_zero_fill(&p, 4), vec![(254, 8), (6, 4)]);
}

#[test]
fn trimmed_len_drops_erased_tail() {
    assert_eq!(trimmed_len(&[1, 2, 0xFF, 0x00, 0xFF]), 2);
    assert_eq!(trimmed_len(&[0xFF, 0xFF]), 0);
    assert_eq!(trimmed_len(&[]), 0);
    assert_eq!(trimmed_len(&[0, 5]), 2);
}

#[test]
fn last_byte_of_a_read_is_nacked() {
    assert!(ack_after(0, 3));
    assert!(ack_after(1, 3));
    assert!(!ack_after(2, 3));
    assert!(!ack_after(0, 1));
}

#[test]
fn bytes_round_trip_msb_first() {
    for b in [0x00u8, 0xA5, 0xFF, 0x3C, 0x80] {
        let mut r = 0u8;
        for i in (0..8u8).rev() {
            r = shift_in(r, msb_bit(b, i));
        }
        assert_eq!(r, b);
    }
    assert!(msb_bit(0x80, 7));
    assert!(!msb_bit(0x80, 6));
    assert_eq!(shift_in(0x81, true), 0x03);
}

#[test]
fn systick_ticks_for_delays() {
    assert_eq!(systick_ticks(0), None);
    assert_eq!(systick_ticks(1), Some(72));
    assert_eq!(systick_ticks(1000), Some(72_000));
    assert_eq!(systick_ticks(233_016), Some(16_777_152));
    assert_eq!(systick_ticks(233_017), None);
    assert_eq!(systick_ticks(u32::MAX), None);
}

#[test]
fn delay_cycles_at_72mhz() {
    assert_eq!(delay_cycles(72_000_000, 20), 1_440_000);
    assert_eq!(delay_cycles(72_000_000, 0), 0);
    assert_eq!(delay_cycles(8_000_999, 3), 24_000);
}

#[test]
fn safe_text_len_trims_and_stops_at_invalid_utf8() {
    assert_eq!(safe_text_len(b"abc\xFF\x00\xFF"), 3);
    assert_eq!(safe_text_len("春眠".as_bytes()), 6);
    // a character cut off by the end of the buffer
    let cut = &"春眠".as_bytes()[..5];
    assert_eq!(safe_text_len(cut), 3);
    assert_eq!(safe_text_len(b"ab\x80cd"), 2);
    assert_eq!(safe_text_len(&[0xFF; 8]), 0);
}
