use dome_drivers::eeprom_bus::{flow_after, Flow};
use dome_drivers::eeprom_bus::{standby_poll, Poll};
use dome_drivers::eeprom::Partition;
use dome_drivers::eeprom_bus::{
    probe_script, read_bytes_script, read_partition_script, write_bytes_script, write_partition_script, I2cOp,
};
use I2cOp::{Read, Standby, Start, Stop, Write};

#[test]
fn probe_is_address_then_stop() {
    assert_eq!(probe_script(), vec![Start, Write(0xA0), Stop]);
}

#[test]
fn write_script_splits_at_the_page_boundary() {
    let ops = write_bytes_script(6, &[1, 2, 3, 4, 5]);
    assert_eq!(
        ops,
        vec![
            Start, Write(0xA0), Write(6), Write(1), Write(2), Stop,
            Standby,
            Start, Write(0xA0), Write(8), Write(3), Write(4), Write(5), Stop,
            Standby,
        ]
    );
}

#[test]
fn write_script_of_nothing_only_waits() {
    assert_eq!(write_bytes_script(9, &[]), vec![Standby]);
}

#[test]
fn write_script_stops_at_the_end_of_the_device() {
    let ops = write_bytes_script(254, &[7, 8, 9, 10]);
    assert_eq!(ops, vec![Start, Write(0xA0), Write(254), Write(7), Write(8), Stop, Standby]);
}

#[test]
fn read_script_acknowledges_all_but_the_last_byte() {
    let ops = read_bytes_script(250, 10).unwrap();
    assert_eq!(
        ops,
        vec![
            Start, Write(0xA0), Write(250), Start, Write(0xA1),
            Read(true), Read(true), Read(true), Read(true), Read(true), Read(false),
            Stop,
        ]
    );
}

#[test]
fn read_script_of_nothing_is_refused() {
    assert_eq!(read_bytes_script(0, 0), None);
}

#[test]
fn partition_write_fills_the_rest_with_zeros() {
    let part = Partition::new(0x10, 12);
    let (ops, len) = write_partition_script(&part, &[0xAA, 0xBB, 0xCC]);
    assert_eq!(len, 3);
    let mut expected = vec![Start, Write(0xA0), Write(0x10), Write(0xAA), Write(0xBB), Write(0xCC), Stop, Standby];
    // eight zeros from 0x13, split at 0x18
    expected.extend([Start, Write(0xA0), Write(0x13)]);
    expected.extend([Write(0); 5]);
    expected.extend([Stop, Standby, Start, Write(0xA0), Write(0x18)]);
    expected.extend([Write(0); 3]);
    expected.extend([Stop, Standby]);
    // the last zero at 0x1B
    expected.extend([Start, Write(0xA0), Write(0x1B), Write(0), Stop, Standby]);
    assert_eq!(ops, expected);
}

#[test]
fn partition_write_truncates_the_data() {
    let part = Partition::new(0, 2);
    let (ops, len) = write_partition_script(&part, &[1, 2, 3, 4]);
    assert_eq!(len, 2);
    assert_eq!(ops, vec![Start, Write(0xA0), Write(0), Write(1), Write(2), Stop, Standby]);
}

#[test]
fn partition_read_is_clipped_to_the_partition() {
    let part = Partition::new(0x20, 3);
    let (ops, len) = read_partition_script(&part, 16);
    assert_eq!(len, 3);
    assert_eq!(
        ops,
        Some(vec![Start, Write(0xA0), Write(0x20), Start, Write(0xA1), Read(true), Read(true), Read(false), Stop])
    );
    let (none, zero) = read_partition_script(&part, 0);
    assert_eq!(zero, 0);
    assert_eq!(none, None);
}

/// A 24C02 that acknowledges every byte: page-wrapping writes, sequential
/// reads.
struct Chip {
    mem: [u8; 256],
    ptr: usize,
    phase: u8,
}

impl Chip {
    fn run(&mut self, ops: &[I2cOp]) -> Vec<u8> {
        let mut out = Vec::new();
        for op in ops {
            match *op {
                Start => self.phase = 1,
                Stop => self.phase = 0,
                Standby => {}
                Write(b) => match self.phase {
                    1 => self.phase = if b == 0xA0 { 2 } else if b == 0xA1 { 4 } else { 0 },
                    2 => {
                        self.ptr = b as usize;
                        self.phase = 3;
                    }
                    3 => {
                        self.mem[self.ptr] = b;
                        self.ptr = self.ptr - self.ptr % 8 + (self.ptr % 8 + 1) % 8;
                    }
                    _ => {}
                },
                Read(_) => {
                    if self.phase == 4 {
                        out.push(self.mem[self.ptr]);
                        self.ptr = (self.ptr + 1) % 256;
                    }
                }
            }
        }
        out
    }
}

#[test]
fn partition_reads_back_what_was_written() {
    let mut chip = Chip { mem: [0xFF; 256], ptr: 0, phase: 0 };
    let part = Partition::new(0x05, 20);
    let data: Vec<u8> = (1..=13).collect();
    let (w, len) = write_partition_script(&part, &data);
    assert_eq!(len, 13);
    assert!(chip.run(&w).is_empty());
    let (r, n) = read_partition_script(&part, 64);
    assert_eq!(n, 20);
    let back = chip.run(&r.unwrap());
    let mut expected = data.clone();
    expected.extend([0u8; 7]);
    assert_eq!(back, expected);
    // bytes outside the partition are untouched
    assert_eq!(chip.mem[0x04], 0xFF);
    assert_eq!(chip.mem[0x05 + 20], 0xFF);
}

#[test]
fn whole_device_partition_round_trip() {
    let mut chip = Chip { mem: [0x5A; 256], ptr: 0, phase: 0 };
    let part = Partition::new(0, 256);
    let data: Vec<u8> = (0..300u32).map(|i| (i * 7 % 251) as u8).collect();
    let (w, len) = write_partition_script(&part, &data);
    assert_eq!(len, 256);
    chip.run(&w);
    let (r, n) = read_partition_script(&part, 256);
    assert_eq!(n, 256);
    assert_eq!(chip.run(&r.unwrap()), data[..256].to_vec());
}

#[test]
fn flow_after_failed_steps() {
    assert_eq!(flow_after(Write(0xA0), true), Flow::Continue);
    assert_eq!(flow_after(Write(0xA0), false), Flow::StopAndFail);
    assert_eq!(flow_after(Standby, true), Flow::Continue);
    assert_eq!(flow_after(Standby, false), Flow::Fail);
    assert_eq!(flow_after(Start, false), Flow::Continue);
    assert_eq!(flow_after(Read(true), false), Flow::Continue);
    assert_eq!(flow_after(Stop, false), Flow::Continue);
}

#[test]
fn standby_polls_a_thousand_times() {
    assert_eq!(standby_poll(0, true), Poll::Ready);
    assert_eq!(standby_poll(0, false), Poll::Again);
    assert_eq!(standby_poll(998, false), Poll::Again);
    assert_eq!(standby_poll(999, false), Poll::TimedOut);
    assert_eq!(standby_poll(999, true), Poll::Ready);
}
