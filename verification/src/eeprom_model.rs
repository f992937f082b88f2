//! An ideal 24C02 (one that acknowledges every byte and finishes each
//! write cycle in time) as a function of the bus steps it receives, and
//! what the driver's scripts do to it.
use vstd::prelude::*;
use crate::eeprom::{
    clipped_len,
    lemma_page_writes_tile,
    min_nat,
    page_writes,
    zero_fill_writes,
    Partition,
    EEPROM_DEV_ADDR,
};
use crate::eeprom_bus::{
    fills_ops,
    page_ops,
    pages_ops,
    partition_write_ops,
    read_ops,
    sends,
    write_ops,
    zeros,
    I2cOp,
    EEPROM_READ_ADDR,
};

verus! {

/// Where the device is in a transaction.
pub enum DevPhase {
    /// Between transactions.
    Idle,
    /// After a start condition: the next byte selects the device and the
    /// direction.
    Select,
    /// Selected for writing: the next byte is the word address.
    WordAddr,
    /// Following bytes are stored.
    Writing,
    /// Selected for reading.
    Reading,
}

/// The device's memory, its address pointer and its phase.
pub struct Device {
    pub mem: Seq<u8>,
    pub ptr: int,
    pub phase: DevPhase,
}

/// The address after `p` when writing: the next one within the same page
/// of eight bytes, wrapping to the start of the page.
pub open spec fn page_next(p: int) -> int {
    p - p % 8 + (p % 8 + 1) % 8
}

/// `mem` with `bytes` stored from address `at`.
pub open spec fn overlay(mem: Seq<u8>, at: int, bytes: Seq<u8>) -> Seq<u8> {
    Seq::new(mem.len(), |j: int| if at <= j < at + bytes.len() { bytes[j - at] } else { mem[j] })
}

/// The device's state after one step, and the bytes it sent back.
pub open spec fn dev_step(d: Device, op: I2cOp) -> (Device, Seq<u8>) {
    match op {
        I2cOp::Start => (Device { mem: d.mem, ptr: d.ptr, phase: DevPhase::Select }, Seq::empty()),
        I2cOp::Stop => (Device { mem: d.mem, ptr: d.ptr, phase: DevPhase::Idle }, Seq::empty()),
        I2cOp::Standby => (d, Seq::empty()),
        I2cOp::Write(b) => match d.phase {
            DevPhase::Select => (
                Device {
                    mem: d.mem,
                    ptr: d.ptr,
                    phase: if b == EEPROM_DEV_ADDR {
                        DevPhase::WordAddr
                    } else if b == EEPROM_READ_ADDR {
                        DevPhase::Reading
                    } else {
                        DevPhase::Idle
                    },
                },
                Seq::empty(),
            ),
            DevPhase::WordAddr => (Device { mem: d.mem, ptr: b as int, phase: DevPhase::Writing }, Seq::empty()),
            DevPhase::Writing => (
                Device { mem: d.mem.update(d.ptr, b), ptr: page_next(d.ptr), phase: DevPhase::Writing },
                Seq::empty(),
            ),
            _ => (d, Seq::empty()),
        },
        I2cOp::Read(_) => match d.phase {
            DevPhase::Reading => (
                Device { mem: d.mem, ptr: (d.ptr + 1) % 256, phase: DevPhase::Reading },
                seq![d.mem[d.ptr]],
            ),
            _ => (d, Seq::empty()),
        },
    }
}

/// The device's state after a script, and the bytes it sent back.
pub open spec fn dev_run(d: Device, ops: Seq<I2cOp>) -> (Device, Seq<u8>)
    decreases ops.len(),
{
    if ops.len() == 0 {
        (d, Seq::empty())
    } else {
        let (d1, out1) = dev_step(d, ops[0]);
        let (d2, out2) = dev_run(d1, ops.drop_first());
        (d2, out1 + out2)
    }
}

/// Running two scripts one after the other is running their
/// concatenation.
pub proof fn lemma_dev_run_append(d: Device, a: Seq<I2cOp>, b: Seq<I2cOp>)
    ensures
        dev_run(d, a + b).0 == dev_run(dev_run(d, a).0, b).0,
        dev_run(d, a + b).1 == dev_run(d, a).1 + dev_run(dev_run(d, a).0, b).1,
    decreases a.len(),
{
    if a.len() == 0 {
        assert(a + b =~= b);
        assert(dev_run(d, a + b).1 =~= Seq::<u8>::empty() + dev_run(d, b).1);
    } else {
        let d1 = dev_step(d, a[0]).0;
        lemma_dev_run_append(d1, a.drop_first(), b);
        assert((a + b).drop_first() =~= a.drop_first() + b);
        assert((a + b)[0] == a[0]);
        let o1 = dev_step(d, a[0]).1;
        let oa = dev_run(d1, a.drop_first()).1;
        let ob = dev_run(dev_run(d1, a.drop_first()).0, b).1;
        assert(o1 + (oa + ob) =~= (o1 + oa) + ob);
    }
}

/// Bytes sent while writing within one page are stored at consecutive
/// addresses.
proof fn lemma_sends(d: Device, bytes: Seq<u8>)
    requires
        d.phase == DevPhase::Writing,
        d.mem.len() == 256,
        0 <= d.ptr,
        d.ptr + bytes.len() <= 256,
        bytes.len() > 0 ==> d.ptr / 8 == (d.ptr + bytes.len() - 1) / 8,
    ensures
        dev_run(d, sends(bytes)).0.mem == overlay(d.mem, d.ptr, bytes),
        dev_run(d, sends(bytes)).0.phase == DevPhase::Writing,
        dev_run(d, sends(bytes)).1 == Seq::<u8>::empty(),
    decreases bytes.len(),
{
    let s = sends(bytes);
    if bytes.len() == 0 {
        assert(overlay(d.mem, d.ptr, bytes) =~= d.mem);
    } else {
        assert(s[0] == I2cOp::Write(bytes[0]));
        assert(s.drop_first() =~= sends(bytes.drop_first()));
        let d1 = dev_step(d, s[0]).0;
        assert(d1.mem == d.mem.update(d.ptr, bytes[0]));
        if bytes.len() > 1 {
            assert(d.ptr % 8 < 7);
            assert(d1.ptr == d.ptr + 1);
        }
        assert(0 <= d1.ptr < 256);
        lemma_sends(d1, bytes.drop_first());
        assert(overlay(d.mem.update(d.ptr, bytes[0]), d1.ptr, bytes.drop_first()) =~= overlay(
            d.mem,
            d.ptr,
            bytes,
        )) by {
            if bytes.len() > 1 {
                assert(d1.ptr == d.ptr + 1);
            }
        }
        assert(dev_run(d, s).1 =~= Seq::<u8>::empty());
    }
}

/// One page-write transaction stores its bytes from its word address and
/// leaves the device idle.
proof fn lemma_page_ops(d: Device, data: Seq<u8>, p: (int, int, int), first: bool)
    requires
        d.mem.len() == 256,
        0 <= p.1,
        p.1 + p.2 <= data.len(),
        0 <= p.0,
        1 <= p.2,
        p.0 + p.2 <= 256,
        p.0 / 8 == (p.0 + p.2 - 1) / 8,
    ensures
        dev_run(d, page_ops(data, p, first)).0.mem == overlay(d.mem, p.0, data.subrange(p.1, p.1 + p.2)),
        dev_run(d, page_ops(data, p, first)).0.phase == DevPhase::Idle,
        dev_run(d, page_ops(data, p, first)).1 == Seq::<u8>::empty(),
{
    let pre: Seq<I2cOp> = if first {
        Seq::empty()
    } else {
        seq![I2cOp::Standby]
    };
    let head = seq![I2cOp::Start, I2cOp::Write(EEPROM_DEV_ADDR), I2cOp::Write(p.0 as u8)];
    let body = sends(data.subrange(p.1, p.1 + p.2));
    let tail = seq![I2cOp::Stop];
    assert(page_ops(data, p, first) == pre + head + body + tail);
    reveal_with_fuel(dev_run, 4);
    let d0 = dev_run(d, pre).0;
    assert(d0 == d);
    assert(dev_run(d, pre).1 =~= Seq::<u8>::empty());
    let d1 = dev_run(d0, head).0;
    assert(d1.mem == d.mem && d1.ptr == p.0 && d1.phase == DevPhase::Writing);
    assert(dev_run(d0, head).1 =~= Seq::<u8>::empty());
    lemma_sends(d1, data.subrange(p.1, p.1 + p.2));
    let d2 = dev_run(d1, body).0;
    lemma_dev_run_append(d, pre, head);
    lemma_dev_run_append(d, pre + head, body);
    lemma_dev_run_append(d, pre + head + body, tail);
    assert(dev_run(d2, tail).1 =~= Seq::<u8>::empty());
    assert(dev_run(d, page_ops(data, p, first)).1 =~= Seq::<u8>::empty());
}

/// The first `n` page writes of a write of `total` bytes at `addr` store
/// the data bytes they cover.
#[verifier::spinoff_prover]
#[verifier::rlimit(40)]
proof fn lemma_pages_ops(d: Device, data: Seq<u8>, addr: int, total: int, n: int)
    requires
        d.mem.len() == 256,
        0 <= addr,
        0 <= total <= data.len(),
        addr + total <= 256,
        0 <= n <= page_writes(addr, total, 0).len(),
    ensures
        ({
            let plan = page_writes(addr, total, 0);
            let e = if n == 0 {
                0
            } else {
                plan[n - 1].1 + plan[n - 1].2
            };
            &&& dev_run(d, pages_ops(data, plan, n)).0.mem == overlay(d.mem, addr, data.subrange(0, e))
            &&& dev_run(d, pages_ops(data, plan, n)).1 == Seq::<u8>::empty()
        }),
    decreases n,
{
    let plan = page_writes(addr, total, 0);
    lemma_page_writes_tile(addr, total, 0);
    if n == 0 {
        assert(overlay(d.mem, addr, data.subrange(0, 0)) =~= d.mem);
    } else {
        lemma_pages_ops(d, data, addr, total, n - 1);
        let a = pages_ops(data, plan, n - 1);
        let q = plan[n - 1];
        lemma_dev_run_append(d, a, page_ops(data, q, n == 1));
        let d1 = dev_run(d, a).0;
        let s = if n == 1 {
            0
        } else {
            plan[n - 2].1 + plan[n - 2].2
        };
        assert(q.1 == s);
        assert(q.0 == addr + s);
        lemma_page_ops(d1, data, q, n == 1);
        assert(overlay(overlay(d.mem, addr, data.subrange(0, s)), addr + s, data.subrange(s, s + q.2))
            =~= overlay(d.mem, addr, data.subrange(0, s + q.2)));
        assert(dev_run(d, pages_ops(data, plan, n)).1 =~= Seq::<u8>::empty());
    }
}

/// A write script stores, from `addr`, the data bytes that fit before the
/// end of the device, and returns nothing.
pub proof fn lemma_write_ops_effect(d: Device, addr: u8, data: Seq<u8>)
    requires
        d.mem.len() == 256,
    ensures
        dev_run(d, write_ops(addr, data)).0.mem == overlay(
            d.mem,
            addr as int,
            data.subrange(0, clipped_len(addr, data.len() as int)),
        ),
        dev_run(d, write_ops(addr, data)).1 == Seq::<u8>::empty(),
{
    let total = clipped_len(addr, data.len() as int);
    let plan = page_writes(addr as int, total, 0);
    lemma_page_writes_tile(addr as int, total, 0);
    lemma_pages_ops(d, data, addr as int, total, plan.len() as int);
    let a = pages_ops(data, plan, plan.len() as int);
    lemma_dev_run_append(d, a, seq![I2cOp::Standby]);
    reveal_with_fuel(dev_run, 2);
    assert(dev_run(d, write_ops(addr, data)).1 =~= Seq::<u8>::empty());
}

/// Reading steps return consecutive bytes of memory.
proof fn lemma_reads(d: Device, ops: Seq<I2cOp>)
    requires
        d.phase == DevPhase::Reading,
        d.mem.len() == 256,
        0 <= d.ptr,
        d.ptr + ops.len() <= 256,
        forall|i: int| 0 <= i < ops.len() ==> #[trigger] ops[i] is Read,
    ensures
        dev_run(d, ops).1 == d.mem.subrange(d.ptr, d.ptr + ops.len()),
        dev_run(d, ops).0.mem == d.mem,
        dev_run(d, ops).0.phase == DevPhase::Reading,
    decreases ops.len(),
{
    if ops.len() > 0 {
        assert(ops[0] is Read);
        let d1 = dev_step(d, ops[0]).0;
        if ops.len() > 1 {
            assert(d1.ptr == d.ptr + 1);
        }
        lemma_reads(d1, ops.drop_first());
        assert(ops.drop_first().len() == ops.len() - 1);
        assert forall|i: int| 0 <= i < ops.drop_first().len() implies #[trigger] ops.drop_first()[i] is Read by {
            assert(ops.drop_first()[i] == ops[i + 1]);
        }
        assert(seq![d.mem[d.ptr]] + d.mem.subrange(d.ptr + 1, d.ptr + ops.len()) =~= d.mem.subrange(
            d.ptr,
            d.ptr + ops.len(),
        ));
    } else {
        assert(d.mem.subrange(d.ptr, d.ptr) =~= Seq::<u8>::empty());
    }
}

/// A read script returns the bytes stored from `addr` on, as many as it
/// reads, and leaves the memory as it was.
pub proof fn lemma_read_ops_effect(d: Device, addr: u8, n: int)
    requires
        d.mem.len() == 256,
        read_ops(addr, n) is Some,
    ensures
        dev_run(d, read_ops(addr, n).unwrap()).1 == d.mem.subrange(addr as int, addr + clipped_len(addr, n)),
        dev_run(d, read_ops(addr, n).unwrap()).0.mem == d.mem,
{
    let len = clipped_len(addr, n);
    let head = seq![
        I2cOp::Start,
        I2cOp::Write(EEPROM_DEV_ADDR),
        I2cOp::Write(addr),
        I2cOp::Start,
        I2cOp::Write(EEPROM_READ_ADDR),
    ];
    let reads = Seq::new(len as nat, |i: int| I2cOp::Read(i + 1 < len));
    let tail = seq![I2cOp::Stop];
    assert(read_ops(addr, n).unwrap() == head + reads + tail);
    reveal_with_fuel(dev_run, 6);
    let d1 = dev_run(d, head).0;
    assert(d1.mem == d.mem && d1.ptr == addr && d1.phase == DevPhase::Reading);
    assert(dev_run(d, head).1 =~= Seq::<u8>::empty());
    lemma_reads(d1, reads);
    lemma_dev_run_append(d, head, reads);
    lemma_dev_run_append(d, head + reads, tail);
    let d2 = dev_run(d, head + reads).0;
    assert(dev_run(d2, tail).1 =~= Seq::<u8>::empty());
    assert(dev_run(d, read_ops(addr, n).unwrap()).1 =~= d.mem.subrange(addr as int, addr + len));
}

/// Chunk `i` of the zero-filling writes of `remaining` bytes from `start`
/// starts `8 * i` bytes in and is eight bytes long but for the last, which
/// takes what is left.
proof fn lemma_zero_fill_chunk(start: int, remaining: int, i: int)
    requires
        0 <= remaining,
        0 <= i < zero_fill_writes(start, remaining).len(),
    ensures
        remaining - 8 * i > 0,
        zero_fill_writes(start, remaining)[i].1 == min_nat(remaining - 8 * i, 8),
        zero_fill_writes(start, remaining)[i].0 == (start + 8 * i) % 256,
    decreases remaining,
{
    let chunk = min_nat(remaining, 8);
    let w = zero_fill_writes(start, remaining);
    let rest = zero_fill_writes(start + chunk, remaining - chunk);
    assert(w =~= seq![(start % 256, chunk)] + rest);
    if i > 0 {
        lemma_zero_fill_chunk(start + chunk, remaining - chunk, i - 1);
        assert(w[i] == rest[i - 1]);
        assert(chunk == 8);
        assert(start + chunk + 8 * (i - 1) == start + 8 * i);
    }
}

/// The zero-filling writes of `remaining` bytes from `start` are as many
/// eight-byte chunks as it takes.
proof fn lemma_zero_fill_count(start: int, remaining: int)
    requires
        0 <= remaining,
    ensures
        remaining - 8 * zero_fill_writes(start, remaining).len() <= 0,
    decreases remaining,
{
    if remaining > 0 {
        let chunk = min_nat(remaining, 8);
        lemma_zero_fill_count(start + chunk, remaining - chunk);
        let w = zero_fill_writes(start, remaining);
        let rest = zero_fill_writes(start + chunk, remaining - chunk);
        assert(w =~= seq![(start % 256, chunk)] + rest);
    }
}

/// The first `n` zero-filling writes of `remaining` bytes from `start`
/// clear the bytes they cover.
proof fn lemma_fills_ops(d: Device, start: int, remaining: int, n: int)
    requires
        d.mem.len() == 256,
        0 <= start,
        0 <= remaining,
        start + remaining <= 256,
        0 <= n <= zero_fill_writes(start, remaining).len(),
    ensures
        dev_run(d, fills_ops(zero_fill_writes(start, remaining), n)).0.mem == overlay(
            d.mem,
            start,
            zeros(min_nat(remaining, 8 * n)),
        ),
        dev_run(d, fills_ops(zero_fill_writes(start, remaining), n)).1 == Seq::<u8>::empty(),
    decreases n,
{
    let w = zero_fill_writes(start, remaining);
    if n == 0 {
        assert(overlay(d.mem, start, zeros(0)) =~= d.mem);
    } else {
        lemma_fills_ops(d, start, remaining, n - 1);
        let a = fills_ops(w, n - 1);
        let q = w[n - 1];
        lemma_zero_fill_chunk(start, remaining, n - 1);
        assert(q.1 == min_nat(remaining - 8 * (n - 1), 8));
        assert(q.0 == start + 8 * (n - 1));
        let b = write_ops(q.0 as u8, zeros(q.1));
        lemma_dev_run_append(d, a, b);
        let d1 = dev_run(d, a).0;
        lemma_write_ops_effect(d1, q.0 as u8, zeros(q.1));
        assert(clipped_len(q.0 as u8, q.1) == q.1);
        assert(zeros(q.1).subrange(0, q.1) =~= zeros(q.1));
        assert(min_nat(remaining, 8 * (n - 1)) == 8 * (n - 1));
        assert(overlay(overlay(d.mem, start, zeros(8 * (n - 1))), start + 8 * (n - 1), zeros(q.1))
            =~= overlay(d.mem, start, zeros(min_nat(remaining, 8 * n))));
        assert(dev_run(d, fills_ops(w, n)).1 =~= Seq::<u8>::empty());
    }
}

/// Reading a partition back after writing it gives what was written: as
/// much of the data as the partition holds, then the zeros that fill the
/// partition up, as far as the reading buffer reaches. Stated for a
/// partition that lies within the device.
pub proof fn lemma_partition_round_trip(d: Device, part: Partition, data: Seq<u8>, buf_len: int)
    requires
        d.mem.len() == 256,
        part.offset + part.size <= 256,
        0 < buf_len,
        0 < part.size,
    ensures
        ({
            let len = min_nat(data.len() as int, part.size as int);
            let m = min_nat(buf_len, part.size as int);
            let after = dev_run(d, partition_write_ops(part, data)).0;
            &&& read_ops(part.offset, m) is Some
            &&& dev_run(after, read_ops(part.offset, m).unwrap()).1 == (data.subrange(0, len) + zeros(
                part.size - len,
            )).subrange(0, m)
        }),
{
    let len = min_nat(data.len() as int, part.size as int);
    let start = part.offset + len;
    let rem = part.size - len;
    let w = zero_fill_writes(start, rem);
    let head = data.subrange(0, len);
    let a = write_ops(part.offset, head);
    let b = fills_ops(w, w.len() as int);
    lemma_write_ops_effect(d, part.offset, head);
    assert(head.subrange(0, clipped_len(part.offset, head.len() as int)) =~= head);
    lemma_dev_run_append(d, a, b);
    let d1 = dev_run(d, a).0;
    lemma_zero_fill_count(start, rem);
    lemma_fills_ops(d1, start, rem, w.len() as int);
    assert(min_nat(rem, 8 * (w.len() as int)) == rem);
    let after = dev_run(d, partition_write_ops(part, data)).0;
    assert(after.mem =~= overlay(d.mem, part.offset as int, head + zeros(rem)));
    let m = min_nat(buf_len, part.size as int);
    lemma_read_ops_effect(after, part.offset, m);
    assert(after.mem.subrange(part.offset as int, part.offset + m) =~= (head + zeros(rem)).subrange(0, m));
}

} // verus!
