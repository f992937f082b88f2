//! The bus transactions of the 24C02 driver, as scripts of steps that the
//! code owning the bit-banged bus carries out in order.
use vstd::prelude::*;
use crate::eeprom::{
    clipped_len,
    fills_view,
    lemma_page_writes_tile,
    lemma_zero_fill_covers,
    min_nat,
    page_writes,
    plan_page_writes,
    plan_zero_fill,
    writes_view,
    zero_fill_writes,
    Partition,
    EEPROM_DEV_ADDR,
    STANDBY_POLLS,
};

verus! {

/// The device address with the read bit set.
pub const EEPROM_READ_ADDR: u8 = 0xA1;

/// One step of a script on the EEPROM's bus.
///
/// A script is carried out in order. `Write` sends a byte; if the device
/// does not acknowledge it, a stop condition is sent and the script fails.
/// `Read` receives the next byte of the caller's buffer and answers it with
/// an ACK (`true`) or a NACK. `Standby` polls the device until its internal
/// write cycle is over; if it never answers, the script fails. A script
/// that reaches its end succeeds.
#[derive(Debug, Clone, Copy, PartialEq, Eq)]
pub enum I2cOp {
    Start,
    Write(u8),
    Read(bool),
    Stop,
    Standby,
}

/// Sends of each byte of `bytes`, in order.
pub open spec fn sends(bytes: Seq<u8>) -> Seq<I2cOp> {
    Seq::new(bytes.len(), |i: int| I2cOp::Write(bytes[i]))
}

/// The transaction of the page write `p = (word address, start, length)`
/// of `data`; all but the first wait for the device to finish the previous
/// one.
pub open spec fn page_ops(data: Seq<u8>, p: (int, int, int), first: bool) -> Seq<I2cOp> {
    (if first {
        Seq::empty()
    } else {
        seq![I2cOp::Standby]
    }) + seq![I2cOp::Start, I2cOp::Write(EEPROM_DEV_ADDR), I2cOp::Write(p.0 as u8)] + sends(
        data.subrange(p.1, p.1 + p.2),
    ) + seq![I2cOp::Stop]
}

/// The transactions of the first `n` page writes of `plan`.
pub open spec fn pages_ops(data: Seq<u8>, plan: Seq<(int, int, int)>, n: int) -> Seq<I2cOp>
    decreases n,
{
    if n <= 0 {
        Seq::empty()
    } else {
        pages_ops(data, plan, n - 1) + page_ops(data, plan[n - 1], n == 1)
    }
}

/// The script that writes `data` at `addr`, clipped at the end of the
/// device: one transaction per page write, then a wait for the last write
/// cycle.
pub open spec fn write_ops(addr: u8, data: Seq<u8>) -> Seq<I2cOp> {
    let plan = page_writes(addr as int, clipped_len(addr, data.len() as int), 0);
    pages_ops(data, plan, plan.len() as int) + seq![I2cOp::Standby]
}

/// The script that reads `n` bytes from `addr`, clipped at the end of the
/// device: a dummy write of the word address, a repeated start, then every
/// byte acknowledged but the last; `None` when nothing is to be read.
pub open spec fn read_ops(addr: u8, n: int) -> Option<Seq<I2cOp>> {
    let len = clipped_len(addr, n);
    if len <= 0 {
        None
    } else {
        Some(
            seq![
                I2cOp::Start,
                I2cOp::Write(EEPROM_DEV_ADDR),
                I2cOp::Write(addr),
                I2cOp::Start,
                I2cOp::Write(EEPROM_READ_ADDR),
            ] + Seq::new(len as nat, |i: int| I2cOp::Read(i + 1 < len)) + seq![I2cOp::Stop],
        )
    }
}

/// `n` zero bytes.
pub open spec fn zeros(n: int) -> Seq<u8> {
    Seq::new(n as nat, |i: int| 0u8)
}

/// Appends the script that writes the first `n` bytes of `data` at `addr`.
fn push_write_ops(ops: &mut Vec<I2cOp>, addr: u8, data: &[u8], n: usize)
    requires
        n <= data.len(),
    ensures
        final(ops)@ == old(ops)@ + write_ops(addr, data@.subrange(0, n as int)),
{
    let ghost d = data@.subrange(0, n as int);
    let plan = plan_page_writes(addr, n);
    let ghost total = clipped_len(addr, n as int);
    let ghost pv = writes_view(plan@);
    proof {
        lemma_page_writes_tile(addr as int, total, 0);
    }
    let ghost start = ops@;
    let mut k: usize = 0;
    while k < plan.len()
        invariant
            k <= plan.len(),
            n <= data.len(),
            d == data@.subrange(0, n as int),
            total == clipped_len(addr, n as int),
            total <= n,
            pv == writes_view(plan@),
            pv == page_writes(addr as int, total, 0),
            forall|i: int| 0 <= i < pv.len() ==> 0 <= #[trigger] pv[i].1 && pv[i].1 + pv[i].2 <= total,
            ops@ == start + pages_ops(d, pv, k as int),
        decreases plan.len() - k,
    {
        let w = plan[k];
        assert(pv[k as int] == (w.addr as int, w.start as int, w.len as int));
        assert(0 <= pv[k as int].1 && pv[k as int].1 + pv[k as int].2 <= total);
        if k > 0 {
            ops.push(I2cOp::Standby);
        }
        ops.push(I2cOp::Start);
        ops.push(I2cOp::Write(EEPROM_DEV_ADDR));
        ops.push(I2cOp::Write(w.addr));
        let ghost head = ops@;
        let mut i: usize = 0;
        while i < w.len
            invariant
                i <= w.len,
                w.start + w.len <= n,
                n <= data.len(),
                d == data@.subrange(0, n as int),
                ops@ == head + sends(d.subrange(w.start as int, w.start + i)),
            decreases w.len - i,
        {
            let b = data[w.start + i];
            ops.push(I2cOp::Write(b));
            assert(sends(d.subrange(w.start as int, w.start + i + 1)) =~= sends(
                d.subrange(w.start as int, w.start + i),
            ).push(I2cOp::Write(b)));
            i = i + 1;
        }
        ops.push(I2cOp::Stop);
        assert(((w.addr as int) as u8) == w.addr);
        assert(ops@ =~= start + pages_ops(d, pv, k + 1));
        k = k + 1;
    }
    ops.push(I2cOp::Standby);
    assert(ops@ =~= old(ops)@ + write_ops(addr, d));
}

/// The script of a write of `data` at `addr`.
pub fn write_bytes_script(addr: u8, data: &[u8]) -> (ops: Vec<I2cOp>)
    ensures
        ops@ == write_ops(addr, data@),
{
    let mut ops: Vec<I2cOp> = Vec::new();
    push_write_ops(&mut ops, addr, data, data.len());
    assert(data@.subrange(0, data@.len() as int) =~= data@);
    assert(ops@ =~= write_ops(addr, data@));
    ops
}

/// The script of a read of `len` bytes from `addr`, or `None` when nothing
/// is to be read.
pub fn read_bytes_script(addr: u8, len: usize) -> (ops: Option<Vec<I2cOp>>)
    ensures
        (match ops {
            Some(v) => Some(v@),
            None => None,
        }) == read_ops(addr, len as int),
{
    let read_len = crate::eeprom::transfer_len(addr, len);
    if read_len == 0 {
        return None;
    }
    let mut ops: Vec<I2cOp> = Vec::new();
    ops.push(I2cOp::Start);
    ops.push(I2cOp::Write(EEPROM_DEV_ADDR));
    ops.push(I2cOp::Write(addr));
    ops.push(I2cOp::Start);
    ops.push(I2cOp::Write(EEPROM_READ_ADDR));
    let ghost head = ops@;
    let mut i: usize = 0;
    while i < read_len
        invariant
            i <= read_len,
            read_len == clipped_len(addr, len as int),
            ops@ == head + Seq::new(i as nat, |j: int| I2cOp::Read(j + 1 < read_len)),
        decreases read_len - i,
    {
        ops.push(I2cOp::Read(crate::eeprom::ack_after(i, read_len)));
        assert(head + Seq::new((i + 1) as nat, |j: int| I2cOp::Read(j + 1 < read_len)) =~= (head
            + Seq::new(i as nat, |j: int| I2cOp::Read(j + 1 < read_len))).push(
            I2cOp::Read(i + 1 < read_len),
        ));
        i = i + 1;
    }
    ops.push(I2cOp::Stop);
    Some(ops)
}

/// The script that asks whether the device answers: it succeeds when the
/// device acknowledges its address.
pub open spec fn probe_ops() -> Seq<I2cOp> {
    seq![I2cOp::Start, I2cOp::Write(EEPROM_DEV_ADDR), I2cOp::Stop]
}

/// The script of a presence check.
pub fn probe_script() -> (ops: Vec<I2cOp>)
    ensures
        ops@ == probe_ops(),
{
    let mut ops: Vec<I2cOp> = Vec::new();
    ops.push(I2cOp::Start);
    ops.push(I2cOp::Write(EEPROM_DEV_ADDR));
    ops.push(I2cOp::Stop);
    assert(ops@ =~= probe_ops());
    ops
}

/// The scripts of the first `n` zero-filling writes of `fills`, one after
/// the other.
pub open spec fn fills_ops(fills: Seq<(int, int)>, n: int) -> Seq<I2cOp>
    decreases n,
{
    if n <= 0 {
        Seq::empty()
    } else {
        fills_ops(fills, n - 1) + write_ops(fills[n - 1].0 as u8, zeros(fills[n - 1].1))
    }
}

/// The script of a partition write: as much of `data` as the partition
/// holds, then zeros up to the end of the partition, each run of at most a
/// page written on its own.
pub open spec fn partition_write_ops(part: Partition, data: Seq<u8>) -> Seq<I2cOp> {
    let len = min_nat(data.len() as int, part.size as int);
    let fills = zero_fill_writes(part.offset + len, part.size - len);
    write_ops(part.offset, data.subrange(0, len)) + fills_ops(fills, fills.len() as int)
}

/// The script of a partition write, and how many bytes of `data` it
/// writes.
pub fn write_partition_script(part: &Partition, data: &[u8]) -> (r: (Vec<I2cOp>, usize))
    ensures
        r.0@ == partition_write_ops(*part, data@),
        r.1 == min_nat(data.len() as int, part.size as int),
{
    let len = part.max_len(data.len());
    let mut ops: Vec<I2cOp> = Vec::new();
    push_write_ops(&mut ops, part.offset, data, len);
    let fills = plan_zero_fill(part, data.len());
    let ghost fv = fills_view(fills@);
    let ghost head = ops@;
    proof {
        lemma_zero_fill_covers(part.offset + len, part.size - len);
    }
    let zero_page = [0u8; 8];
    let mut k: usize = 0;
    while k < fills.len()
        invariant
            k <= fills.len(),
            fv == fills_view(fills@),
            fv == zero_fill_writes(part.offset + len, part.size - len),
            forall|i: int| 0 <= i < fv.len() ==> 1 <= #[trigger] fv[i].1 <= 8,
            zero_page@ == zeros(8),
            ops@ == head + fills_ops(fv, k as int),
        decreases fills.len() - k,
    {
        let (a, c) = fills[k];
        assert(fv[k as int] == (a as int, c as int));
        push_write_ops(&mut ops, a, &zero_page, c);
        assert(zero_page@.subrange(0, c as int) =~= zeros(c as int));
        assert(((a as int) as u8) == a);
        assert(ops@ =~= head + fills_ops(fv, k + 1));
        k = k + 1;
    }
    (ops, len)
}

/// The script of a partition read into a buffer of `buf_len` bytes, and
/// how many bytes it covers.
pub fn read_partition_script(part: &Partition, buf_len: usize) -> (r: (Option<Vec<I2cOp>>, usize))
    ensures
        (match r.0 {
            Some(v) => Some(v@),
            None => None,
        }) == read_ops(part.offset, min_nat(buf_len as int, part.size as int)),
        r.1 == min_nat(buf_len as int, part.size as int),
{
    let len = part.max_len(buf_len);
    (read_bytes_script(part.offset, len), len)
}

/// What the code carrying out a script does after a step.
#[derive(Debug, Clone, Copy, PartialEq, Eq)]
pub enum Flow {
    /// Go on with the next step.
    Continue,
    /// Send a stop condition; the script has failed.
    StopAndFail,
    /// The script has failed.
    Fail,
}

/// The flow after step `op`, `ok` telling whether the device acknowledged
/// a written byte or finished its write cycle in time; for the other steps
/// it is ignored.
pub open spec fn flow_after_spec(op: I2cOp, ok: bool) -> Flow {
    match op {
        I2cOp::Write(_) => if ok {
            Flow::Continue
        } else {
            Flow::StopAndFail
        },
        I2cOp::Standby => if ok {
            Flow::Continue
        } else {
            Flow::Fail
        },
        _ => Flow::Continue,
    }
}

/// The flow after a step of a script.
pub fn flow_after(op: I2cOp, ok: bool) -> (f: Flow)
    ensures
        f == flow_after_spec(op, ok),
{
    match op {
        I2cOp::Write(_) => if ok {
            Flow::Continue
        } else {
            Flow::StopAndFail
        },
        I2cOp::Standby => if ok {
            Flow::Continue
        } else {
            Flow::Fail
        },
        _ => Flow::Continue,
    }
}

/// What to do after one poll of a device that may be busy writing.
#[derive(Debug, Clone, Copy, PartialEq, Eq)]
pub enum Poll {
    /// The device answered: it is ready.
    Ready,
    /// Poll again.
    Again,
    /// The device never answered.
    TimedOut,
}

/// The decision after poll number `polls` (counting from 0): ready when the
/// device answered, timed out after the last allowed poll, else again.
pub open spec fn standby_poll_spec(polls: u32, answered: bool) -> Poll {
    if answered {
        Poll::Ready
    } else if polls + 1 >= STANDBY_POLLS {
        Poll::TimedOut
    } else {
        Poll::Again
    }
}

/// The decision after one standby poll.
pub fn standby_poll(polls: u32, answered: bool) -> (p: Poll)
    requires
        polls < STANDBY_POLLS,
    ensures
        p == standby_poll_spec(polls, answered),
{
    if answered {
        Poll::Ready
    } else if polls + 1 >= STANDBY_POLLS {
        Poll::TimedOut
    } else {
        Poll::Again
    }
}

} // verus!
