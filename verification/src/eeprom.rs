//! Planning of transfers to a 256-byte I2C EEPROM with 8-byte pages (24C02):
//! which page writes a write of some bytes at some address becomes, how much
//! a read at some address returns, and how a partition is filled.
use vstd::prelude::*;

verus! {

/// The device's 8-bit bus address for writing; reading sets bit 0.
pub const EEPROM_DEV_ADDR: u8 = 0xA0;

/// Bytes per page: a single write transaction must not cross a page
/// boundary.
pub const EEPROM_PAGE_SIZE: usize = 8;

/// Capacity in bytes.
pub const EEPROM_SIZE: usize = 256;

/// How many times the device is polled for the end of its internal write
/// cycle before giving up.
pub const STANDBY_POLLS: u32 = 1000;

pub open spec fn min_nat(a: int, b: int) -> int {
    if a < b {
        a
    } else {
        b
    }
}

/// A region of the EEPROM: `size` bytes from `offset`.
pub struct Partition {
    pub offset: u8,
    pub size: u16,
}

impl Partition {
    /// The partition of `size` bytes at `offset`.
    pub fn new(offset: u8, size: u16) -> (p: Self)
        ensures
            p.offset == offset,
            p.size == size,
    {
        Partition { offset, size }
    }

    /// How many of `data_len` bytes fit in the partition.
    pub fn max_len(&self, data_len: usize) -> (n: usize)
        ensures
            n == min_nat(data_len as int, self.size as int),
    {
        if data_len < self.size as usize {
            data_len
        } else {
            self.size as usize
        }
    }
}

/// How many bytes a transfer of `len` bytes at `addr` covers: the part that
/// lies below the end of the device.
pub open spec fn clipped_len(addr: u8, len: int) -> int {
    min_nat(len, EEPROM_SIZE - addr)
}

/// How many bytes a transfer of `len` bytes starting at `addr` covers.
pub fn transfer_len(addr: u8, len: usize) -> (n: usize)
    ensures
        n == clipped_len(addr, len as int),
{
    let max_len = EEPROM_SIZE.saturating_sub(addr as usize);
    if len < max_len {
        len
    } else {
        max_len
    }
}

/// One write transaction: the word address sent after the device address,
/// and the bytes `start..start + len` of the data that follow it.
#[derive(Debug, Clone, Copy, PartialEq, Eq)]
pub struct PageWrite {
    pub addr: u8,
    pub start: usize,
    pub len: usize,
}

/// The transactions that write bytes `written..total` of the data at
/// `addr + written` onwards: each takes as many bytes as remain in the
/// current page, the first possibly fewer.
pub open spec fn page_writes(addr: int, total: int, written: int) -> Seq<(int, int, int)>
    decreases total - written,
{
    if written >= total || written < 0 {
        Seq::empty()
    } else {
        let chunk = min_nat(EEPROM_PAGE_SIZE - (addr + written) % (EEPROM_PAGE_SIZE as int), total - written);
        seq![(addr + written, written, chunk)] + page_writes(addr, total, written + chunk)
    }
}

/// The plain values of a list of transactions.
pub open spec fn writes_view(w: Seq<PageWrite>) -> Seq<(int, int, int)> {
    w.map_values(|p: PageWrite| (p.addr as int, p.start as int, p.len as int))
}

/// The transactions that write `data_len` bytes at `addr`, clipped at the
/// end of the device.
pub fn plan_page_writes(addr: u8, data_len: usize) -> (plan: Vec<PageWrite>)
    ensures
        writes_view(plan@) == page_writes(addr as int, clipped_len(addr, data_len as int), 0),
{
    let write_len = transfer_len(addr, data_len);
    let mut plan: Vec<PageWrite> = Vec::new();
    let mut written: usize = 0;
    while written < write_len
        invariant
            written <= write_len,
            write_len == clipped_len(addr, data_len as int),
            write_len + addr <= EEPROM_SIZE,
            page_writes(addr as int, write_len as int, 0) == writes_view(plan@) + page_writes(
                addr as int,
                write_len as int,
                written as int,
            ),
        decreases write_len - written,
    {
        let abs_addr = addr as usize + written;
        let page_offset = abs_addr % EEPROM_PAGE_SIZE;
        let page_remaining = EEPROM_PAGE_SIZE - page_offset;
        let rest = write_len - written;
        let chunk = if page_remaining < rest {
            page_remaining
        } else {
            rest
        };
        let ghost before = writes_view(plan@);
        plan.push(PageWrite { addr: abs_addr as u8, start: written, len: chunk });
        assert(writes_view(plan@) =~= before.push((abs_addr as int, written as int, chunk as int)));
        assert(page_writes(addr as int, write_len as int, written as int) =~= seq![
            (abs_addr as int, written as int, chunk as int),
        ] + page_writes(addr as int, write_len as int, written + chunk));
        written = written + chunk;
    }
    assert(page_writes(addr as int, write_len as int, written as int) =~= Seq::<(int, int, int)>::empty());
    assert(writes_view(plan@) =~= writes_view(plan@) + Seq::<(int, int, int)>::empty());
    plan
}

/// The zero-filling writes that follow the data in a partition write: `(address, length)`
/// pairs of at most a page each, covering the `size - len` bytes after the data, addresses
/// wrapping at 256.
pub open spec fn zero_fill_writes(start: int, remaining: int) -> Seq<(int, int)>
    decreases remaining,
{
    if remaining <= 0 {
        Seq::empty()
    } else {
        let chunk = min_nat(remaining, EEPROM_PAGE_SIZE as int);
        seq![(start % 256, chunk)] + zero_fill_writes(start + chunk, remaining - chunk)
    }
}

/// The plain values of a list of zero-filling writes.
pub open spec fn fills_view(w: Seq<(u8, usize)>) -> Seq<(int, int)> {
    w.map_values(|p: (u8, usize)| (p.0 as int, p.1 as int))
}

/// The writes of zeros that complete a partition after `data_len` bytes of
/// data: from the end of the data to the end of the partition.
pub fn plan_zero_fill(part: &Partition, data_len: usize) -> (plan: Vec<(u8, usize)>)
    ensures
        fills_view(plan@) == zero_fill_writes(
            part.offset + min_nat(data_len as int, part.size as int),
            part.size - min_nat(data_len as int, part.size as int),
        ),
{
    let len = part.max_len(data_len);
    let off = part.offset;
    let lo = len as u8;
    assert(lo == len % 256) by (bit_vector)
        requires
            lo == len as u8,
    ;
    let mut addr = off.wrapping_add(lo);
    let mut remaining = part.size as usize - len;
    let mut plan: Vec<(u8, usize)> = Vec::new();
    let ghost start = part.offset + len;
    let ghost mut pos: int = start;
    assert(addr == start % 256);
    while remaining > 0
        invariant
            addr == pos % 256,
            pos >= 0,
            zero_fill_writes(start, part.size - len) == fills_view(plan@) + zero_fill_writes(
                pos,
                remaining as int,
            ),
        decreases remaining,
    {
        let chunk = if remaining < EEPROM_PAGE_SIZE {
            remaining
        } else {
            EEPROM_PAGE_SIZE
        };
        let ghost before = fills_view(plan@);
        plan.push((addr, chunk));
        assert(fills_view(plan@) =~= before.push((addr as int, chunk as int)));
        assert(zero_fill_writes(pos, remaining as int) =~= seq![(pos % 256, chunk as int)]
            + zero_fill_writes(pos + chunk, remaining - chunk));
        assert(chunk < 256);
        addr = addr.wrapping_add(chunk as u8);
        proof {
            pos = pos + chunk;
        }
        remaining = remaining - chunk;
    }
    assert(fills_view(plan@) =~= fills_view(plan@) + Seq::<(int, int)>::empty());
    plan
}

/// The page writes for bytes `w..total` at `addr + w` tile that range: they
/// are consecutive, the first starts at `w` and the last ends at `total`,
/// each carries 1 to 8 bytes to the address of its first byte, stays within
/// one page, and all but the first start on a page boundary.
pub proof fn lemma_page_writes_tile(addr: int, total: int, w: int)
    requires
        0 <= addr,
        0 <= w <= total,
    ensures
        ({
            let p = page_writes(addr, total, w);
            &&& (p.len() == 0 <==> w == total)
            &&& p.len() > 0 ==> p[0].1 == w && p.last().1 + p.last().2 == total
            &&& forall|i: int|
                0 <= i < p.len() ==> {
                    &&& 1 <= #[trigger] p[i].2 <= EEPROM_PAGE_SIZE
                    &&& p[i].0 == addr + p[i].1
                    &&& p[i].0 / 8 == (p[i].0 + p[i].2 - 1) / 8
                    &&& w <= p[i].1
                    &&& p[i].1 + p[i].2 <= total
                }
            &&& forall|i: int| 0 <= i < p.len() - 1 ==> #[trigger] p[i].1 + p[i].2 == p[i + 1].1
            &&& forall|i: int| 0 < i < p.len() ==> #[trigger] p[i].0 % 8 == 0
        }),
    decreases total - w,
{
    if w < total {
        let chunk = min_nat(8 - (addr + w) % 8, total - w);
        lemma_page_writes_tile(addr, total, w + chunk);
        let rest = page_writes(addr, total, w + chunk);
        let p = page_writes(addr, total, w);
        assert(p =~= seq![(addr + w, w, chunk)] + rest);
        assert((addr + w) / 8 == (addr + w + chunk - 1) / 8);
        assert forall|i: int| 0 < i < p.len() implies #[trigger] p[i].0 % 8 == 0 by {
            if i == 1 {
                if chunk == 8 - (addr + w) % 8 {
                    assert((addr + w + chunk) % 8 == 0);
                }
            } else {
                assert(p[i] == rest[i - 1]);
            }
        }
        assert forall|i: int| 0 <= i < p.len() - 1 implies #[trigger] p[i].1 + p[i].2 == p[i + 1].1 by {
            if i > 0 {
                assert(p[i] == rest[i - 1]);
                assert(p[i + 1] == rest[i]);
            }
        }
        assert forall|i: int| 0 <= i < p.len() implies {
            &&& 1 <= #[trigger] p[i].2 <= EEPROM_PAGE_SIZE
            &&& p[i].0 == addr + p[i].1
            &&& p[i].0 / 8 == (p[i].0 + p[i].2 - 1) / 8
            &&& w <= p[i].1
            &&& p[i].1 + p[i].2 <= total
        } by {
            if i > 0 {
                assert(p[i] == rest[i - 1]);
            }
        }
    }
}

/// A write of `data_len` bytes at `addr` becomes page writes that carry
/// exactly the bytes below the end of the device, in order, each within one
/// page and sent to the address of its first byte.
pub proof fn lemma_write_plan_covers(addr: u8, data_len: nat)
    ensures
        ({
            let total = clipped_len(addr, data_len as int);
            let p = page_writes(addr as int, total, 0);
            &&& total == min_nat(data_len as int, 256 - addr)
            &&& (p.len() == 0 <==> total == 0)
            &&& p.len() > 0 ==> p[0].1 == 0 && p.last().1 + p.last().2 == total
            &&& forall|i: int| 0 <= i < p.len() - 1 ==> #[trigger] p[i].1 + p[i].2 == p[i + 1].1
            &&& forall|i: int|
                0 <= i < p.len() ==> {
                    &&& 1 <= #[trigger] p[i].2 <= EEPROM_PAGE_SIZE
                    &&& p[i].0 == addr + p[i].1
                    &&& p[i].0 / 8 == (p[i].0 + p[i].2 - 1) / 8
                    &&& p[i].0 + p[i].2 <= EEPROM_SIZE
                }
        }),
{
    lemma_page_writes_tile(addr as int, clipped_len(addr, data_len as int), 0);
}

/// The length of `bytes` without its trailing run of erased (0xFF) and
/// zero bytes: what is left to show of a buffer read back from the device.
pub open spec fn trimmed_len_spec(bytes: Seq<u8>, end: int) -> int
    decreases end,
{
    if end <= 0 {
        0
    } else if bytes[end - 1] == 0xFF || bytes[end - 1] == 0x00 {
        trimmed_len_spec(bytes, end - 1)
    } else {
        end
    }
}

/// The length of `bytes` without its trailing erased and zero bytes.
pub fn trimmed_len(bytes: &[u8]) -> (n: usize)
    ensures
        n == trimmed_len_spec(bytes@, bytes@.len() as int),
        n <= bytes.len(),
{
    let mut end = bytes.len();
    while end > 0 && (bytes[end - 1] == 0xFF || bytes[end - 1] == 0x00)
        invariant
            end <= bytes.len(),
            trimmed_len_spec(bytes@, bytes@.len() as int) == trimmed_len_spec(bytes@, end as int),
        decreases end,
    {
        end = end - 1;
    }
    end
}

/// How many leading bytes of `bytes` form valid UTF-8, as
/// `core::str::from_utf8` judges them.
pub uninterp spec fn utf8_valid_prefix(bytes: Seq<u8>) -> nat;

/// Calls `core::str::from_utf8`: all of `bytes` when they are valid UTF-8,
/// else the error's `valid_up_to()`, which its documentation gives as the
/// largest `n` for which `bytes[..n]` is valid, so at most the length.
/// Which prefixes are valid UTF-8 is left to the named result.
#[verifier::external_body]
fn utf8_valid_len(bytes: &[u8]) -> (n: usize)
    ensures
        n == utf8_valid_prefix(bytes@),
        n <= bytes.len(),
{
    match core::str::from_utf8(bytes) {
        Ok(_) => bytes.len(),
        Err(e) => e.valid_up_to(),
    }
}

/// The length of the text in a buffer read back from the device: the
/// bytes before its trailing erased and zero bytes, cut before the first
/// byte that does not continue valid UTF-8.
pub fn safe_text_len(bytes: &[u8]) -> (n: usize)
    ensures
        n == utf8_valid_prefix(bytes@.take(trimmed_len_spec(bytes@, bytes@.len() as int))),
        n <= trimmed_len_spec(bytes@, bytes@.len() as int),
{
    let end = trimmed_len(bytes);
    let head = vstd::slice::slice_subrange(bytes, 0, end);
    assert(head@ =~= bytes@.take(end as int));
    utf8_valid_len(head)
}

/// Whether, reading `n` bytes, the byte at index `i` is acknowledged (all
/// but the last, which is answered with a NACK to end the read).
pub fn ack_after(i: usize, n: usize) -> (ack: bool)
    requires
        n > 0,
    ensures
        ack == (i + 1 < n),
{
    i < n - 1
}

/// The total length of a list of zero-filling writes.
pub open spec fn fill_total(w: Seq<(int, int)>) -> int
    decreases w.len(),
{
    if w.len() == 0 {
        0
    } else {
        w[0].1 + fill_total(w.drop_first())
    }
}

/// The zero-filling writes cover exactly the `remaining` bytes from
/// `start`: consecutive (modulo 256), each of 1 to 8 bytes.
pub proof fn lemma_zero_fill_covers(start: int, remaining: int)
    requires
        0 <= start,
        0 <= remaining,
    ensures
        fill_total(zero_fill_writes(start, remaining)) == remaining,
        forall|i: int|
            0 <= i < zero_fill_writes(start, remaining).len() ==> {
                &&& 1 <= #[trigger] zero_fill_writes(start, remaining)[i].1 <= EEPROM_PAGE_SIZE
                &&& zero_fill_writes(start, remaining)[i].0 == (start + 8 * i) % 256
            },
    decreases remaining,
{
    if remaining > 0 {
        let chunk = min_nat(remaining, 8);
        lemma_zero_fill_covers(start + chunk, remaining - chunk);
        let w = zero_fill_writes(start, remaining);
        let rest = zero_fill_writes(start + chunk, remaining - chunk);
        assert(w =~= seq![(start % 256, chunk)] + rest);
        assert(w.drop_first() =~= rest);
        assert forall|i: int| 0 <= i < w.len() implies {
            &&& 1 <= #[trigger] w[i].1 <= EEPROM_PAGE_SIZE
            &&& w[i].0 == (start + 8 * i) % 256
        } by {
            if i > 0 {
                assert(w[i] == rest[i - 1]);
                if rest.len() > 0 {
                    assert(chunk == 8);
                }
                assert(start + chunk + 8 * (i - 1) == start + 8 * i);
            }
        }
    }
}

} // verus!
