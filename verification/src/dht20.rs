//! DHT20 humidity and temperature sensor: its commands, the check of the
//! status byte and of the CRC-8, and the conversion of a raw measurement.
use vstd::prelude::*;

verus! {

/// The sensor's 7-bit I2C address.
pub const ADDR: u8 = 0x38;

/// Command that reads the status byte.
pub const STATUS_CMD: u8 = 0x71;

/// Bit of the status byte that is set while the sensor is busy (and, right
/// after power-up, while it still needs its calibration writes).
pub const STATUS_BUSY: u8 = 0x80;

/// Command that starts a measurement.
pub const MEASURE_CMD: [u8; 3] = [0xAC, 0x33, 0x00];

/// Calibration write sent during initialisation when the status asks for it.
pub const CALIBRATE_CMD: [u8; 4] = [0x1B, 0x1C, 0x0E, 0x09];

/// Number of calibration writes, each followed by a pause.
pub const CALIBRATE_WRITES: u32 = 3;

/// Pause before the status is read during initialisation.
pub const POWER_UP_MS: u32 = 100;

/// Pause after each calibration write.
pub const CALIBRATE_PAUSE_MS: u32 = 10;

/// Pause between starting a measurement and reading it.
pub const MEASURE_MS: u32 = 80;

/// Why a reading failed.
#[derive(Debug, Clone, Copy, PartialEq, Eq)]
pub enum Error {
    /// A bus transfer failed.
    I2c,
    /// The CRC byte does not match the first six bytes.
    Crc,
    /// The sensor was still busy measuring.
    NotReady,
}

/// The sensor on its I2C bus.
pub struct Dht20<I2C> {
    i2c: I2C,
}

/// One step of the calibration that the sensor may ask for at power-up.
#[derive(Debug, Clone, Copy, PartialEq, Eq)]
pub enum Dht20Step {
    /// Send the calibration command.
    Calibrate,
    /// Wait this many milliseconds.
    Wait(u32),
}

/// The calibration steps after the status byte `status`: when the sensor
/// asks for calibration, the command three times, each followed by a
/// pause; nothing otherwise.
pub open spec fn calibration_steps_spec(status: u8) -> Seq<Dht20Step> {
    if status & 0x80 != 0 {
        Seq::new(
            2 * CALIBRATE_WRITES as nat,
            |j: int| if j % 2 == 0 {
                Dht20Step::Calibrate
            } else {
                Dht20Step::Wait(CALIBRATE_PAUSE_MS)
            },
        )
    } else {
        Seq::empty()
    }
}

/// The calibration steps after the status byte read at power-up.
pub fn calibration_steps(status: u8) -> (s: Vec<Dht20Step>)
    ensures
        s@ == calibration_steps_spec(status),
{
    let mut s: Vec<Dht20Step> = Vec::new();
    if status & STATUS_BUSY != 0 {
        let mut i: u32 = 0;
        while i < CALIBRATE_WRITES
            invariant
                i <= CALIBRATE_WRITES,
                s@ =~= Seq::new(
                    2 * i as nat,
                    |j: int| if j % 2 == 0 {
                        Dht20Step::Calibrate
                    } else {
                        Dht20Step::Wait(CALIBRATE_PAUSE_MS)
                    },
                ),
            decreases CALIBRATE_WRITES - i,
        {
            s.push(Dht20Step::Calibrate);
            s.push(Dht20Step::Wait(CALIBRATE_PAUSE_MS));
            i = i + 1;
        }
    }
    s
}

/// One bit step of the CRC-8 with polynomial 0x31, most significant bit
/// first.
pub open spec fn crc8_shift(c: u8) -> u8 {
    if c & 0x80 != 0 {
        ((c << 1u8) ^ 0x31u8) as u8
    } else {
        (c << 1u8) as u8
    }
}

/// `n` bit steps.
pub open spec fn crc8_shifts(c: u8, n: nat) -> u8
    decreases n,
{
    if n == 0 {
        c
    } else {
        crc8_shifts(crc8_shift(c), (n - 1) as nat)
    }
}

/// The CRC-8 register after taking in `data`, starting from `init`.
pub open spec fn crc8_from(init: u8, data: Seq<u8>) -> u8
    decreases data.len(),
{
    if data.len() == 0 {
        init
    } else {
        crc8_shifts(crc8_from(init, data.drop_last()) ^ data.last(), 8)
    }
}

/// CRC-8 as the DHT20 computes it: polynomial 0x31, initial value 0xFF,
/// no reflection, no final xor.
pub open spec fn crc8_spec(data: Seq<u8>) -> u8 {
    crc8_from(0xFF, data)
}

/// The relative humidity in tenths of a percent carried by a measurement.
pub open spec fn humidity_x10(b: Seq<u8>) -> int {
    let raw = b[1] * 4096 + b[2] * 16 + b[3] / 16;
    raw * 1000 / 1048576
}

/// The temperature in tenths of a degree Celsius carried by a measurement,
/// negative values shown as zero.
pub open spec fn temperature_x10(b: Seq<u8>) -> int {
    let raw = (b[3] % 16) * 65536 + b[4] * 256 + b[5];
    let t = raw * 2000 / 1048576 - 500;
    if t < 0 {
        0
    } else {
        t
    }
}

/// The result of a seven-byte measurement: busy, CRC mismatch, or
/// `(humidity, temperature)` in tenths.
pub open spec fn measurement_result(b: Seq<u8>) -> Result<(u16, u16), Error> {
    if b[0] & 0x80 != 0 {
        Err(Error::NotReady)
    } else if crc8_spec(b.take(6)) != b[6] {
        Err(Error::Crc)
    } else {
        Ok((humidity_x10(b) as u16, temperature_x10(b) as u16))
    }
}

impl<I2C> Dht20<I2C> {
    /// The bus the sensor is on.
    pub closed spec fn bus(&self) -> I2C {
        self.i2c
    }

    /// The sensor on `i2c`.
    pub fn new(i2c: I2C) -> (d: Self)
        ensures
            d.bus() == i2c,
    {
        Dht20 { i2c }
    }

    /// The bus, for the code that performs the transfers.
    pub fn i2c_mut(&mut self) -> (r: &mut I2C)
        ensures
            *r == old(self).bus(),
            final(self).bus() == *final(r),
    {
        &mut self.i2c
    }

    /// CRC-8 (polynomial 0x31, initial value 0xFF) of `data`.
    pub fn crc8(data: &[u8]) -> (crc: u8)
        ensures
            crc == crc8_spec(data@),
    {
        let mut crc: u8 = 0xFF;
        let mut i: usize = 0;
        while i < data.len()
            invariant
                i <= data.len(),
                crc == crc8_from(0xFF, data@.take(i as int)),
            decreases data.len() - i,
        {
            let byte = data[i];
            crc = crc ^ byte;
            let ghost start = crc;
            let mut k: u32 = 0;
            while k < 8
                invariant
                    k <= 8,
                    crc8_shifts(start, 8) == crc8_shifts(crc, (8 - k) as nat),
                decreases 8 - k,
            {
                let ghost before = crc;
                if crc & 0x80 != 0 {
                    crc = (crc << 1) ^ 0x31;
                } else {
                    crc = crc << 1;
                }
                assert(crc == crc8_shift(before));
                k = k + 1;
            }
            assert(data@.take(i + 1).drop_last() =~= data@.take(i as int));
            i = i + 1;
        }
        assert(data@.take(data.len() as int) =~= data@);
        crc
    }

    /// Whether the status byte read at initialisation asks for the
    /// calibration writes.
    pub fn needs_calibration(status: u8) -> (r: bool)
        ensures
            r == (status & 0x80 != 0),
    {
        status & STATUS_BUSY != 0
    }

    /// Checks a seven-byte measurement (status, five data bytes, CRC) and
    /// converts it to `(humidity, temperature)` in tenths of a percent and
    /// of a degree Celsius.
    pub fn parse_measurement(buf: &[u8; 7]) -> (r: Result<(u16, u16), Error>)
        ensures
            r == measurement_result(buf@),
    {
        if buf[0] & 0x80 != 0 {
            return Err(Error::NotReady);
        }
        let head: [u8; 6] = [buf[0], buf[1], buf[2], buf[3], buf[4], buf[5]];
        assert(head@ =~= buf@.take(6));
        let crc = Self::crc8(&head);
        if crc != buf[6] {
            return Err(Error::Crc);
        }
        let b1 = buf[1] as u32;
        let b2 = buf[2] as u32;
        let b3 = buf[3] as u32;
        let b4 = buf[4] as u32;
        let b5 = buf[5] as u32;
        let raw_h = (b1 << 12) | (b2 << 4) | (b3 >> 4);
        assert(raw_h == b1 * 4096 + b2 * 16 + b3 / 16) by (bit_vector)
            requires
                b1 < 256,
                b2 < 256,
                b3 < 256,
                raw_h == (b1 << 12) | (b2 << 4) | (b3 >> 4),
        ;
        let humidity = (raw_h * 1000 / 1048576) as u16;
        let b3r = buf[3];
        let raw_t = ((b3r & 0x0F) as u32) << 16 | (b4 << 8) | b5;
        let b3l = b3r & 0x0F;
        assert(b3l == b3r % 16) by (bit_vector)
            requires
                b3l == b3r & 0x0F,
        ;
        assert(raw_t == (b3l as u32) * 65536 + b4 * 256 + b5) by (bit_vector)
            requires
                b3l < 16,
                b4 < 256,
                b5 < 256,
                raw_t == ((b3l as u32) << 16) | (b4 << 8) | b5,
        ;
        let temp_i = (raw_t * 2000 / 1048576) as i32 - 500;
        let temperature = if temp_i < 0 {
            0u16
        } else {
            temp_i as u16
        };
        Ok((humidity, temperature))
    }
}

/// Shifting a zero register leaves it zero.
proof fn lemma_crc8_shifts_zero(n: nat)
    ensures
        crc8_shifts(0, n) == 0,
    decreases n,
{
    if n > 0 {
        assert(crc8_shift(0) == 0) by (bit_vector);
        lemma_crc8_shifts_zero((n - 1) as nat);
    }
}

/// A message followed by its CRC-8 checks clean: the CRC of the whole is
/// zero.
pub proof fn lemma_crc8_appended(data: Seq<u8>)
    ensures
        crc8_spec(data.push(crc8_spec(data))) == 0,
{
    let d = data.push(crc8_spec(data));
    assert(d.drop_last() =~= data);
    let c = crc8_spec(data);
    assert(c ^ c == 0) by (bit_vector);
    lemma_crc8_shifts_zero(8);
}

/// Every reading lies within what the sensor's format can carry: humidity
/// at most 99.9 %, temperature at most 149.9 degrees.
pub proof fn lemma_measurement_ranges(b: Seq<u8>)
    requires
        b.len() == 7,
    ensures
        measurement_result(b) is Ok ==> {
            &&& measurement_result(b)->Ok_0.0 <= 999
            &&& measurement_result(b)->Ok_0.1 <= 1499
        },
{
    let raw_h = b[1] * 4096 + b[2] * 16 + b[3] / 16;
    let raw_t = (b[3] % 16) * 65536 + b[4] * 256 + b[5];
    assert(0 <= raw_h < 1048576);
    assert(0 <= raw_t < 1048576);
    assert(0 <= raw_h * 1000 / 1048576 <= 999) by (nonlinear_arith)
        requires
            0 <= raw_h < 1048576,
    ;
    assert(raw_t * 2000 / 1048576 <= 1999) by (nonlinear_arith)
        requires
            0 <= raw_t < 1048576,
    ;
}

/// A bit step of the CRC is linear: stepping the xor of two registers is
/// the xor of their steps.
proof fn lemma_crc8_shift_xor(a: u8, b: u8)
    ensures
        crc8_shift(a ^ b) == crc8_shift(a) ^ crc8_shift(b),
{
    assert(crc8_shift(a ^ b) == crc8_shift(a) ^ crc8_shift(b)) by (bit_vector);
}

/// `n` bit steps are linear.
proof fn lemma_crc8_shifts_xor(a: u8, b: u8, n: nat)
    ensures
        crc8_shifts(a ^ b, n) == crc8_shifts(a, n) ^ crc8_shifts(b, n),
    decreases n,
{
    if n > 0 {
        lemma_crc8_shift_xor(a, b);
        lemma_crc8_shifts_xor(crc8_shift(a), crc8_shift(b), (n - 1) as nat);
    }
}

/// A non-zero register stays non-zero under bit steps.
proof fn lemma_crc8_shifts_nonzero(c: u8, n: nat)
    requires
        c != 0,
    ensures
        crc8_shifts(c, n) != 0,
    decreases n,
{
    if n > 0 {
        assert(c != 0 ==> crc8_shift(c) != 0) by (bit_vector);
        lemma_crc8_shifts_nonzero(crc8_shift(c), (n - 1) as nat);
    }
}

/// `a` steps then `b` steps are `a + b` steps.
proof fn lemma_crc8_shifts_add(c: u8, a: nat, b: nat)
    ensures
        crc8_shifts(c, a + b) == crc8_shifts(crc8_shifts(c, a), b),
    decreases a,
{
    if a > 0 {
        lemma_crc8_shifts_add(crc8_shift(c), (a - 1) as nat, b);
        assert((a - 1) as nat + b == (a + b - 1) as nat);
    }
}

/// Two messages that differ by `e` in byte `i` only: after the first `m`
/// bytes, the CRC registers differ by `e` stepped once per bit since
/// byte `i`.
proof fn lemma_crc8_flip_prefix(d: Seq<u8>, i: int, e: u8, m: int)
    requires
        0 <= i < m <= d.len(),
    ensures
        crc8_from(0xFF, d.take(m)) ^ crc8_from(0xFF, d.update(i, d[i] ^ e).take(m)) == crc8_shifts(
            e,
            (8 * (m - i)) as nat,
        ),
    decreases m,
{
    let d2 = d.update(i, d[i] ^ e);
    assert(d.take(m).drop_last() =~= d.take(m - 1));
    assert(d2.take(m).drop_last() =~= d2.take(m - 1));
    let x = crc8_from(0xFF, d.take(m - 1));
    let y = crc8_from(0xFF, d2.take(m - 1));
    if m == i + 1 {
        assert(d.take(i) =~= d2.take(i));
        let b = d[i];
        assert((x ^ b) ^ (x ^ (b ^ e)) == e) by (bit_vector);
        lemma_crc8_shifts_xor(x ^ b, x ^ (b ^ e), 8);
    } else {
        lemma_crc8_flip_prefix(d, i, e, m - 1);
        let b = d[m - 1];
        assert(d2[m - 1] == b);
        assert((x ^ b) ^ (y ^ b) == x ^ y) by (bit_vector);
        lemma_crc8_shifts_xor(x ^ b, y ^ b, 8);
        lemma_crc8_shifts_add(e, (8 * (m - 1 - i)) as nat, 8);
        assert((8 * (m - 1 - i)) as nat + 8 == (8 * (m - i)) as nat);
    }
}

/// The CRC-8 detects every single-bit error: flipping any one bit of a
/// message changes its CRC.
pub proof fn lemma_crc8_detects_bit_flip(d: Seq<u8>, i: int, k: u8)
    requires
        0 <= i < d.len(),
        k < 8,
    ensures
        crc8_spec(d.update(i, d[i] ^ (1u8 << k))) != crc8_spec(d),
{
    let e = 1u8 << k;
    assert(e != 0) by (bit_vector)
        requires
            k < 8,
            e == 1u8 << k,
    ;
    let d2 = d.update(i, d[i] ^ e);
    lemma_crc8_flip_prefix(d, i, e, d.len() as int);
    lemma_crc8_shifts_nonzero(e, (8 * (d.len() - i)) as nat);
    assert(d.take(d.len() as int) =~= d);
    assert(d2.take(d.len() as int) =~= d2);
    let x = crc8_spec(d);
    let y = crc8_spec(d2);
    assert(x ^ y != 0 ==> x != y) by (bit_vector);
}

} // verus!
