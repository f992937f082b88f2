//! Decoding of a DHT11 answer: the reader is fed one sample of the data line
//! at a time and says how long to wait before the next sample, or what the
//! answer was.
use vstd::prelude::*;

verus! {

/// How long the host holds the line low to request a reading.
pub const START_LOW_MS: u32 = 20;

/// How long the host then drives the line high before releasing it.
pub const START_HIGH_US: u32 = 30;

/// Samples, one microsecond apart, within which each half of the sensor's
/// response must arrive.
pub const RESPONSE_TIMEOUT_US: u32 = 100;

/// Samples, one microsecond apart, within which each edge of a data bit must
/// arrive.
pub const BIT_TIMEOUT_US: u32 = 70;

/// Delay after the rising edge of a data bit at which the line is sampled:
/// still high for a 1 (about 70 us high), already low for a 0 (about 28 us).
pub const BIT_SAMPLE_DELAY_US: u32 = 40;

/// Highest relative humidity, in %RH, that the sensor measures.
pub const HUMIDITY_MAX: u8 = 99;

/// Highest temperature, in degrees Celsius, that the sensor measures.
pub const TEMPERATURE_MAX: u8 = 50;

/// Number of data bits in an answer: humidity, humidity fraction,
/// temperature, temperature fraction and checksum bytes.
pub const FRAME_BITS: usize = 40;

/// Why a reading failed.
#[derive(Debug, Clone, Copy, PartialEq, Eq)]
pub enum Error {
    /// The sensor did not answer the start signal.
    NoResponse,
    /// A data bit did not arrive in time.
    ReadTimeout,
    /// The checksum byte does not match the low byte of the sum of the four
    /// data bytes.
    Checksum { calc: u8, recv: u8 },
    /// The answer checks but lies outside what the sensor measures
    /// (0 to 99 %RH, 0 to 50 degrees Celsius).
    OutOfRange { humidity: u8, temperature: u8 },
}

/// The DHT11 sensor.
pub struct Dht11;

/// The result of a complete five-byte answer: `(humidity, temperature)`,
/// the integral bytes, when byte 4 is the low byte of the sum of bytes 0..4.
pub open spec fn frame_result(b: Seq<u8>) -> Result<(u8, u8), Error> {
    let calc = ((b[0] + b[1] + b[2] + b[3]) % 256) as u8;
    if calc != b[4] {
        Err(Error::Checksum { calc, recv: b[4] })
    } else {
        Ok((b[0], b[2]))
    }
}

/// The reading of a complete five-byte answer: its `(humidity,
/// temperature)` when the checksum matches and both lie within the sensor's
/// range, the checksum or range error otherwise.
pub open spec fn reading_result(b: Seq<u8>) -> Result<(u8, u8), Error> {
    match frame_result(b) {
        Ok((h, t)) => if h <= HUMIDITY_MAX && t <= TEMPERATURE_MAX {
            Ok((h, t))
        } else {
            Err(Error::OutOfRange { humidity: h, temperature: t })
        },
        Err(e) => Err(e),
    }
}

impl Dht11 {
    /// Checks a complete five-byte answer and the range of its values:
    /// humidity 0 to 99 %RH, temperature 0 to 50 degrees Celsius.
    pub fn check_reading(buf: &[u8; 5]) -> (r: Result<(u8, u8), Error>)
        ensures
            r == reading_result(buf@),
            r matches Ok((h, t)) ==> h <= HUMIDITY_MAX && t <= TEMPERATURE_MAX,
    {
        match Self::check_frame(buf) {
            Ok((h, t)) => if h <= HUMIDITY_MAX && t <= TEMPERATURE_MAX {
                Ok((h, t))
            } else {
                Err(Error::OutOfRange { humidity: h, temperature: t })
            },
            Err(e) => Err(e),
        }
    }

    /// Checks a complete five-byte answer and extracts humidity and
    /// temperature.
    pub fn check_frame(buf: &[u8; 5]) -> (r: Result<(u8, u8), Error>)
        ensures
            r == frame_result(buf@),
    {
        let sum = buf[0] as u32 + buf[1] as u32 + buf[2] as u32 + buf[3] as u32;
        let calc = (sum & 0xFF) as u8;
        assert(calc == sum % 256) by (bit_vector)
            requires
                calc == (sum & 0xFF) as u8,
        ;
        if calc != buf[4] {
            return Err(Error::Checksum { calc, recv: buf[4] });
        }
        Ok((buf[0], buf[2]))
    }
}

/// Where the reader is in the sensor's answer.
#[derive(Debug, Clone, Copy, PartialEq, Eq, Structural)]
pub enum Phase {
    /// Waiting for the sensor to pull the line low (first half of its
    /// response).
    ResponseLow,
    /// Waiting for the sensor to release the line (second half).
    ResponseHigh,
    /// Waiting for the low lead-in of the next data bit.
    BitLow,
    /// Waiting for the rising edge of the data bit.
    BitHigh,
    /// The next sample is the bit's value.
    BitSample,
    /// The answer is complete or has failed.
    Done,
}

/// What the reader asks for next.
#[derive(Debug, Clone, Copy, PartialEq, Eq)]
pub enum Next {
    /// Wait `delay_us` microseconds, then sample the line.
    Sample { delay_us: u32 },
    /// Wait `delay_us` microseconds; the reading is over.
    Finish { delay_us: u32, result: Result<(u8, u8), Error> },
}

/// The state of a reader: phase, samples left before the current wait times
/// out, and the data bits received so far.
pub struct ReaderView {
    pub phase: Phase,
    pub budget: nat,
    pub bits: Seq<bool>,
}

/// The number whose binary digits, most significant first, are `bits`.
pub open spec fn bits_value(bits: Seq<bool>) -> nat
    decreases bits.len(),
{
    if bits.len() == 0 {
        0
    } else {
        2 * bits_value(bits.drop_last()) + if bits.last() {
            1nat
        } else {
            0nat
        }
    }
}

/// Byte `k` of the received bits: the value of bits `8k..8k+8` (of those
/// received so far).
pub open spec fn byte_of(bits: Seq<bool>, k: int) -> nat {
    let lo = if 8 * k < bits.len() {
        8 * k
    } else {
        bits.len() as int
    };
    let hi = if 8 * k + 8 < bits.len() {
        8 * k + 8
    } else {
        bits.len() as int
    };
    bits_value(bits.subrange(lo, hi))
}

/// The five bytes of a complete answer.
pub open spec fn bytes_of(bits: Seq<bool>) -> Seq<u8> {
    Seq::new(5, |k: int| byte_of(bits, k) as u8)
}

/// One sample taken while waiting for the line to reach `target`: on a match
/// move to `phase` with `budget` samples and ask for the next sample after
/// `delay_us`; otherwise spend one sample of the budget, failing with `err`
/// (after the last microsecond of waiting) when it is used up.
pub open spec fn await_level(
    s: ReaderView,
    level: bool,
    target: bool,
    phase: Phase,
    budget: nat,
    delay_us: u32,
    err: Error,
) -> (ReaderView, Next) {
    if level == target {
        (ReaderView { phase, budget, ..s }, Next::Sample { delay_us })
    } else if s.budget <= 1 {
        (
            ReaderView { phase: Phase::Done, budget: 0, ..s },
            Next::Finish { delay_us: 1, result: Err(err) },
        )
    } else {
        (ReaderView { budget: (s.budget - 1) as nat, ..s }, Next::Sample { delay_us: 1 })
    }
}

/// What the reader does with one sample of the line.
pub open spec fn reader_step(s: ReaderView, level: bool) -> (ReaderView, Next) {
    match s.phase {
        Phase::ResponseLow => await_level(
            s,
            level,
            false,
            Phase::ResponseHigh,
            RESPONSE_TIMEOUT_US as nat,
            0,
            Error::NoResponse,
        ),
        Phase::ResponseHigh => await_level(
            s,
            level,
            true,
            Phase::BitLow,
            BIT_TIMEOUT_US as nat,
            0,
            Error::NoResponse,
        ),
        Phase::BitLow => await_level(
            s,
            level,
            false,
            Phase::BitHigh,
            BIT_TIMEOUT_US as nat,
            0,
            Error::ReadTimeout,
        ),
        Phase::BitHigh => await_level(
            s,
            level,
            true,
            Phase::BitSample,
            0,
            BIT_SAMPLE_DELAY_US,
            Error::ReadTimeout,
        ),
        Phase::BitSample => {
            let bits = s.bits.push(level);
            if bits.len() == FRAME_BITS {
                (
                    ReaderView { phase: Phase::Done, budget: 0, bits },
                    Next::Finish { delay_us: 0, result: reading_result(bytes_of(bits)) },
                )
            } else {
                (
                    ReaderView { phase: Phase::BitLow, budget: BIT_TIMEOUT_US as nat, bits },
                    Next::Sample { delay_us: 0 },
                )
            }
        },
        Phase::Done => (s, Next::Sample { delay_us: 0 }),
    }
}

/// A fresh reader: the start signal has been sent and the line released;
/// the first sample is due at once.
pub open spec fn reader_init() -> ReaderView {
    ReaderView { phase: Phase::ResponseLow, budget: RESPONSE_TIMEOUT_US as nat, bits: Seq::empty() }
}

/// The result of feeding `levels` to a reader in state `s`: the result of
/// the first `Finish`, if any.
pub open spec fn outcome(s: ReaderView, levels: Seq<bool>) -> Option<Result<(u8, u8), Error>>
    decreases levels.len(),
{
    if levels.len() == 0 || s.phase == Phase::Done {
        None
    } else {
        let (n, out) = reader_step(s, levels[0]);
        match out {
            Next::Finish { result, .. } => Some(result),
            Next::Sample { .. } => outcome(n, levels.drop_first()),
        }
    }
}

/// Reads one DHT11 answer from samples of the data line.
pub struct Dht11Reader {
    phase: Phase,
    budget: u32,
    bytes: [u8; 5],
    nbits: usize,
    bits: Ghost<Seq<bool>>,
}

impl View for Dht11Reader {
    type V = ReaderView;

    closed spec fn view(&self) -> ReaderView {
        ReaderView { phase: self.phase, budget: self.budget as nat, bits: self.bits@ }
    }
}

impl Dht11Reader {
    #[verifier::type_invariant]
    spec fn inv(self) -> bool {
        &&& self.nbits == self.bits@.len()
        &&& self.nbits <= FRAME_BITS
        &&& self.phase != Phase::Done ==> self.nbits < FRAME_BITS
        &&& self.budget <= RESPONSE_TIMEOUT_US
        &&& forall|k: int| 0 <= k < 5 ==> self.bytes@[k] == #[trigger] byte_of(self.bits@, k)
    }

    /// A reader for an answer that is about to start; sample the line at
    /// once and feed the level to [`Dht11Reader::feed`].
    pub fn new() -> (r: Self)
        ensures
            r@ == reader_init(),
    {
        let r = Dht11Reader {
            phase: Phase::ResponseLow,
            budget: RESPONSE_TIMEOUT_US,
            bytes: [0u8; 5],
            nbits: 0,
            bits: Ghost(Seq::empty()),
        };
        assert forall|k: int| 0 <= k < 5 implies r.bytes@[k] == #[trigger] byte_of(r.bits@, k) by {
            assert(Seq::<bool>::empty().subrange(0, 0) =~= Seq::<bool>::empty());
        }
        r
    }

    /// Whether the reading is over.
    pub fn is_done(&self) -> (d: bool)
        ensures
            d == (self@.phase == Phase::Done),
    {
        match self.phase {
            Phase::Done => true,
            _ => false,
        }
    }

    /// Takes in one sample of the line (`true` = high) and says what to do
    /// next.
    pub fn feed(&mut self, level: bool) -> (next: Next)
        requires
            old(self)@.phase != Phase::Done,
        ensures
            (final(self)@, next) == reader_step(old(self)@, level),
            next matches Next::Finish { result: Ok((h, t)), .. } ==> h <= HUMIDITY_MAX && t
                <= TEMPERATURE_MAX,
    {
        proof {
            use_type_invariant(&*self);
        }
        match self.phase {
            Phase::ResponseLow => self.await_level(
                level,
                false,
                Phase::ResponseHigh,
                RESPONSE_TIMEOUT_US,
                0,
                Error::NoResponse,
            ),
            Phase::ResponseHigh => self.await_level(
                level,
                true,
                Phase::BitLow,
                BIT_TIMEOUT_US,
                0,
                Error::NoResponse,
            ),
            Phase::BitLow => self.await_level(
                level,
                false,
                Phase::BitHigh,
                BIT_TIMEOUT_US,
                0,
                Error::ReadTimeout,
            ),
            Phase::BitHigh => self.await_level(
                level,
                true,
                Phase::BitSample,
                0,
                BIT_SAMPLE_DELAY_US,
                Error::ReadTimeout,
            ),
            Phase::BitSample => self.take_bit(level),
            Phase::Done => Next::Sample { delay_us: 0 },
        }
    }

    fn await_level(
        &mut self,
        level: bool,
        target: bool,
        phase: Phase,
        budget: u32,
        delay_us: u32,
        err: Error,
    ) -> (next: Next)
        requires
            old(self)@.phase != Phase::Done,
            budget <= RESPONSE_TIMEOUT_US,
            phase != Phase::Done,
        ensures
            (final(self)@, next) == await_level(
                old(self)@,
                level,
                target,
                phase,
                budget as nat,
                delay_us,
                err,
            ),
    {
        proof {
            use_type_invariant(&*self);
        }
        if level == target {
            self.phase = phase;
            self.budget = budget;
            Next::Sample { delay_us }
        } else if self.budget <= 1 {
            self.phase = Phase::Done;
            self.budget = 0;
            Next::Finish { delay_us: 1, result: Err(err) }
        } else {
            self.budget = self.budget - 1;
            Next::Sample { delay_us: 1 }
        }
    }

    fn take_bit(&mut self, level: bool) -> (next: Next)
        requires
            old(self)@.phase == Phase::BitSample,
        ensures
            (final(self)@, next) == reader_step(old(self)@, level),
    {
        proof {
            use_type_invariant(&*self);
        }
        let ghost old_bits = self.bits@;
        let ghost new_bits = old_bits.push(level);
        let k = self.nbits / 8;
        let b = self.bytes[k];
        proof {
            lemma_byte_of_push(old_bits, level, k as int);
        }
        let mut nb = b << 1;
        if level {
            nb = nb | 1;
        }
        assert(nb == 2 * b + if level {
            1int
        } else {
            0int
        }) by (bit_vector)
            requires
                b < 128,
                nb == (if level {
                    (b << 1) | 1
                } else {
                    b << 1
                }),
        ;
        let mut bytes = self.bytes;
        bytes[k] = nb;
        let nbits = self.nbits + 1;
        assert forall|j: int| 0 <= j < 5 implies bytes@[j] == #[trigger] byte_of(new_bits, j) by {
            if j != k {
                assert(bytes@[j] == self.bytes@[j]);
            }
        }
        if nbits == FRAME_BITS {
            *self = Dht11Reader {
                phase: Phase::Done,
                budget: 0,
                bytes,
                nbits,
                bits: Ghost(new_bits),
            };
            assert(bytes@ =~= bytes_of(new_bits));
            Next::Finish { delay_us: 0, result: Dht11::check_reading(&bytes) }
        } else {
            *self = Dht11Reader {
                phase: Phase::BitLow,
                budget: BIT_TIMEOUT_US,
                bytes,
                nbits,
                bits: Ghost(new_bits),
            };
            Next::Sample { delay_us: 0 }
        }
    }
}

/// `2^n`.
pub open spec fn pow2(n: nat) -> nat
    decreases n,
{
    if n == 0 {
        1
    } else {
        2 * pow2((n - 1) as nat)
    }
}

/// A number of `n` binary digits is below `2^n`; in particular at most
/// eight bits make a byte.
pub proof fn lemma_bits_value_bound(bits: Seq<bool>)
    ensures
        bits_value(bits) < pow2(bits.len()),
        bits.len() <= 7 ==> bits_value(bits) < 128,
        bits.len() <= 8 ==> bits_value(bits) < 256,
    decreases bits.len(),
{
    if bits.len() > 0 {
        lemma_bits_value_bound(bits.drop_last());
    }
    reveal_with_fuel(pow2, 9);
    if bits.len() <= 8 {
        assert(pow2(bits.len()) <= 256);
    }
    if bits.len() <= 7 {
        assert(pow2(bits.len()) <= 128);
    }
}

/// Appending bit `n` of the answer doubles its byte and adds the bit, and
/// leaves the other bytes as they were.
pub proof fn lemma_byte_of_push(bits: Seq<bool>, level: bool, k: int)
    requires
        bits.len() < FRAME_BITS,
        k == bits.len() / 8,
    ensures
        byte_of(bits, k) < 128,
        byte_of(bits.push(level), k) == 2 * byte_of(bits, k) + if level {
            1nat
        } else {
            0nat
        },
        forall|j: int| 0 <= j < 5 && j != k ==> #[trigger] byte_of(bits.push(level), j) == byte_of(bits, j),
{
    let nb = bits.push(level);
    let n = bits.len() as int;
    assert(nb.subrange(8 * k, n + 1).drop_last() =~= bits.subrange(8 * k, n));
    lemma_bits_value_bound(bits.subrange(8 * k, n));
    assert forall|j: int| 0 <= j < 5 && j != k implies #[trigger] byte_of(nb, j) == byte_of(bits, j) by {
        if j < k {
            assert(nb.subrange(8 * j, 8 * j + 8) =~= bits.subrange(8 * j, 8 * j + 8));
        } else {
            assert(nb.subrange(n + 1, n + 1) =~= bits.subrange(n, n));
        }
    }
}

} // verus!

verus! {

/// Bit `i` of an answer carrying the bytes `b`, most significant bit of
/// each byte first.
pub open spec fn frame_bit(b: Seq<u8>, i: int) -> bool {
    (b[i / 8] >> ((7 - i % 8) as u8)) & 1 == 1
}

/// The first `n` bits of an answer carrying `b`.
pub open spec fn frame_bits(b: Seq<u8>, n: int) -> Seq<bool> {
    Seq::new(n as nat, |i: int| frame_bit(b, i))
}

/// The line levels that a well-behaved sensor presents to the reader's
/// samples when it sends `b`: low and high for its response, then for each
/// bit low, high, and the bit's level at the sampling point.
pub open spec fn ideal_levels(b: Seq<u8>) -> Seq<bool> {
    seq![false, true] + bit_levels(b, 0)
}

/// The levels of bits `i..40` of an ideal answer.
pub open spec fn bit_levels(b: Seq<u8>, i: int) -> Seq<bool> {
    Seq::new(
        (3 * (FRAME_BITS - i)) as nat,
        |j: int|
            if j % 3 == 0 {
                false
            } else if j % 3 == 1 {
                true
            } else {
                frame_bit(b, i + j / 3)
            },
    )
}

/// The state of the reader after the first `i` bits of an ideal answer.
pub open spec fn after_bits(b: Seq<u8>, i: int) -> ReaderView {
    ReaderView { phase: Phase::BitLow, budget: BIT_TIMEOUT_US as nat, bits: frame_bits(b, i) }
}

/// The first `m` bits of `x`, most significant first, have the value
/// `x >> (8 - m)`.
proof fn lemma_msb_bits_value(x: u8, m: int)
    requires
        0 <= m <= 8,
    ensures
        bits_value(Seq::new(m as nat, |j: int| (x >> ((7 - j) as u8)) & 1 == 1)) == (x >> ((8
            - m) as u8)) as nat,
    decreases m,
{
    let s = Seq::new(m as nat, |j: int| (x >> ((7 - j) as u8)) & 1 == 1);
    if m == 0 {
        assert((x >> 8u8) == 0) by (bit_vector);
    } else {
        lemma_msb_bits_value(x, m - 1);
        assert(s.drop_last() =~= Seq::new((m - 1) as nat, |j: int| (x >> ((7 - j) as u8)) & 1 == 1));
        let k = (8 - m) as u8;
        assert(k < 8);
        assert((x >> k) == 2 * (x >> ((k + 1) as u8)) + ((x >> k) & 1)) by (bit_vector)
            requires
                k < 8,
        ;
        assert((x >> k) & 1 == 0 || (x >> k) & 1 == 1) by (bit_vector);
        assert(s.last() == ((x >> ((7 - (m - 1)) as u8)) & 1 == 1));
    }
}

/// The forty bits of an answer carrying `b` decode back to `b`.
proof fn lemma_frame_bytes(b: Seq<u8>)
    requires
        b.len() == 5,
    ensures
        bytes_of(frame_bits(b, FRAME_BITS as int)) == b,
{
    let bits = frame_bits(b, FRAME_BITS as int);
    assert forall|k: int| 0 <= k < 5 implies #[trigger] bytes_of(bits)[k] == b[k] by {
        let sub = bits.subrange(8 * k, 8 * k + 8);
        let x = b[k];
        assert forall|j: int| 0 <= j < 8 implies sub[j] == ((x >> ((7 - j) as u8)) & 1 == 1) by {
            assert((8 * k + j) / 8 == k);
            assert((8 * k + j) % 8 == j);
        }
        assert(sub =~= Seq::new(8, |j: int| (x >> ((7 - j) as u8)) & 1 == 1));
        lemma_msb_bits_value(x, 8);
        assert((x >> 0u8) == x) by (bit_vector);
    }
    assert(bytes_of(bits) =~= b);
}

/// Feeding the three levels of bit `i` (not the last) of an ideal answer
/// moves the reader on to the next bit without finishing.
proof fn lemma_one_bit(b: Seq<u8>, i: int)
    requires
        b.len() == 5,
        0 <= i < FRAME_BITS - 1,
    ensures
        outcome(after_bits(b, i), bit_levels(b, i)) == outcome(after_bits(b, i + 1), bit_levels(b, i + 1)),
{
    let l = bit_levels(b, i);
    let s0 = after_bits(b, i);
    let s1 = reader_step(s0, false).0;
    let s2 = reader_step(s1, true).0;
    let s3 = reader_step(s2, frame_bit(b, i)).0;
    assert(l[0] == false);
    assert(l.drop_first()[0] == true);
    assert(l.drop_first().drop_first()[0] == frame_bit(b, i));
    assert(s3.bits =~= frame_bits(b, i + 1));
    assert(l.drop_first().drop_first().drop_first() =~= bit_levels(b, i + 1));
    assert(s3 == after_bits(b, i + 1));
    assert(outcome(s0, l) == outcome(s1, l.drop_first()));
    assert(outcome(s1, l.drop_first()) == outcome(s2, l.drop_first().drop_first()));
    assert(outcome(s2, l.drop_first().drop_first()) == outcome(
        s3,
        l.drop_first().drop_first().drop_first(),
    ));
}

/// From any bit of an ideal answer on, the reader ends with the answer's
/// result.
proof fn lemma_bits_from(b: Seq<u8>, i: int)
    requires
        b.len() == 5,
        0 <= i < FRAME_BITS,
    ensures
        outcome(after_bits(b, i), bit_levels(b, i)) == Some(reading_result(b)),
    decreases FRAME_BITS - i,
{
    if i < FRAME_BITS - 1 {
        lemma_one_bit(b, i);
        lemma_bits_from(b, i + 1);
    } else {
        let l = bit_levels(b, i);
        let s0 = after_bits(b, i);
        let s1 = reader_step(s0, false).0;
        let s2 = reader_step(s1, true).0;
        assert(l[0] == false);
        assert(l.drop_first()[0] == true);
        assert(l.drop_first().drop_first()[0] == frame_bit(b, i));
        assert(s2.bits.push(frame_bit(b, i)) =~= frame_bits(b, FRAME_BITS as int));
        lemma_frame_bytes(b);
        assert(outcome(s0, l) == outcome(s1, l.drop_first()));
        assert(outcome(s1, l.drop_first()) == outcome(s2, l.drop_first().drop_first()));
    }
}

/// A sensor that answers correctly with the five bytes `b` yields exactly
/// the result of those bytes: `(b[0], b[2])` when the checksum `b[4]`
/// matches and both lie in the sensor's range, the checksum or range error
/// otherwise; and the reader finishes on the
/// last sample of the answer, not before.
pub proof fn lemma_ideal_answer(b: Seq<u8>)
    requires
        b.len() == 5,
    ensures
        outcome(reader_init(), ideal_levels(b)) == Some(reading_result(b)),
        outcome(reader_init(), ideal_levels(b).drop_last()) == None::<Result<(u8, u8), Error>>,
{
    let l = ideal_levels(b);
    assert(l[0] == false);
    assert(l.drop_first()[0] == true);
    assert(l.drop_first().drop_first() =~= bit_levels(b, 0));
    assert(frame_bits(b, 0) =~= Seq::<bool>::empty());
    lemma_bits_from(b, 0);
    let s1 = reader_step(reader_init(), false).0;
    let s2 = reader_step(s1, true).0;
    assert(s2 == after_bits(b, 0));
    assert(outcome(reader_init(), l) == outcome(s1, l.drop_first()));
    assert(outcome(s1, l.drop_first()) == outcome(s2, l.drop_first().drop_first()));
    lemma_ideal_prefix_open(b);
}

/// Feeding all but the last sample of an ideal answer does not finish.
proof fn lemma_ideal_prefix_open(b: Seq<u8>)
    requires
        b.len() == 5,
    ensures
        outcome(reader_init(), ideal_levels(b).drop_last()) == None::<Result<(u8, u8), Error>>,
{
    let l = ideal_levels(b).drop_last();
    assert(l[0] == false);
    assert(l.drop_first()[0] == true);
    assert(l.drop_first().drop_first() =~= bit_levels(b, 0).drop_last());
    assert(frame_bits(b, 0) =~= Seq::<bool>::empty());
    lemma_bits_open_from(b, 0);
    let s1 = reader_step(reader_init(), false).0;
    let s2 = reader_step(s1, true).0;
    assert(s2 == after_bits(b, 0));
    assert(outcome(reader_init(), l) == outcome(s1, l.drop_first()));
    assert(outcome(s1, l.drop_first()) == outcome(s2, l.drop_first().drop_first()));
}

/// From any bit of an ideal answer on, all but the last sample leave the
/// reader unfinished.
proof fn lemma_bits_open_from(b: Seq<u8>, i: int)
    requires
        b.len() == 5,
        0 <= i < FRAME_BITS,
    ensures
        outcome(after_bits(b, i), bit_levels(b, i).drop_last()) == None::<Result<(u8, u8), Error>>,
    decreases FRAME_BITS - i,
{
    let l = bit_levels(b, i).drop_last();
    let s0 = after_bits(b, i);
    let s1 = reader_step(s0, false).0;
    let s2 = reader_step(s1, true).0;
    let s3 = reader_step(s2, frame_bit(b, i)).0;
    assert(l[0] == false);
    assert(l.drop_first()[0] == true);
    if i < FRAME_BITS - 1 {
        assert(l.drop_first().drop_first()[0] == frame_bit(b, i));
        assert(s3.bits =~= frame_bits(b, i + 1));
        assert(s3 == after_bits(b, i + 1));
        assert(l.drop_first().drop_first().drop_first() =~= bit_levels(b, i + 1).drop_last());
        lemma_bits_open_from(b, i + 1);
        assert(outcome(s0, l) == outcome(s1, l.drop_first()));
        assert(outcome(s1, l.drop_first()) == outcome(s2, l.drop_first().drop_first()));
        assert(outcome(s2, l.drop_first().drop_first()) == outcome(
            s3,
            l.drop_first().drop_first().drop_first(),
        ));
    } else {
        assert(l.drop_first().drop_first().len() == 0);
        assert(outcome(s0, l) == outcome(s1, l.drop_first()));
        assert(outcome(s1, l.drop_first()) == outcome(s2, l.drop_first().drop_first()));
    }
}

/// While the line stays high, the reader waiting for the response with `r`
/// samples left gives up after exactly `r` samples.
proof fn lemma_stuck_high(r: nat)
    requires
        1 <= r <= RESPONSE_TIMEOUT_US,
    ensures
        outcome(
            ReaderView { phase: Phase::ResponseLow, budget: r, bits: Seq::empty() },
            Seq::new(r, |i: int| true),
        ) == Some(Err::<(u8, u8), Error>(Error::NoResponse)),
    decreases r,
{
    let s = ReaderView { phase: Phase::ResponseLow, budget: r, bits: Seq::empty() };
    let l = Seq::new(r, |i: int| true);
    if r > 1 {
        assert(l.drop_first() =~= Seq::new((r - 1) as nat, |i: int| true));
        lemma_stuck_high((r - 1) as nat);
    }
}

/// A line that stays high (no sensor, or a sensor that does not answer)
/// ends the reading with `NoResponse` after the whole response timeout.
pub proof fn lemma_no_response()
    ensures
        outcome(reader_init(), Seq::new(RESPONSE_TIMEOUT_US as nat, |i: int| true)) == Some(
            Err::<(u8, u8), Error>(Error::NoResponse),
        ),
{
    lemma_stuck_high(RESPONSE_TIMEOUT_US as nat);
}

/// Samples per data bit at most: the low lead-in, the rising edge and the
/// sample itself.
pub open spec fn bit_samples() -> nat {
    (BIT_TIMEOUT_US + BIT_TIMEOUT_US + 1) as nat
}

/// The largest number of samples a reading can still take from state `s`.
pub open spec fn samples_left(s: ReaderView) -> nat {
    let bits_after = (39 - s.bits.len()) as nat;
    match s.phase {
        Phase::ResponseLow => s.budget + (RESPONSE_TIMEOUT_US as nat) + (FRAME_BITS as nat)
            * bit_samples(),
        Phase::ResponseHigh => s.budget + (FRAME_BITS as nat) * bit_samples(),
        Phase::BitLow => s.budget + (BIT_TIMEOUT_US as nat) + 1 + bits_after * bit_samples(),
        Phase::BitHigh => s.budget + 1 + bits_after * bit_samples(),
        Phase::BitSample => 1 + bits_after * bit_samples(),
        Phase::Done => 0,
    }
}

/// The states a reader passes through: while waiting it has samples left,
/// and while unfinished it has fewer than forty bits.
pub open spec fn reader_wf(s: ReaderView) -> bool {
    &&& s.phase != Phase::Done ==> s.bits.len() < FRAME_BITS
    &&& (s.phase == Phase::ResponseLow || s.phase == Phase::ResponseHigh) ==> 1 <= s.budget
        <= RESPONSE_TIMEOUT_US
    &&& (s.phase == Phase::BitLow || s.phase == Phase::BitHigh) ==> 1 <= s.budget <= BIT_TIMEOUT_US
    &&& s.phase == Phase::ResponseHigh ==> s.bits.len() == 0
    &&& s.phase == Phase::ResponseLow ==> s.bits.len() == 0
}

/// Each sample that does not end the reading leaves a well-formed state
/// with fewer samples left.
proof fn lemma_step_progress(s: ReaderView, level: bool)
    requires
        reader_wf(s),
        s.phase != Phase::Done,
    ensures
        reader_step(s, level).1 is Sample ==> {
            &&& reader_wf(reader_step(s, level).0)
            &&& reader_step(s, level).0.phase != Phase::Done
            &&& samples_left(reader_step(s, level).0) < samples_left(s)
        },
{
    let n = reader_step(s, level).0;
    let k = s.bits.len();
    if s.phase == Phase::BitSample && k + 1 < FRAME_BITS {
        assert((39 - k) as nat * bit_samples() == (39 - (k + 1)) as nat * bit_samples() + bit_samples())
            by (nonlinear_arith)
            requires
                k + 1 < 40,
        ;
    }
    if s.phase == Phase::ResponseHigh {
        assert(FRAME_BITS * bit_samples() == BIT_TIMEOUT_US + 1 + 39 * bit_samples() + BIT_TIMEOUT_US);
    }
}

/// From a well-formed state, enough samples always end the reading.
proof fn lemma_finishes_within(s: ReaderView, levels: Seq<bool>)
    requires
        reader_wf(s),
        s.phase != Phase::Done,
        levels.len() >= samples_left(s),
    ensures
        outcome(s, levels) is Some,
    decreases levels.len(),
{
    lemma_step_progress(s, levels[0]);
    let (n, out) = reader_step(s, levels[0]);
    if out is Sample {
        lemma_finishes_within(n, levels.drop_first());
    }
}

/// A reading ends after at most 5840 samples of the line (two response
/// halves of up to 100 samples, then forty bits of up to 70 + 70 + 1),
/// whatever the line does.
pub proof fn lemma_reading_ends(levels: Seq<bool>)
    requires
        levels.len() >= 5840,
    ensures
        outcome(reader_init(), levels) is Some,
{
    assert(samples_left(reader_init()) == 5840);
    lemma_finishes_within(reader_init(), levels);
}

/// The checksum of a DHT11 answer covers all four data bytes: an answer
/// passes exactly when byte 4 is the low byte of the sum of bytes 0 to 3,
/// and then gives the integral humidity and temperature; otherwise the
/// error carries that low byte and the received checksum.
pub proof fn lemma_checksum_covers_four_bytes(b: Seq<u8>)
    requires
        b.len() == 5,
    ensures
        (frame_result(b) is Ok) <==> b[4] as int == (b[0] as int + b[1] as int + b[2] as int + b[3] as int)
            % 256,
        frame_result(b) is Ok ==> frame_result(b) == Ok::<(u8, u8), Error>((b[0], b[2])),
        frame_result(b) is Err ==> frame_result(b) == Err::<(u8, u8), Error>(
            Error::Checksum {
                calc: ((b[0] as int + b[1] as int + b[2] as int + b[3] as int) % 256) as u8,
                recv: b[4],
            },
        ),
        reading_result(b) is Ok ==> {
            &&& b[4] as int == (b[0] as int + b[1] as int + b[2] as int + b[3] as int) % 256
            &&& reading_result(b) == Ok::<(u8, u8), Error>((b[0], b[2]))
            &&& b[0] <= HUMIDITY_MAX && b[2] <= TEMPERATURE_MAX
        },
{
}

} // verus!
