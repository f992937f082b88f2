//! The transfers a display driver issues to an ST7789 panel, recorded in
//! order so that the code that owns the SPI bus can play them back.
use vstd::prelude::*;

verus! {

/// One transfer to the panel.
///
/// `Command` drives D/C low and clocks out one command byte; `Data` drives
/// D/C high and clocks out the bytes (consecutive `Data` transfers form one
/// continuous data stream); `Reset` sets the RST line; `DelayMs` waits.
#[derive(Debug, Clone, PartialEq, Eq)]
pub enum Op {
    Command(u8),
    Data(Vec<u8>),
    Reset(bool),
    DelayMs(u32),
}

/// The mathematical value of an [`Op`].
pub enum OpView {
    Command(u8),
    Data(Seq<u8>),
    Reset(bool),
    DelayMs(u32),
}

impl View for Op {
    type V = OpView;

    open spec fn view(&self) -> OpView {
        match self {
            Op::Command(c) => OpView::Command(*c),
            Op::Data(d) => OpView::Data(d@),
            Op::Reset(l) => OpView::Reset(*l),
            Op::DelayMs(ms) => OpView::DelayMs(*ms),
        }
    }
}

/// The views of a sequence of transfers.
pub open spec fn ops_view(ops: Seq<Op>) -> Seq<OpView> {
    ops.map_values(|o: Op| o@)
}

/// A log of transfers, in the order in which the panel must receive them.
pub struct Bus {
    ops: Vec<Op>,
}

impl View for Bus {
    type V = Seq<OpView>;

    closed spec fn view(&self) -> Seq<OpView> {
        ops_view(self.ops@)
    }
}

impl Bus {
    /// An empty log.
    pub fn new() -> (b: Bus)
        ensures
            b@ == Seq::<OpView>::empty(),
    {
        let b = Bus { ops: Vec::new() };
        assert(b@ =~= Seq::<OpView>::empty());
        b
    }

    fn push(&mut self, op: Op)
        ensures
            final(self)@ == old(self)@.push(op@),
    {
        self.ops.push(op);
        assert(ops_view(self.ops@) =~= ops_view(old(self).ops@).push(op@));
    }

    /// Appends a command byte.
    pub fn command(&mut self, c: u8)
        ensures
            final(self)@ == old(self)@.push(OpView::Command(c)),
    {
        self.push(Op::Command(c));
    }

    /// Appends a run of data bytes.
    pub fn data(&mut self, d: Vec<u8>)
        ensures
            final(self)@ == old(self)@.push(OpView::Data(d@)),
    {
        self.push(Op::Data(d));
    }

    /// Appends a change of the reset line.
    pub fn reset(&mut self, level: bool)
        ensures
            final(self)@ == old(self)@.push(OpView::Reset(level)),
    {
        self.push(Op::Reset(level));
    }

    /// Appends a pause of `ms` milliseconds.
    pub fn delay_ms(&mut self, ms: u32)
        ensures
            final(self)@ == old(self)@.push(OpView::DelayMs(ms)),
    {
        self.push(Op::DelayMs(ms));
    }

    /// The transfers logged so far.
    pub fn ops(&self) -> (r: &[Op])
        ensures
            ops_view(r@) == self@,
    {
        self.ops.as_slice()
    }

    /// The number of transfers logged so far.
    pub fn len(&self) -> (n: usize)
        ensures
            n == self@.len(),
    {
        self.ops.len()
    }
}

/// Sends a log that is a series of spans, each opened by a column-address
/// command, so that a failed transfer abandons only the rest of its span.
pub struct SpanSender {
    /// Whether the current span has failed.
    pub skipping: bool,
}

impl SpanSender {
    /// A sender before the first span.
    pub fn new() -> (s: Self)
        ensures
            !s.skipping,
    {
        SpanSender { skipping: false }
    }

    /// Whether to send `op`: the start of a span always, any other transfer
    /// only while its span has not failed.
    pub fn should_send(&mut self, op: &Op) -> (send: bool)
        ensures
            send == (op@ == OpView::Command(0x2A) || !old(self).skipping),
            final(self).skipping == !send,
    {
        let starts = match op {
            Op::Command(c) => *c == 0x2A,
            _ => false,
        };
        if starts {
            self.skipping = false;
        }
        !self.skipping
    }

    /// Records that a transfer of the current span failed.
    pub fn failed(&mut self)
        ensures
            final(self).skipping,
    {
        self.skipping = true;
    }
}

} // verus!
