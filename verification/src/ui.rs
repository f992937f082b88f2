//! Screen and control logic of the demo programs: number formatting, glyph
//! lookup, the redraw decisions of the thermometer screen and the steps of
//! the EEPROM demo.
use vstd::prelude::*;

verus! {

/// The four characters of a value in tenths shown as `dd.d`, values above
/// 99.9 shown as 99.9.
pub open spec fn decimal_text_spec(val_x10: u16) -> Seq<u8> {
    let v = if val_x10 > 999 {
        999
    } else {
        val_x10 as int
    };
    seq![(48 + v / 100) as u8, (48 + (v / 10) % 10) as u8, 46u8, (48 + v % 10) as u8]
}

/// The characters that show `val_x10` tenths as `dd.d`.
pub fn decimal_text(val_x10: u16) -> (t: [u8; 4])
    ensures
        t@ == decimal_text_spec(val_x10),
{
    let v = if val_x10 > 999 {
        999
    } else {
        val_x10
    };
    let int_part = v / 10;
    let dec_part = v % 10;
    let t = [
        48u8 + (int_part / 10) as u8,
        48u8 + (int_part % 10) as u8,
        46u8,
        48u8 + dec_part as u8,
    ];
    assert(t@ =~= decimal_text_spec(val_x10));
    t
}

/// Index of the glyph of character `code` in a font of the printable ASCII
/// characters 32..=126, or `None` for characters the font lacks.
pub fn ascii_glyph_index(code: u32) -> (i: Option<usize>)
    ensures
        i == (if 32 <= code <= 126 {
            Some((code - 32) as usize)
        } else {
            None
        }),
{
    if code < 32 || code > 126 {
        None
    } else {
        Some((code - 32) as usize)
    }
}

/// The digits that show a frame rate: as many as it has, at most three
/// (the last three digits of a larger count).
pub open spec fn fps_text_spec(fps: u32) -> Seq<u8> {
    if fps >= 100 {
        seq![(48 + (fps / 100) % 10) as u8, (48 + (fps / 10) % 10) as u8, (48 + fps % 10) as u8]
    } else if fps >= 10 {
        seq![(48 + fps / 10) as u8, (48 + fps % 10) as u8]
    } else {
        seq![(48 + fps) as u8]
    }
}

/// The digits that show a frame rate.
pub fn fps_text(fps: u32) -> (t: Vec<u8>)
    ensures
        t@ == fps_text_spec(fps),
{
    let digits: usize = if fps >= 100 {
        3
    } else if fps >= 10 {
        2
    } else {
        1
    };
    let mut val = fps;
    let mut buf = [0u8; 3];
    let mut i: usize = digits;
    while i > 0
        invariant
            i <= digits,
            1 <= digits <= 3,
            digits == (if fps >= 100 {
                3usize
            } else if fps >= 10 {
                2usize
            } else {
                1usize
            }),
            i == 3 ==> val == fps,
            i == 2 ==> val == (if digits == 3 {
                fps / 10
            } else {
                fps
            }),
            i == 1 ==> val == (if digits == 3 {
                fps / 100
            } else if digits == 2 {
                fps / 10
            } else {
                fps
            }),
            i == 0 ==> true,
            digits == 3 && i <= 2 ==> buf@[2] == fps % 10,
            digits == 3 && i <= 1 ==> buf@[1] == (fps / 10) % 10,
            digits == 2 && i <= 1 ==> buf@[1] == fps % 10,
            buf@.len() == 3,
            forall|j: int| 0 <= j < 3 ==> buf@[j] < 10,
            i == 0 ==> buf@[0] == (if digits == 3 {
                (fps / 100) % 10
            } else if digits == 2 {
                (fps / 10) % 10
            } else {
                fps % 10
            }),
        decreases i,
    {
        i = i - 1;
        buf[i] = (val % 10) as u8;
        val = val / 10;
    }
    let mut t: Vec<u8> = Vec::new();
    let mut k: usize = 0;
    while k < digits
        invariant
            k <= digits,
            1 <= digits <= 3,
            buf@.len() == 3,
            forall|j: int| 0 <= j < 3 ==> buf@[j] < 10,
            forall|j: int| 0 <= j < k ==> t@[j] == 48 + buf@[j],
            t@.len() == k,
        decreases digits - k,
    {
        t.push(48u8 + buf[k]);
        k = k + 1;
    }
    assert(fps < 100 ==> fps / 10 < 10);
    assert(t@ =~= fps_text_spec(fps));
    t
}

/// What the thermometer screen currently presents.
#[derive(Debug, Clone, Copy, PartialEq, Eq)]
pub enum Ui {
    /// Nothing drawn yet.
    Fresh,
    /// The labels and the last good reading are shown.
    Data { t: u16, h: u16 },
    /// The error message is shown, with the last good reading (zeros if
    /// there never was one).
    Faulted { t: u16, h: u16 },
}

/// One step of redrawing the thermometer screen.
#[derive(Debug, Clone, Copy, PartialEq, Eq)]
pub enum UiAction {
    /// Clear the screen and draw the labels and units.
    DrawLayout,
    /// Show the sensor error message.
    DrawErrMsg,
    /// Remove the sensor error message.
    ClearErrMsg,
    /// Blank the temperature field.
    ClearTemp,
    /// Draw a temperature (tenths of a degree) into its field.
    DrawTemp(u16),
    /// Blank the humidity field.
    ClearHumi,
    /// Draw a humidity (tenths of a percent) into its field.
    DrawHumi(u16),
    /// Log a good reading.
    Log { t: u16, h: u16 },
}

/// The next state of the screen and the redraw steps after a reading
/// (`Some((humidity, temperature))`, or `None` when the sensor failed).
pub open spec fn ui_next_spec(ui: Ui, reading: Option<(u16, u16)>) -> (Ui, Seq<UiAction>) {
    match (ui, reading) {
        (Ui::Fresh, Some((h, t))) => (
            Ui::Data { t, h },
            seq![UiAction::DrawLayout, UiAction::DrawTemp(t), UiAction::DrawHumi(h), UiAction::Log { t, h }],
        ),
        (Ui::Fresh, None) => (Ui::Faulted { t: 0, h: 0 }, seq![UiAction::DrawLayout, UiAction::DrawErrMsg]),
        (Ui::Data { t, h }, Some((nh, nt))) => (
            Ui::Data { t: nt, h: nh },
            (if nt != t {
                seq![UiAction::ClearTemp, UiAction::DrawTemp(nt)]
            } else {
                Seq::empty()
            }) + (if nh != h {
                seq![UiAction::ClearHumi, UiAction::DrawHumi(nh)]
            } else {
                Seq::empty()
            }) + seq![UiAction::Log { t: nt, h: nh }],
        ),
        (Ui::Data { t, h }, None) => (
            Ui::Faulted { t, h },
            seq![
                UiAction::DrawErrMsg,
                UiAction::ClearTemp,
                UiAction::DrawTemp(t),
                UiAction::ClearHumi,
                UiAction::DrawHumi(h),
            ],
        ),
        (Ui::Faulted { .. }, Some((h, t))) => (
            Ui::Data { t, h },
            seq![
                UiAction::ClearErrMsg,
                UiAction::ClearTemp,
                UiAction::DrawTemp(t),
                UiAction::ClearHumi,
                UiAction::DrawHumi(h),
                UiAction::Log { t, h },
            ],
        ),
        (Ui::Faulted { t, h }, None) => (Ui::Faulted { t, h }, Seq::empty()),
    }
}

impl Ui {
    /// The next state of the screen and the redraw steps after a reading.
    pub fn next(self, reading: Option<(u16, u16)>) -> (r: (Ui, Vec<UiAction>))
        ensures
            (r.0, r.1@) == ui_next_spec(self, reading),
    {
        let mut acts: Vec<UiAction> = Vec::new();
        let next = match (self, reading) {
            (Ui::Fresh, Some((h, t))) => {
                acts.push(UiAction::DrawLayout);
                acts.push(UiAction::DrawTemp(t));
                acts.push(UiAction::DrawHumi(h));
                acts.push(UiAction::Log { t, h });
                Ui::Data { t, h }
            },
            (Ui::Fresh, None) => {
                acts.push(UiAction::DrawLayout);
                acts.push(UiAction::DrawErrMsg);
                Ui::Faulted { t: 0, h: 0 }
            },
            (Ui::Data { t, h }, Some((nh, nt))) => {
                if nt != t {
                    acts.push(UiAction::ClearTemp);
                    acts.push(UiAction::DrawTemp(nt));
                }
                if nh != h {
                    acts.push(UiAction::ClearHumi);
                    acts.push(UiAction::DrawHumi(nh));
                }
                acts.push(UiAction::Log { t: nt, h: nh });
                Ui::Data { t: nt, h: nh }
            },
            (Ui::Data { t, h }, None) => {
                acts.push(UiAction::DrawErrMsg);
                acts.push(UiAction::ClearTemp);
                acts.push(UiAction::DrawTemp(t));
                acts.push(UiAction::ClearHumi);
                acts.push(UiAction::DrawHumi(h));
                Ui::Faulted { t, h }
            },
            (Ui::Faulted { .. }, Some((h, t))) => {
                acts.push(UiAction::ClearErrMsg);
                acts.push(UiAction::ClearTemp);
                acts.push(UiAction::DrawTemp(t));
                acts.push(UiAction::ClearHumi);
                acts.push(UiAction::DrawHumi(h));
                acts.push(UiAction::Log { t, h });
                Ui::Data { t, h }
            },
            (Ui::Faulted { t, h }, None) => Ui::Faulted { t, h },
        };
        assert(acts@ =~= ui_next_spec(self, reading).1);
        (next, acts)
    }
}

/// What the value fields and the error line of the thermometer screen
/// show.
pub struct Screen {
    pub temp: Option<u16>,
    pub humi: Option<u16>,
    pub err: bool,
}

/// The screen after one redraw step.
pub open spec fn screen_after(s: Screen, a: UiAction) -> Screen {
    match a {
        UiAction::DrawLayout => Screen { temp: None, humi: None, err: false },
        UiAction::DrawErrMsg => Screen { err: true, ..s },
        UiAction::ClearErrMsg => Screen { err: false, ..s },
        UiAction::ClearTemp => Screen { temp: None, ..s },
        UiAction::DrawTemp(v) => Screen { temp: Some(v), ..s },
        UiAction::ClearHumi => Screen { humi: None, ..s },
        UiAction::DrawHumi(v) => Screen { humi: Some(v), ..s },
        UiAction::Log { .. } => s,
    }
}

/// The screen after a sequence of redraw steps.
pub open spec fn screen_after_all(s: Screen, acts: Seq<UiAction>) -> Screen
    decreases acts.len(),
{
    if acts.len() == 0 {
        s
    } else {
        screen_after_all(screen_after(s, acts[0]), acts.drop_first())
    }
}

/// Whether the screen agrees with the state: with a reading the fields
/// show it and no error; when faulted the error is shown and the fields
/// show the last reading or nothing.
pub open spec fn screen_matches(ui: Ui, s: Screen) -> bool {
    match ui {
        Ui::Fresh => true,
        Ui::Data { t, h } => s.temp == Some(t) && s.humi == Some(h) && !s.err,
        Ui::Faulted { t, h } => s.err && ((s.temp == Some(t) && s.humi == Some(h)) || (s.temp
            is None && s.humi is None)),
    }
}

/// Every redraw keeps the screen in agreement with the state: after a good
/// reading the screen shows exactly that reading and no error, after a
/// failure it shows the error message.
pub proof fn lemma_screen_tracks_state(ui: Ui, s: Screen, reading: Option<(u16, u16)>)
    requires
        screen_matches(ui, s),
    ensures
        screen_matches(ui_next_spec(ui, reading).0, screen_after_all(s, ui_next_spec(ui, reading).1)),
        reading matches Some((h, t)) ==> screen_after_all(s, ui_next_spec(ui, reading).1) == (Screen {
            temp: Some(t),
            humi: Some(h),
            err: false,
        }),
{
    let acts = ui_next_spec(ui, reading).1;
    reveal_with_fuel(screen_after_all, 7);
    match (ui, reading) {
        (Ui::Data { t, h }, Some((nh, nt))) => {
            let a1: Seq<UiAction> = if nt != t {
                seq![UiAction::ClearTemp, UiAction::DrawTemp(nt)]
            } else {
                Seq::empty()
            };
            let a2: Seq<UiAction> = if nh != h {
                seq![UiAction::ClearHumi, UiAction::DrawHumi(nh)]
            } else {
                Seq::empty()
            };
            let a3 = seq![UiAction::Log { t: nt, h: nh }];
            assert(acts == a1 + a2 + a3);
            if nt != t {
                assert(acts.drop_first().drop_first() =~= a2 + a3);
            } else {
                assert(acts =~= a2 + a3);
            }
            if nh != h {
                assert((a2 + a3).drop_first().drop_first() =~= a3);
            } else {
                assert(a2 + a3 =~= a3);
            }
        },
        _ => {},
    }
}

/// The steps of the EEPROM demo.
#[derive(Debug, Clone, Copy, PartialEq, Eq)]
pub enum DemoState {
    Idle,
    Write,
    WriteWait,
    Read,
    Verify,
    Done,
    Error,
}

/// The step after `s` in mode `mode` (1 read and write, 2 write only,
/// 3 read only), `ok` telling whether the step's operation succeeded.
pub open spec fn demo_next_spec(s: DemoState, mode: u8, ok: bool) -> DemoState {
    match s {
        DemoState::Idle => if mode == 1 || mode == 2 {
            DemoState::Write
        } else if mode == 3 {
            DemoState::Read
        } else {
            DemoState::Error
        },
        DemoState::Write => if ok {
            DemoState::WriteWait
        } else {
            DemoState::Error
        },
        DemoState::WriteWait => if !ok {
            DemoState::Error
        } else if mode == 1 {
            DemoState::Read
        } else {
            DemoState::Done
        },
        DemoState::Read => if !ok {
            DemoState::Error
        } else if mode == 2 {
            DemoState::Done
        } else {
            DemoState::Verify
        },
        DemoState::Verify => DemoState::Done,
        DemoState::Done => DemoState::Done,
        DemoState::Error => DemoState::Error,
    }
}

impl DemoState {
    /// The step that follows this one.
    pub fn next(self, mode: u8, ok: bool) -> (n: DemoState)
        ensures
            n == demo_next_spec(self, mode, ok),
    {
        match self {
            DemoState::Idle => match mode {
                1 | 2 => DemoState::Write,
                3 => DemoState::Read,
                _ => DemoState::Error,
            },
            DemoState::Write => if ok {
                DemoState::WriteWait
            } else {
                DemoState::Error
            },
            DemoState::WriteWait => if ok {
                match mode {
                    1 => DemoState::Read,
                    _ => DemoState::Done,
                }
            } else {
                DemoState::Error
            },
            DemoState::Read => if ok {
                match mode {
                    2 => DemoState::Done,
                    _ => DemoState::Verify,
                }
            } else {
                DemoState::Error
            },
            DemoState::Verify => DemoState::Done,
            DemoState::Done => DemoState::Done,
            DemoState::Error => DemoState::Error,
        }
    }
}

/// The state after running the demo from `s` through the outcomes `oks`.
pub open spec fn demo_run(s: DemoState, mode: u8, oks: Seq<bool>) -> DemoState
    decreases oks.len(),
{
    if oks.len() == 0 {
        s
    } else {
        demo_run(demo_next_spec(s, mode, oks[0]), mode, oks.drop_first())
    }
}

/// In read-only mode the demo never writes, in write-only mode it never
/// reads back, whatever the outcomes of its operations.
pub proof fn lemma_demo_respects_mode(mode: u8, oks: Seq<bool>)
    ensures
        mode == 3 ==> {
            let r = demo_run(DemoState::Idle, mode, oks);
            r != DemoState::Write && r != DemoState::WriteWait
        },
        mode == 2 ==> {
            let r = demo_run(DemoState::Idle, mode, oks);
            r != DemoState::Read && r != DemoState::Verify
        },
{
    lemma_demo_run_closed(DemoState::Idle, mode, oks);
}

/// The states that each mode can reach from the start.
pub open spec fn demo_allowed(s: DemoState, mode: u8) -> bool {
    if mode == 3 {
        s != DemoState::Write && s != DemoState::WriteWait
    } else if mode == 2 {
        s != DemoState::Read && s != DemoState::Verify
    } else {
        true
    }
}

proof fn lemma_demo_run_closed(s: DemoState, mode: u8, oks: Seq<bool>)
    requires
        demo_allowed(s, mode),
    ensures
        demo_allowed(demo_run(s, mode, oks), mode),
    decreases oks.len(),
{
    if oks.len() > 0 {
        lemma_demo_run_closed(demo_next_spec(s, mode, oks[0]), mode, oks.drop_first());
    }
}

/// The offsets below `n` at which `a` and `b` differ, in increasing order.
pub open spec fn mismatch_offsets(a: Seq<u8>, b: Seq<u8>, n: int) -> Seq<usize>
    decreases n,
{
    if n <= 0 {
        Seq::empty()
    } else if a[n - 1] != b[n - 1] {
        mismatch_offsets(a, b, n - 1).push((n - 1) as usize)
    } else {
        mismatch_offsets(a, b, n - 1)
    }
}

/// The offsets among the first `n` bytes at which what was read back
/// differs from what was written.
pub fn mismatches(read: &[u8], written: &[u8], n: usize) -> (m: Vec<usize>)
    requires
        n <= read.len(),
        n <= written.len(),
    ensures
        m@ == mismatch_offsets(read@, written@, n as int),
{
    let mut m: Vec<usize> = Vec::new();
    let mut i: usize = 0;
    while i < n
        invariant
            i <= n,
            n <= read.len(),
            n <= written.len(),
            m@ == mismatch_offsets(read@, written@, i as int),
        decreases n - i,
    {
        if read[i] != written[i] {
            m.push(i);
        }
        i = i + 1;
    }
    m
}

/// Core cycles in one second at 72 MHz.
pub const CYCLES_PER_SECOND: u32 = 72_000_000;

/// Frame-rate counter of the spinning-cube demo, driven by the free-running
/// 32-bit cycle counter.
#[derive(Debug, Clone, Copy, PartialEq, Eq)]
pub struct FpsMeter {
    /// Frames since the current second began.
    pub frames: u32,
    /// Cycle count at which the current second began.
    pub last_cycles: u32,
    /// Frames counted in the last full second.
    pub fps: u32,
    /// The rate on the screen (`u32::MAX` before the first is drawn).
    pub shown: u32,
}

/// Cycles from `last` to `now` on a counter that wraps at 2^32.
pub open spec fn cycles_between(last: u32, now: u32) -> int {
    if now >= last {
        now - last
    } else {
        now - last + 0x1_0000_0000
    }
}

/// The counter after one more frame finished at cycle `now`, and the rate
/// to draw, if it differs from the one on the screen.
pub open spec fn fps_after(m: FpsMeter, now: u32) -> (FpsMeter, Option<u32>) {
    let frames = (m.frames + 1) as u32;
    let rolled = cycles_between(m.last_cycles, now) >= CYCLES_PER_SECOND;
    let fps = if rolled {
        frames
    } else {
        m.fps
    };
    let n = FpsMeter {
        frames: if rolled {
            0
        } else {
            frames
        },
        last_cycles: if rolled {
            now
        } else {
            m.last_cycles
        },
        fps,
        shown: fps,
    };
    if fps != m.shown {
        (n, Some(fps))
    } else {
        (n, None)
    }
}

impl FpsMeter {
    /// A counter started at cycle `now`, with nothing drawn yet.
    pub fn new(now: u32) -> (m: Self)
        ensures
            m == (FpsMeter { frames: 0, last_cycles: now, fps: 0, shown: u32::MAX }),
    {
        FpsMeter { frames: 0, last_cycles: now, fps: 0, shown: u32::MAX }
    }

    /// Counts a frame finished at cycle `now`; once a second has passed the
    /// frames of that second become the rate. Returns the rate to draw when
    /// it is not the one on the screen.
    pub fn frame(&mut self, now: u32) -> (draw: Option<u32>)
        requires
            old(self).frames < u32::MAX,
        ensures
            (*final(self), draw) == fps_after(*old(self), now),
    {
        self.frames = self.frames + 1;
        let elapsed = now.wrapping_sub(self.last_cycles);
        assert(elapsed == cycles_between(old(self).last_cycles, now));
        if elapsed >= CYCLES_PER_SECOND {
            self.fps = self.frames;
            self.frames = 0;
            self.last_cycles = now;
        }
        if self.fps != self.shown {
            self.shown = self.fps;
            Some(self.fps)
        } else {
            None
        }
    }
}

/// `n` successful steps.
pub open spec fn all_ok(n: nat) -> Seq<bool> {
    Seq::new(n, |i: int| true)
}

/// The states that a demo without failures passes through in mode `mode`,
/// from the start to the end: read and write (1) writes, waits, reads back
/// and verifies; write only (2) writes and waits; read only (3) reads and
/// verifies.
pub open spec fn success_path(mode: u8) -> Seq<DemoState> {
    if mode == 1 {
        seq![
            DemoState::Idle,
            DemoState::Write,
            DemoState::WriteWait,
            DemoState::Read,
            DemoState::Verify,
            DemoState::Done,
        ]
    } else if mode == 2 {
        seq![DemoState::Idle, DemoState::Write, DemoState::WriteWait, DemoState::Done]
    } else if mode == 3 {
        seq![DemoState::Idle, DemoState::Read, DemoState::Verify, DemoState::Done]
    } else {
        seq![DemoState::Idle, DemoState::Error]
    }
}

proof fn lemma_demo_run_stays(s: DemoState, mode: u8, n: nat)
    requires
        s == DemoState::Done || s == DemoState::Error,
    ensures
        demo_run(s, mode, all_ok(n)) == s,
    decreases n,
{
    if n > 0 {
        assert(all_ok(n).drop_first() =~= all_ok((n - 1) as nat));
        lemma_demo_run_stays(s, mode, (n - 1) as nat);
    }
}

proof fn lemma_demo_run_step(s: DemoState, mode: u8, n: nat)
    requires
        n > 0,
    ensures
        demo_run(s, mode, all_ok(n)) == demo_run(demo_next_spec(s, mode, true), mode, all_ok((n - 1) as nat)),
{
    assert(all_ok(n).drop_first() =~= all_ok((n - 1) as nat));
}

/// A demo in which every operation succeeds walks its mode's path: after
/// `n` steps it is in the `n`-th state of the path, and it stays in the
/// last. In particular, reading and writing, it verifies what it read back
/// after the read.
pub proof fn lemma_demo_success_path(mode: u8, n: nat)
    ensures
        demo_run(DemoState::Idle, mode, all_ok(n)) == success_path(mode)[if n < success_path(
            mode,
        ).len() {
            n as int
        } else {
            success_path(mode).len() - 1
        }],
{
    lemma_demo_path_from(mode, 0, n);
    assert(success_path(mode)[0] == DemoState::Idle);
}

proof fn lemma_demo_path_from(mode: u8, k: nat, n: nat)
    requires
        k < success_path(mode).len(),
        k <= n,
    ensures
        demo_run(success_path(mode)[k as int], mode, all_ok((n - k) as nat)) == success_path(mode)[if n
            < success_path(mode).len() {
            n as int
        } else {
            success_path(mode).len() - 1
        }],
    decreases n - k,
{
    let p = success_path(mode);
    if k == n {
        assert(all_ok(0) =~= Seq::<bool>::empty());
    } else if k + 1 == p.len() {
        lemma_demo_run_stays(p[k as int], mode, (n - k) as nat);
    } else {
        lemma_demo_run_step(p[k as int], mode, (n - k) as nat);
        assert(demo_next_spec(p[k as int], mode, true) == p[k + 1 as int]);
        lemma_demo_path_from(mode, k + 1, n);
        assert((n - (k + 1)) as nat == ((n - k) as nat - 1) as nat);
    }
}

/// After a successful read-back the demo verifies it, unless it only
/// writes; a failed step always ends in the error state.
pub proof fn lemma_demo_read_then_verify(mode: u8, s: DemoState)
    ensures
        mode != 2 ==> demo_next_spec(DemoState::Read, mode, true) == DemoState::Verify,
        mode == 2 ==> demo_next_spec(DemoState::Read, mode, true) == DemoState::Done,
        s == DemoState::Write || s == DemoState::WriteWait || s == DemoState::Read ==> demo_next_spec(
            s,
            mode,
            false,
        ) == DemoState::Error,
{
}

} // verus!
