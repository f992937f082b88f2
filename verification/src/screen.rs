//! Where the demo screens put their glyphs and boxes: each redraw step of
//! the thermometer screen, and the frame rate of the cube demo, as a list of
//! drawing calls that the code owning the panel and the fonts carries out.
use vstd::prelude::*;
use crate::ui::{decimal_text, decimal_text_spec, fps_text, fps_text_spec, UiAction};

verus! {

/// Background colour of the demo screens.
pub const BG: u16 = 0x0000;
/// Label colour.
pub const FG: u16 = 0xFFFF;
/// Temperature colour.
pub const C_TEMP: u16 = 0xFFE0;
/// Humidity colour.
pub const C_HUMI: u16 = 0x07FF;
/// Title colour.
pub const C_TITLE: u16 = 0x07FF;
/// Error message colour.
pub const C_ERR: u16 = 0xF800;

/// Left edge of the labels.
pub const LABEL_X: u16 = 24;
/// Width of a 32x32 glyph.
pub const CN_W: u16 = 32;
/// Width of a 16x32 glyph.
pub const ASC_W: u16 = 16;
/// Height of a value field.
pub const H: u16 = 32;
/// Top of the temperature line.
pub const TEMP_Y: u16 = 40;
/// Top of the humidity line.
pub const HUMI_Y: u16 = 90;
/// Left edge of the value fields.
pub const VAL_X: u16 = 120;
/// Width of a value field.
pub const VAL_W: u16 = 64;

/// One drawing call.
#[derive(Debug, Clone, Copy, PartialEq, Eq)]
pub enum Draw {
    /// Fill the whole screen.
    Clear(u16),
    /// Fill a rectangle.
    Fill { x: u16, y: u16, w: u16, h: u16, color: u16 },
    /// The 16x32 glyph of the printable ASCII character `32 + index` on the
    /// background colour.
    Ascii { x: u16, y: u16, index: usize, color: u16 },
    /// The 32x32 glyph of `ch`, on the background colour, if the font has
    /// it.
    Cjk { x: u16, y: u16, ch: char, color: u16 },
}

/// Whether a byte is a printable ASCII character.
pub open spec fn printable(b: u8) -> bool {
    32 <= b <= 126
}

/// How many bytes of `s` are printable ASCII characters.
pub open spec fn printable_count(s: Seq<u8>) -> nat
    decreases s.len(),
{
    if s.len() == 0 {
        0
    } else {
        printable_count(s.drop_last()) + if printable(s.last()) {
            1nat
        } else {
            0nat
        }
    }
}

/// The glyphs of the printable bytes of `text`, side by side from `x`;
/// other bytes (those of non-ASCII characters among them) are skipped.
pub open spec fn text_draws(x: u16, y: u16, text: Seq<u8>, color: u16) -> Seq<Draw>
    decreases text.len(),
{
    if text.len() == 0 {
        Seq::empty()
    } else {
        let prev = text_draws(x, y, text.drop_last(), color);
        if printable(text.last()) {
            prev.push(
                Draw::Ascii {
                    x: (x + ASC_W * printable_count(text.drop_last())) as u16,
                    y,
                    index: (text.last() - 32) as usize,
                    color,
                },
            )
        } else {
            prev
        }
    }
}

proof fn lemma_printable_count_bound(s: Seq<u8>)
    ensures
        printable_count(s) <= s.len(),
    decreases s.len(),
{
    if s.len() > 0 {
        lemma_printable_count_bound(s.drop_last());
    }
}

/// The glyphs of a text.
pub fn text_glyphs(x: u16, y: u16, text: &[u8], color: u16) -> (d: Vec<Draw>)
    requires
        x + ASC_W * printable_count(text@) <= u16::MAX,
    ensures
        d@ == text_draws(x, y, text@, color),
{
    let mut d: Vec<Draw> = Vec::new();
    let mut cur: u16 = x;
    let mut i: usize = 0;
    while i < text.len()
        invariant
            i <= text.len(),
            x + ASC_W * printable_count(text@) <= u16::MAX,
            cur == x + ASC_W * printable_count(text@.subrange(0, i as int)),
            d@ == text_draws(x, y, text@.subrange(0, i as int), color),
        decreases text.len() - i,
    {
        let b = text[i];
        let ghost pre = text@.subrange(0, i as int);
        let ghost next = text@.subrange(0, i + 1);
        assert(next.drop_last() =~= pre);
        assert(next.last() == b);
        proof {
            lemma_printable_prefix(text@, i + 1);
        }
        if b >= 32 && b <= 126 {
            d.push(Draw::Ascii { x: cur, y, index: (b - 32) as usize, color });
            cur = cur + ASC_W;
        }
        i = i + 1;
    }
    assert(text@.subrange(0, text@.len() as int) =~= text@);
    d
}

/// The printable bytes of a prefix are no more than those of the whole.
proof fn lemma_printable_prefix(s: Seq<u8>, n: int)
    requires
        0 <= n <= s.len(),
    ensures
        printable_count(s.subrange(0, n)) <= printable_count(s),
    decreases s.len() - n,
{
    if n < s.len() {
        lemma_printable_prefix(s, n + 1);
        assert(s.subrange(0, n + 1).drop_last() =~= s.subrange(0, n));
    } else {
        assert(s.subrange(0, n) =~= s);
    }
}

/// The glyph of one printable ASCII character.
pub open spec fn ascii_draw(x: u16, y: u16, c: u8, color: u16) -> Draw {
    Draw::Ascii { x, y, index: (c - 32) as usize, color }
}

/// The four glyphs of a value in tenths shown as `dd.d`.
pub open spec fn decimal_draws(x: u16, y: u16, val_x10: u16, color: u16) -> Seq<Draw> {
    let t = decimal_text_spec(val_x10);
    Seq::new(4, |k: int| ascii_draw((x + ASC_W * k) as u16, y, t[k], color))
}

/// The glyphs of a value in tenths.
fn decimal_glyphs(x: u16, y: u16, val_x10: u16, color: u16) -> (d: Vec<Draw>)
    requires
        x + 3 * ASC_W <= u16::MAX,
    ensures
        d@ == decimal_draws(x, y, val_x10, color),
{
    let t = decimal_text(val_x10);
    let mut d: Vec<Draw> = Vec::new();
    let mut k: usize = 0;
    while k < 4
        invariant
            k <= 4,
            x + 3 * ASC_W <= u16::MAX,
            t@ == decimal_text_spec(val_x10),
            d@ == decimal_draws(x, y, val_x10, color).subrange(0, k as int),
        decreases 4 - k,
    {
        assert(48 <= t@[k as int] <= 57 || t@[k as int] == 46);
        d.push(Draw::Ascii { x: x + ASC_W * (k as u16), y, index: (t[k] - 32) as usize, color });
        assert(d@ =~= decimal_draws(x, y, val_x10, color).subrange(0, k + 1));
        k = k + 1;
    }
    assert(d@ =~= decimal_draws(x, y, val_x10, color));
    d
}

/// The bytes of the screen title.
pub open spec fn title_text() -> Seq<u8> {
    seq![61u8, 61, 32, 68, 72, 84, 50, 48, 32, 61, 61]
}

/// The bytes of the error message.
pub open spec fn error_text() -> Seq<u8> {
    seq![83u8, 101, 110, 115, 111, 114, 32, 69, 114, 114, 111, 114, 33]
}

/// The box that the error message occupies.
pub open spec fn error_box() -> Draw {
    Draw::Fill { x: 24, y: 22, w: 192, h: 16, color: BG }
}

/// The drawing calls of one redraw step of the thermometer screen; logging
/// draws nothing.
pub open spec fn action_draws_spec(a: UiAction) -> Seq<Draw> {
    match a {
        UiAction::DrawLayout => seq![Draw::Clear(BG)] + text_draws(40, 4, title_text(), C_TITLE) + seq![
            Draw::Cjk { x: LABEL_X, y: TEMP_Y, ch: '\u{6E29}', color: FG },
            Draw::Cjk { x: (LABEL_X + CN_W) as u16, y: TEMP_Y, ch: '\u{5EA6}', color: FG },
            ascii_draw((LABEL_X + CN_W * 2) as u16, TEMP_Y, 58, FG),
            Draw::Cjk { x: (VAL_X + VAL_W) as u16, y: TEMP_Y, ch: '\u{2103}', color: C_TEMP },
            Draw::Cjk { x: LABEL_X, y: HUMI_Y, ch: '\u{6E7F}', color: FG },
            Draw::Cjk { x: (LABEL_X + CN_W) as u16, y: HUMI_Y, ch: '\u{5EA6}', color: FG },
            ascii_draw((LABEL_X + CN_W * 2) as u16, HUMI_Y, 58, FG),
            ascii_draw((VAL_X + VAL_W) as u16, HUMI_Y, 37, C_HUMI),
        ],
        UiAction::DrawErrMsg => seq![error_box()] + text_draws(24, 22, error_text(), C_ERR),
        UiAction::ClearErrMsg => seq![error_box()],
        UiAction::ClearTemp => seq![Draw::Fill { x: VAL_X, y: TEMP_Y, w: VAL_W, h: H, color: BG }],
        UiAction::DrawTemp(t) => decimal_draws(VAL_X, TEMP_Y, t, C_TEMP),
        UiAction::ClearHumi => seq![Draw::Fill { x: VAL_X, y: HUMI_Y, w: VAL_W, h: H, color: BG }],
        UiAction::DrawHumi(h) => decimal_draws(VAL_X, HUMI_Y, h, C_HUMI),
        UiAction::Log { .. } => Seq::empty(),
    }
}

/// The drawing calls of one redraw step.
pub fn action_draws(a: UiAction) -> (d: Vec<Draw>)
    ensures
        d@ == action_draws_spec(a),
{
    match a {
        UiAction::DrawLayout => {
            let title: [u8; 11] = [61, 61, 32, 68, 72, 84, 50, 48, 32, 61, 61];
            assert(title@ =~= title_text());
            proof {
                lemma_printable_count_bound(title@);
            }
            let mut d: Vec<Draw> = Vec::new();
            d.push(Draw::Clear(BG));
            let mut t = text_glyphs(40, 4, &title, C_TITLE);
            d.append(&mut t);
            d.push(Draw::Cjk { x: LABEL_X, y: TEMP_Y, ch: '\u{6E29}', color: FG });
            d.push(Draw::Cjk { x: LABEL_X + CN_W, y: TEMP_Y, ch: '\u{5EA6}', color: FG });
            d.push(Draw::Ascii { x: LABEL_X + CN_W * 2, y: TEMP_Y, index: 58 - 32, color: FG });
            d.push(Draw::Cjk { x: VAL_X + VAL_W, y: TEMP_Y, ch: '\u{2103}', color: C_TEMP });
            d.push(Draw::Cjk { x: LABEL_X, y: HUMI_Y, ch: '\u{6E7F}', color: FG });
            d.push(Draw::Cjk { x: LABEL_X + CN_W, y: HUMI_Y, ch: '\u{5EA6}', color: FG });
            d.push(Draw::Ascii { x: LABEL_X + CN_W * 2, y: HUMI_Y, index: 58 - 32, color: FG });
            d.push(Draw::Ascii { x: VAL_X + VAL_W, y: HUMI_Y, index: 37 - 32, color: C_HUMI });
            assert(d@ =~= action_draws_spec(a));
            d
        },
        UiAction::DrawErrMsg => {
            let text: [u8; 13] = [83, 101, 110, 115, 111, 114, 32, 69, 114, 114, 111, 114, 33];
            assert(text@ =~= error_text());
            proof {
                lemma_printable_count_bound(text@);
            }
            let mut d: Vec<Draw> = Vec::new();
            d.push(Draw::Fill { x: 24, y: 22, w: 192, h: 16, color: BG });
            let mut t = text_glyphs(24, 22, &text, C_ERR);
            d.append(&mut t);
            assert(d@ =~= action_draws_spec(a));
            d
        },
        UiAction::ClearErrMsg => {
            let mut d: Vec<Draw> = Vec::new();
            d.push(Draw::Fill { x: 24, y: 22, w: 192, h: 16, color: BG });
            assert(d@ =~= action_draws_spec(a));
            d
        },
        UiAction::ClearTemp => {
            let mut d: Vec<Draw> = Vec::new();
            d.push(Draw::Fill { x: VAL_X, y: TEMP_Y, w: VAL_W, h: H, color: BG });
            assert(d@ =~= action_draws_spec(a));
            d
        },
        UiAction::DrawTemp(t) => decimal_glyphs(VAL_X, TEMP_Y, t, C_TEMP),
        UiAction::ClearHumi => {
            let mut d: Vec<Draw> = Vec::new();
            d.push(Draw::Fill { x: VAL_X, y: HUMI_Y, w: VAL_W, h: H, color: BG });
            assert(d@ =~= action_draws_spec(a));
            d
        },
        UiAction::DrawHumi(h) => decimal_glyphs(VAL_X, HUMI_Y, h, C_HUMI),
        UiAction::Log { .. } => {
            let d: Vec<Draw> = Vec::new();
            assert(d@ =~= action_draws_spec(a));
            d
        },
    }
}

/// The glyphs of a frame rate in the bottom right corner of the cube demo:
/// its digits, white, from x = 190 on the row at y = 204.
pub open spec fn fps_draws(fps: u32) -> Seq<Draw> {
    let t = fps_text_spec(fps);
    Seq::new(t.len(), |k: int| ascii_draw((190 + ASC_W * k) as u16, 204, t[k], 0xFFFF))
}

/// The glyphs of a frame rate.
pub fn fps_glyphs(fps: u32) -> (d: Vec<Draw>)
    ensures
        d@ == fps_draws(fps),
{
    let t = fps_text(fps);
    assert(t@.len() <= 3);
    let mut d: Vec<Draw> = Vec::new();
    let mut k: usize = 0;
    while k < t.len()
        invariant
            k <= t@.len(),
            t@.len() <= 3,
            t@ == fps_text_spec(fps),
            d@ == fps_draws(fps).subrange(0, k as int),
        decreases t.len() - k,
    {
        assert(48 <= t@[k as int] <= 57);
        d.push(Draw::Ascii { x: 190 + ASC_W * (k as u16), y: 204, index: (t[k] - 32) as usize, color: 0xFFFF });
        assert(d@ =~= fps_draws(fps).subrange(0, k + 1));
        k = k + 1;
    }
    assert(d@ =~= fps_draws(fps));
    d
}

} // verus!
