use dome_drivers::screen::{action_draws, fps_glyphs, text_glyphs, Draw};
use dome_drivers::ui::UiAction;

fn ascii(x: u16, y: u16, c: char, color: u16) -> Draw {
    Draw::Ascii { x, y, index: c as usize - 32, color }
}

#[test]
fn text_glyphs_sit_side_by_side() {
    let d = text_glyphs(40, 4, "== DHT20 ==".as_bytes(), 0x07FF);
    let expected: Vec<Draw> =
        "== DHT20 ==".chars().enumerate().map(|(k, c)| ascii(40 + 16 * k as u16, 4, c, 0x07FF)).collect();
    assert_eq!(d, expected);
}

#[test]
fn text_glyphs_skip_what_the_font_lacks() {
    let d = text_glyphs(0, 8, "温a\tb".as_bytes(), 1);
    assert_eq!(d, vec![ascii(0, 8, 'a', 1), ascii(16, 8, 'b', 1)]);
}

#[test]
fn temperature_is_drawn_as_four_glyphs() {
    let d = action_draws(UiAction::DrawTemp(235));
    assert_eq!(
        d,
        vec![
            ascii(120, 40, '2', 0xFFE0),
            ascii(136, 40, '3', 0xFFE0),
            ascii(152, 40, '.', 0xFFE0),
            ascii(168, 40, '5', 0xFFE0),
        ]
    );
    let h = action_draws(UiAction::DrawHumi(1234));
    assert_eq!(h[0], ascii(120, 90, '9', 0x07FF));
    assert_eq!(h[3], ascii(168, 90, '9', 0x07FF));
}

#[test]
fn clearing_steps_fill_their_boxes() {
    assert_eq!(action_draws(UiAction::ClearTemp), vec![Draw::Fill { x: 120, y: 40, w: 64, h: 32, color: 0 }]);
    assert_eq!(action_draws(UiAction::ClearHumi), vec![Draw::Fill { x: 120, y: 90, w: 64, h: 32, color: 0 }]);
    assert_eq!(action_draws(UiAction::ClearErrMsg), vec![Draw::Fill { x: 24, y: 22, w: 192, h: 16, color: 0 }]);
    assert_eq!(action_draws(UiAction::Log { t: 1, h: 2 }), vec![]);
}

#[test]
fn layout_draws_title_labels_and_units() {
    let d = action_draws(UiAction::DrawLayout);
    assert_eq!(d.len(), 20);
    assert_eq!(d[0], Draw::Clear(0));
    assert_eq!(d[1], ascii(40, 4, '=', 0x07FF));
    assert_eq!(d[4], ascii(88, 4, 'D', 0x07FF));
    assert_eq!(d[12], Draw::Cjk { x: 24, y: 40, ch: '温', color: 0xFFFF });
    assert_eq!(d[13], Draw::Cjk { x: 56, y: 40, ch: '度', color: 0xFFFF });
    assert_eq!(d[14], ascii(88, 40, ':', 0xFFFF));
    assert_eq!(d[15], Draw::Cjk { x: 184, y: 40, ch: '℃', color: 0xFFE0 });
    assert_eq!(d[16], Draw::Cjk { x: 24, y: 90, ch: '湿', color: 0xFFFF });
    assert_eq!(d[19], ascii(184, 90, '%', 0x07FF));
}

#[test]
fn error_message_box_then_text() {
    let d = action_draws(UiAction::DrawErrMsg);
    assert_eq!(d.len(), 14);
    assert_eq!(d[0], Draw::Fill { x: 24, y: 22, w: 192, h: 16, color: 0 });
    assert_eq!(d[1], ascii(24, 22, 'S', 0xF800));
    assert_eq!(d[13], ascii(24 + 16 * 12, 22, '!', 0xF800));
}

#[test]
fn frame_rate_glyphs() {
    assert_eq!(fps_glyphs(7), vec![ascii(190, 204, '7', 0xFFFF)]);
    assert_eq!(fps_glyphs(42), vec![ascii(190, 204, '4', 0xFFFF), ascii(206, 204, '2', 0xFFFF)]);
    assert_eq!(
        fps_glyphs(1234),
        vec![ascii(190, 204, '2', 0xFFFF), ascii(206, 204, '3', 0xFFFF), ascii(222, 204, '4', 0xFFFF)]
    );
}
