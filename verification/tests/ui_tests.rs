use dome_drivers::ui::{ascii_glyph_index, decimal_text, fps_text, mismatches, DemoState, FpsMeter, Ui, UiAction};

#[test]
fn decimal_text_formats_tenths() {
    assert_eq!(&decimal_text(235), b"23.5");
    assert_eq!(&decimal_text(5), b"00.5");
    assert_eq!(&decimal_text(999), b"99.9");
    assert_eq!(&decimal_text(1000), b"99.9");
    assert_eq!(&decimal_text(u16::MAX), b"99.9");
}

#[test]
fn glyph_index_of_printable_ascii() {
    assert_eq!(ascii_glyph_index(' ' as u32), Some(0));
    assert_eq!(ascii_glyph_index('A' as u32), Some(33));
    assert_eq!(ascii_glyph_index('~' as u32), Some(94));
    assert_eq!(ascii_glyph_index(31), None);
    assert_eq!(ascii_glyph_index(127), None);
    assert_eq!(ascii_glyph_index('温' as u32), None);
}

#[test]
fn fps_text_digits() {
    assert_eq!(fps_text(0), b"0".to_vec());
    assert_eq!(fps_text(7), b"7".to_vec());
    assert_eq!(fps_text(42), b"42".to_vec());
    assert_eq!(fps_text(100), b"100".to_vec());
    assert_eq!(fps_text(1234), b"234".to_vec());
}

#[test]
fn first_good_reading_draws_layout_and_values() {
    let (ui, acts) = Ui::Fresh.next(Some((456, 231)));
    assert_eq!(ui, Ui::Data { t: 231, h: 456 });
    assert_eq!(
        acts,
        vec![UiAction::DrawLayout, UiAction::DrawTemp(231), UiAction::DrawHumi(456), UiAction::Log { t: 231, h: 456 }]
    );
}

#[test]
fn first_failure_shows_error() {
    let (ui, acts) = Ui::Fresh.next(None);
    assert_eq!(ui, Ui::Faulted { t: 0, h: 0 });
    assert_eq!(acts, vec![UiAction::DrawLayout, UiAction::DrawErrMsg]);
}

#[test]
fn only_changed_values_are_redrawn() {
    let (ui, acts) = Ui::Data { t: 200, h: 500 }.next(Some((500, 201)));
    assert_eq!(ui, Ui::Data { t: 201, h: 500 });
    assert_eq!(acts, vec![UiAction::ClearTemp, UiAction::DrawTemp(201), UiAction::Log { t: 201, h: 500 }]);
    let (_, same) = Ui::Data { t: 200, h: 500 }.next(Some((500, 200)));
    assert_eq!(same, vec![UiAction::Log { t: 200, h: 500 }]);
}

#[test]
fn failure_after_data_keeps_last_values() {
    let (ui, acts) = Ui::Data { t: 200, h: 500 }.next(None);
    assert_eq!(ui, Ui::Faulted { t: 200, h: 500 });
    assert_eq!(acts[0], UiAction::DrawErrMsg);
    assert_eq!(acts.len(), 5);
    let (ui2, acts2) = ui.next(None);
    assert_eq!(ui2, ui);
    assert!(acts2.is_empty());
}

#[test]
fn recovery_clears_error() {
    let (ui, acts) = Ui::Faulted { t: 1, h: 2 }.next(Some((300, 250)));
    assert_eq!(ui, Ui::Data { t: 250, h: 300 });
    assert_eq!(acts[0], UiAction::ClearErrMsg);
    assert_eq!(*acts.last().unwrap(), UiAction::Log { t: 250, h: 300 });
}

#[test]
fn demo_read_only_mode() {
    let s = DemoState::Idle.next(3, true);
    assert_eq!(s, DemoState::Read);
    assert_eq!(s.next(3, true), DemoState::Verify);
    assert_eq!(DemoState::Verify.next(3, true), DemoState::Done);
    assert_eq!(DemoState::Read.next(3, false), DemoState::Error);
}

#[test]
fn demo_write_modes() {
    assert_eq!(DemoState::Idle.next(1, true), DemoState::Write);
    assert_eq!(DemoState::Idle.next(2, true), DemoState::Write);
    assert_eq!(DemoState::Write.next(2, true), DemoState::WriteWait);
    assert_eq!(DemoState::WriteWait.next(2, true), DemoState::Done);
    assert_eq!(DemoState::WriteWait.next(1, true), DemoState::Read);
    assert_eq!(DemoState::WriteWait.next(1, false), DemoState::Error);
    assert_eq!(DemoState::Idle.next(9, true), DemoState::Error);
    assert_eq!(DemoState::Error.next(1, true), DemoState::Error);
}

#[test]
fn mismatches_lists_differing_offsets() {
    assert_eq!(mismatches(&[1, 2, 3, 4], &[1, 9, 3, 0], 4), vec![1, 3]);
    assert_eq!(mismatches(&[1, 2, 3, 4], &[1, 9, 3, 0], 1), vec![]);
}

#[test]
fn fps_meter_draws_zero_first_then_each_new_rate() {
    let mut m = FpsMeter::new(1000);
    assert_eq!(m, FpsMeter { frames: 0, last_cycles: 1000, fps: 0, shown: u32::MAX });
    // the first frame shows the initial rate of zero
    assert_eq!(m.frame(2000), Some(0));
    assert_eq!(m.frame(3000), None);
    assert_eq!(m.frames, 2);
    // a second later the frames of that second become the rate
    assert_eq!(m.frame(1000 + 72_000_000), Some(3));
    assert_eq!(m, FpsMeter { frames: 0, last_cycles: 72_001_000, fps: 3, shown: 3 });
    assert_eq!(m.frame(72_002_000), None);
}

#[test]
fn fps_meter_survives_counter_wrap() {
    let mut m = FpsMeter::new(u32::MAX - 10);
    assert_eq!(m.frame(5), Some(0));
    // 72 000 000 cycles after u32::MAX - 10, across the wrap
    let later = 72_000_000u32 - 11;
    assert_eq!(m.frame(later), Some(2));
    assert_eq!(m.last_cycles, later);
}
