use openx_tui::actions::Action;
use openx_tui::events::{key_to_action, KeyCode, KeyEvent, KeyEventKind, KeyModifiers, TICK_RATE_MS};

fn press(code: KeyCode) -> KeyEvent {
    KeyEvent::new(code, KeyModifiers::none())
}

fn with_ctrl(code: KeyCode) -> KeyEvent {
    let mut modifiers = KeyModifiers::none();
    modifiers.control = true;
    KeyEvent::new(code, modifiers)
}

fn with_shift(code: KeyCode) -> KeyEvent {
    let mut modifiers = KeyModifiers::none();
    modifiers.shift = true;
    KeyEvent::new(code, modifiers)
}

fn all_contexts() -> Vec<(bool, bool, bool)> {
    let mut v = Vec::new();
    for p in [false, true] {
        for f in [false, true] {
            for e in [false, true] {
                v.push((p, f, e));
            }
        }
    }
    v
}

#[test]
fn tick_rate() {
    assert_eq!(TICK_RATE_MS, 80);
}

#[test]
fn modifiers_none_is_empty() {
    assert!(KeyModifiers::none().is_empty());
    let mut m = KeyModifiers::none();
    m.alt = true;
    assert!(!m.is_empty());
}

#[test]
fn release_is_ignored() {
    for (p, f, e) in all_contexts() {
        for code in [KeyCode::Enter, KeyCode::Char('q'), KeyCode::Esc, KeyCode::Char('c')] {
            let mut event = press(code);
            event.kind = KeyEventKind::Release;
            assert_eq!(key_to_action(&event, p, f, e), None);
            let mut event = with_ctrl(code);
            event.kind = KeyEventKind::Release;
            assert_eq!(key_to_action(&event, p, f, e), None);
        }
    }
}

#[test]
fn repeat_counts_like_press() {
    let mut event = press(KeyCode::Backspace);
    event.kind = KeyEventKind::Repeat;
    assert_eq!(key_to_action(&event, false, true, false), Some(Action::Backspace));
}

#[test]
fn control_shortcuts_fire_everywhere() {
    for (p, f, e) in all_contexts() {
        assert_eq!(
            key_to_action(&with_ctrl(KeyCode::Char('c')), p, f, e),
            Some(Action::CancelStreaming)
        );
        assert_eq!(key_to_action(&with_ctrl(KeyCode::Char('l')), p, f, e), Some(Action::ClearInput));
        assert_eq!(key_to_action(&with_ctrl(KeyCode::Char('x')), p, f, e), None);
        assert_eq!(key_to_action(&with_ctrl(KeyCode::Enter), p, f, e), None);
        assert_eq!(key_to_action(&with_ctrl(KeyCode::Esc), p, f, e), None);
    }
}

#[test]
fn escape_closes_unfocuses_or_quits() {
    let esc = press(KeyCode::Esc);
    assert_eq!(key_to_action(&esc, true, true, false), Some(Action::PaletteHide));
    assert_eq!(key_to_action(&esc, true, false, true), Some(Action::PaletteHide));
    assert_eq!(key_to_action(&esc, false, true, false), Some(Action::UnfocusInput));
    assert_eq!(key_to_action(&esc, false, false, true), Some(Action::Quit));
    assert_eq!(key_to_action(&with_shift(KeyCode::Esc), false, false, true), None);
}

#[test]
fn enter_and_backspace() {
    for (p, f, e) in all_contexts() {
        assert_eq!(key_to_action(&press(KeyCode::Enter), p, f, e), Some(Action::Submit));
        assert_eq!(key_to_action(&press(KeyCode::Backspace), p, f, e), Some(Action::Backspace));
        assert_eq!(key_to_action(&with_shift(KeyCode::Enter), p, f, e), None);
        assert_eq!(key_to_action(&with_shift(KeyCode::Backspace), p, f, e), None);
    }
}

#[test]
fn arrows_serve_three_purposes() {
    let up = press(KeyCode::Up);
    let down = press(KeyCode::Down);
    for f in [false, true] {
        for e in [false, true] {
            assert_eq!(key_to_action(&up, true, f, e), Some(Action::PaletteUp));
            assert_eq!(key_to_action(&down, true, f, e), Some(Action::PaletteDown));
        }
        assert_eq!(key_to_action(&up, false, f, true), Some(Action::ChatScrollPageUp));
        assert_eq!(key_to_action(&down, false, f, true), Some(Action::ChatScrollPageDown));
        assert_eq!(key_to_action(&up, false, f, false), Some(Action::HistoryUp));
        assert_eq!(key_to_action(&down, false, f, false), Some(Action::HistoryDown));
    }
    assert_eq!(key_to_action(&with_shift(KeyCode::Up), false, false, true), None);
}

#[test]
fn page_keys_navigate_like_arrows() {
    for (p, f, e) in all_contexts() {
        assert_eq!(
            key_to_action(&press(KeyCode::PageUp), p, f, e),
            key_to_action(&press(KeyCode::Up), p, f, e)
        );
        assert_eq!(
            key_to_action(&press(KeyCode::PageDown), p, f, e),
            key_to_action(&press(KeyCode::Down), p, f, e)
        );
    }
    assert_eq!(
        key_to_action(&press(KeyCode::PageUp), false, false, true),
        Some(Action::ChatScrollPageUp)
    );
    assert_eq!(
        key_to_action(&press(KeyCode::PageDown), false, true, false),
        Some(Action::HistoryDown)
    );
    assert_eq!(key_to_action(&press(KeyCode::PageDown), true, true, false), Some(Action::PaletteDown));
    assert_eq!(key_to_action(&with_shift(KeyCode::PageUp), false, false, true), None);
}

#[test]
fn tab_selects_only_in_the_palette() {
    assert_eq!(key_to_action(&press(KeyCode::Tab), true, true, false), Some(Action::PaletteSelect));
    assert_eq!(key_to_action(&press(KeyCode::Tab), false, true, false), None);
    assert_eq!(key_to_action(&press(KeyCode::Tab), false, false, true), None);
    assert_eq!(key_to_action(&with_shift(KeyCode::Tab), true, true, false), None);
}

#[test]
fn letter_shortcuts_only_in_normal_mode() {
    assert_eq!(key_to_action(&press(KeyCode::Char('q')), false, false, true), Some(Action::Quit));
    assert_eq!(
        key_to_action(&press(KeyCode::Char('g')), false, false, true),
        Some(Action::ChatScrollTop)
    );
    assert_eq!(
        key_to_action(&press(KeyCode::Char('G')), false, false, true),
        Some(Action::ChatScrollBottom)
    );
    assert_eq!(
        key_to_action(&with_shift(KeyCode::Char('G')), false, false, true),
        Some(Action::ChatScrollBottom)
    );
    for c in ['q', 'g', 'G'] {
        assert_eq!(
            key_to_action(&press(KeyCode::Char(c)), false, true, false),
            Some(Action::Char(c))
        );
        assert_eq!(key_to_action(&press(KeyCode::Char(c)), true, false, true), Some(Action::Char(c)));
        assert_eq!(key_to_action(&press(KeyCode::Char(c)), true, true, false), Some(Action::Char(c)));
    }
    assert_eq!(
        key_to_action(&press(KeyCode::Char('x')), false, false, true),
        Some(Action::Char('x'))
    );
}

#[test]
fn slash_opens_the_palette_once() {
    let slash = press(KeyCode::Char('/'));
    assert_eq!(key_to_action(&slash, false, false, true), Some(Action::PaletteShow));
    assert_eq!(key_to_action(&slash, true, false, true), Some(Action::Char('/')));
    assert_eq!(key_to_action(&slash, false, true, false), Some(Action::Char('/')));
    assert_eq!(key_to_action(&slash, true, true, false), Some(Action::Char('/')));
    assert_eq!(
        key_to_action(&with_shift(KeyCode::Char('/')), false, false, true),
        Some(Action::Char('/'))
    );
}

#[test]
fn other_characters_are_text() {
    let mut alt = KeyModifiers::none();
    alt.alt = true;
    assert_eq!(
        key_to_action(&KeyEvent::new(KeyCode::Char('q'), alt), false, false, true),
        Some(Action::Char('q'))
    );
    assert_eq!(
        key_to_action(&with_shift(KeyCode::Char('A')), false, true, false),
        Some(Action::Char('A'))
    );
    assert_eq!(key_to_action(&press(KeyCode::Char('é')), true, true, false), Some(Action::Char('é')));
    let mut sup = KeyModifiers::none();
    sup.super_key = true;
    assert_eq!(key_to_action(&KeyEvent::new(KeyCode::Char('a'), sup), false, true, false), None);
    for (p, f, e) in all_contexts() {
        assert_eq!(key_to_action(&press(KeyCode::Other), p, f, e), None);
    }
}
