//! Key mapper: one key event plus three context flags to at most one [`Action`].
//!
//! The mapper is a pure decision table. It keeps no memory of earlier events and
//! reads nothing but its arguments:
//! - `palette_visible`: the command palette overlay is open;
//! - `input_has_focus`: the input buffer is non-empty or explicitly focused, so
//!   bare-letter shortcuts are off and characters go to the buffer;
//! - `input_empty`: the arrow keys scroll the chat when set, and cycle through
//!   history otherwise.

use crate::actions::Action;
use vstd::prelude::*;

verus! {

/// Interval of the main event loop, in milliseconds.
pub const TICK_RATE_MS: u64 = 80;

/// The key that an event reports.
#[derive(Clone, Copy, Debug, PartialEq, Eq, Structural)]
pub enum KeyCode {
    Char(char),
    Esc,
    Enter,
    Backspace,
    Tab,
    Up,
    Down,
    PageUp,
    PageDown,
    /// Any key the mapper has no rule for.
    Other,
}

/// The modifier keys held while the key was struck.
#[derive(Clone, Copy, Debug, PartialEq, Eq, Structural)]
pub struct KeyModifiers {
    pub shift: bool,
    pub control: bool,
    pub alt: bool,
    pub super_key: bool,
    pub hyper: bool,
    pub meta: bool,
}

/// Whether the key went down, is being held, or came up.
#[derive(Clone, Copy, Debug, PartialEq, Eq, Structural)]
pub enum KeyEventKind {
    Press,
    Repeat,
    Release,
}

/// One keyboard event.
#[derive(Clone, Copy, Debug, PartialEq, Eq, Structural)]
pub struct KeyEvent {
    pub code: KeyCode,
    pub modifiers: KeyModifiers,
    pub kind: KeyEventKind,
}

impl KeyModifiers {
    /// No modifier is held.
    pub open spec fn is_none(self) -> bool {
        !self.shift && !self.control && !self.alt && !self.super_key && !self.hyper && !self.meta
    }

    /// No modifier but possibly Shift is held. Terminals report the shifted
    /// character itself, so Shift says nothing more than the character does.
    pub open spec fn at_most_shift(self) -> bool {
        !self.control && !self.alt && !self.super_key && !self.hyper && !self.meta
    }

    /// The empty modifier set.
    pub fn none() -> (m: KeyModifiers)
        ensures
            m.is_none(),
    {
        KeyModifiers {
            shift: false,
            control: false,
            alt: false,
            super_key: false,
            hyper: false,
            meta: false,
        }
    }

    /// Whether no modifier is held.
    pub fn is_empty(&self) -> (b: bool)
        ensures
            b == self.is_none(),
    {
        !self.shift && !self.control && !self.alt && !self.super_key && !self.hyper && !self.meta
    }
}

impl KeyEvent {
    /// A press of `code` with `modifiers` held.
    pub fn new(code: KeyCode, modifiers: KeyModifiers) -> (e: KeyEvent)
        ensures
            e == (KeyEvent { code, modifiers, kind: KeyEventKind::Press }),
    {
        KeyEvent { code, modifiers, kind: KeyEventKind::Press }
    }
}

/// What the keys of vertical navigation do, the arrows as well as Page Up and
/// Page Down: palette navigation when the palette is open, chat scrolling when
/// the input buffer is empty, history navigation otherwise.
pub open spec fn vertical_action(
    up: bool,
    palette_visible: bool,
    input_empty: bool,
) -> Action {
    if palette_visible {
        if up {
            Action::PaletteUp
        } else {
            Action::PaletteDown
        }
    } else if input_empty {
        if up {
            Action::ChatScrollPageUp
        } else {
            Action::ChatScrollPageDown
        }
    } else {
        if up {
            Action::HistoryUp
        } else {
            Action::HistoryDown
        }
    }
}

/// The action of a character key that no modifier but Shift accompanies.
pub open spec fn char_action(
    c: char,
    shift: bool,
    palette_visible: bool,
    input_has_focus: bool,
) -> Action {
    let normal_mode = !input_has_focus && !palette_visible;
    if normal_mode && c == 'q' {
        Action::Quit
    } else if normal_mode && c == 'g' {
        Action::ChatScrollTop
    } else if normal_mode && c == 'G' {
        Action::ChatScrollBottom
    } else if normal_mode && c == '/' && !shift {
        Action::PaletteShow
    } else {
        Action::Char(c)
    }
}

/// The decision table of the key mapper. The first rule that applies wins:
///
/// 1. a release yields nothing;
/// 2. with Control held, `c` cancels streaming and `l` clears the input, and
///    every other key yields nothing;
/// 3. unmodified Escape closes the palette if it is open, else takes the focus
///    from the input if it has it, else quits;
/// 4. unmodified Enter submits and unmodified Backspace deletes;
/// 5. the unmodified arrow keys, Page Up and Page Down follow
///    [`vertical_action`];
/// 6. unmodified Tab selects the highlighted entry while the palette is open;
/// 7. a character key without Super follows [`char_action`] when at most Shift
///    is held, and is literal text otherwise.
pub open spec fn key_action(
    event: KeyEvent,
    palette_visible: bool,
    input_has_focus: bool,
    input_empty: bool,
) -> Option<Action> {
    let bare = event.modifiers.is_none();
    if event.kind == KeyEventKind::Release {
        None
    } else if event.modifiers.control {
        match event.code {
            KeyCode::Char(c) => if c == 'c' {
                Some(Action::CancelStreaming)
            } else if c == 'l' {
                Some(Action::ClearInput)
            } else {
                None
            },
            _ => None,
        }
    } else {
        match event.code {
            KeyCode::Esc => if !bare {
                None
            } else if palette_visible {
                Some(Action::PaletteHide)
            } else if input_has_focus {
                Some(Action::UnfocusInput)
            } else {
                Some(Action::Quit)
            },
            KeyCode::Enter => if bare {
                Some(Action::Submit)
            } else {
                None
            },
            KeyCode::Backspace => if bare {
                Some(Action::Backspace)
            } else {
                None
            },
            KeyCode::Up => if bare {
                Some(vertical_action(true, palette_visible, input_empty))
            } else {
                None
            },
            KeyCode::Down => if bare {
                Some(vertical_action(false, palette_visible, input_empty))
            } else {
                None
            },
            KeyCode::PageUp => if bare {
                Some(vertical_action(true, palette_visible, input_empty))
            } else {
                None
            },
            KeyCode::PageDown => if bare {
                Some(vertical_action(false, palette_visible, input_empty))
            } else {
                None
            },
            KeyCode::Tab => if bare && palette_visible {
                Some(Action::PaletteSelect)
            } else {
                None
            },
            KeyCode::Char(c) => if event.modifiers.super_key {
                None
            } else if event.modifiers.at_most_shift() {
                Some(char_action(c, event.modifiers.shift, palette_visible, input_has_focus))
            } else {
                Some(Action::Char(c))
            },
            KeyCode::Other => None,
        }
    }
}

/// Map a key event to an [`Action`], or return `None` to ignore it.
pub fn key_to_action(
    event: &KeyEvent,
    palette_visible: bool,
    input_has_focus: bool,
    input_empty: bool,
) -> (action: Option<Action>)
    ensures
        action == key_action(*event, palette_visible, input_has_focus, input_empty),
{
    // Only presses and repeats count.
    if let KeyEventKind::Release = event.kind {
        return None;
    }
    let mods = event.modifiers;
    let bare = mods.is_empty();

    // Shortcuts that fire whatever has the focus.
    if mods.control {
        return match event.code {
            KeyCode::Char('c') => Some(Action::CancelStreaming),
            KeyCode::Char('l') => Some(Action::ClearInput),
            _ => None,
        };
    }
    match event.code {
        KeyCode::Char(c) => {
            if mods.super_key {
                return None;
            }
            if !mods.alt && !mods.hyper && !mods.meta && !input_has_focus && !palette_visible {
                // Normal mode: the input is neither focused nor filled.
                if c == 'q' {
                    return Some(Action::Quit);
                }
                if c == 'g' {
                    return Some(Action::ChatScrollTop);
                }
                if c == 'G' {
                    return Some(Action::ChatScrollBottom);
                }
                if c == '/' && bare {
                    return Some(Action::PaletteShow);
                }
            }
            Some(Action::Char(c))
        },
        _ => {
            if !bare {
                return None;
            }
            match event.code {
                KeyCode::Esc => Some(
                    if palette_visible {
                        Action::PaletteHide
                    } else if input_has_focus {
                        Action::UnfocusInput
                    } else {
                        Action::Quit
                    },
                ),
                KeyCode::Enter => Some(Action::Submit),
                KeyCode::Backspace => Some(Action::Backspace),
                KeyCode::Up | KeyCode::PageUp => Some(
                    if palette_visible {
                        Action::PaletteUp
                    } else if input_empty {
                        Action::ChatScrollPageUp
                    } else {
                        Action::HistoryUp
                    },
                ),
                KeyCode::Down | KeyCode::PageDown => Some(
                    if palette_visible {
                        Action::PaletteDown
                    } else if input_empty {
                        Action::ChatScrollPageDown
                    } else {
                        Action::HistoryDown
                    },
                ),
                KeyCode::Tab => if palette_visible {
                    Some(Action::PaletteSelect)
                } else {
                    None
                },
                _ => None,
            }
        },
    }
}

/// Typed text is never taken for a shortcut: while the input has the focus or
/// the palette is open, a character key with at most Shift held is literal text.
pub proof fn lemma_typing_is_literal(
    c: char,
    modifiers: KeyModifiers,
    kind: KeyEventKind,
    palette_visible: bool,
    input_has_focus: bool,
    input_empty: bool,
)
    requires
        kind != KeyEventKind::Release,
        modifiers.at_most_shift(),
        palette_visible || input_has_focus,
    ensures
        key_action(
            KeyEvent { code: KeyCode::Char(c), modifiers, kind },
            palette_visible,
            input_has_focus,
            input_empty,
        ) == Some(Action::Char(c)),
{
}

/// The mapper never yields an action for a key release.
pub proof fn lemma_release_is_ignored(
    event: KeyEvent,
    palette_visible: bool,
    input_has_focus: bool,
    input_empty: bool,
)
    requires
        event.kind == KeyEventKind::Release,
    ensures
        key_action(event, palette_visible, input_has_focus, input_empty) is None,
{
}

} // verus!
