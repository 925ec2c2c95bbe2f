//! User and system actions.

use vstd::prelude::*;

verus! {

/// A discrete intent consumed by the dispatcher.
#[derive(Clone, Copy, Debug, PartialEq, Eq, Structural)]
pub enum Action {
    Quit,
    UnfocusInput,
    Char(char),
    Backspace,
    ClearInput,
    Submit,
    CancelStreaming,
    ChatScrollUp,
    ChatScrollDown,
    ChatScrollPageUp,
    ChatScrollPageDown,
    ChatScrollTop,
    ChatScrollBottom,
    HistoryUp,
    HistoryDown,
    PaletteShow,
    PaletteHide,
    PaletteUp,
    PaletteDown,
    PaletteSelect,
}

} // verus!
