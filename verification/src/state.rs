//! Application state types and their mathematical views.
//!
//! All fields are public so that a renderer can read them directly. Mutation
//! goes through [`crate::app::App::dispatch`].

use crate::text::{is_boundary, is_char_offset};
use std::time::SystemTime;
use vstd::prelude::*;

verus! {

/// A point in time as the system clock reports it. Its value is opaque here.
#[verifier::external_type_specification]
#[verifier::external_body]
pub struct ExSystemTime(SystemTime);

/// `SystemTime` is `Copy`: cloning a reading yields the same reading.
pub assume_specification[ <SystemTime as Clone>::clone ](t: &SystemTime) -> (r: SystemTime)
    ensures
        r == *t,
;

/// `SystemTime::now`: the current reading of the system clock.
#[verifier::external_body]
pub(crate) fn system_time_now() -> SystemTime {
    SystemTime::now()
}

// ---------------------------------------------------------------------------
// Message
// ---------------------------------------------------------------------------
/// Sender of a chat message.
#[derive(Clone, Copy, Debug, PartialEq, Eq, Structural)]
pub enum MessageRole {
    User,
    OpenX,
    System,
}

/// One message in the chat transcript.
#[derive(Clone, Debug)]
pub struct Message {
    pub role: MessageRole,
    pub content: String,
    pub timestamp: SystemTime,
}

/// What a message says and who said it; the time it was stamped with is left out.
#[verifier::ext_equal]
pub struct MessageView {
    pub role: MessageRole,
    pub content: Seq<char>,
}

impl View for Message {
    type V = MessageView;

    open spec fn view(&self) -> MessageView {
        MessageView { role: self.role, content: self.content@ }
    }
}

impl Message {
    /// A message from the user, stamped with the current time.
    pub fn user(content: String) -> (m: Self)
        ensures
            m@ == (MessageView { role: MessageRole::User, content: content@ }),
    {
        Self { role: MessageRole::User, content, timestamp: system_time_now() }
    }

    /// A message from the agent, stamped with the current time.
    pub fn openx(content: String) -> (m: Self)
        ensures
            m@ == (MessageView { role: MessageRole::OpenX, content: content@ }),
    {
        Self { role: MessageRole::OpenX, content, timestamp: system_time_now() }
    }

    /// A message from the client itself, stamped with the current time.
    pub fn system(content: String) -> (m: Self)
        ensures
            m@ == (MessageView { role: MessageRole::System, content: content@ }),
    {
        Self { role: MessageRole::System, content, timestamp: system_time_now() }
    }
}

/// The views of a transcript's messages, in order.
pub open spec fn messages_view(messages: Seq<Message>) -> Seq<MessageView> {
    messages.map_values(|m: Message| m@)
}

/// The character sequences of a list of strings, in order.
pub open spec fn strings_view(strings: Seq<String>) -> Seq<Seq<char>> {
    strings.map_values(|s: String| s@)
}

// ---------------------------------------------------------------------------
// Command palette
// ---------------------------------------------------------------------------
/// One command registered in the palette, built in or supplied by the backend.
#[derive(Clone, Debug)]
pub struct CommandEntry {
    pub name: String,
    pub description: String,
}

/// Name and description of a command as character sequences.
#[verifier::ext_equal]
pub struct CommandView {
    pub name: Seq<char>,
    pub description: Seq<char>,
}

impl View for CommandEntry {
    type V = CommandView;

    open spec fn view(&self) -> CommandView {
        CommandView { name: self.name@, description: self.description@ }
    }
}

/// The views of a list of commands, in order.
pub open spec fn commands_view(commands: Seq<CommandEntry>) -> Seq<CommandView> {
    commands.map_values(|c: CommandEntry| c@)
}

/// State of the `/`-triggered command palette overlay.
#[derive(Clone, Debug)]
pub struct PaletteState {
    pub visible: bool,
    /// Text after the leading `/`; it drives the fuzzy filter.
    pub query: String,
    /// Full command list: the built-ins, then what the backend supplied.
    pub commands: Vec<CommandEntry>,
    /// Indices into `commands` of the entries that match the query, best first.
    pub filtered: Vec<usize>,
    /// Offset into `filtered` of the highlighted entry.
    pub selected_index: usize,
}

/// The palette as a mathematical value.
#[verifier::ext_equal]
pub struct PaletteView {
    pub visible: bool,
    pub query: Seq<char>,
    pub commands: Seq<CommandView>,
    pub filtered: Seq<usize>,
    pub selected_index: nat,
}

impl PaletteView {
    /// Every filtered index names a command, the highlight lies within the
    /// filtered list unless that list is empty, and the commands can be
    /// counted in a `usize`.
    pub open spec fn wf(self) -> bool {
        &&& self.commands.len() <= usize::MAX
        &&& forall|j: int| 0 <= j < self.filtered.len() ==> self.filtered[j] < self.commands.len()
        &&& self.filtered.len() > 0 ==> self.selected_index < self.filtered.len()
    }

    /// The highlighted command, if the highlight points at one.
    pub open spec fn selected(self) -> Option<CommandView> {
        let j = self.selected_index as int;
        if j < self.filtered.len() && self.filtered[j] < self.commands.len() {
            Some(self.commands[self.filtered[j] as int])
        } else {
            None
        }
    }
}

impl View for PaletteState {
    type V = PaletteView;

    open spec fn view(&self) -> PaletteView {
        PaletteView {
            visible: self.visible,
            query: self.query@,
            commands: commands_view(self.commands@),
            filtered: self.filtered@,
            selected_index: self.selected_index as nat,
        }
    }
}

impl Default for PaletteState {
    /// A closed palette without commands.
    fn default() -> (p: Self)
        ensures
            p@ == (PaletteView {
                visible: false,
                query: Seq::empty(),
                commands: Seq::empty(),
                filtered: Seq::empty(),
                selected_index: 0,
            }),
    {
        let p = Self {
            visible: false,
            query: String::new(),
            commands: Vec::new(),
            filtered: Vec::new(),
            selected_index: 0,
        };
        assert(commands_view(p.commands@) == Seq::<CommandView>::empty());
        p
    }
}

impl PaletteState {
    /// Return the currently highlighted command, if any.
    pub fn selected_command(&self) -> (r: Option<&CommandEntry>)
        ensures
            match r {
                Some(c) => self@.selected() == Some(c@),
                None => self@.selected() is None,
            },
    {
        if self.selected_index < self.filtered.len() {
            let i = self.filtered[self.selected_index];
            if i < self.commands.len() {
                return Some(&self.commands[i]);
            }
        }
        None
    }
}

// ---------------------------------------------------------------------------
// Chat
// ---------------------------------------------------------------------------
/// Scrollable chat transcript and streaming buffer.
#[derive(Clone, Debug)]
pub struct ChatState {
    pub messages: Vec<Message>,
    /// Vertical scroll offset, in content lines. A renderer clamps it to what
    /// there is to show.
    pub scroll: usize,
    /// Text of a response that is still arriving.
    pub streaming_content: String,
}

/// The chat as a mathematical value.
#[verifier::ext_equal]
pub struct ChatView {
    pub messages: Seq<MessageView>,
    pub scroll: nat,
    pub streaming_content: Seq<char>,
}

impl View for ChatState {
    type V = ChatView;

    open spec fn view(&self) -> ChatView {
        ChatView {
            messages: messages_view(self.messages@),
            scroll: self.scroll as nat,
            streaming_content: self.streaming_content@,
        }
    }
}

impl Default for ChatState {
    /// An empty transcript scrolled to the top.
    fn default() -> (c: Self)
        ensures
            c@ == (ChatView {
                messages: Seq::empty(),
                scroll: 0,
                streaming_content: Seq::empty(),
            }),
    {
        let c = Self { messages: Vec::new(), scroll: 0, streaming_content: String::new() };
        assert(messages_view(c.messages@) == Seq::<MessageView>::empty());
        c
    }
}

// ---------------------------------------------------------------------------
// Global app state
// ---------------------------------------------------------------------------
/// Complete mutable state of the client.
#[derive(Clone, Debug)]
pub struct AppState {
    pub chat: ChatState,
    pub input_buffer: String,
    /// Byte offset of the cursor into `input_buffer`, on a character boundary.
    pub input_cursor: usize,
    /// Previously submitted inputs, oldest first.
    pub history: Vec<String>,
    /// Index into `history` while browsing; `history.len()` stands for the draft.
    pub history_index: usize,
    pub palette: PaletteState,
    /// `true` while a request to the agent is outstanding.
    pub loading: bool,
    /// `true` when the user has explicitly focused the input.
    pub input_focused: bool,
}

/// The state as a mathematical value.
#[verifier::ext_equal]
pub struct StateView {
    pub chat: ChatView,
    pub input_buffer: Seq<char>,
    pub input_cursor: nat,
    pub history: Seq<Seq<char>>,
    pub history_index: nat,
    pub palette: PaletteView,
    pub loading: bool,
    pub input_focused: bool,
}

impl StateView {
    /// The invariants of the state: the cursor lies on a character boundary of
    /// the input buffer, the history pointer lies within `0..=history.len()`,
    /// and the palette is well formed.
    pub open spec fn wf(self) -> bool {
        &&& is_boundary(self.input_buffer, self.input_cursor as int)
        &&& self.history_index <= self.history.len()
        &&& self.palette.wf()
    }

    /// The input counts as focused when it is non-empty or explicitly focused.
    pub open spec fn input_has_focus(self) -> bool {
        self.input_focused || self.input_buffer.len() > 0
    }
}

impl View for AppState {
    type V = StateView;

    open spec fn view(&self) -> StateView {
        StateView {
            chat: self.chat@,
            input_buffer: self.input_buffer@,
            input_cursor: self.input_cursor as nat,
            history: strings_view(self.history@),
            history_index: self.history_index as nat,
            palette: self.palette@,
            loading: self.loading,
            input_focused: self.input_focused,
        }
    }
}

/// The state at startup: everything empty, nothing loading, nothing focused.
pub open spec fn initial_state() -> StateView {
    StateView {
        chat: ChatView { messages: Seq::empty(), scroll: 0, streaming_content: Seq::empty() },
        input_buffer: Seq::empty(),
        input_cursor: 0,
        history: Seq::empty(),
        history_index: 0,
        palette: PaletteView {
            visible: false,
            query: Seq::empty(),
            commands: Seq::empty(),
            filtered: Seq::empty(),
            selected_index: 0,
        },
        loading: false,
        input_focused: false,
    }
}

impl Default for AppState {
    fn default() -> (s: Self)
        ensures
            s@ == initial_state(),
            s@.wf(),
    {
        let s = Self {
            chat: ChatState::default(),
            input_buffer: String::new(),
            input_cursor: 0,
            history: Vec::new(),
            history_index: 0,
            palette: PaletteState::default(),
            loading: false,
            input_focused: false,
        };
        proof {
            assert(strings_view(s.history@) == Seq::<Seq<char>>::empty());
            crate::text::lemma_boundary_range(s.input_buffer@, 0);
        }
        s
    }
}

impl PaletteState {
    /// Whether the palette's invariants hold.
    pub fn is_consistent(&self) -> (ok: bool)
        ensures
            ok == self@.wf(),
    {
        let commands = self.commands.len();
        assert(self@.commands.len() == commands);
        let mut j: usize = 0;
        while j < self.filtered.len()
            invariant
                j <= self.filtered.len(),
                commands == self@.commands.len(),
                forall|i: int| 0 <= i < j ==> self.filtered@[i] < commands,
            decreases self.filtered.len() - j,
        {
            if self.filtered[j] >= commands {
                return false;
            }
            j += 1;
        }
        self.filtered.len() == 0 || self.selected_index < self.filtered.len()
    }
}

impl AppState {
    /// Whether the invariants of the state hold. Whatever
    /// [`crate::app::App::dispatch`] leaves behind is consistent; a state
    /// put together by hand may not be.
    pub fn is_consistent(&self) -> (ok: bool)
        ensures
            ok == self@.wf(),
    {
        is_char_offset(self.input_buffer.as_str(), self.input_cursor)
            && self.history_index <= self.history.len() && self.palette.is_consistent()
    }

    /// Borrow the input buffer.
    pub fn input_buffer(&self) -> (r: &str)
        ensures
            r@ == self@.input_buffer,
    {
        self.input_buffer.as_str()
    }

    /// The byte offset of the cursor into the input buffer.
    pub fn input_cursor(&self) -> (r: usize)
        ensures
            r == self@.input_cursor,
    {
        self.input_cursor
    }
}

} // verus!
