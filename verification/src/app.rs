//! The application and its dispatcher.
//!
//! [`App::dispatch`] is the single writer of the state. It turns one
//! [`Action`] into the next state and, for a submission that is to go to the
//! agent, into the request to send. Sending is the caller's business: it hands
//! the outcome back through [`App::poll_results`]. At most one request is
//! outstanding at any time.

use crate::actions::Action;
use crate::backend::ToolInfo;
use crate::commands::{
    builtin_commands, refiltered, register_command, registered, update_palette_filter,
    BUILTIN_COMMANDS,
};
use crate::services::{normalize_slash_command, normalized};
use crate::state::{
    commands_view, messages_view, strings_view, AppState, ChatView, CommandEntry, CommandView,
    Message, MessageRole, MessageView, PaletteView, StateView,
};
use crate::text::{
    after_first_byte, char_index, count_lines, insert_char, lemma_boundary_range,
    lemma_char_index, lemma_width_ascii, line_count, locate, offset_of, remove_char, str_eq,
    str_len, str_trim, strip_prefix, tail_after_first_byte, trimmed, utf8_len, utf8_width,
    without_prefix,
};
use vstd::arithmetic::div_mod::{lemma_mod_add_multiples_vanish, lemma_small_mod};
use vstd::prelude::*;

verus! {

/// Lines that one page of scrolling moves the transcript by.
pub const SCROLL_PAGE: usize = 10;

/// Lines of transcript kept in sight when jumping to the bottom.
pub const BOTTOM_MARGIN: usize = 20;

/// Lines of transcript kept in sight when an answer scrolls it to the end.
pub const ANSWER_MARGIN: usize = 10;

/// Outcome of a background call to the agent.
#[derive(Clone, Debug)]
pub enum BackendResult {
    Chat { text: String },
}

impl View for BackendResult {
    type V = Seq<char>;

    /// The text that the outcome carries.
    open spec fn view(&self) -> Seq<char> {
        match *self {
            BackendResult::Chat { text } => text@,
        }
    }
}

/// A request that the caller is to send to the agent.
#[derive(Clone, Debug)]
pub struct ChatRequest {
    pub message: String,
}

impl View for ChatRequest {
    type V = Seq<char>;

    /// The message to send.
    open spec fn view(&self) -> Seq<char> {
        self.message@
    }
}

/// The message that a request carries, if there is a request.
pub open spec fn request_view(request: Option<ChatRequest>) -> Option<Seq<char>> {
    match request {
        Some(r) => Some(r@),
        None => None,
    }
}

/// The application: the state, and what surrounds it.
pub struct App {
    pub state: AppState,
    /// Set once the session is to end.
    pub should_quit: bool,
    /// Counts the turns of the event loop; drives the spinner.
    pub tick: usize,
    /// Current git branch, read once at startup.
    pub git_branch: String,
    /// Whether the backend answered the liveness probe.
    pub connected: bool,
}

/// The application as a mathematical value.
#[verifier::ext_equal]
pub struct AppView {
    pub state: StateView,
    pub should_quit: bool,
    pub tick: nat,
    pub git_branch: Seq<char>,
    pub connected: bool,
}

impl View for App {
    type V = AppView;

    open spec fn view(&self) -> AppView {
        AppView {
            state: self.state@,
            should_quit: self.should_quit,
            tick: self.tick as nat,
            git_branch: self.git_branch@,
            connected: self.connected,
        }
    }
}

// ---------------------------------------------------------------------------
// The transition function
// ---------------------------------------------------------------------------
/// `a - b`, or zero where that would be negative.
pub open spec fn minus_or_zero(a: int, b: int) -> nat {
    if a >= b {
        (a - b) as nat
    } else {
        0
    }
}

/// `n`, or the largest `usize` where `n` exceeds it.
pub open spec fn capped(n: nat) -> nat {
    if n > usize::MAX {
        usize::MAX as nat
    } else {
        n
    }
}

/// Lines that one message takes in the estimate: its lines of content, at
/// least one, and one more for the gap if gaps count.
pub open spec fn message_lines(message: MessageView, with_gap: bool) -> nat {
    (if line_count(message.content) > 1 {
        line_count(message.content)
    } else {
        1
    }) + (if with_gap {
        1nat
    } else {
        0nat
    })
}

/// Estimated number of lines of a transcript.
pub open spec fn total_lines(messages: Seq<MessageView>, with_gap: bool) -> nat
    decreases messages.len(),
{
    if messages.len() == 0 {
        0
    } else {
        total_lines(messages.drop_last(), with_gap) + message_lines(messages.last(), with_gap)
    }
}

/// The state with the palette's query taken anew from the input buffer, as
/// what follows its leading `/`, and the filter recomputed.
pub open spec fn synced(s: StateView) -> StateView {
    StateView {
        palette: refiltered(
            PaletteView { query: after_first_byte(s.input_buffer), ..s.palette },
        ),
        ..s
    }
}

/// Typing `c`: the input gets the focus and `c` goes in at the cursor, which
/// moves behind it. An open palette follows the buffer.
pub open spec fn after_char(s: StateView, c: char) -> StateView {
    let typed = StateView {
        input_focused: true,
        input_buffer: s.input_buffer.insert(char_index(s.input_buffer, s.input_cursor as int), c),
        input_cursor: s.input_cursor + utf8_width(c),
        ..s
    };
    if s.palette.visible {
        synced(typed)
    } else {
        typed
    }
}

/// The state without the character before the cursor, the cursor moved back
/// over it.
pub open spec fn erased(s: StateView) -> StateView {
    let k = char_index(s.input_buffer, s.input_cursor as int);
    StateView {
        input_buffer: s.input_buffer.remove(k - 1),
        input_cursor: (s.input_cursor - utf8_width(s.input_buffer[k - 1])) as nat,
        ..s
    }
}

/// Backspace deletes the character before the cursor. While the palette is
/// open the first character of the buffer is protected, and every deletion
/// is followed by the palette.
pub open spec fn after_backspace(s: StateView) -> StateView {
    let k = char_index(s.input_buffer, s.input_cursor as int);
    if s.palette.visible {
        if k >= 2 {
            synced(erased(s))
        } else {
            s
        }
    } else if k >= 1 {
        erased(s)
    } else {
        s
    }
}

/// The state with `text` in the input buffer and the cursor at its end.
pub open spec fn with_input(s: StateView, text: Seq<char>) -> StateView {
    StateView { input_buffer: text, input_cursor: utf8_len(text), ..s }
}

/// One step back in history, unless the palette is open or there is no step
/// to take: the entry reached fills the input buffer.
pub open spec fn after_history_up(s: StateView) -> StateView {
    if !s.palette.visible && s.history.len() > 0 && s.history_index > 0 {
        with_input(
            StateView { history_index: (s.history_index - 1) as nat, ..s },
            s.history[s.history_index - 1],
        )
    } else {
        s
    }
}

/// One step forward in history, unless the palette is open or the draft is
/// reached already: the entry reached fills the input buffer, and the draft is
/// empty.
pub open spec fn after_history_down(s: StateView) -> StateView {
    if !s.palette.visible && s.history_index < s.history.len() {
        with_input(
            StateView { history_index: s.history_index + 1, ..s },
            if s.history_index + 1 >= s.history.len() {
                Seq::empty()
            } else {
                s.history[s.history_index + 1 as int]
            },
        )
    } else {
        s
    }
}

/// Opening the palette: the query is reset, the input buffer is exactly `/`
/// with the cursor behind it, and the filter is recomputed.
pub open spec fn after_palette_show(s: StateView) -> StateView {
    StateView {
        input_buffer: seq!['/'],
        input_cursor: 1,
        palette: refiltered(PaletteView { visible: true, query: Seq::empty(), ..s.palette }),
        ..s
    }
}

/// The highlight moved by `delta` entries, wrapping around the filtered list.
pub open spec fn after_palette_move(s: StateView, delta: int) -> StateView {
    let len = s.palette.filtered.len() as int;
    if len > 0 {
        StateView {
            palette: PaletteView {
                selected_index: ((s.palette.selected_index + len + delta) % len) as nat,
                ..s.palette
            },
            ..s
        }
    } else {
        s
    }
}

/// Taking the highlighted command: its name replaces the input buffer and the
/// palette closes. Without a highlighted command nothing changes.
pub open spec fn after_palette_select(s: StateView) -> StateView {
    match s.palette.selected() {
        Some(command) => with_input(
            StateView { palette: PaletteView { visible: false, ..s.palette }, ..s },
            command.name,
        ),
        None => s,
    }
}

/// How a submission is handled.
pub enum Submission {
    /// The input is blank: nothing happens.
    Blank,
    /// The palette is open and lists something: the highlighted command
    /// completes the input.
    Completion,
    /// A request is outstanding: nothing happens.
    Busy,
    /// The line is a quit phrase: it is answered locally and the session ends.
    Farewell,
    /// The line goes to the agent.
    Request,
}

/// The line as it is submitted: the input buffer, trimmed.
pub open spec fn submitted_line(s: StateView) -> Seq<char> {
    trimmed(s.input_buffer)
}

/// The phrases that end the session without a word to the agent.
pub open spec fn is_quit_phrase(command: Seq<char>) -> bool {
    command == "quit"@ || command == "exit"@
}

/// Which way a submission goes in state `s`.
pub open spec fn submission(s: StateView) -> Submission {
    if submitted_line(s).len() == 0 {
        Submission::Blank
    } else if s.palette.visible && s.palette.filtered.len() > 0 {
        Submission::Completion
    } else if s.loading {
        Submission::Busy
    } else if is_quit_phrase(normalized(submitted_line(s))) {
        Submission::Farewell
    } else {
        Submission::Request
    }
}

/// History with `line` recorded: appended, unless it is the newest entry
/// already.
pub open spec fn recorded(history: Seq<Seq<char>>, line: Seq<char>) -> Seq<Seq<char>> {
    if history.len() > 0 && history.last() == line {
        history
    } else {
        history.push(line)
    }
}

/// The message sent for `command`: the command without a leading `chat `,
/// trimmed.
pub open spec fn outbound_message(command: Seq<char>) -> Seq<char> {
    trimmed(without_prefix(command, "chat "@))
}

/// The state after an accepted submission: the palette is closed, the input
/// is cleared and loses the focus, the line is recorded in history, the
/// history pointer is back on the draft, and the command joins the transcript
/// as a user message. A quit phrase is answered with a farewell at once; any
/// other command starts the wait for the agent.
pub open spec fn after_accepted(s: StateView) -> StateView {
    let line = submitted_line(s);
    let command = normalized(line);
    let history = recorded(s.history, line);
    let sent = s.chat.messages.push(MessageView { role: MessageRole::User, content: command });
    StateView {
        chat: ChatView {
            messages: if is_quit_phrase(command) {
                sent.push(MessageView { role: MessageRole::OpenX, content: "Goodbye."@ })
            } else {
                sent
            },
            streaming_content: Seq::empty(),
            ..s.chat
        },
        input_buffer: Seq::empty(),
        input_cursor: 0,
        input_focused: false,
        history,
        history_index: history.len(),
        palette: PaletteView { visible: false, ..s.palette },
        loading: !is_quit_phrase(command),
    }
}

/// The state after Submit.
pub open spec fn after_submit(s: StateView) -> StateView {
    match submission(s) {
        Submission::Blank => s,
        Submission::Completion => after_palette_select(s),
        Submission::Busy => s,
        Submission::Farewell => after_accepted(s),
        Submission::Request => after_accepted(s),
    }
}

/// The state with the transcript scrolled to `scroll`.
pub open spec fn scrolled(s: StateView, scroll: nat) -> StateView {
    StateView { chat: ChatView { scroll, ..s.chat }, ..s }
}

/// The state after `action`.
pub open spec fn step_state(s: StateView, action: Action) -> StateView {
    match action {
        Action::Quit => s,
        Action::UnfocusInput => StateView { input_focused: false, ..s },
        Action::Char(c) => after_char(s, c),
        Action::Backspace => after_backspace(s),
        Action::ClearInput => StateView {
            input_buffer: Seq::empty(),
            input_cursor: 0,
            input_focused: false,
            palette: PaletteView { visible: false, ..s.palette },
            ..s
        },
        Action::Submit => after_submit(s),
        Action::CancelStreaming => StateView {
            loading: false,
            chat: ChatView { streaming_content: Seq::empty(), ..s.chat },
            ..s
        },
        Action::ChatScrollUp => scrolled(s, minus_or_zero(s.chat.scroll as int, 1)),
        Action::ChatScrollDown => scrolled(s, capped(s.chat.scroll + 1)),
        Action::ChatScrollPageUp => scrolled(s, minus_or_zero(s.chat.scroll as int, SCROLL_PAGE as int)),
        Action::ChatScrollPageDown => scrolled(s, capped(s.chat.scroll + SCROLL_PAGE as nat)),
        Action::ChatScrollTop => scrolled(s, 0),
        Action::ChatScrollBottom => scrolled(
            s,
            minus_or_zero(capped(total_lines(s.chat.messages, false)) as int, BOTTOM_MARGIN as int),
        ),
        Action::HistoryUp => after_history_up(s),
        Action::HistoryDown => after_history_down(s),
        Action::PaletteShow => after_palette_show(s),
        Action::PaletteHide => StateView { palette: PaletteView { visible: false, ..s.palette }, ..s },
        Action::PaletteUp => after_palette_move(s, -1),
        Action::PaletteDown => after_palette_move(s, 1),
        Action::PaletteSelect => after_palette_select(s),
    }
}

/// Whether `action` ends the session in state `s`.
pub open spec fn quits(s: StateView, action: Action) -> bool {
    action == Action::Quit || (action == Action::Submit && submission(s) is Farewell)
}

/// The application after `action`.
pub open spec fn step(app: AppView, action: Action) -> AppView {
    AppView {
        state: step_state(app.state, action),
        should_quit: app.should_quit || quits(app.state, action),
        ..app
    }
}

/// The message to send to the agent on `action`, if there is one to send.
pub open spec fn request_of(s: StateView, action: Action) -> Option<Seq<char>> {
    if action == Action::Submit && submission(s) is Request {
        Some(outbound_message(normalized(submitted_line(s))))
    } else {
        None
    }
}

/// The state after the outcomes `texts` have come in: each joins the
/// transcript as an agent message, the wait is over, and the transcript is
/// scrolled to its end.
pub open spec fn after_results(s: StateView, texts: Seq<Seq<char>>) -> StateView {
    if texts.len() == 0 {
        s
    } else {
        let messages = s.chat.messages + texts.map_values(
            |text: Seq<char>| MessageView { role: MessageRole::OpenX, content: text },
        );
        StateView {
            loading: false,
            chat: ChatView {
                messages,
                scroll: minus_or_zero(capped(total_lines(messages, true)) as int, ANSWER_MARGIN as int),
                ..s.chat
            },
            ..s
        }
    }
}

/// The commands that the backend offers, as registry entries.
pub open spec fn offered_commands(tools: Result<Vec<ToolInfo>, String>) -> Seq<CommandView> {
    match tools {
        Ok(tools) => tools@.map_values(
            |t: ToolInfo| CommandView { name: t.name@, description: t.description@ },
        ),
        Err(_) => Seq::empty(),
    }
}

/// The application after startup: the probe's verdict is noted, a welcome
/// joins the transcript, and the palette holds the built-in commands followed
/// by those of the backend whose names were still free, all of them listed.
pub open spec fn after_bootstrap(app: AppView, connected: bool, offered: Seq<CommandView>) -> AppView {
    AppView {
        connected,
        state: StateView {
            chat: ChatView {
                messages: app.state.chat.messages.push(
                    MessageView {
                        role: MessageRole::System,
                        content: "Welcome to OpenX. Type what you need or use / for shortcuts."@,
                    },
                ),
                ..app.state.chat
            },
            palette: refiltered(
                PaletteView {
                    commands: registered(Seq::empty(), builtin_commands() + offered),
                    ..app.state.palette
                },
            ),
            ..app.state
        },
        ..app
    }
}

/// Adding a message to a transcript adds its view to the transcript's view.
proof fn lemma_messages_push(messages: Seq<Message>, message: Message)
    ensures
        messages_view(messages.push(message)) == messages_view(messages).push(message@),
{
}

/// Estimated total line count of the transcript, for scrolling to its end:
/// the lines of content of each message, at least one, and one more per
/// message if gaps count. The count stops at the largest `usize`.
fn estimated_chat_total_lines(messages: &Vec<Message>, include_gap_per_message: bool) -> (total:
    usize)
    ensures
        total == capped(total_lines(messages_view(messages@), include_gap_per_message)),
{
    let ghost views = messages_view(messages@);
    let mut total: usize = 0;
    let mut i: usize = 0;
    proof {
        assert(views.take(0) == Seq::<MessageView>::empty());
    }
    while i < messages.len()
        invariant
            i <= messages.len(),
            views == messages_view(messages@),
            total == capped(total_lines(views.take(i as int), include_gap_per_message)),
        decreases messages.len() - i,
    {
        proof {
            assert(views.take(i + 1).drop_last() == views.take(i as int));
            assert(views.take(i + 1).last() == messages@[i as int]@);
        }
        let counted = count_lines(messages[i].content.as_str());
        let lines = if counted > 1 {
            counted
        } else {
            1
        };
        let gap: usize = if include_gap_per_message {
            1
        } else {
            0
        };
        total = total.saturating_add(lines.saturating_add(gap));
        i += 1;
    }
    proof {
        assert(views.take(i as int) == views);
    }
    total
}

/// Take the palette's query from the input buffer, as everything after its
/// leading `/`, and recompute the filter.
fn sync_palette_query(state: &mut AppState)
    ensures
        final(state)@ == synced(old(state)@),
        final(state)@.palette.wf(),
{
    state.palette.query = tail_after_first_byte(state.input_buffer.as_str());
    update_palette_filter(&mut state.palette);
}

/// Put `text` into the input buffer and the cursor at its end.
fn set_input(state: &mut AppState, text: String)
    ensures
        final(state)@ == with_input(old(state)@, text@),
        old(state)@.wf() ==> final(state)@.wf(),
{
    state.input_cursor = str_len(text.as_str());
    state.input_buffer = text;
    proof {
        lemma_boundary_range(text@, 0);
    }
}

/// Type `c` at the cursor.
fn type_char(state: &mut AppState, c: char)
    requires
        old(state)@.wf(),
    ensures
        final(state)@ == after_char(old(state)@, c),
        final(state)@.wf(),
{
    // Typing gives the input the focus.
    state.input_focused = true;
    let after = insert_char(&mut state.input_buffer, state.input_cursor, c);
    state.input_cursor = after;
    if state.palette.visible {
        sync_palette_query(state);
    }
}

/// Delete the character before the cursor.
fn backspace(state: &mut AppState)
    requires
        old(state)@.wf(),
    ensures
        final(state)@ == after_backspace(old(state)@),
        final(state)@.wf(),
{
    let (before, start) = locate(state.input_buffer.as_str(), state.input_cursor);
    if state.palette.visible {
        // The first character is what marks palette mode: it stays.
        if before >= 2 {
            remove_char(&mut state.input_buffer, start, state.input_cursor);
            state.input_cursor = start;
            sync_palette_query(state);
        }
    } else if before >= 1 {
        remove_char(&mut state.input_buffer, start, state.input_cursor);
        state.input_cursor = start;
    }
}

/// Recall the history entry before the one shown.
fn history_up(state: &mut AppState)
    requires
        old(state)@.wf(),
    ensures
        final(state)@ == after_history_up(old(state)@),
        final(state)@.wf(),
{
    if state.palette.visible {
        return ;
    }
    if state.history.len() > 0 && state.history_index > 0 {
        state.history_index -= 1;
        let entry = state.history[state.history_index].clone();
        set_input(state, entry);
    }
}

/// Recall the history entry after the one shown, or the empty draft.
fn history_down(state: &mut AppState)
    requires
        old(state)@.wf(),
    ensures
        final(state)@ == after_history_down(old(state)@),
        final(state)@.wf(),
{
    if state.palette.visible {
        return ;
    }
    if state.history_index < state.history.len() {
        state.history_index += 1;
        let entry = if state.history_index >= state.history.len() {
            String::new()
        } else {
            state.history[state.history_index].clone()
        };
        set_input(state, entry);
    }
}

/// Open the palette on a fresh query.
fn palette_show(state: &mut AppState)
    requires
        old(state)@.wf(),
    ensures
        final(state)@ == after_palette_show(old(state)@),
        final(state)@.wf(),
{
    state.palette.visible = true;
    state.palette.query = String::new();
    state.input_buffer = "/".to_owned();
    state.input_cursor = 1;
    update_palette_filter(&mut state.palette);
    proof {
        reveal_strlit("/");
        let slash = seq!['/'];
        assert(state.input_buffer@ == slash);
        assert(slash.take(1) == slash);
        lemma_width_ascii('/');
        assert(offset_of(slash, 1, 1));
    }
}

/// Move the highlight one entry up or down, wrapping around.
fn palette_move(state: &mut AppState, up: bool)
    requires
        old(state)@.wf(),
    ensures
        final(state)@ == after_palette_move(
            old(state)@,
            if up {
                -1
            } else {
                1
            },
        ),
        final(state)@.wf(),
{
    let len = state.palette.filtered.len();
    if len > 0 {
        let selected = state.palette.selected_index;
        proof {
            let l = len as int;
            let i = selected as int;
            lemma_mod_add_multiples_vanish(i - 1, l);
            lemma_mod_add_multiples_vanish(i + 1, l);
            lemma_mod_add_multiples_vanish(0, l);
            lemma_small_mod(0, len as nat);
            if i > 0 {
                lemma_small_mod((i - 1) as nat, len as nat);
            } else {
                lemma_small_mod((l - 1) as nat, len as nat);
            }
            if i + 1 < l {
                lemma_small_mod((i + 1) as nat, len as nat);
            }
        }
        state.palette.selected_index = if up {
            if selected == 0 {
                len - 1
            } else {
                selected - 1
            }
        } else {
            if selected + 1 == len {
                0
            } else {
                selected + 1
            }
        };
    }
}

/// Complete the input with the highlighted command and close the palette.
fn palette_select(state: &mut AppState)
    ensures
        final(state)@ == after_palette_select(old(state)@),
        old(state)@.wf() ==> final(state)@.wf(),
{
    let name = match state.palette.selected_command() {
        Some(command) => command.name.clone(),
        None => {
            return ;
        },
    };
    state.palette.visible = false;
    set_input(state, name);
}

impl App {
    /// The application at startup, on the git branch `git_branch`.
    pub fn new(git_branch: String) -> (app: Self)
        ensures
            app@ == (AppView {
                state: crate::state::initial_state(),
                should_quit: false,
                tick: 0,
                git_branch: git_branch@,
                connected: false,
            }),
            app@.state.wf(),
    {
        Self {
            state: AppState::default(),
            should_quit: false,
            tick: 0,
            git_branch,
            connected: false,
        }
    }

    /// Input has focus when the buffer is non-empty or explicitly focused.
    pub fn input_has_focus(&self) -> (focus: bool)
        ensures
            focus == self@.state.input_has_focus(),
    {
        self.state.input_focused || !self.state.input_buffer.as_str().is_empty()
    }

    /// Start up: note whether the backend is reachable, greet, and fill the
    /// palette with the built-in commands and with those of the backend's
    /// tools whose names are still free.
    pub fn bootstrap(&mut self, connected: bool, tools: Result<Vec<ToolInfo>, String>)
        ensures
            final(self)@ == after_bootstrap(old(self)@, connected, offered_commands(tools)),
            old(self)@.state.wf() ==> final(self)@.state.wf(),
    {
        self.connected = connected;
        let welcome = Message::system(
            "Welcome to OpenX. Type what you need or use / for shortcuts.".to_owned(),
        );
        proof {
            lemma_messages_push(self.state.chat.messages@, welcome);
        }
        self.state.chat.messages.push(welcome);

        let ghost builtins = builtin_commands();
        let ghost offered = offered_commands(tools);
        let mut commands: Vec<CommandEntry> = Vec::new();
        let mut i: usize = 0;
        proof {
            assert(builtins.take(0) == Seq::<CommandView>::empty());
            assert(commands_view(commands@) == Seq::<CommandView>::empty());
        }
        while i < 31
            invariant
                i <= 31,
                builtins == builtin_commands(),
                commands_view(commands@) == registered(Seq::empty(), builtins.take(i as int)),
            decreases 31 - i,
        {
            proof {
                assert(builtins.take(i + 1).drop_last() == builtins.take(i as int));
            }
            let entry = CommandEntry {
                name: BUILTIN_COMMANDS[i].0.to_owned(),
                description: BUILTIN_COMMANDS[i].1.to_owned(),
            };
            register_command(&mut commands, entry);
            i += 1;
        }
        proof {
            assert(builtins.take(31) == builtins);
            assert(builtins + offered.take(0) == builtins);
        }
        // Built-ins come first, so a tool of the same name is dropped.
        if let Ok(tools) = tools {
            let mut j: usize = 0;
            while j < tools.len()
                invariant
                    j <= tools.len(),
                    offered == offered_commands(Ok(tools)),
                    commands_view(commands@) == registered(
                        Seq::empty(),
                        builtins + offered.take(j as int),
                    ),
                decreases tools.len() - j,
            {
                proof {
                    assert((builtins + offered.take(j + 1)).drop_last() == builtins + offered.take(
                        j as int,
                    ));
                }
                let entry = CommandEntry {
                    name: tools[j].name.clone(),
                    description: tools[j].description.clone(),
                };
                register_command(&mut commands, entry);
                j += 1;
            }
            proof {
                assert(offered.take(j as int) == offered);
            }
        }
        self.state.palette.commands = commands;
        update_palette_filter(&mut self.state.palette);
    }

    /// Take in the outcomes of finished background calls. Call once per tick
    /// with what has arrived since the last call.
    pub fn poll_results(&mut self, results: Vec<BackendResult>)
        ensures
            final(self)@ == (AppView {
                state: after_results(old(self)@.state, results@.map_values(|r: BackendResult| r@)),
                ..old(self)@
            }),
            old(self)@.state.wf() ==> final(self)@.state.wf(),
    {
        let ghost texts = results@.map_values(|r: BackendResult| r@);
        let ghost before = self@;
        let mut i: usize = 0;
        proof {
            assert(texts.take(0) == Seq::<Seq<char>>::empty());
        }
        while i < results.len()
            invariant
                i <= results.len(),
                texts == results@.map_values(|r: BackendResult| r@),
                self@ == (AppView {
                    state: after_results(before.state, texts.take(i as int)),
                    ..before
                }),
                before.state.wf() ==> self@.state.wf(),
            decreases results.len() - i,
        {
            self.state.loading = false;
            let text = match &results[i] {
                BackendResult::Chat { text } => text.clone(),
            };
            let message = Message::openx(text);
            proof {
                lemma_messages_push(self.state.chat.messages@, message);
                let answer = |text: Seq<char>| MessageView { role: MessageRole::OpenX, content: text };
                assert(texts.take(i + 1).map_values(answer) == texts.take(i as int).map_values(
                    answer,
                ).push(message@));
            }
            self.state.chat.messages.push(message);
            // A new message scrolls the transcript to its end.
            let total_lines = estimated_chat_total_lines(&self.state.chat.messages, true);
            self.state.chat.scroll = total_lines.saturating_sub(ANSWER_MARGIN);
            i += 1;
        }
        proof {
            assert(texts.take(i as int) == texts);
        }
    }

    /// Apply `action` to the state. A submission that is to go to the agent
    /// comes back as the request to send; at most one request is outstanding
    /// at any time. Nothing here ends the process: the only way out is the
    /// `should_quit` flag.
    pub fn dispatch(&mut self, action: Action) -> (request: Option<ChatRequest>)
        requires
            old(self)@.state.wf(),
        ensures
            final(self)@ == step(old(self)@, action),
            request_view(request) == request_of(old(self)@.state, action),
            final(self)@.state.wf(),
    {
        match action {
            Action::Quit => {
                self.should_quit = true;
            },
            Action::UnfocusInput => {
                self.state.input_focused = false;
            },
            Action::Char(c) => type_char(&mut self.state, c),
            Action::Backspace => backspace(&mut self.state),
            Action::ClearInput => {
                self.state.input_buffer = String::new();
                self.state.input_cursor = 0;
                self.state.input_focused = false;
                self.state.palette.visible = false;
                proof {
                    lemma_boundary_range(self.state.input_buffer@, 0);
                }
            },
            Action::Submit => {
                return self.submit_input();
            },
            Action::CancelStreaming => {
                self.state.loading = false;
                self.state.chat.streaming_content = String::new();
            },
            Action::ChatScrollUp => {
                self.state.chat.scroll = self.state.chat.scroll.saturating_sub(1);
            },
            Action::ChatScrollDown => {
                self.state.chat.scroll = self.state.chat.scroll.saturating_add(1);
            },
            Action::ChatScrollPageUp => {
                self.state.chat.scroll = self.state.chat.scroll.saturating_sub(SCROLL_PAGE);
            },
            Action::ChatScrollPageDown => {
                self.state.chat.scroll = self.state.chat.scroll.saturating_add(SCROLL_PAGE);
            },
            Action::ChatScrollTop => {
                self.state.chat.scroll = 0;
            },
            Action::ChatScrollBottom => {
                let total = estimated_chat_total_lines(&self.state.chat.messages, false);
                self.state.chat.scroll = total.saturating_sub(BOTTOM_MARGIN);
            },
            Action::HistoryUp => history_up(&mut self.state),
            Action::HistoryDown => history_down(&mut self.state),
            Action::PaletteShow => palette_show(&mut self.state),
            Action::PaletteHide => {
                self.state.palette.visible = false;
            },
            Action::PaletteUp => palette_move(&mut self.state, true),
            Action::PaletteDown => palette_move(&mut self.state, false),
            Action::PaletteSelect => palette_select(&mut self.state),
        }
        None
    }

    /// Submit the input line. In order: a blank line does nothing; an open
    /// palette that lists something completes the input instead; while a
    /// request is outstanding nothing is accepted; a quit phrase is answered
    /// locally; anything else becomes a request.
    fn submit_input(&mut self) -> (request: Option<ChatRequest>)
        requires
            old(self)@.state.wf(),
        ensures
            final(self)@ == step(old(self)@, Action::Submit),
            request_view(request) == request_of(old(self)@.state, Action::Submit),
            final(self)@.state.wf(),
    {
        let raw = str_trim(self.state.input_buffer.as_str()).to_owned();
        if raw.as_str().is_empty() {
            return None;
        }
        if self.state.palette.visible && self.state.palette.filtered.len() > 0 {
            palette_select(&mut self.state);
            return None;
        }
        // One request at a time.
        if self.state.loading {
            return None;
        }
        self.state.palette.visible = false;
        self.state.input_buffer = String::new();
        self.state.input_cursor = 0;
        self.state.input_focused = false;
        proof {
            lemma_boundary_range(self.state.input_buffer@, 0);
        }

        let command = normalize_slash_command(raw.as_str());
        let newest = self.state.history.len();
        if newest == 0 || !str_eq(self.state.history[newest - 1].as_str(), raw.as_str()) {
            proof {
                assert(strings_view(self.state.history@.push(raw)) == strings_view(
                    self.state.history@,
                ).push(raw@));
            }
            self.state.history.push(raw);
        }
        self.state.history_index = self.state.history.len();

        let sent = Message::user(command.clone());
        proof {
            lemma_messages_push(self.state.chat.messages@, sent);
        }
        self.state.chat.messages.push(sent);
        self.state.loading = true;
        self.state.chat.streaming_content = String::new();

        // Quitting needs no agent.
        if str_eq(command.as_str(), "quit") || str_eq(command.as_str(), "exit") {
            self.state.loading = false;
            let farewell = Message::openx("Goodbye.".to_owned());
            proof {
                lemma_messages_push(self.state.chat.messages@, farewell);
            }
            self.state.chat.messages.push(farewell);
            self.should_quit = true;
            return None;
        }
        let payload = strip_prefix(command.as_str(), "chat ");
        let message = str_trim(payload.as_str()).to_owned();
        Some(ChatRequest { message })
    }
}

// ---------------------------------------------------------------------------
// Laws of the transition function
// ---------------------------------------------------------------------------
/// The state invariants survive every action.
pub proof fn lemma_step_keeps_invariants(s: StateView, action: Action)
    requires
        s.wf(),
    ensures
        step_state(s, action).wf(),
{
    let k = char_index(s.input_buffer, s.input_cursor as int);
    assert(offset_of(s.input_buffer, k, s.input_cursor as int));
    lemma_boundary_range(Seq::empty(), 0);
    match action {
        Action::Char(c) => {
            crate::text::lemma_insert_at_boundary(s.input_buffer, k, s.input_cursor as int, c);
            let typed = StateView {
                input_focused: true,
                input_buffer: s.input_buffer.insert(k, c),
                input_cursor: s.input_cursor + utf8_width(c),
                ..s
            };
            assert(offset_of(typed.input_buffer, k + 1, typed.input_cursor as int));
            lemma_synced_keeps_invariants(typed);
        },
        Action::Backspace => {
            if k >= 1 {
                crate::text::lemma_remove_before_boundary(s.input_buffer, k, s.input_cursor as int);
                assert(offset_of(erased(s).input_buffer, k - 1, erased(s).input_cursor as int));
                lemma_synced_keeps_invariants(erased(s));
            }
        },
        Action::Submit => {
            lemma_select_keeps_invariants(s);
        },
        Action::HistoryUp => {
            if s.history_index > 0 {
                lemma_boundary_range(s.history[s.history_index - 1], 0);
            }
        },
        Action::HistoryDown => {
            if s.history_index + 1 < s.history.len() {
                lemma_boundary_range(s.history[s.history_index + 1 as int], 0);
            }
        },
        Action::PaletteShow => {
            let slash = seq!['/'];
            assert(slash.take(1) == slash);
            lemma_width_ascii('/');
            assert(offset_of(slash, 1, 1));
            crate::commands::lemma_refiltered(
                PaletteView { visible: true, query: Seq::empty(), ..s.palette },
            );
        },
        Action::PaletteUp => {
            lemma_move_keeps_invariants(s, -1);
        },
        Action::PaletteDown => {
            lemma_move_keeps_invariants(s, 1);
        },
        Action::PaletteSelect => {
            lemma_select_keeps_invariants(s);
        },
        _ => {},
    }
}

/// Following the buffer keeps the invariants.
proof fn lemma_synced_keeps_invariants(s: StateView)
    requires
        s.wf(),
    ensures
        synced(s).wf(),
{
    crate::commands::lemma_refiltered(
        PaletteView { query: after_first_byte(s.input_buffer), ..s.palette },
    );
}

/// Taking the highlighted command keeps the invariants.
proof fn lemma_select_keeps_invariants(s: StateView)
    requires
        s.wf(),
    ensures
        after_palette_select(s).wf(),
{
    if let Some(command) = s.palette.selected() {
        lemma_boundary_range(command.name, 0);
    }
}

/// Moving the highlight keeps it within the list.
proof fn lemma_move_keeps_invariants(s: StateView, delta: int)
    requires
        s.wf(),
    ensures
        after_palette_move(s, delta).wf(),
{
    let len = s.palette.filtered.len() as int;
    if len > 0 {
        vstd::arithmetic::div_mod::lemma_mod_bound(s.palette.selected_index + len + delta, len);
    }
}

/// Whenever the filtered list is recomputed the highlight is on the first
/// entry afterwards: an action either leaves the palette's query, commands and
/// list alone, or leaves the palette freshly filtered with nothing highlighted
/// but the first entry.
pub proof fn lemma_recompute_resets_highlight(s: StateView, action: Action)
    requires
        s.wf(),
    ensures
        ({
            let before = s.palette;
            let after = step_state(s, action).palette;
            ||| (after.query == before.query && after.commands == before.commands
                && after.filtered == before.filtered)
            ||| (after == refiltered(after) && after.selected_index == 0)
        }),
{
    let k = char_index(s.input_buffer, s.input_cursor as int);
    match action {
        Action::Char(c) => {
            let typed = StateView {
                input_focused: true,
                input_buffer: s.input_buffer.insert(k, c),
                input_cursor: s.input_cursor + utf8_width(c),
                ..s
            };
            crate::commands::lemma_refiltered(
                PaletteView { query: after_first_byte(typed.input_buffer), ..s.palette },
            );
        },
        Action::Backspace => {
            crate::commands::lemma_refiltered(
                PaletteView { query: after_first_byte(erased(s).input_buffer), ..s.palette },
            );
        },
        Action::PaletteShow => {
            crate::commands::lemma_refiltered(
                PaletteView { visible: true, query: Seq::empty(), ..s.palette },
            );
        },
        _ => {},
    }
}

/// Single flight: while a request is outstanding, Submit sends no second one
/// and touches neither the history nor the transcript, and the wait goes on.
/// Unless the palette is open with something to complete, it changes nothing
/// at all.
pub proof fn lemma_single_flight(s: StateView)
    requires
        s.loading,
    ensures
        request_of(s, Action::Submit) is None,
        step_state(s, Action::Submit).history == s.history,
        step_state(s, Action::Submit).history_index == s.history_index,
        step_state(s, Action::Submit).chat == s.chat,
        step_state(s, Action::Submit).loading,
        !quits(s, Action::Submit),
        !(s.palette.visible && s.palette.filtered.len() > 0) ==> step_state(s, Action::Submit)
            == s,
{
}

/// Completion: with the palette open on a list that is not empty, Submit on
/// a line that is not blank takes the highlighted command. Its name becomes the
/// input, the cursor stands at its end and the palette closes; no request is
/// sent, and the wait, the history and the transcript stay as they are.
pub proof fn lemma_submit_completes(s: StateView)
    requires
        s.wf(),
        s.palette.visible,
        s.palette.filtered.len() > 0,
        submitted_line(s).len() > 0,
    ensures
        ({
            let after = step_state(s, Action::Submit);
            let name = s.palette.commands[s.palette.filtered[s.palette.selected_index as int] as int].name;
            &&& !after.palette.visible
            &&& after.input_buffer == name
            &&& after.input_cursor == utf8_len(name)
            &&& after.loading == s.loading
            &&& after.history == s.history
            &&& after.history_index == s.history_index
            &&& after.chat == s.chat
        }),
        request_of(s, Action::Submit) is None,
        !quits(s, Action::Submit),
{
}

/// A quit phrase is answered on the spot: the line and a farewell join the
/// transcript, the session is to end, no request is sent and no wait begins.
pub proof fn lemma_farewell_is_local(s: StateView)
    requires
        submission(s) is Farewell,
    ensures
        request_of(s, Action::Submit) is None,
        quits(s, Action::Submit),
        !step_state(s, Action::Submit).loading,
        step_state(s, Action::Submit).chat.messages == s.chat.messages.push(
            MessageView { role: MessageRole::User, content: normalized(submitted_line(s)) },
        ).push(MessageView { role: MessageRole::OpenX, content: "Goodbye."@ }),
{
}

/// `quit` and `exit`, submitted at rest with the palette closed, are quit
/// phrases.
pub proof fn lemma_quit_and_exit_end_the_session(s: StateView)
    requires
        s.input_buffer == "quit"@ || s.input_buffer == "exit"@,
        !s.loading,
        !s.palette.visible,
    ensures
        submitted_line(s) == s.input_buffer,
        normalized(submitted_line(s)) == s.input_buffer,
        submission(s) is Farewell,
{
    reveal_strlit("quit");
    reveal_strlit("exit");
    let line = s.input_buffer;
    assert(line.len() == 4);
    assert(!crate::text::is_whitespace(line.first()));
    assert(!crate::text::is_whitespace(line.last()));
    assert(crate::text::trim_start(line) == line);
    assert(crate::text::trim_end(line) == line);
    assert(trimmed(line) == line);
}

/// One answer is one message: an outcome that comes in joins the transcript
/// as exactly one agent message that holds its text, whatever the text says,
/// and the wait is over.
pub proof fn lemma_answer_joins_transcript(s: StateView, text: Seq<char>)
    ensures
        after_results(s, seq![text]).chat.messages == s.chat.messages.push(
            MessageView { role: MessageRole::OpenX, content: text },
        ),
        !after_results(s, seq![text]).loading,
        after_results(s, seq![text]).history == s.history,
        after_results(s, seq![text]).input_buffer == s.input_buffer,
{
    let answer = |text: Seq<char>| MessageView { role: MessageRole::OpenX, content: text };
    assert(seq![text].map_values(answer) == seq![answer(text)]);
}

/// A new wait starts only from rest, and only by Submit: if the state is
/// waiting after an action it was waiting before, or the action was a Submit
/// that sent a request.
pub proof fn lemma_loading_starts_with_request(s: StateView, action: Action)
    ensures
        step_state(s, action).loading ==> s.loading || request_of(s, action) is Some,
        request_of(s, action) is Some ==> !s.loading && step_state(s, action).loading,
{
}

/// History adjacency. An accepted submission leaves its line as the newest
/// entry of the history, appended unless it was the newest entry already. So
/// the same line accepted twice in a row is recorded once, and two different
/// lines are both recorded.
pub proof fn lemma_history_adjacency(first: StateView, second: StateView)
    requires
        submission(first) is Request || submission(first) is Farewell,
        submission(second) is Request || submission(second) is Farewell,
        second.history == step_state(first, Action::Submit).history,
    ensures
        step_state(first, Action::Submit).history == recorded(first.history, submitted_line(first)),
        step_state(first, Action::Submit).history.last() == submitted_line(first),
        !(first.history.len() > 0 && first.history.last() == submitted_line(first))
            ==> step_state(first, Action::Submit).history == first.history.push(
            submitted_line(first),
        ),
        submitted_line(second) == submitted_line(first) ==> step_state(
            second,
            Action::Submit,
        ).history == second.history,
        submitted_line(second) != submitted_line(first) ==> step_state(
            second,
            Action::Submit,
        ).history == second.history.push(submitted_line(second)),
{
}

/// While the palette is open Backspace never removes the first character of
/// the input buffer. With the cursor right behind a leading `/` it changes
/// nothing at all.
pub proof fn lemma_backspace_keeps_prefix(s: StateView)
    requires
        s.wf(),
        s.palette.visible,
        s.input_buffer.len() > 0,
    ensures
        step_state(s, Action::Backspace).input_buffer.len() > 0,
        step_state(s, Action::Backspace).input_buffer.first() == s.input_buffer.first(),
        s.input_buffer.first() == '/' && s.input_cursor == 1 ==> step_state(s, Action::Backspace)
            == s,
{
    let text = s.input_buffer;
    let k = char_index(text, s.input_cursor as int);
    assert(offset_of(text, k, s.input_cursor as int));
    if text.first() == '/' && s.input_cursor == 1 {
        assert(text.take(1) == seq!['/']);
        lemma_width_ascii('/');
        lemma_char_index(text, 1, 1);
    }
}

/// The palette is anchored when, while it is open, the input buffer starts
/// with `/` and the cursor stands behind that `/`.
pub open spec fn anchored(s: StateView) -> bool {
    s.palette.visible ==> s.input_buffer.len() > 0 && s.input_buffer.first() == '/' && char_index(
        s.input_buffer,
        s.input_cursor as int,
    ) >= 1
}

/// The palette starts anchored and stays anchored whatever the action, so the
/// query of an open palette is always what follows the leading `/`.
pub proof fn lemma_palette_stays_anchored(s: StateView, action: Action)
    requires
        s.wf(),
        anchored(s),
    ensures
        anchored(crate::state::initial_state()),
        anchored(step_state(s, action)),
{
    let text = s.input_buffer;
    let k = char_index(text, s.input_cursor as int);
    assert(offset_of(text, k, s.input_cursor as int));
    match action {
        Action::Char(c) => {
            crate::text::lemma_insert_at_boundary(text, k, s.input_cursor as int, c);
            lemma_char_index(text.insert(k, c), k + 1, s.input_cursor + utf8_width(c) as int);
        },
        Action::Backspace => {
            if k >= 2 {
                crate::text::lemma_remove_before_boundary(text, k, s.input_cursor as int);
                lemma_char_index(
                    text.remove(k - 1),
                    k - 1,
                    s.input_cursor - utf8_width(text[k - 1]),
                );
            }
        },
        Action::PaletteShow => {
            let slash = seq!['/'];
            assert(slash.take(1) == slash);
            lemma_width_ascii('/');
            lemma_char_index(slash, 1, 1);
        },
        _ => {},
    }
}

} // verus!
