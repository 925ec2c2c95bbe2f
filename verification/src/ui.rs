//! What a renderer needs decided before it can draw: layout constants, the
//! place of the palette overlay, the clamped scroll offset, clock labels,
//! truncated paths and the file extension that names a code block's syntax.
//! Drawing itself is done elsewhere.

use crate::app::minus_or_zero;
use crate::state::ChatState;
use crate::text::{
    chars_of, lowercase, str_eq, str_to_lowercase, str_trim, string_push, trimmed, DIGITS,
};
use std::time::{Duration, SystemTime};
use vstd::prelude::*;

verus! {

pub const HEADER_HEIGHT: u16 = 5;

pub const STATUS_HEIGHT: u16 = 1;

pub const INPUT_HEIGHT: u16 = 3;

/// Minimum number of lines for the chat area.
pub const MIN_CHAT_LINES: u16 = 4;

/// Blank lines between messages.
pub const MESSAGE_GAP: usize = 1;

/// Inner horizontal margin, in columns on each side.
pub const MARGIN_X: u16 = 1;

/// Greatest height of the command palette overlay, in lines.
pub const PALETTE_MAX_HEIGHT: u16 = 16;

/// Lines left free below the palette overlay inside the chat area.
pub const PALETTE_MARGIN_BOTTOM: u16 = 2;

/// Frames of the spinner, one per tick.
pub const SPINNER: [char; 10] = [
    '\u{280b}',
    '\u{2819}',
    '\u{2839}',
    '\u{2838}',
    '\u{283c}',
    '\u{2834}',
    '\u{2826}',
    '\u{2827}',
    '\u{2807}',
    '\u{280f}',
];

/// The spinner frame to show at `tick`.
pub fn spinner_frame(tick: usize) -> (frame: char)
    ensures
        frame == SPINNER@[tick as int % 10],
{
    SPINNER[tick % 10]
}

/// A rectangle of terminal cells.
#[derive(Clone, Copy, Debug, PartialEq, Eq, Structural)]
pub struct Rect {
    pub x: u16,
    pub y: u16,
    pub width: u16,
    pub height: u16,
}

/// `a + b`, or the largest `u16` where that is exceeded.
pub open spec fn capped_u16(n: int) -> int {
    if n > u16::MAX {
        u16::MAX as int
    } else {
        n
    }
}

/// Height of the palette overlay in a chat area of `chat_height` lines: what
/// the bottom margin leaves, but no more than [`PALETTE_MAX_HEIGHT`].
pub open spec fn overlay_height(chat_height: u16) -> nat {
    let room = minus_or_zero(chat_height as int, PALETTE_MARGIN_BOTTOM as int);
    if room < PALETTE_MAX_HEIGHT {
        room
    } else {
        PALETTE_MAX_HEIGHT as nat
    }
}

/// The rectangle of the palette overlay: as wide as the chat area and flush
/// with its bottom edge.
pub fn palette_overlay_rect(chat: Rect) -> (overlay: Rect)
    ensures
        overlay.x == chat.x,
        overlay.width == chat.width,
        overlay.height == overlay_height(chat.height),
        overlay.y == capped_u16(chat.y + chat.height - overlay_height(chat.height)),
{
    let room = chat.height.saturating_sub(PALETTE_MARGIN_BOTTOM);
    let max_h = if room < PALETTE_MAX_HEIGHT {
        room
    } else {
        PALETTE_MAX_HEIGHT
    };
    Rect {
        x: chat.x,
        y: chat.y.saturating_add(chat.height.saturating_sub(max_h)),
        width: chat.width,
        height: max_h,
    }
}

impl ChatState {
    /// The scroll offset to draw with: the stored offset, clamped so that a
    /// transcript of `total_lines` lines fills a viewport of
    /// `viewport_height` lines as far as it can.
    pub fn clamped_scroll(&self, total_lines: usize, viewport_height: usize) -> (scroll: usize)
        ensures
            scroll == if self@.scroll < minus_or_zero(total_lines as int, viewport_height as int) {
                self@.scroll
            } else {
                minus_or_zero(total_lines as int, viewport_height as int)
            },
    {
        let last = total_lines.saturating_sub(viewport_height);
        if self.scroll < last {
            self.scroll
        } else {
            last
        }
    }
}

// ---------------------------------------------------------------------------
// Clock labels
// ---------------------------------------------------------------------------
/// `HH:MM` for a time `secs` seconds after midnight of some day.
pub open spec fn clock_of(secs: u64) -> Seq<char> {
    let minutes = secs / 60;
    let hours = (minutes / 60) % 24;
    let rest = minutes % 60;
    seq![
        DIGITS@[hours as int / 10],
        DIGITS@[hours as int % 10],
        ':',
        DIGITS@[rest as int / 10],
        DIGITS@[rest as int % 10],
    ]
}

/// Format a number of seconds since the epoch as `HH:MM`.
pub fn format_clock(secs: u64) -> (label: String)
    ensures
        label@ == clock_of(secs),
{
    let minutes = secs / 60;
    let hours = ((minutes / 60) % 24) as usize;
    let rest = (minutes % 60) as usize;
    let mut label = String::new();
    string_push(&mut label, DIGITS[hours / 10]);
    string_push(&mut label, DIGITS[hours % 10]);
    string_push(&mut label, ':');
    string_push(&mut label, DIGITS[rest / 10]);
    string_push(&mut label, DIGITS[rest % 10]);
    label
}

/// `SystemTime::duration_since` the Unix epoch: the time that has passed
/// since the epoch, and `None` for a time before it.
#[verifier::external_body]
fn since_epoch(t: &SystemTime) -> Option<Duration> {
    t.duration_since(SystemTime::UNIX_EPOCH).ok()
}

/// `Duration::as_secs`: the whole seconds of a duration.
#[verifier::external_body]
fn whole_seconds(d: &Duration) -> u64 {
    d.as_secs()
}

/// Format a time as `HH:MM`. A time before the epoch reads `00:00`.
pub fn format_time(t: &SystemTime) -> (label: String)
    ensures
        exists|secs: u64| label@ == clock_of(secs),
{
    let secs = match since_epoch(t) {
        Some(elapsed) => whole_seconds(&elapsed),
        None => 0,
    };
    let label = format_clock(secs);
    assert(label@ == clock_of(secs));
    label
}

// ---------------------------------------------------------------------------
// Truncation
// ---------------------------------------------------------------------------
/// The end of `s` in at most `max_chars` characters: `s` itself if it is
/// short enough, else an ellipsis and as much of the end of `s` as fits
/// behind it.
pub open spec fn truncated_end(s: Seq<char>, max_chars: nat) -> Seq<char> {
    if s.len() <= max_chars {
        s
    } else {
        seq!['\u{2026}'] + s.skip(s.len() - minus_or_zero(max_chars as int, 1))
    }
}

/// Truncate to `max_chars` characters from the end, with an ellipsis in front.
pub fn truncate_end(s: &str, max_chars: usize) -> (short: String)
    ensures
        short@ == truncated_end(s@, max_chars as nat),
{
    let chars = chars_of(s);
    let count = chars.len();
    if count <= max_chars {
        return s.to_owned();
    }
    let take = max_chars.saturating_sub(1);
    let skip = count - take;
    let mut short = String::new();
    string_push(&mut short, '\u{2026}');
    let mut i = skip;
    while i < count
        invariant
            skip <= i <= count,
            count == chars.len(),
            short@ == seq!['\u{2026}'] + chars@.subrange(skip as int, i as int),
        decreases count - i,
    {
        string_push(&mut short, chars[i]);
        i += 1;
    }
    short
}

// ---------------------------------------------------------------------------
// Code block languages
// ---------------------------------------------------------------------------
/// Language names that a code fence may carry, each with the file extension
/// that stands for its syntax.
pub const LANGUAGES: [(&'static str, &'static str); 34] = [
    ("python", "py"),
    ("py", "py"),
    ("rust", "rs"),
    ("rs", "rs"),
    ("javascript", "js"),
    ("js", "js"),
    ("typescript", "ts"),
    ("ts", "ts"),
    ("tsx", "tsx"),
    ("jsx", "jsx"),
    ("go", "go"),
    ("java", "java"),
    ("ruby", "rb"),
    ("rb", "rb"),
    ("csharp", "cs"),
    ("cs", "cs"),
    ("c#", "cs"),
    ("cpp", "cpp"),
    ("c++", "cpp"),
    ("c", "c"),
    ("h", "h"),
    ("hpp", "hpp"),
    ("sql", "sql"),
    ("bash", "sh"),
    ("sh", "sh"),
    ("shell", "sh"),
    ("yaml", "yml"),
    ("yml", "yml"),
    ("json", "json"),
    ("toml", "toml"),
    ("html", "html"),
    ("css", "css"),
    ("markdown", "md"),
    ("md", "md"),
];

/// The extension of the first entry of [`LANGUAGES`] at or after `start`
/// that is named `name`, or `txt` if there is none.
pub open spec fn extension_from(name: Seq<char>, start: int) -> Seq<char>
    decreases 34 - start,
{
    if 0 <= start < 34 {
        if LANGUAGES@[start].0@ == name {
            LANGUAGES@[start].1@
        } else {
            extension_from(name, start + 1)
        }
    } else {
        "txt"@
    }
}

/// The extension for the language a code fence names: the name is trimmed
/// and lower-cased before it is looked up.
pub open spec fn extension_of(lang: Seq<char>) -> Seq<char> {
    extension_from(lowercase(trimmed(lang)), 0)
}

/// Map the language of a code block to the file extension of its syntax.
pub fn lang_to_ext(lang: &str) -> (ext: &'static str)
    ensures
        ext@ == extension_of(lang@),
{
    let name = str_to_lowercase(str_trim(lang));
    let mut i: usize = 0;
    while i < 34
        invariant
            i <= 34,
            extension_of(lang@) == extension_from(name@, i as int),
        decreases 34 - i,
    {
        if str_eq(name.as_str(), LANGUAGES[i].0) {
            return LANGUAGES[i].1;
        }
        i += 1;
    }
    "txt"
}

} // verus!
