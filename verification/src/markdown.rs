//! Markdown events to styled lines: headings, code blocks, inline code,
//! emphasis, lists and horizontal rules.
//!
//! A parser reads the text and reports what it finds as a sequence of
//! [`MdEvent`]s. [`to_lines`] lays that sequence out as [`Block`]s: lines of
//! styled spans, and code blocks for a highlighter to fill in.

use crate::text::{decimal, decimal_of, string_push};
use vstd::prelude::*;
use vstd::string::StringExecFns;

verus! {

/// What a markdown parser reports, as far as the layout reads it.
#[derive(Clone, Debug, PartialEq, Eq)]
pub enum MdEvent {
    /// A fenced code block opens; the text is what follows the fence.
    CodeBlockStart(String),
    /// A code block closes, fenced or not.
    CodeBlockEnd,
    /// A heading of the given level opens.
    HeadingStart(u8),
    HeadingEnd,
    /// A list opens; a number is the first index of an ordered list.
    ListStart(Option<u64>),
    ListEnd,
    ItemStart,
    ItemEnd,
    Text(String),
    /// Inline code.
    Code(String),
    /// Strong or plain emphasis opens.
    EmphasisStart,
    EmphasisEnd,
    /// A line break, soft or hard.
    Break,
    ParagraphEnd,
    /// A horizontal rule.
    Rule,
    /// Anything else.
    Other,
}

/// How a span is to be drawn.
#[derive(Clone, Copy, Debug, PartialEq, Eq, Structural)]
pub enum SpanStyle {
    /// Body text.
    Body,
    /// Emphasized body text.
    Bold,
    /// Heading text and heading markers.
    Heading,
    /// Inline code.
    InlineCode,
    /// List bullets and numbers.
    Bullet,
    /// Horizontal rules.
    Rule,
    /// Text without a style of its own.
    Plain,
}

/// A run of text in one style.
#[derive(Clone, Debug, PartialEq, Eq)]
pub struct StyledSpan {
    pub text: String,
    pub style: SpanStyle,
}

/// One piece of laid-out markdown.
#[derive(Clone, Debug, PartialEq, Eq)]
pub enum Block {
    /// One line of styled spans.
    Line(Vec<StyledSpan>),
    /// A fenced code block: what followed the fence, and the chunks of text inside.
    Code { lang: String, lines: Vec<String> },
}

/// An event with its texts as character sequences.
pub enum EventView {
    CodeBlockStart(Seq<char>),
    CodeBlockEnd,
    HeadingStart(u8),
    HeadingEnd,
    ListStart(Option<u64>),
    ListEnd,
    ItemStart,
    ItemEnd,
    Text(Seq<char>),
    Code(Seq<char>),
    EmphasisStart,
    EmphasisEnd,
    Break,
    ParagraphEnd,
    Rule,
    Other,
}

impl View for MdEvent {
    type V = EventView;

    open spec fn view(&self) -> EventView {
        match *self {
            MdEvent::CodeBlockStart(lang) => EventView::CodeBlockStart(lang@),
            MdEvent::CodeBlockEnd => EventView::CodeBlockEnd,
            MdEvent::HeadingStart(level) => EventView::HeadingStart(level),
            MdEvent::HeadingEnd => EventView::HeadingEnd,
            MdEvent::ListStart(first) => EventView::ListStart(first),
            MdEvent::ListEnd => EventView::ListEnd,
            MdEvent::ItemStart => EventView::ItemStart,
            MdEvent::ItemEnd => EventView::ItemEnd,
            MdEvent::Text(text) => EventView::Text(text@),
            MdEvent::Code(text) => EventView::Code(text@),
            MdEvent::EmphasisStart => EventView::EmphasisStart,
            MdEvent::EmphasisEnd => EventView::EmphasisEnd,
            MdEvent::Break => EventView::Break,
            MdEvent::ParagraphEnd => EventView::ParagraphEnd,
            MdEvent::Rule => EventView::Rule,
            MdEvent::Other => EventView::Other,
        }
    }
}

/// A span as a mathematical value.
#[verifier::ext_equal]
pub struct SpanView {
    pub text: Seq<char>,
    pub style: SpanStyle,
}

impl View for StyledSpan {
    type V = SpanView;

    open spec fn view(&self) -> SpanView {
        SpanView { text: self.text@, style: self.style }
    }
}

/// A block as a mathematical value.
#[verifier::ext_equal]
pub enum BlockView {
    Line(Seq<SpanView>),
    Code { lang: Seq<char>, lines: Seq<Seq<char>> },
}

/// The views of a run of spans.
pub open spec fn spans_view(spans: Seq<StyledSpan>) -> Seq<SpanView> {
    spans.map_values(|s: StyledSpan| s@)
}

impl View for Block {
    type V = BlockView;

    open spec fn view(&self) -> BlockView {
        match *self {
            Block::Line(spans) => BlockView::Line(spans_view(spans@)),
            Block::Code { lang, lines } => BlockView::Code {
                lang: lang@,
                lines: lines@.map_values(|s: String| s@),
            },
        }
    }
}

/// The views of a run of blocks.
pub open spec fn blocks_view(blocks: Seq<Block>) -> Seq<BlockView> {
    blocks.map_values(|b: Block| b@)
}

/// The views of a run of events.
pub open spec fn events_view(events: Seq<MdEvent>) -> Seq<EventView> {
    events.map_values(|e: MdEvent| e@)
}

/// Where the layout stands between two events.
#[verifier::ext_equal]
pub struct Layout {
    /// The blocks that are complete.
    pub blocks: Seq<BlockView>,
    /// The spans of the line that is being put together.
    pub current: Seq<SpanView>,
    /// The fenced code block that is open, if one is: its language and the
    /// chunks of text collected so far.
    pub code: Option<(Seq<char>, Seq<Seq<char>>)>,
    pub bold: bool,
    pub in_heading: bool,
    /// How many lists are open.
    pub list_depth: nat,
    /// The number of the next item, inside an ordered list.
    pub ordered_index: Option<u64>,
}

/// The layout before the first event.
pub open spec fn empty_layout() -> Layout {
    Layout {
        blocks: Seq::empty(),
        current: Seq::empty(),
        code: None,
        bold: false,
        in_heading: false,
        list_depth: 0,
        ordered_index: None,
    }
}

/// The layout with the line in the making closed, if it holds anything.
pub open spec fn flushed(l: Layout) -> Layout {
    if l.current.len() > 0 {
        Layout { blocks: l.blocks.push(BlockView::Line(l.current)), current: Seq::empty(), ..l }
    } else {
        l
    }
}

/// The layout with one more span on the line in the making.
pub open spec fn with_span(l: Layout, text: Seq<char>, style: SpanStyle) -> Layout {
    Layout { current: l.current.push(SpanView { text, style }), ..l }
}

/// The marker in front of a heading of the given level.
pub open spec fn heading_marker(level: u8) -> Seq<char> {
    if level <= 1 {
        "# "@
    } else if level == 2 {
        "## "@
    } else if level == 3 {
        "### "@
    } else {
        "#### "@
    }
}

/// `n` times two spaces.
pub open spec fn indent_of(n: nat) -> Seq<char> {
    Seq::new(2 * n, |i: int| ' ')
}

/// What stands in front of a list item: two spaces for each list around the
/// innermost one, then the number of the item and a dot in an ordered list, a
/// bullet in a list at the top, and a hollow bullet in a nested one.
pub open spec fn item_marker(depth: nat, ordered_index: Option<u64>) -> Seq<char> {
    let indent = indent_of(
        if depth > 0 {
            (depth - 1) as nat
        } else {
            0
        },
    );
    match ordered_index {
        Some(index) => indent + decimal_of(index as nat) + ". "@,
        None => if depth <= 1 {
            indent + "\u{2022} "@
        } else {
            indent + "\u{25e6} "@
        },
    }
}

/// The line that stands for a horizontal rule.
pub open spec fn rule_text() -> Seq<char> {
    Seq::new(40, |i: int| '\u{2500}')
}

/// The number after `index`; the largest number is its own successor.
pub open spec fn next_index(index: u64) -> u64 {
    if index == u64::MAX {
        index
    } else {
        (index + 1) as u64
    }
}

/// The layout after one more event.
pub open spec fn laid_out(l: Layout, event: EventView) -> Layout {
    match event {
        EventView::CodeBlockStart(lang) => Layout { code: Some((lang, Seq::empty())), ..flushed(l) },
        EventView::CodeBlockEnd => match l.code {
            Some((lang, lines)) => Layout {
                blocks: l.blocks.push(BlockView::Code { lang, lines }),
                code: None,
                ..l
            },
            None => l,
        },
        EventView::HeadingStart(level) => with_span(
            Layout { in_heading: true, ..flushed(l) },
            heading_marker(level),
            SpanStyle::Heading,
        ),
        EventView::HeadingEnd => flushed(Layout { in_heading: false, ..l }),
        EventView::ListStart(first) => Layout {
            list_depth: l.list_depth + 1,
            ordered_index: first,
            ..flushed(l)
        },
        EventView::ListEnd => Layout {
            list_depth: if l.list_depth > 0 {
                (l.list_depth - 1) as nat
            } else {
                0
            },
            ordered_index: if l.list_depth <= 1 {
                None
            } else {
                l.ordered_index
            },
            ..l
        },
        EventView::ItemStart => Layout {
            ordered_index: match l.ordered_index {
                Some(index) => Some(next_index(index)),
                None => None,
            },
            ..with_span(l, item_marker(l.list_depth, l.ordered_index), SpanStyle::Bullet)
        },
        EventView::ItemEnd => flushed(l),
        EventView::Text(text) => match l.code {
            Some((lang, lines)) => Layout { code: Some((lang, lines.push(text))), ..l },
            None => with_span(
                l,
                text,
                if l.in_heading {
                    SpanStyle::Heading
                } else if l.bold {
                    SpanStyle::Bold
                } else {
                    SpanStyle::Body
                },
            ),
        },
        EventView::Code(text) => with_span(l, seq![' '] + text + seq![' '], SpanStyle::InlineCode),
        EventView::EmphasisStart => Layout { bold: true, ..l },
        EventView::EmphasisEnd => Layout { bold: false, ..l },
        EventView::Break => flushed(l),
        EventView::ParagraphEnd => flushed(l),
        EventView::Rule => {
            let f = flushed(l);
            Layout {
                blocks: f.blocks.push(
                    BlockView::Line(seq![SpanView { text: rule_text(), style: SpanStyle::Rule }]),
                ),
                ..f
            }
        },
        EventView::Other => l,
    }
}

/// The layout after a run of events.
pub open spec fn layout_after(events: Seq<EventView>) -> Layout
    decreases events.len(),
{
    if events.len() == 0 {
        empty_layout()
    } else {
        laid_out(layout_after(events.drop_last()), events.last())
    }
}

/// The blocks that a run of events lays out to: those of the layout after the
/// last event, the line in the making closed. Where that leaves nothing, the
/// result is one empty line.
pub open spec fn rendered(events: Seq<EventView>) -> Seq<BlockView> {
    let blocks = flushed(layout_after(events)).blocks;
    if blocks.len() == 0 {
        seq![BlockView::Line(seq![SpanView { text: Seq::empty(), style: SpanStyle::Plain }])]
    } else {
        blocks
    }
}

/// The state of the layout while it runs.
struct Progress {
    blocks: Vec<Block>,
    current: Vec<StyledSpan>,
    in_code_block: bool,
    code_block_lang: String,
    code_block_lines: Vec<String>,
    bold: bool,
    in_heading: bool,
    list_depth: usize,
    ordered_index: Option<u64>,
}

impl View for Progress {
    type V = Layout;

    closed spec fn view(&self) -> Layout {
        Layout {
            blocks: blocks_view(self.blocks@),
            current: spans_view(self.current@),
            code: if self.in_code_block {
                Some((self.code_block_lang@, self.code_block_lines@.map_values(|s: String| s@)))
            } else {
                None
            },
            bold: self.bold,
            in_heading: self.in_heading,
            list_depth: self.list_depth as nat,
            ordered_index: self.ordered_index,
        }
    }
}

impl Progress {
    /// Close the line in the making, if it holds anything.
    fn flush(&mut self)
        ensures
            final(self)@ == flushed(old(self)@),
    {
        if self.current.len() > 0 {
            let mut line: Vec<StyledSpan> = Vec::new();
            std::mem::swap(&mut self.current, &mut line);
            let block = Block::Line(line);
            assert(blocks_view(self.blocks@.push(block)) == blocks_view(self.blocks@).push(block@));
            assert(spans_view(self.current@) == Seq::<SpanView>::empty());
            self.blocks.push(block);
        }
    }

    /// Put one more span on the line in the making.
    fn push_span(&mut self, text: String, style: SpanStyle)
        ensures
            final(self)@ == with_span(old(self)@, text@, style),
    {
        let span = StyledSpan { text, style };
        assert(spans_view(self.current@.push(span)) == spans_view(self.current@).push(span@));
        self.current.push(span);
    }
}

/// The marker in front of a heading.
fn heading_prefix(level: u8) -> (marker: &'static str)
    ensures
        marker@ == heading_marker(level),
{
    if level <= 1 {
        "# "
    } else if level == 2 {
        "## "
    } else if level == 3 {
        "### "
    } else {
        "#### "
    }
}

/// A string of `n` times the character `c`.
fn repeated(c: char, n: usize) -> (text: String)
    ensures
        text@ == Seq::new(n as nat, |i: int| c),
{
    let mut text = String::new();
    let mut i: usize = 0;
    while i < n
        invariant
            i <= n,
            text@ == Seq::new(i as nat, |j: int| c),
        decreases n - i,
    {
        string_push(&mut text, c);
        i += 1;
    }
    text
}

/// What stands in front of a list item.
fn item_prefix(depth: usize, ordered_index: Option<u64>) -> (marker: String)
    ensures
        marker@ == item_marker(depth as nat, ordered_index),
{
    let mut marker = String::new();
    let mut i: usize = 1;
    while i < depth
        invariant
            1 <= i,
            i == 1 || i <= depth,
            marker@ == indent_of((i - 1) as nat),
        decreases depth - i,
    {
        string_push(&mut marker, ' ');
        string_push(&mut marker, ' ');
        i += 1;
    }
    match ordered_index {
        Some(index) => {
            marker.append(decimal(index).as_str());
            marker.append(". ");
        },
        None => {
            if depth <= 1 {
                marker.append("\u{2022} ");
            } else {
                marker.append("\u{25e6} ");
            }
        },
    }
    marker
}

/// Lay markdown events out as blocks.
pub fn to_lines(events: &Vec<MdEvent>) -> (blocks: Vec<Block>)
    ensures
        blocks_view(blocks@) == rendered(events_view(events@)),
{
    let ghost views = events_view(events@);
    let mut p = Progress {
        blocks: Vec::new(),
        current: Vec::new(),
        in_code_block: false,
        code_block_lang: String::new(),
        code_block_lines: Vec::new(),
        bold: false,
        in_heading: false,
        list_depth: 0,
        ordered_index: None,
    };
    let mut i: usize = 0;
    proof {
        assert(views.take(0) == Seq::<EventView>::empty());
        assert(p@ == empty_layout());
    }
    while i < events.len()
        invariant
            i <= events.len(),
            views == events_view(events@),
            p@ == layout_after(views.take(i as int)),
            p.list_depth <= i,
        decreases events.len() - i,
    {
        proof {
            assert(views.take(i + 1).drop_last() == views.take(i as int));
            assert(views.take(i + 1).last() == events@[i as int]@);
        }
        match &events[i] {
            MdEvent::CodeBlockStart(lang) => {
                p.flush();
                p.in_code_block = true;
                p.code_block_lines = Vec::new();
                p.code_block_lang = lang.clone();
            },
            MdEvent::CodeBlockEnd => {
                if p.in_code_block {
                    let mut lang = String::new();
                    let mut lines: Vec<String> = Vec::new();
                    std::mem::swap(&mut p.code_block_lang, &mut lang);
                    std::mem::swap(&mut p.code_block_lines, &mut lines);
                    let block = Block::Code { lang, lines };
                    assert(blocks_view(p.blocks@.push(block)) == blocks_view(p.blocks@).push(
                        block@,
                    ));
                    p.blocks.push(block);
                    p.in_code_block = false;
                }
            },
            MdEvent::HeadingStart(level) => {
                p.flush();
                p.in_heading = true;
                p.push_span(heading_prefix(*level).to_owned(), SpanStyle::Heading);
            },
            MdEvent::HeadingEnd => {
                p.in_heading = false;
                p.flush();
            },
            MdEvent::ListStart(first) => {
                p.flush();
                p.list_depth += 1;
                p.ordered_index = *first;
            },
            MdEvent::ListEnd => {
                p.list_depth = p.list_depth.saturating_sub(1);
                if p.list_depth == 0 {
                    p.ordered_index = None;
                }
            },
            MdEvent::ItemStart => {
                let marker = item_prefix(p.list_depth, p.ordered_index);
                if let Some(index) = p.ordered_index {
                    p.ordered_index = Some(index.saturating_add(1));
                }
                p.push_span(marker, SpanStyle::Bullet);
            },
            MdEvent::ItemEnd => {
                p.flush();
            },
            MdEvent::Text(text) => {
                if p.in_code_block {
                    let chunk = text.clone();
                    assert(p.code_block_lines@.push(chunk).map_values(|s: String| s@)
                        == p.code_block_lines@.map_values(|s: String| s@).push(chunk@));
                    p.code_block_lines.push(chunk);
                } else {
                    let style = if p.in_heading {
                        SpanStyle::Heading
                    } else if p.bold {
                        SpanStyle::Bold
                    } else {
                        SpanStyle::Body
                    };
                    p.push_span(text.clone(), style);
                }
            },
            MdEvent::Code(text) => {
                let mut padded = String::new();
                string_push(&mut padded, ' ');
                padded.append(text.as_str());
                string_push(&mut padded, ' ');
                assert(padded@ == seq![' '] + text@ + seq![' ']);
                p.push_span(padded, SpanStyle::InlineCode);
            },
            MdEvent::EmphasisStart => {
                p.bold = true;
            },
            MdEvent::EmphasisEnd => {
                p.bold = false;
            },
            MdEvent::Break => {
                p.flush();
            },
            MdEvent::ParagraphEnd => {
                p.flush();
            },
            MdEvent::Rule => {
                p.flush();
                let span = StyledSpan { text: repeated('\u{2500}', 40), style: SpanStyle::Rule };
                let mut line: Vec<StyledSpan> = Vec::new();
                line.push(span);
                let block = Block::Line(line);
                assert(spans_view(line@) == seq![span@]);
                assert(blocks_view(p.blocks@.push(block)) == blocks_view(p.blocks@).push(block@));
                p.blocks.push(block);
            },
            MdEvent::Other => {},
        }
        i += 1;
    }
    proof {
        assert(views.take(i as int) == views);
    }
    p.flush();
    if p.blocks.len() == 0 {
        let span = StyledSpan { text: String::new(), style: SpanStyle::Plain };
        let mut line: Vec<StyledSpan> = Vec::new();
        line.push(span);
        let block = Block::Line(line);
        assert(spans_view(line@) == seq![span@]);
        assert(blocks_view(p.blocks@.push(block)) == blocks_view(p.blocks@).push(block@));
        p.blocks.push(block);
    }
    p.blocks
}

} // verus!
