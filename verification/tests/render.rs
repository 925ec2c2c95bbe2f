use openx_tui::backend::{endpoint_url, http_failure};
use openx_tui::git::{git_branch, git_diff_preview};
use openx_tui::markdown::{to_lines, Block, MdEvent, SpanStyle, StyledSpan};
use openx_tui::services::{format_output, pretty_or_placeholder};
use openx_tui::state::{AppState, PaletteState};
use openx_tui::text::{decimal, is_char_offset};
use serde_json::{Number, Value};

fn span(text: &str, style: SpanStyle) -> StyledSpan {
    StyledSpan { text: text.to_string(), style }
}

fn line(spans: Vec<StyledSpan>) -> Block {
    Block::Line(spans)
}

fn text(s: &str) -> MdEvent {
    MdEvent::Text(s.to_string())
}

#[test]
fn markdown_of_nothing_is_one_empty_line() {
    assert_eq!(to_lines(&vec![]), vec![line(vec![span("", SpanStyle::Plain)])]);
    assert_eq!(
        to_lines(&vec![MdEvent::Other, MdEvent::ParagraphEnd, MdEvent::EmphasisStart]),
        vec![line(vec![span("", SpanStyle::Plain)])]
    );
}

#[test]
fn markdown_paragraphs_and_breaks() {
    let events = vec![
        MdEvent::Other,
        text("one "),
        MdEvent::EmphasisStart,
        text("bold"),
        MdEvent::EmphasisEnd,
        text(" two"),
        MdEvent::Break,
        text("next"),
        MdEvent::ParagraphEnd,
        text("unfinished"),
    ];
    assert_eq!(
        to_lines(&events),
        vec![
            line(vec![
                span("one ", SpanStyle::Body),
                span("bold", SpanStyle::Bold),
                span(" two", SpanStyle::Body),
            ]),
            line(vec![span("next", SpanStyle::Body)]),
            line(vec![span("unfinished", SpanStyle::Body)]),
        ]
    );
}

#[test]
fn markdown_headings() {
    let mut events = Vec::new();
    for level in 0..=6u8 {
        events.push(MdEvent::HeadingStart(level));
        events.push(text("Title"));
        events.push(MdEvent::HeadingEnd);
    }
    let markers = ["# ", "# ", "## ", "### ", "#### ", "#### ", "#### "];
    let expected: Vec<Block> = markers
        .iter()
        .map(|m| line(vec![span(m, SpanStyle::Heading), span("Title", SpanStyle::Heading)]))
        .collect();
    assert_eq!(to_lines(&events), expected);
    // Heading style wins over emphasis, and ends with the heading.
    let events = vec![
        text("before"),
        MdEvent::HeadingStart(2),
        MdEvent::EmphasisStart,
        text("T"),
        MdEvent::HeadingEnd,
        text("after"),
    ];
    assert_eq!(
        to_lines(&events),
        vec![
            line(vec![span("before", SpanStyle::Body)]),
            line(vec![span("## ", SpanStyle::Heading), span("T", SpanStyle::Heading)]),
            line(vec![span("after", SpanStyle::Bold)]),
        ]
    );
}

#[test]
fn markdown_code_blocks() {
    let events = vec![
        text("see"),
        MdEvent::CodeBlockStart("rust".to_string()),
        text("fn main() {}\n"),
        text("// done\n"),
        MdEvent::CodeBlockEnd,
        MdEvent::CodeBlockEnd,
        MdEvent::Code("x + 1".to_string()),
    ];
    assert_eq!(
        to_lines(&events),
        vec![
            line(vec![span("see", SpanStyle::Body)]),
            Block::Code {
                lang: "rust".to_string(),
                lines: vec!["fn main() {}\n".to_string(), "// done\n".to_string()],
            },
            line(vec![span(" x + 1 ", SpanStyle::InlineCode)]),
        ]
    );
    // A second block starts empty; a block that never closes is dropped.
    let events = vec![
        MdEvent::CodeBlockStart(String::new()),
        text("a"),
        MdEvent::CodeBlockEnd,
        MdEvent::CodeBlockStart("py".to_string()),
        MdEvent::CodeBlockEnd,
        MdEvent::CodeBlockStart("sh".to_string()),
        text("lost"),
    ];
    assert_eq!(
        to_lines(&events),
        vec![
            Block::Code { lang: String::new(), lines: vec!["a".to_string()] },
            Block::Code { lang: "py".to_string(), lines: vec![] },
        ]
    );
}

#[test]
fn markdown_lists() {
    let events = vec![
        MdEvent::ListStart(None),
        MdEvent::ItemStart,
        text("top"),
        MdEvent::ListStart(Some(9)),
        MdEvent::ItemStart,
        text("nine"),
        MdEvent::ItemEnd,
        MdEvent::ItemStart,
        text("ten"),
        MdEvent::ItemEnd,
        MdEvent::ListStart(None),
        MdEvent::ItemStart,
        text("deep"),
        MdEvent::ItemEnd,
        MdEvent::ListEnd,
        MdEvent::ListEnd,
        MdEvent::ItemEnd,
        MdEvent::ItemStart,
        text("again"),
        MdEvent::ItemEnd,
        MdEvent::ListEnd,
        MdEvent::ItemStart,
        text("stray"),
    ];
    assert_eq!(
        to_lines(&events),
        vec![
            line(vec![span("• ", SpanStyle::Bullet), span("top", SpanStyle::Body)]),
            line(vec![span("  9. ", SpanStyle::Bullet), span("nine", SpanStyle::Body)]),
            line(vec![span("  10. ", SpanStyle::Bullet), span("ten", SpanStyle::Body)]),
            line(vec![span("    ◦ ", SpanStyle::Bullet), span("deep", SpanStyle::Body)]),
            line(vec![span("• ", SpanStyle::Bullet), span("again", SpanStyle::Body)]),
            line(vec![span("• ", SpanStyle::Bullet), span("stray", SpanStyle::Body)]),
        ]
    );
    let events = vec![
        MdEvent::ListStart(Some(u64::MAX)),
        MdEvent::ItemStart,
        MdEvent::ItemEnd,
        MdEvent::ItemStart,
        MdEvent::ItemEnd,
        MdEvent::ListEnd,
        MdEvent::ListEnd,
    ];
    let last = format!("{}. ", u64::MAX);
    assert_eq!(
        to_lines(&events),
        vec![line(vec![span(&last, SpanStyle::Bullet)]), line(vec![span(&last, SpanStyle::Bullet)])]
    );
}

#[test]
fn markdown_rule() {
    let events = vec![text("above"), MdEvent::Rule, MdEvent::Rule];
    let rule = "─".repeat(40);
    assert_eq!(
        to_lines(&events),
        vec![
            line(vec![span("above", SpanStyle::Body)]),
            line(vec![span(&rule, SpanStyle::Rule)]),
            line(vec![span(&rule, SpanStyle::Rule)]),
        ]
    );
}

#[test]
fn decimal_notation() {
    for n in [0u64, 1, 9, 10, 11, 99, 100, 12345, 1_000_000_007, u64::MAX] {
        assert_eq!(decimal(n), n.to_string());
    }
}

#[test]
fn char_offsets() {
    let s = "aé日𝄞";
    let boundaries = [0usize, 1, 3, 6, 10];
    for off in 0..=12 {
        assert_eq!(is_char_offset(s, off), boundaries.contains(&off));
        assert_eq!(is_char_offset(s, off), s.is_char_boundary(off));
    }
    assert!(is_char_offset("", 0));
    assert!(!is_char_offset("", 1));
    assert!(!is_char_offset("abc", usize::MAX));
}

#[test]
fn state_consistency() {
    let mut state = AppState::default();
    assert!(state.is_consistent());
    state.input_buffer = "é".to_string();
    state.input_cursor = 1;
    assert!(!state.is_consistent());
    state.input_cursor = 2;
    assert!(state.is_consistent());
    state.input_cursor = 3;
    assert!(!state.is_consistent());
    state.input_cursor = 0;
    state.history_index = 1;
    assert!(!state.is_consistent());
    state.history.push("x".to_string());
    assert!(state.is_consistent());
    state.palette.filtered = vec![0];
    assert!(!state.is_consistent());

    let mut palette = PaletteState::default();
    assert!(palette.is_consistent());
    palette.selected_index = 3;
    assert!(palette.is_consistent());
    palette.commands.push(openx_tui::state::CommandEntry {
        name: "a".to_string(),
        description: String::new(),
    });
    palette.filtered = vec![0];
    assert!(!palette.is_consistent());
    palette.selected_index = 0;
    assert!(palette.is_consistent());
    palette.filtered = vec![0, 1];
    assert!(!palette.is_consistent());
}

#[test]
fn endpoint_urls() {
    assert_eq!(endpoint_url("http://127.0.0.1:8000", "health"), "http://127.0.0.1:8000/health");
    assert_eq!(endpoint_url("http://host/", "/chat"), "http://host/chat");
    assert_eq!(endpoint_url("http://host///", "///a/b/"), "http://host/a/b/");
    assert_eq!(endpoint_url("", ""), "/");
    assert_eq!(endpoint_url("//", "//"), "/");
    assert_eq!(endpoint_url("http://host/api", "tools"), "http://host/api/tools");
}

#[test]
fn http_failures() {
    assert_eq!(
        http_failure("500 Internal Server Error", "boom"),
        "HTTP 500 Internal Server Error: boom"
    );
    assert_eq!(http_failure("404 Not Found", ""), "HTTP 404 Not Found: ");
}

#[test]
fn branch_names() {
    assert_eq!(git_branch(Some("main\n")), "main");
    assert_eq!(git_branch(Some("  feature/x \n")), "feature/x");
    assert_eq!(git_branch(Some("")), "detached");
    assert_eq!(git_branch(Some(" \n")), "detached");
    assert_eq!(git_branch(None), "no-git");
}

#[test]
fn diff_previews() {
    assert_eq!(git_diff_preview(None, 5), "No unstaged diff");
    assert_eq!(git_diff_preview(Some(""), 5), "No unstaged diff");
    assert_eq!(git_diff_preview(Some("a\nb\nc"), 0), "No unstaged diff");
    assert_eq!(git_diff_preview(Some("a\nb\nc\n"), 2), "a\nb");
    assert_eq!(git_diff_preview(Some("a\nb\nc\n"), 3), "a\nb\nc");
    assert_eq!(git_diff_preview(Some("a\nb\nc"), 10), "a\nb\nc");
    assert_eq!(git_diff_preview(Some("a\r\nb\r\n"), 10), "a\nb");
    assert_eq!(git_diff_preview(Some("\n\nx"), 10), "\n\nx");
    assert_eq!(git_diff_preview(Some("\n"), 10), "");
    assert_eq!(git_diff_preview(Some("a\rb\r"), 10), "a\rb\r");
    assert_eq!(git_diff_preview(Some("\r\n\r\r\nz"), 10), "\n\r\nz");
    for s in ["", "a", "a\n", "a\n\n", "\r\n", "x\r\ny", "x\ry\n", "é\n日\r\n𝄞", "\n\n\n"] {
        for n in 0..5 {
            let lines: Vec<&str> = s.lines().take(n).collect();
            let expected =
                if lines.is_empty() { "No unstaged diff".to_string() } else { lines.join("\n") };
            assert_eq!(git_diff_preview(Some(s), n), expected);
        }
    }
}

#[test]
fn output_formatting() {
    assert_eq!(format_output(None), "(no output)");
    assert_eq!(format_output(Some(Value::String("plain text".to_string()))), "plain text");
    assert_eq!(format_output(Some(Value::String(String::new()))), "");
    assert_eq!(format_output(Some(Value::Null)), "null");
    assert_eq!(format_output(Some(Value::Bool(true))), "true");
    assert_eq!(format_output(Some(Value::Number(Number::from(42)))), "42");
    let mut object = serde_json::Map::new();
    object.insert("a".to_string(), Value::Number(Number::from(1)));
    object.insert("b".to_string(), Value::Array(vec![Value::String("x".to_string())]));
    assert_eq!(
        format_output(Some(Value::Object(object))),
        "{\n  \"a\": 1,\n  \"b\": [\n    \"x\"\n  ]\n}"
    );
    assert_eq!(pretty_or_placeholder(Ok("{}".to_string())), "{}");
    let broken = serde_json::from_str::<Value>("{").unwrap_err();
    assert_eq!(pretty_or_placeholder(Err(broken)), "(invalid json)");
}
