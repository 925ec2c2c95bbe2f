use openx_tui::backend::{reply_text, ChatResponse, CONVERSATION_ID};
use openx_tui::commands::{
    is_match, rank_by_score, register_command, score_entry, update_palette_filter,
    BUILTIN_COMMANDS, MAX_SCORED_LEN, UNSCORED,
};
use openx_tui::services::{normalize_slash_command, SLASH_MAP};
use openx_tui::state::{AppState, ChatState, CommandEntry, Message, MessageRole, PaletteState};
use openx_tui::text::{
    count_lines, insert_char, locate, remove_char, strip_prefix, tail_after_first_byte,
};
use openx_tui::ui::{
    format_clock, format_time, lang_to_ext, palette_overlay_rect, spinner_frame, truncate_end,
    Rect,
};
use std::time::{Duration, SystemTime};

fn entry(name: &str, description: &str) -> CommandEntry {
    CommandEntry { name: name.to_string(), description: description.to_string() }
}

fn palette_of(entries: Vec<CommandEntry>, query: &str) -> PaletteState {
    let mut palette = PaletteState::default();
    palette.commands = entries;
    palette.query = query.to_string();
    palette.selected_index = 5;
    palette.filtered = vec![9, 9];
    palette
}

#[test]
fn normalize_leaves_plain_text_alone() {
    assert_eq!(normalize_slash_command("hello world"), "hello world");
    assert_eq!(normalize_slash_command("  hello  world \t"), "hello  world");
    assert_eq!(normalize_slash_command(""), "");
    assert_eq!(normalize_slash_command("   "), "");
    assert_eq!(normalize_slash_command("Quit"), "Quit");
    assert_eq!(normalize_slash_command("a /help"), "a /help");
}

#[test]
fn normalize_expands_shorthand() {
    assert_eq!(normalize_slash_command("/h"), "help");
    assert_eq!(normalize_slash_command("/?"), "help");
    assert_eq!(normalize_slash_command("/help"), "help");
    assert_eq!(normalize_slash_command("/prs octo/repo"), "list_prs octo/repo");
    assert_eq!(normalize_slash_command("/analyze-failure 42"), "analyze_ci_failure 42");
    assert_eq!(normalize_slash_command("/ask why"), "chat why");
    assert_eq!(normalize_slash_command("/reset"), "reset");
}

#[test]
fn normalize_folds_the_head_only() {
    assert_eq!(normalize_slash_command("/HELP"), "help");
    assert_eq!(normalize_slash_command("/Pr Octo/Repo 7"), "get_pr Octo/Repo 7");
    assert_eq!(normalize_slash_command("/NoSuch Thing"), "nosuch Thing");
}

#[test]
fn normalize_splits_at_any_whitespace_and_trims() {
    assert_eq!(normalize_slash_command("/pr\t7"), "get_pr 7");
    assert_eq!(normalize_slash_command("/pr\u{a0}7"), "get_pr 7");
    assert_eq!(normalize_slash_command("  /run    12   "), "get_workflow_run 12");
    assert_eq!(normalize_slash_command("/run \n 12 13"), "get_workflow_run 12 13");
    assert_eq!(normalize_slash_command("/help   "), "help");
}

#[test]
fn normalize_strips_slashes_of_unknown_commands() {
    assert_eq!(normalize_slash_command("/unknown x"), "unknown x");
    assert_eq!(normalize_slash_command("///deep"), "deep");
    assert_eq!(normalize_slash_command("/"), "");
    assert_eq!(normalize_slash_command("// x"), "x");
    assert_eq!(normalize_slash_command("/quit"), "quit");
}

fn white_space(c: char) -> bool {
    matches!(
        c as u32,
        0x09..=0x0D
            | 0x20
            | 0x85
            | 0xA0
            | 0x1680
            | 0x2000..=0x200A
            | 0x2028
            | 0x2029
            | 0x202F
            | 0x205F
            | 0x3000
    )
}

#[test]
fn normalize_knows_every_white_space_character() {
    for code in 0..0x20000u32 {
        let Some(c) = char::from_u32(code) else {
            continue;
        };
        let line = format!("/x{}y", c);
        let expected =
            if white_space(c) { "x y".to_string() } else { format!("x{}y", c).to_lowercase() };
        assert_eq!(normalize_slash_command(&line), expected);
    }
    for c in ['\u{3000}', '\u{2003}', '\u{85}', '\u{a0}', '\u{1680}', '\u{205f}'] {
        assert_eq!(normalize_slash_command(&format!("{}quit{}", c, c)), "quit");
    }
    for c in ['\u{200b}', '\u{180e}', '\u{feff}', '\u{1c}', '\u{1f}'] {
        assert_eq!(normalize_slash_command(&format!("{}quit{}", c, c)), format!("{}quit{}", c, c));
    }
}

#[test]
fn lower_casing_leaves_no_ascii_capital_and_no_gap() {
    for code in 0..0x20000u32 {
        let Some(c) = char::from_u32(code) else {
            continue;
        };
        let lowered = normalize_slash_command(&format!("/{}", c));
        assert!(!lowered.chars().any(|l| l.is_ascii_uppercase()));
        assert_eq!(lowered.is_empty(), white_space(c) || c == '/');
    }
    assert_eq!(normalize_slash_command("/ÀÉÎ"), "àéî");
    assert_eq!(normalize_slash_command("/İ"), "i\u{307}");
    assert_eq!(normalize_slash_command("/\u{212a}"), "k");
}

#[test]
fn slash_map_keys_are_canonical_lookups() {
    assert_eq!(SLASH_MAP.len(), 58);
    for (key, value) in SLASH_MAP.iter() {
        assert_eq!(normalize_slash_command(key), *value);
    }
}

#[test]
fn builtin_names_are_unique_and_slashed() {
    assert_eq!(BUILTIN_COMMANDS.len(), 31);
    for (i, (name, description)) in BUILTIN_COMMANDS.iter().enumerate() {
        assert!(name.starts_with('/'));
        assert!(!description.is_empty());
        for (other, _) in BUILTIN_COMMANDS.iter().skip(i + 1) {
            assert_ne!(name, other);
        }
    }
}

#[test]
fn register_appends_unless_the_name_is_taken() {
    let mut commands = Vec::new();
    register_command(&mut commands, entry("a", "first"));
    register_command(&mut commands, entry("b", "second"));
    register_command(&mut commands, entry("a", "third"));
    register_command(&mut commands, entry("A", "fourth"));
    assert_eq!(commands.len(), 3);
    assert_eq!(commands[0].description, "first");
    assert_eq!(commands[1].name, "b");
    assert_eq!(commands[2].name, "A");
}

#[test]
fn rank_orders_by_score_then_index() {
    assert_eq!(rank_by_score(&vec![]), Vec::<usize>::new());
    assert_eq!(rank_by_score(&vec![None, None]), Vec::<usize>::new());
    assert_eq!(rank_by_score(&vec![Some(3), None, Some(5), Some(3)]), vec![2, 0, 3]);
    assert_eq!(rank_by_score(&vec![Some(1), Some(1), Some(1)]), vec![0, 1, 2]);
    assert_eq!(rank_by_score(&vec![Some(-4), Some(i64::MAX), Some(i64::MIN), Some(0)]), vec![1, 3, 0, 2]);
    assert_eq!(rank_by_score(&vec![None, Some(7)]), vec![1]);
    assert_eq!(
        rank_by_score(&vec![Some(1), Some(2), Some(3), Some(2), Some(1), None, Some(3)]),
        vec![2, 6, 1, 3, 0, 4]
    );
}

#[test]
fn score_entry_scores_name_or_description() {
    let help = entry("/Help", "Show HELP and available commands");
    assert!(score_entry(&help, "help").is_some());
    assert!(score_entry(&help, "show").is_some());
    assert!(score_entry(&help, "hlp").is_some());
    assert_eq!(score_entry(&help, "zzz"), None);
    assert_eq!(score_entry(&help, "pleh"), None);
    // An exact, unbroken match beats a scattered one.
    let scattered = entry("/hxexlxp", "");
    assert!(score_entry(&help, "help").unwrap() > score_entry(&scattered, "help").unwrap());
    // The better of the two fields counts.
    let by_name = entry("help", "");
    let by_description = entry("hxexlxp", "help");
    assert_eq!(score_entry(&by_description, "help"), score_entry(&by_name, "help"));
}

#[test]
fn oversized_text_matches_with_the_lowest_score() {
    let long = "a".repeat(MAX_SCORED_LEN + 1);
    // One field is short enough for the matcher: its score counts.
    let half = entry(&long, "xa");
    assert_eq!(score_entry(&half, "a"), score_entry(&entry("", "xa"), "a"));
    assert!(score_entry(&half, "a").unwrap() > UNSCORED);
    // Both are too long: the entry matches all the same.
    let both = entry(&long, &long.to_uppercase());
    assert_eq!(score_entry(&both, "a"), Some(UNSCORED));
    assert_eq!(score_entry(&both, "aaa"), Some(UNSCORED));
    assert_eq!(score_entry(&both, "ab"), None);
    // A query too long for the matcher still finds what holds it.
    assert_eq!(score_entry(&entry("b", "ba"), &long), None);
    assert_eq!(score_entry(&both, &long), Some(UNSCORED));
}

#[test]
fn oversized_entries_are_listed_last() {
    let long = format!("{}help", "x".repeat(MAX_SCORED_LEN));
    let mut palette = palette_of(
        vec![entry(&long, &long), entry("/zzz", "nothing"), entry("/help", "Show help")],
        "help",
    );
    update_palette_filter(&mut palette);
    assert_eq!(palette.filtered, vec![2, 0]);
    assert_eq!(palette.selected_index, 0);
}

#[test]
fn is_match_is_a_subsequence_test() {
    assert!(is_match("axbycz", "abc"));
    assert!(is_match("axbycz", "xyz"));
    assert!(is_match("abc", "abc"));
    assert!(is_match("abc", ""));
    assert!(is_match("", ""));
    assert!(!is_match("", "a"));
    assert!(!is_match("abc", "abx"));
    assert!(!is_match("abc", "cba"));
    assert!(!is_match("abc", "abcc"));
    assert!(is_match("aab", "ab"));
    assert!(is_match("日本語", "日語"));
    assert!(!is_match("日本語", "語日"));
}

#[test]
fn is_match_counts_case_when_the_pattern_has_a_capital() {
    assert!(is_match("README", "readme"));
    assert!(is_match("ReadMe", "rm"));
    assert!(is_match("readme", "RM") == false);
    assert!(is_match("ReadMe", "RM"));
    assert!(!is_match("ReadMe", "Rm"));
    assert!(is_match("ReadMe", "Re"));
    assert!(is_match("a[b", "a[b"));
    // Only ASCII letters fold: `[` is 32 below `{`, `@` is 32 below the grave accent.
    assert!(!is_match("a{b", "a[b"));
    assert!(!is_match("`", "@"));
    assert!(!is_match("É", "é"));
    assert!(is_match("É", "É"));
}

#[test]
fn is_match_agrees_with_the_matcher() {
    let texts = ["", "a", "A", "ab", "Ab", "aB", "ba", "abc", "a-b", "ABC", "xAyBz", "z{[", "éÉ"];
    for text in texts {
        for pattern in texts {
            let e = entry(text, "");
            if !pattern.chars().any(|c| c.is_ascii_uppercase()) {
                assert_eq!(
                    score_entry(&e, pattern).is_some(),
                    is_match(&text.to_lowercase(), pattern) || is_match("", pattern)
                );
            }
        }
    }
}

#[test]
fn filter_blank_query_is_identity() {
    for query in ["", "   ", "\t\n "] {
        let mut palette = palette_of(vec![entry("b", "x"), entry("a", "y"), entry("c", "z")], query);
        update_palette_filter(&mut palette);
        assert_eq!(palette.filtered, vec![0, 1, 2]);
        assert_eq!(palette.selected_index, 0);
        assert_eq!(palette.query, query);
        assert_eq!(palette.commands.len(), 3);
    }
    let mut empty = palette_of(Vec::new(), "");
    update_palette_filter(&mut empty);
    assert!(empty.filtered.is_empty());
    assert_eq!(empty.selected_index, 0);
}

#[test]
fn filter_ranks_and_excludes() {
    let mut palette = palette_of(
        vec![
            entry("/xaxbx", "nothing"),
            entry("/zzz", "nothing"),
            entry("/ab", "nothing"),
            entry("/other", "AB"),
        ],
        "  AB ",
    );
    palette.visible = true;
    update_palette_filter(&mut palette);
    assert_eq!(palette.selected_index, 0);
    assert!(palette.visible);
    assert_eq!(palette.filtered.len(), 3);
    assert!(!palette.filtered.contains(&1));
    assert_eq!(*palette.filtered.last().unwrap(), 0);
    let scores: Vec<Option<i64>> =
        palette.commands.iter().map(|c| score_entry(c, "ab")).collect();
    assert_eq!(palette.filtered, rank_by_score(&scores));
    assert_eq!(palette.selected_command().unwrap().name, palette.commands[palette.filtered[0]].name);
}

#[test]
fn selected_command_checks_bounds() {
    let mut palette = palette_of(vec![entry("a", ""), entry("b", "")], "");
    update_palette_filter(&mut palette);
    assert_eq!(palette.selected_command().unwrap().name, "a");
    palette.selected_index = 1;
    assert_eq!(palette.selected_command().unwrap().name, "b");
    palette.selected_index = 2;
    assert!(palette.selected_command().is_none());
    palette.selected_index = 0;
    palette.filtered = vec![7];
    assert!(palette.selected_command().is_none());
    palette.filtered = Vec::new();
    assert!(palette.selected_command().is_none());
}

#[test]
fn defaults_are_empty() {
    let state = AppState::default();
    assert_eq!(state.input_buffer(), "");
    assert_eq!(state.input_cursor(), 0);
    assert!(state.history.is_empty());
    assert!(!state.loading);
    let chat = ChatState::default();
    assert!(chat.messages.is_empty());
    assert_eq!(chat.scroll, 0);
    assert_eq!(chat.streaming_content, "");
    let palette = PaletteState::default();
    assert!(!palette.visible);
    assert!(palette.filtered.is_empty());
}

#[test]
fn message_constructors() {
    let before = SystemTime::now();
    let u = Message::user("hi".to_string());
    let o = Message::openx("hello".to_string());
    let s = Message::system("note".to_string());
    let after = SystemTime::now();
    assert_eq!(u.role, MessageRole::User);
    assert_eq!(u.content, "hi");
    assert_eq!(o.role, MessageRole::OpenX);
    assert_eq!(o.content, "hello");
    assert_eq!(s.role, MessageRole::System);
    assert_eq!(s.content, "note");
    assert!(before <= u.timestamp && u.timestamp <= after);
    assert!(u.timestamp <= o.timestamp && o.timestamp <= s.timestamp);
    let copy = u.clone();
    assert_eq!(copy.timestamp, u.timestamp);
    assert_eq!(copy.content, "hi");
}

#[test]
fn insert_char_moves_the_cursor_by_the_width() {
    let mut s = String::from("ab");
    assert_eq!(insert_char(&mut s, 1, 'x'), 2);
    assert_eq!(s, "axb");
    assert_eq!(insert_char(&mut s, 0, 'é'), 2);
    assert_eq!(s, "éaxb");
    assert_eq!(insert_char(&mut s, 5, '日'), 8);
    assert_eq!(s, "éaxb日");
    assert_eq!(insert_char(&mut s, 2, '𝄞'), 6);
    assert_eq!(s, "é𝄞axb日");
}

#[test]
fn locate_counts_characters_and_finds_the_previous_start() {
    let s = "aé日𝄞";
    assert_eq!(locate(s, 0), (0, 0));
    assert_eq!(locate(s, 1), (1, 0));
    assert_eq!(locate(s, 3), (2, 1));
    assert_eq!(locate(s, 6), (3, 3));
    assert_eq!(locate(s, 10), (4, 6));
    assert_eq!(locate("", 0), (0, 0));
}

#[test]
fn remove_char_takes_out_one_character() {
    let mut s = String::from("aé日𝄞");
    remove_char(&mut s, 6, 10);
    assert_eq!(s, "aé日");
    remove_char(&mut s, 1, 3);
    assert_eq!(s, "a日");
    remove_char(&mut s, 0, 1);
    assert_eq!(s, "日");
}

#[test]
fn tail_after_first_byte_needs_a_one_byte_head() {
    assert_eq!(tail_after_first_byte("/help"), "help");
    assert_eq!(tail_after_first_byte("/"), "");
    assert_eq!(tail_after_first_byte(""), "");
    assert_eq!(tail_after_first_byte("xé"), "é");
    assert_eq!(tail_after_first_byte("éx"), "");
}

#[test]
fn count_lines_like_std() {
    for s in ["", "a", "a\n", "a\nb", "\n", "\n\n", "a\n\nb", "a\r\nb\r\n", "é\n日", "a\r", " "] {
        assert_eq!(count_lines(s), s.lines().count());
    }
    assert_eq!(count_lines("one\ntwo\nthree"), 3);
}

#[test]
fn strip_prefix_drops_a_leading_match() {
    assert_eq!(strip_prefix("chat hello", "chat "), "hello");
    assert_eq!(strip_prefix("chat", "chat "), "chat");
    assert_eq!(strip_prefix("chat ", "chat "), "");
    assert_eq!(strip_prefix("a chat b", "chat "), "a chat b");
    assert_eq!(strip_prefix("chatx y", "chat "), "chatx y");
    assert_eq!(strip_prefix("anything", ""), "anything");
    assert_eq!(strip_prefix("", "x"), "");
}

#[test]
fn reply_text_prefers_error_then_response() {
    let answer = |response: Option<&str>, error: Option<&str>| ChatResponse {
        response: response.map(|s| s.to_string()),
        conversation_id: Some("c".to_string()),
        error: error.map(|s| s.to_string()),
    };
    assert_eq!(reply_text(Ok(answer(Some("fine"), None))), "fine");
    assert_eq!(reply_text(Ok(answer(Some("fine"), Some("broken")))), "broken");
    assert_eq!(reply_text(Ok(answer(None, Some("broken")))), "broken");
    assert_eq!(reply_text(Ok(answer(None, None))), "(no response)");
    assert_eq!(reply_text(Err("HTTP 500: oops".to_string())), "HTTP 500: oops");
    assert_eq!(reply_text(Err("connection refused".to_string())), "connection refused");
    assert_eq!(reply_text(Err(String::new())), "");
    assert_eq!(CONVERSATION_ID, "tui-default");
}

#[test]
fn clock_labels() {
    assert_eq!(format_clock(0), "00:00");
    assert_eq!(format_clock(59), "00:00");
    assert_eq!(format_clock(60), "00:01");
    assert_eq!(format_clock(3599), "00:59");
    assert_eq!(format_clock(3600), "01:00");
    assert_eq!(format_clock(86399), "23:59");
    assert_eq!(format_clock(86400), "00:00");
    assert_eq!(format_clock(1_700_000_000), "22:13");
    assert_eq!(format_clock(u64::MAX), "07:00");
    assert_eq!(format_time(&SystemTime::UNIX_EPOCH), "00:00");
    assert_eq!(format_time(&(SystemTime::UNIX_EPOCH + Duration::from_secs(45_296))), "12:34");
    assert_eq!(format_time(&(SystemTime::UNIX_EPOCH - Duration::from_secs(60))), "00:00");
}

#[test]
fn truncate_end_keeps_the_tail() {
    assert_eq!(truncate_end("short", 10), "short");
    assert_eq!(truncate_end("exact", 5), "exact");
    assert_eq!(truncate_end("/home/user/project", 8), "…project");
    assert_eq!(truncate_end("abcdef", 1), "…");
    assert_eq!(truncate_end("abcdef", 0), "…");
    assert_eq!(truncate_end("", 0), "");
    assert_eq!(truncate_end("日本語テキスト", 4), "…キスト");
}

#[test]
fn lang_to_ext_table() {
    assert_eq!(lang_to_ext("python"), "py");
    assert_eq!(lang_to_ext(" Rust "), "rs");
    assert_eq!(lang_to_ext("C++"), "cpp");
    assert_eq!(lang_to_ext("c#"), "cs");
    assert_eq!(lang_to_ext("SHELL"), "sh");
    assert_eq!(lang_to_ext("yaml"), "yml");
    assert_eq!(lang_to_ext("md"), "md");
    assert_eq!(lang_to_ext("h"), "h");
    assert_eq!(lang_to_ext(""), "txt");
    assert_eq!(lang_to_ext("brainfuck"), "txt");
    assert_eq!(lang_to_ext("rust,ignore"), "txt");
}

#[test]
fn palette_overlay_sits_at_the_bottom() {
    let chat = Rect { x: 1, y: 5, width: 78, height: 30 };
    assert_eq!(palette_overlay_rect(chat), Rect { x: 1, y: 19, width: 78, height: 16 });
    let small = Rect { x: 0, y: 5, width: 40, height: 6 };
    assert_eq!(palette_overlay_rect(small), Rect { x: 0, y: 7, width: 40, height: 4 });
    let tiny = Rect { x: 0, y: 5, width: 40, height: 1 };
    assert_eq!(palette_overlay_rect(tiny), Rect { x: 0, y: 6, width: 40, height: 0 });
    let far = Rect { x: 0, y: u16::MAX, width: 1, height: 10 };
    assert_eq!(palette_overlay_rect(far).y, u16::MAX);
}

#[test]
fn clamped_scroll_stays_within_the_content() {
    let mut chat = ChatState::default();
    chat.scroll = 50;
    assert_eq!(chat.clamped_scroll(100, 20), 50);
    assert_eq!(chat.clamped_scroll(60, 20), 40);
    assert_eq!(chat.clamped_scroll(10, 20), 0);
    chat.scroll = 0;
    assert_eq!(chat.clamped_scroll(100, 20), 0);
}

#[test]
fn spinner_cycles() {
    assert_eq!(spinner_frame(0), '⠋');
    assert_eq!(spinner_frame(9), '⠏');
    assert_eq!(spinner_frame(10), '⠋');
    assert_eq!(spinner_frame(23), '⠸');
}
