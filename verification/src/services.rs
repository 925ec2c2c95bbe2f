//! Output formatting and command normalization.

use crate::text::{
    chars_of, char_is_whitespace, is_whitespace, lowercase, str_eq, str_to_lowercase, str_trim,
    string_of, string_push, trimmed,
};
use serde_json::Value;
use vstd::prelude::*;
use vstd::string::StringExecFns;

verus! {

/// A JSON value. Its content is opaque here.
#[verifier::external_type_specification]
#[verifier::external_body]
pub struct ExValue(Value);

/// What went wrong while JSON was written or read.
#[verifier::external_type_specification]
#[verifier::external_body]
pub struct ExJsonError(serde_json::Error);

/// `Value::as_str`: the text of a JSON string, and `None` for any other value.
#[verifier::external_body]
fn json_text(value: &Value) -> Option<&str> {
    value.as_str()
}

/// `serde_json::to_string_pretty`: the value as indented JSON.
#[verifier::external_body]
fn json_pretty(value: &Value) -> Result<String, serde_json::Error> {
    serde_json::to_string_pretty(value)
}

/// The indented JSON if there is any, and a placeholder if writing it failed.
pub fn pretty_or_placeholder(written: Result<String, serde_json::Error>) -> (text: String)
    ensures
        match written {
            Ok(json) => text == json,
            Err(_) => text@ == "(invalid json)"@,
        },
{
    match written {
        Ok(json) => json,
        Err(_) => "(invalid json)".to_owned(),
    }
}

/// Format the output of a command for display: a placeholder where there is
/// none, the bare text of a JSON string, and indented JSON for anything else.
pub fn format_output(value: Option<Value>) -> (text: String)
    ensures
        value is None ==> text@ == "(no output)"@,
{
    match value {
        None => "(no output)".to_owned(),
        Some(v) => match json_text(&v) {
            Some(s) => s.to_owned(),
            None => pretty_or_placeholder(json_pretty(&v)),
        },
    }
}

/// Slash command to canonical command name.
pub const SLASH_MAP: [(&'static str, &'static str); 58] = [
    ("/help", "help"),
    ("/h", "help"),
    ("/?", "help"),
    ("/tools", "tools"),
    ("/schema", "schema"),
    ("/call", "call"),
    ("/analyze", "analyze_repo"),
    ("/analyzerepo", "analyze_repo"),
    ("/repos", "list_repos"),
    ("/listrepos", "list_repos"),
    ("/prs", "list_prs"),
    ("/listprs", "list_prs"),
    ("/pr", "get_pr"),
    ("/getpr", "get_pr"),
    ("/issues", "list_issues"),
    ("/listissues", "list_issues"),
    ("/issue", "get_issue"),
    ("/getissue", "get_issue"),
    ("/newissue", "create_issue"),
    ("/createissue", "create_issue"),
    ("/commentissue", "comment_issue"),
    ("/closeissue", "close_issue"),
    ("/comment", "comment_pr"),
    ("/commentpr", "comment_pr"),
    ("/merge", "merge_pr"),
    ("/mergepr", "merge_pr"),
    ("/readme", "get_readme"),
    ("/getreadme", "get_readme"),
    ("/updatereadme", "update_readme"),
    ("/workflows", "list_workflows"),
    ("/listworkflows", "list_workflows"),
    ("/trigger", "trigger_workflow"),
    ("/triggerworkflow", "trigger_workflow"),
    ("/runs", "list_workflow_runs"),
    ("/listworkflowruns", "list_workflow_runs"),
    ("/run", "get_workflow_run"),
    ("/getworkflowrun", "get_workflow_run"),
    ("/failing", "get_failing_prs"),
    ("/getfailingprs", "get_failing_prs"),
    ("/heal", "heal_ci"),
    ("/healci", "heal_ci"),
    ("/healfailingpr", "heal_ci"),
    ("/logs", "get_ci_logs"),
    ("/getcilogs", "get_ci_logs"),
    ("/analyze-failure", "analyze_ci_failure"),
    ("/analyzecifailure", "analyze_ci_failure"),
    ("/context", "locate_code_context"),
    ("/locatecodecontext", "locate_code_context"),
    ("/patch", "generate_fix_patch"),
    ("/generatefixpatch", "generate_fix_patch"),
    ("/apply", "apply_fix_to_pr"),
    ("/applyfixtopr", "apply_fix_to_pr"),
    ("/rerun", "rerun_ci"),
    ("/rerunci", "rerun_ci"),
    ("/chat", "chat"),
    ("/ask", "chat"),
    ("/index", "index"),
    ("/reset", "reset"),
];

/// The canonical name of the first entry of [`SLASH_MAP`] at or after `start`
/// whose slash command is `head`.
pub open spec fn canonical_from(head: Seq<char>, start: int) -> Option<Seq<char>>
    decreases 58 - start,
{
    if 0 <= start < 58 {
        if SLASH_MAP@[start].0@ == head {
            Some(SLASH_MAP@[start].1@)
        } else {
            canonical_from(head, start + 1)
        }
    } else {
        None
    }
}

/// The canonical name that [`SLASH_MAP`] gives the slash command `head`.
pub open spec fn canonical_name(head: Seq<char>) -> Option<Seq<char>> {
    canonical_from(head, 0)
}

/// Index of the first whitespace character of `s`, or its length if it has none.
pub open spec fn first_whitespace(s: Seq<char>) -> int
    decreases s.len(),
{
    if s.len() == 0 || is_whitespace(s.first()) {
        0
    } else {
        1 + first_whitespace(s.drop_first())
    }
}

/// `s` without its leading slashes.
pub open spec fn strip_slashes(s: Seq<char>) -> Seq<char>
    decreases s.len(),
{
    if s.len() > 0 && s.first() == '/' {
        strip_slashes(s.drop_first())
    } else {
        s
    }
}

/// The command that `raw` stands for.
///
/// Text that does not start with a slash, once trimmed, stands for itself.
/// Otherwise the text up to the first whitespace is the head, and what follows
/// that whitespace, trimmed, is the tail. The lower-cased head is replaced by
/// its canonical name, or loses its leading slashes if it has none; head and
/// tail are joined by one space, and the result is trimmed.
pub open spec fn normalized(raw: Seq<char>) -> Seq<char> {
    let text = trimmed(raw);
    if text.len() == 0 || text.first() != '/' {
        text
    } else {
        let split = first_whitespace(text);
        let head = lowercase(text.take(split));
        let tail = if split < text.len() {
            trimmed(text.skip(split + 1))
        } else {
            Seq::empty()
        };
        let name = match canonical_name(head) {
            Some(name) => name,
            None => strip_slashes(head),
        };
        trimmed(name.push(' ') + tail)
    }
}

/// An index before which nothing is whitespace, and which is the end or holds
/// a whitespace character, is the first whitespace.
proof fn lemma_first_whitespace(s: Seq<char>, k: int)
    requires
        0 <= k <= s.len(),
        forall|j: int| 0 <= j < k ==> !is_whitespace(#[trigger] s[j]),
        k < s.len() ==> is_whitespace(s[k]),
    ensures
        first_whitespace(s) == k,
    decreases s.len(),
{
    if k > 0 {
        let tail = s.drop_first();
        assert(!is_whitespace(s[0]));
        assert forall|j: int| 0 <= j < k - 1 implies !is_whitespace(#[trigger] tail[j]) by {
            assert(tail[j] == s[j + 1]);
        }
        lemma_first_whitespace(tail, k - 1);
    }
}

/// What is left after a run of leading slashes, none following it, is
/// [`strip_slashes`].
pub proof fn lemma_strip_slashes(s: Seq<char>, k: int)
    requires
        0 <= k <= s.len(),
        forall|j: int| 0 <= j < k ==> #[trigger] s[j] == '/',
        k < s.len() ==> s[k] != '/',
    ensures
        strip_slashes(s) == s.skip(k),
    decreases s.len(),
{
    if k > 0 {
        let tail = s.drop_first();
        assert(s[0] == '/');
        assert forall|j: int| 0 <= j < k - 1 implies #[trigger] tail[j] == '/' by {
            assert(tail[j] == s[j + 1]);
        }
        lemma_strip_slashes(tail, k - 1);
        assert(tail.skip(k - 1) == s.skip(k));
    } else {
        assert(s.skip(0) == s);
    }
}

/// Look `head` up in [`SLASH_MAP`].
fn lookup_canonical(head: &str) -> (r: Option<&'static str>)
    ensures
        match r {
            Some(name) => canonical_name(head@) == Some(name@),
            None => canonical_name(head@) is None,
        },
{
    let mut i: usize = 0;
    while i < 58
        invariant
            i <= 58,
            canonical_name(head@) == canonical_from(head@, i as int),
        decreases 58 - i,
    {
        if str_eq(head, SLASH_MAP[i].0) {
            return Some(SLASH_MAP[i].1);
        }
        i += 1;
    }
    None
}

/// Turn a submitted line into the command it stands for: expand slash
/// shorthand to the canonical command name and tidy the whitespace.
pub fn normalize_slash_command(raw: &str) -> (command: String)
    ensures
        command@ == normalized(raw@),
{
    let text = str_trim(raw);
    let chars = chars_of(text);
    if chars.len() == 0 || chars[0] != '/' {
        return text.to_owned();
    }
    let mut split: usize = 0;
    while split < chars.len() && !char_is_whitespace(chars[split])
        invariant
            split <= chars.len(),
            forall|j: int| 0 <= j < split ==> !is_whitespace(#[trigger] chars@[j]),
        decreases chars.len() - split,
    {
        split += 1;
    }
    proof {
        lemma_first_whitespace(chars@, split as int);
    }
    let head = str_to_lowercase(string_of(&chars, 0, split).as_str());
    let rest = if split < chars.len() {
        string_of(&chars, split + 1, chars.len())
    } else {
        String::new()
    };
    let tail = str_trim(rest.as_str());
    let mut command = match lookup_canonical(head.as_str()) {
        Some(name) => name.to_owned(),
        None => {
            let letters = chars_of(head.as_str());
            let mut start: usize = 0;
            while start < letters.len() && letters[start] == '/'
                invariant
                    start <= letters.len(),
                    forall|j: int| 0 <= j < start ==> #[trigger] letters@[j] == '/',
                decreases letters.len() - start,
            {
                start += 1;
            }
            proof {
                lemma_strip_slashes(letters@, start as int);
            }
            string_of(&letters, start, letters.len())
        },
    };
    string_push(&mut command, ' ');
    command.append(tail);
    str_trim(command.as_str()).to_owned()
}

} // verus!
