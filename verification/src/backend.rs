//! What the agent service sends back, as plain values.
//!
//! The calls themselves are made outside this crate; here are the shapes of
//! the answers and the rules that turn an answer into the text to display.

use crate::services::strip_slashes;
use crate::text::{chars_of, string_of, string_push};
use vstd::prelude::*;
use vstd::string::StringExecFns;

verus! {

/// Conversation that every request of this client belongs to.
pub const CONVERSATION_ID: &'static str = "tui-default";

/// Answer of the chat endpoint.
#[derive(Clone, Debug)]
pub struct ChatResponse {
    pub response: Option<String>,
    pub conversation_id: Option<String>,
    /// Set when the service handled the request but reports an error.
    pub error: Option<String>,
}

/// One tool that the service offers, as the tools endpoint lists it.
#[derive(Clone, Debug)]
pub struct ToolInfo {
    pub name: String,
    pub description: String,
}

/// The text to display for the outcome of a chat call: the error that the
/// service reports, else its response, else a placeholder; and for a call that
/// failed, the text of its error.
pub open spec fn reply_of(outcome: Result<ChatResponse, String>) -> Seq<char> {
    match outcome {
        Ok(answer) => match answer.error {
            Some(error) => error@,
            None => match answer.response {
                Some(response) => response@,
                None => "(no response)"@,
            },
        },
        Err(error) => error@,
    }
}

/// Turn the outcome of a chat call into the text to display. A failure is
/// shown like any other answer.
pub fn reply_text(outcome: Result<ChatResponse, String>) -> (text: String)
    ensures
        text@ == reply_of(outcome),
{
    match outcome {
        Ok(answer) => match answer.error {
            Some(error) => error,
            None => match answer.response {
                Some(response) => response,
                None => "(no response)".to_owned(),
            },
        },
        Err(error) => error,
    }
}

/// `s` without its trailing slashes.
pub open spec fn strip_trailing_slashes(s: Seq<char>) -> Seq<char>
    decreases s.len(),
{
    if s.len() > 0 && s.last() == '/' {
        strip_trailing_slashes(s.drop_last())
    } else {
        s
    }
}

/// Address of the endpoint `path` of the service at `base`: the two joined
/// by exactly one slash.
pub open spec fn endpoint_of(base: Seq<char>, path: Seq<char>) -> Seq<char> {
    strip_trailing_slashes(base).push('/') + strip_slashes(path)
}

/// What is left before a run of trailing slashes, none preceding it, is
/// [`strip_trailing_slashes`].
proof fn lemma_strip_trailing_slashes(s: Seq<char>, k: int)
    requires
        0 <= k <= s.len(),
        forall|j: int| k <= j < s.len() ==> #[trigger] s[j] == '/',
        k > 0 ==> s[k - 1] != '/',
    ensures
        strip_trailing_slashes(s) == s.take(k),
    decreases s.len(),
{
    if k < s.len() {
        let head = s.drop_last();
        assert(s.last() == '/');
        lemma_strip_trailing_slashes(head, k);
        assert(head.take(k) == s.take(k));
    } else {
        assert(s.take(k) == s);
    }
}

/// Join the base address of the service and the path of an endpoint.
pub fn endpoint_url(base: &str, path: &str) -> (url: String)
    ensures
        url@ == endpoint_of(base@, path@),
{
    let front = chars_of(base);
    let mut end = front.len();
    while end > 0 && front[end - 1] == '/'
        invariant
            end <= front.len(),
            forall|j: int| end <= j < front.len() ==> #[trigger] front@[j] == '/',
        decreases end,
    {
        end -= 1;
    }
    let back = chars_of(path);
    let mut start: usize = 0;
    while start < back.len() && back[start] == '/'
        invariant
            start <= back.len(),
            forall|j: int| 0 <= j < start ==> #[trigger] back@[j] == '/',
        decreases back.len() - start,
    {
        start += 1;
    }
    proof {
        lemma_strip_trailing_slashes(front@, end as int);
        crate::services::lemma_strip_slashes(back@, start as int);
    }
    let mut url = string_of(&front, 0, end);
    string_push(&mut url, '/');
    url.append(string_of(&back, start, back.len()).as_str());
    url
}

/// The error text for an answer whose status is not a success: the status
/// line and the body of the answer, behind `HTTP `.
pub open spec fn failure_of(status: Seq<char>, body: Seq<char>) -> Seq<char> {
    "HTTP "@ + status + ": "@ + body
}

/// Describe an answer whose status is not a success.
pub fn http_failure(status: &str, body: &str) -> (text: String)
    ensures
        text@ == failure_of(status@, body@),
{
    let mut text = "HTTP ".to_owned();
    text.append(status);
    text.append(": ");
    text.append(body);
    text
}

} // verus!
