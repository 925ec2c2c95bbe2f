//! Git helpers: what to show for the output of `git`.
//!
//! Running `git` is the caller's business; it hands over what the command
//! printed, or `None` if the command could not be run or failed.

use crate::text::{chars_of, str_trim, string_push, trimmed};
use vstd::prelude::*;

verus! {

/// The branch to show for the output of `git rev-parse --abbrev-ref HEAD`:
/// the output, trimmed; `detached` where that is empty; and `no-git` where
/// the command failed.
pub open spec fn branch_of(output: Option<&str>) -> Seq<char> {
    match output {
        Some(printed) => if trimmed(printed@).len() == 0 {
            "detached"@
        } else {
            trimmed(printed@)
        },
        None => "no-git"@,
    }
}

/// Name the current branch from what `git rev-parse --abbrev-ref HEAD` printed.
pub fn git_branch(output: Option<&str>) -> (branch: String)
    ensures
        branch@ == branch_of(output),
{
    match output {
        Some(printed) => {
            let name = str_trim(printed);
            if name.is_empty() {
                "detached".to_owned()
            } else {
                name.to_owned()
            }
        },
        None => "no-git".to_owned(),
    }
}

/// Index of the first newline of `s`, or its length if it has none.
pub open spec fn first_newline(s: Seq<char>) -> int
    decreases s.len(),
{
    if s.len() == 0 || s.first() == '\n' {
        0
    } else {
        1 + first_newline(s.drop_first())
    }
}

/// The lines of `s`. A line ends at a newline; a carriage return right before
/// the newline belongs to the line ending. A line ending at the very end adds
/// no empty line.
pub open spec fn lines_of(s: Seq<char>) -> Seq<Seq<char>>
    decreases s.len(),
{
    let k = first_newline(s);
    if s.len() == 0 {
        Seq::empty()
    } else if 0 <= k < s.len() {
        seq![
            if k > 0 && s[k - 1] == '\r' {
                s.take(k - 1)
            } else {
                s.take(k)
            },
        ] + lines_of(s.skip(k + 1))
    } else {
        seq![s]
    }
}

/// The lines joined by newlines.
pub open spec fn joined(lines: Seq<Seq<char>>) -> Seq<char>
    decreases lines.len(),
{
    if lines.len() == 0 {
        Seq::empty()
    } else if lines.len() == 1 {
        lines[0]
    } else {
        joined(lines.drop_last()).push('\n') + lines.last()
    }
}

/// What to show for the output of `git diff`: its first `max_lines` lines,
/// and a notice where that is nothing or the command failed.
pub open spec fn preview_of(output: Option<&str>, max_lines: nat) -> Seq<char> {
    match output {
        Some(printed) => {
            let lines = lines_of(printed@);
            let shown = if max_lines < lines.len() {
                lines.take(max_lines as int)
            } else {
                lines
            };
            if shown.len() == 0 {
                "No unstaged diff"@
            } else {
                joined(shown)
            }
        },
        None => "No unstaged diff"@,
    }
}

/// An index before which there is no newline, and which is the end or holds
/// a newline, is the first newline.
proof fn lemma_first_newline(s: Seq<char>, k: int)
    requires
        0 <= k <= s.len(),
        forall|j: int| 0 <= j < k ==> #[trigger] s[j] != '\n',
        k < s.len() ==> s[k] == '\n',
    ensures
        first_newline(s) == k,
    decreases s.len(),
{
    if k > 0 {
        let tail = s.drop_first();
        assert(s[0] != '\n');
        assert forall|j: int| 0 <= j < k - 1 implies #[trigger] tail[j] != '\n' by {
            assert(tail[j] == s[j + 1]);
        }
        lemma_first_newline(tail, k - 1);
    }
}

/// Preview the output of `git diff`: its first `max_lines` lines.
pub fn git_diff_preview(output: Option<&str>, max_lines: usize) -> (preview: String)
    ensures
        preview@ == preview_of(output, max_lines as nat),
{
    let printed = match output {
        Some(printed) => printed,
        None => {
            return "No unstaged diff".to_owned();
        },
    };
    let chars = chars_of(printed);
    let mut preview = String::new();
    let mut start: usize = 0;
    let mut taken: usize = 0;
    let ghost mut done: Seq<Seq<char>> = Seq::empty();
    proof {
        assert(chars@.skip(0) == chars@);
        assert(done + lines_of(chars@) == lines_of(chars@));
    }
    while start < chars.len() && taken < max_lines
        invariant
            start <= chars.len(),
            taken <= max_lines,
            taken == done.len(),
            lines_of(chars@) == done + lines_of(chars@.skip(start as int)),
            preview@ == joined(done),
        decreases chars.len() - start,
    {
        let ghost rest = chars@.skip(start as int);
        let mut stop = start;
        while stop < chars.len() && chars[stop] != '\n'
            invariant
                start <= stop <= chars.len(),
                forall|j: int| start <= j < stop ==> #[trigger] chars@[j] != '\n',
            decreases chars.len() - stop,
        {
            stop += 1;
        }
        let end = if stop < chars.len() && stop > start && chars[stop - 1] == '\r' {
            stop - 1
        } else {
            stop
        };
        let ghost line = chars@.subrange(start as int, end as int);
        let next = if stop < chars.len() {
            stop + 1
        } else {
            stop
        };
        proof {
            assert forall|j: int| 0 <= j < stop - start implies #[trigger] rest[j] != '\n' by {
                assert(rest[j] == chars@[start + j]);
            }
            lemma_first_newline(rest, stop - start);
            if stop < chars.len() {
                assert(rest.skip(stop - start + 1) == chars@.skip(next as int));
                assert(rest.take(end - start) == line);
            } else {
                assert(rest == line);
                assert(chars@.skip(next as int) == Seq::<char>::empty());
            }
            assert(lines_of(rest) == seq![line] + lines_of(chars@.skip(next as int)));
            assert(done + lines_of(rest) == done.push(line) + lines_of(chars@.skip(next as int)));
            assert(done.push(line).drop_last() == done);
        }
        if taken > 0 {
            string_push(&mut preview, '\n');
        }
        let mut i = start;
        while i < end
            invariant
                start <= i <= end <= chars.len(),
                preview@ == (if taken > 0 {
                    joined(done).push('\n')
                } else {
                    joined(done)
                }) + chars@.subrange(start as int, i as int),
            decreases end - i,
        {
            string_push(&mut preview, chars[i]);
            i += 1;
        }
        proof {
            done = done.push(line);
        }
        taken += 1;
        start = next;
    }
    proof {
        let lines = lines_of(chars@);
        if start == chars.len() {
            assert(lines == done);
        } else {
            assert(lines.take(max_lines as int) == done);
        }
    }
    if taken == 0 {
        "No unstaged diff".to_owned()
    } else {
        preview
    }
}

} // verus!
