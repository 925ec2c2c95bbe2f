//! Command palette: fuzzy-filter the registered commands by the query.
//!
//! A blank query lists every command in registration order. Any other query
//! is trimmed, lower-cased and scored against the lower-cased name and
//! description of each command. The commands in which it occurs come out best
//! score first, and equal scores keep their registration order; none of them is
//! left out, and no other is listed.

use crate::state::{commands_view, CommandEntry, CommandView, PaletteState, PaletteView};
use crate::text::{
    chars_of, has_ascii_capital, lowercase, str_len, str_to_lowercase, str_trim, trimmed, utf8_len,
};
use fuzzy_matcher::skim::SkimMatcherV2;
use fuzzy_matcher::FuzzyMatcher;
use vstd::prelude::*;

verus! {

/// Texts of up to this many bytes go to the matcher for a score. The matcher
/// sums in 32 bits: a character that matches adds at most 32 to a sum, one that
/// is skipped takes at most 4 away, and sums start no lower than -32768. With
/// at most 2^24 characters on either side every sum stays within 2^29 of zero.
pub const MAX_SCORED_LEN: usize = 0x100_0000;

/// The score of a match that is too long for the matcher: the lowest there is.
pub const UNSCORED: i64 = i64::MIN;

/// The score `SkimMatcherV2::default()` gives `pattern` within `choice`, if any.
pub uninterp spec fn skim_score(choice: Seq<char>, pattern: Seq<char>) -> Option<i64>;

/// `c` with an ASCII capital letter replaced by its small letter.
pub open spec fn ascii_fold(c: char) -> char {
    if 'A' <= c <= 'Z' {
        ((c as u32) + 32) as char
    } else {
        c
    }
}

/// Whether the character `c` of a text stands for the character `p` of a
/// pattern: it is the same character, or, where case does not count, the same
/// up to ASCII case.
pub open spec fn same_char(c: char, p: char, case_counts: bool) -> bool {
    if case_counts {
        c == p
    } else {
        ascii_fold(c) == ascii_fold(p)
    }
}

/// `at` places the characters of `pattern` at increasing positions of `text`,
/// each on a character that stands for it.
pub open spec fn is_embedding(
    pattern: Seq<char>,
    text: Seq<char>,
    at: Seq<int>,
    case_counts: bool,
) -> bool {
    &&& at.len() == pattern.len()
    &&& forall|i: int|
        0 <= i < at.len() ==> 0 <= #[trigger] at[i] < text.len() && same_char(
            text[at[i]],
            pattern[i],
            case_counts,
        )
    &&& forall|i: int, j: int| 0 <= i < j < at.len() ==> at[i] < at[j]
}

/// The characters of `pattern` occur in `text`, in order.
pub open spec fn is_subsequence(pattern: Seq<char>, text: Seq<char>) -> bool {
    exists|at: Seq<int>| is_embedding(pattern, text, at, true)
}

/// `pattern` matches `text` as the matcher decides it: it is a subsequence of
/// it, and case counts exactly when the pattern holds an ASCII capital letter.
pub open spec fn matches(pattern: Seq<char>, text: Seq<char>) -> bool {
    exists|at: Seq<int>| is_embedding(pattern, text, at, has_ascii_capital(pattern))
}

/// `SkimMatcherV2::fuzzy_match` on a fresh default matcher. The result is a
/// function of the two texts. The matcher gives a score exactly where the
/// characters of `pattern` occur in `choice` in order; it compares them without
/// regard to ASCII case unless the pattern holds an ASCII capital letter. The
/// bound on the lengths keeps the matcher's 32-bit score sums in range.
#[verifier::external_body]
fn skim_fuzzy_match(choice: &str, pattern: &str) -> (r: Option<i64>)
    requires
        utf8_len(choice@) <= MAX_SCORED_LEN,
        utf8_len(pattern@) <= MAX_SCORED_LEN,
    ensures
        r == skim_score(choice@, pattern@),
        r is Some <==> matches(pattern@, choice@),
{
    SkimMatcherV2::default().fuzzy_match(choice, pattern)
}

/// Both texts are short enough to go to the matcher.
pub open spec fn scorable(choice: Seq<char>, pattern: Seq<char>) -> bool {
    utf8_len(choice) <= MAX_SCORED_LEN && utf8_len(pattern) <= MAX_SCORED_LEN
}

/// The relevance of `pattern` within `choice`: none where it does not match,
/// the matcher's score where it matches and both texts are short enough for
/// the matcher, and the lowest score where it matches and they are not.
pub open spec fn match_score(choice: Seq<char>, pattern: Seq<char>) -> Option<i64> {
    if !matches(pattern, choice) {
        None
    } else if scorable(choice, pattern) {
        Some(skim_score(choice, pattern)->0)
    } else {
        Some(UNSCORED)
    }
}

/// What occurs character for character matches.
pub proof fn lemma_subsequence_matches(pattern: Seq<char>, text: Seq<char>)
    requires
        is_subsequence(pattern, text),
    ensures
        matches(pattern, text),
{
    let at = choose|at: Seq<int>| is_embedding(pattern, text, at, true);
    assert(is_embedding(pattern, text, at, has_ascii_capital(pattern)));
}

/// In a text without ASCII capital letters whatever matches occurs character
/// for character.
pub proof fn lemma_match_is_subsequence(pattern: Seq<char>, text: Seq<char>)
    requires
        matches(pattern, text),
        !has_ascii_capital(text),
    ensures
        is_subsequence(pattern, text),
{
    let at = choose|at: Seq<int>| is_embedding(pattern, text, at, has_ascii_capital(pattern));
    assert forall|i: int| 0 <= i < at.len() implies 0 <= #[trigger] at[i] < text.len()
        && same_char(text[at[i]], pattern[i], true) by {
        let c = text[at[i]];
        let p = pattern[i];
        assert(same_char(c, p, has_ascii_capital(pattern)));
        if !has_ascii_capital(pattern) {
            assert(!('A' <= c <= 'Z'));
            assert(!('A' <= p <= 'Z'));
        }
    }
    assert(is_embedding(pattern, text, at, true));
}

/// The empty pattern occurs in every text.
pub proof fn lemma_empty_is_subsequence(text: Seq<char>)
    ensures
        is_subsequence(Seq::empty(), text),
{
    assert(is_embedding(Seq::empty(), text, Seq::<int>::empty(), true));
}

/// The better of two scores; a missing score loses to any score.
pub open spec fn best_score(a: Option<i64>, b: Option<i64>) -> Option<i64> {
    match (a, b) {
        (Some(x), Some(y)) => if x >= y {
            Some(x)
        } else {
            Some(y)
        },
        (Some(x), None) => Some(x),
        (None, _) => b,
    }
}

/// The score of a command: the better of the scores of its lower-cased name
/// and of its lower-cased description.
pub open spec fn entry_score(entry: CommandView, query: Seq<char>) -> Option<i64> {
    best_score(
        match_score(lowercase(entry.name), query),
        match_score(lowercase(entry.description), query),
    )
}

/// The scores of all commands, in registration order.
pub open spec fn entry_scores(commands: Seq<CommandView>, query: Seq<char>) -> Seq<Option<i64>> {
    commands.map_values(|c: CommandView| entry_score(c, query))
}

/// The query as the matcher sees it: trimmed, then lower-cased. A blank query
/// folds to the empty text.
pub open spec fn folded_query(query: Seq<char>) -> Seq<char> {
    if trimmed(query).len() == 0 {
        Seq::empty()
    } else {
        lowercase(trimmed(query))
    }
}

/// The indices `0, 1, .., n - 1`.
pub open spec fn identity_order(n: nat) -> Seq<usize> {
    Seq::new(n, |i: int| i as usize)
}

/// Entry `a` ranks strictly before entry `b`: it has the higher score, or the
/// same score and the lower index.
pub open spec fn precedes(scores: Seq<Option<i64>>, a: int, b: int) -> bool {
    scores[a]->0 > scores[b]->0 || (scores[a]->0 == scores[b]->0 && a < b)
}

/// `order` lists exactly the indices that have a score, each before all that
/// it precedes.
pub open spec fn is_ranking(scores: Seq<Option<i64>>, order: Seq<usize>) -> bool {
    &&& forall|j: int|
        0 <= j < order.len() ==> (#[trigger] order[j]) < scores.len() && scores[order[j] as int]
            is Some
    &&& forall|i: int|
        0 <= i < scores.len() && (#[trigger] scores[i]) is Some ==> order.contains(i as usize)
    &&& forall|j: int, k: int|
        0 <= j < k < order.len() ==> precedes(
            scores,
            (#[trigger] order[j]) as int,
            (#[trigger] order[k]) as int,
        )
}

/// Number of leading entries of `order` whose score is at least `score`.
pub open spec fn slot(scores: Seq<Option<i64>>, order: Seq<usize>, score: i64) -> int
    decreases order.len(),
{
    if order.len() > 0 && scores[order[0] as int]->0 >= score {
        1 + slot(scores, order.drop_first(), score)
    } else {
        0
    }
}

/// The indices that have a score, best first; equal scores in index order.
pub open spec fn ranking(scores: Seq<Option<i64>>) -> Seq<usize>
    decreases scores.len(),
{
    if scores.len() == 0 {
        Seq::empty()
    } else {
        let rest = ranking(scores.drop_last());
        match scores.last() {
            Some(s) => rest.insert(slot(scores, rest, s), (scores.len() - 1) as usize),
            None => rest,
        }
    }
}

/// What the palette lists for `query`: every command for a blank query, the
/// ranking of the scored commands otherwise.
pub open spec fn filter_result(commands: Seq<CommandView>, query: Seq<char>) -> Seq<usize> {
    let folded = folded_query(query);
    if folded.len() == 0 {
        identity_order(commands.len())
    } else {
        ranking(entry_scores(commands, folded))
    }
}

/// The palette after its filter has been recomputed: the list follows from the
/// commands and the query, and the highlight is back on the first entry.
pub open spec fn refiltered(palette: PaletteView) -> PaletteView {
    PaletteView {
        filtered: filter_result(palette.commands, palette.query),
        selected_index: 0,
        ..palette
    }
}

/// Where `slot` stops: everything before it scores at least `score`, and the
/// entry at it, if there is one, scores less.
proof fn lemma_slot(scores: Seq<Option<i64>>, order: Seq<usize>, score: i64)
    ensures
        0 <= slot(scores, order, score) <= order.len(),
        forall|j: int|
            0 <= j < slot(scores, order, score) ==> scores[(#[trigger] order[j]) as int]->0
                >= score,
        slot(scores, order, score) < order.len() ==> scores[order[slot(
            scores,
            order,
            score,
        )] as int]->0 < score,
    decreases order.len(),
{
    if order.len() > 0 && scores[order[0] as int]->0 >= score {
        let tail = order.drop_first();
        lemma_slot(scores, tail, score);
        let p = slot(scores, tail, score);
        assert forall|j: int| 0 <= j < p + 1 implies scores[(#[trigger] order[j]) as int]->0
            >= score by {
            if j > 0 {
                assert(order[j] == tail[j - 1]);
            }
        }
        if p + 1 < order.len() {
            assert(order[p + 1] == tail[p]);
        }
    }
}

/// A position that splits `order` as `slot` does is the slot.
proof fn lemma_slot_is(scores: Seq<Option<i64>>, order: Seq<usize>, score: i64, p: int)
    requires
        0 <= p <= order.len(),
        forall|j: int| 0 <= j < p ==> scores[(#[trigger] order[j]) as int]->0 >= score,
        p < order.len() ==> scores[order[p] as int]->0 < score,
    ensures
        slot(scores, order, score) == p,
    decreases order.len(),
{
    if p > 0 {
        let tail = order.drop_first();
        assert forall|j: int| 0 <= j < p - 1 implies scores[(#[trigger] tail[j]) as int]->0
            >= score by {
            assert(tail[j] == order[j + 1]);
        }
        assert(scores[order[0] as int]->0 >= score);
        lemma_slot_is(scores, tail, score, p - 1);
    }
}

/// Scores beyond the entries that an order names do not move the slot.
proof fn lemma_slot_prefix(
    scores: Seq<Option<i64>>,
    longer: Seq<Option<i64>>,
    order: Seq<usize>,
    score: i64,
)
    requires
        scores.len() <= longer.len(),
        forall|i: int| 0 <= i < scores.len() ==> scores[i] == longer[i],
        forall|j: int| 0 <= j < order.len() ==> (#[trigger] order[j]) < scores.len(),
    ensures
        slot(scores, order, score) == slot(longer, order, score),
    decreases order.len(),
{
    if order.len() > 0 {
        let tail = order.drop_first();
        assert forall|j: int| 0 <= j < tail.len() implies (#[trigger] tail[j]) < scores.len() by {
            assert(tail[j] == order[j + 1]);
        }
        assert(order[0] < scores.len());
        lemma_slot_prefix(scores, longer, tail, score);
    }
}

/// Putting a newly scored last entry into its slot keeps a ranking a ranking.
proof fn lemma_insert_keeps_ranking(scores: Seq<Option<i64>>, rest: Seq<usize>, p: int)
    requires
        scores.len() > 0,
        scores.len() - 1 <= usize::MAX,
        scores.last() is Some,
        is_ranking(scores.drop_last(), rest),
        0 <= p <= rest.len(),
        forall|j: int| 0 <= j < p ==> scores[(#[trigger] rest[j]) as int]->0 >= scores.last()->0,
        p < rest.len() ==> scores[rest[p] as int]->0 < scores.last()->0,
    ensures
        is_ranking(scores, rest.insert(p, (scores.len() - 1) as usize)),
{
    let n = scores.len() - 1;
    let s = scores.last()->0;
    let head = scores.drop_last();
    let order = rest.insert(p, n as usize);
    assert forall|j: int| 0 <= j < order.len() implies (#[trigger] order[j]) < scores.len()
        && scores[order[j] as int] is Some by {
        if j < p {
            assert(order[j] == rest[j]);
            assert(head[rest[j] as int] is Some);
        } else if j > p {
            assert(order[j] == rest[j - 1]);
            assert(head[rest[j - 1] as int] is Some);
        }
    }
    assert forall|i: int| 0 <= i < scores.len() && (#[trigger] scores[i]) is Some implies order.contains(
        i as usize,
    ) by {
        if i == n {
            assert(order[p] == n as usize);
        } else {
            assert(head[i] is Some);
            assert(rest.contains(i as usize));
            let j = choose|j: int| 0 <= j < rest.len() && rest[j] == i as usize;
            if j < p {
                assert(order[j] == i as usize);
            } else {
                assert(order[j + 1] == i as usize);
            }
        }
    }
    assert forall|j: int, k: int| 0 <= j < k < order.len() implies precedes(
        scores,
        (#[trigger] order[j]) as int,
        (#[trigger] order[k]) as int,
    ) by {
        let a = if j < p {
            j
        } else {
            j - 1
        };
        let b = if k < p {
            k
        } else {
            k - 1
        };
        if j != p {
            assert(order[j] == rest[a]);
            assert(rest[a] < head.len());
        }
        if k != p {
            assert(order[k] == rest[b]);
            assert(rest[b] < head.len());
        }
        if j == p {
            // The new entry against one behind it.
            if b > p {
                assert(precedes(head, rest[p] as int, rest[b] as int));
            }
        } else if k == p {
            // One ahead of the new entry against it.
        } else {
            assert(precedes(head, rest[a] as int, rest[b] as int));
        }
    }
}

/// [`ranking`] is a ranking: it lists exactly the scored indices, in rank order,
/// and none of them twice.
pub proof fn lemma_ranking_is_ranking(scores: Seq<Option<i64>>)
    requires
        scores.len() <= usize::MAX,
    ensures
        is_ranking(scores, ranking(scores)),
        ranking(scores).no_duplicates(),
    decreases scores.len(),
{
    let order = ranking(scores);
    if scores.len() > 0 {
        let head = scores.drop_last();
        let rest = ranking(head);
        lemma_ranking_is_ranking(head);
        match scores.last() {
            Some(s) => {
                lemma_slot(scores, rest, s);
                lemma_insert_keeps_ranking(scores, rest, slot(scores, rest, s));
            },
            None => {
                assert forall|j: int| 0 <= j < order.len() implies (#[trigger] order[j])
                    < scores.len() && scores[order[j] as int] is Some by {
                    assert(head[rest[j] as int] is Some);
                }
                assert forall|i: int|
                    0 <= i < scores.len() && (#[trigger] scores[i]) is Some implies order.contains(
                    i as usize,
                ) by {
                    assert(head[i] is Some);
                }
                assert forall|j: int, k: int| 0 <= j < k < order.len() implies precedes(
                    scores,
                    (#[trigger] order[j]) as int,
                    (#[trigger] order[k]) as int,
                ) by {
                    assert(precedes(head, rest[j] as int, rest[k] as int));
                }
            },
        }
    }
    assert forall|j: int, k: int| 0 <= j < order.len() && 0 <= k < order.len() && j != k implies order[j]
        != order[k] by {
        if j < k {
            assert(precedes(scores, order[j] as int, order[k] as int));
        } else {
            assert(precedes(scores, order[k] as int, order[j] as int));
        }
    }
}

/// Whether `s` holds an ASCII capital letter.
fn holds_capital(s: &Vec<char>) -> (b: bool)
    ensures
        b == has_ascii_capital(s@),
{
    let mut i: usize = 0;
    while i < s.len()
        invariant
            i <= s.len(),
            forall|j: int| 0 <= j < i ==> !('A' <= #[trigger] s@[j] <= 'Z'),
        decreases s.len() - i,
    {
        if s[i] >= 'A' && s[i] <= 'Z' {
            return true;
        }
        i += 1;
    }
    false
}

/// Whether the character `c` of a text stands for the character `p` of a pattern.
fn chars_agree(c: char, p: char, case_counts: bool) -> (b: bool)
    ensures
        b == same_char(c, p, case_counts),
{
    if c == p {
        true
    } else if case_counts {
        false
    } else {
        let x = c as u32;
        let y = p as u32;
        (65 <= x && x <= 90 && y == x + 32) || (65 <= y && y <= 90 && x == y + 32)
    }
}

/// Whether `pattern` matches `text`: whether its characters occur in `text` in
/// order, case counting exactly when the pattern holds an ASCII capital letter.
pub fn is_match(text: &str, pattern: &str) -> (b: bool)
    ensures
        b == matches(pattern@, text@),
{
    let wanted = chars_of(pattern);
    let case_counts = holds_capital(&wanted);
    // Take each wanted character at the first place that offers it. No other
    // choice of places gets further.
    let ghost other = choose|at: Seq<int>| is_embedding(pattern@, text@, at, case_counts);
    let ghost mut found: Seq<int> = Seq::empty();
    let mut next: usize = 0;
    for c in it: text.chars()
        invariant
            it.seq() == text@,
            wanted@ == pattern@,
            case_counts == has_ascii_capital(pattern@),
            next <= wanted.len(),
            is_embedding(
                wanted@.take(next as int),
                text@.take(it.index() as int),
                found,
                case_counts,
            ),
            matches(pattern@, text@) ==> is_embedding(pattern@, text@, other, case_counts),
            matches(pattern@, text@) ==> forall|k: int|
                0 <= k < wanted.len() && (#[trigger] other[k]) < it.index() ==> k < next,
    {
        let ghost i = it.index() as int;
        let ghost before = next as int;
        if next < wanted.len() && chars_agree(c, wanted[next], case_counts) {
            proof {
                found = found.push(i);
            }
            next += 1;
        }
        proof {
            if matches(pattern@, text@) {
                assert forall|k: int|
                    0 <= k < wanted.len() && (#[trigger] other[k]) < i + 1 implies k < next by {
                    if other[k] == i {
                        if k > 0 {
                            assert(other[k - 1] < other[k]);
                        }
                        if k == before {
                            assert(same_char(text@[other[k]], pattern@[k], case_counts));
                        }
                    }
                }
            }
        }
    }
    proof {
        assert(text@.take(text@.len() as int) == text@);
        if next == wanted.len() {
            assert(wanted@.take(next as int) == pattern@);
        } else if matches(pattern@, text@) {
            assert(other[next as int] < text@.len());
        }
    }
    next == wanted.len()
}

/// Score `pattern` within `choice`. A match too long for the matcher gets the
/// lowest score.
fn fuzzy_score(choice: &str, pattern: &str) -> (r: Option<i64>)
    ensures
        r == match_score(choice@, pattern@),
{
    if str_len(choice) <= MAX_SCORED_LEN && str_len(pattern) <= MAX_SCORED_LEN {
        skim_fuzzy_match(choice, pattern)
    } else if is_match(choice, pattern) {
        Some(UNSCORED)
    } else {
        None
    }
}

/// The better of two scores.
fn better(a: Option<i64>, b: Option<i64>) -> (r: Option<i64>)
    ensures
        r == best_score(a, b),
{
    match (a, b) {
        (Some(x), Some(y)) => if x >= y {
            Some(x)
        } else {
            Some(y)
        },
        (Some(x), None) => Some(x),
        (None, _) => b,
    }
}

/// The query occurs in the entry: character for character, in order, in its
/// lower-cased name or in its lower-cased description.
pub open spec fn occurs_in_entry(query: Seq<char>, entry: CommandView) -> bool {
    is_subsequence(query, lowercase(entry.name)) || is_subsequence(
        query,
        lowercase(entry.description),
    )
}

/// Score one command against a query that is already folded. The command has
/// a score exactly if the query occurs in it.
pub fn score_entry(entry: &CommandEntry, query: &str) -> (r: Option<i64>)
    ensures
        r == entry_score(entry@, query@),
        r is Some <==> occurs_in_entry(query@, entry@),
{
    let name = str_to_lowercase(entry.name.as_str());
    let description = str_to_lowercase(entry.description.as_str());
    proof {
        if matches(query@, name@) {
            lemma_match_is_subsequence(query@, name@);
        }
        if matches(query@, description@) {
            lemma_match_is_subsequence(query@, description@);
        }
        if is_subsequence(query@, name@) {
            lemma_subsequence_matches(query@, name@);
        }
        if is_subsequence(query@, description@) {
            lemma_subsequence_matches(query@, description@);
        }
    }
    better(fuzzy_score(name.as_str(), query), fuzzy_score(description.as_str(), query))
}

/// Whether entry `index` has a score of at least `score`.
fn scores_at_least(scores: &Vec<Option<i64>>, index: usize, score: i64) -> (b: bool)
    requires
        index < scores.len(),
        scores[index as int] is Some,
    ensures
        b == (scores[index as int]->0 >= score),
{
    match scores[index] {
        Some(s) => s >= score,
        None => false,
    }
}

/// Rank the entries that have a score: best score first, equal scores in
/// index order. Entries without a score are left out.
pub fn rank_by_score(scores: &Vec<Option<i64>>) -> (order: Vec<usize>)
    ensures
        order@ == ranking(scores@),
        is_ranking(scores@, order@),
{
    let mut order: Vec<usize> = Vec::new();
    let mut i: usize = 0;
    while i < scores.len()
        invariant
            i <= scores.len(),
            order@ == ranking(scores@.take(i as int)),
        decreases scores.len() - i,
    {
        let ghost head = scores@.take(i as int);
        let ghost upto = scores@.take(i + 1);
        proof {
            lemma_ranking_is_ranking(head);
            assert(upto.drop_last() == head);
            assert(upto.last() == scores@[i as int]);
        }
        if let Some(s) = scores[i] {
            let mut p: usize = 0;
            while p < order.len() && scores_at_least(scores, order[p], s)
                invariant
                    i < scores.len(),
                    p <= order.len(),
                    is_ranking(head, order@),
                    head == scores@.take(i as int),
                    forall|j: int| 0 <= j < p ==> scores@[(#[trigger] order@[j]) as int]->0 >= s,
                decreases order.len() - p,
            {
                p += 1;
            }
            proof {
                assert forall|j: int| 0 <= j < order.len() implies (#[trigger] order@[j])
                    < head.len() by {}
                lemma_slot_prefix(head, upto, order@, s);
                assert forall|j: int| 0 <= j < p implies head[(#[trigger] order@[j]) as int]->0
                    >= s by {}
                lemma_slot_is(head, order@, s, p as int);
            }
            order.insert(p, i);
        }
        i += 1;
    }
    proof {
        assert(scores@.take(i as int) == scores@);
        lemma_ranking_is_ranking(scores@);
    }
    order
}

/// `listed` holds exactly the commands in which `query` occurs: each index it
/// holds names such a command, and every such command is among them.
pub open spec fn lists_occurrences(
    commands: Seq<CommandView>,
    query: Seq<char>,
    listed: Seq<usize>,
) -> bool {
    &&& forall|j: int|
        0 <= j < listed.len() ==> (#[trigger] listed[j]) < commands.len() && occurs_in_entry(
            query,
            commands[listed[j] as int],
        )
    &&& forall|i: int|
        0 <= i < commands.len() && occurs_in_entry(query, #[trigger] commands[i])
            ==> listed.contains(i as usize)
}

/// Rebuild `palette.filtered` from `palette.query`.
///
/// A blank query lists every command in registration order. Otherwise the
/// query is trimmed and lower-cased, each command gets the better of the scores
/// of its name and of its description, and the commands that have a score are
/// listed best first. Those are exactly the commands in whose lower-cased name
/// or description the folded query occurs, however long their texts are. The
/// highlight goes back to the first entry.
pub fn update_palette_filter(palette: &mut PaletteState)
    ensures
        final(palette)@ == refiltered(old(palette)@),
        final(palette)@.wf(),
        lists_occurrences(
            old(palette)@.commands,
            folded_query(old(palette)@.query),
            final(palette)@.filtered,
        ),
{
    let trimmed_query = str_trim(palette.query.as_str());
    let n = palette.commands.len();
    let ghost commands = commands_view(palette.commands@);
    proof {
        lemma_refiltered(palette@);
    }
    let mut filtered: Vec<usize> = Vec::new();
    if trimmed_query.is_empty() {
        let mut i: usize = 0;
        while i < n
            invariant
                i <= n,
                filtered@ == identity_order(i as nat),
            decreases n - i,
        {
            filtered.push(i);
            i += 1;
        }
        proof {
            assert forall|j: int| 0 <= j < filtered@.len() implies occurs_in_entry(
                Seq::empty(),
                commands[(#[trigger] filtered@[j]) as int],
            ) by {
                lemma_empty_is_subsequence(lowercase(commands[filtered@[j] as int].name));
            }
            assert forall|i: int|
                0 <= i < commands.len() && occurs_in_entry(
                    Seq::empty(),
                    #[trigger] commands[i],
                ) implies filtered@.contains(i as usize) by {
                assert(filtered@[i] == i as usize);
            }
        }
    } else {
        let folded = str_to_lowercase(trimmed_query);
        let mut scores: Vec<Option<i64>> = Vec::new();
        let mut i: usize = 0;
        while i < n
            invariant
                i <= n,
                n == palette.commands.len(),
                commands == commands_view(palette.commands@),
                scores@ == entry_scores(commands, folded@).take(i as int),
                forall|k: int|
                    0 <= k < i ==> ((#[trigger] scores@[k]) is Some <==> occurs_in_entry(
                        folded@,
                        commands[k],
                    )),
            decreases n - i,
        {
            let score = score_entry(&palette.commands[i], folded.as_str());
            scores.push(score);
            i += 1;
        }
        proof {
            let all = entry_scores(commands, folded@);
            assert(all.take(n as int) == all);
        }
        filtered = rank_by_score(&scores);
        proof {
            assert forall|i: int|
                0 <= i < commands.len() && occurs_in_entry(
                    folded@,
                    #[trigger] commands[i],
                ) implies filtered@.contains(i as usize) by {
                assert(scores@[i] is Some);
            }
        }
    }
    palette.filtered = filtered;
    palette.selected_index = 0;
}

/// The query matches the entry: it matches its lower-cased name or its
/// lower-cased description.
pub open spec fn entry_matches(entry: CommandView, query: Seq<char>) -> bool {
    matches(query, lowercase(entry.name)) || matches(query, lowercase(entry.description))
}

/// For a non-blank query the palette lists exactly the entries that the folded
/// query matches, each once, whatever the length of their texts. An entry in
/// which the folded query occurs character for character is among them; an
/// entry that the folded query does not match is never listed.
pub proof fn lemma_listed_entries_match(commands: Seq<CommandView>, query: Seq<char>)
    requires
        commands.len() <= usize::MAX,
        folded_query(query).len() > 0,
    ensures
        filter_result(commands, query).no_duplicates(),
        forall|j: int|
            0 <= j < filter_result(commands, query).len() ==> {
                let i = #[trigger] filter_result(commands, query)[j];
                i < commands.len() && entry_matches(commands[i as int], folded_query(query))
            },
        forall|i: int|
            0 <= i < commands.len() && entry_matches(#[trigger] commands[i], folded_query(query))
                ==> filter_result(commands, query).contains(i as usize),
        forall|i: int|
            0 <= i < commands.len() && occurs_in_entry(folded_query(query), #[trigger] commands[i])
                ==> filter_result(commands, query).contains(i as usize),
{
    let folded = folded_query(query);
    let scores = entry_scores(commands, folded);
    let listed = filter_result(commands, query);
    lemma_ranking_is_ranking(scores);
    assert forall|j: int| 0 <= j < listed.len() implies {
        let i = #[trigger] listed[j];
        i < commands.len() && entry_matches(commands[i as int], folded)
    } by {
        assert(scores[listed[j] as int] is Some);
    }
    assert forall|i: int|
        0 <= i < commands.len() && entry_matches(
            #[trigger] commands[i],
            folded,
        ) implies listed.contains(i as usize) by {
        assert(scores[i] is Some);
    }
    assert forall|i: int|
        0 <= i < commands.len() && occurs_in_entry(
            folded,
            #[trigger] commands[i],
        ) implies listed.contains(i as usize) by {
        let entry = commands[i];
        if is_subsequence(folded, lowercase(entry.name)) {
            lemma_subsequence_matches(folded, lowercase(entry.name));
        }
        if is_subsequence(folded, lowercase(entry.description)) {
            lemma_subsequence_matches(folded, lowercase(entry.description));
        }
        assert(scores[i] is Some);
    }
}

/// A blank query lists every command once, in registration order, whatever
/// was listed before.
pub proof fn lemma_blank_query_lists_all(palette: PaletteView)
    requires
        palette.commands.len() <= usize::MAX,
        trimmed(palette.query).len() == 0,
    ensures
        refiltered(palette).filtered == identity_order(palette.commands.len()),
        refiltered(palette).filtered.len() == palette.commands.len(),
        forall|i: int|
            0 <= i < palette.commands.len() ==> #[trigger] refiltered(palette).filtered[i] == i,
{
}

/// The empty query is blank.
pub proof fn lemma_empty_query_is_blank()
    ensures
        trimmed(Seq::<char>::empty()).len() == 0,
        folded_query(Seq::<char>::empty()).len() == 0,
{
}

/// Recomputing the filter puts the highlight on the first entry, keeps the
/// palette well formed and leaves everything but the list and the highlight
/// as it was.
pub proof fn lemma_refiltered(palette: PaletteView)
    requires
        palette.commands.len() <= usize::MAX,
    ensures
        refiltered(palette).selected_index == 0,
        refiltered(palette).wf(),
        refiltered(palette).visible == palette.visible,
        refiltered(palette).query == palette.query,
        refiltered(palette).commands == palette.commands,
        refiltered(refiltered(palette)) == refiltered(palette),
{
    let folded = folded_query(palette.query);
    if folded.len() > 0 {
        lemma_ranking_is_ranking(entry_scores(palette.commands, folded));
    }
}

/// Two rankings of the same scores agree on every position they share.
proof fn lemma_rankings_agree_at(
    scores: Seq<Option<i64>>,
    first: Seq<usize>,
    second: Seq<usize>,
    j: int,
)
    requires
        is_ranking(scores, first),
        is_ranking(scores, second),
        0 <= j < first.len(),
        j < second.len(),
    ensures
        first[j] == second[j],
    decreases j,
{
    assert forall|m: int| 0 <= m < j implies first[m] == second[m] by {
        lemma_rankings_agree_at(scores, first, second, m);
    }
    let a = first[j];
    let b = second[j];
    assert(scores[a as int] is Some);
    assert(scores[b as int] is Some);
    assert(second.contains(a));
    assert(first.contains(b));
    let p = choose|p: int| 0 <= p < second.len() && second[p] == a;
    let q = choose|q: int| 0 <= q < first.len() && first[q] == b;
    if p < j {
        assert(precedes(scores, first[p] as int, first[j] as int));
    } else if q < j {
        assert(precedes(scores, second[q] as int, second[j] as int));
    } else if p > j && q > j {
        assert(precedes(scores, second[j] as int, second[p] as int));
        assert(precedes(scores, first[j] as int, first[q] as int));
    }
}

/// The scores determine their ranking: whatever lists exactly the scored
/// indices in rank order is [`ranking`].
pub proof fn lemma_ranking_unique(scores: Seq<Option<i64>>, order: Seq<usize>)
    requires
        scores.len() <= usize::MAX,
        is_ranking(scores, order),
    ensures
        order == ranking(scores),
{
    let other = ranking(scores);
    lemma_ranking_is_ranking(scores);
    assert forall|j: int| 0 <= j < order.len() && j < other.len() implies order[j] == other[j] by {
        lemma_rankings_agree_at(scores, order, other, j);
    }
    if order.len() < other.len() {
        let extra = other[order.len() as int];
        assert(scores[extra as int] is Some);
        assert(order.contains(extra));
        let q = choose|q: int| 0 <= q < order.len() && order[q] == extra;
        assert(precedes(scores, other[q] as int, other[order.len() as int] as int));
    } else if other.len() < order.len() {
        let extra = order[other.len() as int];
        assert(scores[extra as int] is Some);
        assert(other.contains(extra));
        let q = choose|q: int| 0 <= q < other.len() && other[q] == extra;
        assert(precedes(scores, order[q] as int, order[other.len() as int] as int));
    }
    assert(order =~= other);
}

// ---------------------------------------------------------------------------
// Registry
// ---------------------------------------------------------------------------
/// Commands that are always available, with or without a backend.
pub const BUILTIN_COMMANDS: [(&'static str, &'static str); 31] = [
    ("/help", "Show help and available commands"),
    ("/tools", "List all available MCP tools"),
    ("/schema", "Show tool schema / parameters"),
    ("/call", "Call a tool directly"),
    ("/analyze", "Analyze a repository"),
    ("/repos", "List repositories"),
    ("/prs", "List pull requests"),
    ("/pr", "Get pull request details"),
    ("/issues", "List issues in a repo"),
    ("/issue", "Get issue details"),
    ("/newissue", "Create a new issue"),
    ("/commentissue", "Comment on an issue"),
    ("/closeissue", "Close an issue"),
    ("/comment", "Comment on a pull request"),
    ("/merge", "Merge a pull request"),
    ("/readme", "Get or update README (use agent for update)"),
    ("/workflows", "List CI/CD workflows"),
    ("/trigger", "Trigger a workflow run"),
    ("/runs", "List workflow runs"),
    ("/run", "Get workflow run details"),
    ("/failing", "Get PRs with failing CI"),
    ("/heal", "Auto-heal failing PR (analyze, fix code, apply, rerun CI)"),
    ("/logs", "Get CI logs for a run"),
    ("/analyze-failure", "Analyze a CI failure"),
    ("/context", "Locate relevant code context"),
    ("/patch", "Generate a fix patch"),
    ("/apply", "Apply a fix to a pull request"),
    ("/rerun", "Re-run CI for a workflow"),
    ("/chat", "Chat with the AI agent (agentic reasoning)"),
    ("/index", "Index a repo into the RAG knowledge base"),
    ("/reset", "Clear agent conversation memory"),
];

/// The built-in commands, in the order of [`BUILTIN_COMMANDS`].
pub open spec fn builtin_commands() -> Seq<CommandView> {
    Seq::new(
        31,
        |i: int| CommandView { name: BUILTIN_COMMANDS@[i].0@, description: BUILTIN_COMMANDS@[i].1@ },
    )
}

/// Some command is registered under `name`.
pub open spec fn has_name(commands: Seq<CommandView>, name: Seq<char>) -> bool {
    exists|i: int| 0 <= i < commands.len() && (#[trigger] commands[i]).name == name
}

/// The registry after `entry` has asked to join: it is appended unless its
/// name is taken.
pub open spec fn with_entry(commands: Seq<CommandView>, entry: CommandView) -> Seq<CommandView> {
    if has_name(commands, entry.name) {
        commands
    } else {
        commands.push(entry)
    }
}

/// The registry after the entries of `extra` have asked to join, one after
/// the other.
pub open spec fn registered(commands: Seq<CommandView>, extra: Seq<CommandView>) -> Seq<
    CommandView,
>
    decreases extra.len(),
{
    if extra.len() == 0 {
        commands
    } else {
        with_entry(registered(commands, extra.drop_last()), extra.last())
    }
}

/// No two commands share a name.
pub open spec fn names_unique(commands: Seq<CommandView>) -> bool {
    forall|i: int, j: int|
        0 <= i < j < commands.len() ==> (#[trigger] commands[i]).name != (
        #[trigger] commands[j]).name
}

/// Add `entry` to the registry unless a command of that name is registered.
pub fn register_command(commands: &mut Vec<CommandEntry>, entry: CommandEntry)
    ensures
        commands_view(final(commands)@) == with_entry(commands_view(old(commands)@), entry@),
{
    let mut i: usize = 0;
    while i < commands.len()
        invariant
            i <= commands.len(),
            *commands == *old(commands),
            forall|j: int| 0 <= j < i ==> (#[trigger] commands@[j])@.name != entry@.name,
        decreases commands.len() - i,
    {
        if crate::text::str_eq(commands[i].name.as_str(), entry.name.as_str()) {
            proof {
                assert(commands_view(commands@)[i as int].name == entry@.name);
            }
            return ;
        }
        i += 1;
    }
    proof {
        let before = commands_view(commands@);
        assert forall|j: int| 0 <= j < before.len() implies (#[trigger] before[j]).name
            != entry@.name by {
            assert(before[j] == commands@[j]@);
        }
        assert(commands_view(commands@.push(entry)) == before.push(entry@));
    }
    commands.push(entry);
}

/// Registration keeps what is registered, in place, and never admits a name
/// twice: a registry with unique names keeps its names unique.
pub proof fn lemma_registered(commands: Seq<CommandView>, extra: Seq<CommandView>)
    ensures
        commands.is_prefix_of(registered(commands, extra)),
        names_unique(commands) ==> names_unique(registered(commands, extra)),
        forall|i: int|
            0 <= i < extra.len() ==> has_name(
                registered(commands, extra),
                (#[trigger] extra[i]).name,
            ),
    decreases extra.len(),
{
    if extra.len() > 0 {
        let before = registered(commands, extra.drop_last());
        let after = registered(commands, extra);
        lemma_registered(commands, extra.drop_last());
        assert forall|i: int| 0 <= i < extra.len() implies has_name(
            after,
            (#[trigger] extra[i]).name,
        ) by {
            if i < extra.len() - 1 {
                assert(extra[i] == extra.drop_last()[i]);
                assert(has_name(before, extra.drop_last()[i].name));
                let w = choose|w: int|
                    0 <= w < before.len() && (#[trigger] before[w]).name == extra[i].name;
                assert(after[w].name == extra[i].name);
            } else if has_name(before, extra.last().name) {
            } else {
                assert(after[before.len() as int].name == extra[i].name);
            }
        }
    }
}

} // verus!
