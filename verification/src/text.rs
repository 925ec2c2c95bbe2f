//! Text primitives: UTF-8 byte offsets over character sequences, whitespace
//! trimming, case folding, and the `std` string operations the rest of the
//! crate builds on.

use vstd::prelude::*;
use vstd::utf8::encode_utf8;

verus! {

/// Whether `c` has the Unicode `White_Space` property: the controls from tab
/// to carriage return, the space, next line, the no-break space, the ogham
/// space mark, the spaces from en quad to hair space, the line and paragraph
/// separators, the narrow no-break space, the medium mathematical space and
/// the ideographic space.
pub open spec fn is_whitespace(c: char) -> bool {
    let v = c as u32;
    ||| 0x09 <= v <= 0x0D
    ||| v == 0x20
    ||| v == 0x85
    ||| v == 0xA0
    ||| v == 0x1680
    ||| 0x2000 <= v <= 0x200A
    ||| v == 0x2028
    ||| v == 0x2029
    ||| v == 0x202F
    ||| v == 0x205F
    ||| v == 0x3000
}

/// `s` holds an ASCII capital letter.
pub open spec fn has_ascii_capital(s: Seq<char>) -> bool {
    exists|i: int| 0 <= i < s.len() && 'A' <= #[trigger] s[i] <= 'Z'
}

/// The lowercase equivalent of `s`, as `str::to_lowercase` computes it.
pub uninterp spec fn lowercase(s: Seq<char>) -> Seq<char>;

/// Number of bytes in the UTF-8 encoding of `s`.
pub open spec fn utf8_len(s: Seq<char>) -> nat {
    encode_utf8(s).len()
}

/// Number of bytes in the UTF-8 encoding of `c`.
pub open spec fn utf8_width(c: char) -> nat {
    utf8_len(seq![c])
}

/// `off` is the byte offset of the `k`-th character of `s` (or of its end, when `k == s.len()`).
pub open spec fn offset_of(s: Seq<char>, k: int, off: int) -> bool {
    0 <= k <= s.len() && utf8_len(s.take(k)) == off
}

/// `off` falls between two characters of `s`, at its start or at its end.
pub open spec fn is_boundary(s: Seq<char>, off: int) -> bool {
    exists|k: int| offset_of(s, k, off)
}

/// Number of characters of `s` that lie before the byte offset `off`.
pub open spec fn char_index(s: Seq<char>, off: int) -> int {
    choose|k: int| offset_of(s, k, off)
}

/// `s` without its leading whitespace.
pub open spec fn trim_start(s: Seq<char>) -> Seq<char>
    decreases s.len(),
{
    if s.len() > 0 && is_whitespace(s.first()) {
        trim_start(s.drop_first())
    } else {
        s
    }
}

/// `s` without its trailing whitespace.
pub open spec fn trim_end(s: Seq<char>) -> Seq<char>
    decreases s.len(),
{
    if s.len() > 0 && is_whitespace(s.last()) {
        trim_end(s.drop_last())
    } else {
        s
    }
}

/// `s` without leading and trailing whitespace.
pub open spec fn trimmed(s: Seq<char>) -> Seq<char> {
    trim_end(trim_start(s))
}

/// `char::is_whitespace`: whether `c` has the `White_Space` property.
#[verifier::external_body]
pub(crate) fn char_is_whitespace(c: char) -> (r: bool)
    ensures
        r == is_whitespace(c),
{
    c.is_whitespace()
}

/// The number of bytes `c` takes when encoded in UTF-8.
pub(crate) fn char_len_utf8(c: char) -> (r: usize)
    ensures
        r == utf8_width(c),
{
    let v = c as u32;
    proof {
        reveal_with_fuel(encode_utf8, 2);
        assert(seq![c].drop_first() == Seq::<char>::empty());
    }
    if v < 0x80 {
        1
    } else if v < 0x800 {
        2
    } else if v < 0x10000 {
        3
    } else {
        4
    }
}

/// `str::trim`: the sub-slice left after removing leading and trailing
/// characters that have the `White_Space` property.
#[verifier::external_body]
pub(crate) fn str_trim(s: &str) -> (r: &str)
    ensures
        r@ == trimmed(s@),
{
    s.trim()
}

/// `str::to_lowercase`: a new string holding the lowercase equivalent of `s`.
/// Every character is replaced by one or more characters, so a text that is
/// not empty stays so, and no ASCII capital letter is left or brought in.
#[verifier::external_body]
pub(crate) fn str_to_lowercase(s: &str) -> (r: String)
    ensures
        r@ == lowercase(s@),
        !has_ascii_capital(r@),
        s@.len() > 0 ==> r@.len() > 0,
{
    s.to_lowercase()
}

/// `==` on string slices (`str::eq`): whether the two hold the same characters.
#[verifier::external_body]
pub(crate) fn str_eq(a: &str, b: &str) -> (r: bool)
    ensures
        r == (a@ == b@),
{
    a == b
}

/// `String::push`: appends `c` to the end of `s`.
#[verifier::external_body]
pub(crate) fn string_push(s: &mut String, c: char)
    ensures
        final(s)@ == old(s)@.push(c),
{
    s.push(c)
}

/// `String::insert`: inserts `c` at byte offset `off`, which has to lie on a
/// character boundary of `s`; the characters from there on move right.
#[verifier::external_body]
pub(crate) fn string_insert(s: &mut String, off: usize, c: char)
    requires
        is_boundary(old(s)@, off as int),
    ensures
        final(s)@ == old(s)@.insert(char_index(old(s)@, off as int), c),
{
    s.insert(off, c)
}

/// `String::remove`: removes and returns the character that starts at byte
/// offset `off`, which has to lie on a character boundary before the end of `s`.
#[verifier::external_body]
pub(crate) fn string_remove(s: &mut String, off: usize) -> (c: char)
    requires
        is_boundary(old(s)@, off as int),
        off < utf8_len(old(s)@),
    ensures
        c == old(s)@[char_index(old(s)@, off as int)],
        final(s)@ == old(s)@.remove(char_index(old(s)@, off as int)),
{
    s.remove(off)
}

/// The length of `s` in bytes.
pub(crate) fn str_len(s: &str) -> (n: usize)
    ensures
        n == utf8_len(s@),
{
    s.as_bytes().len()
}

/// Encoding distributes over concatenation.
pub proof fn lemma_encode_concat(a: Seq<char>, b: Seq<char>)
    ensures
        encode_utf8(a + b) == encode_utf8(a) + encode_utf8(b),
    decreases a.len(),
{
    if a.len() == 0 {
        assert(a + b == b);
    } else {
        assert((a + b).drop_first() == a.drop_first() + b);
        lemma_encode_concat(a.drop_first(), b);
    }
}

/// Every character takes between one and four bytes.
pub proof fn lemma_width_bounds(c: char)
    ensures
        1 <= utf8_width(c) <= 4,
{
    reveal_with_fuel(encode_utf8, 2);
    assert(seq![c].drop_first() == Seq::<char>::empty());
}

/// ASCII characters take one byte.
pub proof fn lemma_width_ascii(c: char)
    requires
        (c as u32) < 0x80,
    ensures
        utf8_width(c) == 1,
{
    reveal_with_fuel(encode_utf8, 2);
    assert(seq![c].drop_first() == Seq::<char>::empty());
}

/// Appending a character adds its width to the byte length.
pub proof fn lemma_len_push(s: Seq<char>, c: char)
    ensures
        utf8_len(s.push(c)) == utf8_len(s) + utf8_width(c),
{
    assert(s.push(c) == s + seq![c]);
    lemma_encode_concat(s, seq![c]);
}

/// The byte length of a concatenation is the sum of the byte lengths.
pub proof fn lemma_len_concat(a: Seq<char>, b: Seq<char>)
    ensures
        utf8_len(a + b) == utf8_len(a) + utf8_len(b),
{
    lemma_encode_concat(a, b);
}

/// A string takes at least one byte per character.
pub proof fn lemma_len_at_least_chars(s: Seq<char>)
    ensures
        s.len() <= utf8_len(s),
    decreases s.len(),
{
    if s.len() > 0 {
        lemma_len_at_least_chars(s.drop_last());
        assert(s == s.drop_last().push(s.last()));
        lemma_len_push(s.drop_last(), s.last());
        lemma_width_bounds(s.last());
    }
}

/// Longer prefixes take strictly more bytes.
pub proof fn lemma_prefix_len_increasing(s: Seq<char>, i: int, j: int)
    requires
        0 <= i < j <= s.len(),
    ensures
        utf8_len(s.take(i)) < utf8_len(s.take(j)),
    decreases j - i,
{
    assert(s.take(j) == s.take(j - 1).push(s[j - 1]));
    lemma_len_push(s.take(j - 1), s[j - 1]);
    lemma_width_bounds(s[j - 1]);
    if i < j - 1 {
        lemma_prefix_len_increasing(s, i, j - 1);
    }
}

/// A byte offset determines the number of characters before it.
pub proof fn lemma_char_index(s: Seq<char>, k: int, off: int)
    requires
        offset_of(s, k, off),
    ensures
        is_boundary(s, off),
        char_index(s, off) == k,
{
    let j = char_index(s, off);
    assert(offset_of(s, j, off));
    if j < k {
        lemma_prefix_len_increasing(s, j, k);
    } else if k < j {
        lemma_prefix_len_increasing(s, k, j);
    }
}

/// Boundaries lie within the string; the start and the end are boundaries.
pub proof fn lemma_boundary_range(s: Seq<char>, off: int)
    ensures
        is_boundary(s, 0),
        char_index(s, 0) == 0,
        is_boundary(s, utf8_len(s) as int),
        char_index(s, utf8_len(s) as int) == s.len(),
        is_boundary(s, off) ==> 0 <= off <= utf8_len(s),
{
    assert(s.take(0) == Seq::<char>::empty());
    assert(s.take(s.len() as int) == s);
    lemma_char_index(s, 0, 0);
    lemma_char_index(s, s.len() as int, utf8_len(s) as int);
    if is_boundary(s, off) {
        let k = char_index(s, off);
        assert(offset_of(s, k, off));
        if k < s.len() {
            lemma_prefix_len_increasing(s, k, s.len() as int);
        }
    }
}

/// The characters of `s`, in order.
pub(crate) fn chars_of(s: &str) -> (chars: Vec<char>)
    ensures
        chars@ == s@,
{
    let mut chars: Vec<char> = Vec::new();
    for c in it: s.chars()
        invariant
            it.seq() == s@,
            chars@ == it.seq().take(it.index() as int),
    {
        chars.push(c);
    }
    chars
}

/// The string made of `chars[from..to]`.
pub(crate) fn string_of(chars: &Vec<char>, from: usize, to: usize) -> (s: String)
    requires
        from <= to <= chars.len(),
    ensures
        s@ == chars@.subrange(from as int, to as int),
{
    let mut s = String::new();
    let mut i = from;
    while i < to
        invariant
            from <= i <= to <= chars.len(),
            s@ == chars@.subrange(from as int, i as int),
        decreases to - i,
    {
        string_push(&mut s, chars[i]);
        i += 1;
    }
    s
}

/// Inserting a character at a boundary moves the boundary behind it by the
/// width of the character.
pub proof fn lemma_insert_at_boundary(s: Seq<char>, k: int, off: int, c: char)
    requires
        offset_of(s, k, off),
    ensures
        offset_of(s.insert(k, c), k + 1, off + utf8_width(c)),
        utf8_len(s.insert(k, c)) == utf8_len(s) + utf8_width(c),
{
    let t = s.insert(k, c);
    assert(t.take(k + 1) == s.take(k).push(c));
    lemma_len_push(s.take(k), c);
    assert(t == s.take(k).push(c) + s.skip(k));
    lemma_len_concat(s.take(k).push(c), s.skip(k));
    assert(s == s.take(k) + s.skip(k));
    lemma_len_concat(s.take(k), s.skip(k));
}

/// Removing the character before a boundary moves the boundary back by the
/// width of the character.
pub proof fn lemma_remove_before_boundary(s: Seq<char>, k: int, off: int)
    requires
        offset_of(s, k, off),
        k >= 1,
    ensures
        offset_of(s, k - 1, off - utf8_width(s[k - 1])),
        offset_of(s.remove(k - 1), k - 1, off - utf8_width(s[k - 1])),
        off - utf8_width(s[k - 1]) < utf8_len(s),
        off - utf8_width(s[k - 1]) >= 0,
{
    assert(s.take(k) == s.take(k - 1).push(s[k - 1]));
    lemma_len_push(s.take(k - 1), s[k - 1]);
    lemma_width_bounds(s[k - 1]);
    assert(s.remove(k - 1).take(k - 1) == s.take(k - 1));
    lemma_boundary_range(s, off);
    lemma_char_index(s, k, off);
}

/// No boundary lies strictly between two neighbouring boundaries.
proof fn lemma_no_boundary_between(s: Seq<char>, k: int, off: int)
    requires
        0 <= k < s.len(),
        utf8_len(s.take(k)) < off < utf8_len(s.take(k + 1)),
    ensures
        !is_boundary(s, off),
{
    if is_boundary(s, off) {
        let j = char_index(s, off);
        assert(offset_of(s, j, off));
        if j < k {
            lemma_prefix_len_increasing(s, j, k);
        } else if j > k + 1 {
            lemma_prefix_len_increasing(s, k + 1, j);
        }
    }
}

/// Whether the byte offset `off` lies on a character boundary of `s`.
pub fn is_char_offset(s: &str, off: usize) -> (b: bool)
    ensures
        b == is_boundary(s@, off as int),
{
    let len = str_len(s);
    if off > len {
        proof {
            lemma_boundary_range(s@, off as int);
        }
        return false;
    }
    let mut reached: usize = 0;
    proof {
        assert(s@.take(0) == Seq::<char>::empty());
    }
    for c in it: s.chars()
        invariant
            it.seq() == s@,
            len == utf8_len(s@),
            off <= len,
            reached == utf8_len(s@.take(it.index() as int)),
            reached <= off,
    {
        let ghost k = it.index() as int;
        if reached == off {
            assert(offset_of(s@, k, off as int));
            return true;
        }
        proof {
            assert(s@.take(k + 1) == s@.take(k).push(c));
            lemma_len_push(s@.take(k), c);
            if k + 1 < s@.len() {
                lemma_prefix_len_increasing(s@, k + 1, s@.len() as int);
                assert(s@.take(s@.len() as int) == s@);
            } else {
                assert(s@.take(k + 1) == s@);
            }
        }
        reached = reached + char_len_utf8(c);
        if reached > off {
            proof {
                lemma_no_boundary_between(s@, k, off as int);
            }
            return false;
        }
    }
    proof {
        assert(s@.take(s@.len() as int) == s@);
        lemma_boundary_range(s@, off as int);
    }
    true
}

/// Insert `c` at the byte offset `cursor` and return the offset just behind it.
pub fn insert_char(buffer: &mut String, cursor: usize, c: char) -> (after: usize)
    requires
        is_boundary(old(buffer)@, cursor as int),
    ensures
        final(buffer)@ == old(buffer)@.insert(char_index(old(buffer)@, cursor as int), c),
        after == cursor + utf8_width(c),
        offset_of(final(buffer)@, char_index(old(buffer)@, cursor as int) + 1, after as int),
{
    let ghost before = buffer@;
    let ghost k = char_index(before, cursor as int);
    string_insert(buffer, cursor, c);
    let width = char_len_utf8(c);
    let len = str_len(buffer.as_str());
    proof {
        lemma_insert_at_boundary(before, k, cursor as int, c);
        lemma_boundary_range(before, cursor as int);
        lemma_width_bounds(c);
    }
    cursor + width
}

/// Find the character that ends at the byte offset `cursor`: the number of
/// characters before `cursor`, and the offset at which the last of them starts
/// (zero when there is none).
pub fn locate(text: &str, cursor: usize) -> (found: (usize, usize))
    requires
        is_boundary(text@, cursor as int),
    ensures
        found.0 == char_index(text@, cursor as int),
        found.0 == 0 ==> found.1 == 0,
        found.0 > 0 ==> found.1 == cursor - utf8_width(text@[found.0 - 1]),
{
    let ghost goal = char_index(text@, cursor as int);
    let mut count: usize = 0;
    let mut offset: usize = 0;
    let mut previous: usize = 0;
    proof {
        assert(text@.take(0) == Seq::<char>::empty());
        lemma_len_at_least_chars(text@.take(goal));
    }
    for c in it: text.chars()
        invariant
            it.seq() == text@,
            offset_of(text@, goal, cursor as int),
            goal <= cursor,
            count == it.index(),
            count <= goal,
            offset == utf8_len(text@.take(count as int)),
            count > 0 ==> previous == utf8_len(text@.take(count - 1)),
            count == 0 ==> previous == 0,
    {
        if offset == cursor {
            proof {
                lemma_char_index(text@, count as int, cursor as int);
                if count > 0 {
                    lemma_remove_before_boundary(text@, count as int, cursor as int);
                }
            }
            return (count, previous);
        }
        proof {
            if count == goal {
                assert(false);
            }
            assert(text@.take(count + 1) == text@.take(count as int).push(c));
            lemma_len_push(text@.take(count as int), c);
            if count + 1 < goal {
                lemma_prefix_len_increasing(text@, count + 1, goal);
            }
        }
        previous = offset;
        offset = offset + char_len_utf8(c);
        count = count + 1;
    }
    proof {
        if count < goal {
            assert(false);
        }
        if count > 0 {
            lemma_remove_before_boundary(text@, count as int, cursor as int);
        }
    }
    (count, previous)
}

/// Remove the character before the byte offset `cursor`, which starts at
/// the byte offset `start`, as [`locate`] reports it.
pub fn remove_char(buffer: &mut String, start: usize, cursor: usize)
    requires
        is_boundary(old(buffer)@, cursor as int),
        char_index(old(buffer)@, cursor as int) >= 1,
        start == cursor - utf8_width(old(buffer)@[char_index(old(buffer)@, cursor as int) - 1]),
    ensures
        final(buffer)@ == old(buffer)@.remove(char_index(old(buffer)@, cursor as int) - 1),
        offset_of(final(buffer)@, char_index(old(buffer)@, cursor as int) - 1, start as int),
{
    proof {
        let k = char_index(buffer@, cursor as int);
        assert(offset_of(buffer@, k, cursor as int));
        lemma_remove_before_boundary(buffer@, k, cursor as int);
        lemma_char_index(buffer@, k - 1, start as int);
    }
    string_remove(buffer, start);
}

/// What follows the first byte of `s`: everything but the first character if
/// that character is one byte wide, and nothing otherwise.
pub open spec fn after_first_byte(s: Seq<char>) -> Seq<char> {
    if s.len() > 0 && utf8_width(s.first()) == 1 {
        s.skip(1)
    } else {
        Seq::empty()
    }
}

/// The text that follows the first byte of `s`.
pub fn tail_after_first_byte(s: &str) -> (tail: String)
    ensures
        tail@ == after_first_byte(s@),
{
    let chars = chars_of(s);
    if chars.len() > 0 && char_len_utf8(chars[0]) == 1 {
        string_of(&chars, 1, chars.len())
    } else {
        String::new()
    }
}

/// Number of newline characters in `s`.
pub open spec fn newline_count(s: Seq<char>) -> nat
    decreases s.len(),
{
    if s.len() == 0 {
        0
    } else {
        newline_count(s.drop_last()) + if s.last() == '\n' {
            1nat
        } else {
            0nat
        }
    }
}

/// Number of lines of `s`: one per newline, and one more for text that
/// follows the last newline.
pub open spec fn line_count(s: Seq<char>) -> nat {
    newline_count(s) + if s.len() > 0 && s.last() != '\n' {
        1nat
    } else {
        0nat
    }
}

/// There are no more newlines than characters.
pub proof fn lemma_newline_count_bound(s: Seq<char>)
    ensures
        newline_count(s) <= s.len(),
    decreases s.len(),
{
    if s.len() > 0 {
        lemma_newline_count_bound(s.drop_last());
    }
}

/// Count the lines of `s`.
pub fn count_lines(s: &str) -> (n: usize)
    ensures
        n == line_count(s@),
{
    let bytes = str_len(s);
    let mut newlines: usize = 0;
    let mut open_line: bool = false;
    proof {
        lemma_len_at_least_chars(s@);
        assert(s@.take(0) == Seq::<char>::empty());
    }
    for c in it: s.chars()
        invariant
            it.seq() == s@,
            s@.len() <= bytes,
            newlines == newline_count(s@.take(it.index() as int)),
            newlines <= it.index(),
            open_line == (it.index() > 0 && s@[it.index() - 1] != '\n'),
    {
        proof {
            let i = it.index() as int;
            assert(s@.take(i + 1).drop_last() == s@.take(i));
        }
        if c == '\n' {
            newlines = newlines + 1;
            open_line = false;
        } else {
            open_line = true;
        }
    }
    proof {
        assert(s@.take(s@.len() as int) == s@);
        if s@.len() > 0 {
            lemma_newline_count_bound(s@.drop_last());
        }
    }
    if open_line {
        newlines + 1
    } else {
        newlines
    }
}

/// `s` without `prefix` in front, or `s` itself if it does not start with it.
pub open spec fn without_prefix(s: Seq<char>, prefix: Seq<char>) -> Seq<char> {
    if prefix.is_prefix_of(s) {
        s.skip(prefix.len() as int)
    } else {
        s
    }
}

/// Drop `prefix` from the front of `s` if `s` starts with it.
pub fn strip_prefix(s: &str, prefix: &str) -> (rest: String)
    ensures
        rest@ == without_prefix(s@, prefix@),
{
    let chars = chars_of(s);
    let lead = chars_of(prefix);
    if lead.len() > chars.len() {
        return s.to_owned();
    }
    let mut i: usize = 0;
    while i < lead.len()
        invariant
            i <= lead.len() <= chars.len(),
            chars@ == s@,
            lead@ == prefix@,
            forall|j: int| 0 <= j < i ==> chars@[j] == lead@[j],
        decreases lead.len() - i,
    {
        if chars[i] != lead[i] {
            proof {
                if lead@.is_prefix_of(chars@) {
                    assert(chars@.subrange(0, lead@.len() as int)[i as int] == lead@[i as int]);
                }
            }
            return s.to_owned();
        }
        i += 1;
    }
    assert(lead@ =~= chars@.subrange(0, lead@.len() as int));
    string_of(&chars, lead.len(), chars.len())
}

/// The decimal digits.
pub const DIGITS: [char; 10] = ['0', '1', '2', '3', '4', '5', '6', '7', '8', '9'];

/// `n` in decimal notation.
pub open spec fn decimal_of(n: nat) -> Seq<char>
    decreases n,
{
    if n < 10 {
        seq![DIGITS@[n as int]]
    } else {
        decimal_of(n / 10).push(DIGITS@[n as int % 10])
    }
}

/// Write `n` in decimal notation.
pub fn decimal(n: u64) -> (text: String)
    ensures
        text@ == decimal_of(n as nat),
    decreases n,
{
    if n < 10 {
        let mut text = String::new();
        string_push(&mut text, DIGITS[n as usize]);
        text
    } else {
        let mut text = decimal(n / 10);
        string_push(&mut text, DIGITS[(n % 10) as usize]);
        text
    }
}

} // verus!
