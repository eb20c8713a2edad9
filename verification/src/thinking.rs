//! Recognition of `<thinking>…</thinking>` in assistant text.
//!
//! A tag that stands next to a quoting character is a mention of the tag, not the tag itself.

use crate::text;
use crate::text::{begins, blank, byte_len, occurs_at};
use vstd::prelude::*;

verus! {

/// Characters that mark a tag next to them as quoted.
pub open spec fn is_quote(c: char) -> bool {
    ||| c == '`' || c == '"' || c == '\'' || c == '\\' || c == '#' || c == '!' || c == '@'
    ||| c == '$' || c == '%' || c == '^' || c == '&' || c == '*' || c == '(' || c == ')'
    ||| c == '-' || c == '_' || c == '=' || c == '+' || c == '[' || c == ']' || c == '{'
    ||| c == '}' || c == ';' || c == ':' || c == '<' || c == '>' || c == ',' || c == '.'
    ||| c == '?' || c == '/'
}

/// A quoting character stands at position `i`.
pub open spec fn quote_at(s: Seq<char>, i: int) -> bool {
    0 <= i < s.len() && is_quote(s[i])
}

/// The tag that opens a thinking block.
pub open spec fn open_tag() -> Seq<char> {
    seq!['<', 't', 'h', 'i', 'n', 'k', 'i', 'n', 'g', '>']
}

/// The tag that closes a thinking block.
pub open spec fn close_tag() -> Seq<char> {
    seq!['<', '/', 't', 'h', 'i', 'n', 'k', 'i', 'n', 'g', '>']
}

/// `tag` stands at position `i`, with no quoting character on either side.
pub open spec fn real_at(s: Seq<char>, tag: Seq<char>, i: int) -> bool {
    occurs_at(s, tag, i) && !quote_at(s, i - 1) && !quote_at(s, i + tag.len())
}

/// The opening tag is only mentioned in `s`: a quoting character stands before it, and one behind
/// it, where the text goes on.
pub open spec fn only_quoted(s: Seq<char>) -> bool {
    forall|i: int| #[trigger]
        occurs_at(s, open_tag(), i) ==> quote_at(s, i - 1) && (quote_at(s, i + 10) || i + 10
            == s.len())
}

/// The closing tag stands unquoted at position `i`, with nothing but white space behind it.
pub open spec fn last_close_at(s: Seq<char>, i: int) -> bool {
    real_at(s, close_tag(), i) && blank(s.skip(i + 11))
}

/// The first unquoted `tag` at or after `from`.
pub open spec fn first_real(s: Seq<char>, tag: Seq<char>, from: int) -> Option<int>
    decreases s.len() - from + 1,
{
    if from > s.len() {
        None
    } else if real_at(s, tag, from) {
        Some(from)
    } else {
        first_real(s, tag, from + 1)
    }
}

/// The first position at or after `from` where the closing tag ends the text.
pub open spec fn first_last_close(s: Seq<char>, from: int) -> Option<int>
    decreases s.len() - from + 1,
{
    if from > s.len() {
        None
    } else if last_close_at(s, from) {
        Some(from)
    } else {
        first_last_close(s, from + 1)
    }
}

/// Where the text goes on behind a closing tag that ends at `after`: behind the line breaks that
/// belong to the tag, or at the end where only white space follows.
pub open spec fn text_resumes(s: Seq<char>, after: int) -> int {
    let rest = s.skip(after);
    if rest.len() == 0 {
        after
    } else if blank(rest) {
        s.len() as int
    } else if begins(rest, seq!['\r', '\n', '\r', '\n']) {
        after + 4
    } else if begins(rest, seq!['\n', '\n']) {
        after + 2
    } else if begins(rest, seq!['\r', '\n']) {
        after + 2
    } else if begins(rest, seq!['\n']) {
        after + 1
    } else {
        after
    }
}

/// The closing tag of a thinking block: where it begins and where the text goes on.
pub open spec fn find_end(s: Seq<char>) -> Option<(int, int)> {
    match first_real(s, close_tag(), 0) {
        Some(i) => Some((i, text_resumes(s, i + 11))),
        None => None,
    }
}

/// A thinking text without the line break that follows its opening tag.
pub open spec fn without_first_newline(s: Seq<char>) -> Seq<char> {
    if s.len() > 0 && s[0] == '\n' {
        s.drop_first()
    } else {
        s
    }
}

/// The thinking of a whole text, and the text without it.
pub open spec fn extracted(s: Seq<char>) -> (Option<Seq<char>>, Seq<char>) {
    match first_real(s, open_tag(), 0) {
        None => (None, s),
        Some(start) => {
            let before = s.take(start);
            let inner = s.skip(start + 10);
            match find_end(inner) {
                None => (None, s),
                Some((end, resume)) => {
                    let thinking = without_first_newline(inner.take(end));
                    let kept = if blank(before) {
                        Seq::empty()
                    } else {
                        before
                    };
                    let remaining = kept + inner.skip(resume);
                    (
                        if thinking.len() == 0 {
                            None
                        } else {
                            Some(thinking)
                        },
                        remaining,
                    )
                },
            }
        },
    }
}

/// The greatest number of characters of `s` that take at most `target` bytes.
pub open spec fn chars_within(s: Seq<char>, target: int) -> int
    decreases s.len(),
{
    if s.len() == 0 || byte_len(s) <= target {
        s.len() as int
    } else {
        chars_within(s.drop_last(), target)
    }
}

/// A character position as a byte position.
pub open spec fn byte_pos(s: Seq<char>, i: Option<int>) -> Option<int> {
    match i {
        Some(i) => Some(byte_len(s.take(i)) as int),
        None => None,
    }
}

pub proof fn lemma_first_real(s: Seq<char>, tag: Seq<char>, from: int)
    requires
        0 <= from,
    ensures
        first_real(s, tag, from) matches Some(i) ==> from <= i && real_at(s, tag, i) && forall|
            j: int,
        |
            from <= j < i ==> !real_at(s, tag, j),
        first_real(s, tag, from) is None ==> forall|j: int| from <= j ==> !real_at(s, tag, j),
    decreases s.len() - from + 1,
{
    if from <= s.len() && !real_at(s, tag, from) {
        lemma_first_real(s, tag, from + 1);
        assert forall|j: int| from <= j && first_real(s, tag, from) is None implies !real_at(
            s,
            tag,
            j,
        ) by {
            if j != from {
                assert(from + 1 <= j);
            }
        }
    }
}

pub proof fn lemma_first_last_close(s: Seq<char>, from: int)
    requires
        0 <= from,
    ensures
        first_last_close(s, from) matches Some(i) ==> from <= i && last_close_at(s, i) && forall|
            j: int,
        |
            from <= j < i ==> !last_close_at(s, j),
        first_last_close(s, from) is None ==> forall|j: int| from <= j ==> !last_close_at(s, j),
    decreases s.len() - from + 1,
{
    if from <= s.len() && !last_close_at(s, from) {
        lemma_first_last_close(s, from + 1);
        assert forall|j: int|
            from <= j && first_last_close(s, from) is None implies !last_close_at(s, j) by {
            if j != from {
                assert(from + 1 <= j);
            }
        }
    }
}

/// Where the closing tag ends a text it is also an unquoted closing tag: a text without one has
/// none at its end.
pub proof fn law_no_close_means_no_last_close(s: Seq<char>)
    requires
        find_end(s) is None,
    ensures
        first_last_close(s, 0) is None,
{
    lemma_first_real(s, close_tag(), 0);
    lemma_first_last_close(s, 0);
}

/// The text resumes at a position inside the text.
pub proof fn lemma_find_end_bounds(s: Seq<char>)
    ensures
        find_end(s) matches Some((end, resume)) ==> 0 <= end && end + 11 <= resume <= s.len(),
{
    lemma_first_real(s, close_tag(), 0);
}

pub proof fn lemma_chars_within(s: Seq<char>, target: int)
    ensures
        0 <= chars_within(s, target) <= s.len(),
        0 <= target ==> byte_len(s.take(chars_within(s, target))) <= target,
        forall|k: int|
            chars_within(s, target) < k <= s.len() ==> byte_len(#[trigger] s.take(k)) > target,
    decreases s.len(),
{
    if s.len() == 0 || byte_len(s) <= target {
        assert(s.take(s.len() as int) =~= s);
    } else {
        lemma_chars_within(s.drop_last(), target);
        let n = chars_within(s.drop_last(), target);
        assert(s.drop_last().take(n) =~= s.take(n));
        assert forall|k: int| n < k <= s.len() implies byte_len(#[trigger] s.take(k)) > target by {
            if k == s.len() {
                assert(s.take(k) =~= s);
            } else {
                assert(s.drop_last().take(k) =~= s.take(k));
            }
        }
    }
}

/// A prefix that fits and cannot grow is the greatest one.
proof fn lemma_chars_within_is(s: Seq<char>, target: int, n: int)
    requires
        0 <= target,
        0 <= n <= s.len(),
        byte_len(s.take(n)) <= target,
        n < s.len() ==> byte_len(s.take(n + 1)) > target,
    ensures
        chars_within(s, target) == n,
{
    lemma_chars_within(s, target);
    let m = chars_within(s, target);
    if m > n {
        text::lemma_byte_len_take(s.take(m), n + 1);
        assert(s.take(m).take(n + 1) =~= s.take(n + 1));
    }
}

proof fn lemma_literals()
    ensures
        "<thinking>"@ == open_tag(),
        "</thinking>"@ == close_tag(),
        "\r\n\r\n"@ == seq!['\r', '\n', '\r', '\n'],
        "\n\n"@ == seq!['\n', '\n'],
        "\r\n"@ == seq!['\r', '\n'],
        "\n"@ == seq!['\n'],
{
    reveal_strlit("<thinking>");
    reveal_strlit("</thinking>");
    reveal_strlit("\r\n\r\n");
    reveal_strlit("\n\n");
    reveal_strlit("\r\n");
    reveal_strlit("\n");
    assert("<thinking>"@ =~= open_tag());
    assert("</thinking>"@ =~= close_tag());
    assert("\r\n\r\n"@ =~= seq!['\r', '\n', '\r', '\n']);
    assert("\n\n"@ =~= seq!['\n', '\n']);
    assert("\r\n"@ =~= seq!['\r', '\n']);
    assert("\n"@ =~= seq!['\n']);
}

/// Whether a quoting character stands at position `pos`.
pub fn is_quote_char(buffer: &Vec<char>, pos: usize) -> (r: bool)
    ensures
        r == quote_at(buffer@, pos as int),
{
    if pos >= buffer.len() {
        return false;
    }
    let c = buffer[pos];
    c == '`' || c == '"' || c == '\'' || c == '\\' || c == '#' || c == '!' || c == '@' || c == '$'
        || c == '%' || c == '^' || c == '&' || c == '*' || c == '(' || c == ')' || c == '-' || c
        == '_' || c == '=' || c == '+' || c == '[' || c == ']' || c == '{' || c == '}' || c == ';'
        || c == ':' || c == '<' || c == '>' || c == ',' || c == '.' || c == '?' || c == '/'
}

/// Whether `tag` stands unquoted at position `i`.
fn is_real_at(s: &Vec<char>, tag: &Vec<char>, i: usize) -> (r: bool)
    ensures
        r == real_at(s@, tag@, i as int),
{
    if !text::matches_at(s, tag, i) {
        return false;
    }
    assert(i + tag@.len() <= s.len());
    let quoted_before = i > 0 && is_quote_char(s, i - 1);
    let quoted_behind = is_quote_char(s, i + tag.len());
    !quoted_before && !quoted_behind
}

/// The first unquoted `tag`, as a character position.
fn real_tag_index(s: &Vec<char>, tag: &Vec<char>) -> (r: Option<usize>)
    ensures
        r is Some <==> first_real(s@, tag@, 0) is Some,
        r matches Some(i) ==> first_real(s@, tag@, 0) == Some(i as int) && i + tag.len() <= s.len(),
{
    let mut i: usize = 0;
    while i < s.len()
        invariant
            i <= s.len(),
            first_real(s@, tag@, 0) == first_real(s@, tag@, i as int),
        decreases s.len() - i,
    {
        if is_real_at(s, tag, i) {
            return Some(i);
        }
        i += 1;
    }
    if is_real_at(s, tag, i) {
        return Some(i);
    }
    assert(first_real(s@, tag@, s.len() + 1) is None);
    None
}

/// The opening tag of a thinking block, as a character position.
pub fn start_tag_index(s: &Vec<char>) -> (r: Option<usize>)
    ensures
        r is Some <==> first_real(s@, open_tag(), 0) is Some,
        r matches Some(i) ==> first_real(s@, open_tag(), 0) == Some(i as int) && i + 10 <= s.len(),
{
    proof {
        lemma_literals();
    }
    real_tag_index(s, &text::chars_of("<thinking>"))
}

/// The closing tag of a thinking block and where the text goes on, as character positions.
pub fn end_tag_index(s: &Vec<char>) -> (r: Option<(usize, usize)>)
    ensures
        r is Some <==> find_end(s@) is Some,
        r matches Some((end, resume)) ==> find_end(s@) == Some((end as int, resume as int)) && end
            + 11 <= resume <= s.len(),
{
    proof {
        lemma_literals();
        lemma_find_end_bounds(s@);
    }
    match real_tag_index(s, &text::chars_of("</thinking>")) {
        Some(end) => Some((end, resume_index(s, end + 11))),
        None => None,
    }
}

/// Where the text goes on behind a closing tag that ends at `after`.
fn resume_index(s: &Vec<char>, after: usize) -> (r: usize)
    requires
        after <= s.len(),
    ensures
        r == text_resumes(s@, after as int),
{
    proof {
        lemma_literals();
        let rest = s@.skip(after as int);
        assert forall|pat: Seq<char>|
            after + pat.len() <= s@.len() implies #[trigger] s@.subrange(
            after as int,
            after + pat.len(),
        ) == rest.take(pat.len() as int) by {
            assert(s@.subrange(after as int, after + pat.len()) =~= rest.take(pat.len() as int));
        }
    }
    if after == s.len() {
        after
    } else if text::blank_from(s, after) {
        s.len()
    } else if text::matches_at(s, &text::chars_of("\r\n\r\n"), after) {
        after + 4
    } else if text::matches_at(s, &text::chars_of("\n\n"), after) {
        after + 2
    } else if text::matches_at(s, &text::chars_of("\r\n"), after) {
        after + 2
    } else if text::matches_at(s, &text::chars_of("\n"), after) {
        after + 1
    } else {
        after
    }
}

/// The closing tag that ends a text, as a character position.
pub fn last_close_index(s: &Vec<char>) -> (r: Option<usize>)
    ensures
        r is Some <==> first_last_close(s@, 0) is Some,
        r matches Some(i) ==> first_last_close(s@, 0) == Some(i as int) && i + 11 <= s.len(),
{
    let tag = text::chars_of("</thinking>");
    let mut i: usize = 0;
    while i <= s.len()
        invariant
            i <= s.len() + 1,
            tag@ == "</thinking>"@,
            first_last_close(s@, 0) == first_last_close(s@, i as int),
        decreases s.len() + 1 - i,
    {
        proof {
            lemma_literals();
        }
        if is_real_at(s, &tag, i) && text::blank_from(s, i + 11) {
            return Some(i);
        }
        if i == s.len() {
            assert(first_last_close(s@, s.len() + 1) is None);
            return None;
        }
        i += 1;
    }
    None
}

/// The byte position of the first unquoted `<thinking>`.
pub fn find_real_thinking_start_tag(buffer: &str) -> (r: Option<usize>)
    ensures
        r is Some <==> first_real(buffer@, open_tag(), 0) is Some,
        r matches Some(p) ==> Some(p as int) == byte_pos(
            buffer@,
            first_real(buffer@, open_tag(), 0),
        ),
{
    let chars = text::chars_of(buffer);
    let _ = text::byte_length(buffer);
    match start_tag_index(&chars) {
        Some(i) => Some(text::bytes_before(&chars, i)),
        None => None,
    }
}

/// The byte positions of the first unquoted `</thinking>` and of the text behind it.
pub fn find_real_thinking_end_tag_with_boundary(buffer: &str) -> (r: Option<(usize, usize)>)
    ensures
        r is Some <==> find_end(buffer@) is Some,
        r matches Some((p, q)) ==> (find_end(buffer@) matches Some((end, resume)) && p == byte_len(
            buffer@.take(end),
        ) && q == byte_len(buffer@.take(resume))),
{
    let chars = text::chars_of(buffer);
    let _ = text::byte_length(buffer);
    match end_tag_index(&chars) {
        Some((end, resume)) => Some(
            (text::bytes_before(&chars, end), text::bytes_before(&chars, resume)),
        ),
        None => None,
    }
}

/// The byte position of the first unquoted `</thinking>`.
pub fn find_real_thinking_end_tag(buffer: &str) -> (r: Option<usize>)
    ensures
        r is Some <==> first_real(buffer@, close_tag(), 0) is Some,
        r matches Some(p) ==> Some(p as int) == byte_pos(
            buffer@,
            first_real(buffer@, close_tag(), 0),
        ),
{
    match find_real_thinking_end_tag_with_boundary(buffer) {
        Some((p, _)) => Some(p),
        None => None,
    }
}

/// The byte position of the unquoted `</thinking>` that ends the text, white space aside.
pub fn find_real_thinking_end_tag_at_buffer_end(buffer: &str) -> (r: Option<usize>)
    ensures
        r is Some <==> first_last_close(buffer@, 0) is Some,
        r matches Some(p) ==> Some(p as int) == byte_pos(buffer@, first_last_close(buffer@, 0)),
{
    let chars = text::chars_of(buffer);
    let _ = text::byte_length(buffer);
    match last_close_index(&chars) {
        Some(i) => Some(text::bytes_before(&chars, i)),
        None => None,
    }
}

/// The number of leading characters that take at most `target` bytes.
pub fn chars_within_bytes(s: &Vec<char>, target: usize) -> (r: usize)
    ensures
        r == chars_within(s@, target as int),
        r <= s.len(),
{
    let mut i: usize = 0;
    let mut used: usize = 0;
    assert(s@.take(0) =~= Seq::empty());
    while i < s.len()
        invariant
            i <= s.len(),
            used <= target,
            used == byte_len(s@.take(i as int)),
        decreases s.len() - i,
    {
        let w = text::width(s[i]);
        proof {
            text::lemma_byte_len_push(s@.take(i as int), s@[i as int]);
            assert(s@.take(i + 1) =~= s@.take(i as int).push(s@[i as int]));
        }
        if w > target - used {
            proof {
                lemma_chars_within_is(s@, target as int, i as int);
            }
            return i;
        }
        used += w;
        i += 1;
    }
    proof {
        lemma_chars_within_is(s@, target as int, i as int);
    }
    i
}

/// The last character boundary of `s` at or before byte `target`.
pub fn find_char_boundary(s: &str, target: usize) -> (r: usize)
    ensures
        r == byte_len(s@.take(chars_within(s@, target as int))),
        r <= target,
{
    let chars = text::chars_of(s);
    let _ = text::byte_length(s);
    proof {
        lemma_chars_within(s@, target as int);
    }
    let n = chars_within_bytes(&chars, target);
    text::bytes_before(&chars, n)
}

/// Takes the thinking block out of a whole text.
pub fn extract_thinking_from_complete_text(s: &str) -> (r: (Option<String>, String))
    ensures
        r.0 is Some <==> extracted(s@).0 is Some,
        r.0 matches Some(t) ==> extracted(s@).0 == Some(t@),
        r.1@ == extracted(s@).1,
{
    let chars = text::chars_of(s);
    let start = match start_tag_index(&chars) {
        Some(i) => i,
        None => {
            return (None, s.to_owned());
        },
    };
    let before = text::slice(s, 0, start);
    let inner = text::slice(s, start + 10, chars.len());
    proof {
        assert(before@ =~= s@.take(start as int));
        assert(inner@ =~= s@.skip(start + 10));
    }
    let inner_chars = text::chars_of(inner.as_str());
    let (end, resume) = match end_tag_index(&inner_chars) {
        Some(found) => found,
        None => {
            return (None, s.to_owned());
        },
    };
    let skip: usize = if end > 0 && inner_chars[0] == '\n' {
        1
    } else {
        0
    };
    let thinking = text::slice(inner.as_str(), skip, end);
    let after = text::slice(inner.as_str(), resume, inner_chars.len());
    proof {
        assert(thinking@ =~= without_first_newline(inner@.take(end as int)));
        assert(after@ =~= inner@.skip(resume as int));
    }
    let mut remaining = String::new();
    if !text::is_blank(before.as_str()) {
        remaining.append(before.as_str());
    }
    remaining.append(after.as_str());
    proof {
        assert(remaining@ =~= extracted(s@).1);
    }
    if thinking.as_str().is_empty() {
        (None, remaining)
    } else {
        (Some(thinking), remaining)
    }
}

} // verus!
