//! Which marks in a text count, and which are only mentioned.

use crate::text::{begins, blank, byte_len, occurs, occurs_at};
use crate::thinking::{chars_within, close_tag, extract_thinking_from_complete_text};
use crate::thinking::{find_char_boundary, find_end, find_real_thinking_end_tag};
use crate::thinking::find_real_thinking_end_tag_at_buffer_end;
use crate::thinking::{find_real_thinking_end_tag_with_boundary, find_real_thinking_start_tag};
use crate::thinking::{first_last_close, first_real, is_quote, last_close_at, lemma_chars_within};
use crate::thinking::{lemma_first_real, open_tag, real_at, text_resumes, without_first_newline};
use crate::xml_filter::{element, law_leak_is_dropped, lemma_beginning_is_lost, only_mentions};
use crate::xml_filter::{strip_tool_use_xml_leaks, stripped, tag_close, tag_prefix};
use vstd::prelude::*;

verus! {

/// A character next to which a tag is only mentioned.
pub open spec fn mentions(c: char) -> bool {
    "`\"'\\#!@$%^&*()-_=+[]{};:<>,.?/"@.contains(c)
}

/// `tag` stands at position `i` and is not only mentioned: no character that mentions it stands
/// right before or right behind it.
pub open spec fn stands(s: Seq<char>, tag: Seq<char>, i: int) -> bool {
    &&& occurs_at(s, tag, i)
    &&& i > 0 ==> !mentions(s[i - 1])
    &&& i + tag.len() < s.len() ==> !mentions(s[i + tag.len()])
}

/// `p` is the byte position of the first place where `tag` stands; none where it stands nowhere.
pub open spec fn first_stands(s: Seq<char>, tag: Seq<char>, p: Option<usize>) -> bool {
    match p {
        Some(p) => exists|i: int| #[trigger]
            stands(s, tag, i) && p == byte_len(s.take(i)) && forall|j: int|
            0 <= j < i ==> !#[trigger] stands(s, tag, j),
        None => forall|i: int| !#[trigger] stands(s, tag, i),
    }
}

proof fn lemma_mentions()
    ensures
        forall|c: char| #[trigger] mentions(c) <==> is_quote(c),
{
    reveal_strlit("`\"'\\#!@$%^&*()-_=+[]{};:<>,.?/");
    let all = "`\"'\\#!@$%^&*()-_=+[]{};:<>,.?/"@;
    assert(all.len() == 30);
    assert forall|c: char| #[trigger] mentions(c) <==> is_quote(c) by {
        if is_quote(c) {
            assert(all[0] == '`' && all[1] == '"' && all[2] == '\'' && all[3] == '\\' && all[4]
                == '#' && all[5] == '!' && all[6] == '@' && all[7] == '$' && all[8] == '%' && all[9]
                == '^');
            assert(all[10] == '&' && all[11] == '*' && all[12] == '(' && all[13] == ')' && all[14]
                == '-' && all[15] == '_' && all[16] == '=' && all[17] == '+' && all[18] == '['
                && all[19] == ']');
            assert(all[20] == '{' && all[21] == '}' && all[22] == ';' && all[23] == ':' && all[24]
                == '<' && all[25] == '>' && all[26] == ',' && all[27] == '.' && all[28] == '?'
                && all[29] == '/');
        }
        if mentions(c) {
            let i = choose|i: int| 0 <= i < all.len() && all[i] == c;
            assert(0 <= i < 30);
        }
    }
}

proof fn lemma_tags()
    ensures
        open_tag() == "<thinking>"@,
        close_tag() == "</thinking>"@,
        tag_prefix() == "<tool_use"@,
        tag_close() == "</tool_use>"@,
        open_tag().len() == 10,
        close_tag().len() == 11,
{
    reveal_strlit("<thinking>");
    reveal_strlit("</thinking>");
    reveal_strlit("<tool_use");
    reveal_strlit("</tool_use>");
    assert(open_tag() =~= "<thinking>"@);
    assert(close_tag() =~= "</thinking>"@);
    assert(tag_prefix() =~= "<tool_use"@);
    assert(tag_close() =~= "</tool_use>"@);
}

proof fn lemma_stands(s: Seq<char>, tag: Seq<char>)
    ensures
        forall|i: int| #[trigger] stands(s, tag, i) <==> real_at(s, tag, i),
{
    lemma_mentions();
}

proof fn lemma_first_stands(s: Seq<char>, tag: Seq<char>, p: Option<usize>)
    requires
        p is Some <==> first_real(s, tag, 0) is Some,
        p matches Some(n) ==> n == byte_len(s.take(first_real(s, tag, 0)->0)),
    ensures
        first_stands(s, tag, p),
{
    lemma_stands(s, tag);
    lemma_first_real(s, tag, 0);
    if let Some(i) = first_real(s, tag, 0) {
        assert(stands(s, tag, i));
        assert forall|j: int| 0 <= j < i implies !#[trigger] stands(s, tag, j) by {
            assert(!real_at(s, tag, j));
        }
    } else {
        assert forall|i: int| !#[trigger] stands(s, tag, i) by {
            if i >= 0 {
                assert(!real_at(s, tag, i));
            }
        }
    }
}

/// Thinking begins with the first opening tag that is not only mentioned, and ends with the first
/// closing tag that is not only mentioned, wherever they stand in a text.
pub proof fn law_mentioned_tags_do_not_count(
    buffer: &str,
    start: Option<usize>,
    end: Option<usize>,
)
    requires
        call_ensures(find_real_thinking_start_tag, (buffer,), start),
        call_ensures(find_real_thinking_end_tag, (buffer,), end),
    ensures
        first_stands(buffer@, "<thinking>"@, start),
        first_stands(buffer@, "</thinking>"@, end),
{
    lemma_tags();
    lemma_first_stands(buffer@, open_tag(), start);
    lemma_first_stands(buffer@, close_tag(), end);
}

/// Behind a closing tag the text goes on behind the line breaks that belong to the tag, one or
/// two of them; where nothing but white space follows, nothing goes on.
pub proof fn law_line_breaks_belong_to_the_tag(buffer: &str, r: Option<(usize, usize)>)
    requires
        call_ensures(find_real_thinking_end_tag_with_boundary, (buffer,), r),
    ensures
        first_stands(
            buffer@,
            "</thinking>"@,
            match r {
                Some((p, _)) => Some(p),
                None => None,
            },
        ),
        r matches Some((p, q)) ==> exists|i: int, k: int|
            #![trigger stands(buffer@, "</thinking>"@, i), buffer@.take(k)]
            stands(buffer@, "</thinking>"@, i) && p == byte_len(buffer@.take(i)) && i + 11 <= k
                <= buffer@.len() && q == byte_len(buffer@.take(k)) && goes_on(
                buffer@.skip(i + 11),
                k - i - 11,
            ),
{
    lemma_tags();
    let s = buffer@;
    let tag = close_tag();
    let p = match r {
        Some((p, _)) => Some(p),
        None => None,
    };
    lemma_first_stands(s, tag, p);
    if let Some((end, resume)) = find_end(s) {
        lemma_stands(s, tag);
        lemma_first_real(s, tag, 0);
        assert(stands(s, "</thinking>"@, end));
        lemma_goes_on(s, end + 11);
        assert(s.take(resume).len() == resume);
    }
}

/// The text behind a closing tag goes on behind `n` characters of it.
pub open spec fn goes_on(rest: Seq<char>, n: int) -> bool {
    if blank(rest) {
        n == rest.len()
    } else if begins(rest, "\r\n\r\n"@) {
        n == 4
    } else if begins(rest, "\n\n"@) || begins(rest, "\r\n"@) {
        n == 2
    } else if begins(rest, "\n"@) {
        n == 1
    } else {
        n == 0
    }
}

proof fn lemma_goes_on(s: Seq<char>, after: int)
    requires
        0 <= after <= s.len(),
    ensures
        after <= text_resumes(s, after) <= s.len(),
        goes_on(s.skip(after), text_resumes(s, after) - after),
{
    reveal_strlit("\r\n\r\n");
    reveal_strlit("\n\n");
    reveal_strlit("\r\n");
    reveal_strlit("\n");
    assert("\r\n\r\n"@ =~= seq!['\r', '\n', '\r', '\n']);
    assert("\n\n"@ =~= seq!['\n', '\n']);
    assert("\r\n"@ =~= seq!['\r', '\n']);
    assert("\n"@ =~= seq!['\n']);
}

/// A closing tag ends a text where nothing but white space follows it.
pub proof fn law_closing_tag_ends_the_text(buffer: &str, r: Option<usize>)
    requires
        call_ensures(find_real_thinking_end_tag_at_buffer_end, (buffer,), r),
    ensures
        r is Some <==> exists|i: int| #[trigger]
            stands(buffer@, "</thinking>"@, i) && blank(buffer@.skip(i + 11)),
        r matches Some(p) ==> exists|i: int| #[trigger]
            stands(buffer@, "</thinking>"@, i) && blank(buffer@.skip(i + 11)) && p == byte_len(
                buffer@.take(i),
            ),
{
    lemma_tags();
    let s = buffer@;
    lemma_stands(s, close_tag());
    lemma_first_last_close(s, 0);
    if let Some(i) = first_last_close(s, 0) {
        assert(stands(s, "</thinking>"@, i));
    } else if exists|i: int| #[trigger]
        stands(s, "</thinking>"@, i) && blank(s.skip(i + 11)) {
        let i = choose|i: int| #[trigger] stands(s, "</thinking>"@, i) && blank(s.skip(i + 11));
        assert(last_close_at(s, i));
    }
}

proof fn lemma_first_last_close(s: Seq<char>, from: int)
    requires
        0 <= from,
    ensures
        first_last_close(s, from) matches Some(i) ==> from <= i && last_close_at(s, i),
        first_last_close(s, from) is None ==> forall|j: int|
            from <= j ==> !#[trigger] last_close_at(s, j),
    decreases s.len() - from + 1,
{
    if from <= s.len() && !last_close_at(s, from) {
        lemma_first_last_close(s, from + 1);
    }
}

/// A character boundary at or before a byte position is the last one: no more characters fit.
pub proof fn law_boundary_is_the_last(s: &str, target: usize, r: usize)
    requires
        call_ensures(find_char_boundary, (s, target), r),
    ensures
        r <= target,
        exists|n: int|
            0 <= n <= s@.len() && r == byte_len(#[trigger] s@.take(n)) && (n < s@.len()
                ==> byte_len(s@.take(n + 1)) > target),
{
    lemma_chars_within(s@, target as int);
    let n = chars_within(s@, target as int);
    assert(r == byte_len(s@.take(n)));
}

/// A whole text that marks no thinking is all text.
pub proof fn law_unmarked_text_stays(s: &str, r: (Option<String>, String))
    requires
        call_ensures(extract_thinking_from_complete_text, (s,), r),
        forall|i: int| !#[trigger] stands(s@, "<thinking>"@, i),
    ensures
        r.0 is None,
        r.1@ == s@,
{
    lemma_tags();
    lemma_stands(s@, open_tag());
    lemma_first_real(s@, open_tag(), 0);
    if let Some(i) = first_real(s@, open_tag(), 0) {
        assert(stands(s@, "<thinking>"@, i));
    }
}

/// A text without leaked markup stays as it is, and a leaked element is taken out of a text with
/// all that it holds, and nothing else.
pub proof fn law_markup_is_taken_out(
    text: &str,
    r: String,
    a: Seq<char>,
    attrs: Seq<char>,
    body: Seq<char>,
    b: Seq<char>,
)
    requires
        call_ensures(strip_tool_use_xml_leaks, (text,), r),
    ensures
        !occurs(text@, "<tool_use"@) ==> r@ == text@,
        text@ == a + "<tool_use"@ + attrs + ">"@ + body + "</tool_use>"@ + b && !occurs(
            a,
            "<tool_use"@,
        ) && !occurs(b, "<tool_use"@) && (attrs.len() == 0 || crate::text::is_ws(attrs[0]))
            && !attrs.contains('>') && !occurs(body, "</tool_use>"@) ==> r@ == a + b,
{
    lemma_tags();
    reveal_strlit(">");
    assert(">"@ =~= seq!['>']);
    if !occurs(text@, tag_prefix()) {
        lemma_clean(text@);
    }
    if text@ == a + "<tool_use"@ + attrs + ">"@ + body + "</tool_use>"@ + b && !occurs(
        a,
        "<tool_use"@,
    ) && !occurs(b, "<tool_use"@) && (attrs.len() == 0 || crate::text::is_ws(attrs[0]))
        && !attrs.contains('>') && !occurs(body, "</tool_use>"@) {
        law_leak_is_dropped(a, attrs, body, b);
        assert(text@ =~= a + element(attrs, body) + b);
        lemma_clean(b);
        assert(stripped(text@) =~= a + stripped(b));
    }
}

proof fn lemma_clean(s: Seq<char>)
    requires
        !occurs(s, tag_prefix()),
    ensures
        stripped(s) == s,
{
    assert(only_mentions(s)) by {
        assert forall|i: int| !#[trigger] occurs_at(s, tag_prefix(), i) by {}
    }
    crate::xml_filter::law_clean_text_is_kept(s);
}

/// Of the thinking behind an opening tag one line break is dropped, where it begins with one, and
/// nothing else.
pub proof fn law_one_line_break_is_dropped(thinking: Seq<char>)
    ensures
        without_first_newline(seq!['\n'] + thinking) == thinking,
        thinking.len() == 0 || thinking[0] != '\n' ==> without_first_newline(thinking) == thinking,
{
    assert((seq!['\n'] + thinking).drop_first() =~= thinking);
}

/// A leaked element that is never closed is taken out of a text to its end.
pub proof fn law_unclosed_markup_is_taken_out(
    text: &str,
    r: String,
    a: Seq<char>,
    attrs: Seq<char>,
    body: Seq<char>,
)
    requires
        call_ensures(strip_tool_use_xml_leaks, (text,), r),
        text@ == a + "<tool_use"@ + attrs + ">"@ + body,
        !occurs(a, "<tool_use"@),
        attrs.len() == 0 || crate::text::is_ws(attrs[0]),
        !attrs.contains('>'),
        !occurs(body, "</tool_use>"@),
    ensures
        r@ == a,
{
    lemma_tags();
    reveal_strlit(">");
    assert(">"@ =~= seq!['>']);
    let m = (attrs.len() + 1 + body.len()) as int;
    lemma_beginning_is_lost(a, attrs, body, m);
    let inner = attrs + seq!['>'] + body;
    assert(inner.take(m) =~= inner);
    assert(text@ =~= a + tag_prefix() + inner.take(m));
    assert(stripped(text@) =~= a);
}

} // verus!
