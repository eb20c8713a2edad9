//! Removal of `<tool_use …>…</tool_use>` markup that leaks into assistant text.

use crate::text;
use crate::text::{begins, first, is_ws, occurs_at};
use vstd::prelude::*;

verus! {

const TOOL_USE_XML_PREFIX: &'static str = "<tool_use";

const TOOL_USE_XML_CLOSE: &'static str = "</tool_use>";

/// The text that a leaked tag begins with.
pub open spec fn tag_prefix() -> Seq<char> {
    seq!['<', 't', 'o', 'o', 'l', '_', 'u', 's', 'e']
}

/// The tag that a leaked element ends with.
pub open spec fn tag_close() -> Seq<char> {
    seq!['<', '/', 't', 'o', 'o', 'l', '_', 'u', 's', 'e', '>']
}

/// What the filter carries from one chunk to the next: a tail that may grow into a tag, and
/// whether the text at hand lies inside a leaked element.
pub struct FilterV {
    pub buffer: Seq<char>,
    pub stripping: bool,
}

/// The last `n` characters of `s` are the first `n` of a leaked tag.
pub open spec fn tail_is_prefix(s: Seq<char>, n: int) -> bool {
    0 <= n <= s.len() && n <= tag_prefix().len() && s.skip(s.len() - n) == tag_prefix().take(n)
}

/// Length of the longest tail of `s`, of at most `n` characters, that may grow into a leaked tag.
pub open spec fn held_within(s: Seq<char>, n: int) -> int
    decreases n,
{
    if n <= 0 {
        0
    } else if tail_is_prefix(s, n) {
        n
    } else {
        held_within(s, n - 1)
    }
}

/// Length of the longest tail of `s` that may grow into a leaked tag, short of the whole of it.
pub open spec fn held(s: Seq<char>) -> int {
    held_within(s, 8)
}

/// A tag name ends at the start of `suffix`: there is nothing more, or white space.
pub open spec fn name_ends(suffix: Seq<char>) -> bool {
    suffix.len() == 0 || is_ws(suffix[0])
}

/// What the filter makes of `rest`: the text that it lets through, and what it carries on.
///
/// An element is dropped from its opening tag to its closing tag. One whose end is not in sight
/// is dropped to the end of `rest`, and the filter goes on stripping. A tag of another name that
/// only begins like `<tool_use` is let through.
pub open spec fn scan(rest: Seq<char>, stripping: bool) -> (Seq<char>, FilterV)
    decreases rest.len(),
{
    let lost = FilterV { buffer: Seq::empty(), stripping: true };
    if stripping {
        match first(rest, tag_close()) {
            Some(i) => if 0 <= i && i + 11 <= rest.len() {
                scan(rest.skip(i + 11), false)
            } else {
                (Seq::empty(), lost)
            },
            None => (Seq::empty(), lost),
        }
    } else {
        match first(rest, tag_prefix()) {
            None => {
                let emit = rest.len() - held(rest);
                (rest.take(emit), FilterV { buffer: rest.skip(emit), stripping: false })
            },
            Some(start) => if 0 <= start && start + 9 <= rest.len() {
                let before = rest.take(start);
                let tag = rest.skip(start);
                let passed = scan(tag.skip(9), false);
                let pass = (before + tag_prefix() + passed.0, passed.1);
                match first(tag, seq!['>']) {
                    None => if name_ends(tag.skip(9)) {
                        (before, lost)
                    } else {
                        pass
                    },
                    Some(open_end) => if 9 <= open_end < tag.len() {
                        if !name_ends(tag.subrange(9, open_end)) {
                            pass
                        } else {
                            match first(tag.skip(open_end + 1), tag_close()) {
                                Some(close) => if 0 <= close && open_end + 1 + close + 11
                                    <= tag.len() {
                                    let after = scan(tag.skip(open_end + 1 + close + 11), false);
                                    (before + after.0, after.1)
                                } else {
                                    (before, lost)
                                },
                                None => (before, lost),
                            }
                        }
                    } else {
                        (before, lost)
                    },
                }
            } else {
                (Seq::empty(), lost)
            },
        }
    }
}

/// `text` without the leaked elements.
pub open spec fn stripped(text: Seq<char>) -> Seq<char> {
    scan(text, false).0 + scan(text, false).1.buffer
}

/// What the filter may carry: a proper prefix of a leaked tag, and nothing while stripping.
pub open spec fn filter_ok(f: FilterV) -> bool {
    &&& f.buffer.len() <= 8
    &&& f.buffer == tag_prefix().take(f.buffer.len() as int)
    &&& f.stripping ==> f.buffer.len() == 0
}

proof fn lemma_literals()
    ensures
        TOOL_USE_XML_PREFIX@ == tag_prefix(),
        TOOL_USE_XML_CLOSE@ == tag_close(),
        ">"@ == seq!['>'],
        tag_prefix().len() == 9,
        tag_close().len() == 11,
{
    reveal_strlit("<tool_use");
    reveal_strlit("</tool_use>");
    reveal_strlit(">");
    assert(TOOL_USE_XML_PREFIX@ =~= tag_prefix());
    assert(TOOL_USE_XML_CLOSE@ =~= tag_close());
    assert(">"@ =~= seq!['>']);
}

/// `held_within` is the greatest such length.
pub proof fn lemma_held_within(s: Seq<char>, n: int)
    requires
        0 <= n <= 9,
    ensures
        0 <= held_within(s, n) <= n,
        held_within(s, n) <= s.len(),
        tail_is_prefix(s, held_within(s, n)),
        forall|m: int| held_within(s, n) < m <= n ==> !tail_is_prefix(s, m),
    decreases n,
{
    if n == 0 {
        assert(s.skip(s.len() as int) =~= tag_prefix().take(0));
    } else if !tail_is_prefix(s, n) {
        lemma_held_within(s, n - 1);
    }
}

/// What the filter carries on keeps its form.
pub proof fn lemma_scan_ok(rest: Seq<char>, stripping: bool)
    ensures
        filter_ok(scan(rest, stripping).1),
    decreases rest.len(),
{
    lemma_literals();
    assert(tag_prefix().take(0) =~= Seq::empty());
    if stripping {
        match first(rest, tag_close()) {
            Some(i) => if 0 <= i && i + 11 <= rest.len() {
                lemma_scan_ok(rest.skip(i + 11), false);
            },
            None => {},
        }
    } else {
        match first(rest, tag_prefix()) {
            None => {
                lemma_held_within(rest, 8);
            },
            Some(start) => if 0 <= start && start + 9 <= rest.len() {
                let tag = rest.skip(start);
                lemma_scan_ok(tag.skip(9), false);
                match first(tag, seq!['>']) {
                    Some(open_end) => if 9 <= open_end < tag.len() {
                        match first(tag.skip(open_end + 1), tag_close()) {
                            Some(close) => if 0 <= close && open_end + 1 + close + 11
                                <= tag.len() {
                                lemma_scan_ok(tag.skip(open_end + 1 + close + 11), false);
                            },
                            None => {},
                        }
                    },
                    None => {},
                }
            },
        }
    }
}

/// Where `text` begins like a leaked tag it goes on with another name.
pub open spec fn only_mentions(text: Seq<char>) -> bool {
    forall|i: int| #[trigger]
        occurs_at(text, tag_prefix(), i) ==> i + 9 < text.len() && !is_ws(text[i + 9]) && text[i
            + 9] != '>'
}

/// What stands in a part of a text stands in the text.
proof fn lemma_occurs_in_skip(s: Seq<char>, pat: Seq<char>, k: int, i: int)
    requires
        0 <= k <= s.len(),
        occurs_at(s.skip(k), pat, i),
    ensures
        occurs_at(s, pat, k + i),
{
    assert(s.skip(k).subrange(i, i + pat.len()) =~= s.subrange(k + i, k + i + pat.len()));
}

/// The end of a text in which no leaked tag begins is such a text too.
pub proof fn lemma_only_mentions_skip(s: Seq<char>, k: int)
    requires
        only_mentions(s),
        0 <= k <= s.len(),
    ensures
        only_mentions(s.skip(k)),
{
    let part = s.skip(k);
    assert forall|i: int| #[trigger] occurs_at(part, tag_prefix(), i) implies i + 9 < part.len()
        && !is_ws(part[i + 9]) && part[i + 9] != '>' by {
        lemma_occurs_in_skip(s, tag_prefix(), k, i);
        assert(part[i + 9] == s[k + (i + 9)]);
    }
}

/// The first `>` behind the beginning of a tag.
proof fn lemma_tag_end(tag: Seq<char>)
    requires
        begins(tag, tag_prefix()),
    ensures
        first(tag, seq!['>']) matches Some(i) ==> 9 <= i < tag.len() && tag[i] == '>',
{
    text::lemma_first_from(tag, seq!['>'], 0);
    match first(tag, seq!['>']) {
        Some(i) => {
            assert(tag.subrange(i, i + 1)[0] == '>');
            if i < 9 {
                assert(tag.take(9)[i] == tag_prefix()[i]);
            }
        },
        None => {},
    }
}

/// Text in which no leaked tag begins goes through in full: what is let through and what is held
/// back make up the text.
pub proof fn law_clean_text_is_kept(rest: Seq<char>)
    requires
        only_mentions(rest),
    ensures
        scan(rest, false).0 + scan(rest, false).1.buffer == rest,
        !scan(rest, false).1.stripping,
        stripped(rest) == rest,
    decreases rest.len(),
{
    text::lemma_first_from(rest, tag_prefix(), 0);
    match first(rest, tag_prefix()) {
        None => {
            lemma_held_within(rest, 8);
            let emit = rest.len() - held(rest);
            assert(rest.take(emit) + rest.skip(emit) =~= rest);
        },
        Some(start) => {
            let tag = rest.skip(start);
            let behind = tag.skip(9);
            assert(behind =~= rest.skip(start + 9));
            lemma_only_mentions_skip(rest, start + 9);
            law_clean_text_is_kept(behind);
            assert(tag.take(9) =~= rest.subrange(start, start + 9));
            lemma_tag_end(tag);
            assert(tag[9] == rest[start + 9]);
            assert(behind[0] == tag[9]);
            match first(tag, seq!['>']) {
                Some(open_end) => {
                    assert(open_end != 9);
                    assert(tag.subrange(9, open_end)[0] == tag[9]);
                },
                None => {},
            }
            let passed = scan(behind, false);
            let before = rest.take(start);
            assert(scan(rest, false).0 == before + tag_prefix() + passed.0);
            assert(before + tag_prefix() + passed.0 + passed.1.buffer =~= before + tag_prefix() + (
            passed.0 + passed.1.buffer));
            assert(before + tag_prefix() + behind =~= rest);
        },
    }
}

/// A pattern that begins with `<` and holds no other `<`.
pub open spec fn one_bracket(pat: Seq<char>) -> bool {
    &&& pat.len() > 0
    &&& pat[0] == '<'
    &&& forall|k: int| 0 < k < pat.len() ==> #[trigger] pat[k] != '<'
}

/// Such a pattern, put behind a text without it, does not stand anywhere before.
pub proof fn lemma_not_before(a: Seq<char>, pat: Seq<char>, b: Seq<char>, i: int)
    requires
        one_bracket(pat),
        !text::occurs(a, pat),
        i < a.len(),
    ensures
        !occurs_at(a + pat + b, pat, i),
        occurs_at(a + pat + b, pat, a.len() as int),
{
    let s = a + pat + b;
    assert(s.subrange(a.len() as int, (a.len() + pat.len()) as int) =~= pat);
    if occurs_at(s, pat, i) {
        if i + pat.len() <= a.len() {
            assert(a.subrange(i, i + pat.len()) =~= s.subrange(i, i + pat.len()));
            assert(occurs_at(a, pat, i));
        } else {
            let k = a.len() - i;
            assert(s.subrange(i, i + pat.len())[k] == s[a.len() as int]);
            assert(pat[k] != '<');
        }
    }
}

/// Such a pattern, put behind a text without it, stands there first.
proof fn lemma_first_behind(a: Seq<char>, pat: Seq<char>, b: Seq<char>)
    requires
        one_bracket(pat),
        !text::occurs(a, pat),
    ensures
        first(a + pat + b, pat) == Some(a.len() as int),
{
    let s = a + pat + b;
    text::lemma_first_from(s, pat, 0);
    lemma_not_before(a, pat, b, -1);
    assert(occurs_at(s, pat, a.len() as int));
    let i = first(s, pat)->0;
    if i < a.len() {
        lemma_not_before(a, pat, b, i);
    }
}

/// A leaked element.
pub open spec fn element(attrs: Seq<char>, body: Seq<char>) -> Seq<char> {
    tag_prefix() + attrs + seq!['>'] + body + tag_close()
}

/// The tags of the filter have one bracket each.
proof fn lemma_brackets()
    ensures
        one_bracket(tag_prefix()),
        one_bracket(tag_close()),
        tag_prefix().len() == 9,
        tag_close().len() == 11,
{
}

proof fn lemma_first_gt(s: Seq<char>, n: int)
    requires
        0 <= n < s.len(),
        s[n] == '>',
        forall|i: int| 0 <= i < n ==> s[i] != '>',
    ensures
        first(s, seq!['>']) == Some(n),
{
    text::lemma_first_from(s, seq!['>'], 0);
    assert(s.subrange(n, n + 1) =~= seq!['>']);
    assert(occurs_at(s, seq!['>'], n));
    let i = first(s, seq!['>'])->0;
    assert(s.subrange(i, i + 1)[0] == s[i]);
}

proof fn lemma_no_gt(s: Seq<char>)
    requires
        forall|i: int| 0 <= i < s.len() ==> s[i] != '>',
    ensures
        first(s, seq!['>']) is None,
{
    text::lemma_first_from(s, seq!['>'], 0);
    if first(s, seq!['>']) is Some {
        let i = first(s, seq!['>'])->0;
        assert(s.subrange(i, i + 1)[0] == s[i]);
    }
}

/// The first `>` behind the name of a leaked tag ends its attributes.
proof fn lemma_attrs_end(attrs: Seq<char>, tail: Seq<char>)
    requires
        !attrs.contains('>'),
    ensures
        first(tag_prefix() + attrs + seq!['>'] + tail, seq!['>']) == Some(9 + attrs.len() as int),
        first(tag_prefix() + attrs, seq!['>']) is None,
{
    lemma_brackets();
    let t = tag_prefix() + attrs;
    let s = t + seq!['>'] + tail;
    assert forall|i: int| 0 <= i < t.len() implies t[i] != '>' by {
        if i >= 9 {
            assert(attrs.contains(attrs[i - 9]));
        } else {
            assert(t[i] == tag_prefix()[i]);
        }
    }
    assert forall|i: int| 0 <= i < t.len() implies s[i] != '>' by {
        assert(s[i] == t[i]);
    }
    lemma_first_gt(s, t.len() as int);
    lemma_no_gt(t);
}

/// A leaked element is dropped, and nothing else: the text before it goes through, and behind it
/// the filter is as if the element had not been there.
pub proof fn law_leak_is_dropped(a: Seq<char>, attrs: Seq<char>, body: Seq<char>, b: Seq<char>)
    requires
        !text::occurs(a, tag_prefix()),
        name_ends(attrs),
        !attrs.contains('>'),
        !text::occurs(body, tag_close()),
    ensures
        scan(a + element(attrs, body) + b, false) == (a + scan(b, false).0, scan(b, false).1),
{
    lemma_brackets();
    let rest = a + element(attrs, body) + b;
    let tail = body + tag_close() + b;
    let tag = tag_prefix() + attrs + seq!['>'] + tail;
    assert(rest =~= a + tag_prefix() + (attrs + seq!['>'] + tail));
    lemma_first_behind(a, tag_prefix(), attrs + seq!['>'] + tail);
    assert(rest.take(a.len() as int) =~= a);
    assert(rest.skip(a.len() as int) =~= tag);
    lemma_attrs_end(attrs, tail);
    let n = 9 + attrs.len() as int;
    assert(tag.subrange(9, n) =~= attrs);
    assert(tag.skip(n + 1) =~= tail);
    lemma_first_behind(body, tag_close(), b);
    assert(tag.skip(n + 1 + body.len() + 11) =~= b);
}

/// Text that ends before a leaked tag is whole goes through, or is held back up to the beginning
/// of the tag.
proof fn lemma_cut_before_tag(a: Seq<char>, n: int)
    requires
        !text::occurs(a, tag_prefix()),
        0 <= n <= 8,
    ensures
        ({
            let p = a + tag_prefix().take(n);
            let h = held(p);
            &&& n <= h <= p.len()
            &&& scan(p, false) == (
                p.take(p.len() - h),
                FilterV { buffer: p.skip(p.len() - h), stripping: false },
            )
        }),
{
    lemma_brackets();
    let p = a + tag_prefix().take(n);
    let whole = a + tag_prefix() + Seq::empty();
    text::lemma_first_from(p, tag_prefix(), 0);
    if first(p, tag_prefix()) is Some {
        let i = first(p, tag_prefix())->0;
        assert(p.subrange(i, i + 9) =~= whole.subrange(i, i + 9));
        lemma_not_before(a, tag_prefix(), Seq::empty(), i);
    }
    lemma_held_within(p, 8);
    assert(p.skip(p.len() - n) =~= tag_prefix().take(n));
    assert(tail_is_prefix(p, n));
}

/// A part of a text without a pattern is without it.
proof fn lemma_absent(s: Seq<char>, pat: Seq<char>, from: int, to: int)
    requires
        !text::occurs(s, pat),
        0 <= from <= to <= s.len(),
    ensures
        !text::occurs(s.subrange(from, to), pat),
{
    let part = s.subrange(from, to);
    if text::occurs(part, pat) {
        let i = choose|i: int| #[trigger] occurs_at(part, pat, i);
        assert(part.subrange(i, i + pat.len()) =~= s.subrange(from + i, from + i + pat.len()));
        assert(occurs_at(s, pat, from + i));
    }
}

/// A leaked element of which only a beginning is in sight is lost, and more of it is waited for.
pub proof fn lemma_beginning_is_lost(a: Seq<char>, attrs: Seq<char>, body: Seq<char>, m: int)
    requires
        !text::occurs(a, tag_prefix()),
        name_ends(attrs),
        !attrs.contains('>'),
        !text::occurs(body, tag_close()),
        0 <= m <= attrs.len() + 1 + body.len(),
    ensures
        scan(a + tag_prefix() + (attrs + seq!['>'] + body).take(m), false) == (
            a,
            FilterV { buffer: Seq::empty(), stripping: true },
        ),
{
    lemma_brackets();
    let inner = attrs + seq!['>'] + body;
    let p = a + tag_prefix() + inner.take(m);
    lemma_first_behind(a, tag_prefix(), inner.take(m));
    let tag = tag_prefix() + inner.take(m);
    assert(p.skip(a.len() as int) =~= tag);
    assert(p.take(a.len() as int) =~= a);
    assert(tag.skip(9) =~= inner.take(m));
    if m <= attrs.len() {
        let some = attrs.take(m);
        assert(inner.take(m) =~= some);
        assert(!some.contains('>')) by {
            if some.contains('>') {
                let i = choose|i: int| 0 <= i < some.len() && some[i] == '>';
                assert(attrs[i] == '>');
            }
        }
        lemma_attrs_end(some, Seq::empty());
        assert(name_ends(some));
    } else {
        let seen = body.subrange(0, m - attrs.len() - 1);
        assert(tag =~= tag_prefix() + attrs + seq!['>'] + seen);
        lemma_attrs_end(attrs, seen);
        let n = 9 + attrs.len() as int;
        assert(tag.subrange(9, n) =~= attrs);
        assert(tag.skip(n + 1) =~= seen);
        lemma_absent(body, tag_close(), 0, m - attrs.len() - 1);
        text::lemma_first_some(seen, tag_close());
    }
}

/// A leaked element that is cut before its name is whole.
proof fn lemma_cut_in_name(
    a: Seq<char>,
    attrs: Seq<char>,
    body: Seq<char>,
    b: Seq<char>,
    cut: int,
)
    requires
        !text::occurs(a, tag_prefix()),
        name_ends(attrs),
        !attrs.contains('>'),
        !text::occurs(body, tag_close()),
        0 <= cut < a.len() + 9,
    ensures
        ({
            let whole = a + element(attrs, body) + b;
            let (out1, f) = scan(whole.take(cut), false);
            let (out2, g) = scan(f.buffer + whole.skip(cut), f.stripping);
            out1 + out2 == a + scan(b, false).0 && g == scan(b, false).1
        }),
{
    lemma_brackets();
    let whole = a + element(attrs, body) + b;
    let p = whole.take(cut);
    let n = if cut <= a.len() {
        0
    } else {
        cut - a.len()
    };
    let front = a.subrange(0, cut - n);
    lemma_absent(a, tag_prefix(), 0, cut - n);
    assert(p =~= front + tag_prefix().take(n));
    lemma_cut_before_tag(front, n);
    let k = cut - held(p);
    let late = a.subrange(k, a.len() as int);
    lemma_absent(a, tag_prefix(), k, a.len() as int);
    assert(p.skip(k) + whole.skip(cut) =~= late + element(attrs, body) + b);
    law_leak_is_dropped(late, attrs, body, b);
    assert(p.take(k) + (late + scan(b, false).0) =~= a + scan(b, false).0);
}

/// A leaked element is dropped as well where it comes in two pieces, wherever before its closing
/// tag it is cut: also in the middle of its name, of which nothing goes through.
pub proof fn law_cut_leak_is_dropped(
    a: Seq<char>,
    attrs: Seq<char>,
    body: Seq<char>,
    b: Seq<char>,
    cut: int,
)
    requires
        !text::occurs(a, tag_prefix()),
        name_ends(attrs),
        !attrs.contains('>'),
        !text::occurs(attrs + seq!['>'] + body, tag_close()),
        0 <= cut <= a.len() + 9 + attrs.len() + 1 + body.len(),
    ensures
        ({
            let whole = a + element(attrs, body) + b;
            let (out1, f) = scan(whole.take(cut), false);
            let (out2, g) = scan(f.buffer + whole.skip(cut), f.stripping);
            out1 + out2 == a + scan(b, false).0 && g == scan(b, false).1
        }),
{
    lemma_brackets();
    let whole = a + element(attrs, body) + b;
    let inner = attrs + seq!['>'] + body;
    let end = inner.len() as int;
    lemma_absent(inner, tag_close(), attrs.len() as int + 1, end);
    assert(inner.subrange(attrs.len() as int + 1, end) =~= body);
    if cut < a.len() + 9 {
        lemma_cut_in_name(a, attrs, body, b, cut);
    } else {
        let m = cut - a.len() - 9;
        let left = inner.subrange(m, end);
        lemma_beginning_is_lost(a, attrs, body, m);
        assert(whole.take(cut) =~= a + tag_prefix() + inner.take(m));
        lemma_absent(inner, tag_close(), m, end);
        let q = whole.skip(cut);
        assert(q =~= left + tag_close() + b);
        assert(Seq::<char>::empty() + q =~= q);
        lemma_first_behind(left, tag_close(), b);
        assert(q.skip(left.len() as int + 11) =~= b);
    }
}

/// What the filter holds back at the end of a stream is text, and comes out as it is.
pub proof fn law_held_tail_is_text(f: FilterV)
    requires
        filter_ok(f),
    ensures
        stripped(f.buffer) == f.buffer,
{
    if text::occurs(f.buffer, tag_prefix()) {
        let i = choose|i: int| #[trigger] text::occurs_at(f.buffer, tag_prefix(), i);
        assert(tag_prefix().len() == 9);
    }
    law_clean_text_is_kept(f.buffer);
}

/// Removes leaked tool markup from text that comes in chunks.
#[derive(Debug)]
pub struct ToolUseXmlLeakFilter {
    buffer: String,
    stripping: bool,
}

impl ToolUseXmlLeakFilter {
    pub closed spec fn view(&self) -> FilterV {
        FilterV { buffer: self.buffer@, stripping: self.stripping }
    }

    /// A filter at the start of a stream.
    pub fn new() -> (r: ToolUseXmlLeakFilter)
        ensures
            r.view() == (FilterV { buffer: Seq::empty(), stripping: false }),
            filter_ok(r.view()),
    {
        assert(tag_prefix().take(0) =~= Seq::empty());
        ToolUseXmlLeakFilter { buffer: String::new(), stripping: false }
    }

    /// Takes a chunk in and gives back the text that can go out.
    pub fn filter(&mut self, content: &str) -> (r: String)
        ensures
            r@ == scan(old(self).view().buffer + content@, old(self).view().stripping).0,
            final(self).view() == scan(
                old(self).view().buffer + content@,
                old(self).view().stripping,
            ).1,
            filter_ok(final(self).view()),
    {
        let mut whole = self.buffer.clone();
        whole.append(content);
        let chars = text::chars_of(whole.as_str());
        let mut out = String::new();
        let mut pos: usize = 0;
        let ghost goal = scan(whole@, self.stripping);
        proof {
            lemma_scan_ok(whole@, self.stripping);
            assert(whole@.skip(0) =~= whole@);
        }
        let mut turn = if self.stripping {
            after_close(&chars, 0)
        } else {
            next_turn(&chars, 0)
        };
        loop
            invariant_except_break
                pos <= chars.len(),
                turn_ok(whole@, pos as int, turn),
                goal.0 == out@ + turn_result(whole@, pos as int, turn).0,
                goal.1 == turn_result(whole@, pos as int, turn).1,
            invariant
                chars@ == whole@,
                filter_ok(goal.1),
            ensures
                goal.0 == out@,
                goal.1 == self.view(),
            decreases chars.len() - pos,
        {
            match turn {
                Turn::Hold { cut } => {
                    out.append(text::slice(whole.as_str(), pos, cut).as_str());
                    self.buffer = text::slice(whole.as_str(), cut, chars.len());
                    self.stripping = false;
                    assert(whole@.skip(cut as int) =~= whole@.subrange(
                        cut as int,
                        whole@.len() as int,
                    ));
                    break;
                },
                Turn::Lose { cut } => {
                    out.append(text::slice(whole.as_str(), pos, cut).as_str());
                    self.buffer = String::new();
                    self.stripping = true;
                    break;
                },
                Turn::Resume { cut, next } => {
                    let ghost before = out@;
                    out.append(text::slice(whole.as_str(), pos, cut).as_str());
                    assert(before + (whole@.subrange(pos as int, cut as int) + scan(
                        whole@.skip(next as int),
                        false,
                    ).0) =~= out@ + scan(whole@.skip(next as int), false).0);
                    pos = next;
                    turn = next_turn(&chars, pos);
                },
            }
        }
        out
    }

    /// Ends the stream and gives back what was held.
    pub fn finish(&mut self) -> (r: String)
        ensures
            r@ == stripped(old(self).view().buffer),
            filter_ok(old(self).view()) ==> r@ == old(self).view().buffer,
            final(self).view() == (FilterV { buffer: Seq::empty(), stripping: false }),
            filter_ok(final(self).view()),
    {
        proof {
            if filter_ok(self.view()) {
                law_held_tail_is_text(self.view());
            }
            assert(tag_prefix().take(0) =~= Seq::empty());
            law_held_tail_is_text(FilterV { buffer: Seq::empty(), stripping: false });
            assert(self.buffer@.len() == 0 ==> self.buffer@ =~= Seq::empty());
        }
        self.stripping = false;
        let remaining = self.buffer.clone();
        self.buffer = String::new();
        if remaining.as_str().is_empty() {
            String::new()
        } else {
            strip_tool_use_xml_leaks(remaining.as_str())
        }
    }
}

/// One decision of the filter, from some position on: which text to let through (up to `cut`)
/// and where to go on.
enum Turn {
    /// The rest may grow into a tag and is held.
    Hold { cut: usize },
    /// The rest lies inside an element.
    Lose { cut: usize },
    /// The text from `next` on is still to be looked at.
    Resume { cut: usize, next: usize },
}

spec fn turn_ok(whole: Seq<char>, pos: int, turn: Turn) -> bool {
    match turn {
        Turn::Hold { cut } => pos <= cut <= whole.len(),
        Turn::Lose { cut } => pos <= cut <= whole.len(),
        Turn::Resume { cut, next } => pos <= cut <= next <= whole.len() && pos < next,
    }
}

spec fn turn_result(whole: Seq<char>, pos: int, turn: Turn) -> (Seq<char>, FilterV) {
    match turn {
        Turn::Hold { cut } => (
            whole.subrange(pos, cut as int),
            FilterV { buffer: whole.skip(cut as int), stripping: false },
        ),
        Turn::Lose { cut } => (
            whole.subrange(pos, cut as int),
            FilterV { buffer: Seq::empty(), stripping: true },
        ),
        Turn::Resume { cut, next } => (
            whole.subrange(pos, cut as int) + scan(whole.skip(next as int), false).0,
            scan(whole.skip(next as int), false).1,
        ),
    }
}

/// Looks for the end of an element from `pos` on.
fn after_close(chars: &Vec<char>, pos: usize) -> (r: Turn)
    requires
        pos <= chars.len(),
    ensures
        turn_ok(chars@, pos as int, r),
        turn_result(chars@, pos as int, r) == scan(chars@.skip(pos as int), true),
{
    let close = text::chars_of(TOOL_USE_XML_CLOSE);
    let ghost rest = chars@.skip(pos as int);
    proof {
        lemma_literals();
        text::lemma_first_skip(chars@, tag_close(), pos as int, 0);
        assert(chars@.subrange(pos as int, pos as int) =~= Seq::empty());
    }
    match text::find_from(chars, &close, pos) {
        Some(i) => {
            proof {
                assert(rest.skip(i - pos + 11) =~= chars@.skip(i + 11));
                let after = scan(chars@.skip(i + 11), false);
                assert(Seq::empty() + after.0 =~= after.0);
            }
            Turn::Resume { cut: pos, next: i + close.len() }
        },
        None => Turn::Lose { cut: pos },
    }
}

/// Looks for the next leaked tag from `pos` on.
fn next_turn(chars: &Vec<char>, pos: usize) -> (r: Turn)
    requires
        pos <= chars.len(),
    ensures
        turn_ok(chars@, pos as int, r),
        turn_result(chars@, pos as int, r) == scan(chars@.skip(pos as int), false),
{
    let prefix = text::chars_of(TOOL_USE_XML_PREFIX);
    let ghost rest = chars@.skip(pos as int);
    proof {
        lemma_literals();
        text::lemma_first_skip(chars@, tag_prefix(), pos as int, 0);
    }
    match text::find_from(chars, &prefix, pos) {
        None => {
            let keep = longest_tool_use_prefix_suffix(chars, pos);
            let cut = chars.len() - keep;
            proof {
                assert(rest.take(cut - pos) =~= chars@.subrange(pos as int, cut as int));
                assert(rest.skip(cut - pos) =~= chars@.skip(cut as int));
            }
            Turn::Hold { cut }
        },
        Some(begin) => {
            proof {
                text::lemma_first_from(chars@, tag_prefix(), pos as int);
            }
            let r = tag_turn(chars, begin);
            proof {
                let start = begin - pos;
                let before = rest.take(start);
                let tag = rest.skip(start);
                assert(tag =~= chars@.skip(begin as int));
                assert(before =~= chars@.subrange(pos as int, begin as int));
                assert(tag.take(9) =~= tag_prefix());
                text::lemma_first_from(tag, tag_prefix(), 0);
                assert(tag.subrange(0, 9) =~= tag.take(9));
                assert(tag.take(0) =~= Seq::empty());
                assert(tag.skip(0) =~= tag);
                lemma_scan_shift(rest, start);
                let inner = turn_result(chars@, begin as int, r);
                assert(scan(rest, false) == (before + inner.0, inner.1));
                match r {
                    Turn::Hold { cut } => {
                        assert(before + chars@.subrange(begin as int, cut as int)
                            =~= chars@.subrange(pos as int, cut as int));
                    },
                    Turn::Lose { cut } => {
                        assert(before + chars@.subrange(begin as int, cut as int)
                            =~= chars@.subrange(pos as int, cut as int));
                    },
                    Turn::Resume { cut, next } => {
                        let after = scan(chars@.skip(next as int), false).0;
                        assert(before + (chars@.subrange(begin as int, cut as int) + after)
                            =~= chars@.subrange(pos as int, cut as int) + after);
                    },
                }
            }
            r
        },
    }
}

/// The text before the first tag goes through, whatever becomes of the tag.
proof fn lemma_scan_shift(rest: Seq<char>, start: int)
    requires
        first(rest, tag_prefix()) == Some(start),
        0 <= start,
        start + 9 <= rest.len(),
        first(rest.skip(start), tag_prefix()) == Some(0int),
    ensures
        scan(rest, false) == (
            rest.take(start) + scan(rest.skip(start), false).0,
            scan(rest.skip(start), false).1,
        ),
{
    let tag = rest.skip(start);
    let none = tag.take(0);
    assert(none =~= Seq::empty());
    assert(tag.skip(0) =~= tag);
    let passed = scan(tag.skip(9), false);
    assert(rest.take(start) + tag_prefix() + passed.0 =~= rest.take(start) + (none + tag_prefix()
        + passed.0));
    assert(rest.take(start) + none =~= rest.take(start));
    match first(tag, seq!['>']) {
        Some(open_end) => if 9 <= open_end < tag.len() {
            match first(tag.skip(open_end + 1), tag_close()) {
                Some(close) => if 0 <= close && open_end + 1 + close + 11 <= tag.len() {
                    let after = scan(tag.skip(open_end + 1 + close + 11), false);
                    assert(rest.take(start) + after.0 =~= rest.take(start) + (none + after.0));
                },
                None => {},
            }
        },
        None => {},
    }
}

/// Decides on a text that begins like a leaked tag at `begin`.
fn tag_turn(chars: &Vec<char>, begin: usize) -> (r: Turn)
    requires
        text::occurs_at(chars@, tag_prefix(), begin as int),
    ensures
        turn_ok(chars@, begin as int, r),
        turn_result(chars@, begin as int, r) == scan(chars@.skip(begin as int), false),
{
    let close = text::chars_of(TOOL_USE_XML_CLOSE);
    let mut gt: Vec<char> = Vec::new();
    gt.push('>');
    let ghost tag = chars@.skip(begin as int);
    proof {
        lemma_literals();
        assert(gt@ =~= seq!['>']);
        assert(tag.take(9) =~= tag_prefix());
        assert(tag.subrange(0, 9) =~= tag.take(9));
        assert(tag.take(0) =~= Seq::empty());
        assert(tag.skip(0) =~= tag);
        assert(chars@.subrange(begin as int, begin as int) =~= Seq::empty());
        text::lemma_first_skip(chars@, seq!['>'], begin as int, 0);
        lemma_gt_after_prefix(tag);
    }
    assert(begin + 9 <= chars.len());
    let name_end = begin + 9;
    match text::find_from(chars, &gt, begin) {
        None => {
            assert(tag.skip(9) =~= chars@.subrange(name_end as int, chars@.len() as int));
            if is_potential_tool_use_tag_start(chars, name_end, chars.len()) {
                return Turn::Lose { cut: begin };
            }
        },
        Some(open_end) => {
            assert(tag.subrange(9, open_end - begin) =~= chars@.subrange(
                name_end as int,
                open_end as int,
            ));
            if is_potential_tool_use_tag_start(chars, name_end, open_end) {
                proof {
                    text::lemma_first_skip(chars@, tag_close(), open_end + 1, 0);
                    assert(tag.skip(open_end - begin + 1) =~= chars@.skip(open_end + 1));
                }
                return match text::find_from(chars, &close, open_end + 1) {
                    Some(i) => {
                        assert(tag.skip(i + 11 - begin) =~= chars@.skip(i + 11));
                        Turn::Resume { cut: begin, next: i + close.len() }
                    },
                    None => Turn::Lose { cut: begin },
                };
            }
        },
    }
    proof {
        assert(tag.skip(9) =~= chars@.skip(name_end as int));
        assert(chars@.subrange(begin as int, name_end as int) =~= tag_prefix());
        assert(tag.take(0) + tag_prefix() =~= tag_prefix());
    }
    Turn::Resume { cut: name_end, next: name_end }
}

/// In a text that begins like a leaked tag no `>` stands before the end of the name.
proof fn lemma_gt_after_prefix(tag: Seq<char>)
    requires
        tag.len() >= 9,
        tag.take(9) == tag_prefix(),
    ensures
        first(tag, seq!['>']) matches Some(i) ==> 9 <= i < tag.len(),
{
    text::lemma_first_from(tag, seq!['>'], 0);
    if let Some(i) = first(tag, seq!['>']) {
        assert(tag.subrange(i, i + 1)[0] == '>');
        if i < 9 {
            assert(tag.take(9)[i] == tag[i]);
        }
    }
}

/// Whether the name of a leaked tag ends at `from`, in the text up to `to`.
fn is_potential_tool_use_tag_start(s: &Vec<char>, from: usize, to: usize) -> (r: bool)
    requires
        from <= to <= s.len(),
    ensures
        r == name_ends(s@.subrange(from as int, to as int)),
{
    from == to || text::is_whitespace(s[from])
}

/// Length of the longest tail of the text from `from` on that may grow into a leaked tag.
fn longest_tool_use_prefix_suffix(s: &Vec<char>, from: usize) -> (r: usize)
    requires
        from <= s.len(),
    ensures
        r == held(s@.skip(from as int)),
        r <= s.len() - from,
{
    let prefix = text::chars_of(TOOL_USE_XML_PREFIX);
    let ghost rest = s@.skip(from as int);
    let mut n: usize = 8;
    while n > 0
        invariant
            n <= 8,
            from <= s.len(),
            prefix@ == TOOL_USE_XML_PREFIX@,
            rest == s@.skip(from as int),
            held(rest) == held_within(rest, n as int),
        decreases n,
    {
        proof {
            lemma_literals();
        }
        if n <= s.len() - from {
            let mut k: usize = 0;
            let start = s.len() - n;
            while k < n && s[start + k] == prefix[k]
                invariant
                    k <= n <= 8,
                    prefix@.len() == 9,
                    start + n == s.len(),
                    forall|j: int| 0 <= j < k ==> s@[start + j] == prefix@[j],
                decreases n - k,
            {
                k += 1;
            }
            if k == n {
                assert(rest.skip(rest.len() - n) =~= tag_prefix().take(n as int));
                return n;
            }
            assert(rest.skip(rest.len() - n)[k as int] != tag_prefix().take(n as int)[k as int]);
        }
        n -= 1;
    }
    0
}

/// `text` without leaked tool markup.
pub fn strip_tool_use_xml_leaks(text: &str) -> (r: String)
    ensures
        r@ == stripped(text@),
{
    let mut filter = ToolUseXmlLeakFilter::new();
    assert(Seq::<char>::empty() + text@ =~= text@);
    let mut out = filter.filter(text);
    out.append(filter.buffer.as_str());
    out
}

} // verus!
