//! Thinking that the model marks by tags arrives as thinking, and the text around it as text.

use crate::delivery_laws::{content_of, kept_by_filter, lemma_call_says_nothing};
use crate::delivery_laws::{lemma_end_says_nothing, lemma_fill, lemma_open_says_nothing};
use crate::delivery_laws::{lemma_said_concat, lemma_said_one, lemma_stop_says_nothing};
use crate::delivery_laws::{lemma_text_is_said, lemma_text_of, lemma_thinking_says_nothing};
use crate::delivery_laws::{no_calls, said};
use crate::events::EventV;
use crate::json::JsonV;
use crate::reasoning_laws::{lemma_call_thinks_nothing, lemma_end_thinks_nothing};
use crate::reasoning_laws::{lemma_open_thinks_nothing, lemma_stop_thinks_nothing};
use crate::reasoning_laws::{lemma_text_thinks_nothing, lemma_thought_concat, lemma_thought_of};
use crate::reasoning_laws::{lemma_thought_one, thought};
use crate::sse::{opt_events, part_json, signature_delta_event, thinking_delta_event, SseEventV};
use crate::state::{block_stop_step, has_other_than_thinking, lemma_position_from, StateV};
use crate::stream_laws::{in_order, lemma_after_step, lemma_call_step, lemma_event_step};
use crate::stream_laws::{lemma_flush_buffer, lemma_flush_calls, lemma_initial_step};
use crate::stream_laws::{lemma_inside_step, lemma_kinds, lemma_same_text, lemma_search_step};
use crate::stream_laws::{lemma_with_stop_reason, unsent};
use crate::stream_model::{after_step, before_call, buffered_text, call_step, calls_step};
use crate::stream_model::{close_thinking, close_unfinished, content_step, end_message, end_well};
use crate::stream_model::{event_step, events_step, fill_text, filtered_step, finish_stream};
use crate::stream_model::{flush_buffer, flush_calls, flush_filter, initial_step, inside_step};
use crate::stream_model::{last_state, open_block, safe_chars, search_step, strip_step, text_step};
use crate::stream_model::{thinking_events, transcript, with_stop_reason, Step, StreamV};
use crate::text::{blank, byte_len, is_ws, lemma_byte_len_take, lemma_bytes, occurs, occurs_at};
use crate::text::trimmed_start;
use crate::thinking::{close_tag, extracted, find_end, first_last_close, first_real, is_quote};
use crate::thinking::{law_no_close_means_no_last_close, lemma_chars_within, lemma_first_real};
use crate::thinking::{open_tag, quote_at, real_at, text_resumes, without_first_newline};
use crate::tokens::{capped, estimate};
use crate::tool_json::{finish_step, push_step, with_blank, without_arguments, CompletedV, FinishV};
use crate::tool_json::{PendingV, PushV, ToolUseV};
use crate::xml_filter::{filter_ok, law_clean_text_is_kept, law_held_tail_is_text, lemma_not_before};
use crate::xml_filter::{lemma_only_mentions_skip, lemma_scan_ok, one_bracket, only_mentions, scan};
use crate::xml_filter::{tag_prefix, FilterV};
use vstd::prelude::*;

verus! {

/// An answer in which thinking is marked: what stands before the opening tag, the thinking, and,
/// where the closing tag is there, what stands behind it.
pub struct MarkedV {
    pub before: Seq<char>,
    pub thinking: Seq<char>,
    pub rest: Option<Seq<char>>,
}

/// What stands behind the opening tag.
pub open spec fn inner(m: MarkedV) -> Seq<char> {
    match m.rest {
        Some(rest) => m.thinking + close_tag() + rest,
        None => m.thinking,
    }
}

/// The whole answer.
pub open spec fn marked(m: MarkedV) -> Seq<char> {
    m.before + open_tag() + inner(m)
}

/// Whether the tags are real wherever the answer is cut: no quoting character stands next to
/// them, the opening tag is the first, and the closing tag the first behind it. Text before the
/// opening tag is blank or goes right up to the tag.
pub open spec fn marks_thinking(m: MarkedV) -> bool {
    &&& blank(m.before) || (!is_ws(m.before.last()) && !is_quote(m.before.last()))
    &&& !occurs(m.before, open_tag())
    &&& !quote_at(m.thinking, 0)
    &&& !occurs(m.thinking, close_tag())
    &&& m.rest matches Some(rest) ==> m.thinking.len() > 0 && !quote_at(
        m.thinking,
        m.thinking.len() - 1,
    ) && !quote_at(rest, 0)
}

proof fn lemma_tags()
    ensures
        one_bracket(open_tag()),
        one_bracket(close_tag()),
        open_tag().len() == 10,
        close_tag().len() == 11,
        forall|i: int| 0 <= i < 10 ==> (#[trigger] open_tag()[i] as u32) < 0x80,
        forall|i: int| 0 <= i < 11 ==> (#[trigger] close_tag()[i] as u32) < 0x80,
{
}

/// What is held back of a text ends with the beginning of a tag, if the text does: of the `bytes`
/// last bytes nothing goes out.
proof fn lemma_tail_is_held(buffer: Seq<char>, bytes: int, n: int)
    requires
        0 < bytes,
        0 <= n <= buffer.len(),
        buffer.len() - n < bytes,
        forall|i: int| n <= i < buffer.len() ==> (#[trigger] buffer[i] as u32) < 0x80,
    ensures
        0 <= safe_chars(buffer, bytes) <= n,
{
    let all = byte_len(buffer) as int;
    let target = if all < bytes {
        0
    } else {
        all - bytes
    };
    let k = safe_chars(buffer, bytes);
    lemma_chars_within(buffer, target);
    lemma_bytes(buffer.take(k));
    if k > n {
        let tail = buffer.skip(k);
        lemma_byte_len_take(buffer, k);
        assert forall|i: int| 0 <= i < tail.len() implies (#[trigger] tail[i] as u32) < 0x80 by {
            assert(tail[i] == buffer[k + i]);
        }
        lemma_bytes(tail);
    }
}

/// What stands in a part of a text stands in the text.
proof fn lemma_in_part(s: Seq<char>, pat: Seq<char>, from: int, to: int, i: int)
    requires
        0 <= from <= to <= s.len(),
        occurs_at(s.subrange(from, to), pat, i),
    ensures
        occurs_at(s, pat, from + i),
{
    assert(s.subrange(from, to).subrange(i, i + pat.len()) =~= s.subrange(
        from + i,
        from + i + pat.len(),
    ));
}

/// The first real tag of a part of a text, where the text has it behind `a`.
proof fn lemma_first_real_behind(a: Seq<char>, pat: Seq<char>, b: Seq<char>, from: int, to: int)
    requires
        one_bracket(pat),
        !occurs(a, pat),
        0 <= from <= a.len(),
        from <= to <= a.len() + pat.len() + b.len(),
        !quote_at(a, a.len() - 1),
        !quote_at(b, 0),
    ensures
        first_real((a + pat + b).subrange(from, to), pat, 0) == (if to < a.len() + pat.len() {
            None
        } else {
            Some(a.len() - from)
        }),
{
    let s = a + pat + b;
    let part = s.subrange(from, to);
    lemma_first_real(part, pat, 0);
    if first_real(part, pat, 0) is Some {
        let i = first_real(part, pat, 0)->0;
        lemma_in_part(s, pat, from, to, i);
        if from + i < a.len() {
            lemma_not_before(a, pat, b, from + i);
        }
    }
    if to >= a.len() + pat.len() {
        let k = a.len() - from;
        assert(part.subrange(k, k + pat.len()) =~= pat);
        assert(occurs_at(part, pat, k));
        assert(!quote_at(part, k - 1)) by {
            if k > 0 {
                assert(part[k - 1] == a[a.len() - 1]);
            }
        }
        assert(!quote_at(part, (k + pat.len()) as int)) by {
            if k + pat.len() < part.len() {
                assert(part[(k + pat.len()) as int] == b[0]);
            }
        }
        assert(real_at(part, pat, k));
    }
}

/// A text without a tag has none in any part.
proof fn lemma_no_real(s: Seq<char>, pat: Seq<char>, from: int, to: int)
    requires
        !occurs(s, pat),
        0 <= from <= to <= s.len(),
    ensures
        first_real(s.subrange(from, to), pat, 0) is None,
{
    let part = s.subrange(from, to);
    lemma_first_real(part, pat, 0);
    if first_real(part, pat, 0) is Some {
        let i = first_real(part, pat, 0)->0;
        lemma_in_part(s, pat, from, to, i);
    }
}

proof fn lemma_ws_is_no_quote(c: char)
    ensures
        is_ws(c) ==> !is_quote(c),
{
}

proof fn lemma_trim_one(s: Seq<char>)
    requires
        s.len() > 0,
        is_ws(s[0]),
    ensures
        trimmed_start(s) == trimmed_start(s.skip(1)),
{
    assert(s.skip(1) =~= s.drop_first());
}

proof fn lemma_trim_blank(s: Seq<char>)
    ensures
        blank(s) <==> trimmed_start(s).len() == 0,
    decreases s.len(),
{
    if s.len() > 0 && is_ws(s[0]) {
        lemma_trim_blank(s.drop_first());
        if blank(s) {
            assert forall|i: int| 0 <= i < s.drop_first().len() implies is_ws(
                #[trigger] s.drop_first()[i],
            ) by {
                assert(s.drop_first()[i] == s[i + 1]);
            }
        }
        if blank(s.drop_first()) {
            assert forall|i: int| 0 <= i < s.len() implies is_ws(#[trigger] s[i]) by {
                if i > 0 {
                    assert(s.drop_first()[i - 1] == s[i]);
                }
            }
        }
    }
}

/// Trimming text that comes in pieces: the first piece that is not blank is trimmed.
proof fn lemma_trim_concat(a: Seq<char>, b: Seq<char>)
    ensures
        trimmed_start(a + b) == (if trimmed_start(a).len() == 0 {
            trimmed_start(b)
        } else {
            trimmed_start(a) + b
        }),
    decreases a.len(),
{
    if a.len() == 0 {
        assert(a + b =~= b);
    } else if is_ws(a[0]) {
        lemma_trim_concat(a.drop_first(), b);
        assert((a + b).drop_first() =~= a.drop_first() + b);
        assert((a + b)[0] == a[0]);
    } else {
        assert((a + b)[0] == a[0]);
    }
}

/// The line breaks that belong to a closing tag are white space.
proof fn lemma_resumes(s: Seq<char>, after: int)
    requires
        0 <= after <= s.len(),
    ensures
        after <= text_resumes(s, after) <= s.len(),
        trimmed_start(s.skip(text_resumes(s, after))) == trimmed_start(s.skip(after)),
{
    let rest = s.skip(after);
    let n = text_resumes(s, after) - after;
    assert(s.skip(after + n) =~= rest.skip(n));
    assert(rest.skip(0) =~= rest);
    if rest.len() > 0 {
        if blank(rest) {
            lemma_trim_blank(rest);
            lemma_trim_blank(rest.skip(n));
            assert(rest.skip(n) =~= Seq::empty());
            assert(trimmed_start(rest) =~= trimmed_start(rest.skip(n)));
        } else if n > 0 {
            assert(rest.take(n)[0] == rest[0]);
            lemma_trim_one(rest);
            if n > 1 {
                assert(rest.take(n)[1] == rest[1]);
                lemma_trim_one(rest.skip(1));
                assert(rest.skip(1).skip(1) =~= rest.skip(2));
            }
            if n > 2 {
                assert(rest.take(n)[2] == rest[2] && rest.take(n)[3] == rest[3]);
                lemma_trim_one(rest.skip(2));
                assert(rest.skip(2).skip(1) =~= rest.skip(3));
                lemma_trim_one(rest.skip(3));
                assert(rest.skip(3).skip(1) =~= rest.skip(4));
            }
        }
    }
}

/// The text before the opening tag, as far as it is sent.
pub open spec fn kept(m: MarkedV) -> Seq<char> {
    if blank(m.before) {
        Seq::empty()
    } else {
        m.before
    }
}

/// What holds of a stream that has said `w`, whatever it is at.
spec fn sound(s: StreamV, w: Seq<char>) -> bool {
    &&& in_order(s)
    &&& s.thinking_enabled
    &&& !s.reasoning_block_open
    &&& w.len() > 0 ==> s.text_block_index is Some
    &&& w.len() == 0 && no_call_sent(s) ==> !has_other_than_thinking(s.state)
}

/// No tool call has been sent.
pub open spec fn no_call_sent(s: StreamV) -> bool {
    s.tool_block_indices == Map::<Seq<char>, int>::empty()
}

/// The stream looks for the opening tag.
spec fn looking(m: MarkedV, s: StreamV, w: Seq<char>, p: int) -> bool {
    &&& sound(s, w)
    &&& !s.in_thinking_block
    &&& !s.thinking_extracted
    &&& w.len() <= m.before.len()
    &&& blank(m.before) ==> w.len() == 0
    &&& 0 <= p <= marked(m).len()
    &&& w + s.thinking_buffer == marked(m).take(p)
}

/// The stream is behind the opening tag: `q` characters of what follows it have come, of which
/// `th` was sent as thinking.
spec fn entered(m: MarkedV, s: StreamV, w: Seq<char>, th: Seq<char>, q: int) -> bool {
    &&& sound(s, w)
    &&& s.in_thinking_block
    &&& w == kept(m)
    &&& 0 <= q <= inner(m).len()
    &&& th.len() <= without_first_newline(m.thinking).len()
    &&& if s.strip_thinking_leading_newline {
        th.len() == 0 && s.thinking_buffer == inner(m).take(q)
    } else {
        q > 0 && th + s.thinking_buffer == without_first_newline(inner(m).take(q))
    }
}

/// The stream is behind the closing tag, and what it holds and has said comes to the text `u`
/// behind the tag.
spec fn left(m: MarkedV, s: StreamV, w: Seq<char>, th: Seq<char>, u: Seq<char>) -> bool {
    &&& sound(s, w)
    &&& !s.in_thinking_block
    &&& s.thinking_extracted
    &&& s.thinking_block_index is Some
    &&& th == without_first_newline(m.thinking)
    &&& if s.strip_text_after_thinking_boundary {
        w == kept(m) && trimmed_start(s.thinking_buffer) == trimmed_start(u)
    } else {
        w + s.thinking_buffer == kept(m) + trimmed_start(u) && trimmed_start(u).len() > 0
    }
}

/// The parts of a beginning of a text.
proof fn lemma_parts(w: Seq<char>, b: Seq<char>, whole: Seq<char>, p: int)
    requires
        0 <= p <= whole.len(),
        w + b == whole.take(p),
    ensures
        w.len() + b.len() == p,
        w == whole.take(w.len() as int),
        b == whole.subrange(w.len() as int, p),
{
    let all = w + b;
    assert(all.len() == p);
    assert(w =~= all.take(w.len() as int));
    assert(b =~= all.subrange(w.len() as int, p));
    assert(all.take(w.len() as int) =~= whole.take(w.len() as int));
    assert(all.subrange(w.len() as int, p) =~= whole.subrange(w.len() as int, p));
}

/// Starting a thinking block starts nothing else.
proof fn lemma_open_keeps(s: StreamV, block: JsonV)
    requires
        !has_other_than_thinking(s.state),
    ensures
        !has_other_than_thinking(open_block(s, "thinking"@, block).0.state),
{
    lemma_kinds();
    let t = open_block(s, "thinking"@, block).0;
    lemma_position_from(s.state.blocks, s.state.next_block_index, 0);
    assert forall|i: int| 0 <= i < t.state.blocks.len() implies (#[trigger] t.state.blocks[i]).kind
        == "thinking"@ by {
        if i < s.state.blocks.len() {
            assert(s.state.blocks[i].kind == "thinking"@);
        }
    }
}

/// Closing the thinking block says and thinks nothing.
proof fn lemma_close_is_silent(s: StreamV)
    ensures
        said(close_thinking(s).1) == Seq::<char>::empty(),
        thought(close_thinking(s).1) == Seq::<char>::empty(),
        has_other_than_thinking(close_thinking(s).0.state) ==> has_other_than_thinking(s.state),
{
    match s.thinking_block_index {
        Some(index) => {
            reveal_strlit("");
            lemma_text_of();
            lemma_thought_of();
            let a = thinking_delta_event(index, ""@);
            let b = signature_delta_event(index);
            let stop = opt_events(block_stop_step(s.state, index).1);
            lemma_said_one(a);
            lemma_said_one(b);
            lemma_thought_one(a);
            lemma_thought_one(b);
            lemma_said_concat(seq![a], seq![b]);
            lemma_thought_concat(seq![a], seq![b]);
            assert(seq![a] + seq![b] =~= seq![a, b]);
            lemma_stop_says_nothing(s.state, index);
            lemma_stop_thinks_nothing(s.state, index);
            lemma_said_concat(seq![a, b], stop);
            lemma_thought_concat(seq![a, b], stop);
            assert(said(close_thinking(s).1) =~= Seq::empty());
            assert(thought(close_thinking(s).1) =~= Seq::empty());
            let t = close_thinking(s).0.state;
            lemma_position_from(s.state.blocks, index, 0);
            if has_other_than_thinking(t) {
                let i = choose|i: int|
                    0 <= i < t.blocks.len() && (#[trigger] t.blocks[i]).kind != "thinking"@;
                assert(s.state.blocks[i].kind == t.blocks[i].kind);
            }
        },
        None => {},
    }
}

/// Looking for the opening tag, while it is not whole.
proof fn lemma_not_yet(m: MarkedV, s: StreamV, w: Seq<char>, p: int)
    requires
        marks_thinking(m),
        looking(m, s, w, p),
        p < m.before.len() + 10,
    ensures
        ({
            let (t, e) = search_step(s);
            &&& looking(m, t, w + said(e), p)
            &&& thought(e) == Seq::<char>::empty()
            &&& t.thinking_buffer.len() <= s.thinking_buffer.len()
        }),
{
    lemma_tags();
    lemma_search_step(s);
    let whole = marked(m);
    let nb = m.before.len() as int;
    let k = w.len() as int;
    let buffer = s.thinking_buffer;
    lemma_parts(w, buffer, whole, p);
    assert(!quote_at(m.before, nb - 1)) by {
        if nb > 0 {
            lemma_ws_is_no_quote(m.before.last());
        }
    }
    assert(!quote_at(inner(m), 0)) by {
        if m.thinking.len() > 0 {
            assert(inner(m)[0] == m.thinking[0]);
        }
    }
    lemma_first_real_behind(m.before, open_tag(), inner(m), k, p);
    let n = safe_chars(buffer, 10);
    let edge = if p <= nb {
        p - k
    } else {
        nb - k
    };
    assert forall|i: int| edge <= i < buffer.len() implies (#[trigger] buffer[i] as u32) < 0x80 by {
        assert(buffer[i] == open_tag()[k + i - nb]);
    }
    lemma_tail_is_held(buffer, 10, edge);
    let safe = buffer.take(n);
    if blank(safe) {
        assert(w + said(Seq::empty()) =~= w);
    } else {
        assert(safe =~= m.before.subrange(k, k + n));
        assert(!blank(m.before)) by {
            if blank(m.before) {
                assert forall|i: int| 0 <= i < safe.len() implies is_ws(#[trigger] safe[i]) by {
                    assert(safe[i] == m.before[k + i]);
                }
            }
        }
        lemma_text_is_said(s, safe);
        lemma_text_thinks_nothing(s, safe);
        assert(w + safe + buffer.skip(n) =~= w + buffer);
        assert(safe.len() > 0);
    }
}

/// No quoting character stands next to the opening tag.
proof fn lemma_open_is_real(m: MarkedV)
    requires
        marks_thinking(m),
    ensures
        !quote_at(m.before, m.before.len() - 1),
        !quote_at(inner(m), 0),
{
    if m.before.len() > 0 {
        lemma_ws_is_no_quote(m.before.last());
    }
    if m.thinking.len() > 0 {
        assert(inner(m)[0] == m.thinking[0]);
    }
}

/// Looking for the opening tag, once it is whole: the thinking block is opened.
proof fn lemma_found(m: MarkedV, s: StreamV, w: Seq<char>, p: int)
    requires
        marks_thinking(m),
        looking(m, s, w, p),
        p >= m.before.len() + 10,
    ensures
        ({
            let (t, e) = search_step(s);
            &&& entered(m, t, w + said(e), Seq::empty(), p - m.before.len() - 10)
            &&& thought(e) == Seq::<char>::empty()
        }),
{
    lemma_tags();
    lemma_kinds();
    lemma_search_step(s);
    let whole = marked(m);
    let nb = m.before.len() as int;
    let k = w.len() as int;
    let buffer = s.thinking_buffer;
    lemma_parts(w, buffer, whole, p);
    lemma_open_is_real(m);
    lemma_first_real_behind(m.before, open_tag(), inner(m), k, p);
    let start = nb - k;
    let part = buffer.take(start);
    assert(part =~= m.before.subrange(k, nb));
    assert(w =~= m.before.take(k));
    let (s1, e1) = if blank(part) {
        (s, Seq::empty())
    } else {
        text_step(s, part)
    };
    lemma_text_is_said(s, part);
    lemma_text_thinks_nothing(s, part);
    if blank(part) {
        assert(w + said(e1) =~= w);
        if blank(m.before) {
            assert(w =~= kept(m));
        } else {
            if part.len() > 0 {
                assert(part[part.len() - 1] == m.before.last());
            }
            assert(w =~= m.before);
        }
    } else {
        assert(w + said(e1) =~= m.before);
        assert(!blank(m.before)) by {
            if blank(m.before) {
                assert forall|i: int| 0 <= i < part.len() implies is_ws(#[trigger] part[i]) by {
                    assert(part[i] == m.before[k + i]);
                }
            }
        }
    }
    let s2 = StreamV {
        in_thinking_block: true,
        strip_thinking_leading_newline: true,
        thinking_buffer: s1.thinking_buffer.skip(start + 10),
        thinking_block_index: Some(s1.state.next_block_index),
        ..s1
    };
    let block = part_json("thinking"@, "thinking"@, ""@);
    lemma_open_says_nothing(s2, "thinking"@, block);
    lemma_open_thinks_nothing(s2, "thinking"@, block);
    let (s3, e3) = open_block(s2, "thinking"@, block);
    lemma_said_concat(e1, e3);
    lemma_thought_concat(e1, e3);
    assert(said(e1 + e3) =~= said(e1));
    assert(thought(e1 + e3) =~= Seq::empty());
    if kept(m).len() == 0 && no_call_sent(s) {
        lemma_open_keeps(s2, block);
    }
    assert(s3.thinking_buffer =~= inner(m).take(p - nb - 10));
}

/// The thinking without its first line break, and what follows.
spec fn shown(m: MarkedV) -> Seq<char> {
    match m.rest {
        Some(rest) => without_first_newline(m.thinking) + close_tag() + rest,
        None => without_first_newline(m.thinking),
    }
}

/// What a beginning of the text behind the opening tag is without its first line break.
proof fn lemma_shown(m: MarkedV, q: int)
    requires
        marks_thinking(m),
        0 < q <= inner(m).len(),
    ensures
        ({
            let t = without_first_newline(m.thinking);
            let d = m.thinking.len() - t.len();
            &&& 0 <= d <= 1
            &&& d <= q
            &&& q - d <= shown(m).len()
            &&& without_first_newline(inner(m).take(q)) == shown(m).take(q - d)
            &&& !occurs(t, close_tag())
            &&& m.rest is Some ==> !quote_at(t, t.len() - 1)
        }),
{
    lemma_tags();
    let t = without_first_newline(m.thinking);
    let d = m.thinking.len() - t.len();
    assert(m.thinking.len() > 0);
    assert(inner(m)[0] == m.thinking[0]);
    assert(inner(m).take(q)[0] == inner(m)[0]);
    assert(shown(m) =~= inner(m).skip(d));
    assert(without_first_newline(inner(m).take(q)) =~= shown(m).take(q - d));
    if occurs(t, close_tag()) {
        let i = choose|i: int| #[trigger] occurs_at(t, close_tag(), i);
        assert(t =~= m.thinking.subrange(d, m.thinking.len() as int));
        lemma_in_part(m.thinking, close_tag(), d, m.thinking.len() as int, i);
    }
    if m.rest is Some && t.len() > 0 {
        assert(t[t.len() - 1] == m.thinking[m.thinking.len() - 1]);
    }
}

/// No closing tag is in sight.
proof fn lemma_no_close(m: MarkedV, from: int, to: int)
    requires
        marks_thinking(m),
        inner(m).len() > 0,
        0 <= from <= to <= shown(m).len(),
        from <= without_first_newline(m.thinking).len(),
        to < without_first_newline(m.thinking).len() + 11,
    ensures
        find_end(shown(m).subrange(from, to)) is None,
{
    lemma_tags();
    lemma_shown(m, 1);
    let t = without_first_newline(m.thinking);
    match m.rest {
        Some(rest) => {
            lemma_first_real_behind(t, close_tag(), rest, from, to);
        },
        None => {
            lemma_no_real(t, close_tag(), from, to);
        },
    }
}

/// Inside thinking, while the closing tag is not whole: thinking goes out, up to where the tag
/// may begin.
proof fn lemma_thinking_on(m: MarkedV, s: StreamV, w: Seq<char>, th: Seq<char>, q: int)
    requires
        marks_thinking(m),
        entered(m, s, w, th, q),
        q < m.thinking.len() + 11,
    ensures
        ({
            let (t, e) = inside_step(s);
            &&& entered(m, t, w, th + thought(e), q)
            &&& t.strip_thinking_leading_newline ==> q == 0
            &&& said(e) == Seq::<char>::empty()
        }),
{
    lemma_tags();
    lemma_inside_step(s);
    let s0 = strip_step(s);
    let buffer = s0.thinking_buffer;
    let n = safe_chars(buffer, 11);
    lemma_thinking_says_nothing(s0, buffer.take(n));
    if q == 0 {
        assert(inner(m).take(0) =~= Seq::empty());
        lemma_first_real(buffer, close_tag(), 0);
        lemma_tail_is_held(buffer, 11, 0);
        assert(buffer.skip(0) =~= buffer);
        assert(th + thought(Seq::empty()) =~= th);
        assert(buffer.take(n).len() == 0);
    } else {
        let t = without_first_newline(m.thinking);
        let d = m.thinking.len() - t.len();
        let z = q - d;
        lemma_shown(m, q);
        if s.strip_thinking_leading_newline {
            assert(inner(m).take(q).drop_first() =~= without_first_newline(inner(m).take(q))
                || inner(m).take(q)[0] != '\n');
            assert(th + buffer =~= shown(m).take(z));
        }
        lemma_parts(th, buffer, shown(m), z);
        let k = th.len() as int;
        lemma_no_close(m, k, z);
        let edge = if z <= t.len() {
            z - k
        } else {
            t.len() - k
        };
        assert forall|i: int| edge <= i < buffer.len() implies (#[trigger] buffer[i] as u32)
            < 0x80 by {
            assert(buffer[i] == close_tag()[k + i - t.len()]);
        }
        lemma_tail_is_held(buffer, 11, edge);
        let part = buffer.take(n);
        lemma_thought_of();
        lemma_thought_one(thinking_delta_event(s0.thinking_block_index->0, part));
        assert(thought(thinking_events(s0, part)) =~= part);
        assert(th + part + buffer.skip(n) =~= th + buffer);
    }
}

/// Inside thinking, once the closing tag is whole: all of the thinking has gone out.
proof fn lemma_thinking_over(m: MarkedV, s: StreamV, w: Seq<char>, th: Seq<char>, q: int)
    requires
        marks_thinking(m),
        m.rest is Some,
        entered(m, s, w, th, q),
        q >= m.thinking.len() + 11,
    ensures
        ({
            let (t, e) = inside_step(s);
            &&& left(m, t, w, th + thought(e), m.rest->0.take(q - m.thinking.len() - 11))
            &&& said(e) == Seq::<char>::empty()
        }),
{
    lemma_tags();
    lemma_inside_step(s);
    let s0 = strip_step(s);
    let buffer = s0.thinking_buffer;
    let rest = m.rest->0;
    let t = without_first_newline(m.thinking);
    let d = m.thinking.len() - t.len();
    let z = q - d;
    lemma_shown(m, q);
    if s.strip_thinking_leading_newline {
        assert(inner(m).take(q).drop_first() =~= without_first_newline(inner(m).take(q))
            || inner(m).take(q)[0] != '\n');
        assert(th + buffer =~= shown(m).take(z));
    }
    lemma_parts(th, buffer, shown(m), z);
    let k = th.len() as int;
    lemma_first_real_behind(t, close_tag(), rest, k, z);
    let end = t.len() - k;
    let resume = text_resumes(buffer, end + 11);
    lemma_resumes(buffer, end + 11);
    let u = rest.take(q - m.thinking.len() - 11);
    assert(buffer.skip(end + 11) =~= u);
    let part = buffer.take(end);
    let thinking = thinking_events(s0, part);
    lemma_thinking_says_nothing(s0, part);
    lemma_thought_of();
    lemma_thought_one(thinking_delta_event(s0.thinking_block_index->0, part));
    assert(thought(thinking) =~= part);
    let s1 = StreamV {
        in_thinking_block: false,
        thinking_extracted: true,
        strip_text_after_thinking_boundary: true,
        ..s0
    };
    lemma_close_is_silent(s1);
    lemma_said_concat(thinking, close_thinking(s1).1);
    lemma_thought_concat(thinking, close_thinking(s1).1);
    assert(said(inside_step(s).1) =~= Seq::empty());
    assert(thought(inside_step(s).1) =~= part);
    assert(th + part =~= t);
}

/// Behind thinking: all text goes out, without the white space that parts it from thinking.
proof fn lemma_text_on(m: MarkedV, s: StreamV, w: Seq<char>, th: Seq<char>, u: Seq<char>)
    requires
        left(m, s, w, th, u),
    ensures
        ({
            let (t, e) = after_step(s);
            &&& left(m, t, w + said(e), th, u)
            &&& t.thinking_buffer.len() == 0
            &&& w + said(e) == kept(m) + trimmed_start(u)
            &&& t.strip_text_after_thinking_boundary <==> trimmed_start(u).len() == 0
            &&& thought(e) == Seq::<char>::empty()
        }),
{
    lemma_after_step(s);
    let text = buffered_text(s);
    let s0 = StreamV {
        thinking_buffer: Seq::empty(),
        strip_text_after_thinking_boundary: s.strip_text_after_thinking_boundary && text.len() == 0,
        ..s
    };
    assert(in_order(s0));
    lemma_text_is_said(s0, text);
    lemma_text_thinks_nothing(s0, text);
    let (t, e) = after_step(s);
    assert(said(e) =~= text);
    assert(w + said(e) =~= kept(m) + trimmed_start(u));
    assert(w + said(e) + Seq::empty() =~= w + said(e));
    if trimmed_start(u).len() == 0 {
        assert(w + said(e) =~= kept(m));
    }
    assert(trimmed_start(Seq::<char>::empty()) =~= Seq::empty());
    assert(trimmed_start(u).len() == 0 ==> trimmed_start(u) =~= Seq::empty());
}

/// Behind thinking, with nothing held back.
spec fn settled(m: MarkedV, s: StreamV, w: Seq<char>, th: Seq<char>, u: Seq<char>) -> bool {
    &&& left(m, s, w, th, u)
    &&& s.thinking_buffer.len() == 0
    &&& w == kept(m) + trimmed_start(u)
    &&& s.strip_text_after_thinking_boundary <==> trimmed_start(u).len() == 0
}

/// Where a stream is that has been given the first `p` characters of the answer, and has said `w`
/// and thought `th`.
spec fn at(m: MarkedV, s: StreamV, w: Seq<char>, th: Seq<char>, p: int) -> bool {
    let q = p - m.before.len() - 10;
    if q < 0 {
        looking(m, s, w, p) && th.len() == 0
    } else if q < m.thinking.len() + 11 {
        entered(m, s, w, th, q) && (s.strip_thinking_leading_newline ==> q == 0)
    } else {
        m.rest is Some && settled(m, s, w, th, m.rest->0.take(q - m.thinking.len() - 11)) && q
            <= inner(m).len()
    }
}

/// A stream wherever it is.
proof fn lemma_at_is_sound(m: MarkedV, s: StreamV, w: Seq<char>, th: Seq<char>, p: int)
    requires
        at(m, s, w, th, p),
    ensures
        sound(s, w),
{
}

/// What a stream makes of a piece, once it is inside thinking.
spec fn on_from_inside(s: StreamV) -> Step {
    let (s2, e2) = inside_step(s);
    if s2.in_thinking_block {
        (s2, e2)
    } else {
        let (s3, e3) = after_step(s2);
        (s3, e2 + e3)
    }
}

proof fn lemma_on_from_inside(m: MarkedV, s: StreamV, w: Seq<char>, th: Seq<char>, q: int)
    requires
        marks_thinking(m),
        entered(m, s, w, th, q),
    ensures
        ({
            let (t, e) = on_from_inside(s);
            at(m, t, w + said(e), th + thought(e), q + m.before.len() + 10)
        }),
{
    lemma_tags();
    let (s2, e2) = inside_step(s);
    if q < m.thinking.len() + 11 {
        lemma_thinking_on(m, s, w, th, q);
        assert(w + said(e2) =~= w);
    } else {
        lemma_thinking_over(m, s, w, th, q);
        let u = m.rest->0.take(q - m.thinking.len() - 11);
        lemma_text_on(m, s2, w, th + thought(e2), u);
        let e3 = after_step(s2).1;
        lemma_said_concat(e2, e3);
        lemma_thought_concat(e2, e3);
        assert(w + said(e2 + e3) =~= w + said(e3));
        assert(th + thought(e2 + e3) =~= th + thought(e2));
    }
}

/// How a piece is taken in, by where the stream is.
proof fn lemma_content_step_is(s: StreamV, content: Seq<char>)
    ensures
        ({
            let s0 = StreamV { thinking_buffer: s.thinking_buffer + content, ..s };
            let r = content_step(s, content);
            if s.in_thinking_block {
                r == on_from_inside(s0)
            } else if s.thinking_extracted {
                r == after_step(s0)
            } else if search_step(s0).0.in_thinking_block {
                r == (
                    on_from_inside(search_step(s0).0).0,
                    search_step(s0).1 + on_from_inside(search_step(s0).0).1,
                )
            } else {
                r == search_step(s0)
            }
        }),
{
    let s0 = StreamV { thinking_buffer: s.thinking_buffer + content, ..s };
    let none = Seq::<SseEventV>::empty();
    if s.in_thinking_block {
        let (s2, e2) = inside_step(s0);
        assert(none + e2 =~= e2);
    } else if s.thinking_extracted {
        let e3 = after_step(s0).1;
        assert(none + none + e3 =~= e3);
    } else {
        let (s1, e1) = search_step(s0);
        let (s2, e2) = inside_step(s1);
        let e3 = after_step(s2).1;
        assert(e1 + e2 + e3 =~= e1 + (e2 + e3));
    }
}

/// One more piece of the answer, while the opening tag is not whole.
proof fn lemma_piece_looking(m: MarkedV, s: StreamV, w: Seq<char>, p: int, to: int)
    requires
        marks_thinking(m),
        looking(m, s, w, p),
        p < to <= marked(m).len(),
    ensures
        ({
            let (t, e) = content_step(s, marked(m).subrange(p, to));
            at(m, t, w + said(e), thought(e), to)
        }),
{
    let whole = marked(m);
    let content = whole.subrange(p, to);
    let s0 = StreamV { thinking_buffer: s.thinking_buffer + content, ..s };
    lemma_content_step_is(s, content);
    assert(w + (s.thinking_buffer + content) =~= w + s.thinking_buffer + content);
    assert(whole.take(p) + content =~= whole.take(to));
    assert(looking(m, s0, w, to));
    let (s1, e1) = search_step(s0);
    let q = to - m.before.len() - 10;
    if q < 0 {
        lemma_not_yet(m, s0, w, to);
    } else {
        lemma_found(m, s0, w, to);
        lemma_on_from_inside(m, s1, w + said(e1), Seq::empty(), q);
        let e2 = on_from_inside(s1).1;
        lemma_said_concat(e1, e2);
        lemma_thought_concat(e1, e2);
        assert(w + said(e1 + e2) =~= w + said(e1) + said(e2));
        assert(thought(e1 + e2) =~= Seq::empty() + thought(e2));
    }
}

/// One more piece of the answer, inside thinking.
proof fn lemma_piece_inside(
    m: MarkedV,
    s: StreamV,
    w: Seq<char>,
    th: Seq<char>,
    q: int,
    to: int,
)
    requires
        marks_thinking(m),
        entered(m, s, w, th, q),
        q < to <= inner(m).len(),
    ensures
        ({
            let (t, e) = content_step(s, inner(m).subrange(q, to));
            at(m, t, w + said(e), th + thought(e), to + m.before.len() + 10)
        }),
{
    let content = inner(m).subrange(q, to);
    let s0 = StreamV { thinking_buffer: s.thinking_buffer + content, ..s };
    lemma_content_step_is(s, content);
    assert(inner(m).take(q) + content =~= inner(m).take(to));
    if !s.strip_thinking_leading_newline {
        assert(inner(m).take(q)[0] == inner(m).take(to)[0]);
        assert(without_first_newline(inner(m).take(to)) =~= without_first_newline(
            inner(m).take(q),
        ) + content);
        assert(th + (s.thinking_buffer + content) =~= th + s.thinking_buffer + content);
    }
    assert(entered(m, s0, w, th, to));
    lemma_on_from_inside(m, s0, w, th, to);
}

/// One more piece of the answer, behind thinking.
proof fn lemma_piece_behind(
    m: MarkedV,
    s: StreamV,
    w: Seq<char>,
    th: Seq<char>,
    u: Seq<char>,
    content: Seq<char>,
)
    requires
        settled(m, s, w, th, u),
    ensures
        ({
            let (t, e) = content_step(s, content);
            settled(m, t, w + said(e), th + thought(e), u + content)
        }),
{
    let s0 = StreamV { thinking_buffer: s.thinking_buffer + content, ..s };
    lemma_content_step_is(s, content);
    lemma_trim_concat(u, content);
    assert(s0.thinking_buffer =~= content);
    assert(w + content =~= kept(m) + (trimmed_start(u) + content));
    assert(trimmed_start(u).len() == 0 ==> w =~= kept(m));
    assert(left(m, s0, w, th, u + content));
    lemma_text_on(m, s0, w, th, u + content);
    assert(th + thought(after_step(s0).1) =~= th);
}

/// One more piece of the answer.
proof fn lemma_piece(m: MarkedV, s: StreamV, w: Seq<char>, th: Seq<char>, p: int, to: int)
    requires
        marks_thinking(m),
        at(m, s, w, th, p),
        0 <= p < to <= marked(m).len(),
    ensures
        ({
            let (t, e) = content_step(s, marked(m).subrange(p, to));
            at(m, t, w + said(e), th + thought(e), to)
        }),
{
    lemma_tags();
    let content = marked(m).subrange(p, to);
    let nb = m.before.len() as int;
    let q = p - nb - 10;
    let q2 = to - nb - 10;
    if q < 0 {
        lemma_piece_looking(m, s, w, p, to);
        assert(th + thought(content_step(s, content).1) =~= thought(content_step(s, content).1));
    } else {
        assert(content =~= inner(m).subrange(q, q2));
        if q < m.thinking.len() + 11 {
            lemma_piece_inside(m, s, w, th, q, q2);
        } else {
            let d = m.thinking.len() as int + 11;
            assert(m.rest->0.take(q - d) + content =~= m.rest->0.take(q2 - d));
            lemma_piece_behind(m, s, w, th, m.rest->0.take(q - d), content);
        }
    }
}

/// Where a stream is that has been given the first `c` characters of the answer, of which the
/// filter may hold some back.
spec fn given(m: MarkedV, s: StreamV, w: Seq<char>, th: Seq<char>, c: int) -> bool {
    let p = c - s.filter.buffer.len();
    &&& 0 <= p <= c <= marked(m).len()
    &&& at(m, s, w, th, p)
    &&& s.filter.buffer == marked(m).subrange(p, c)
    &&& filter_ok(s.filter)
    &&& !s.filter.stripping
}

/// No tool call has come.
spec fn still(s: StreamV) -> bool {
    s.pending.len() == 0 && no_call_sent(s)
}

/// Text is taken in without a look at the filter or the calls.
proof fn lemma_filtered_keeps(s: StreamV, text: Seq<char>)
    ensures
        ({
            let t = filtered_step(s, text).0;
            &&& t.filter == s.filter
            &&& t.pending == s.pending
            &&& t.tool_json_error == s.tool_json_error
            &&& t.tool_block_indices == s.tool_block_indices
        }),
{
}

/// A stream that has changed in other respects is where it was.
proof fn lemma_same_place(
    m: MarkedV,
    s: StreamV,
    t: StreamV,
    w: Seq<char>,
    th: Seq<char>,
    p: int,
)
    requires
        at(m, s, w, th, p),
        in_order(t),
        t == (StreamV {
            state: t.state,
            tool_block_indices: t.tool_block_indices,
            output_tokens: t.output_tokens,
            context_input_tokens: t.context_input_tokens,
            pending: t.pending,
            tool_json_error: t.tool_json_error,
            filter: t.filter,
            ..s
        }),
        no_call_sent(t) ==> no_call_sent(s) && t.state.blocks == s.state.blocks,
    ensures
        at(m, t, w, th, p),
{
    if no_call_sent(t) {
        assert(has_other_than_thinking(t.state) == has_other_than_thinking(s.state));
    }
}

/// A call that is sent says and thinks nothing, and leaves the stream where it is.
proof fn lemma_call_keeps(
    m: MarkedV,
    s: StreamV,
    w: Seq<char>,
    th: Seq<char>,
    p: int,
    call: CompletedV,
)
    requires
        at(m, s, w, th, p),
    ensures
        ({
            let (t, e) = call_step(s, call);
            &&& at(m, t, w, th, p)
            &&& t.filter == s.filter
            &&& said(e) == Seq::<char>::empty()
            &&& thought(e) == Seq::<char>::empty()
        }),
{
    lemma_at_is_sound(m, s, w, th, p);
    lemma_call_step(s, call);
    lemma_call_says_nothing(s, call);
    lemma_call_thinks_nothing(s, call);
    let t = call_step(s, call).0;
    assert(t.tool_block_indices.contains_key(call.id));
    assert(!no_call_sent(t));
    lemma_same_place(m, s, t, w, th, p);
}

/// Calls that are sent one after the other.
proof fn lemma_calls_keep(
    m: MarkedV,
    s: StreamV,
    w: Seq<char>,
    th: Seq<char>,
    p: int,
    calls: Seq<CompletedV>,
)
    requires
        at(m, s, w, th, p),
    ensures
        ({
            let (t, e) = calls_step(s, calls);
            &&& at(m, t, w, th, p)
            &&& t.filter == s.filter
            &&& said(e) == Seq::<char>::empty()
            &&& thought(e) == Seq::<char>::empty()
        }),
    decreases calls.len(),
{
    if calls.len() > 0 {
        lemma_calls_keep(m, s, w, th, p, calls.drop_last());
        let (s1, e1) = calls_step(s, calls.drop_last());
        lemma_call_keeps(m, s1, w, th, p, calls.last());
        let e2 = call_step(s1, calls.last()).1;
        lemma_said_concat(e1, e2);
        lemma_thought_concat(e1, e2);
        assert(said(e1 + e2) =~= Seq::empty());
        assert(thought(e1 + e2) =~= Seq::empty());
    }
}

/// While the closing tag is not whole it is not found in the buffer.
proof fn lemma_buffer_is_open(m: MarkedV, s: StreamV, w: Seq<char>, th: Seq<char>, q: int)
    requires
        marks_thinking(m),
        entered(m, s, w, th, q),
        s.strip_thinking_leading_newline ==> q == 0,
        q < m.thinking.len() + 11,
    ensures
        first_last_close(s.thinking_buffer, 0) is None,
{
    lemma_tags();
    let buffer = s.thinking_buffer;
    if q == 0 {
        assert(inner(m).take(0) =~= Seq::empty());
        lemma_first_real(buffer, close_tag(), 0);
    } else {
        let t = without_first_newline(m.thinking);
        let z = q - (m.thinking.len() - t.len());
        lemma_shown(m, q);
        lemma_parts(th, buffer, shown(m), z);
        lemma_no_close(m, th.len() as int, z);
    }
    law_no_close_means_no_last_close(buffer);
}

/// A piece of a tool call, behind the opening tag.
proof fn lemma_tool_event(
    m: MarkedV,
    s: StreamV,
    w: Seq<char>,
    th: Seq<char>,
    c: int,
    t: ToolUseV,
)
    requires
        marks_thinking(m),
        given(m, s, w, th, c),
        c >= m.before.len() + 10,
    ensures
        ({
            let (r, sent) = event_step(s, EventV::ToolUse(t));
            &&& given(m, r, w, th, c)
            &&& said(sent) == Seq::<char>::empty()
            &&& thought(sent) == Seq::<char>::empty()
        }),
{
    reveal(event_step);
    lemma_tags();
    let e = EventV::ToolUse(t);
    let nb = m.before.len() as int;
    let p = c - s.filter.buffer.len();
    lemma_at_is_sound(m, s, w, th, p);
    lemma_event_step(s, e);
    assert(p >= nb + 10) by {
        if p < nb + 10 {
            assert(s.filter.buffer[nb + 9 - p] == marked(m)[nb + 9]);
            assert(marked(m)[nb + 9] == open_tag()[9]);
            assert(s.filter.buffer[nb + 9 - p] == tag_prefix()[nb + 9 - p]);
        }
    }
    if s.in_thinking_block {
        lemma_buffer_is_open(m, s, w, th, p - nb - 10);
    }
    let none = Seq::<SseEventV>::empty();
    let s0 = StreamV { state: StateV { has_tool_use: true, ..s.state }, ..s };
    assert(before_call(s0) == (s0, none));
    let (pending, outcome) = push_step(s0.pending, t, s0.tool_name_map);
    let s2 = StreamV { pending, ..s0 };
    assert(in_order(s2));
    lemma_same_place(m, s, s2, w, th, p);
    let (r, sent) = event_step(s, e);
    match outcome {
        PushV::Done(call) => {
            lemma_call_keeps(m, s2, w, th, p, call);
            let e4 = call_step(s2, call).1;
            assert(none + (none + e4) =~= e4);
        },
        _ => {
            assert(none + none =~= none);
            lemma_same_place(m, s, r, w, th, p);
        },
    }
}

/// Text that has passed the filter.
proof fn lemma_filtered_piece(m: MarkedV, s: StreamV, w: Seq<char>, th: Seq<char>, p: int, to: int)
    requires
        marks_thinking(m),
        at(m, s, w, th, p),
        0 <= p <= to <= marked(m).len(),
    ensures
        ({
            let (t, e) = filtered_step(s, marked(m).subrange(p, to));
            at(m, t, w + said(e), th + thought(e), to)
        }),
{
    let text = marked(m).subrange(p, to);
    if p == to {
        assert(w + said(Seq::empty()) =~= w);
        assert(th + thought(Seq::empty()) =~= th);
    } else {
        let s0 = StreamV {
            output_tokens: capped(s.output_tokens + capped(estimate(text))),
            ..s
        };
        assert(at(m, s0, w, th, p));
        assert(s0.thinking_enabled);
        lemma_piece(m, s0, w, th, p, to);
    }
}

/// One more upstream event.
proof fn lemma_next_event(
    m: MarkedV,
    s: StreamV,
    w: Seq<char>,
    th: Seq<char>,
    c: int,
    e: EventV,
    to: int,
)
    requires
        marks_thinking(m),
        given(m, s, w, th, c),
        !(e is Reasoning),
        e is ToolUse ==> c >= m.before.len() + 10,
        c <= to <= marked(m).len(),
        marked(m).subrange(c, to) == (match e {
            EventV::Content(content) => content,
            _ => Seq::empty(),
        }),
        only_mentions(marked(m).take(to)),
    ensures
        ({
            let (t, sent) = event_step(s, e);
            &&& given(m, t, w + said(sent), th + thought(sent), to)
            &&& still(s) && !(e is ToolUse) ==> still(t)
        }),
{
    reveal(event_step);
    let whole = marked(m);
    let p = c - s.filter.buffer.len();
    lemma_at_is_sound(m, s, w, th, p);
    lemma_event_step(s, e);
    match e {
        EventV::Content(content) => {
            let text = s.filter.buffer + content;
            assert(text =~= whole.take(to).skip(p));
            lemma_only_mentions_skip(whole.take(to), p);
            law_clean_text_is_kept(text);
            lemma_scan_ok(text, false);
            let (out, filter) = scan(text, false);
            let p2 = to - filter.buffer.len();
            assert(text =~= whole.subrange(p, to));
            assert(out =~= text.take(out.len() as int));
            assert(out =~= whole.subrange(p, p2));
            assert(filter.buffer =~= text.skip(out.len() as int));
            assert(filter.buffer =~= whole.subrange(p2, to));
            let s1 = StreamV { filter, ..s };
            assert(at(m, s1, w, th, p));
            lemma_filtered_piece(m, s1, w, th, p, p2);
            lemma_filtered_keeps(s1, out);
            let (t, sent) = filtered_step(s1, out);
            assert(Seq::<SseEventV>::empty() + sent =~= sent);
        },
        EventV::ToolUse(tool) => {
            assert(whole.subrange(c, to).len() == 0);
            lemma_tool_event(m, s, w, th, c, tool);
            let sent = event_step(s, e).1;
            assert(w + said(sent) =~= w);
            assert(th + thought(sent) =~= th);
        },
        _ => {
            assert(whole.subrange(c, to).len() == 0);
            let (t, sent) = event_step(s, e);
            assert(sent =~= Seq::empty());
            assert(w + said(sent) =~= w);
            assert(th + thought(sent) =~= th);
            lemma_same_place(m, s, t, w, th, p);
        },
    }
}

/// No disclosed reasoning comes, and tool calls only behind the first `n` characters of the
/// answer.
pub open spec fn calls_come_later(events: Seq<EventV>, n: int) -> bool {
    forall|i: int|
        0 <= i < events.len() ==> !((#[trigger] events[i]) is Reasoning) && (
        events[i] is ToolUse ==> content_of(events.take(i)).len() >= n)
}

/// All upstream events.
proof fn lemma_all_events(m: MarkedV, s: StreamV, events: Seq<EventV>)
    requires
        marks_thinking(m),
        given(m, s, Seq::empty(), Seq::empty(), 0),
        calls_come_later(events, m.before.len() as int + 10),
        content_of(events).len() <= marked(m).len(),
        content_of(events) == marked(m).take(content_of(events).len() as int),
        kept_by_filter(events),
    ensures
        ({
            let (t, sent) = events_step(s, events);
            &&& given(m, t, said(sent), thought(sent), content_of(events).len() as int)
            &&& still(s) && no_calls(events) ==> still(t)
        }),
    decreases events.len(),
{
    if events.len() > 0 {
        let front = events.drop_last();
        let e = events.last();
        let c = content_of(front).len() as int;
        let to = content_of(events).len() as int;
        assert(front =~= events.take(events.len() - 1));
        assert forall|n: int| 0 <= n <= front.len() implies only_mentions(
            #[trigger] content_of(front.take(n)),
        ) by {
            assert(front.take(n) =~= events.take(n));
        }
        assert forall|i: int| 0 <= i < front.len() implies !((#[trigger] front[i]) is Reasoning)
            && (front[i] is ToolUse ==> content_of(front.take(i)).len() >= m.before.len() + 10) by {
            assert(front[i] == events[i]);
            assert(front.take(i) =~= events.take(i));
        }
        if no_calls(events) {
            assert forall|i: int| 0 <= i < front.len() implies !((#[trigger] front[i]) is ToolUse)
                by {
                assert(front[i] == events[i]);
            }
        }
        assert(content_of(front) =~= content_of(events).take(c));
        assert(content_of(front) =~= marked(m).take(c));
        lemma_all_events(m, s, front);
        let (s1, e1) = events_step(s, front);
        assert(e == events[events.len() - 1]);
        assert(events.take(events.len() as int) =~= events);
        assert(only_mentions(content_of(events)));
        let content = match e {
            EventV::Content(content) => content,
            _ => Seq::empty(),
        };
        assert(content =~= content_of(events).skip(c));
        assert(marked(m).subrange(c, to) =~= content);
        lemma_next_event(m, s1, said(e1), thought(e1), c, e, to);
        let e2 = event_step(s1, e).1;
        lemma_said_concat(e1, e2);
        lemma_thought_concat(e1, e2);
    }
}

/// The text of the answer, without its thinking.
pub open spec fn answer_text(m: MarkedV) -> Seq<char> {
    match m.rest {
        Some(rest) => kept(m) + trimmed_start(rest),
        None => kept(m),
    }
}

/// The end of the buffer, once the whole answer has come: all of the thinking has been sent.
proof fn lemma_last_thinking(m: MarkedV, s: StreamV, w: Seq<char>, th: Seq<char>)
    requires
        marks_thinking(m),
        at(m, s, w, th, marked(m).len() as int),
    ensures
        ({
            let (t, e) = flush_buffer(s);
            &&& w == answer_text(m)
            &&& said(e) == Seq::<char>::empty()
            &&& th + thought(e) == without_first_newline(m.thinking)
            &&& t.thinking_enabled
            &&& t.thinking_block_index is Some
            &&& t.text_block_index == s.text_block_index
            &&& t.tool_block_indices == s.tool_block_indices
            &&& w.len() == 0 && no_call_sent(s) ==> !has_other_than_thinking(t.state)
            &&& in_order((StreamV { in_thinking_block: false, ..t }))
        }),
{
    lemma_tags();
    lemma_flush_buffer(s);
    let q = inner(m).len() as int;
    match m.rest {
        Some(rest) => {
            let u = rest.take(q - m.thinking.len() - 11);
            assert(u =~= rest);
            assert(th + thought(Seq::empty()) =~= th);
            assert(in_order((StreamV { in_thinking_block: false, ..s })));
        },
        None => {
            let buffer = s.thinking_buffer;
            let t = without_first_newline(m.thinking);
            assert(inner(m).take(q) =~= m.thinking);
            lemma_buffer_is_open(m, s, w, th, q);
            let thinking = thinking_events(s, buffer);
            lemma_thinking_says_nothing(s, buffer);
            lemma_thought_of();
            lemma_thought_one(thinking_delta_event(s.thinking_block_index->0, buffer));
            assert(thought(thinking) =~= buffer);
            lemma_close_is_silent(s);
            let closing = close_unfinished(s).1;
            lemma_said_concat(thinking, closing);
            lemma_thought_concat(thinking, closing);
            assert(said(thinking + closing) =~= Seq::empty());
            assert(thought(thinking + closing) =~= buffer);
            assert(th + buffer =~= t);
        },
    }
}

/// The calls at the end leave the stream where it is.
proof fn lemma_last_calls(m: MarkedV, s: StreamV, w: Seq<char>, th: Seq<char>, p: int)
    requires
        at(m, s, w, th, p),
    ensures
        ({
            let (t, e) = flush_calls(s);
            &&& at(m, t, w, th, p)
            &&& t.filter == s.filter
            &&& said(e) == Seq::<char>::empty()
            &&& thought(e) == Seq::<char>::empty()
            &&& still(s) ==> no_call_sent(t)
        }),
{
    lemma_at_is_sound(m, s, w, th, p);
    lemma_flush_calls(s);
    let (pending, outcome) = finish_step(s.pending, s.tool_name_map);
    let s1 = StreamV { pending, ..s };
    assert(in_order(s1));
    lemma_same_place(m, s, s1, w, th, p);
    if still(s) {
        let none = Seq::<PendingV>::empty();
        assert(s.pending =~= none);
        assert(with_blank(none, false) =~= none);
        assert(with_blank(none, true) =~= none);
        assert(without_arguments(none, s.tool_name_map) =~= Seq::empty());
    }
    match outcome {
        FinishV::Done(calls) => {
            lemma_calls_keep(m, s1, w, th, p, calls);
        },
        FinishV::Failed(_) => {
            lemma_same_place(m, s, flush_calls(s).0, w, th, p);
        },
    }
}

/// The text that a message of thinking alone gets.
proof fn lemma_filled(s: StreamV)
    requires
        s.thinking_enabled,
        s.thinking_block_index is Some,
        in_order((StreamV { in_thinking_block: false, ..s })),
    ensures
        said(fill_text(s).1) == (if has_other_than_thinking(s.state) {
            Seq::empty()
        } else {
            " "@
        }),
        s.text_block_index is Some ==> has_other_than_thinking(s.state),
        thought(fill_text(s).1) == Seq::<char>::empty(),
{
    let idle = StreamV { in_thinking_block: false, ..s };
    let filled = with_stop_reason(idle, "max_tokens"@);
    lemma_with_stop_reason(idle, "max_tokens"@);
    if s.text_block_index is Some {
        lemma_fill(idle);
    }
    if !has_other_than_thinking(s.state) {
        lemma_text_is_said(filled, " "@);
        lemma_text_thinks_nothing(filled, " "@);
        lemma_same_text(with_stop_reason(s, "max_tokens"@), " "@);
        assert(filled == (StreamV {
            in_thinking_block: false,
            ..with_stop_reason(s, "max_tokens"@)
        }));
    }
}

/// What is said in all: the text, or a blank where there is none. The blank is owed where nothing
/// but thinking was sent.
pub open spec fn comes_to(words: Seq<char>, text: Seq<char>, alone: bool) -> bool {
    ||| words == text && !(text.len() == 0 && alone)
    ||| text.len() == 0 && words == " "@
}

/// The end of the message, once the whole answer has come.
proof fn lemma_end(m: MarkedV, s: StreamV, w: Seq<char>, th: Seq<char>)
    requires
        marks_thinking(m),
        at(m, s, w, th, marked(m).len() as int),
    ensures
        ({
            let e = end_well(s).1;
            &&& comes_to(w + said(e), answer_text(m), no_call_sent(s))
            &&& th + thought(e) == without_first_newline(m.thinking)
        }),
{
    lemma_at_is_sound(m, s, w, th, marked(m).len() as int);
    lemma_last_thinking(m, s, w, th);
    let (s3, e3) = flush_buffer(s);
    let (s4, e4) = fill_text(s3);
    lemma_filled(s3);
    lemma_end_says_nothing(s4);
    lemma_end_thinks_nothing(s4);
    let e5 = end_message(s4).1;
    let none = Seq::<SseEventV>::empty();
    lemma_said_concat(none, e3);
    lemma_said_concat(none + e3, e4);
    lemma_said_concat(none + e3 + e4, e5);
    lemma_thought_concat(none, e3);
    lemma_thought_concat(none + e3, e4);
    lemma_thought_concat(none + e3 + e4, e5);
    assert(end_well(s).1 == none + e3 + e4 + e5);
    assert(said(end_well(s).1) =~= said(e4));
    assert(thought(end_well(s).1) =~= thought(e3));
    assert(w + Seq::empty() =~= w);
    assert(w.len() == 0 ==> w + " "@ =~= " "@);
}

/// The end of the stream, once the whole answer has come.
proof fn lemma_finish(m: MarkedV, s: StreamV, w: Seq<char>, th: Seq<char>)
    requires
        marks_thinking(m),
        given(m, s, w, th, marked(m).len() as int),
        finish_stream(s).0.tool_json_error is None,
    ensures
        ({
            let e = finish_stream(s).1;
            &&& comes_to(w + said(e), answer_text(m), still(s))
            &&& th + thought(e) == without_first_newline(m.thinking)
        }),
{
    let end = marked(m).len() as int;
    let p = end - s.filter.buffer.len();
    lemma_last_calls(m, s, w, th, p);
    let (s1, e1) = flush_calls(s);
    law_held_tail_is_text(s.filter);
    let quiet = StreamV { filter: FilterV { buffer: Seq::empty(), stripping: false }, ..s1 };
    lemma_at_is_sound(m, s1, w, th, p);
    assert(in_order(quiet));
    lemma_same_place(m, s1, quiet, w, th, p);
    lemma_filtered_piece(m, quiet, w, th, p, end);
    lemma_filtered_keeps(quiet, s.filter.buffer);
    let (s2, e2) = flush_filter(s1);
    assert(s2.tool_json_error is None);
    lemma_end(m, s2, w + said(e2), th + thought(e2));
    let e3 = end_well(s2).1;
    lemma_said_concat(e1, e2);
    lemma_said_concat(e1 + e2, e3);
    lemma_thought_concat(e1, e2);
    lemma_thought_concat(e1 + e2, e3);
    assert(finish_stream(s).1 == e1 + e2 + e3);
    assert(w + said(finish_stream(s).1) =~= w + said(e2) + said(e3));
    assert(th + thought(finish_stream(s).1) =~= th + thought(e2) + thought(e3));
}

/// A stream that has sent nothing and holds nothing.
pub open spec fn untouched(s: StreamV) -> bool {
    &&& unsent(s)
    &&& s.thinking_enabled
    &&& !s.thinking_extracted
    &&& s.thinking_buffer.len() == 0
    &&& s.pending.len() == 0
    &&& s.filter == (FilterV { buffer: Seq::empty(), stripping: false })
}

/// The start of the stream.
proof fn lemma_start(m: MarkedV, s: StreamV)
    requires
        untouched(s),
    ensures
        given(m, initial_step(s).0, Seq::empty(), Seq::empty(), 0),
        still(initial_step(s).0),
        said(initial_step(s).1) == Seq::<char>::empty(),
        thought(initial_step(s).1) == Seq::<char>::empty(),
{
    lemma_tags();
    lemma_initial_step(s);
    lemma_text_of();
    lemma_thought_of();
    let start = crate::state::message_start_step(s.state, crate::stream_model::start_payload(s)).1;
    lemma_said_one(start->0);
    lemma_thought_one(start->0);
    let t = initial_step(s).0;
    assert(t.thinking_buffer =~= Seq::empty());
    assert(Seq::<char>::empty() + t.thinking_buffer =~= marked(m).take(0));
    assert(marked(m).subrange(0, 0) =~= Seq::empty());
    assert(tag_prefix().take(0) =~= Seq::empty());
    assert(t.state.blocks =~= Seq::empty());
    assert(looking(m, t, Seq::empty(), 0));
}

/// An answer in which the model marks thinking, cut into pieces anywhere.
proof fn lemma_marked_answer(m: MarkedV, s: StreamV, events: Seq<EventV>)
    requires
        untouched(s),
        marks_thinking(m),
        content_of(events) == marked(m),
        kept_by_filter(events),
        calls_come_later(events, m.before.len() as int + 10),
        last_state(s, events).tool_json_error is None,
    ensures
        thought(transcript(s, events)) == without_first_newline(m.thinking),
        comes_to(said(transcript(s, events)), answer_text(m), no_calls(events)),
{
    lemma_start(m, s);
    let (s1, e1) = initial_step(s);
    let end = marked(m).len() as int;
    assert(marked(m).take(end) =~= marked(m));
    lemma_all_events(m, s1, events);
    let (s2, e2) = events_step(s1, events);
    lemma_finish(m, s2, said(e2), thought(e2));
    let e3 = finish_stream(s2).1;
    lemma_said_concat(e1, e2);
    lemma_said_concat(e1 + e2, e3);
    lemma_thought_concat(e1, e2);
    lemma_thought_concat(e1 + e2, e3);
    assert(transcript(s, events) == e1 + e2 + e3);
    assert(said(transcript(s, events)) =~= said(e2) + said(e3));
    assert(thought(transcript(s, events)) =~= thought(e2) + thought(e3));
}

/// Thinking that the model marks by tags arrives as thinking, in full and without the line break
/// behind the opening tag; the text before and behind it arrives as text, without the white space
/// that parts it from thinking; and nothing of the tags arrives. So it is however the answer is
/// cut into pieces, in the middle of a tag as well. Where there is no text, a blank stands in for
/// it.
///
/// Left out are answers in which it depends on the cut whether a tag counts as quoted, those with
/// disclosed reasoning between the pieces or with tool calls before the opening tag is there, and
/// streams that end because a tool call could not be used, whose last characters are dropped.
pub proof fn law_marked_thinking_is_delivered(
    s: StreamV,
    events: Seq<EventV>,
    before: Seq<char>,
    thinking: Seq<char>,
    rest: Seq<char>,
)
    requires
        untouched(s),
        content_of(events) == before + open_tag() + thinking + close_tag() + rest,
        marks_thinking((MarkedV { before, thinking, rest: Some(rest) })),
        kept_by_filter(events),
        calls_come_later(events, before.len() as int + 10),
        last_state(s, events).tool_json_error is None,
    ensures
        thought(transcript(s, events)) == without_first_newline(thinking),
        comes_to(
            said(transcript(s, events)),
            (if blank(before) {
                Seq::empty()
            } else {
                before
            }) + trimmed_start(rest),
            no_calls(events),
        ),
{
    let m = MarkedV { before, thinking, rest: Some(rest) };
    assert(content_of(events) =~= marked(m));
    lemma_marked_answer(m, s, events);
}

/// Thinking whose closing tag never comes arrives as thinking all the same, in full: also the
/// last characters, which were held back because a closing tag might have begun with them.
pub proof fn law_unclosed_thinking_is_delivered(
    s: StreamV,
    events: Seq<EventV>,
    before: Seq<char>,
    thinking: Seq<char>,
)
    requires
        untouched(s),
        content_of(events) == before + open_tag() + thinking,
        marks_thinking((MarkedV { before, thinking, rest: None })),
        kept_by_filter(events),
        calls_come_later(events, before.len() as int + 10),
        last_state(s, events).tool_json_error is None,
    ensures
        thought(transcript(s, events)) == without_first_newline(thinking),
        comes_to(
            said(transcript(s, events)),
            (if blank(before) {
                Seq::empty()
            } else {
                before
            }),
            no_calls(events),
        ),
{
    let m = MarkedV { before, thinking, rest: None };
    assert(content_of(events) =~= marked(m));
    lemma_marked_answer(m, s, events);
}

/// A whole text is parted as a stream is: into the same thinking, and a text that differs at most
/// by the white space that parts it from thinking.
pub proof fn law_whole_text_is_parted_alike(
    before: Seq<char>,
    thinking: Seq<char>,
    rest: Seq<char>,
)
    requires
        marks_thinking((MarkedV { before, thinking, rest: Some(rest) })),
    ensures
        ({
            let kept_before: Seq<char> = if blank(before) {
                Seq::empty()
            } else {
                before
            };
            let shown_thinking = without_first_newline(thinking);
            let (thought, text) = extracted(before + open_tag() + thinking + close_tag() + rest);
            &&& thought == (if shown_thinking.len() == 0 {
                None
            } else {
                Some(shown_thinking)
            })
            &&& exists|tail: Seq<char>| #[trigger]
                trimmed_start(tail) == trimmed_start(rest) && text == kept_before + tail
        }),
{
    lemma_tags();
    let m = MarkedV { before, thinking, rest: Some(rest) };
    let whole = before + open_tag() + thinking + close_tag() + rest;
    let n = inner(m).len() as int;
    assert(whole =~= marked(m));
    assert(whole.subrange(0, whole.len() as int) =~= whole);
    lemma_open_is_real(m);
    lemma_first_real_behind(before, open_tag(), inner(m), 0, whole.len() as int);
    assert(whole.take(before.len() as int) =~= before);
    assert(whole.skip(before.len() as int + 10) =~= inner(m));
    assert(inner(m).subrange(0, n) =~= inner(m));
    lemma_first_real_behind(thinking, close_tag(), rest, 0, n);
    let after = thinking.len() as int + 11;
    lemma_resumes(inner(m), after);
    assert(inner(m).take(thinking.len() as int) =~= thinking);
    assert(inner(m).skip(after) =~= rest);
    let tail = inner(m).skip(text_resumes(inner(m), after));
    assert(trimmed_start(tail) == trimmed_start(rest));
}

} // verus!
