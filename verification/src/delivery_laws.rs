//! The client reads the whole answer, whatever comes between.

use crate::events::{EventV, ReasoningV};
use crate::json::{empty_object, field, printed, string_field, JsonV};
use crate::protocol::live;
use crate::sse::{block_delta_json, block_start_json, opt_events, part_json, stop_event};
use crate::sse::{signature_delta_event, text_delta_event, thinking_delta_event, tool_use_json};
use crate::sse::SseEventV;
use crate::state::{block_delta_step, block_start_step, block_stop_step, closing_events};
use crate::state::{has_other_than_thinking, open_of_kind, BlockV, StateV};
use crate::stream_laws::{in_order, lemma_before_call, lemma_close_reasoning, lemma_event_step};
use crate::stream_laws::{lemma_filtered_step, lemma_flush_buffer, lemma_flush_calls};
use crate::stream_laws::{lemma_initial_step, lemma_kinds, lemma_open_block, text_is_text, unsent};
use crate::stream_model::{after_step, before_call, call_step, calls_step, close_reasoning};
use crate::stream_model::{close_text, content_step, disclosed_step, end_message, end_well};
use crate::stream_model::{end_with_error, event_step, events_step, fill_text, filtered_step};
use crate::stream_model::{finish_stream, flush_buffer, flush_calls, flush_filter, initial_step};
use crate::stream_model::{last_state, new_text_block, open_block, reasoning_block_step};
use crate::stream_model::{reasoning_step, redacted_step, safe_chars, text_block_step, text_step};
use crate::stream_model::{thinking_events, transcript, with_stop_reason, StreamV};
use crate::text::{blank, byte_len, lemma_byte_len_take, occurs, occurs_at};
use crate::thinking::{first_real, only_quoted, open_tag, quote_at};
use crate::tool_json::{finish_step, push_step, CompletedV, FinishV, PushV};
use crate::xml_filter::{filter_ok, law_clean_text_is_kept, law_held_tail_is_text, lemma_scan_ok};
use crate::xml_filter::{lemma_only_mentions_skip, only_mentions, scan, stripped, tag_prefix};
use vstd::prelude::*;

verus! {

/// The text that an event adds to the answer.
pub open spec fn text_of(e: SseEventV) -> Seq<char> {
    if e.event == "content_block_delta"@ {
        match field(e.data, "delta"@) {
            Some(delta) => match string_field(delta, "text"@) {
                Some(text) => text,
                None => Seq::empty(),
            },
            None => Seq::empty(),
        }
    } else {
        Seq::empty()
    }
}

/// The text that events add to the answer.
pub open spec fn said(events: Seq<SseEventV>) -> Seq<char>
    decreases events.len(),
{
    if events.len() == 0 {
        Seq::empty()
    } else {
        said(events.drop_last()) + text_of(events.last())
    }
}

/// The text that upstream events hold.
pub open spec fn content_of(events: Seq<EventV>) -> Seq<char>
    decreases events.len(),
{
    if events.len() == 0 {
        Seq::empty()
    } else {
        content_of(events.drop_last()) + match events.last() {
            EventV::Content(content) => content,
            _ => Seq::empty(),
        }
    }
}

/// The filter keeps the whole answer: wherever a piece of it ends, no leaked tag has begun.
pub open spec fn kept_by_filter(events: Seq<EventV>) -> bool {
    forall|n: int|
        0 <= n <= events.len() ==> only_mentions(#[trigger] content_of(events.take(n)))
}

/// The answer marks no thinking: the opening tag does not stand in it, or is only mentioned, with
/// no tool calls between the pieces.
pub open spec fn marks_nothing(events: Seq<EventV>) -> bool {
    ||| !occurs(content_of(events), open_tag())
    ||| only_quoted(content_of(events)) && no_calls(events)
}

/// No tool calls come.
pub open spec fn no_calls(events: Seq<EventV>) -> bool {
    forall|i: int| 0 <= i < events.len() ==> !((#[trigger] events[i]) is ToolUse)
}

pub proof fn lemma_said_concat(a: Seq<SseEventV>, b: Seq<SseEventV>)
    ensures
        said(a + b) == said(a) + said(b),
    decreases b.len(),
{
    if b.len() == 0 {
        assert(a + b =~= a);
        assert(said(a) + said(b) =~= said(a));
    } else {
        lemma_said_concat(a, b.drop_last());
        assert((a + b).drop_last() =~= a + b.drop_last());
        assert(said(a) + said(b.drop_last()) + text_of(b.last()) =~= said(a) + (said(
            b.drop_last(),
        ) + text_of(b.last())));
    }
}

pub proof fn lemma_said_one(e: SseEventV)
    ensures
        said(seq![e]) == text_of(e),
{
    assert(seq![e].drop_last() =~= Seq::empty());
    assert(said(Seq::empty()) + text_of(e) =~= text_of(e));
}

/// Only text deltas add to the answer.
pub proof fn lemma_text_of()
    ensures
        forall|index: int, text: Seq<char>| #[trigger]
            text_of(text_delta_event(index, text)) == text,
        forall|index: int, text: Seq<char>|
            text_of(
                #[trigger] crate::sse::input_delta_event(index, text),
            ) == Seq::<char>::empty(),
        forall|index: int, text: Seq<char>|
            text_of(
                #[trigger] crate::sse::thinking_delta_event(index, text),
            ) == Seq::<char>::empty(),
        forall|index: int|
            text_of(
                #[trigger] crate::sse::signature_delta_event(index),
            ) == Seq::<char>::empty(),
        forall|e: SseEventV| e.event != "content_block_delta"@ ==> #[trigger] text_of(e) == Seq::<
            char,
        >::empty(),
        "content_block_start"@ != "content_block_delta"@,
        "content_block_stop"@ != "content_block_delta"@,
        "message_start"@ != "content_block_delta"@,
        "message_delta"@ != "content_block_delta"@,
        "message_stop"@ != "content_block_delta"@,
        "error"@ != "content_block_delta"@,
{
    reveal_strlit("type");
    reveal_strlit("index");
    reveal_strlit("delta");
    reveal_strlit("text");
    reveal_strlit("partial_json");
    reveal_strlit("thinking");
    reveal_strlit("signature");
    reveal_strlit("content_block_start");
    reveal_strlit("content_block_stop");
    reveal_strlit("content_block_delta");
    reveal_strlit("message_start");
    reveal_strlit("message_delta");
    reveal_strlit("message_stop");
    reveal_strlit("error");
    assert("type"@[1] == 'y' && "text"@[1] == 'e');
    assert("partial_json"@.len() == 12 && "text"@.len() == 4);
    assert("thinking"@.len() == 8 && "signature"@.len() == 9);
    assert("content_block_start"@[14] == 's' && "content_block_delta"@[14] == 'd');
    assert("content_block_delta"@.len() == 19);
}

proof fn lemma_closing_says_nothing(blocks: Seq<BlockV>, text_only: bool)
    ensures
        said(closing_events(blocks, text_only)) == Seq::<char>::empty(),
    decreases blocks.len(),
{
    if blocks.len() > 0 {
        lemma_closing_says_nothing(blocks.drop_last(), text_only);
        lemma_text_of();
        let before = closing_events(blocks.drop_last(), text_only);
        let stop = stop_event(blocks.last().index);
        assert(before.push(stop).drop_last() =~= before);
        assert(said(before) + text_of(stop) =~= Seq::empty());
    }
}

proof fn lemma_start_says_nothing(s: StateV, index: int, kind: Seq<char>, block: JsonV)
    ensures
        said(block_start_step(s, index, kind, block_start_json(index, block)).1) == Seq::<
            char,
        >::empty(),
{
    lemma_text_of();
    lemma_closing_says_nothing(s.blocks, true);
    let closing = crate::state::before_block(s, kind).1;
    let e = crate::sse::start_event(index, block);
    assert(closing.push(e).drop_last() =~= closing);
    assert(said(closing) + text_of(e) =~= Seq::empty());
}

/// Sending text says the text.
pub proof fn lemma_text_is_said(s: StreamV, text: Seq<char>)
    requires
        in_order(s),
    ensures
        said(text_step(s, text).1) == text,
        text_step(s, text).0.text_block_index is Some,
{
    lemma_kinds();
    lemma_text_of();
    let (s1, opening) = text_block_step(s);
    let fresh = StreamV { text_block_index: Some(s.state.next_block_index), ..s };
    let block = part_json("text"@, "text"@, ""@);
    lemma_open_block(fresh, "text"@, block);
    let numbered = StateV { next_block_index: s.state.next_block_index + 1, ..s.state };
    lemma_start_says_nothing(numbered, s.state.next_block_index, "text"@, block);
    assert(said(opening) == Seq::<char>::empty());
    let index = s1.text_block_index->0;
    assert(open_of_kind(s1.state, index, "text"@));
    let e = text_delta_event(index, text);
    lemma_said_one(e);
    lemma_said_concat(opening, seq![e]);
    assert(text_step(s, text).1 == opening + seq![e]);
    assert(Seq::<char>::empty() + text =~= text);
}

pub proof fn lemma_call_says_nothing(s: StreamV, call: CompletedV)
    ensures
        said(call_step(s, call).1) == Seq::<char>::empty(),
{
    lemma_text_of();
    let known = s.tool_block_indices.contains_key(call.id);
    let index = if known {
        s.tool_block_indices[call.id]
    } else {
        s.state.next_block_index
    };
    let state1 = if known {
        s.state
    } else {
        StateV { next_block_index: index + 1, ..s.state }
    };
    let block = tool_use_json(call.id, call.name, empty_object());
    lemma_start_says_nothing(state1, index, "tool_use"@, block);
    let (state2, e2) = block_start_step(
        state1,
        index,
        "tool_use"@,
        block_start_json(index, block),
    );
    let partial = printed(call.input);
    let delta = block_delta_step(
        state2,
        index,
        block_delta_json(index, part_json("input_json_delta"@, "partial_json"@, partial)),
    );
    let (state3, stop) = block_stop_step(state2, index);
    lemma_said_one(crate::sse::input_delta_event(index, partial));
    lemma_said_one(stop_event(index));
    assert(said(opt_events(delta)) =~= Seq::empty());
    assert(said(opt_events(stop)) =~= Seq::empty());
    lemma_said_concat(e2, opt_events(delta));
    lemma_said_concat(e2 + opt_events(delta), opt_events(stop));
    assert(call_step(s, call).1 == e2 + opt_events(delta) + opt_events(stop));
}

/// What a step keeps of a stream that is not in thinking.
pub open spec fn keeps(s: StreamV, t: StreamV) -> bool {
    &&& t.thinking_enabled == s.thinking_enabled
    &&& t.thinking_buffer == s.thinking_buffer
    &&& t.filter == s.filter
    &&& t.in_thinking_block == s.in_thinking_block
    &&& t.strip_text_after_thinking_boundary == s.strip_text_after_thinking_boundary
    &&& s.text_block_index is Some ==> t.text_block_index is Some
}

proof fn lemma_calls_say_nothing(s: StreamV, calls: Seq<CompletedV>)
    ensures
        said(calls_step(s, calls).1) == Seq::<char>::empty(),
        keeps(s, calls_step(s, calls).0),
        calls_step(s, calls).0.reasoning_block_open == s.reasoning_block_open,
        calls_step(s, calls).0.thinking_extracted == s.thinking_extracted,
    decreases calls.len(),
{
    if calls.len() > 0 {
        lemma_calls_say_nothing(s, calls.drop_last());
        let (s1, e1) = calls_step(s, calls.drop_last());
        lemma_call_says_nothing(s1, calls.last());
        lemma_said_concat(e1, call_step(s1, calls.last()).1);
    }
}

pub proof fn lemma_stop_says_nothing(s: StateV, index: int)
    ensures
        said(opt_events(block_stop_step(s, index).1)) == Seq::<char>::empty(),
{
    lemma_text_of();
    lemma_said_one(stop_event(index));
}

pub proof fn lemma_open_says_nothing(s: StreamV, kind: Seq<char>, block: JsonV)
    ensures
        said(open_block(s, kind, block).1) == Seq::<char>::empty(),
{
    let index = s.state.next_block_index;
    let numbered = StateV { next_block_index: index + 1, ..s.state };
    lemma_start_says_nothing(numbered, index, kind, block);
}

pub proof fn lemma_thinking_says_nothing(s: StreamV, thinking: Seq<char>)
    ensures
        said(thinking_events(s, thinking)) == Seq::<char>::empty(),
{
    lemma_text_of();
    match s.thinking_block_index {
        Some(index) => {
            lemma_said_one(thinking_delta_event(index, thinking));
        },
        None => {},
    }
}

proof fn lemma_close_reasoning_says_nothing(s: StreamV)
    ensures
        said(close_reasoning(s).1) == Seq::<char>::empty(),
        keeps(s, close_reasoning(s).0),
{
    lemma_text_of();
    match s.thinking_block_index {
        Some(index) => {
            let a = thinking_delta_event(index, ""@);
            let b = signature_delta_event(index);
            lemma_said_one(a);
            lemma_said_one(b);
            lemma_said_concat(seq![a], seq![b]);
            assert(seq![a] + seq![b] =~= seq![a, b]);
            assert(said(seq![a, b]) =~= Seq::empty());
            lemma_stop_says_nothing(s.state, index);
            lemma_said_concat(seq![a, b], opt_events(block_stop_step(s.state, index).1));
        },
        None => {},
    }
}

proof fn lemma_reasoning_says_nothing(s: StreamV, r: ReasoningV)
    ensures
        said(reasoning_step(s, r).1) == Seq::<char>::empty(),
        s.in_thinking_block || keeps(s, reasoning_step(s, r).0),
        !s.thinking_enabled ==> reasoning_step(s, r).0 == s,
{
    if s.thinking_enabled {
        // Reasoning that is held back.
        lemma_close_reasoning_says_nothing(s);
        let (s1, e1) = close_reasoning(s);
        let (s2, e2) = close_text(s1);
        if s1.text_block_index is Some {
            lemma_stop_says_nothing(s1.state, s1.text_block_index->0);
        }
        assert(said(e2) =~= Seq::empty());
        let redacted = r.redacted->0;
        let block = part_json("redacted_thinking"@, "data"@, redacted);
        lemma_open_says_nothing(s2, "redacted_thinking"@, block);
        let (s3, e3) = open_block(s2, "redacted_thinking"@, block);
        lemma_stop_says_nothing(s3.state, s2.state.next_block_index);
        let e4 = opt_events(block_stop_step(s3.state, s2.state.next_block_index).1);
        lemma_said_concat(e1, e2);
        lemma_said_concat(e1 + e2, e3);
        lemma_said_concat(e1 + e2 + e3, e4);
        assert(said(redacted_step(s, redacted).1) =~= Seq::empty());
        // Reasoning that is disclosed.
        let (t1, d1) = close_text(s);
        if s.text_block_index is Some {
            lemma_stop_says_nothing(s.state, s.text_block_index->0);
        }
        assert(said(d1) =~= Seq::empty());
        let t2 = StreamV {
            reasoning_block_open: true,
            in_thinking_block: false,
            thinking_extracted: true,
            thinking_block_index: Some(t1.state.next_block_index),
            ..t1
        };
        let thinking = part_json("thinking"@, "thinking"@, ""@);
        lemma_open_says_nothing(t2, "thinking"@, thinking);
        lemma_said_concat(d1, open_block(t2, "thinking"@, thinking).1);
        let (u, f1) = reasoning_block_step(s);
        assert(said(f1) =~= Seq::empty());
        lemma_thinking_says_nothing(u, r.text);
        lemma_said_concat(f1, thinking_events(u, r.text));
        assert(said(disclosed_step(s, r.text).1) =~= Seq::empty());
    }
}

/// A stream that is not in thinking, and that holds back nothing but text.
pub open spec fn plain(s: StreamV) -> bool {
    &&& in_order(s)
    &&& !s.in_thinking_block
    &&& !s.strip_text_after_thinking_boundary
    &&& s.thinking_enabled || (!s.reasoning_block_open && s.thinking_buffer.len() == 0)
    &&& filter_ok(s.filter)
    &&& !s.filter.stripping
}

/// The text that a stream holds back.
pub open spec fn held(s: StreamV) -> Seq<char> {
    s.thinking_buffer + s.filter.buffer
}

/// A part of a text without a pattern is without it too.
pub proof fn lemma_part_is_clean(whole: Seq<char>, pat: Seq<char>, from: int, to: int)
    requires
        !occurs(whole, pat),
        0 <= from <= to <= whole.len(),
    ensures
        !occurs(whole.subrange(from, to), pat),
{
    let part = whole.subrange(from, to);
    if occurs(part, pat) {
        let i = choose|i: int| #[trigger] occurs_at(part, pat, i);
        assert(part.subrange(i, i + pat.len()) =~= whole.subrange(from + i, from + i + pat.len()));
        assert(occurs_at(whole, pat, from + i));
    }
}

/// A stream finds no opening tag in a piece of text.
pub open spec fn sees_no_tag(s: StreamV, text: Seq<char>) -> bool {
    s.thinking_enabled && !s.thinking_extracted && text.len() > 0 ==> first_real(
        s.thinking_buffer + text,
        open_tag(),
        0,
    ) is None
}

/// A stream that has said `before` still sees what stands before a tag that is not whole.
pub open spec fn on_guard(s: StreamV, before: Seq<char>) -> bool {
    s.thinking_extracted || before.len() == 0 || byte_len(s.thinking_buffer) >= 10
}

/// An answer that marks no thinking, as far as a stream that has said `before` can tell.
pub open spec fn unmarked(s: StreamV, before: Seq<char>, whole: Seq<char>) -> bool {
    !occurs(whole, open_tag()) || (only_quoted(whole) && on_guard(s, before))
}

/// The beginning of a text that only mentions the tag only mentions it.
pub proof fn lemma_only_quoted_take(s: Seq<char>, n: int)
    requires
        only_quoted(s),
        0 <= n <= s.len(),
    ensures
        only_quoted(s.take(n)),
{
    let part = s.take(n);
    assert forall|i: int| #[trigger] occurs_at(part, open_tag(), i) implies quote_at(part, i - 1)
        && (quote_at(part, i + 10) || i + 10 == part.len()) by {
        assert(part.subrange(i, i + 10) =~= s.subrange(i, i + 10));
        assert(occurs_at(s, open_tag(), i));
    }
}

/// A stream sees no tag in an answer that marks no thinking.
pub proof fn lemma_sees_no_tag(s: StreamV, before: Seq<char>, text: Seq<char>)
    requires
        unmarked(s, before, before + s.thinking_buffer + text),
    ensures
        sees_no_tag(s, text),
{
    let whole = before + s.thinking_buffer + text;
    let part = s.thinking_buffer + text;
    let k = before.len() as int;
    crate::thinking::lemma_first_real(part, open_tag(), 0);
    if s.thinking_enabled && !s.thinking_extracted && text.len() > 0 && first_real(
        part,
        open_tag(),
        0,
    ) is Some {
        let i = first_real(part, open_tag(), 0)->0;
        assert(part.subrange(i, i + 10) =~= whole.subrange(k + i, k + i + 10));
        assert(occurs_at(whole, open_tag(), k + i));
        assert(quote_at(whole, k + i - 1));
        if i > 0 {
            assert(part[i - 1] == whole[k + i - 1]);
        } else if part.len() > 10 {
            assert(part[10] == whole[k + 10]);
        } else {
            let held = s.thinking_buffer;
            assert(part.subrange(0, 10) =~= part);
            lemma_byte_len_take(part, held.len() as int);
            assert(part.take(held.len() as int) =~= held);
            assert(part =~= open_tag());
            assert(text =~= part.skip(held.len() as int));
            lemma_tag_bytes(text, held.len() as int);
        }
    }
}

/// The same while more of the answer is to come.
pub proof fn lemma_sees_no_tag_yet(
    s: StreamV,
    before: Seq<char>,
    text: Seq<char>,
    whole: Seq<char>,
)
    requires
        unmarked(s, before, whole),
        before.len() + s.thinking_buffer.len() + text.len() <= whole.len(),
        before + s.thinking_buffer + text == whole.take(
            (before.len() + s.thinking_buffer.len() + text.len()) as int,
        ),
    ensures
        sees_no_tag(s, text),
{
    let n = (before.len() + s.thinking_buffer.len() + text.len()) as int;
    if !occurs(whole, open_tag()) {
        lemma_part_is_clean(whole, open_tag(), 0, n);
        assert(whole.subrange(0, n) =~= whole.take(n));
    } else {
        lemma_only_quoted_take(whole, n);
    }
    lemma_sees_no_tag(s, before, text);
}

/// The opening tag takes ten bytes, and its end takes some of them.
proof fn lemma_tag_bytes(end: Seq<char>, n: int)
    requires
        0 <= n < 10,
        end == open_tag().skip(n),
    ensures
        byte_len(open_tag()) == 10,
        byte_len(end) > 0,
{
    assert forall|i: int| 0 <= i < open_tag().len() implies (#[trigger] open_tag()[i] as u32)
        < 0x80 by {}
    crate::text::lemma_bytes(open_tag());
    crate::text::lemma_bytes(end);
}

/// Text that has passed the filter is said, or held back.
proof fn lemma_filtered_is_said(s: StreamV, text: Seq<char>)
    requires
        plain(s),
        sees_no_tag(s, text),
    ensures
        ({
            let (t, events) = filtered_step(s, text);
            &&& plain(t)
            &&& t.filter == s.filter
            &&& t.thinking_enabled == s.thinking_enabled
            &&& said(events) + t.thinking_buffer == s.thinking_buffer + text
            &&& said(events).len() > 0 || s.text_block_index is Some ==> t.text_block_index is Some
            &&& t.tool_json_error == s.tool_json_error
            &&& t.thinking_extracted == s.thinking_extracted
            &&& s.thinking_enabled ==> on_guard(t, said(events))
        }),
{
    lemma_filtered_step(s, text);
    if text.len() == 0 {
        assert(said(Seq::empty()) + s.thinking_buffer =~= s.thinking_buffer + text);
    } else {
        let s0 = StreamV {
            output_tokens: crate::tokens::capped(
                s.output_tokens + crate::tokens::capped(crate::tokens::estimate(text)),
            ),
            ..s
        };
        assert(in_order(s0));
        if !s0.thinking_enabled {
            lemma_text_is_said(s0, text);
            assert(text + s.thinking_buffer =~= s.thinking_buffer + text);
        } else {
            let whole = s.thinking_buffer + text;
            let s1 = StreamV { thinking_buffer: whole, ..s0 };
            assert(in_order(s1));
            if !s1.thinking_extracted {
                let n = safe_chars(whole, 10);
                crate::thinking::lemma_chars_within(
                    whole,
                    if byte_len(whole) < 10 {
                        0
                    } else {
                        byte_len(whole) - 10
                    },
                );
                if !blank(whole.take(n)) {
                    lemma_text_is_said(s1, whole.take(n));
                    assert(whole.take(n) + whole.skip(n) =~= whole);
                    lemma_byte_len_take(whole, n);
                    crate::text::lemma_bytes(whole.take(n));
                } else {
                    assert(said(Seq::empty()) + whole =~= whole);
                }
            } else {
                let s2 = StreamV { thinking_buffer: Seq::empty(), ..s1 };
                assert(in_order(s2));
                lemma_text_is_said(s2, whole);
                assert(whole + Seq::empty() =~= whole);
                let none = Seq::<SseEventV>::empty();
                assert(content_step(s0, text) == after_step(s1) || content_step(s0, text).1
                    =~= none + none + after_step(s1).1);
                assert(none + none + after_step(s1).1 =~= after_step(s1).1);
            }
        }
    }
}

/// More text in the buffer leaves a stream on its guard.
proof fn lemma_stays_on_guard(
    s: StreamV,
    t: StreamV,
    before: Seq<char>,
    words: Seq<char>,
    text: Seq<char>,
)
    requires
        on_guard(s, before),
        on_guard(t, words),
        t.thinking_extracted == s.thinking_extracted,
        words + t.thinking_buffer == s.thinking_buffer + text,
    ensures
        on_guard(t, before + words),
{
    if words.len() == 0 {
        assert(before + words =~= before);
        assert(words + t.thinking_buffer =~= t.thinking_buffer);
        crate::text::lemma_encode_concat(s.thinking_buffer, text);
    }
}

pub proof fn lemma_content_is_said(s: StreamV, before: Seq<char>, content: Seq<char>)
    requires
        plain(s),
        only_mentions(s.filter.buffer + content),
        s.thinking_enabled ==> unmarked(s, before, before + held(s) + content),
    ensures
        ({
            let (t, events) = event_step(s, EventV::Content(content));
            &&& plain(t)
            &&& t.thinking_enabled == s.thinking_enabled
            &&& said(events) + held(t) == held(s) + content
            &&& said(events).len() > 0 || s.text_block_index is Some ==> t.text_block_index is Some
            &&& s.thinking_enabled && on_guard(s, before) ==> on_guard(t, before + said(events))
        }),
{
    reveal(event_step);
    lemma_close_reasoning(s);
    lemma_close_reasoning_says_nothing(s);
    let (s0, e0) = close_reasoning(s);
    let text = s.filter.buffer + content;
    law_clean_text_is_kept(text);
    lemma_scan_ok(text, false);
    let (out, filter) = scan(text, false);
    assert(out + filter.buffer == text);
    let s1 = StreamV { filter, ..s0 };
    assert(in_order(s1));
    let all = before + held(s) + content;
    assert(s.thinking_buffer + (out + filter.buffer) =~= s.thinking_buffer + out + filter.buffer);
    assert(all =~= before + s.thinking_buffer + text);
    assert(before + s.thinking_buffer + text =~= before + s.thinking_buffer + out
        + filter.buffer);
    let n = (before.len() + s.thinking_buffer.len() + out.len()) as int;
    assert(all.take(n) =~= before + s.thinking_buffer + out);
    if s.thinking_enabled {
        lemma_sees_no_tag_yet(s1, before, out, all);
    }
    lemma_filtered_is_said(s1, out);
    let (t, e1) = filtered_step(s1, out);
    lemma_said_concat(e0, e1);
    assert(said(e0 + e1) =~= said(e1));
    assert(said(e1) + (t.thinking_buffer + t.filter.buffer) =~= said(e1) + t.thinking_buffer
        + t.filter.buffer);
    if s.thinking_enabled && on_guard(s, before) {
        lemma_stays_on_guard(s1, t, before, said(e1), out);
    }
}

pub proof fn lemma_other_says_nothing(s: StreamV, e: EventV)
    requires
        plain(s),
        !(e is Content),
    ensures
        ({
            let (t, events) = event_step(s, e);
            &&& plain(t)
            &&& t.thinking_enabled == s.thinking_enabled
            &&& said(events) + held(t) == held(s)
            &&& said(events).len() > 0 || s.text_block_index is Some ==> t.text_block_index is Some
            &&& !(e is ToolUse) ==> said(events).len() == 0 && t.thinking_buffer
                == s.thinking_buffer && (s.thinking_extracted ==> t.thinking_extracted)
        }),
{
    reveal(event_step);
    lemma_event_step(s, e);
    match e {
        EventV::ToolUse(t) => {
            lemma_close_reasoning(s);
            lemma_close_reasoning_says_nothing(s);
            let (s0, e0) = close_reasoning(s);
            let s1 = StreamV { state: StateV { has_tool_use: true, ..s0.state }, ..s0 };
            assert(in_order(s1));
            let (s2, e2) = before_call(s1);
            let s11 = StreamV { thinking_buffer: Seq::empty(), ..s1 };
            assert(in_order(s11));
            lemma_text_is_said(s11, s1.thinking_buffer);
            let none = Seq::<SseEventV>::empty();
            assert(none + text_step(s11, s1.thinking_buffer).1 =~= text_step(
                s11,
                s1.thinking_buffer,
            ).1);
            assert(said(e2) + s2.thinking_buffer =~= s1.thinking_buffer);
            lemma_before_call(s1);
            let (pending, outcome) = push_step(s2.pending, t, s2.tool_name_map);
            let s3 = StreamV { pending, ..s2 };
            assert(in_order(s3));
            lemma_said_concat(e0, e2);
            assert(said(e0 + e2) =~= said(e2));
            match outcome {
                PushV::Done(call) => {
                    lemma_call_says_nothing(s3, call);
                    let (s4, e4) = call_step(s3, call);
                    assert(event_step(s, e).1 == e0 + (e2 + e4));
                    assert(e0 + (e2 + e4) =~= e0 + e2 + e4);
                    lemma_said_concat(e0 + e2, e4);
                    assert(said(event_step(s, e).1) =~= said(e2));
                },
                _ => {
                    assert(event_step(s, e).1 == e0 + e2);
                },
            }
            let last = event_step(s, e).0;
            assert(said(e2) + (last.thinking_buffer + last.filter.buffer) =~= said(e2)
                + s2.thinking_buffer + s.filter.buffer);
        },
        EventV::Reasoning(r) => {
            lemma_reasoning_says_nothing(s, r);
            assert(Seq::<char>::empty() + held(event_step(s, e).0) =~= held(s));
        },
        _ => {
            assert(event_step(s, e).1 =~= Seq::empty());
            assert(Seq::<char>::empty() + held(event_step(s, e).0) =~= held(s));
        },
    }
}

/// One more event, behind others that said `before`.
pub proof fn lemma_next_is_said(s: StreamV, before: Seq<char>, e: EventV, whole: Seq<char>)
    requires
        plain(s),
        whole == before + held(s) + (match e {
            EventV::Content(content) => content,
            _ => Seq::empty(),
        }),
        only_mentions(whole),
        s.thinking_enabled ==> unmarked(s, before, whole),
    ensures
        ({
            let (t, events) = event_step(s, e);
            &&& plain(t)
            &&& t.thinking_enabled == s.thinking_enabled
            &&& before + said(events) + held(t) == whole
            &&& said(events).len() > 0 || s.text_block_index is Some ==> t.text_block_index is Some
            &&& s.thinking_enabled && on_guard(s, before) && !(e is ToolUse) ==> on_guard(
                t,
                before + said(events),
            )
        }),
{
    let (t, events) = event_step(s, e);
    assert(before + said(events) + held(t) =~= before + (said(events) + held(t)));
    match e {
        EventV::Content(content) => {
            let n = before.len() + s.thinking_buffer.len();
            lemma_only_mentions_skip(whole, n as int);
            assert(s.filter.buffer + content =~= whole.skip(n as int));
            lemma_content_is_said(s, before, content);
            assert(before + (held(s) + content) =~= whole);
        },
        _ => {
            lemma_other_says_nothing(s, e);
            assert(before + held(s) =~= whole);
            assert(said(events).len() == 0 ==> before + said(events) =~= before);
        },
    }
}

/// A beginning of events that mark nothing, and of which the filter keeps all.
pub proof fn lemma_front(events: Seq<EventV>)
    requires
        events.len() > 0,
    ensures
        content_of(events) == content_of(events.drop_last()) + (match events.last() {
            EventV::Content(content) => content,
            _ => Seq::empty(),
        }),
        kept_by_filter(events) ==> kept_by_filter(events.drop_last()) && only_mentions(
            content_of(events),
        ),
        no_calls(events) ==> no_calls(events.drop_last()) && !(events.last() is ToolUse),
        marks_nothing(events) ==> marks_nothing(events.drop_last()),
{
    let front = events.drop_last();
    let whole = content_of(events);
    let n = content_of(front).len() as int;
    assert(events.take(events.len() as int) =~= events);
    if kept_by_filter(events) {
        assert forall|k: int| 0 <= k <= front.len() implies only_mentions(
            #[trigger] content_of(front.take(k)),
        ) by {
            assert(front.take(k) =~= events.take(k));
        }
        assert(only_mentions(content_of(events.take(events.len() as int))));
    }
    if no_calls(events) {
        assert forall|i: int| 0 <= i < front.len() implies !((#[trigger] front[i]) is ToolUse) by {
            assert(front[i] == events[i]);
        }
        assert(events[events.len() - 1] == events.last());
    }
    assert(whole.take(n) =~= content_of(front));
    assert(whole.subrange(0, n) =~= content_of(front));
    if !occurs(whole, open_tag()) {
        lemma_part_is_clean(whole, open_tag(), 0, n);
    } else if marks_nothing(events) {
        lemma_only_quoted_take(whole, n);
    }
}

pub proof fn lemma_events_are_said(s: StreamV, events: Seq<EventV>)
    requires
        plain(s),
        held(s).len() == 0,
        kept_by_filter(events),
        s.thinking_enabled ==> marks_nothing(events),
    ensures
        ({
            let (t, sent) = events_step(s, events);
            &&& plain(t)
            &&& t.thinking_enabled == s.thinking_enabled
            &&& said(sent) + held(t) == content_of(events)
            &&& said(sent).len() > 0 ==> t.text_block_index is Some
            &&& s.thinking_enabled ==> unmarked(t, said(sent), content_of(events))
            &&& s.thinking_enabled && no_calls(events) ==> on_guard(t, said(sent))
        }),
    decreases events.len(),
{
    let whole = content_of(events);
    if events.len() == 0 {
        assert(said(Seq::empty()) + held(s) =~= whole);
    } else {
        let front = events.drop_last();
        lemma_front(events);
        lemma_events_are_said(s, front);
        let (s1, e1) = events_step(s, front);
        if s.thinking_enabled && occurs(whole, open_tag()) {
            assert(on_guard(s1, said(e1)));
        }
        lemma_next_is_said(s1, said(e1), events.last(), whole);
        lemma_said_concat(e1, event_step(s1, events.last()).1);
    }
}

pub proof fn lemma_end_says_nothing(s: StreamV)
    ensures
        said(end_message(s).1) == Seq::<char>::empty(),
{
    lemma_text_of();
    lemma_closing_says_nothing(s.state.blocks, false);
    let usage = crate::stream_model::final_usage(s);
    let d = crate::sse::message_delta_event(crate::state::final_stop_reason(s.state), usage);
    let closing = closing_events(s.state.blocks, false);
    let delta = if s.state.message_delta_sent {
        Seq::empty()
    } else {
        seq![d]
    };
    let end = if s.state.message_ended {
        Seq::empty()
    } else {
        seq![crate::sse::message_stop_event()]
    };
    lemma_said_one(d);
    lemma_said_one(crate::sse::message_stop_event());
    assert(said(delta) =~= Seq::empty());
    assert(said(end) =~= Seq::empty());
    lemma_said_concat(closing, delta);
    lemma_said_concat(closing + delta, end);
}

pub proof fn lemma_calls_at_end(s: StreamV)
    requires
        plain(s),
    ensures
        plain(flush_calls(s).0),
        said(flush_calls(s).1) == Seq::<char>::empty(),
        keeps(s, flush_calls(s).0),
        flush_calls(s).0.thinking_extracted == s.thinking_extracted,
{
    lemma_flush_calls(s);
    let (pending, outcome) = finish_step(s.pending, s.tool_name_map);
    let s1 = StreamV { pending, ..s };
    match outcome {
        FinishV::Done(calls) => {
            lemma_calls_say_nothing(s1, calls);
        },
        FinishV::Failed(e) => {},
    }
}

pub proof fn lemma_held_text_is_said(s: StreamV)
    requires
        plain(s),
        sees_no_tag(s, s.filter.buffer),
    ensures
        ({
            let (t, events) = flush_filter(s);
            &&& plain(t)
            &&& t.thinking_enabled == s.thinking_enabled
            &&& said(events) + t.thinking_buffer == held(s)
            &&& said(events).len() > 0 || s.text_block_index is Some ==> t.text_block_index is Some
            &&& t.tool_json_error == s.tool_json_error
        }),
{
    law_held_tail_is_text(s.filter);
    let s1 = StreamV {
        filter: crate::xml_filter::FilterV { buffer: Seq::empty(), stripping: false },
        ..s
    };
    assert(tag_prefix().take(0) =~= Seq::empty());
    assert(in_order(s1));
    assert(plain(s1));
    assert(held(s) =~= s1.thinking_buffer + stripped(s.filter.buffer));
    lemma_filtered_is_said(s1, stripped(s.filter.buffer));
}

/// A message gets a text of its own only where it has none.
pub proof fn lemma_fill(s: StreamV)
    requires
        live(s.state),
        text_is_text(s),
        s.text_block_index is Some,
    ensures
        has_other_than_thinking(s.state),
{
    lemma_kinds();
    let i = s.text_block_index->0;
    crate::state::lemma_position_from(s.state.blocks, i, 0);
    let k = crate::state::position(s.state.blocks, i)->0;
    assert(s.state.blocks[k].kind != "thinking"@);
}

/// What the end of a stream says: what was held back, or a blank where there is nothing but
/// thinking.
spec fn last_words(s: StreamV, rest: Seq<char>, words: Seq<char>) -> bool {
    words == rest || (s.thinking_enabled && s.text_block_index is None && rest.len() == 0 && words
        == " "@)
}

proof fn lemma_end_well_says_the_rest(s: StreamV)
    requires
        plain(s),
    ensures
        last_words(s, s.thinking_buffer, said(end_well(s).1)),
{
    lemma_close_reasoning(s);
    lemma_close_reasoning_says_nothing(s);
    let (s1, e1) = close_reasoning(s);
    lemma_flush_buffer(s1);
    let (s2, e2) = flush_buffer(s1);
    let emptied = StreamV { thinking_buffer: Seq::empty(), ..s1 };
    assert(in_order(emptied));
    if s1.thinking_buffer.len() > 0 {
        lemma_text_is_said(emptied, s1.thinking_buffer);
    }
    assert(said(e2) =~= s.thinking_buffer);
    assert(!s2.in_thinking_block);
    let (s3, e3) = fill_text(s2);
    if s2.text_block_index is Some {
        lemma_fill(s2);
    } else {
        let blank_text = with_stop_reason(s2, "max_tokens"@);
        assert(in_order(blank_text));
        lemma_text_is_said(blank_text, " "@);
    }
    lemma_end_says_nothing(s3);
    let e4 = end_message(s3).1;
    lemma_said_concat(e1, e2);
    lemma_said_concat(e1 + e2, e3);
    lemma_said_concat(e1 + e2 + e3, e4);
    assert(said(end_well(s).1) =~= said(e2) + said(e3));
    if s2.text_block_index is Some {
        assert(said(e2) + said(e3) =~= said(e2));
    } else {
        assert(s.thinking_buffer =~= Seq::empty());
        assert(said(e2) + said(e3) =~= said(e3));
    }
}

proof fn lemma_finish_says_the_rest(s: StreamV)
    requires
        plain(s),
        sees_no_tag(s, s.filter.buffer),
        s.thinking_enabled ==> finish_stream(s).0.tool_json_error is None,
    ensures
        last_words(s, held(s), said(finish_stream(s).1)),
{
    lemma_calls_at_end(s);
    let (s1, e1) = flush_calls(s);
    assert(held(s1) == held(s));
    lemma_held_text_is_said(s1);
    let (s2, e2) = flush_filter(s1);
    lemma_text_of();
    lemma_said_concat(e1, e2);
    assert(said(e1 + e2) =~= said(e2));
    match s2.tool_json_error {
        Some(e) => {
            lemma_end_says_nothing(s2);
            let e4 = end_message(s2).1;
            let last = crate::sse::error_event(
                "upstream_tool_json_error"@,
                crate::tool_json::error_text(e),
            );
            assert(!s2.thinking_enabled);
            assert(end_with_error(s2, e).1 =~= e4 + seq![last]);
            lemma_said_one(last);
            lemma_said_concat(e4, seq![last]);
            lemma_said_concat(e1 + e2, end_with_error(s2, e).1);
            assert(said(finish_stream(s).1) =~= said(e2));
            assert(said(e2) + s2.thinking_buffer =~= said(e2));
        },
        None => {
            lemma_end_well_says_the_rest(s2);
            lemma_said_concat(e1 + e2, end_well(s2).1);
            assert(said(finish_stream(s).1) == said(e2) + said(end_well(s2).1));
            if said(end_well(s2).1) != s2.thinking_buffer {
                assert(said(e2) =~= Seq::empty());
                assert(said(e2) + " "@ =~= " "@);
                assert(held(s) =~= Seq::empty());
            }
        },
    }
}

pub proof fn lemma_start_of_plain_stream(s: StreamV)
    requires
        unsent(s),
        s.thinking_buffer.len() == 0,
        !s.strip_text_after_thinking_boundary,
        filter_ok(s.filter),
        !s.filter.stripping,
    ensures
        plain(initial_step(s).0),
        said(initial_step(s).1) == Seq::<char>::empty(),
        initial_step(s).0.filter == s.filter,
        initial_step(s).0.thinking_buffer == s.thinking_buffer,
        initial_step(s).0.thinking_enabled == s.thinking_enabled,
{
    lemma_initial_step(s);
    lemma_text_of();
    let (state, start) = crate::state::message_start_step(
        s.state,
        crate::stream_model::start_payload(s),
    );
    let e = start->0;
    lemma_said_one(e);
    let s1 = StreamV { state, ..s };
    let block = part_json("text"@, "text"@, ""@);
    let numbered = StateV { next_block_index: s1.state.next_block_index + 1, ..s1.state };
    lemma_start_says_nothing(numbered, s1.state.next_block_index, "text"@, block);
    lemma_said_concat(opt_events(start), new_text_block(s1).1);
}

/// All that comes behind the start of a stream.
proof fn lemma_plain_answer(s: StreamV, events: Seq<EventV>)
    requires
        plain(s),
        held(s).len() == 0,
        kept_by_filter(events),
        s.thinking_enabled ==> marks_nothing(events) && finish_stream(
            events_step(s, events).0,
        ).0.tool_json_error is None,
    ensures
        ({
            let (t, e) = events_step(s, events);
            let words = said(e) + said(finish_stream(t).1);
            words == content_of(events) || (s.thinking_enabled && content_of(events).len() == 0
                && words == " "@)
        }),
{
    let whole = content_of(events);
    lemma_events_are_said(s, events);
    let (t, e) = events_step(s, events);
    if s.thinking_enabled {
        assert(said(e) + t.thinking_buffer + t.filter.buffer =~= whole);
        lemma_sees_no_tag(t, said(e), t.filter.buffer);
    }
    lemma_finish_says_the_rest(t);
    let last = said(finish_stream(t).1);
    if last != held(t) {
        assert(said(e) =~= Seq::empty());
        assert(said(e) + " "@ =~= " "@);
        assert(whole =~= Seq::empty());
    }
}

/// The client reads all of the answer and nothing else: the texts of the stream, put together,
/// are the texts of the upstream, whatever tool calls, reasoning and other events come between.
/// Where the client asked for thinking and the answer is empty, a blank may stand in for it.
///
/// Answers in which a leaked tool call may stand are left out. So are, for a client that asked
/// for thinking, those in which the model marks thinking, which is no part of the answer, or in
/// which it may depend on the cut whether it does; and streams that end because a tool call could
/// not be used, whose last characters are dropped.
pub proof fn law_answer_is_delivered(s: StreamV, events: Seq<EventV>)
    requires
        unsent(s),
        s.thinking_buffer.len() == 0,
        !s.strip_text_after_thinking_boundary,
        s.filter == (crate::xml_filter::FilterV { buffer: Seq::empty(), stripping: false }),
        kept_by_filter(events),
        s.thinking_enabled ==> marks_nothing(events) && last_state(
            s,
            events,
        ).tool_json_error is None,
    ensures
        said(transcript(s, events)) == content_of(events) || (s.thinking_enabled && content_of(
            events,
        ).len() == 0 && said(transcript(s, events)) == " "@),
{
    assert(tag_prefix().take(0) =~= Seq::empty());
    lemma_start_of_plain_stream(s);
    let (s1, e1) = initial_step(s);
    lemma_plain_answer(s1, events);
    let (s2, e2) = events_step(s1, events);
    let e3 = finish_stream(s2).1;
    lemma_said_concat(e1, e2);
    lemma_said_concat(e1 + e2, e3);
    assert(transcript(s, events) == e1 + e2 + e3);
    assert(said(e1) + said(e2) + said(e3) =~= said(e2) + said(e3));
}

/// A client that did not ask for thinking sees nothing of the model's reasoning.
pub proof fn law_reasoning_stays_hidden(s: StreamV, r: crate::events::ReasoningV)
    requires
        !s.thinking_enabled,
    ensures
        event_step(s, EventV::Reasoning(r)) == (s, Seq::<SseEventV>::empty()),
{
    reveal(event_step);
}

} // verus!
