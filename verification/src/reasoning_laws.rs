//! A client that asked for thinking reads the reasoning that the upstream discloses.

use crate::delivery_laws::{content_of, held, kept_by_filter, lemma_calls_at_end};
use crate::delivery_laws::{lemma_events_are_said, lemma_front, lemma_held_text_is_said};
use crate::delivery_laws::{lemma_sees_no_tag, lemma_sees_no_tag_yet, lemma_start_of_plain_stream};
use crate::delivery_laws::{marks_nothing, on_guard, plain, said, sees_no_tag, unmarked};
use crate::events::{Event, EventV, ReasoningContentEvent, ReasoningV};
use crate::gather::{gather_step, GatheredV};
use crate::json::{empty_object, field, printed, string_field, JsonV};
use crate::sse::{block_delta_json, block_start_json, input_delta_event, opt_events, part_json};
use crate::sse::{signature_delta_event, start_event, stop_event, text_delta_event};
use crate::sse::{thinking_delta_event, tool_use_json, SseEventV};
use crate::state::{block_delta_step, block_start_step, block_stop_step, closing_events};
use crate::state::{opt_text, BlockV, StateV};
use crate::stream_laws::{lemma_close_reasoning, unsent};
use crate::stream_model::{after_step, before_call, call_step, calls_step, close_reasoning};
use crate::stream_model::{close_text, disclosed_step, end_message, end_well};
use crate::stream_model::{event_step, events_step, fill_text, filtered_step, finish_stream};
use crate::stream_model::{flush_buffer, flush_calls, flush_filter, initial_step, last_state};
use crate::stream_model::{open_block, reasoning_block_step, reasoning_step};
use crate::stream_model::{redacted_step, safe_chars, text_block_step, text_step};
use crate::stream_model::{thinking_events, transcript, with_stop_reason, StreamV};
use crate::text::occurs;
use crate::thinking::open_tag;
use crate::tool_json::{finish_step, push_step, CompletedV, FinishV, PushV};
use crate::xml_filter::{law_clean_text_is_kept, law_held_tail_is_text, lemma_only_mentions_skip};
use crate::xml_filter::{only_mentions, scan, stripped, tag_prefix, FilterV};
use vstd::prelude::*;

verus! {

/// The thinking that an event adds.
pub open spec fn thought_of(e: SseEventV) -> Seq<char> {
    if e.event == "content_block_delta"@ {
        match field(e.data, "delta"@) {
            Some(delta) => match string_field(delta, "thinking"@) {
                Some(thinking) => thinking,
                None => Seq::empty(),
            },
            None => Seq::empty(),
        }
    } else {
        Seq::empty()
    }
}

/// The thinking that events add.
pub open spec fn thought(events: Seq<SseEventV>) -> Seq<char>
    decreases events.len(),
{
    if events.len() == 0 {
        Seq::empty()
    } else {
        thought(events.drop_last()) + thought_of(events.last())
    }
}

/// The reasoning that an upstream event discloses: none where it is held back.
pub open spec fn disclosed(e: EventV) -> Seq<char> {
    match e {
        EventV::Reasoning(r) => match r.redacted {
            Some(redacted) => if redacted.len() > 0 {
                Seq::empty()
            } else {
                r.text
            },
            None => r.text,
        },
        _ => Seq::empty(),
    }
}

/// The reasoning that upstream events disclose.
pub open spec fn reasoning_of(events: Seq<EventV>) -> Seq<char>
    decreases events.len(),
{
    if events.len() == 0 {
        Seq::empty()
    } else {
        reasoning_of(events.drop_last()) + disclosed(events.last())
    }
}

pub proof fn lemma_thought_concat(a: Seq<SseEventV>, b: Seq<SseEventV>)
    ensures
        thought(a + b) == thought(a) + thought(b),
    decreases b.len(),
{
    if b.len() == 0 {
        assert(a + b =~= a);
        assert(thought(a) + thought(b) =~= thought(a));
    } else {
        lemma_thought_concat(a, b.drop_last());
        assert((a + b).drop_last() =~= a + b.drop_last());
        assert(thought(a) + thought(b.drop_last()) + thought_of(b.last()) =~= thought(a) + (
        thought(b.drop_last()) + thought_of(b.last())));
    }
}

pub proof fn lemma_thought_one(e: SseEventV)
    ensures
        thought(seq![e]) == thought_of(e),
{
    assert(seq![e].drop_last() =~= Seq::empty());
    assert(thought(Seq::empty()) + thought_of(e) =~= thought_of(e));
}

/// Only thinking deltas add thinking.
pub proof fn lemma_thought_of()
    ensures
        forall|index: int, text: Seq<char>| #[trigger]
            thought_of(thinking_delta_event(index, text)) == text,
        forall|index: int, text: Seq<char>| #[trigger]
            thought_of(text_delta_event(index, text)) == Seq::<char>::empty(),
        forall|index: int, text: Seq<char>| #[trigger]
            thought_of(input_delta_event(index, text)) == Seq::<char>::empty(),
        forall|index: int| #[trigger]
            thought_of(signature_delta_event(index)) == Seq::<char>::empty(),
        forall|index: int, block: JsonV| #[trigger]
            thought_of(start_event(index, block)) == Seq::<char>::empty(),
        forall|index: int| #[trigger] thought_of(stop_event(index)) == Seq::<char>::empty(),
        forall|e: SseEventV| e.event != "content_block_delta"@ ==> #[trigger] thought_of(e)
            == Seq::<char>::empty(),
{
    crate::protocol::lemma_event_names();
    reveal_strlit("type");
    reveal_strlit("index");
    reveal_strlit("delta");
    reveal_strlit("text");
    reveal_strlit("thinking");
    reveal_strlit("signature");
    reveal_strlit("partial_json");
    assert("type"@.len() == 4 && "text"@.len() == 4 && "partial_json"@.len() == 12);
    assert("thinking"@.len() == 8 && "signature"@.len() == 9);
}

proof fn lemma_closing_thinks_nothing(blocks: Seq<BlockV>, text_only: bool)
    ensures
        thought(closing_events(blocks, text_only)) == Seq::<char>::empty(),
    decreases blocks.len(),
{
    if blocks.len() > 0 {
        lemma_closing_thinks_nothing(blocks.drop_last(), text_only);
        lemma_thought_of();
        let before = closing_events(blocks.drop_last(), text_only);
        let stop = stop_event(blocks.last().index);
        assert(before.push(stop).drop_last() =~= before);
        assert(thought(before) + thought_of(stop) =~= Seq::empty());
    }
}

proof fn lemma_start_thinks_nothing(s: StateV, index: int, kind: Seq<char>, block: JsonV)
    ensures
        thought(block_start_step(s, index, kind, block_start_json(index, block)).1) == Seq::<
            char,
        >::empty(),
{
    lemma_thought_of();
    lemma_closing_thinks_nothing(s.blocks, true);
    let closing = crate::state::before_block(s, kind).1;
    let e = start_event(index, block);
    assert(closing.push(e).drop_last() =~= closing);
    assert(thought(closing) + thought_of(e) =~= Seq::empty());
}

pub proof fn lemma_open_thinks_nothing(s: StreamV, kind: Seq<char>, block: JsonV)
    ensures
        thought(open_block(s, kind, block).1) == Seq::<char>::empty(),
{
    let index = s.state.next_block_index;
    let numbered = StateV { next_block_index: index + 1, ..s.state };
    lemma_start_thinks_nothing(numbered, index, kind, block);
}

pub proof fn lemma_stop_thinks_nothing(s: StateV, index: int)
    ensures
        thought(opt_events(block_stop_step(s, index).1)) == Seq::<char>::empty(),
{
    lemma_thought_of();
    lemma_thought_one(stop_event(index));
}

pub proof fn lemma_text_thinks_nothing(s: StreamV, text: Seq<char>)
    ensures
        thought(text_step(s, text).1) == Seq::<char>::empty(),
{
    lemma_thought_of();
    let (s1, opening) = text_block_step(s);
    let fresh = StreamV { text_block_index: Some(s.state.next_block_index), ..s };
    lemma_open_thinks_nothing(fresh, "text"@, part_json("text"@, "text"@, ""@));
    match s1.text_block_index {
        Some(index) => {
            lemma_thought_one(text_delta_event(index, text));
            let delta = block_delta_step(
                s1.state,
                index,
                block_delta_json(index, part_json("text_delta"@, "text"@, text)),
            );
            lemma_thought_concat(opening, opt_events(delta));
            assert(thought(opt_events(delta)) =~= Seq::empty());
        },
        None => {
            lemma_thought_concat(opening, Seq::empty());
        },
    }
}

pub proof fn lemma_call_thinks_nothing(s: StreamV, call: CompletedV)
    ensures
        thought(call_step(s, call).1) == Seq::<char>::empty(),
{
    lemma_thought_of();
    let known = s.tool_block_indices.contains_key(call.id);
    let index = if known {
        s.tool_block_indices[call.id]
    } else {
        s.state.next_block_index
    };
    let state1 = if known {
        s.state
    } else {
        StateV { next_block_index: index + 1, ..s.state }
    };
    let block = tool_use_json(call.id, call.name, empty_object());
    lemma_start_thinks_nothing(state1, index, "tool_use"@, block);
    let (state2, e2) = block_start_step(
        state1,
        index,
        "tool_use"@,
        block_start_json(index, block),
    );
    let partial = printed(call.input);
    let delta = block_delta_step(
        state2,
        index,
        block_delta_json(index, part_json("input_json_delta"@, "partial_json"@, partial)),
    );
    let stop = block_stop_step(state2, index).1;
    lemma_thought_one(input_delta_event(index, partial));
    lemma_stop_thinks_nothing(state2, index);
    assert(thought(opt_events(delta)) =~= Seq::empty());
    lemma_thought_concat(e2, opt_events(delta));
    lemma_thought_concat(e2 + opt_events(delta), opt_events(stop));
    assert(call_step(s, call).1 == e2 + opt_events(delta) + opt_events(stop));
    assert(thought(call_step(s, call).1) =~= Seq::empty());
}

proof fn lemma_calls_think_nothing(s: StreamV, calls: Seq<CompletedV>)
    ensures
        thought(calls_step(s, calls).1) == Seq::<char>::empty(),
    decreases calls.len(),
{
    if calls.len() > 0 {
        lemma_calls_think_nothing(s, calls.drop_last());
        let (s1, e1) = calls_step(s, calls.drop_last());
        lemma_call_thinks_nothing(s1, calls.last());
        lemma_thought_concat(e1, call_step(s1, calls.last()).1);
        assert(thought(calls_step(s, calls).1) =~= Seq::empty());
    }
}

proof fn lemma_close_reasoning_thinks_nothing(s: StreamV)
    ensures
        thought(close_reasoning(s).1) == Seq::<char>::empty(),
{
    lemma_thought_of();
    reveal_strlit("");
    match s.thinking_block_index {
        Some(index) => {
            let a = thinking_delta_event(index, ""@);
            let b = signature_delta_event(index);
            lemma_thought_one(a);
            lemma_thought_one(b);
            lemma_thought_concat(seq![a], seq![b]);
            assert(seq![a] + seq![b] =~= seq![a, b]);
            assert(thought(seq![a, b]) =~= Seq::empty());
            lemma_stop_thinks_nothing(s.state, index);
            lemma_thought_concat(seq![a, b], opt_events(block_stop_step(s.state, index).1));
            assert(thought(close_reasoning(s).1) =~= Seq::empty());
        },
        None => {},
    }
}

proof fn lemma_close_text_thinks_nothing(s: StreamV)
    ensures
        thought(close_text(s).1) == Seq::<char>::empty(),
{
    match s.text_block_index {
        Some(index) => {
            lemma_stop_thinks_nothing(s.state, index);
        },
        None => {},
    }
}

/// Reasoning is thought as it is disclosed.
proof fn lemma_reasoning_is_thought(s: StreamV, r: ReasoningV)
    requires
        s.thinking_enabled,
        s.reasoning_block_open ==> s.thinking_block_index is Some,
    ensures
        thought(reasoning_step(s, r).1) == disclosed(EventV::Reasoning(r)),
{
    lemma_thought_of();
    match r.redacted {
        Some(redacted) => {
            lemma_close_reasoning_thinks_nothing(s);
            let (s1, e1) = close_reasoning(s);
            lemma_close_text_thinks_nothing(s1);
            let (s2, e2) = close_text(s1);
            let block = part_json("redacted_thinking"@, "data"@, redacted);
            lemma_open_thinks_nothing(s2, "redacted_thinking"@, block);
            let (s3, e3) = open_block(s2, "redacted_thinking"@, block);
            let index = s2.state.next_block_index;
            lemma_stop_thinks_nothing(s3.state, index);
            let e4 = opt_events(block_stop_step(s3.state, index).1);
            lemma_thought_concat(e1, e2);
            lemma_thought_concat(e1 + e2, e3);
            lemma_thought_concat(e1 + e2 + e3, e4);
            assert(thought(redacted_step(s, redacted).1) =~= Seq::empty());
        },
        None => {},
    }
    lemma_close_text_thinks_nothing(s);
    let (t1, d1) = close_text(s);
    let t2 = StreamV {
        reasoning_block_open: true,
        in_thinking_block: false,
        thinking_extracted: true,
        thinking_block_index: Some(t1.state.next_block_index),
        ..t1
    };
    let block = part_json("thinking"@, "thinking"@, ""@);
    lemma_open_thinks_nothing(t2, "thinking"@, block);
    lemma_thought_concat(d1, open_block(t2, "thinking"@, block).1);
    let (u, f1) = reasoning_block_step(s);
    assert(thought(f1) =~= Seq::empty());
    assert(u.thinking_block_index is Some);
    let index = u.thinking_block_index->0;
    lemma_thought_one(thinking_delta_event(index, r.text));
    lemma_thought_concat(f1, thinking_events(u, r.text));
    assert(thought(disclosed_step(s, r.text).1) =~= r.text);
}

/// Text without an opening tag is no thinking.
proof fn lemma_filtered_thinks_nothing(s: StreamV, text: Seq<char>)
    requires
        plain(s),
        sees_no_tag(s, text),
    ensures
        thought(filtered_step(s, text).1) == Seq::<char>::empty(),
{
    if text.len() > 0 {
        let s0 = StreamV {
            output_tokens: crate::tokens::capped(
                s.output_tokens + crate::tokens::capped(crate::tokens::estimate(text)),
            ),
            ..s
        };
        if !s0.thinking_enabled {
            lemma_text_thinks_nothing(s0, text);
        } else {
            let whole = s.thinking_buffer + text;
            let s1 = StreamV { thinking_buffer: whole, ..s0 };
            if !s1.thinking_extracted {
                lemma_text_thinks_nothing(s1, whole.take(safe_chars(whole, 10)));
            } else {
                let s2 = StreamV { thinking_buffer: Seq::empty(), ..s1 };
                lemma_text_thinks_nothing(s2, whole);
                let none = Seq::<SseEventV>::empty();
                assert(none + none + after_step(s1).1 =~= after_step(s1).1);
            }
        }
    }
}

/// One upstream event is thought as far as it discloses reasoning.
proof fn lemma_event_is_thought(s: StreamV, before: Seq<char>, e: EventV, whole: Seq<char>)
    requires
        plain(s),
        s.thinking_enabled,
        whole == before + held(s) + (match e {
            EventV::Content(content) => content,
            _ => Seq::empty(),
        }),
        only_mentions(whole),
        unmarked(s, before, whole),
    ensures
        thought(event_step(s, e).1) == disclosed(e),
{
    reveal(event_step);
    lemma_close_reasoning(s);
    lemma_close_reasoning_thinks_nothing(s);
    let (s0, e0) = close_reasoning(s);
    match e {
        EventV::Content(content) => {
            let text = s.filter.buffer + content;
            let n = (before.len() + s.thinking_buffer.len()) as int;
            lemma_only_mentions_skip(whole, n);
            assert(text =~= whole.skip(n));
            law_clean_text_is_kept(text);
            crate::xml_filter::lemma_scan_ok(text, false);
            let (out, filter) = scan(text, false);
            let s1 = StreamV { filter, ..s0 };
            let m = n + out.len();
            assert(whole =~= before + s.thinking_buffer + (out + filter.buffer));
            assert(whole.take(m) =~= before + s1.thinking_buffer + out);
            lemma_sees_no_tag_yet(s1, before, out, whole);
            lemma_filtered_thinks_nothing(s1, out);
            lemma_thought_concat(e0, filtered_step(s1, out).1);
            assert(thought(event_step(s, e).1) =~= Seq::empty());
        },
        EventV::ToolUse(t) => {
            let s1 = StreamV { state: StateV { has_tool_use: true, ..s0.state }, ..s0 };
            let (s2, e2) = before_call(s1);
            let s11 = StreamV { thinking_buffer: Seq::empty(), ..s1 };
            lemma_text_thinks_nothing(s11, s1.thinking_buffer);
            let none = Seq::<SseEventV>::empty();
            let flushed = text_step(s11, s1.thinking_buffer).1;
            assert(none + flushed =~= flushed);
            assert(thought(e2) =~= Seq::empty());
            let (pending, outcome) = push_step(s2.pending, t, s2.tool_name_map);
            let s3 = StreamV { pending, ..s2 };
            lemma_thought_concat(e0, e2);
            match outcome {
                PushV::Done(call) => {
                    lemma_call_thinks_nothing(s3, call);
                    let e4 = call_step(s3, call).1;
                    assert(event_step(s, e).1 == e0 + (e2 + e4));
                    assert(e0 + (e2 + e4) =~= e0 + e2 + e4);
                    lemma_thought_concat(e0 + e2, e4);
                },
                _ => {
                    assert(event_step(s, e).1 == e0 + e2);
                },
            }
            assert(thought(event_step(s, e).1) =~= Seq::empty());
        },
        EventV::Reasoning(r) => {
            lemma_reasoning_is_thought(s, r);
        },
        _ => {},
    }
}

proof fn lemma_events_are_thought(s: StreamV, events: Seq<EventV>)
    requires
        plain(s),
        s.thinking_enabled,
        held(s).len() == 0,
        kept_by_filter(events),
        marks_nothing(events),
    ensures
        thought(events_step(s, events).1) == reasoning_of(events),
    decreases events.len(),
{
    if events.len() > 0 {
        let front = events.drop_last();
        let whole = content_of(events);
        lemma_front(events);
        lemma_events_are_thought(s, front);
        lemma_events_are_said(s, front);
        let (s1, e1) = events_step(s, front);
        if occurs(whole, open_tag()) {
            assert(on_guard(s1, said(e1)));
        }
        lemma_event_is_thought(s1, said(e1), events.last(), whole);
        lemma_thought_concat(e1, event_step(s1, events.last()).1);
    }
}

pub proof fn lemma_end_thinks_nothing(s: StreamV)
    ensures
        thought(end_message(s).1) == Seq::<char>::empty(),
{
    lemma_thought_of();
    crate::protocol::lemma_event_names();
    lemma_closing_thinks_nothing(s.state.blocks, false);
    let usage = crate::stream_model::final_usage(s);
    let d = crate::sse::message_delta_event(crate::state::final_stop_reason(s.state), usage);
    let e = crate::sse::message_stop_event();
    let closing = closing_events(s.state.blocks, false);
    let delta = if s.state.message_delta_sent {
        Seq::empty()
    } else {
        seq![d]
    };
    let end = if s.state.message_ended {
        Seq::empty()
    } else {
        seq![e]
    };
    lemma_thought_one(d);
    lemma_thought_one(e);
    lemma_thought_concat(closing, delta);
    lemma_thought_concat(closing + delta, end);
    assert(thought(end_message(s).1) =~= Seq::empty());
}

proof fn lemma_end_well_thinks_nothing(s: StreamV)
    requires
        plain(s),
    ensures
        thought(end_well(s).1) == Seq::<char>::empty(),
{
    lemma_close_reasoning(s);
    lemma_close_reasoning_thinks_nothing(s);
    let (s1, e1) = close_reasoning(s);
    let (s2, e2) = flush_buffer(s1);
    let emptied = StreamV { thinking_buffer: Seq::empty(), ..s1 };
    lemma_text_thinks_nothing(emptied, s1.thinking_buffer);
    assert(thought(e2) =~= Seq::empty());
    let (s3, e3) = fill_text(s2);
    lemma_text_thinks_nothing(with_stop_reason(s2, "max_tokens"@), " "@);
    assert(thought(e3) =~= Seq::empty());
    lemma_end_thinks_nothing(s3);
    let e4 = end_message(s3).1;
    lemma_thought_concat(e1, e2);
    lemma_thought_concat(e1 + e2, e3);
    lemma_thought_concat(e1 + e2 + e3, e4);
    assert(thought(end_well(s).1) =~= Seq::empty());
}

proof fn lemma_finish_thinks_nothing(s: StreamV)
    requires
        plain(s),
        s.thinking_enabled,
        sees_no_tag(s, s.filter.buffer),
        finish_stream(s).0.tool_json_error is None,
    ensures
        thought(finish_stream(s).1) == Seq::<char>::empty(),
{
    lemma_calls_at_end(s);
    let (s1, e1) = flush_calls(s);
    let (pending, outcome) = finish_step(s.pending, s.tool_name_map);
    match outcome {
        FinishV::Done(calls) => {
            lemma_calls_think_nothing(StreamV { pending, ..s }, calls);
        },
        FinishV::Failed(e) => {},
    }
    assert(thought(e1) =~= Seq::empty());
    assert(held(s1) == held(s));
    law_held_tail_is_text(s1.filter);
    let quiet = StreamV { filter: FilterV { buffer: Seq::empty(), stripping: false }, ..s1 };
    assert(tag_prefix().take(0) =~= Seq::empty());
    assert(crate::stream_laws::in_order(quiet));
    assert(plain(quiet));
    assert(held(s1) =~= quiet.thinking_buffer + stripped(s1.filter.buffer));
    lemma_filtered_thinks_nothing(quiet, stripped(s1.filter.buffer));
    lemma_held_text_is_said(s1);
    let (s2, e2) = flush_filter(s1);
    lemma_end_well_thinks_nothing(s2);
    lemma_thought_concat(e1, e2);
    lemma_thought_concat(e1 + e2, end_well(s2).1);
    assert(thought(finish_stream(s).1) =~= Seq::empty());
}

/// A client that asked for thinking reads all of the reasoning that the upstream discloses, and
/// nothing else as thinking.
///
/// Answers in which a leaked tool call may stand are left out, and those in which the model
/// marks thinking of its own. So are streams that end because a tool call could not be used.
pub proof fn law_reasoning_is_delivered(s: StreamV, events: Seq<EventV>)
    requires
        unsent(s),
        s.thinking_enabled,
        s.thinking_buffer.len() == 0,
        !s.strip_text_after_thinking_boundary,
        s.filter == (FilterV { buffer: Seq::empty(), stripping: false }),
        kept_by_filter(events),
        marks_nothing(events),
        last_state(s, events).tool_json_error is None,
    ensures
        thought(transcript(s, events)) == reasoning_of(events),
{
    let whole = content_of(events);
    assert(tag_prefix().take(0) =~= Seq::empty());
    lemma_start_of_plain_stream(s);
    lemma_thought_of();
    crate::protocol::lemma_event_names();
    let (s1, e1) = initial_step(s);
    let start = crate::state::message_start_step(s.state, crate::stream_model::start_payload(s)).1;
    lemma_thought_one(start->0);
    assert(thought(e1) =~= Seq::empty());
    lemma_events_are_said(s1, events);
    lemma_events_are_thought(s1, events);
    let (s2, e2) = events_step(s1, events);
    assert(said(e2) + s2.thinking_buffer + s2.filter.buffer =~= whole);
    lemma_sees_no_tag(s2, said(e2), s2.filter.buffer);
    lemma_finish_thinks_nothing(s2);
    let e3 = finish_stream(s2).1;
    lemma_thought_concat(e1, e2);
    lemma_thought_concat(e1 + e2, e3);
    assert(thought(e1) + thought(e2) + thought(e3) =~= reasoning_of(events));
}

/// The upstream's own signature of its reasoning reaches no client: whatever it is, a stream
/// goes on alike, and so does a response that is answered as a whole.
pub proof fn law_upstream_signature_stays_hidden(
    s: StreamV,
    g: GatheredV,
    names: Map<Seq<char>, String>,
    a: ReasoningContentEvent,
    b: ReasoningContentEvent,
)
    requires
        a.text@ == b.text@,
        opt_text(a.redacted_content) == opt_text(b.redacted_content),
    ensures
        event_step(s, Event::ReasoningContent(a).view()) == event_step(
            s,
            Event::ReasoningContent(b).view(),
        ),
        gather_step(g, Event::ReasoningContent(a).view(), names) == gather_step(
            g,
            Event::ReasoningContent(b).view(),
            names,
        ),
{
}

} // verus!
