//! A blank stands in for the text of an answer only where there is no text.

use crate::delivery_laws::{lemma_text_of, said, text_of};
use crate::events::EventV;
use crate::json::{empty_object, printed, JsonV};
use crate::sse::{part_json, start_event, stop_event, tool_use_json, SseEventV};
use crate::state::{closing_events, BlockV, StateV};
use crate::stream_model::{after_step, assistant_step, before_call, call_step, calls_step};
use crate::stream_model::{close_at_end, close_reasoning, close_text, close_thinking};
use crate::stream_model::{close_unfinished, content_step, event_step, events_step, filtered_step};
use crate::stream_model::{flush_buffer, flush_calls, flush_filter, initial_step, inside_step};
use crate::stream_model::{leave_thinking, open_block, reasoning_block_step, reasoning_step};
use crate::stream_model::{search_step, strip_step, text_step, thinking_events, tool_step, StreamV};
use crate::tool_json::{finish_step, push_step, CompletedV, FinishV, PushV, ToolUseV};
use vstd::prelude::*;

verus! {

/// Events that add no text.
pub open spec fn quiet(events: Seq<SseEventV>) -> bool {
    forall|i: int| 0 <= i < events.len() ==> text_of(#[trigger] events[i]).len() == 0
}

/// As long as a stream has no text block it has sent no text.
pub open spec fn speaks_in_text(s: StreamV, t: StreamV, events: Seq<SseEventV>) -> bool {
    t.text_block_index is None ==> s.text_block_index is None && quiet(events)
}

pub proof fn lemma_quiet(events: Seq<SseEventV>)
    requires
        quiet(events),
    ensures
        said(events) == Seq::<char>::empty(),
    decreases events.len(),
{
    if events.len() > 0 {
        let front = events.drop_last();
        assert forall|i: int| 0 <= i < front.len() implies text_of(#[trigger] front[i]).len()
            == 0 by {
            assert(front[i] == events[i]);
        }
        lemma_quiet(front);
        assert(text_of(events[events.len() - 1]).len() == 0);
        assert(said(events) =~= Seq::empty());
    }
}

pub proof fn lemma_speaks_on(
    s: StreamV,
    t: StreamV,
    u: StreamV,
    a: Seq<SseEventV>,
    b: Seq<SseEventV>,
)
    requires
        speaks_in_text(s, t, a),
        speaks_in_text(t, u, b),
    ensures
        speaks_in_text(s, u, a + b),
{
}

proof fn lemma_closing(blocks: Seq<BlockV>, text_only: bool)
    ensures
        quiet(closing_events(blocks, text_only)),
    decreases blocks.len(),
{
    if blocks.len() > 0 {
        lemma_closing(blocks.drop_last(), text_only);
        lemma_text_of();
    }
}

proof fn lemma_open(s: StreamV, kind: Seq<char>, block: JsonV)
    ensures
        quiet(open_block(s, kind, block).1),
        open_block(s, kind, block).0.text_block_index == s.text_block_index,
{
    lemma_text_of();
    lemma_closing(s.state.blocks, true);
}

proof fn lemma_thinking(s: StreamV, thinking: Seq<char>)
    ensures
        quiet(thinking_events(s, thinking)),
        speaks_in_text(s, close_thinking(s).0, close_thinking(s).1),
        speaks_in_text(s, close_reasoning(s).0, close_reasoning(s).1),
        speaks_in_text(s, close_unfinished(s).0, close_unfinished(s).1),
        speaks_in_text(s, close_text(s).0, close_text(s).1),
{
    lemma_text_of();
    if let Some(index) = s.thinking_block_index {
        assert(text_of(crate::sse::thinking_delta_event(index, thinking)).len() == 0);
        assert(text_of(crate::sse::thinking_delta_event(index, ""@)).len() == 0);
        assert(text_of(crate::sse::signature_delta_event(index)).len() == 0);
        assert(text_of(stop_event(index)).len() == 0);
    }
    if let Some(index) = s.text_block_index {
        assert(text_of(stop_event(index)).len() == 0);
    }
}

proof fn lemma_text(s: StreamV, text: Seq<char>)
    ensures
        text_step(s, text).0.text_block_index is Some,
{
}

proof fn lemma_search(s: StreamV)
    ensures
        speaks_in_text(s, search_step(s).0, search_step(s).1),
{
    if let Some(start) = crate::thinking::first_real(
        s.thinking_buffer,
        crate::thinking::open_tag(),
        0,
    ) {
        let before = s.thinking_buffer.take(start);
        lemma_text(s, before);
        let s1 = if crate::text::blank(before) {
            s
        } else {
            text_step(s, before).0
        };
        lemma_open(
            StreamV {
                in_thinking_block: true,
                strip_thinking_leading_newline: true,
                thinking_buffer: s1.thinking_buffer.skip(start + 10),
                thinking_block_index: Some(s1.state.next_block_index),
                ..s1
            },
            "thinking"@,
            part_json("thinking"@, "thinking"@, ""@),
        );
    } else {
        let n = crate::stream_model::safe_chars(s.thinking_buffer, 10);
        lemma_text(s, s.thinking_buffer.take(n));
    }
}

proof fn lemma_leave(s: StreamV, end: int)
    ensures
        speaks_in_text(s, leave_thinking(s, end).0, leave_thinking(s, end).1),
{
    lemma_thinking(s, s.thinking_buffer.take(end));
    lemma_thinking(
        StreamV {
            in_thinking_block: false,
            thinking_extracted: true,
            strip_text_after_thinking_boundary: true,
            ..s
        },
        Seq::empty(),
    );
}

proof fn lemma_inside(s: StreamV)
    ensures
        speaks_in_text(s, inside_step(s).0, inside_step(s).1),
{
    let s0 = strip_step(s);
    match crate::thinking::find_end(s0.thinking_buffer) {
        Some((end, resume)) => {
            lemma_leave(s0, end);
        },
        None => {
            let n = crate::stream_model::safe_chars(s0.thinking_buffer, 11);
            lemma_thinking(s0, s0.thinking_buffer.take(n));
        },
    }
}

proof fn lemma_after(s: StreamV)
    ensures
        speaks_in_text(s, after_step(s).0, after_step(s).1),
{
    let text = crate::stream_model::buffered_text(s);
    lemma_text(
        StreamV {
            thinking_buffer: Seq::empty(),
            strip_text_after_thinking_boundary: s.strip_text_after_thinking_boundary && text.len()
                == 0,
            ..s
        },
        text,
    );
}

proof fn lemma_content(s: StreamV, content: Seq<char>)
    ensures
        speaks_in_text(s, content_step(s, content).0, content_step(s, content).1),
{
    let s0 = StreamV { thinking_buffer: s.thinking_buffer + content, ..s };
    let searching = !s0.in_thinking_block && !s0.thinking_extracted;
    lemma_search(s0);
    let (s1, e1) = if searching {
        search_step(s0)
    } else {
        (s0, Seq::empty())
    };
    lemma_inside(s1);
    let (s2, e2) = if s1.in_thinking_block {
        inside_step(s1)
    } else {
        (s1, Seq::empty())
    };
    lemma_after(s2);
    lemma_speaks_on(s, s1, s2, e1, e2);
    lemma_speaks_on(s, s2, after_step(s2).0, e1 + e2, after_step(s2).1);
}

proof fn lemma_filtered(s: StreamV, text: Seq<char>)
    ensures
        speaks_in_text(s, filtered_step(s, text).0, filtered_step(s, text).1),
{
    let s0 = StreamV {
        output_tokens: crate::tokens::capped(
            s.output_tokens + crate::tokens::capped(crate::tokens::estimate(text)),
        ),
        ..s
    };
    lemma_content(s0, text);
    lemma_text(s0, text);
}

proof fn lemma_close_at_end(s: StreamV)
    ensures
        speaks_in_text(s, close_at_end(s).0, close_at_end(s).1),
{
    if let Some(end) = crate::thinking::first_last_close(s.thinking_buffer, 0) {
        lemma_leave(s, end);
    }
}

proof fn lemma_before_call(s: StreamV)
    ensures
        speaks_in_text(s, before_call(s).0, before_call(s).1),
{
    lemma_close_at_end(s);
    let s1 = if s.thinking_enabled && s.in_thinking_block {
        close_at_end(s).0
    } else {
        s
    };
    lemma_text(StreamV { thinking_buffer: Seq::empty(), ..s1 }, s1.thinking_buffer);
}

proof fn lemma_call(s: StreamV, call: CompletedV)
    ensures
        speaks_in_text(s, call_step(s, call).0, call_step(s, call).1),
{
    lemma_text_of();
    lemma_closing(s.state.blocks, true);
    let index = if s.tool_block_indices.contains_key(call.id) {
        s.tool_block_indices[call.id]
    } else {
        s.state.next_block_index
    };
    let partial = printed(call.input);
    assert(text_of(crate::sse::input_delta_event(index, partial)).len() == 0);
    assert(text_of(stop_event(index)).len() == 0);
    assert(text_of(start_event(index, tool_use_json(call.id, call.name, empty_object()))).len()
        == 0);
}

proof fn lemma_calls(s: StreamV, calls: Seq<CompletedV>)
    ensures
        speaks_in_text(s, calls_step(s, calls).0, calls_step(s, calls).1),
    decreases calls.len(),
{
    if calls.len() > 0 {
        lemma_calls(s, calls.drop_last());
        let (s1, e1) = calls_step(s, calls.drop_last());
        lemma_call(s1, calls.last());
        let (s2, e2) = call_step(s1, calls.last());
        lemma_speaks_on(s, s1, s2, e1, e2);
    }
}

proof fn lemma_tool(s: StreamV, t: ToolUseV)
    ensures
        speaks_in_text(s, tool_step(s, t).0, tool_step(s, t).1),
{
    let s0 = StreamV { state: StateV { has_tool_use: true, ..s.state }, ..s };
    lemma_before_call(s0);
    let (s1, e1) = before_call(s0);
    let (pending, outcome) = push_step(s1.pending, t, s1.tool_name_map);
    let s2 = StreamV { pending, ..s1 };
    if let PushV::Done(call) = outcome {
        lemma_call(s2, call);
        let (s3, e3) = call_step(s2, call);
        lemma_speaks_on(s0, s2, s3, e1, e3);
    }
}

proof fn lemma_reasoning(s: StreamV, r: crate::events::ReasoningV)
    ensures
        speaks_in_text(s, reasoning_step(s, r).0, reasoning_step(s, r).1),
{
    lemma_text_of();
    lemma_thinking(s, r.text);
    let held = match r.redacted {
        Some(data) => data,
        None => Seq::empty(),
    };
    if held.len() > 0 {
        let (s1, e1) = close_reasoning(s);
        lemma_thinking(s1, Seq::empty());
        let (s2, e2) = close_text(s1);
        let block = part_json("redacted_thinking"@, "data"@, held);
        lemma_open(s2, "redacted_thinking"@, block);
        assert(text_of(stop_event(s2.state.next_block_index)).len() == 0);
    } else {
        let s1 = close_text(s).0;
        let s2 = StreamV {
            reasoning_block_open: true,
            in_thinking_block: false,
            thinking_extracted: true,
            ..s1
        };
        lemma_open(
            StreamV { thinking_block_index: Some(s2.state.next_block_index), ..s2 },
            "thinking"@,
            part_json("thinking"@, "thinking"@, ""@),
        );
        lemma_thinking(reasoning_block_step(s).0, r.text);
    }
}

proof fn lemma_event(s: StreamV, e: EventV)
    ensures
        speaks_in_text(s, event_step(s, e).0, event_step(s, e).1),
{
    reveal(event_step);
    lemma_thinking(s, Seq::empty());
    let (s1, e1) = close_reasoning(s);
    match e {
        EventV::Content(content) => {
            let (text, filter) = crate::xml_filter::scan(
                s1.filter.buffer + content,
                s1.filter.stripping,
            );
            lemma_filtered(StreamV { filter, ..s1 }, text);
            let (s2, e2) = assistant_step(s1, content);
            lemma_speaks_on(s, s1, s2, e1, e2);
        },
        EventV::ToolUse(t) => {
            lemma_tool(s1, t);
            let (s2, e2) = tool_step(s1, t);
            lemma_speaks_on(s, s1, s2, e1, e2);
        },
        EventV::Reasoning(r) => {
            lemma_reasoning(s, r);
        },
        _ => {},
    }
}

pub proof fn lemma_events_speak(s: StreamV, events: Seq<EventV>)
    ensures
        speaks_in_text(s, events_step(s, events).0, events_step(s, events).1),
    decreases events.len(),
{
    if events.len() > 0 {
        lemma_events_speak(s, events.drop_last());
        let (s1, e1) = events_step(s, events.drop_last());
        lemma_event(s1, events.last());
        let (s2, e2) = event_step(s1, events.last());
        lemma_speaks_on(s, s1, s2, e1, e2);
    }
}

/// Up to the point where a blank may have to stand in, the end of a stream speaks in text blocks.
pub proof fn lemma_end_speaks(s: StreamV)
    ensures
        speaks_in_text(s, flush_calls(s).0, flush_calls(s).1),
        speaks_in_text(s, flush_filter(s).0, flush_filter(s).1),
        speaks_in_text(s, close_reasoning(s).0, close_reasoning(s).1),
        speaks_in_text(s, flush_buffer(s).0, flush_buffer(s).1),
{
    let (pending, outcome) = finish_step(s.pending, s.tool_name_map);
    if let FinishV::Done(calls) = outcome {
        lemma_calls(StreamV { pending, ..s }, calls);
    }
    lemma_filtered(
        StreamV {
            filter: crate::xml_filter::FilterV { buffer: Seq::empty(), stripping: false },
            ..s
        },
        crate::xml_filter::stripped(s.filter.buffer),
    );
    lemma_thinking(s, s.thinking_buffer);
    lemma_close_at_end(s);
    lemma_after(s);
}

pub proof fn lemma_start_speaks(s: StreamV)
    requires
        s.text_block_index is None,
    ensures
        speaks_in_text(s, initial_step(s).0, initial_step(s).1),
{
    lemma_text_of();
    let (state, start) = crate::state::message_start_step(
        s.state,
        crate::stream_model::start_payload(s),
    );
    if let Some(e) = start {
        assert(text_of(e).len() == 0);
    }
}

} // verus!
