//! Every event of a stream has the shape that clients expect of it.

use crate::events::EventV;
use crate::json::{empty_object, field, printed, string_field, JsonV};
use crate::sse::{delta_event, error_event, message_delta_event, message_stop_event, part_json};
use crate::sse::{start_event, stop_event, tool_use_json, SseEventV};
use crate::state::{closing_events, BlockV, StateV};
use crate::stream_model::{after_step, before_call, call_step, calls_step, close_at_end};
use crate::stream_model::{close_reasoning, close_text, close_thinking, close_unfinished};
use crate::stream_model::{end_message, event_step, events_step, fill_text, filtered_step};
use crate::stream_model::{finish_stream, flush_buffer, flush_calls, flush_filter, initial_step};
use crate::stream_model::{inside_step, leave_thinking, open_block, reasoning_block_step};
use crate::stream_model::{reasoning_step, search_step, strip_step, text_block_step, text_step};
use crate::stream_model::{thinking_events, tool_step, transcript, StreamV};
use crate::tool_json::{finish_step, push_step, CompletedV, FinishV, PushV, ToolUseV};
use vstd::prelude::*;

verus! {

/// The block that an event starts is one of the four kinds, and starts empty but for what cannot
/// be added later: a text without text, thinking without thinking, a tool call with its id and its
/// name and without arguments, or reasoning that is held back.
pub open spec fn starts_empty(block: JsonV) -> bool {
    let kind = string_field(block, "type"@);
    ||| kind == Some("text"@) && string_field(block, "text"@) == Some(Seq::<char>::empty())
    ||| kind == Some("thinking"@) && string_field(block, "thinking"@) == Some(
        Seq::<char>::empty(),
    )
    ||| kind == Some("redacted_thinking"@) && string_field(block, "data"@) is Some
    ||| kind == Some("tool_use"@) && string_field(block, "id"@) is Some && string_field(
        block,
        "name"@,
    ) is Some && field(block, "input"@) == Some(JsonV::Object(Map::empty()))
}

/// What an event adds to a block says what it is: text, thinking, a signature or arguments.
pub open spec fn says_what_it_adds(delta: JsonV) -> bool {
    let kind = string_field(delta, "type"@);
    ||| kind == Some("text_delta"@) && string_field(delta, "text"@) is Some
    ||| kind == Some("thinking_delta"@) && string_field(delta, "thinking"@) is Some
    ||| kind == Some("signature_delta"@) && string_field(delta, "signature"@) == Some(
        "kiro-rs-thinking-signature"@,
    )
    ||| kind == Some("input_json_delta"@) && string_field(delta, "partial_json"@) is Some
}

/// An event that says which block it is about.
pub open spec fn names_its_block(e: SseEventV) -> bool {
    match field(e.data, "index"@) {
        Some(JsonV::Int(_)) => true,
        _ => false,
    }
}

/// An event whose data names it, and which holds what its name promises.
pub open spec fn shaped(e: SseEventV) -> bool {
    &&& string_field(e.data, "type"@) == Some(e.event)
    &&& e.event == "content_block_start"@ ==> names_its_block(e) && (match field(
        e.data,
        "content_block"@,
    ) {
        Some(block) => starts_empty(block),
        None => false,
    })
    &&& e.event == "content_block_delta"@ ==> names_its_block(e) && (match field(
        e.data,
        "delta"@,
    ) {
        Some(delta) => says_what_it_adds(delta),
        None => false,
    })
    &&& e.event == "content_block_stop"@ ==> names_its_block(e)
    &&& e.event == "message_start"@ || e.event == "content_block_start"@ || e.event
        == "content_block_delta"@ || e.event == "content_block_stop"@ || e.event
        == "message_delta"@ || e.event == "message_stop"@ || e.event == "error"@
}

/// Events that all have their shape.
pub open spec fn all_shaped(events: Seq<SseEventV>) -> bool {
    forall|i: int| 0 <= i < events.len() ==> shaped(#[trigger] events[i])
}

proof fn lemma_words()
    ensures
        "content_block_start"@ != "content_block_delta"@,
        "content_block_start"@ != "content_block_stop"@,
        "content_block_delta"@ != "content_block_stop"@,
        "message_start"@ != "content_block_start"@ && "message_start"@ != "content_block_delta"@
            && "message_start"@ != "content_block_stop"@,
        "message_delta"@ != "content_block_start"@ && "message_delta"@ != "content_block_delta"@
            && "message_delta"@ != "content_block_stop"@,
        "message_stop"@ != "content_block_start"@ && "message_stop"@ != "content_block_delta"@
            && "message_stop"@ != "content_block_stop"@,
        "error"@ != "content_block_start"@ && "error"@ != "content_block_delta"@ && "error"@
            != "content_block_stop"@,
        ""@ == Seq::<char>::empty(),
{
    reveal_strlit("content_block_start");
    reveal_strlit("content_block_delta");
    reveal_strlit("content_block_stop");
    reveal_strlit("message_start");
    reveal_strlit("message_delta");
    reveal_strlit("message_stop");
    reveal_strlit("error");
    reveal_strlit("");
    assert("content_block_start"@.len() == 19 && "content_block_delta"@.len() == 19
        && "content_block_stop"@.len() == 18 && "message_start"@.len() == 13
        && "message_delta"@.len() == 13 && "message_stop"@.len() == 12 && "error"@.len() == 5);
    assert("content_block_start"@[14] == 's' && "content_block_delta"@[14] == 'd');
    assert(""@ =~= Seq::<char>::empty());
}

proof fn lemma_shapes()
    ensures
        forall|index: int|
            shaped(#[trigger] start_event(index, part_json("text"@, "text"@, ""@))),
        forall|index: int|
            shaped(#[trigger] start_event(index, part_json("thinking"@, "thinking"@, ""@))),
        forall|index: int, data: Seq<char>|
            shaped(#[trigger] start_event(index, part_json("redacted_thinking"@, "data"@, data))),
        forall|index: int, id: Seq<char>, name: Seq<char>|
            shaped(#[trigger] start_event(index, tool_use_json(id, name, empty_object()))),
        forall|index: int, text: Seq<char>|
            shaped(#[trigger] delta_event(index, part_json("text_delta"@, "text"@, text))),
        forall|index: int, text: Seq<char>|
            shaped(#[trigger] delta_event(index, part_json("thinking_delta"@, "thinking"@, text))),
        forall|index: int| shaped(#[trigger] crate::sse::signature_delta_event(index)),
        forall|index: int, text: Seq<char>|
            shaped(
                #[trigger] delta_event(
                    index,
                    part_json("input_json_delta"@, "partial_json"@, text),
                ),
            ),
        forall|index: int| shaped(#[trigger] stop_event(index)),
{
    lemma_words();
    reveal_strlit("type");
    reveal_strlit("index");
    reveal_strlit("delta");
    reveal_strlit("content_block");
    reveal_strlit("text");
    reveal_strlit("thinking");
    reveal_strlit("signature");
    reveal_strlit("data");
    reveal_strlit("partial_json");
    reveal_strlit("id");
    reveal_strlit("name");
    reveal_strlit("input");
    assert("type"@.len() == 4 && "index"@.len() == 5 && "delta"@.len() == 5
        && "content_block"@.len() == 13 && "text"@.len() == 4 && "thinking"@.len() == 8
        && "signature"@.len() == 9 && "data"@.len() == 4 && "partial_json"@.len() == 12
        && "id"@.len() == 2 && "name"@.len() == 4 && "input"@.len() == 5);
    assert("type"@[1] == 'y' && "text"@[1] == 'e' && "data"@[0] == 'd' && "name"@[0] == 'n'
        && "type"@[0] == 't' && "text"@[0] == 't' && "index"@[0] == 'i' && "delta"@[0] == 'd');
}

proof fn lemma_closing(blocks: Seq<BlockV>, text_only: bool)
    ensures
        all_shaped(closing_events(blocks, text_only)),
    decreases blocks.len(),
{
    if blocks.len() > 0 {
        lemma_closing(blocks.drop_last(), text_only);
        lemma_shapes();
    }
}

proof fn lemma_open(s: StreamV, kind: Seq<char>, block: JsonV)
    requires
        shaped(start_event(s.state.next_block_index, block)),
    ensures
        all_shaped(open_block(s, kind, block).1),
{
    lemma_closing(s.state.blocks, true);
    let e = start_event(s.state.next_block_index, block);
    assert(shaped(e));
}

proof fn lemma_text(s: StreamV, text: Seq<char>)
    ensures
        all_shaped(text_step(s, text).1),
{
    lemma_shapes();
    let block = part_json("text"@, "text"@, ""@);
    assert(shaped(start_event(s.state.next_block_index, block)));
    lemma_open(
        StreamV { text_block_index: Some(s.state.next_block_index), ..s },
        "text"@,
        block,
    );
    let s1 = text_block_step(s).0;
    if let Some(index) = s1.text_block_index {
        assert(shaped(delta_event(index, part_json("text_delta"@, "text"@, text))));
    }
}

proof fn lemma_open_thinking(s: StreamV)
    ensures
        all_shaped(open_block(s, "thinking"@, part_json("thinking"@, "thinking"@, ""@)).1),
{
    lemma_shapes();
    let block = part_json("thinking"@, "thinking"@, ""@);
    assert(shaped(start_event(s.state.next_block_index, block)));
    lemma_open(s, "thinking"@, block);
}

proof fn lemma_thinking(s: StreamV, thinking: Seq<char>)
    ensures
        all_shaped(thinking_events(s, thinking)),
        all_shaped(close_thinking(s).1),
        all_shaped(close_reasoning(s).1),
        all_shaped(close_unfinished(s).1),
        all_shaped(close_text(s).1),
{
    lemma_shapes();
    if let Some(index) = s.thinking_block_index {
        assert(shaped(delta_event(index, part_json("thinking_delta"@, "thinking"@, thinking))));
        assert(shaped(delta_event(index, part_json("thinking_delta"@, "thinking"@, ""@))));
        assert(shaped(crate::sse::signature_delta_event(index)));
        assert(shaped(stop_event(index)));
    }
    if let Some(index) = s.text_block_index {
        assert(shaped(stop_event(index)));
    }
}

proof fn lemma_search(s: StreamV)
    ensures
        all_shaped(search_step(s).1),
{
    if let Some(start) = crate::thinking::first_real(
        s.thinking_buffer,
        crate::thinking::open_tag(),
        0,
    ) {
        let before = s.thinking_buffer.take(start);
        lemma_text(s, before);
        let s1 = if crate::text::blank(before) {
            s
        } else {
            text_step(s, before).0
        };
        lemma_open_thinking(
            StreamV {
                in_thinking_block: true,
                strip_thinking_leading_newline: true,
                thinking_buffer: s1.thinking_buffer.skip(start + 10),
                thinking_block_index: Some(s1.state.next_block_index),
                ..s1
            },
        );
    } else {
        let n = crate::stream_model::safe_chars(s.thinking_buffer, 10);
        lemma_text(s, s.thinking_buffer.take(n));
    }
}

proof fn lemma_leave(s: StreamV, end: int)
    ensures
        all_shaped(leave_thinking(s, end).1),
{
    lemma_thinking(s, s.thinking_buffer.take(end));
    lemma_thinking(
        StreamV {
            in_thinking_block: false,
            thinking_extracted: true,
            strip_text_after_thinking_boundary: true,
            ..s
        },
        Seq::empty(),
    );
}

proof fn lemma_inside(s: StreamV)
    ensures
        all_shaped(inside_step(s).1),
{
    let s0 = strip_step(s);
    match crate::thinking::find_end(s0.thinking_buffer) {
        Some((end, resume)) => {
            lemma_leave(s0, end);
        },
        None => {
            let n = crate::stream_model::safe_chars(s0.thinking_buffer, 11);
            lemma_thinking(s0, s0.thinking_buffer.take(n));
        },
    }
}

proof fn lemma_after(s: StreamV)
    ensures
        all_shaped(after_step(s).1),
{
    let text = crate::stream_model::buffered_text(s);
    lemma_text(
        StreamV {
            thinking_buffer: Seq::empty(),
            strip_text_after_thinking_boundary: s.strip_text_after_thinking_boundary && text.len()
                == 0,
            ..s
        },
        text,
    );
}

proof fn lemma_filtered(s: StreamV, text: Seq<char>)
    ensures
        all_shaped(filtered_step(s, text).1),
{
    let s0 = StreamV {
        output_tokens: crate::tokens::capped(
            s.output_tokens + crate::tokens::capped(crate::tokens::estimate(text)),
        ),
        ..s
    };
    lemma_text(s0, text);
    let s1 = StreamV { thinking_buffer: s0.thinking_buffer + text, ..s0 };
    let searching = !s1.in_thinking_block && !s1.thinking_extracted;
    lemma_search(s1);
    let s2 = if searching {
        search_step(s1).0
    } else {
        s1
    };
    lemma_inside(s2);
    let s3 = if s2.in_thinking_block {
        inside_step(s2).0
    } else {
        s2
    };
    lemma_after(s3);
}

proof fn lemma_close_at_end(s: StreamV)
    ensures
        all_shaped(close_at_end(s).1),
{
    if let Some(end) = crate::thinking::first_last_close(s.thinking_buffer, 0) {
        lemma_leave(s, end);
    }
}

proof fn lemma_call(s: StreamV, call: CompletedV)
    ensures
        all_shaped(call_step(s, call).1),
{
    lemma_shapes();
    lemma_closing(s.state.blocks, true);
    let index = if s.tool_block_indices.contains_key(call.id) {
        s.tool_block_indices[call.id]
    } else {
        s.state.next_block_index
    };
    let partial = printed(call.input);
    assert(shaped(delta_event(index, part_json("input_json_delta"@, "partial_json"@, partial))));
    assert(shaped(stop_event(index)));
    assert(shaped(start_event(index, tool_use_json(call.id, call.name, empty_object()))));
}

proof fn lemma_calls(s: StreamV, calls: Seq<CompletedV>)
    ensures
        all_shaped(calls_step(s, calls).1),
    decreases calls.len(),
{
    if calls.len() > 0 {
        lemma_calls(s, calls.drop_last());
        lemma_call(calls_step(s, calls.drop_last()).0, calls.last());
    }
}

proof fn lemma_tool(s: StreamV, t: ToolUseV)
    ensures
        all_shaped(tool_step(s, t).1),
{
    let s0 = StreamV { state: StateV { has_tool_use: true, ..s.state }, ..s };
    lemma_close_at_end(s0);
    let held = if s0.thinking_enabled && s0.in_thinking_block {
        close_at_end(s0).0
    } else {
        s0
    };
    lemma_text(StreamV { thinking_buffer: Seq::empty(), ..held }, held.thinking_buffer);
    let s1 = before_call(s0).0;
    let (pending, outcome) = push_step(s1.pending, t, s1.tool_name_map);
    if let PushV::Done(call) = outcome {
        lemma_call(StreamV { pending, ..s1 }, call);
    }
}

proof fn lemma_reasoning(s: StreamV, r: crate::events::ReasoningV)
    ensures
        all_shaped(reasoning_step(s, r).1),
{
    lemma_shapes();
    lemma_thinking(s, r.text);
    let held = match r.redacted {
        Some(data) => data,
        None => Seq::empty(),
    };
    if held.len() > 0 {
        let s1 = close_reasoning(s).0;
        lemma_thinking(s1, Seq::empty());
        let s2 = close_text(s1).0;
        let block = part_json("redacted_thinking"@, "data"@, held);
        assert(shaped(start_event(s2.state.next_block_index, block)));
        lemma_open(s2, "redacted_thinking"@, block);
        assert(shaped(stop_event(s2.state.next_block_index)));
    } else {
        let s1 = close_text(s).0;
        let s2 = StreamV {
            reasoning_block_open: true,
            in_thinking_block: false,
            thinking_extracted: true,
            ..s1
        };
        lemma_open_thinking(
            StreamV { thinking_block_index: Some(s2.state.next_block_index), ..s2 },
        );
        lemma_thinking(reasoning_block_step(s).0, r.text);
    }
}

proof fn lemma_events(s: StreamV, events: Seq<EventV>)
    ensures
        all_shaped(events_step(s, events).1),
    decreases events.len(),
{
    if events.len() > 0 {
        lemma_events(s, events.drop_last());
        let t = events_step(s, events.drop_last()).0;
        reveal(event_step);
        lemma_thinking(t, Seq::empty());
        let s1 = close_reasoning(t).0;
        match events.last() {
            EventV::Content(content) => {
                let (text, filter) = crate::xml_filter::scan(
                    s1.filter.buffer + content,
                    s1.filter.stripping,
                );
                lemma_filtered(StreamV { filter, ..s1 }, text);
            },
            EventV::ToolUse(u) => {
                lemma_tool(s1, u);
            },
            EventV::Reasoning(r) => {
                lemma_reasoning(t, r);
            },
            _ => {},
        }
    }
}

proof fn lemma_end(s: StreamV)
    ensures
        all_shaped(end_message(s).1),
{
    lemma_words();
    lemma_closing(s.state.blocks, false);
    let usage = crate::stream_model::final_usage(s);
    let reason = crate::state::final_stop_reason(s.state);
    reveal_strlit("type");
    reveal_strlit("delta");
    reveal_strlit("usage");
    assert("type"@.len() == 4 && "delta"@.len() == 5 && "usage"@.len() == 5);
    assert(shaped(message_delta_event(reason, usage)));
    assert(shaped(message_stop_event()));
}

proof fn lemma_finish(s: StreamV)
    ensures
        all_shaped(finish_stream(s).1),
{
    let (pending, outcome) = finish_step(s.pending, s.tool_name_map);
    if let FinishV::Done(calls) = outcome {
        lemma_calls(StreamV { pending, ..s }, calls);
    }
    let s1 = flush_calls(s).0;
    lemma_filtered(
        StreamV {
            filter: crate::xml_filter::FilterV { buffer: Seq::empty(), stripping: false },
            ..s1
        },
        crate::xml_filter::stripped(s1.filter.buffer),
    );
    let s2 = flush_filter(s1).0;
    lemma_thinking(s2, Seq::empty());
    let s3 = close_reasoning(s2).0;
    match s2.tool_json_error {
        Some(e) => {
            lemma_thinking(s3, Seq::empty());
            lemma_end(close_unfinished(s3).0);
            lemma_words();
            reveal_strlit("type");
            reveal_strlit("error");
            assert("type"@.len() == 4 && "error"@.len() == 5);
            assert(shaped(
                error_event("upstream_tool_json_error"@, crate::tool_json::error_text(e)),
            ));
        },
        None => {
            lemma_close_at_end(s3);
            lemma_thinking(s3, s3.thinking_buffer);
            lemma_after(s3);
            let s4 = flush_buffer(s3).0;
            lemma_text(crate::stream_model::with_stop_reason(s4, "max_tokens"@), " "@);
            lemma_end(fill_text(s4).0);
        },
    }
}

proof fn lemma_start(s: StreamV)
    ensures
        all_shaped(initial_step(s).1),
{
    lemma_words();
    lemma_shapes();
    let (state, start) = crate::state::message_start_step(
        s.state,
        crate::stream_model::start_payload(s),
    );
    let s1 = StreamV { state, ..s };
    let block = part_json("text"@, "text"@, ""@);
    assert(shaped(start_event(s1.state.next_block_index, block)));
    lemma_open(
        StreamV { text_block_index: Some(s1.state.next_block_index), ..s1 },
        "text"@,
        block,
    );
    reveal_strlit("type");
    reveal_strlit("message");
    assert("type"@.len() == 4 && "message"@.len() == 7);
    if let Some(e) = start {
        assert(shaped(e));
    }
}

/// Every event of a stream has its shape, whatever the upstream sends: its data names it, a block
/// is started empty, what is added to a block says what it is, and a signature is the one that
/// clients are given.
pub proof fn law_every_event_has_its_shape(s: StreamV, events: Seq<EventV>, i: int)
    requires
        0 <= i < transcript(s, events).len(),
    ensures
        shaped(transcript(s, events)[i]),
{
    lemma_start(s);
    let s1 = initial_step(s).0;
    lemma_events(s1, events);
    let s2 = events_step(s1, events).0;
    lemma_finish(s2);
    assert(all_shaped(transcript(s, events)));
}

} // verus!
