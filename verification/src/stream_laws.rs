//! Every stream to a client is in order, whatever the upstream sends.

use crate::events::{EventV, ReasoningV};
use crate::json::{empty_object, printed, JsonV};
use crate::protocol::{block_open, follows, lemma_block_delta, lemma_block_start};
use crate::protocol::{lemma_block_stop, lemma_error_last, lemma_final_step, lemma_follows_concat};
use crate::protocol::{lemma_message_start, lemma_open_delta, lemma_read_all_concat, live};
use crate::protocol::{progress, read_all, table, unread, ProgressV};
use crate::sse::{part_json, signature_delta_event, thinking_delta_event, tool_use_json};
use crate::sse::{opt_events, THINKING_SIGNATURE_PLACEHOLDER};
use crate::state::{block_start_step, block_stop_step, fresh_state, is_open, lemma_position_from};
use crate::state::{open_of_kind, StateV};
use crate::stream_model::{after_step, assistant_step, before_call, call_step, calls_step};
use crate::stream_model::{close_at_end, close_reasoning, close_text, close_thinking};
use crate::stream_model::{close_unfinished, content_step, end_message, end_well, end_with_error};
use crate::stream_model::{event_step, events_step, failed_call, fill_text, filtered_step};
use crate::stream_model::{finish_stream, flush_buffer, flush_calls, flush_filter, initial_step};
use crate::stream_model::{inside_step, last_state, leave_thinking, open_block};
use crate::stream_model::{reasoning_block_step, reasoning_step, redacted_step, search_step};
use crate::stream_model::{some_text_step, start_payload, strip_step, text_block_step, text_step};
use crate::stream_model::{thinking_events, thinking_is_open, tool_step, transcript};
use crate::stream_model::{with_stop_reason, Step, StreamV};
use crate::thinking::{find_end, first_last_close, first_real, open_tag};
use crate::tool_json::{finish_step, push_step, CompletedV, FinishV, PushV, ToolErrorV, ToolUseV};
use vstd::prelude::*;

verus! {

/// The block of a tool call that was sent is closed.
pub open spec fn calls_are_closed(s: StreamV) -> bool {
    forall|id: Seq<char>| #[trigger]
        s.tool_block_indices.contains_key(id) ==> table(s.state.blocks).contains_key(
            s.tool_block_indices[id],
        ) && table(s.state.blocks)[s.tool_block_indices[id]].stopped
}

/// The text block is a block of text.
pub open spec fn text_is_text(s: StreamV) -> bool {
    match s.text_block_index {
        Some(i) => table(s.state.blocks).contains_key(i) && table(s.state.blocks)[i].kind
            == "text"@,
        None => true,
    }
}

/// What holds of a stream between its start and its end.
pub open spec fn in_order(s: StreamV) -> bool {
    &&& live(s.state)
    &&& calls_are_closed(s)
    &&& text_is_text(s)
    &&& s.in_thinking_block || s.reasoning_block_open ==> thinking_is_open(s)
    &&& s.reasoning_block_open ==> s.thinking_extracted && !s.in_thinking_block
}

/// A step that goes on in order.
pub open spec fn goes_on(s: StreamV, r: Step) -> bool {
    in_order(r.0) && follows(s.state, r.1, r.0.state)
}

/// Sending nothing is in order.
proof fn lemma_nothing(s: StateV, t: StateV)
    requires
        progress(s) == progress(t),
    ensures
        follows(s, Seq::empty(), t),
{
}

/// No block has the next number yet.
proof fn lemma_next_is_fresh(s: StateV)
    requires
        live(s),
    ensures
        !table(s.blocks).contains_key(s.next_block_index),
{
    lemma_position_from(s.blocks, s.next_block_index, 0);
}

pub proof fn lemma_kinds()
    ensures
        "text"@ != "thinking"@,
        "text"@ != "tool_use"@,
        "thinking"@ != "tool_use"@,
        "redacted_thinking"@ != "tool_use"@,
{
    reveal_strlit("text");
    reveal_strlit("thinking");
    reveal_strlit("tool_use");
    reveal_strlit("redacted_thinking");
    assert("text"@.len() == 4 && "redacted_thinking"@.len() == 17);
    assert("thinking"@[1] == 'h' && "tool_use"@[1] == 'o');
}

pub proof fn lemma_open_block(s: StreamV, kind: Seq<char>, block: JsonV)
    requires
        live(s.state),
        calls_are_closed(s),
        kind != "tool_use"@,
    ensures
        ({
            let (t, events) = open_block(s, kind, block);
            &&& follows(s.state, events, t.state)
            &&& live(t.state)
            &&& calls_are_closed(t)
            &&& t.state.next_block_index == s.state.next_block_index + 1
            &&& open_of_kind(t.state, s.state.next_block_index, kind)
            &&& thinking_is_open(s) ==> thinking_is_open(t)
            &&& text_is_text(s) ==> text_is_text(t)
        }),
{
    let index = s.state.next_block_index;
    let numbered = StateV { next_block_index: index + 1, ..s.state };
    lemma_next_is_fresh(s.state);
    assert(progress(numbered) == progress(s.state));
    lemma_block_start(numbered, index, kind, block);
    let (t, events) = open_block(s, kind, block);
    assert(table(t.state.blocks).contains_key(index));
    assert(is_open(table(t.state.blocks)[index]));
    match s.thinking_block_index {
        Some(i) => {
            if thinking_is_open(s) {
                assert(table(s.state.blocks).contains_key(i));
                assert(table(t.state.blocks).contains_key(i));
                assert(table(t.state.blocks)[i] == table(s.state.blocks)[i]);
            }
        },
        None => {},
    }
}

pub proof fn lemma_text_step(s: StreamV, text: Seq<char>)
    requires
        in_order(s),
    ensures
        goes_on(s, text_step(s, text)),
{
    lemma_kinds();
    let (s1, opening) = text_block_step(s);
    let fresh = StreamV { text_block_index: Some(s.state.next_block_index), ..s };
    lemma_open_block(fresh, "text"@, part_json("text"@, "text"@, ""@));
    lemma_nothing(s.state, s.state);
    assert(follows(s.state, opening, s1.state));
    assert(in_order(s1));
    match s1.text_block_index {
        Some(index) => {
            let delta = part_json("text_delta"@, "text"@, text);
            lemma_block_delta(s1.state, index, delta);
            let sent = crate::state::block_delta_step(
                s1.state,
                index,
                crate::sse::block_delta_json(index, delta),
            );
            lemma_follows_concat(s.state, opening, s1.state, opt_events(sent), s1.state);
        },
        None => {},
    }
}

proof fn lemma_some_text_step(s: StreamV, text: Seq<char>)
    requires
        in_order(s),
    ensures
        goes_on(s, some_text_step(s, text)),
{
    lemma_nothing(s.state, s.state);
    if text.len() > 0 {
        lemma_text_step(s, text);
    }
}

proof fn lemma_thinking_events(s: StreamV, thinking: Seq<char>)
    requires
        thinking_is_open(s),
    ensures
        follows(s.state, thinking_events(s, thinking), s.state),
{
    let index = s.thinking_block_index->0;
    lemma_nothing(s.state, s.state);
    assert(table(s.state.blocks).contains_key(index));
    lemma_open_delta(
        s.state,
        index,
        part_json("thinking_delta"@, "thinking"@, thinking),
    );
}

proof fn lemma_close_thinking(s: StreamV)
    requires
        live(s.state),
        calls_are_closed(s),
        thinking_is_open(s),
    ensures
        ({
            let (t, events) = close_thinking(s);
            &&& follows(s.state, events, t.state)
            &&& live(t.state)
            &&& calls_are_closed(t)
            &&& text_is_text(s) ==> text_is_text(t)
        }),
{
    let index = s.thinking_block_index->0;
    assert(table(s.state.blocks).contains_key(index));
    lemma_open_delta(s.state, index, part_json("thinking_delta"@, "thinking"@, ""@));
    lemma_open_delta(
        s.state,
        index,
        part_json("signature_delta"@, "signature"@, THINKING_SIGNATURE_PLACEHOLDER@),
    );
    lemma_block_stop(s.state, index);
    let (state, stop) = block_stop_step(s.state, index);
    let a = seq![thinking_delta_event(index, ""@)];
    let b = seq![signature_delta_event(index)];
    lemma_follows_concat(s.state, a, s.state, b, s.state);
    assert(a + b =~= seq![thinking_delta_event(index, ""@), signature_delta_event(index)]);
    lemma_follows_concat(s.state, a + b, s.state, opt_events(stop), state);
}

pub proof fn lemma_close_reasoning(s: StreamV)
    requires
        in_order(s),
    ensures
        goes_on(s, close_reasoning(s)),
        !close_reasoning(s).0.reasoning_block_open,
{
    lemma_nothing(s.state, s.state);
    if s.reasoning_block_open {
        lemma_close_thinking(s);
    }
}

pub proof fn lemma_close_text(s: StreamV)
    requires
        in_order(s),
    ensures
        goes_on(s, close_text(s)),
{
    lemma_nothing(s.state, s.state);
    lemma_kinds();
    match s.text_block_index {
        Some(index) => {
            if open_of_kind(s.state, index, "text"@) {
                lemma_block_stop(s.state, index);
                let t = close_text(s).0;
                if thinking_is_open(s) {
                    let i = s.thinking_block_index->0;
                    assert(table(s.state.blocks).contains_key(i));
                    assert(table(s.state.blocks)[i].kind == "thinking"@);
                    assert(table(s.state.blocks)[index].kind == "text"@);
                    assert(table(t.state.blocks)[i] == table(s.state.blocks)[i]);
                    assert(table(t.state.blocks).contains_key(i));
                }
            }
        },
        None => {},
    }
}

pub proof fn lemma_search_step(s: StreamV)
    requires
        in_order(s),
        !s.in_thinking_block,
        !s.thinking_extracted,
    ensures
        goes_on(s, search_step(s)),
{
    lemma_nothing(s.state, s.state);
    lemma_kinds();
    match first_real(s.thinking_buffer, open_tag(), 0) {
        Some(start) => {
            let before = s.thinking_buffer.take(start);
            lemma_text_step(s, before);
            let (s1, e1) = if crate::text::blank(before) {
                (s, Seq::empty())
            } else {
                text_step(s, before)
            };
            let s2 = StreamV {
                in_thinking_block: true,
                strip_thinking_leading_newline: true,
                thinking_buffer: s1.thinking_buffer.skip(start + 10),
                thinking_block_index: Some(s1.state.next_block_index),
                ..s1
            };
            let block = part_json("thinking"@, "thinking"@, ""@);
            lemma_open_block(s2, "thinking"@, block);
            let (s3, e3) = open_block(s2, "thinking"@, block);
            lemma_follows_concat(s.state, e1, s1.state, e3, s3.state);
        },
        None => {
            let n = crate::stream_model::safe_chars(s.thinking_buffer, 10);
            lemma_text_step(s, s.thinking_buffer.take(n));
        },
    }
}

proof fn lemma_leave_thinking(s: StreamV, end: int)
    requires
        in_order(s),
        s.in_thinking_block,
    ensures
        goes_on(s, leave_thinking(s, end)),
{
    let inner = s.thinking_buffer.take(end);
    lemma_thinking_events(s, inner);
    let s0 = StreamV {
        in_thinking_block: false,
        thinking_extracted: true,
        strip_text_after_thinking_boundary: true,
        ..s
    };
    lemma_close_thinking(s0);
    let (s1, e1) = close_thinking(s0);
    lemma_follows_concat(s.state, thinking_events(s, inner), s.state, e1, s1.state);
}

pub proof fn lemma_inside_step(s: StreamV)
    requires
        in_order(s),
        s.in_thinking_block,
    ensures
        goes_on(s, inside_step(s)),
{
    let s0 = strip_step(s);
    assert(in_order(s0));
    match find_end(s0.thinking_buffer) {
        Some((end, resume)) => {
            lemma_leave_thinking(s0, end);
        },
        None => {
            let n = crate::stream_model::safe_chars(s0.thinking_buffer, 11);
            lemma_thinking_events(s0, s0.thinking_buffer.take(n));
        },
    }
}

pub proof fn lemma_after_step(s: StreamV)
    requires
        in_order(s),
    ensures
        goes_on(s, after_step(s)),
{
    let text = crate::stream_model::buffered_text(s);
    let s0 = StreamV {
        thinking_buffer: Seq::empty(),
        strip_text_after_thinking_boundary: s.strip_text_after_thinking_boundary && text.len()
            == 0,
        ..s
    };
    lemma_some_text_step(s0, text);
}

pub proof fn lemma_content_step(s: StreamV, content: Seq<char>)
    requires
        in_order(s),
    ensures
        goes_on(s, content_step(s, content)),
{
    let s0 = StreamV { thinking_buffer: s.thinking_buffer + content, ..s };
    let searching = !s0.in_thinking_block && !s0.thinking_extracted;
    lemma_nothing(s.state, s.state);
    if searching {
        lemma_search_step(s0);
    }
    let (s1, e1) = if searching {
        search_step(s0)
    } else {
        (s0, Seq::empty())
    };
    assert(in_order(s1) && follows(s.state, e1, s1.state));
    if !(searching && !s1.in_thinking_block) {
        lemma_nothing(s1.state, s1.state);
        if s1.in_thinking_block {
            lemma_inside_step(s1);
        }
        let (s2, e2) = if s1.in_thinking_block {
            inside_step(s1)
        } else {
            (s1, Seq::empty())
        };
        assert(in_order(s2) && follows(s1.state, e2, s2.state));
        lemma_follows_concat(s.state, e1, s1.state, e2, s2.state);
        if !s2.in_thinking_block {
            lemma_after_step(s2);
            let (s3, e3) = after_step(s2);
            lemma_follows_concat(s.state, e1 + e2, s2.state, e3, s3.state);
        }
    }
}

pub proof fn lemma_filtered_step(s: StreamV, text: Seq<char>)
    requires
        in_order(s),
    ensures
        goes_on(s, filtered_step(s, text)),
{
    lemma_nothing(s.state, s.state);
    if text.len() > 0 {
        let s0 = StreamV {
            output_tokens: crate::tokens::capped(
                s.output_tokens + crate::tokens::capped(crate::tokens::estimate(text)),
            ),
            ..s
        };
        assert(in_order(s0));
        if s0.thinking_enabled {
            lemma_content_step(s0, text);
        } else {
            lemma_text_step(s0, text);
        }
    }
}

proof fn lemma_assistant_step(s: StreamV, content: Seq<char>)
    requires
        in_order(s),
    ensures
        goes_on(s, assistant_step(s, content)),
{
    let (text, filter) = crate::xml_filter::scan(s.filter.buffer + content, s.filter.stripping);
    lemma_filtered_step(StreamV { filter, ..s }, text);
}

pub proof fn lemma_call_step(s: StreamV, call: CompletedV)
    requires
        in_order(s),
    ensures
        goes_on(s, call_step(s, call)),
{
    lemma_kinds();
    lemma_next_is_fresh(s.state);
    let known = s.tool_block_indices.contains_key(call.id);
    let index = if known {
        s.tool_block_indices[call.id]
    } else {
        s.state.next_block_index
    };
    let s1 = if known {
        s
    } else {
        StreamV {
            state: StateV { next_block_index: index + 1, ..s.state },
            tool_block_indices: s.tool_block_indices.insert(call.id, index),
            ..s
        }
    };
    assert(progress(s1.state) == progress(s.state));
    assert(live(s1.state));
    if known {
        lemma_position_from(s.state.blocks, index, 0);
        assert(table(s.state.blocks).contains_key(index));
    }
    let block = tool_use_json(call.id, call.name, empty_object());
    lemma_block_start(s1.state, index, "tool_use"@, block);
    let (state2, e2) = block_start_step(
        s1.state,
        index,
        "tool_use"@,
        crate::sse::block_start_json(index, block),
    );
    let partial = part_json("input_json_delta"@, "partial_json"@, printed(call.input));
    lemma_block_delta(state2, index, partial);
    let delta = crate::state::block_delta_step(
        state2,
        index,
        crate::sse::block_delta_json(index, partial),
    );
    lemma_block_stop(state2, index);
    let (state3, stop) = block_stop_step(state2, index);
    lemma_follows_concat(s.state, e2, state2, opt_events(delta), state2);
    lemma_follows_concat(s.state, e2 + opt_events(delta), state2, opt_events(stop), state3);
    let t = call_step(s, call).0;
    assert(t.state == state3);
    assert forall|id: Seq<char>| #[trigger] t.tool_block_indices.contains_key(id) implies table(
        t.state.blocks,
    ).contains_key(t.tool_block_indices[id]) && table(
        t.state.blocks,
    )[t.tool_block_indices[id]].stopped by {
        if id != call.id {
            assert(s.tool_block_indices.contains_key(id));
        }
    }
    if thinking_is_open(s) {
        let i = s.thinking_block_index->0;
        assert(table(s.state.blocks).contains_key(i));
        assert(i != index);
        assert(table(t.state.blocks).contains_key(i));
        assert(table(t.state.blocks)[i] == table(s.state.blocks)[i]);
    }
}

proof fn lemma_calls_step(s: StreamV, calls: Seq<CompletedV>)
    requires
        in_order(s),
    ensures
        goes_on(s, calls_step(s, calls)),
    decreases calls.len(),
{
    lemma_nothing(s.state, s.state);
    if calls.len() > 0 {
        lemma_calls_step(s, calls.drop_last());
        let (s1, e1) = calls_step(s, calls.drop_last());
        lemma_call_step(s1, calls.last());
        let (s2, e2) = call_step(s1, calls.last());
        lemma_follows_concat(s.state, e1, s1.state, e2, s2.state);
    }
}

pub proof fn lemma_close_at_end(s: StreamV)
    requires
        in_order(s),
        s.in_thinking_block,
    ensures
        goes_on(s, close_at_end(s)),
{
    lemma_nothing(s.state, s.state);
    match first_last_close(s.thinking_buffer, 0) {
        Some(end) => {
            lemma_leave_thinking(s, end);
        },
        None => {},
    }
}

pub proof fn lemma_before_call(s: StreamV)
    requires
        in_order(s),
    ensures
        goes_on(s, before_call(s)),
{
    lemma_nothing(s.state, s.state);
    if s.thinking_enabled && s.in_thinking_block {
        lemma_close_at_end(s);
    }
    let (s1, e1) = if s.thinking_enabled && s.in_thinking_block {
        close_at_end(s)
    } else {
        (s, Seq::empty())
    };
    let s2 = StreamV { thinking_buffer: Seq::empty(), ..s1 };
    assert(in_order(s2));
    lemma_text_step(s2, s1.thinking_buffer);
    let (s3, e3) = text_step(s2, s1.thinking_buffer);
    lemma_follows_concat(s.state, e1, s1.state, e3, s3.state);
}

proof fn lemma_failed_call(s: StreamV, e: ToolErrorV)
    requires
        in_order(s),
    ensures
        in_order(failed_call(s, e)),
        progress(failed_call(s, e).state) == progress(s.state),
{
}

pub proof fn lemma_with_stop_reason(s: StreamV, reason: Seq<char>)
    requires
        in_order(s),
    ensures
        in_order(with_stop_reason(s, reason)),
        progress(with_stop_reason(s, reason).state) == progress(s.state),
{
}

proof fn lemma_tool_step(s: StreamV, t: ToolUseV)
    requires
        in_order(s),
    ensures
        goes_on(s, tool_step(s, t)),
{
    let s0 = StreamV { state: StateV { has_tool_use: true, ..s.state }, ..s };
    assert(in_order(s0));
    assert(progress(s0.state) == progress(s.state));
    lemma_before_call(s0);
    let (s1, e1) = before_call(s0);
    let (pending, outcome) = push_step(s1.pending, t, s1.tool_name_map);
    let s2 = StreamV { pending, ..s1 };
    assert(in_order(s2));
    match outcome {
        PushV::Waiting => {},
        PushV::Failed(e) => {
            lemma_failed_call(s2, e);
        },
        PushV::Done(call) => {
            lemma_call_step(s2, call);
            let (s3, e3) = call_step(s2, call);
            lemma_follows_concat(s.state, e1, s2.state, e3, s3.state);
        },
    }
}

proof fn lemma_redacted_step(s: StreamV, redacted: Seq<char>)
    requires
        in_order(s),
    ensures
        goes_on(s, redacted_step(s, redacted)),
{
    lemma_kinds();
    lemma_close_reasoning(s);
    let (s1, e1) = close_reasoning(s);
    lemma_close_text(s1);
    let (s2, e2) = close_text(s1);
    let index = s2.state.next_block_index;
    let block = part_json("redacted_thinking"@, "data"@, redacted);
    lemma_next_is_fresh(s2.state);
    lemma_open_block(s2, "redacted_thinking"@, block);
    let (s3, e3) = open_block(s2, "redacted_thinking"@, block);
    lemma_block_stop(s3.state, index);
    let (state4, stop) = block_stop_step(s3.state, index);
    lemma_follows_concat(s.state, e1, s1.state, e2, s2.state);
    lemma_follows_concat(s.state, e1 + e2, s2.state, e3, s3.state);
    lemma_follows_concat(s.state, e1 + e2 + e3, s3.state, opt_events(stop), state4);
    let t = redacted_step(s, redacted).0;
    assert(t.state == state4);
    if thinking_is_open(s2) {
        let i = s2.thinking_block_index->0;
        assert(table(s2.state.blocks).contains_key(i));
        assert(i != index);
        assert(table(s3.state.blocks).contains_key(i));
        assert(table(t.state.blocks).contains_key(i));
        assert(table(t.state.blocks)[i] == table(s3.state.blocks)[i]);
    }
}

proof fn lemma_reasoning_block_step(s: StreamV)
    requires
        in_order(s),
    ensures
        goes_on(s, reasoning_block_step(s)),
        reasoning_block_step(s).0.reasoning_block_open,
{
    lemma_nothing(s.state, s.state);
    lemma_kinds();
    if !s.reasoning_block_open {
        lemma_close_text(s);
        let (s1, e1) = close_text(s);
        let s2 = StreamV {
            reasoning_block_open: true,
            in_thinking_block: false,
            thinking_extracted: true,
            ..s1
        };
        if !thinking_is_open(s1) {
            let s3 = StreamV { thinking_block_index: Some(s2.state.next_block_index), ..s2 };
            let block = part_json("thinking"@, "thinking"@, ""@);
            lemma_open_block(s3, "thinking"@, block);
            let (s4, e4) = open_block(s3, "thinking"@, block);
            lemma_follows_concat(s.state, e1, s3.state, e4, s4.state);
        }
    }
}

proof fn lemma_reasoning_step(s: StreamV, r: ReasoningV)
    requires
        in_order(s),
    ensures
        goes_on(s, reasoning_step(s, r)),
{
    lemma_nothing(s.state, s.state);
    if s.thinking_enabled {
        match r.redacted {
            Some(redacted) => {
                lemma_redacted_step(s, redacted);
            },
            None => {},
        }
        lemma_reasoning_block_step(s);
        let (s1, e1) = reasoning_block_step(s);
        lemma_thinking_events(s1, r.text);
        lemma_follows_concat(s.state, e1, s1.state, thinking_events(s1, r.text), s1.state);
    }
}

/// Every upstream event leads to events that are in order.
pub proof fn lemma_event_step(s: StreamV, e: EventV)
    requires
        in_order(s),
    ensures
        goes_on(s, event_step(s, e)),
{
    reveal(event_step);
    lemma_nothing(s.state, s.state);
    lemma_close_reasoning(s);
    let (s1, e1) = close_reasoning(s);
    match e {
        EventV::Content(content) => {
            lemma_assistant_step(s1, content);
            let (s2, e2) = assistant_step(s1, content);
            lemma_follows_concat(s.state, e1, s1.state, e2, s2.state);
        },
        EventV::ToolUse(t) => {
            lemma_tool_step(s1, t);
            let (s2, e2) = tool_step(s1, t);
            lemma_follows_concat(s.state, e1, s1.state, e2, s2.state);
        },
        EventV::Reasoning(r) => {
            lemma_reasoning_step(s, r);
        },
        _ => {
            let t = event_step(s, e).0;
            assert(progress(t.state) == progress(s.state));
            assert(in_order(t));
        },
    }
}

pub proof fn lemma_events_step(s: StreamV, events: Seq<EventV>)
    requires
        in_order(s),
    ensures
        goes_on(s, events_step(s, events)),
    decreases events.len(),
{
    lemma_nothing(s.state, s.state);
    if events.len() > 0 {
        lemma_events_step(s, events.drop_last());
        let (s1, e1) = events_step(s, events.drop_last());
        lemma_event_step(s1, events.last());
        let (s2, e2) = event_step(s1, events.last());
        lemma_follows_concat(s.state, e1, s1.state, e2, s2.state);
    }
}

pub proof fn lemma_flush_calls(s: StreamV)
    requires
        in_order(s),
    ensures
        goes_on(s, flush_calls(s)),
{
    lemma_nothing(s.state, s.state);
    let (pending, outcome) = finish_step(s.pending, s.tool_name_map);
    let s1 = StreamV { pending, ..s };
    assert(in_order(s1));
    match outcome {
        FinishV::Done(calls) => {
            lemma_calls_step(s1, calls);
        },
        FinishV::Failed(e) => {
            lemma_failed_call(s1, e);
        },
    }
}

pub proof fn lemma_flush_filter(s: StreamV)
    requires
        in_order(s),
    ensures
        goes_on(s, flush_filter(s)),
{
    let s1 = StreamV {
        filter: crate::xml_filter::FilterV { buffer: Seq::empty(), stripping: false },
        ..s
    };
    assert(in_order(s1));
    lemma_filtered_step(s1, crate::xml_filter::stripped(s.filter.buffer));
}

/// A step that keeps the order at the end of a stream, where the thinking block may be closed
/// behind the stream's back.
pub open spec fn ends_in_order(s: StreamV, r: Step) -> bool {
    &&& follows(s.state, r.1, r.0.state)
    &&& in_order((StreamV { in_thinking_block: false, ..r.0 }))
}

pub proof fn lemma_close_unfinished(s: StreamV)
    requires
        in_order(s),
    ensures
        ends_in_order(s, close_unfinished(s)),
{
    lemma_nothing(s.state, s.state);
    if s.in_thinking_block {
        lemma_close_thinking(s);
    }
}

pub proof fn lemma_flush_buffer(s: StreamV)
    requires
        in_order(s),
        !s.reasoning_block_open,
    ensures
        ends_in_order(s, flush_buffer(s)),
        !flush_buffer(s).0.reasoning_block_open,
{
    lemma_nothing(s.state, s.state);
    if s.thinking_enabled {
        if s.in_thinking_block {
            match first_last_close(s.thinking_buffer, 0) {
                Some(end) => {
                    lemma_close_at_end(s);
                },
                None => {
                    lemma_thinking_events(s, s.thinking_buffer);
                    lemma_close_unfinished(s);
                    let (s1, e1) = close_unfinished(s);
                    let idle = StreamV { in_thinking_block: false, ..s1 };
                    assert(in_order(idle));
                    assert(in_order((StreamV { thinking_buffer: Seq::empty(), ..idle })));
                    lemma_follows_concat(
                        s.state,
                        thinking_events(s, s.thinking_buffer),
                        s.state,
                        e1,
                        s1.state,
                    );
                },
            }
        } else if s.thinking_buffer.len() > 0 {
            lemma_after_step(s);
        }
    }
}

/// What a client has seen once a stream has ended.
pub open spec fn whole(q: ProgressV) -> bool {
    q.started && q.delta_sent && q.ended && forall|i: int| !#[trigger] block_open(q, i)
}

proof fn lemma_end_message(s: StreamV)
    requires
        live(s.state),
    ensures
        follows(s.state, end_message(s).1, end_message(s).0.state),
        whole(progress(end_message(s).0.state)),
{
    lemma_final_step(s.state, crate::stream_model::final_usage(s));
}

proof fn lemma_end_with_error(s: StreamV, e: ToolErrorV)
    requires
        in_order(s),
    ensures
        read_all(progress(s.state), end_with_error(s, e).1) matches Some(q) && whole(q)
            && q.failed,
{
    lemma_close_reasoning(s);
    let (s1, e1) = close_reasoning(s);
    lemma_close_unfinished(s1);
    let (s2, e2) = close_unfinished(s1);
    lemma_end_message(s2);
    let (s3, e3) = end_message(s2);
    lemma_follows_concat(s.state, e1, s1.state, e2, s2.state);
    lemma_follows_concat(s.state, e1 + e2, s2.state, e3, s3.state);
    let q = progress(s3.state);
    let text = crate::tool_json::error_text(e);
    lemma_error_last(q, "upstream_tool_json_error"@, text);
    let events = end_with_error(s, e).1;
    assert(events.drop_last() =~= e1 + e2 + e3);
    let failed = ProgressV { failed: true, ..q };
    assert(read_all(progress(s.state), events) == Some(failed));
    assert forall|i: int| !#[trigger] block_open(failed, i) by {
        assert(!block_open(q, i));
    }
}

proof fn lemma_end_well(s: StreamV)
    requires
        in_order(s),
    ensures
        read_all(progress(s.state), end_well(s).1) matches Some(q) && whole(q) && !q.failed,
{
    lemma_close_reasoning(s);
    let (s1, e1) = close_reasoning(s);
    lemma_flush_buffer(s1);
    let (s2, e2) = flush_buffer(s1);
    let (s3, e3) = fill_text(s2);
    let idle = StreamV { in_thinking_block: false, ..s2 };
    lemma_with_stop_reason(idle, "max_tokens"@);
    lemma_text_step(with_stop_reason(idle, "max_tokens"@), " "@);
    lemma_nothing(s2.state, s2.state);
    lemma_same_text(with_stop_reason(s2, "max_tokens"@), " "@);
    assert(with_stop_reason(idle, "max_tokens"@) == (StreamV {
        in_thinking_block: false,
        ..with_stop_reason(s2, "max_tokens"@)
    }));
    assert(follows(s2.state, e3, s3.state) && live(s3.state));
    lemma_end_message(s3);
    let (s4, e4) = end_message(s3);
    lemma_follows_concat(s.state, e1, s1.state, e2, s2.state);
    lemma_follows_concat(s.state, e1 + e2, s2.state, e3, s3.state);
    lemma_follows_concat(s.state, e1 + e2 + e3, s3.state, e4, s4.state);
}

/// Sending text does not depend on whether the stream is in thinking.
pub proof fn lemma_same_text(s: StreamV, text: Seq<char>)
    ensures
        text_step((StreamV { in_thinking_block: false, ..s }), text).0.state == text_step(
            s,
            text,
        ).0.state,
        text_step((StreamV { in_thinking_block: false, ..s }), text).1 == text_step(s, text).1,
{
}

proof fn lemma_finish_stream(s: StreamV)
    requires
        in_order(s),
    ensures
        read_all(progress(s.state), finish_stream(s).1) matches Some(q) && whole(q) && (q.failed
            <==> finish_stream(s).0.tool_json_error is Some),
{
    lemma_flush_calls(s);
    let (s1, e1) = flush_calls(s);
    lemma_flush_filter(s1);
    let (s2, e2) = flush_filter(s1);
    lemma_follows_concat(s.state, e1, s1.state, e2, s2.state);
    match s2.tool_json_error {
        Some(e) => {
            lemma_end_with_error(s2, e);
            lemma_read_all_concat(progress(s.state), e1 + e2, end_with_error(s2, e).1);
        },
        None => {
            lemma_end_well(s2);
            lemma_read_all_concat(progress(s.state), e1 + e2, end_well(s2).1);
        },
    }
}

pub proof fn lemma_initial_step(s: StreamV)
    requires
        unsent(s),
    ensures
        goes_on(s, initial_step(s)),
        progress(s.state) == unread(),
{
    assert(progress(s.state).blocks =~= Map::empty());
    let payload = start_payload(s);
    lemma_message_start(s.state, payload);
    let (state, start) = crate::state::message_start_step(s.state, payload);
    let s1 = StreamV { state, ..s };
    assert(in_order(s1));
    if !s1.thinking_enabled {
        lemma_kinds();
        let s2 = StreamV { text_block_index: Some(s1.state.next_block_index), ..s1 };
        let block = part_json("text"@, "text"@, ""@);
        lemma_open_block(s2, "text"@, block);
        let (s3, e3) = open_block(s2, "text"@, block);
        lemma_follows_concat(s.state, opt_events(start), s1.state, e3, s3.state);
    }
}

/// A stream that has sent nothing.
pub open spec fn unsent(s: StreamV) -> bool {
    &&& s.state == fresh_state()
    &&& s.text_block_index is None
    &&& s.tool_block_indices == Map::<Seq<char>, int>::empty()
    &&& !s.in_thinking_block
    &&& !s.reasoning_block_open
}

/// Whatever the upstream sends, the client reads a stream in order: one message start before all
/// else; each block started once, added to only while open, and stopped once; one message delta
/// when no block is open; one message stop behind it; and behind that nothing but, where a tool
/// call could not be used, one error.
pub proof fn law_stream_is_in_order(s: StreamV, events: Seq<EventV>)
    requires
        unsent(s),
    ensures
        read_all(unread(), transcript(s, events)) matches Some(q) && whole(q) && (q.failed
            <==> last_state(s, events).tool_json_error is Some),
{
    lemma_initial_step(s);
    let (s1, e1) = initial_step(s);
    lemma_events_step(s1, events);
    let (s2, e2) = events_step(s1, events);
    lemma_follows_concat(s.state, e1, s1.state, e2, s2.state);
    lemma_finish_stream(s2);
    lemma_read_all_concat(progress(s.state), e1 + e2, finish_stream(s2).1);
}

} // verus!
