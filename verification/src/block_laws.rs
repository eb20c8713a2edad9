//! What is added to a block of a stream is of the block's kind.

use crate::events::{EventV, ReasoningV};
use crate::json::{empty_object, field, printed, string_field, JsonV};
use crate::protocol::{index_of, lemma_event_names, live};
use crate::sse::{delta_event, opt_events, part_json, signature_delta_event, start_event};
use crate::sse::{stop_event, tool_use_json, SseEventV};
use crate::state::{block_delta_step, block_start_step, block_stop_step, closed_blocks};
use crate::state::{closing_events, lemma_position_from, open_of_kind, state_ok, BlockV, StateV};
use crate::stream_laws::{in_order, lemma_before_call, lemma_call_step, lemma_close_at_end};
use crate::stream_laws::{lemma_close_reasoning, lemma_close_text, lemma_close_unfinished};
use crate::stream_laws::{lemma_event_step, lemma_flush_buffer, lemma_flush_calls};
use crate::stream_laws::{lemma_flush_filter, lemma_initial_step, lemma_inside_step, lemma_kinds};
use crate::stream_laws::{lemma_open_block, lemma_same_text, lemma_search_step, lemma_text_step};
use crate::stream_laws::{lemma_with_stop_reason, unsent};
use crate::stream_model::{after_step, assistant_step, before_call, buffered_text, call_step};
use crate::stream_model::{calls_step, close_at_end, close_reasoning, close_text, close_thinking};
use crate::stream_model::{close_unfinished, content_step, end_message, end_well, end_with_error};
use crate::stream_model::{event_step, events_step, fill_text, filtered_step, finish_stream};
use crate::stream_model::{flush_buffer, flush_calls, flush_filter, initial_step, inside_step};
use crate::stream_model::{leave_thinking, open_block, reasoning_block_step, reasoning_step};
use crate::stream_model::{redacted_step, safe_chars, search_step, strip_step, text_block_step};
use crate::stream_model::{text_step, thinking_events, thinking_is_open, tool_step, transcript};
use crate::stream_model::{with_stop_reason, Step, StreamV};
use crate::tool_json::{finish_step, push_step, CompletedV, FinishV, PushV, ToolErrorV, ToolUseV};
use vstd::prelude::*;

verus! {

/// The kind of block that takes what an event adds.
pub open spec fn kind_taking(delta: JsonV) -> Option<Seq<char>> {
    let kind = string_field(delta, "type"@);
    if kind == Some("text_delta"@) {
        Some("text"@)
    } else if kind == Some("thinking_delta"@) || kind == Some("signature_delta"@) {
        Some("thinking"@)
    } else if kind == Some("input_json_delta"@) {
        Some("tool_use"@)
    } else {
        None
    }
}

/// The block that an event starts or adds to, and the kind that this block is taken to be.
pub open spec fn about(e: SseEventV) -> Option<(int, Seq<char>)> {
    let kind = if e.event == "content_block_start"@ {
        match field(e.data, "content_block"@) {
            Some(block) => string_field(block, "type"@),
            None => None,
        }
    } else if e.event == "content_block_delta"@ {
        match field(e.data, "delta"@) {
            Some(delta) => kind_taking(delta),
            None => None,
        }
    } else {
        None
    };
    match (index_of(e), kind) {
        (Some(index), Some(k)) => Some((index, k)),
        _ => None,
    }
}

spec fn has_kind(blocks: Seq<BlockV>, index: int, kind: Seq<char>) -> bool {
    exists|k: int|
        0 <= k < blocks.len() && (#[trigger] blocks[k]).index == index && blocks[k].kind == kind
}

spec fn fits(events: Seq<SseEventV>, blocks: Seq<BlockV>) -> bool {
    forall|i: int|
        0 <= i < events.len() ==> match about(#[trigger] events[i]) {
            Some((index, kind)) => has_kind(blocks, index, kind),
            None => true,
        }
}

spec fn grows(a: Seq<BlockV>, b: Seq<BlockV>) -> bool {
    &&& a.len() <= b.len()
    &&& forall|k: int|
        0 <= k < a.len() ==> (#[trigger] a[k]).index == b[k].index && a[k].kind == b[k].kind
}

spec fn fitted(a: Seq<BlockV>, r: Step) -> bool {
    grows(a, r.0.state.blocks) && fits(r.1, r.0.state.blocks)
}

proof fn lemma_kept(a: Seq<BlockV>, b: Seq<BlockV>, events: Seq<SseEventV>)
    requires
        grows(a, b),
        fits(events, a),
    ensures
        fits(events, b),
{
    assert forall|i: int| 0 <= i < events.len() implies match about(#[trigger] events[i]) {
        Some((index, kind)) => has_kind(b, index, kind),
        None => true,
    } by {
        if let Some((index, kind)) = about(events[i]) {
            assert(has_kind(a, index, kind));
            let k = choose|k: int|
                0 <= k < a.len() && (#[trigger] a[k]).index == index && a[k].kind == kind;
            assert(b[k].index == index && b[k].kind == kind);
        }
    }
}

proof fn lemma_then(a: Seq<BlockV>, r: Step, t: Step)
    requires
        fitted(a, r),
        fitted(r.0.state.blocks, t),
    ensures
        fitted(a, (t.0, r.1 + t.1)),
{
    let (b, c) = (r.0.state.blocks, t.0.state.blocks);
    lemma_kept(b, c, r.1);
    assert forall|k: int| 0 <= k < a.len() implies (#[trigger] a[k]).index == c[k].index
        && a[k].kind == c[k].kind by {
        assert(b[k].index == c[k].index);
    }
    let both = r.1 + t.1;
    assert forall|i: int| 0 <= i < both.len() implies match about(#[trigger] both[i]) {
        Some((index, kind)) => has_kind(c, index, kind),
        None => true,
    } by {
        if i < r.1.len() {
            assert(both[i] == r.1[i]);
        } else {
            assert(both[i] == t.1[i - r.1.len()]);
        }
    }
}

proof fn lemma_about()
    ensures
        forall|index: int, text: Seq<char>|
            about(#[trigger] start_event(index, part_json("text"@, "text"@, text))) == Some(
                (index, "text"@),
            ),
        forall|index: int, text: Seq<char>|
            about(#[trigger] start_event(index, part_json("thinking"@, "thinking"@, text)))
                == Some((index, "thinking"@)),
        forall|index: int, data: Seq<char>|
            about(#[trigger] start_event(index, part_json("redacted_thinking"@, "data"@, data)))
                == Some((index, "redacted_thinking"@)),
        forall|index: int, id: Seq<char>, name: Seq<char>|
            about(#[trigger] start_event(index, tool_use_json(id, name, empty_object()))) == Some(
                (index, "tool_use"@),
            ),
        forall|index: int, text: Seq<char>|
            about(#[trigger] delta_event(index, part_json("text_delta"@, "text"@, text))) == Some(
                (index, "text"@),
            ),
        forall|index: int, text: Seq<char>|
            about(#[trigger] delta_event(index, part_json("thinking_delta"@, "thinking"@, text)))
                == Some((index, "thinking"@)),
        forall|index: int|
            about(#[trigger] signature_delta_event(index)) == Some((index, "thinking"@)),
        forall|index: int, text: Seq<char>|
            about(
                #[trigger] delta_event(
                    index,
                    part_json("input_json_delta"@, "partial_json"@, text),
                ),
            ) == Some((index, "tool_use"@)),
        forall|index: int| about(#[trigger] stop_event(index)) is None,
{
    lemma_event_names();
    reveal_strlit("content_block_start");
    reveal_strlit("content_block_delta");
    reveal_strlit("content_block_stop");
    assert("content_block_start"@.len() == 19 && "content_block_delta"@.len() == 19
        && "content_block_stop"@.len() == 18);
    assert("content_block_start"@[14] == 's' && "content_block_delta"@[14] == 'd');
    reveal_strlit("type");
    reveal_strlit("index");
    reveal_strlit("delta");
    reveal_strlit("content_block");
    reveal_strlit("text");
    reveal_strlit("thinking");
    reveal_strlit("signature");
    reveal_strlit("data");
    reveal_strlit("partial_json");
    reveal_strlit("id");
    reveal_strlit("name");
    reveal_strlit("input");
    assert("type"@.len() == 4 && "index"@.len() == 5 && "delta"@.len() == 5
        && "content_block"@.len() == 13 && "text"@.len() == 4 && "thinking"@.len() == 8
        && "signature"@.len() == 9 && "data"@.len() == 4 && "partial_json"@.len() == 12
        && "id"@.len() == 2 && "name"@.len() == 4 && "input"@.len() == 5);
    assert("type"@[1] == 'y' && "text"@[1] == 'e' && "data"@[0] == 'd' && "name"@[0] == 'n'
        && "type"@[0] == 't' && "text"@[0] == 't' && "index"@[0] == 'i' && "delta"@[0] == 'd');
    reveal_strlit("text_delta");
    reveal_strlit("thinking_delta");
    reveal_strlit("signature_delta");
    reveal_strlit("input_json_delta");
    assert("text_delta"@.len() == 10 && "thinking_delta"@.len() == 14 && "signature_delta"@.len()
        == 15 && "input_json_delta"@.len() == 16);
}

proof fn lemma_closing(blocks: Seq<BlockV>, text_only: bool, any: Seq<BlockV>)
    ensures
        fits(closing_events(blocks, text_only), any),
        grows(blocks, closed_blocks(blocks, text_only)),
    decreases blocks.len(),
{
    if blocks.len() > 0 {
        lemma_closing(blocks.drop_last(), text_only, any);
        lemma_about();
    }
}

proof fn lemma_open(s: StreamV, kind: Seq<char>, block: JsonV)
    requires
        live(s.state),
        about(start_event(s.state.next_block_index, block)) == Some(
            (s.state.next_block_index, kind),
        ),
    ensures
        fitted(s.state.blocks, open_block(s, kind, block)),
        has_kind(open_block(s, kind, block).0.state.blocks, s.state.next_block_index, kind),
{
    let index = s.state.next_block_index;
    let (t, events) = open_block(s, kind, block);
    lemma_closing(s.state.blocks, true, t.state.blocks);
    lemma_position_from(s.state.blocks, index, 0);
    lemma_position_from(closed_blocks(s.state.blocks, true), index, 0);
    assert(t.state.blocks.last().index == index && t.state.blocks.last().kind == kind);
    assert(has_kind(t.state.blocks, index, kind)) by {
        let k = t.state.blocks.len() - 1;
        assert(t.state.blocks[k].index == index);
    }
    assert(events.last() == start_event(index, block));
}

proof fn lemma_is_open(s: StateV, index: int, kind: Seq<char>)
    requires
        open_of_kind(s, index, kind),
    ensures
        has_kind(s.blocks, index, kind),
{
    lemma_position_from(s.blocks, index, 0);
    let k = crate::state::position(s.blocks, index)->0;
    assert(s.blocks[k].index == index);
}

proof fn lemma_stop(s: StateV, index: int, any: Seq<BlockV>)
    ensures
        grows(s.blocks, block_stop_step(s, index).0.blocks),
        fits(opt_events(block_stop_step(s, index).1), any),
{
    lemma_about();
    lemma_position_from(s.blocks, index, 0);
}

proof fn lemma_text(s: StreamV, text: Seq<char>)
    requires
        in_order(s),
    ensures
        fitted(s.state.blocks, text_step(s, text)),
{
    lemma_about();
    lemma_kinds();
    let block = part_json("text"@, "text"@, ""@);
    let fresh = StreamV { text_block_index: Some(s.state.next_block_index), ..s };
    lemma_open_block(fresh, "text"@, block);
    lemma_open(fresh, "text"@, block);
    let (s1, opening) = text_block_step(s);
    let index = s1.text_block_index->0;
    lemma_is_open(s1.state, index, "text"@);
    let sent = opt_events(
        block_delta_step(
            s1.state,
            index,
            crate::sse::block_delta_json(index, part_json("text_delta"@, "text"@, text)),
        ),
    );
    assert(fits(sent, s1.state.blocks)) by {
        assert(sent.len() > 0 ==> sent[0] == delta_event(
            index,
            part_json("text_delta"@, "text"@, text),
        ));
    }
    lemma_then(s.state.blocks, (s1, opening), (s1, sent));
}

proof fn lemma_open_thinking(s: StreamV)
    requires
        live(s.state),
    ensures
        fitted(
            s.state.blocks,
            open_block(s, "thinking"@, part_json("thinking"@, "thinking"@, ""@)),
        ),
{
    lemma_about();
    lemma_open(s, "thinking"@, part_json("thinking"@, "thinking"@, ""@));
}

proof fn lemma_thinking(s: StreamV, thinking: Seq<char>)
    requires
        thinking_is_open(s),
    ensures
        fits(thinking_events(s, thinking), s.state.blocks),
        fitted(s.state.blocks, close_thinking(s)),
{
    lemma_about();
    let index = s.thinking_block_index->0;
    lemma_is_open(s.state, index, "thinking"@);
    assert(fits(thinking_events(s, thinking), s.state.blocks)) by {
        let e = delta_event(index, part_json("thinking_delta"@, "thinking"@, thinking));
        assert(about(e) == Some((index, "thinking"@)));
    }
    let first = delta_event(index, part_json("thinking_delta"@, "thinking"@, ""@));
    let signing = seq![first, signature_delta_event(index)];
    assert(about(first) == Some((index, "thinking"@)));
    assert(fits(signing, s.state.blocks));
    let (state, stop) = block_stop_step(s.state, index);
    lemma_stop(s.state, index, state.blocks);
    lemma_then(s.state.blocks, (s, signing), (StreamV { state, ..s }, opt_events(stop)));
}

proof fn lemma_close(s: StreamV)
    requires
        in_order(s),
    ensures
        fitted(s.state.blocks, close_reasoning(s)),
        fitted(s.state.blocks, close_unfinished(s)),
        fitted(s.state.blocks, close_text(s)),
{
    if thinking_is_open(s) {
        lemma_thinking(s, Seq::empty());
    }
    if let Some(index) = s.text_block_index {
        lemma_stop(s.state, index, block_stop_step(s.state, index).0.blocks);
    }
}

proof fn lemma_search(s: StreamV)
    requires
        in_order(s),
    ensures
        fitted(s.state.blocks, search_step(s)),
{
    if let Some(start) = crate::thinking::first_real(
        s.thinking_buffer,
        crate::thinking::open_tag(),
        0,
    ) {
        let before = s.thinking_buffer.take(start);
        lemma_text(s, before);
        lemma_text_step(s, before);
        let (s1, e1) = if crate::text::blank(before) {
            (s, Seq::empty())
        } else {
            text_step(s, before)
        };
        let s2 = StreamV {
            in_thinking_block: true,
            strip_thinking_leading_newline: true,
            thinking_buffer: s1.thinking_buffer.skip(start + 10),
            thinking_block_index: Some(s1.state.next_block_index),
            ..s1
        };
        lemma_open_thinking(s2);
        lemma_then(
            s.state.blocks,
            (s1, e1),
            open_block(s2, "thinking"@, part_json("thinking"@, "thinking"@, ""@)),
        );
    } else {
        lemma_text(s, s.thinking_buffer.take(safe_chars(s.thinking_buffer, 10)));
    }
}

proof fn lemma_leave(s: StreamV, end: int)
    requires
        thinking_is_open(s),
    ensures
        fitted(s.state.blocks, leave_thinking(s, end)),
{
    let thinking = s.thinking_buffer.take(end);
    lemma_thinking(s, thinking);
    let left = StreamV {
        in_thinking_block: false,
        thinking_extracted: true,
        strip_text_after_thinking_boundary: true,
        ..s
    };
    lemma_thinking(left, Seq::empty());
    lemma_then(s.state.blocks, (s, thinking_events(s, thinking)), close_thinking(left));
}

proof fn lemma_inside(s: StreamV)
    requires
        thinking_is_open(s),
    ensures
        fitted(s.state.blocks, inside_step(s)),
{
    let s0 = strip_step(s);
    match crate::thinking::find_end(s0.thinking_buffer) {
        Some((end, resume)) => {
            lemma_leave(s0, end);
        },
        None => {
            let n = safe_chars(s0.thinking_buffer, 11);
            lemma_thinking(s0, s0.thinking_buffer.take(n));
        },
    }
}

proof fn lemma_after(s: StreamV)
    requires
        in_order(s),
    ensures
        fitted(s.state.blocks, after_step(s)),
{
    let text = buffered_text(s);
    lemma_text(
        StreamV {
            thinking_buffer: Seq::empty(),
            strip_text_after_thinking_boundary: s.strip_text_after_thinking_boundary && text.len()
                == 0,
            ..s
        },
        text,
    );
}

proof fn lemma_content(s: StreamV, content: Seq<char>)
    requires
        in_order(s),
    ensures
        fitted(s.state.blocks, content_step(s, content)),
{
    let s0 = StreamV { thinking_buffer: s.thinking_buffer + content, ..s };
    let searching = !s0.in_thinking_block && !s0.thinking_extracted;
    lemma_search(s0);
    if searching {
        lemma_search_step(s0);
    }
    let (s1, e1) = if searching {
        search_step(s0)
    } else {
        (s0, Seq::empty())
    };
    assert(fitted(s.state.blocks, (s1, e1)));
    assert(in_order(s1));
    if !(searching && !s1.in_thinking_block) {
        if s1.in_thinking_block {
            lemma_inside(s1);
            lemma_inside_step(s1);
        }
        let (s2, e2) = if s1.in_thinking_block {
            inside_step(s1)
        } else {
            (s1, Seq::empty())
        };
        assert(fitted(s1.state.blocks, (s2, e2)));
        lemma_then(s.state.blocks, (s1, e1), (s2, e2));
        if !s2.in_thinking_block {
            assert(in_order(s2));
            lemma_after(s2);
            lemma_then(s.state.blocks, (s2, e1 + e2), after_step(s2));
        }
    }
}

proof fn lemma_filtered(s: StreamV, text: Seq<char>)
    requires
        in_order(s),
    ensures
        fitted(s.state.blocks, filtered_step(s, text)),
{
    let s0 = StreamV {
        output_tokens: crate::tokens::capped(
            s.output_tokens + crate::tokens::capped(crate::tokens::estimate(text)),
        ),
        ..s
    };
    lemma_text(s0, text);
    lemma_content(s0, text);
}

proof fn lemma_call(s: StreamV, call: CompletedV)
    requires
        in_order(s),
    ensures
        fitted(s.state.blocks, call_step(s, call)),
{
    lemma_about();
    lemma_kinds();
    let known = s.tool_block_indices.contains_key(call.id);
    let index = if known {
        s.tool_block_indices[call.id]
    } else {
        s.state.next_block_index
    };
    let s1 = if known {
        s
    } else {
        StreamV {
            state: StateV { next_block_index: index + 1, ..s.state },
            tool_block_indices: s.tool_block_indices.insert(call.id, index),
            ..s
        }
    };
    let block = tool_use_json(call.id, call.name, empty_object());
    let (state2, e2) = block_start_step(
        s1.state,
        index,
        "tool_use"@,
        crate::sse::block_start_json(index, block),
    );
    let t2 = StreamV { state: state2, ..s1 };
    let closed = closed_blocks(s.state.blocks, true);
    lemma_closing(s.state.blocks, true, state2.blocks);
    lemma_position_from(s.state.blocks, index, 0);
    lemma_position_from(closed, index, 0);
    lemma_position_from(state2.blocks, index, 0);
    assert(fitted(s.state.blocks, (t2, e2))) by {
        if !known {
            let k = state2.blocks.len() - 1;
            assert(state2.blocks[k].index == index && state2.blocks[k].kind == "tool_use"@);
            assert(e2.last() == start_event(index, block));
        } else {
            assert(crate::protocol::table(s.state.blocks).contains_key(index));
        }
    }
    let partial = part_json("input_json_delta"@, "partial_json"@, printed(call.input));
    let sent = opt_events(
        block_delta_step(state2, index, crate::sse::block_delta_json(index, partial)),
    );
    assert(fits(sent, state2.blocks)) by {
        if !known {
            let k = state2.blocks.len() - 1;
            assert(state2.blocks[k].index == index && state2.blocks[k].kind == "tool_use"@);
            assert(sent.len() > 0 ==> sent[0] == delta_event(index, partial));
        } else {
            assert(crate::protocol::table(s.state.blocks).contains_key(index));
            assert(crate::protocol::table(s.state.blocks)[index].stopped);
            let i = crate::state::position(s.state.blocks, index)->0;
            let j = crate::state::position(closed, index)->0;
            assert(closed[i].index == index && closed[i].stopped);
            assert(s.state.blocks[j].index == index);
            assert(sent.len() == 0);
        }
    }
    lemma_then(s.state.blocks, (t2, e2), (t2, sent));
    let (state3, stop) = block_stop_step(state2, index);
    lemma_stop(state2, index, state3.blocks);
    lemma_then(
        s.state.blocks,
        (t2, e2 + sent),
        (StreamV { state: state3, ..t2 }, opt_events(stop)),
    );
}

proof fn lemma_calls(s: StreamV, calls: Seq<CompletedV>)
    requires
        in_order(s),
    ensures
        fitted(s.state.blocks, calls_step(s, calls)),
        in_order(calls_step(s, calls).0),
    decreases calls.len(),
{
    if calls.len() > 0 {
        lemma_calls(s, calls.drop_last());
        let r = calls_step(s, calls.drop_last());
        lemma_call(r.0, calls.last());
        lemma_call_step(r.0, calls.last());
        lemma_then(s.state.blocks, r, call_step(r.0, calls.last()));
    }
}

proof fn lemma_at_end(s: StreamV)
    requires
        thinking_is_open(s),
    ensures
        fitted(s.state.blocks, close_at_end(s)),
{
    if let Some(end) = crate::thinking::first_last_close(s.thinking_buffer, 0) {
        lemma_leave(s, end);
    }
}

proof fn lemma_before(s: StreamV)
    requires
        in_order(s),
    ensures
        fitted(s.state.blocks, before_call(s)),
{
    let inside = s.thinking_enabled && s.in_thinking_block;
    if inside {
        lemma_at_end(s);
        lemma_close_at_end(s);
    }
    let (s1, e1) = if inside {
        close_at_end(s)
    } else {
        (s, Seq::empty())
    };
    assert(in_order(s1));
    let held = StreamV { thinking_buffer: Seq::empty(), ..s1 };
    lemma_text(held, s1.thinking_buffer);
    lemma_then(s.state.blocks, (s1, e1), text_step(held, s1.thinking_buffer));
}

proof fn lemma_tool(s: StreamV, t: ToolUseV)
    requires
        in_order(s),
    ensures
        fitted(s.state.blocks, tool_step(s, t)),
{
    let s0 = StreamV { state: StateV { has_tool_use: true, ..s.state }, ..s };
    assert(in_order(s0));
    lemma_before(s0);
    lemma_before_call(s0);
    let (s1, e1) = before_call(s0);
    let (pending, outcome) = push_step(s1.pending, t, s1.tool_name_map);
    if let PushV::Done(call) = outcome {
        let s2 = StreamV { pending, ..s1 };
        assert(in_order(s2));
        lemma_call(s2, call);
        lemma_then(s.state.blocks, (s1, e1), call_step(s2, call));
    }
}

proof fn lemma_redacted(s: StreamV, redacted: Seq<char>)
    requires
        in_order(s),
    ensures
        fitted(s.state.blocks, redacted_step(s, redacted)),
{
    lemma_about();
    lemma_close(s);
    lemma_close_reasoning(s);
    let (s1, e1) = close_reasoning(s);
    lemma_close(s1);
    lemma_close_text(s1);
    let (s2, e2) = close_text(s1);
    lemma_then(s.state.blocks, (s1, e1), (s2, e2));
    let index = s2.state.next_block_index;
    let block = part_json("redacted_thinking"@, "data"@, redacted);
    lemma_open(s2, "redacted_thinking"@, block);
    let (s3, e3) = open_block(s2, "redacted_thinking"@, block);
    lemma_then(s.state.blocks, (s2, e1 + e2), (s3, e3));
    let (state4, stop) = block_stop_step(s3.state, index);
    lemma_stop(s3.state, index, state4.blocks);
    lemma_then(
        s.state.blocks,
        (s3, e1 + e2 + e3),
        (StreamV { state: state4, ..s3 }, opt_events(stop)),
    );
}

proof fn lemma_reasoning_block(s: StreamV)
    requires
        in_order(s),
    ensures
        fitted(s.state.blocks, reasoning_block_step(s)),
        thinking_is_open(reasoning_block_step(s).0),
{
    if !s.reasoning_block_open {
        lemma_kinds();
        lemma_close(s);
        lemma_close_text(s);
        let (s1, e1) = close_text(s);
        let s2 = StreamV {
            reasoning_block_open: true,
            in_thinking_block: false,
            thinking_extracted: true,
            ..s1
        };
        let s3 = StreamV { thinking_block_index: Some(s2.state.next_block_index), ..s2 };
        let block = part_json("thinking"@, "thinking"@, ""@);
        lemma_open_thinking(s3);
        lemma_open_block(s3, "thinking"@, block);
        lemma_then(s.state.blocks, (s1, e1), open_block(s3, "thinking"@, block));
    }
}

proof fn lemma_reasoning(s: StreamV, r: ReasoningV)
    requires
        in_order(s),
    ensures
        fitted(s.state.blocks, reasoning_step(s, r)),
{
    if let Some(redacted) = r.redacted {
        lemma_redacted(s, redacted);
    }
    lemma_reasoning_block(s);
    let (s1, e1) = reasoning_block_step(s);
    lemma_thinking(s1, r.text);
    lemma_then(s.state.blocks, (s1, e1), (s1, thinking_events(s1, r.text)));
}

proof fn lemma_event(s: StreamV, e: EventV)
    requires
        in_order(s),
    ensures
        fitted(s.state.blocks, event_step(s, e)),
{
    reveal(event_step);
    lemma_close(s);
    lemma_close_reasoning(s);
    let r = close_reasoning(s);
    match e {
        EventV::Content(content) => {
            let (text, filter) = crate::xml_filter::scan(
                r.0.filter.buffer + content,
                r.0.filter.stripping,
            );
            lemma_filtered(StreamV { filter, ..r.0 }, text);
            lemma_then(s.state.blocks, r, assistant_step(r.0, content));
        },
        EventV::ToolUse(t) => {
            lemma_tool(r.0, t);
            lemma_then(s.state.blocks, r, tool_step(r.0, t));
        },
        EventV::Reasoning(reasoning) => {
            lemma_reasoning(s, reasoning);
        },
        _ => {},
    }
}

proof fn lemma_all_events(s: StreamV, events: Seq<EventV>)
    requires
        in_order(s),
    ensures
        fitted(s.state.blocks, events_step(s, events)),
        in_order(events_step(s, events).0),
    decreases events.len(),
{
    if events.len() > 0 {
        lemma_all_events(s, events.drop_last());
        let r = events_step(s, events.drop_last());
        lemma_event(r.0, events.last());
        lemma_event_step(r.0, events.last());
        lemma_then(s.state.blocks, r, event_step(r.0, events.last()));
    }
}

proof fn lemma_end(s: StreamV)
    requires
        state_ok(s.state),
    ensures
        fitted(s.state.blocks, end_message(s)),
        state_ok(end_message(s).0.state),
{
    lemma_event_names();
    let (t, events) = end_message(s);
    let all = t.state.blocks;
    lemma_closing(s.state.blocks, false, all);
    let closing = closing_events(s.state.blocks, false);
    assert forall|i: int| 0 <= i < events.len() implies match about(#[trigger] events[i]) {
        Some((index, kind)) => has_kind(all, index, kind),
        None => true,
    } by {
        if i < closing.len() {
            assert(events[i] == closing[i]);
        } else {
            assert(about(events[i]) is None);
        }
    }
    assert forall|i: int, j: int|
        #![trigger all[i], all[j]]
        0 <= i < j < all.len() implies all[i].index != all[j].index by {
        assert(s.state.blocks[i].index != s.state.blocks[j].index);
    }
}

proof fn lemma_end_with_error(s: StreamV, e: ToolErrorV)
    requires
        in_order(s),
    ensures
        fitted(s.state.blocks, end_with_error(s, e)),
        state_ok(end_with_error(s, e).0.state),
{
    lemma_event_names();
    lemma_close(s);
    lemma_close_reasoning(s);
    let r1 = close_reasoning(s);
    lemma_close(r1.0);
    lemma_close_unfinished(r1.0);
    let r2 = close_unfinished(r1.0);
    lemma_end(r2.0);
    let r3 = end_message(r2.0);
    lemma_then(s.state.blocks, r1, r2);
    lemma_then(s.state.blocks, (r2.0, r1.1 + r2.1), r3);
    let all = end_with_error(s, e).1;
    let told = r1.1 + r2.1 + r3.1;
    assert(about(all.last()) is None);
    assert forall|i: int| 0 <= i < all.len() implies match about(#[trigger] all[i]) {
        Some((index, kind)) => has_kind(r3.0.state.blocks, index, kind),
        None => true,
    } by {
        if i < told.len() {
            assert(all[i] == told[i]);
        }
    }
}

proof fn lemma_flush(s: StreamV)
    requires
        in_order(s),
    ensures
        fitted(s.state.blocks, flush_buffer(s)),
{
    if s.thinking_enabled && s.in_thinking_block {
        lemma_at_end(s);
        lemma_thinking(s, s.thinking_buffer);
        lemma_close(s);
        lemma_then(
            s.state.blocks,
            (s, thinking_events(s, s.thinking_buffer)),
            close_unfinished(s),
        );
    } else {
        lemma_after(s);
    }
}

proof fn lemma_end_well(s: StreamV)
    requires
        in_order(s),
    ensures
        fitted(s.state.blocks, end_well(s)),
        state_ok(end_well(s).0.state),
{
    lemma_close(s);
    lemma_close_reasoning(s);
    let r1 = close_reasoning(s);
    lemma_flush(r1.0);
    lemma_flush_buffer(r1.0);
    let r2 = flush_buffer(r1.0);
    lemma_then(s.state.blocks, r1, r2);
    let r3 = fill_text(r2.0);
    let idle = with_stop_reason(StreamV { in_thinking_block: false, ..r2.0 }, "max_tokens"@);
    lemma_with_stop_reason(StreamV { in_thinking_block: false, ..r2.0 }, "max_tokens"@);
    lemma_text(idle, " "@);
    lemma_text_step(idle, " "@);
    lemma_same_text(with_stop_reason(r2.0, "max_tokens"@), " "@);
    assert(idle == (StreamV {
        in_thinking_block: false,
        ..with_stop_reason(r2.0, "max_tokens"@)
    }));
    assert(fitted(r2.0.state.blocks, r3));
    lemma_then(s.state.blocks, (r2.0, r1.1 + r2.1), r3);
    lemma_end(r3.0);
    lemma_then(s.state.blocks, (r3.0, r1.1 + r2.1 + r3.1), end_message(r3.0));
}

proof fn lemma_finish(s: StreamV)
    requires
        in_order(s),
    ensures
        fitted(s.state.blocks, finish_stream(s)),
        state_ok(finish_stream(s).0.state),
{
    let (pending, outcome) = finish_step(s.pending, s.tool_name_map);
    if let FinishV::Done(calls) = outcome {
        let s0 = StreamV { pending, ..s };
        assert(in_order(s0));
        lemma_calls(s0, calls);
    }
    lemma_flush_calls(s);
    let r1 = flush_calls(s);
    assert(fitted(s.state.blocks, r1));
    let quiet = StreamV {
        filter: crate::xml_filter::FilterV { buffer: Seq::empty(), stripping: false },
        ..r1.0
    };
    assert(in_order(quiet));
    lemma_filtered(quiet, crate::xml_filter::stripped(r1.0.filter.buffer));
    lemma_flush_filter(r1.0);
    let r2 = flush_filter(r1.0);
    lemma_then(s.state.blocks, r1, r2);
    match r2.0.tool_json_error {
        Some(e) => {
            lemma_end_with_error(r2.0, e);
            lemma_then(s.state.blocks, (r2.0, r1.1 + r2.1), end_with_error(r2.0, e));
        },
        None => {
            lemma_end_well(r2.0);
            lemma_then(s.state.blocks, (r2.0, r1.1 + r2.1), end_well(r2.0));
        },
    }
}

proof fn lemma_start(s: StreamV)
    requires
        unsent(s),
    ensures
        fitted(s.state.blocks, initial_step(s)),
{
    lemma_about();
    lemma_event_names();
    lemma_initial_step(s);
    let (state, start) = crate::state::message_start_step(
        s.state,
        crate::stream_model::start_payload(s),
    );
    let s1 = StreamV { state, ..s };
    assert(fits(opt_events(start), s1.state.blocks)) by {
        assert(about(start->0) is None);
    }
    if !s1.thinking_enabled {
        let fresh = StreamV { text_block_index: Some(s1.state.next_block_index), ..s1 };
        let block = part_json("text"@, "text"@, ""@);
        lemma_open(fresh, "text"@, block);
        lemma_then(s.state.blocks, (s1, opt_events(start)), open_block(fresh, "text"@, block));
    }
}

/// What is added to a block of a stream is of the block's kind, whatever the upstream sends: text
/// goes into text blocks, thinking and signatures go into thinking blocks, and arguments go into
/// blocks of tool calls.
pub proof fn law_blocks_hold_one_kind(s: StreamV, events: Seq<EventV>, i: int, j: int)
    requires
        unsent(s),
        0 <= i < transcript(s, events).len(),
        0 <= j < transcript(s, events).len(),
    ensures
        match (about(transcript(s, events)[i]), about(transcript(s, events)[j])) {
            (Some((block, kind)), Some((other, other_kind))) => block == other ==> kind
                == other_kind,
            _ => true,
        },
{
    lemma_start(s);
    lemma_initial_step(s);
    let r1 = initial_step(s);
    lemma_all_events(r1.0, events);
    let r2 = events_step(r1.0, events);
    lemma_finish(r2.0);
    let r3 = finish_stream(r2.0);
    lemma_then(s.state.blocks, r1, r2);
    lemma_then(s.state.blocks, (r2.0, r1.1 + r2.1), r3);
    let all = r3.0.state.blocks;
    let sent = transcript(s, events);
    assert(fits(sent, all));
    if let Some((block, kind)) = about(sent[i]) {
        if let Some((other, other_kind)) = about(sent[j]) {
            assert(has_kind(all, block, kind) && has_kind(all, other, other_kind));
            let a = choose|k: int|
                0 <= k < all.len() && (#[trigger] all[k]).index == block && all[k].kind == kind;
            let b = choose|k: int|
                0 <= k < all.len() && (#[trigger] all[k]).index == other && all[k].kind
                    == other_kind;
            assert(a < b ==> all[a].index != all[b].index);
            assert(b < a ==> all[b].index != all[a].index);
        }
    }
}

} // verus!
