//! The client gets every tool call, and all reasoning that the upstream holds back.

use crate::answer_laws::{pieces, response_calls, whole_calls};
use crate::events::EventV;
use crate::json::{empty_object, field, printed, string_field};
use crate::protocol::live;
use crate::sse::{block_delta_json, block_start_json, delta_event, opt_events, part_json};
use crate::sse::{start_event, stop_event, tool_use_json, SseEventV};
use crate::state::{block_delta_step, block_start_step, block_stop_step, closing_events};
use crate::state::{lemma_position_from, position, BlockV, StateV};
use crate::stream_laws::{in_order, lemma_before_call, lemma_call_step, lemma_close_reasoning};
use crate::stream_laws::{lemma_events_step, lemma_initial_step, unsent};
use crate::stream_model::{after_step, assistant_step, before_call, call_step, calls_step};
use crate::stream_model::{close_at_end, close_reasoning, close_text, close_thinking};
use crate::stream_model::{close_unfinished, content_step, disclosed_step, end_message, end_well};
use crate::stream_model::{event_step, events_step, fill_text, filtered_step, finish_stream};
use crate::stream_model::{flush_buffer, flush_calls, flush_filter, initial_step, inside_step};
use crate::stream_model::{last_state, leave_thinking, open_block, reasoning_block_step};
use crate::stream_model::{redacted_step, search_step, strip_step, text_block_step, text_step};
use crate::stream_model::{thinking_events, tool_step, transcript, StreamV};
use crate::tool_json::{finish_step, push_step, pushed, CompletedV, FinishV, PushV};
use vstd::prelude::*;

verus! {

/// A part of an answer that is neither text nor thinking.
pub enum PartV {
    /// A tool call begins.
    Call { id: Seq<char>, name: Seq<char> },
    /// The arguments of a tool call, as JSON text.
    Arguments(Seq<char>),
    /// Reasoning that the upstream holds back.
    HeldBack(Seq<char>),
}

/// The part that an event carries, where it carries one.
pub open spec fn part_of(e: SseEventV) -> Option<PartV> {
    if e.event == "content_block_start"@ {
        match field(e.data, "content_block"@) {
            Some(block) => match (
                string_field(block, "id"@),
                string_field(block, "name"@),
                string_field(block, "data"@),
            ) {
                (Some(id), Some(name), _) => Some(PartV::Call { id, name }),
                (_, _, Some(data)) => Some(PartV::HeldBack(data)),
                _ => None,
            },
            None => None,
        }
    } else if e.event == "content_block_delta"@ {
        match field(e.data, "delta"@) {
            Some(delta) => match string_field(delta, "partial_json"@) {
                Some(text) => Some(PartV::Arguments(text)),
                None => None,
            },
            None => None,
        }
    } else {
        None
    }
}

/// The parts that events carry, in their order.
pub open spec fn parts(events: Seq<SseEventV>) -> Seq<PartV>
    decreases events.len(),
{
    if events.len() == 0 {
        Seq::empty()
    } else {
        match part_of(events.last()) {
            Some(part) => parts(events.drop_last()).push(part),
            None => parts(events.drop_last()),
        }
    }
}

/// The parts of tool calls: for each, that it begins, and its arguments.
pub open spec fn call_parts(calls: Seq<CompletedV>) -> Seq<PartV>
    decreases calls.len(),
{
    if calls.len() == 0 {
        Seq::empty()
    } else {
        call_parts(calls.drop_last()) + one_call(calls.last())
    }
}

/// The parts of one tool call.
pub open spec fn one_call(call: CompletedV) -> Seq<PartV> {
    seq![
        PartV::Call { id: call.id, name: call.name },
        PartV::Arguments(printed(call.input)),
    ]
}

/// The parts that upstream events make: tool calls where they become whole and, where thinking is
/// shown, reasoning that the upstream holds back.
pub open spec fn upstream_parts(
    events: Seq<EventV>,
    names: Map<Seq<char>, String>,
    shown: bool,
) -> Seq<PartV>
    decreases events.len(),
{
    if events.len() == 0 {
        Seq::empty()
    } else {
        let front = events.drop_last();
        upstream_parts(front, names, shown) + match events.last() {
            EventV::ToolUse(t) => match push_step(
                pushed(Seq::empty(), pieces(front), names),
                t,
                names,
            ).1 {
                PushV::Done(call) => one_call(call),
                _ => Seq::empty(),
            },
            EventV::Reasoning(r) => match r.redacted {
                Some(data) => if shown && data.len() > 0 {
                    seq![PartV::HeldBack(data)]
                } else {
                    Seq::empty()
                },
                None => Seq::empty(),
            },
            _ => Seq::empty(),
        }
    }
}

/// The tool calls that the end of a response completes: those without arguments.
pub open spec fn last_calls(events: Seq<EventV>, names: Map<Seq<char>, String>) -> Seq<CompletedV> {
    match finish_step(pushed(Seq::empty(), pieces(events), names), names).1 {
        FinishV::Done(more) => more,
        FinishV::Failed(_) => Seq::empty(),
    }
}

/// No two of the calls have the same id.
pub open spec fn distinct(calls: Seq<CompletedV>) -> bool {
    forall|i: int, j: int|
        #![trigger calls[i], calls[j]]
        0 <= i < j < calls.len() ==> calls[i].id != calls[j].id
}

/// Events that carry no part.
pub open spec fn plain(events: Seq<SseEventV>) -> bool {
    forall|i: int| 0 <= i < events.len() ==> part_of(#[trigger] events[i]) is None
}

/// What a step keeps that sends no part: the tool calls, and all that is told at the end.
pub open spec fn keeps_calls(s: StreamV, t: StreamV) -> bool {
    &&& t.tool_block_indices == s.tool_block_indices
    &&& t.pending == s.pending
    &&& t.tool_name_map == s.tool_name_map
    &&& t.thinking_enabled == s.thinking_enabled
    &&& t.tool_json_error == s.tool_json_error
    &&& t.state.stop_reason == s.state.stop_reason
    &&& t.state.has_tool_use == s.state.has_tool_use
    &&& t.context_input_tokens == s.context_input_tokens
    &&& t.input_tokens == s.input_tokens
    &&& t.cache_usage == s.cache_usage
}

proof fn lemma_parts_concat(a: Seq<SseEventV>, b: Seq<SseEventV>)
    ensures
        parts(a + b) == parts(a) + parts(b),
    decreases b.len(),
{
    if b.len() == 0 {
        assert(a + b =~= a);
        assert(parts(a) + parts(b) =~= parts(a));
    } else {
        lemma_parts_concat(a, b.drop_last());
        assert((a + b).drop_last() =~= a + b.drop_last());
        assert(parts(a + b) =~= parts(a) + parts(b));
    }
}

proof fn lemma_plain(events: Seq<SseEventV>)
    requires
        plain(events),
    ensures
        parts(events) == Seq::<PartV>::empty(),
    decreases events.len(),
{
    if events.len() > 0 {
        let front = events.drop_last();
        assert forall|i: int| 0 <= i < front.len() implies part_of(#[trigger] front[i]) is None by {
            assert(front[i] == events[i]);
        }
        lemma_plain(front);
        assert(part_of(events[events.len() - 1]) is None);
    }
}

pub proof fn lemma_part_of()
    ensures
        forall|index: int, text: Seq<char>|
            part_of(
                #[trigger] start_event(index, part_json("text"@, "text"@, text)),
            ) is None,
        forall|index: int, text: Seq<char>|
            part_of(
                #[trigger] start_event(index, part_json("thinking"@, "thinking"@, text)),
            ) is None,
        forall|index: int, data: Seq<char>|
            part_of(
                #[trigger] start_event(index, part_json("redacted_thinking"@, "data"@, data)),
            ) == Some(PartV::HeldBack(data)),
        forall|index: int, id: Seq<char>, name: Seq<char>|
            part_of(
                #[trigger] start_event(index, tool_use_json(id, name, empty_object())),
            ) == Some(PartV::Call { id, name }),
        forall|index: int, text: Seq<char>|
            part_of(
                #[trigger] delta_event(index, part_json("text_delta"@, "text"@, text)),
            ) is None,
        forall|index: int, text: Seq<char>|
            part_of(
                #[trigger] delta_event(index, part_json("thinking_delta"@, "thinking"@, text)),
            ) is None,
        forall|index: int, text: Seq<char>|
            part_of(
                #[trigger] delta_event(index, part_json("signature_delta"@, "signature"@, text)),
            ) is None,
        forall|index: int, text: Seq<char>|
            part_of(
                #[trigger] delta_event(
                    index,
                    part_json("input_json_delta"@, "partial_json"@, text),
                ),
            ) == Some(PartV::Arguments(text)),
        forall|index: int| part_of(#[trigger] stop_event(index)) is None,
        "message_start"@ != "content_block_start"@ && "message_start"@ != "content_block_delta"@,
        "message_delta"@ != "content_block_start"@ && "message_delta"@ != "content_block_delta"@,
        "message_stop"@ != "content_block_start"@ && "message_stop"@ != "content_block_delta"@,
{
    reveal_strlit("type");
    reveal_strlit("index");
    reveal_strlit("delta");
    reveal_strlit("content_block");
    reveal_strlit("text");
    reveal_strlit("thinking");
    reveal_strlit("signature");
    reveal_strlit("data");
    reveal_strlit("partial_json");
    reveal_strlit("id");
    reveal_strlit("name");
    reveal_strlit("input");
    reveal_strlit("content_block_start");
    reveal_strlit("content_block_delta");
    reveal_strlit("content_block_stop");
    reveal_strlit("message_start");
    reveal_strlit("message_delta");
    reveal_strlit("message_stop");
    assert("type"@.len() == 4 && "index"@.len() == 5 && "delta"@.len() == 5
        && "content_block"@.len() == 13 && "text"@.len() == 4 && "thinking"@.len() == 8
        && "signature"@.len() == 9 && "data"@.len() == 4 && "partial_json"@.len() == 12
        && "id"@.len() == 2 && "name"@.len() == 4 && "input"@.len() == 5);
    assert("type"@[1] == 'y' && "text"@[1] == 'e' && "data"@[0] == 'd' && "name"@[0] == 'n'
        && "type"@[0] == 't' && "text"@[0] == 't' && "index"@[0] == 'i' && "delta"@[0] == 'd');
    assert("content_block_start"@.len() == 19 && "content_block_delta"@.len() == 19
        && "content_block_stop"@.len() == 18 && "message_start"@.len() == 13
        && "message_delta"@.len() == 13 && "message_stop"@.len() == 12);
    assert("content_block_start"@[14] == 's' && "content_block_delta"@[14] == 'd');
}

proof fn lemma_closing_is_plain(blocks: Seq<BlockV>, text_only: bool)
    ensures
        plain(closing_events(blocks, text_only)),
    decreases blocks.len(),
{
    if blocks.len() > 0 {
        lemma_closing_is_plain(blocks.drop_last(), text_only);
        lemma_part_of();
    }
}

proof fn lemma_open_text(s: StreamV)
    ensures
        plain(text_block_step(s).1),
        keeps_calls(s, text_block_step(s).0),
{
    lemma_part_of();
    crate::stream_laws::lemma_kinds();
    let opening = start_event(s.state.next_block_index, part_json("text"@, "text"@, ""@));
    assert(part_of(opening) is None);
}

pub proof fn lemma_text_is_plain(s: StreamV, text: Seq<char>)
    ensures
        plain(text_step(s, text).1),
        keeps_calls(s, text_step(s, text).0),
{
    lemma_part_of();
    lemma_open_text(s);
    let s1 = text_block_step(s).0;
    if let Some(index) = s1.text_block_index {
        assert(part_of(delta_event(index, part_json("text_delta"@, "text"@, text))) is None);
    }
}

proof fn lemma_open_thinking(s: StreamV)
    ensures
        plain(open_block(s, "thinking"@, part_json("thinking"@, "thinking"@, ""@)).1),
        keeps_calls(
            s,
            open_block(s, "thinking"@, part_json("thinking"@, "thinking"@, ""@)).0,
        ),
{
    lemma_part_of();
    crate::stream_laws::lemma_kinds();
    let block = part_json("thinking"@, "thinking"@, ""@);
    assert(part_of(start_event(s.state.next_block_index, block)) is None);
}

pub proof fn lemma_thinking_is_plain(s: StreamV, thinking: Seq<char>)
    ensures
        plain(thinking_events(s, thinking)),
        plain(close_thinking(s).1),
        keeps_calls(s, close_thinking(s).0),
        plain(close_reasoning(s).1),
        keeps_calls(s, close_reasoning(s).0),
        plain(close_unfinished(s).1),
        keeps_calls(s, close_unfinished(s).0),
        plain(close_text(s).1),
        keeps_calls(s, close_text(s).0),
{
    lemma_part_of();
    if let Some(index) = s.thinking_block_index {
        assert(part_of(
            delta_event(index, part_json("thinking_delta"@, "thinking"@, thinking)),
        ) is None);
        assert(part_of(
            delta_event(index, part_json("thinking_delta"@, "thinking"@, ""@)),
        ) is None);
        assert(part_of(
            delta_event(
                index,
                part_json(
                    "signature_delta"@,
                    "signature"@,
                    crate::sse::THINKING_SIGNATURE_PLACEHOLDER@,
                ),
            ),
        ) is None);
        assert(part_of(stop_event(index)) is None);
    }
    if let Some(index) = s.text_block_index {
        assert(part_of(stop_event(index)) is None);
    }
}

proof fn lemma_search_is_plain(s: StreamV)
    ensures
        plain(search_step(s).1),
        keeps_calls(s, search_step(s).0),
{
    match crate::thinking::first_real(s.thinking_buffer, crate::thinking::open_tag(), 0) {
        Some(start) => {
            let before = s.thinking_buffer.take(start);
            lemma_text_is_plain(s, before);
            let s1 = if crate::text::blank(before) {
                s
            } else {
                text_step(s, before).0
            };
            lemma_open_thinking(
                StreamV {
                    in_thinking_block: true,
                    strip_thinking_leading_newline: true,
                    thinking_buffer: s1.thinking_buffer.skip(start + 10),
                    thinking_block_index: Some(s1.state.next_block_index),
                    ..s1
                },
            );
        },
        None => {
            let n = crate::stream_model::safe_chars(s.thinking_buffer, 10);
            lemma_text_is_plain(s, s.thinking_buffer.take(n));
        },
    }
}

proof fn lemma_leave_is_plain(s: StreamV, end: int)
    ensures
        plain(leave_thinking(s, end).1),
        keeps_calls(s, leave_thinking(s, end).0),
{
    lemma_thinking_is_plain(s, s.thinking_buffer.take(end));
    lemma_thinking_is_plain(
        StreamV {
            in_thinking_block: false,
            thinking_extracted: true,
            strip_text_after_thinking_boundary: true,
            ..s
        },
        Seq::empty(),
    );
}

proof fn lemma_inside_is_plain(s: StreamV)
    ensures
        plain(inside_step(s).1),
        keeps_calls(s, inside_step(s).0),
{
    let s0 = strip_step(s);
    match crate::thinking::find_end(s0.thinking_buffer) {
        Some((end, resume)) => {
            lemma_leave_is_plain(s0, end);
        },
        None => {
            let n = crate::stream_model::safe_chars(s0.thinking_buffer, 11);
            lemma_thinking_is_plain(s0, s0.thinking_buffer.take(n));
        },
    }
}

pub proof fn lemma_after_is_plain(s: StreamV)
    ensures
        plain(after_step(s).1),
        keeps_calls(s, after_step(s).0),
{
    let text = crate::stream_model::buffered_text(s);
    lemma_text_is_plain(
        StreamV {
            thinking_buffer: Seq::empty(),
            strip_text_after_thinking_boundary: s.strip_text_after_thinking_boundary && text.len()
                == 0,
            ..s
        },
        text,
    );
}

proof fn lemma_content_is_plain(s: StreamV, content: Seq<char>)
    ensures
        plain(content_step(s, content).1),
        keeps_calls(s, content_step(s, content).0),
{
    let s0 = StreamV { thinking_buffer: s.thinking_buffer + content, ..s };
    let searching = !s0.in_thinking_block && !s0.thinking_extracted;
    lemma_search_is_plain(s0);
    let s1 = if searching {
        search_step(s0).0
    } else {
        s0
    };
    lemma_inside_is_plain(s1);
    let s2 = if s1.in_thinking_block {
        inside_step(s1).0
    } else {
        s1
    };
    lemma_after_is_plain(s2);
}

pub proof fn lemma_filtered_is_plain(s: StreamV, text: Seq<char>)
    ensures
        plain(filtered_step(s, text).1),
        keeps_calls(s, filtered_step(s, text).0),
{
    let s0 = StreamV {
        output_tokens: crate::tokens::capped(
            s.output_tokens + crate::tokens::capped(crate::tokens::estimate(text)),
        ),
        ..s
    };
    lemma_content_is_plain(s0, text);
    lemma_text_is_plain(s0, text);
}

pub proof fn lemma_close_at_end_is_plain(s: StreamV)
    ensures
        plain(close_at_end(s).1),
        keeps_calls(s, close_at_end(s).0),
{
    if let Some(end) = crate::thinking::first_last_close(s.thinking_buffer, 0) {
        lemma_leave_is_plain(s, end);
    }
}

pub proof fn lemma_before_call_is_plain(s: StreamV)
    ensures
        plain(before_call(s).1),
        keeps_calls(s, before_call(s).0),
{
    lemma_close_at_end_is_plain(s);
    let s1 = if s.thinking_enabled && s.in_thinking_block {
        close_at_end(s).0
    } else {
        s
    };
    lemma_text_is_plain(StreamV { thinking_buffer: Seq::empty(), ..s1 }, s1.thinking_buffer);
}

pub proof fn lemma_disclosed_is_plain(s: StreamV, text: Seq<char>)
    ensures
        plain(disclosed_step(s, text).1),
        keeps_calls(s, disclosed_step(s, text).0),
{
    lemma_thinking_is_plain(s, text);
    let s1 = close_text(s).0;
    let s2 = StreamV {
        reasoning_block_open: true,
        in_thinking_block: false,
        thinking_extracted: true,
        ..s1
    };
    lemma_open_thinking(
        StreamV { thinking_block_index: Some(s2.state.next_block_index), ..s2 },
    );
    lemma_thinking_is_plain(reasoning_block_step(s).0, text);
}

pub proof fn lemma_redacted_is_sent(s: StreamV, redacted: Seq<char>)
    requires
        in_order(s),
    ensures
        parts(redacted_step(s, redacted).1) == seq![PartV::HeldBack(redacted)],
        keeps_calls(s, redacted_step(s, redacted).0),
{
    lemma_part_of();
    crate::stream_laws::lemma_kinds();
    lemma_thinking_is_plain(s, Seq::empty());
    lemma_close_reasoning(s);
    let (s1, e1) = close_reasoning(s);
    lemma_thinking_is_plain(s1, Seq::empty());
    crate::stream_laws::lemma_close_text(s1);
    let (s2, e2) = close_text(s1);
    let index = s2.state.next_block_index;
    let block = part_json("redacted_thinking"@, "data"@, redacted);
    let (s3, e3) = open_block(s2, "redacted_thinking"@, block);
    lemma_position_from(s2.state.blocks, index, 0);
    assert(live(s2.state));
    assert(position(s2.state.blocks, index) is None);
    assert(e3 =~= seq![start_event(index, block)]);
    let stop = block_stop_step(s3.state, index).1;
    assert(plain(opt_events(stop)));
    lemma_plain(e1);
    lemma_plain(e2);
    lemma_plain(opt_events(stop));
    lemma_one_part(start_event(index, block));
    lemma_parts_concat(e1, e2);
    lemma_parts_concat(e1 + e2, e3);
    lemma_parts_concat(e1 + e2 + e3, opt_events(stop));
    assert(parts(redacted_step(s, redacted).1) =~= seq![PartV::HeldBack(redacted)]);
}

proof fn lemma_one_part(e: SseEventV)
    ensures
        parts(seq![e]) == (match part_of(e) {
            Some(part) => seq![part],
            None => Seq::empty(),
        }),
{
    assert(seq![e].drop_last() =~= Seq::empty());
    assert(parts(Seq::<SseEventV>::empty()) == Seq::<PartV>::empty());
    assert(seq![e].last() == e);
    if let Some(part) = part_of(e) {
        assert(Seq::<PartV>::empty().push(part) =~= seq![part]);
    }
}

/// A tool call with a new id is sent: that it begins, and its arguments.
pub proof fn lemma_call_is_sent(s: StreamV, call: CompletedV)
    requires
        in_order(s),
        !s.tool_block_indices.contains_key(call.id),
    ensures
        parts(call_step(s, call).1) == one_call(call),
        call_step(s, call).0.tool_block_indices.dom() == s.tool_block_indices.dom().insert(
            call.id,
        ),
        call_step(s, call).0.pending == s.pending,
        call_step(s, call).0.tool_name_map == s.tool_name_map,
        call_step(s, call).0.thinking_enabled == s.thinking_enabled,
        call_step(s, call).0.tool_json_error == s.tool_json_error,
{
    lemma_part_of();
    let index = s.state.next_block_index;
    let state1 = StateV { next_block_index: index + 1, ..s.state };
    let block = tool_use_json(call.id, call.name, empty_object());
    let closed = crate::state::closed_blocks(s.state.blocks, true);
    let closing = closing_events(s.state.blocks, true);
    lemma_closing_is_plain(s.state.blocks, true);
    assert(live(s.state));
    lemma_position_from(closed, index, 0);
    if let Some(i) = position(closed, index) {
        assert(closed[i].index == s.state.blocks[i].index);
        assert(false);
    }
    let (state2, e2) = block_start_step(
        state1,
        index,
        "tool_use"@,
        block_start_json(index, block),
    );
    assert(e2 =~= closing + seq![start_event(index, block)]);
    let b = BlockV { index, kind: "tool_use"@, started: true, stopped: false };
    assert(state2.blocks =~= closed.push(b));
    lemma_position_from(state2.blocks, index, 0);
    let at = position(state2.blocks, index);
    if at is None {
        assert(state2.blocks[state2.blocks.len() - 1].index == index);
        assert(false);
    }
    let i = at->0;
    if i < closed.len() {
        assert(closed[i].index == index);
        assert(closed[i].index == s.state.blocks[i].index);
        assert(false);
    }
    assert(state2.blocks[i] == b);
    let partial = printed(call.input);
    let delta = block_delta_step(
        state2,
        index,
        block_delta_json(index, part_json("input_json_delta"@, "partial_json"@, partial)),
    );
    let args = delta_event(index, part_json("input_json_delta"@, "partial_json"@, partial));
    assert(delta == Some(args));
    let stop = block_stop_step(state2, index).1;
    lemma_plain(closing);
    lemma_one_part(start_event(index, block));
    lemma_one_part(args);
    assert(plain(opt_events(stop)));
    lemma_plain(opt_events(stop));
    lemma_parts_concat(closing, seq![start_event(index, block)]);
    lemma_parts_concat(e2, opt_events(delta));
    lemma_parts_concat(e2 + opt_events(delta), opt_events(stop));
    assert(parts(call_step(s, call).1) =~= one_call(call));
    assert(call_step(s, call).0.tool_block_indices.dom() =~= s.tool_block_indices.dom().insert(
        call.id,
    ));
}

pub proof fn lemma_calls_are_sent(s: StreamV, calls: Seq<CompletedV>)
    requires
        in_order(s),
        distinct(calls),
        forall|i: int|
            0 <= i < calls.len() ==> !s.tool_block_indices.contains_key((#[trigger] calls[i]).id),
    ensures
        parts(calls_step(s, calls).1) == call_parts(calls),
        in_order(calls_step(s, calls).0),
        forall|id: Seq<char>| #[trigger]
            calls_step(s, calls).0.tool_block_indices.contains_key(id)
                ==> s.tool_block_indices.contains_key(id) || exists|i: int|
                0 <= i < calls.len() && (#[trigger] calls[i]).id == id,
        calls_step(s, calls).0.tool_json_error == s.tool_json_error,
    decreases calls.len(),
{
    if calls.len() > 0 {
        let front = calls.drop_last();
        let last = calls.last();
        let n = calls.len() - 1;
        assert forall|i: int| 0 <= i < front.len() implies !s.tool_block_indices.contains_key(
            (#[trigger] front[i]).id,
        ) by {
            assert(front[i] == calls[i]);
        }
        assert(distinct(front)) by {
            assert forall|i: int, j: int|
                #![trigger front[i], front[j]]
                0 <= i < j < front.len() implies front[i].id != front[j].id by {
                assert(calls[i].id != calls[j].id);
            }
        }
        lemma_calls_are_sent(s, front);
        let (s1, e1) = calls_step(s, front);
        assert(calls[n] == last);
        if s1.tool_block_indices.contains_key(last.id) {
            let i = choose|i: int| 0 <= i < front.len() && (#[trigger] front[i]).id == last.id;
            assert(calls[i].id != calls[n].id);
        }
        lemma_call_is_sent(s1, last);
        lemma_call_step(s1, last);
        let (s2, e2) = call_step(s1, last);
        lemma_parts_concat(e1, e2);
        assert forall|id: Seq<char>| #[trigger]
            s2.tool_block_indices.contains_key(id) implies s.tool_block_indices.contains_key(id)
            || exists|i: int| 0 <= i < calls.len() && (#[trigger] calls[i]).id == id by {
            assert(s2.tool_block_indices.dom().contains(id));
            if id == last.id {
                assert(calls[n].id == id);
            } else {
                assert(s1.tool_block_indices.contains_key(id));
                if !s.tool_block_indices.contains_key(id) {
                    let i = choose|i: int| 0 <= i < front.len() && (#[trigger] front[i]).id == id;
                    assert(calls[i].id == id);
                }
            }
        }
    }
}

/// The calls that have been sent are those that were whole.
pub open spec fn sent_only(s: StreamV, calls: Seq<CompletedV>) -> bool {
    forall|id: Seq<char>| #[trigger]
        s.tool_block_indices.contains_key(id) ==> exists|i: int|
            0 <= i < calls.len() && (#[trigger] calls[i]).id == id
}

proof fn lemma_tool_step_sends(s: StreamV, t: crate::tool_json::ToolUseV)
    requires
        in_order(s),
        push_step(s.pending, t, s.tool_name_map).1 matches PushV::Done(call)
            ==> !s.tool_block_indices.contains_key(call.id),
    ensures
        ({
            let outcome = push_step(s.pending, t, s.tool_name_map).1;
            let (u, e) = tool_step(s, t);
            &&& parts(e) == (match outcome {
                PushV::Done(call) => one_call(call),
                _ => Seq::empty(),
            })
            &&& u.pending == push_step(s.pending, t, s.tool_name_map).0
            &&& u.tool_name_map == s.tool_name_map
            &&& u.thinking_enabled == s.thinking_enabled
            &&& forall|id: Seq<char>| #[trigger]
                u.tool_block_indices.contains_key(id) ==> s.tool_block_indices.contains_key(id) || (
                outcome matches PushV::Done(call) && call.id == id)
            &&& s.tool_json_error is Some ==> u.tool_json_error is Some
        }),
{
    let s0 = StreamV { state: StateV { has_tool_use: true, ..s.state }, ..s };
    assert(in_order(s0));
    lemma_before_call(s0);
    lemma_before_call_is_plain(s0);
    let (s1, e1) = before_call(s0);
    lemma_plain(e1);
    let (pending, outcome) = push_step(s1.pending, t, s1.tool_name_map);
    let s2 = StreamV { pending, ..s1 };
    assert(in_order(s2));
    if let PushV::Done(call) = outcome {
        lemma_call_is_sent(s2, call);
        let (s3, e3) = call_step(s2, call);
        lemma_parts_concat(e1, e3);
        assert(parts(e1 + e3) =~= one_call(call));
        assert forall|id: Seq<char>| #[trigger]
            s3.tool_block_indices.contains_key(id) implies s.tool_block_indices.contains_key(id)
            || call.id == id by {
            assert(s3.tool_block_indices.dom().contains(id));
        }
    }
}

/// What an event sends of parts, and what it keeps.
pub proof fn lemma_event_sends(s: StreamV, e: EventV)
    requires
        in_order(s),
        e matches EventV::ToolUse(t) ==> (push_step(
            s.pending,
            t,
            s.tool_name_map,
        ).1 matches PushV::Done(call) ==> !s.tool_block_indices.contains_key(call.id)),
    ensures
        ({
            let (u, sent) = event_step(s, e);
            &&& u.tool_name_map == s.tool_name_map
            &&& u.thinking_enabled == s.thinking_enabled
            &&& s.tool_json_error is Some ==> u.tool_json_error is Some
            &&& match e {
                EventV::ToolUse(t) => {
                    let (pending, outcome) = push_step(s.pending, t, s.tool_name_map);
                    &&& u.pending == pending
                    &&& parts(sent) == (match outcome {
                        PushV::Done(call) => one_call(call),
                        _ => Seq::empty(),
                    })
                    &&& forall|id: Seq<char>| #[trigger]
                        u.tool_block_indices.contains_key(id)
                            ==> s.tool_block_indices.contains_key(id) || (
                        outcome matches PushV::Done(call) && call.id == id)
                },
                _ => {
                    &&& u.pending == s.pending
                    &&& u.tool_block_indices == s.tool_block_indices
                    &&& parts(sent) == (match e {
                        EventV::Reasoning(r) => match r.redacted {
                            Some(data) => if s.thinking_enabled && data.len() > 0 {
                                seq![PartV::HeldBack(data)]
                            } else {
                                Seq::empty()
                            },
                            None => Seq::empty(),
                        },
                        _ => Seq::empty(),
                    })
                },
            }
        }),
{
    reveal(event_step);
    lemma_close_reasoning(s);
    lemma_thinking_is_plain(s, Seq::empty());
    let (s1, e1) = close_reasoning(s);
    lemma_plain(e1);
    match e {
        EventV::Content(content) => {
            let (text, filter) = crate::xml_filter::scan(
                s1.filter.buffer + content,
                s1.filter.stripping,
            );
            let s2 = StreamV { filter, ..s1 };
            lemma_filtered_is_plain(s2, text);
            let e2 = assistant_step(s1, content).1;
            lemma_plain(e2);
            lemma_parts_concat(e1, e2);
            assert(parts(e1 + e2) =~= Seq::empty());
        },
        EventV::ToolUse(t) => {
            lemma_tool_step_sends(s1, t);
            let e2 = tool_step(s1, t).1;
            lemma_parts_concat(e1, e2);
            assert(parts(e1 + e2) =~= parts(e2));
        },
        EventV::Reasoning(r) => {
            if s.thinking_enabled {
                let held = match r.redacted {
                    Some(data) => data,
                    None => Seq::empty(),
                };
                if held.len() > 0 {
                    lemma_redacted_is_sent(s, held);
                } else {
                    lemma_disclosed_is_plain(s, r.text);
                    lemma_plain(disclosed_step(s, r.text).1);
                }
            }
        },
        _ => {},
    }
}

pub proof fn lemma_whole_calls_push(events: Seq<EventV>, names: Map<Seq<char>, String>)
    requires
        events.len() > 0,
    ensures
        ({
            let front = pieces(events.drop_last());
            whole_calls(pieces(events), names) == (match events.last() {
                EventV::ToolUse(t) => match push_step(
                    pushed(Seq::empty(), front, names),
                    t,
                    names,
                ).1 {
                    PushV::Done(call) => whole_calls(front, names).push(call),
                    _ => whole_calls(front, names),
                },
                _ => whole_calls(front, names),
            })
        }),
{
    if events.last() is ToolUse {
        assert(pieces(events).drop_last() =~= pieces(events.drop_last()));
    }
}

pub proof fn lemma_distinct_front(calls: Seq<CompletedV>, call: CompletedV)
    requires
        distinct(calls.push(call)),
    ensures
        distinct(calls),
        forall|i: int| 0 <= i < calls.len() ==> (#[trigger] calls[i]).id != call.id,
{
    let all = calls.push(call);
    assert forall|i: int, j: int|
        #![trigger calls[i], calls[j]]
        0 <= i < j < calls.len() implies calls[i].id != calls[j].id by {
        assert(all[i].id != all[j].id);
    }
    assert forall|i: int| 0 <= i < calls.len() implies (#[trigger] calls[i]).id != call.id by {
        assert(all[i].id != all[calls.len() as int].id);
    }
}

pub proof fn lemma_events_send(s: StreamV, events: Seq<EventV>)
    requires
        in_order(s),
        s.tool_block_indices == Map::<Seq<char>, int>::empty(),
        s.pending.len() == 0,
        distinct(whole_calls(pieces(events), s.tool_name_map)),
    ensures
        ({
            let (t, sent) = events_step(s, events);
            &&& parts(sent) == upstream_parts(events, s.tool_name_map, s.thinking_enabled)
            &&& t.pending == pushed(Seq::empty(), pieces(events), s.tool_name_map)
            &&& t.tool_name_map == s.tool_name_map
            &&& t.thinking_enabled == s.thinking_enabled
            &&& sent_only(t, whole_calls(pieces(events), s.tool_name_map))
        }),
    decreases events.len(),
{
    let names = s.tool_name_map;
    if events.len() == 0 {
        assert(s.pending =~= Seq::empty());
    } else {
        let front = events.drop_last();
        let last = events.last();
        let before = whole_calls(pieces(front), names);
        let after = whole_calls(pieces(events), names);
        lemma_whole_calls_push(events, names);
        if let EventV::ToolUse(t) = last {
            if let PushV::Done(call) = push_step(
                pushed(Seq::empty(), pieces(front), names),
                t,
                names,
            ).1 {
                lemma_distinct_front(before, call);
            }
        }
        lemma_events_send(s, front);
        lemma_events_step(s, front);
        let (s1, e1) = events_step(s, front);
        if let EventV::ToolUse(t) = last {
            if let PushV::Done(call) = push_step(s1.pending, t, names).1 {
                if s1.tool_block_indices.contains_key(call.id) {
                    let i = choose|i: int|
                        0 <= i < before.len() && (#[trigger] before[i]).id == call.id;
                    assert(before[i].id != call.id);
                }
            }
        }
        lemma_event_sends(s1, last);
        let (s2, e2) = event_step(s1, last);
        lemma_parts_concat(e1, e2);
        assert(parts(e1 + e2) =~= upstream_parts(events, names, s.thinking_enabled));
        if last is ToolUse {
            assert(pieces(events).drop_last() =~= pieces(front));
        }
        assert forall|id: Seq<char>| #[trigger]
            s2.tool_block_indices.contains_key(id) implies exists|i: int|
            0 <= i < after.len() && (#[trigger] after[i]).id == id by {
            if s1.tool_block_indices.contains_key(id) {
                let i = choose|i: int| 0 <= i < before.len() && (#[trigger] before[i]).id == id;
                assert(after[i].id == id);
            } else {
                assert(after[after.len() - 1].id == id);
            }
        }
    }
}

proof fn lemma_end_is_plain(s: StreamV)
    ensures
        plain(end_message(s).1),
        end_message(s).0.tool_json_error == s.tool_json_error,
{
    lemma_part_of();
    lemma_closing_is_plain(s.state.blocks, false);
    let usage = crate::stream_model::final_usage(s);
    let reason = crate::state::final_stop_reason(s.state);
    assert(part_of(crate::sse::message_delta_event(reason, usage)) is None);
    assert(part_of(crate::sse::message_stop_event()) is None);
}

proof fn lemma_end_well_is_plain(s: StreamV)
    ensures
        plain(end_well(s).1),
        end_well(s).0.tool_json_error == s.tool_json_error,
{
    lemma_thinking_is_plain(s, Seq::empty());
    let s1 = close_reasoning(s).0;
    lemma_close_at_end_is_plain(s1);
    lemma_thinking_is_plain(s1, s1.thinking_buffer);
    lemma_after_is_plain(s1);
    let s2 = flush_buffer(s1).0;
    lemma_text_is_plain(crate::stream_model::with_stop_reason(s2, "max_tokens"@), " "@);
    let s3 = fill_text(s2).0;
    lemma_end_is_plain(s3);
}

pub proof fn lemma_error_stays(s: StreamV)
    requires
        s.tool_json_error is Some,
    ensures
        finish_stream(s).0.tool_json_error is Some,
{
    let s1 = flush_calls(s).0;
    lemma_filtered_is_plain(
        StreamV {
            filter: crate::xml_filter::FilterV { buffer: Seq::empty(), stripping: false },
            ..s1
        },
        crate::xml_filter::stripped(s1.filter.buffer),
    );
    let s2 = flush_filter(s1).0;
    lemma_thinking_is_plain(s2, Seq::empty());
    let s3 = close_reasoning(s2).0;
    lemma_thinking_is_plain(s3, Seq::empty());
}

proof fn lemma_finish_sends(s: StreamV)
    requires
        in_order(s),
        finish_stream(s).0.tool_json_error is None,
        finish_step(s.pending, s.tool_name_map).1 matches FinishV::Done(calls) ==> distinct(calls)
            && forall|i: int|
            0 <= i < calls.len() ==> !s.tool_block_indices.contains_key((#[trigger] calls[i]).id),
    ensures
        finish_step(s.pending, s.tool_name_map).1 matches FinishV::Done(calls) && parts(
            finish_stream(s).1,
        ) == call_parts(calls),
{
    if s.tool_json_error is Some {
        lemma_error_stays(s);
    }
    let (pending, outcome) = finish_step(s.pending, s.tool_name_map);
    let s0 = StreamV { pending, ..s };
    assert(in_order(s0));
    if let FinishV::Done(calls) = outcome {
        lemma_calls_are_sent(s0, calls);
    }
    let (s1, e1) = flush_calls(s);
    lemma_filtered_is_plain(
        StreamV {
            filter: crate::xml_filter::FilterV { buffer: Seq::empty(), stripping: false },
            ..s1
        },
        crate::xml_filter::stripped(s1.filter.buffer),
    );
    let (s2, e2) = flush_filter(s1);
    if s2.tool_json_error is Some {
        lemma_thinking_is_plain(s2, Seq::empty());
        let s3 = close_reasoning(s2).0;
        lemma_thinking_is_plain(s3, Seq::empty());
        lemma_end_is_plain(close_unfinished(s3).0);
        assert(false);
    }
    lemma_end_well_is_plain(s2);
    let e3 = end_well(s2).1;
    lemma_plain(e2);
    lemma_plain(e3);
    lemma_parts_concat(e1, e2);
    lemma_parts_concat(e1 + e2, e3);
    assert(parts(e1 + e2 + e3) =~= parts(e1));
}

/// The client gets every tool call that is whole, with its id and its name and then with all of
/// its arguments, in the order in which they became whole, and no other; and, where thinking is
/// shown, all reasoning that the upstream holds back, each piece at its place between the calls.
///
/// Left out are responses in which two calls go by the same id, of which only the first is sent,
/// and streams that end because a tool call could not be used.
pub proof fn law_calls_are_delivered(s: StreamV, events: Seq<EventV>)
    requires
        unsent(s),
        s.pending.len() == 0,
        distinct(response_calls(events, s.tool_name_map)),
        last_state(s, events).tool_json_error is None,
    ensures
        parts(transcript(s, events)) == upstream_parts(
            events,
            s.tool_name_map,
            s.thinking_enabled,
        ) + call_parts(last_calls(events, s.tool_name_map)),
{
    let names = s.tool_name_map;
    let whole = whole_calls(pieces(events), names);
    let last = last_calls(events, names);
    let all = response_calls(events, names);
    assert(all == whole + last);
    assert forall|i: int, j: int|
        #![trigger whole[i], whole[j]]
        0 <= i < j < whole.len() implies whole[i].id != whole[j].id by {
        assert(all[i].id != all[j].id);
    }
    assert forall|i: int, j: int|
        #![trigger last[i], last[j]]
        0 <= i < j < last.len() implies last[i].id != last[j].id by {
        assert(all[whole.len() + i].id != all[whole.len() + j].id);
    }
    lemma_initial_step(s);
    let (s1, e1) = initial_step(s);
    lemma_part_of();
    lemma_start_is_plain(s);
    lemma_events_send(s1, events);
    lemma_events_step(s1, events);
    let (s2, e2) = events_step(s1, events);
    assert forall|i: int| 0 <= i < last.len() implies !s2.tool_block_indices.contains_key(
        (#[trigger] last[i]).id,
    ) by {
        if s2.tool_block_indices.contains_key(last[i].id) {
            let k = choose|k: int| 0 <= k < whole.len() && (#[trigger] whole[k]).id == last[i].id;
            assert(all[k].id != all[whole.len() + i].id);
        }
    }
    lemma_finish_sends(s2);
    let e3 = finish_stream(s2).1;
    lemma_plain(e1);
    lemma_parts_concat(e1, e2);
    lemma_parts_concat(e1 + e2, e3);
    assert(parts(e1 + e2 + e3) =~= parts(e2) + parts(e3));
}

pub proof fn lemma_start_is_plain(s: StreamV)
    ensures
        plain(initial_step(s).1),
        keeps_calls(s, initial_step(s).0),
{
    lemma_part_of();
    crate::stream_laws::lemma_kinds();
    let (state, start) = crate::state::message_start_step(
        s.state,
        crate::stream_model::start_payload(s),
    );
    let s1 = StreamV { state, ..s };
    let opening = start_event(s1.state.next_block_index, part_json("text"@, "text"@, ""@));
    assert(part_of(opening) is None);
    if let Some(e) = start {
        assert(part_of(e) is None);
    }
}

} // verus!
