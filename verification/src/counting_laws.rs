//! The output that a stream counts is the output that it sends.

use crate::answer_laws::{pieces, response_calls, whole_calls};
use crate::call_laws::{distinct, last_calls, lemma_calls_are_sent, lemma_distinct_front};
use crate::call_laws::{lemma_events_send, lemma_part_of, lemma_thinking_is_plain};
use crate::call_laws::{lemma_whole_calls_push, part_of, PartV};
use crate::delivery_laws::{lemma_text_of, text_of};
use crate::events::EventV;
use crate::json::{empty_object, printed};
use crate::protocol::live;
use crate::sse::{block_delta_json, block_start_json, delta_event, opt_events, part_json};
use crate::sse::{start_event, stop_event, text_delta_event, tool_use_json, SseEventV};
use crate::state::{block_delta_step, block_start_step, block_stop_step, closing_events};
use crate::state::{lemma_position_from, open_of_kind, position, BlockV, StateV};
use crate::stream_laws::{in_order, lemma_events_step, lemma_flush_calls, lemma_initial_step};
use crate::stream_laws::{lemma_kinds, lemma_open_block, unsent};
use crate::stream_model::{before_call, call_step, calls_step, close_reasoning, end_message};
use crate::stream_model::{end_well, event_step, events_step, filtered_step, finish_stream};
use crate::stream_model::{flush_calls, flush_filter, initial_step, last_state, text_block_step};
use crate::stream_model::{text_step, transcript, StreamV};
use crate::tokens::{capped, estimate};
use crate::tool_json::{finish_step, push_step, pushed, CompletedV, FinishV, PushV};
use vstd::prelude::*;

verus! {

/// The tokens that an event is taken to add to the output: those of its text, or of the arguments
/// of a tool call.
pub open spec fn weight(e: SseEventV) -> int {
    if text_of(e).len() > 0 {
        estimate(text_of(e))
    } else {
        match part_of(e) {
            Some(PartV::Arguments(text)) => estimate(text),
            _ => 0,
        }
    }
}

/// The tokens that events are taken to add to the output.
pub open spec fn weighed(events: Seq<SseEventV>) -> int
    decreases events.len(),
{
    if events.len() == 0 {
        0
    } else {
        weighed(events.drop_last()) + weight(events.last())
    }
}

/// Events that add nothing.
spec fn weightless(events: Seq<SseEventV>) -> bool {
    forall|i: int| 0 <= i < events.len() ==> weight(#[trigger] events[i]) == 0
}

proof fn lemma_estimate(s: Seq<char>)
    ensures
        estimate(s) >= 1,
{
}

proof fn lemma_weighed_concat(a: Seq<SseEventV>, b: Seq<SseEventV>)
    ensures
        weighed(a + b) == weighed(a) + weighed(b),
    decreases b.len(),
{
    if b.len() == 0 {
        assert(a + b =~= a);
    } else {
        lemma_weighed_concat(a, b.drop_last());
        assert((a + b).drop_last() =~= a + b.drop_last());
    }
}

proof fn lemma_weighed_positive(events: Seq<SseEventV>)
    ensures
        weighed(events) >= 0,
    decreases events.len(),
{
    if events.len() > 0 {
        lemma_weighed_positive(events.drop_last());
    }
}

proof fn lemma_weightless(events: Seq<SseEventV>)
    requires
        weightless(events),
    ensures
        weighed(events) == 0,
    decreases events.len(),
{
    if events.len() > 0 {
        let front = events.drop_last();
        assert forall|i: int| 0 <= i < front.len() implies weight(#[trigger] front[i]) == 0 by {
            assert(front[i] == events[i]);
        }
        lemma_weightless(front);
        assert(weight(events[events.len() - 1]) == 0);
    }
}

proof fn lemma_one_weight(e: SseEventV)
    ensures
        weighed(seq![e]) == weight(e),
{
    assert(seq![e].drop_last() =~= Seq::empty());
    assert(weighed(Seq::<SseEventV>::empty()) == 0);
    assert(seq![e].last() == e);
}

proof fn lemma_weights()
    ensures
        forall|index: int, text: Seq<char>|
            weight(#[trigger] start_event(index, part_json("text"@, "text"@, text))) == 0,
        forall|index: int, id: Seq<char>, name: Seq<char>|
            weight(
                #[trigger] start_event(index, tool_use_json(id, name, empty_object())),
            ) == 0,
        forall|index: int| weight(#[trigger] stop_event(index)) == 0,
        forall|index: int, text: Seq<char>|
            weight(
                #[trigger] delta_event(
                    index,
                    part_json("input_json_delta"@, "partial_json"@, text),
                ),
            ) == estimate(text),
        forall|index: int, text: Seq<char>|
            text.len() > 0 ==> weight(
                #[trigger] delta_event(index, part_json("text_delta"@, "text"@, text)),
            ) == estimate(text),
{
    lemma_text_of();
    lemma_part_of();
    assert forall|index: int, text: Seq<char>|
        weight(
            #[trigger] delta_event(index, part_json("input_json_delta"@, "partial_json"@, text)),
        ) == estimate(text) by {
        assert(text_of(crate::sse::input_delta_event(index, text)) == Seq::<char>::empty());
    }
    assert forall|index: int, text: Seq<char>|
        text.len() > 0 implies weight(
        #[trigger] delta_event(index, part_json("text_delta"@, "text"@, text)),
    ) == estimate(text) by {
        assert(text_of(text_delta_event(index, text)) == text);
    }
}

proof fn lemma_closing_weighs_nothing(blocks: Seq<BlockV>, text_only: bool)
    ensures
        weightless(closing_events(blocks, text_only)),
    decreases blocks.len(),
{
    if blocks.len() > 0 {
        lemma_closing_weighs_nothing(blocks.drop_last(), text_only);
        lemma_weights();
    }
}

/// Sending text adds the tokens of the text.
proof fn lemma_text_weighs(s: StreamV, text: Seq<char>)
    requires
        in_order(s),
        text.len() > 0,
    ensures
        weighed(text_step(s, text).1) == estimate(text),
        text_step(s, text).0.output_tokens == s.output_tokens,
{
    lemma_kinds();
    lemma_weights();
    let (s1, opening) = text_block_step(s);
    let fresh = StreamV { text_block_index: Some(s.state.next_block_index), ..s };
    let block = part_json("text"@, "text"@, ""@);
    lemma_open_block(fresh, "text"@, block);
    let index = s1.text_block_index->0;
    assert(open_of_kind(s1.state, index, "text"@));
    assert(weight(start_event(s.state.next_block_index, block)) == 0);
    assert(weightless(opening));
    let e = delta_event(index, part_json("text_delta"@, "text"@, text));
    assert(text_step(s, text).1 == opening + seq![e]);
    lemma_weightless(opening);
    lemma_one_weight(e);
    lemma_weighed_concat(opening, seq![e]);
}

/// Sending a tool call with a new id adds the tokens of its arguments.
proof fn lemma_call_weighs(s: StreamV, call: CompletedV)
    requires
        in_order(s),
        !s.tool_block_indices.contains_key(call.id),
    ensures
        weighed(call_step(s, call).1) == estimate(printed(call.input)),
        call_step(s, call).0.output_tokens == capped(
            s.output_tokens + capped(estimate(printed(call.input))),
        ),
{
    lemma_weights();
    let index = s.state.next_block_index;
    let state1 = StateV { next_block_index: index + 1, ..s.state };
    let block = tool_use_json(call.id, call.name, empty_object());
    let closed = crate::state::closed_blocks(s.state.blocks, true);
    let closing = closing_events(s.state.blocks, true);
    lemma_closing_weighs_nothing(s.state.blocks, true);
    assert(live(s.state));
    lemma_position_from(closed, index, 0);
    if let Some(i) = position(closed, index) {
        assert(closed[i].index == s.state.blocks[i].index);
        assert(false);
    }
    let (state2, e2) = block_start_step(
        state1,
        index,
        "tool_use"@,
        block_start_json(index, block),
    );
    assert(e2 =~= closing + seq![start_event(index, block)]);
    let b = BlockV { index, kind: "tool_use"@, started: true, stopped: false };
    assert(state2.blocks =~= closed.push(b));
    lemma_position_from(state2.blocks, index, 0);
    let at = position(state2.blocks, index);
    if at is None {
        assert(state2.blocks[state2.blocks.len() - 1].index == index);
        assert(false);
    }
    let i = at->0;
    if i < closed.len() {
        assert(closed[i].index == index);
        assert(closed[i].index == s.state.blocks[i].index);
        assert(false);
    }
    assert(state2.blocks[i] == b);
    let partial = printed(call.input);
    let args = delta_event(index, part_json("input_json_delta"@, "partial_json"@, partial));
    let delta = block_delta_step(
        state2,
        index,
        block_delta_json(index, part_json("input_json_delta"@, "partial_json"@, partial)),
    );
    assert(delta == Some(args));
    let stop = block_stop_step(state2, index).1;
    assert(weightless(opt_events(stop)));
    lemma_weightless(closing);
    lemma_weightless(opt_events(stop));
    lemma_one_weight(start_event(index, block));
    lemma_one_weight(args);
    lemma_weighed_concat(closing, seq![start_event(index, block)]);
    lemma_weighed_concat(e2, opt_events(delta));
    lemma_weighed_concat(e2 + opt_events(delta), opt_events(stop));
}

/// A stream to a client that did not ask for thinking, with no thinking under way.
spec fn silent(s: StreamV) -> bool {
    !s.thinking_enabled && !s.reasoning_block_open
}

/// A step counts what it sends.
spec fn counts(s: StreamV, t: StreamV, events: Seq<SseEventV>) -> bool {
    &&& t.output_tokens == capped(s.output_tokens + weighed(events))
    &&& silent(t)
}

proof fn lemma_filtered_counts(s: StreamV, text: Seq<char>)
    requires
        in_order(s),
        silent(s),
        0 <= s.output_tokens <= i32::MAX,
    ensures
        counts(s, filtered_step(s, text).0, filtered_step(s, text).1),
{
    if text.len() > 0 {
        let s0 = StreamV { output_tokens: capped(s.output_tokens + capped(estimate(text))), ..s };
        assert(in_order(s0));
        lemma_text_weighs(s0, text);
        lemma_estimate(text);
    }
}

proof fn lemma_call_counts(s: StreamV, call: CompletedV)
    requires
        in_order(s),
        silent(s),
        0 <= s.output_tokens <= i32::MAX,
        !s.tool_block_indices.contains_key(call.id),
    ensures
        counts(s, call_step(s, call).0, call_step(s, call).1),
{
    lemma_call_weighs(s, call);
    lemma_estimate(printed(call.input));
}

proof fn lemma_counts_range(s: StreamV, t: StreamV, events: Seq<SseEventV>)
    requires
        counts(s, t, events),
        0 <= s.output_tokens <= i32::MAX,
    ensures
        0 <= t.output_tokens <= i32::MAX,
{
    lemma_weighed_positive(events);
}

proof fn lemma_counts_concat(
    s: StreamV,
    t: StreamV,
    u: StreamV,
    a: Seq<SseEventV>,
    b: Seq<SseEventV>,
)
    requires
        counts(s, t, a),
        counts(t, u, b),
        0 <= s.output_tokens <= i32::MAX,
    ensures
        counts(s, u, a + b),
{
    lemma_weighed_concat(a, b);
    lemma_weighed_positive(a);
    lemma_weighed_positive(b);
}

proof fn lemma_event_counts(s: StreamV, e: EventV)
    requires
        in_order(s),
        silent(s),
        0 <= s.output_tokens <= i32::MAX,
        e matches EventV::ToolUse(t) ==> (push_step(
            s.pending,
            t,
            s.tool_name_map,
        ).1 matches PushV::Done(call) ==> !s.tool_block_indices.contains_key(call.id)),
    ensures
        counts(s, event_step(s, e).0, event_step(s, e).1),
{
    reveal(event_step);
    let sent = event_step(s, e).1;
    match e {
        EventV::Content(content) => {
            let (text, filter) = crate::xml_filter::scan(
                s.filter.buffer + content,
                s.filter.stripping,
            );
            let s1 = StreamV { filter, ..s };
            assert(in_order(s1));
            lemma_filtered_counts(s1, text);
            assert(sent =~= filtered_step(s1, text).1);
        },
        EventV::ToolUse(t) => {
            let s0 = StreamV { state: StateV { has_tool_use: true, ..s.state }, ..s };
            assert(in_order(s0));
            let (pending, outcome) = push_step(s.pending, t, s.tool_name_map);
            let s2 = StreamV { pending, ..s0 };
            assert(in_order(s2));
            assert(before_call(s0) == (s0, Seq::<SseEventV>::empty()));
            if let PushV::Done(call) = outcome {
                lemma_call_counts(s2, call);
                assert(sent =~= call_step(s2, call).1);
            } else {
                assert(sent =~= Seq::empty());
            }
        },
        _ => {
            assert(sent =~= Seq::empty());
        },
    }
}

proof fn lemma_events_count(s: StreamV, events: Seq<EventV>)
    requires
        in_order(s),
        silent(s),
        0 <= s.output_tokens <= i32::MAX,
        s.tool_block_indices == Map::<Seq<char>, int>::empty(),
        s.pending.len() == 0,
        distinct(whole_calls(pieces(events), s.tool_name_map)),
    ensures
        counts(s, events_step(s, events).0, events_step(s, events).1),
    decreases events.len(),
{
    if events.len() > 0 {
        let names = s.tool_name_map;
        let front = events.drop_last();
        let last = events.last();
        let before = whole_calls(pieces(front), names);
        lemma_whole_calls_push(events, names);
        if let EventV::ToolUse(t) = last {
            if let PushV::Done(call) = push_step(
                pushed(Seq::empty(), pieces(front), names),
                t,
                names,
            ).1 {
                lemma_distinct_front(before, call);
            }
        }
        lemma_events_count(s, front);
        lemma_events_send(s, front);
        lemma_events_step(s, front);
        let (s1, e1) = events_step(s, front);
        lemma_counts_range(s, s1, e1);
        if let EventV::ToolUse(t) = last {
            if let PushV::Done(call) = push_step(s1.pending, t, names).1 {
                if s1.tool_block_indices.contains_key(call.id) {
                    let i = choose|i: int|
                        0 <= i < before.len() && (#[trigger] before[i]).id == call.id;
                    assert(before[i].id != call.id);
                }
            }
        }
        lemma_event_counts(s1, last);
        let (s2, e2) = event_step(s1, last);
        lemma_counts_concat(s, s1, s2, e1, e2);
    }
}

proof fn lemma_calls_count(s: StreamV, calls: Seq<CompletedV>)
    requires
        in_order(s),
        silent(s),
        0 <= s.output_tokens <= i32::MAX,
        distinct(calls),
        forall|i: int|
            0 <= i < calls.len() ==> !s.tool_block_indices.contains_key((#[trigger] calls[i]).id),
    ensures
        counts(s, calls_step(s, calls).0, calls_step(s, calls).1),
    decreases calls.len(),
{
    if calls.len() > 0 {
        let front = calls.drop_last();
        let last = calls.last();
        let n = calls.len() - 1;
        assert(front.push(last) =~= calls);
        lemma_distinct_front(front, last);
        assert forall|i: int| 0 <= i < front.len() implies !s.tool_block_indices.contains_key(
            (#[trigger] front[i]).id,
        ) by {
            assert(front[i] == calls[i]);
        }
        lemma_calls_count(s, front);
        lemma_calls_are_sent(s, front);
        let (s1, e1) = calls_step(s, front);
        lemma_counts_range(s, s1, e1);
        assert(calls[n] == last);
        if s1.tool_block_indices.contains_key(last.id) {
            let i = choose|i: int| 0 <= i < front.len() && (#[trigger] front[i]).id == last.id;
            assert(front[i].id != last.id);
        }
        lemma_call_counts(s1, last);
        let (s2, e2) = call_step(s1, last);
        lemma_counts_concat(s, s1, s2, e1, e2);
    }
}

proof fn lemma_end_weighs_nothing(s: StreamV)
    ensures
        weightless(end_message(s).1),
        end_message(s).0.output_tokens == s.output_tokens,
{
    lemma_text_of();
    lemma_part_of();
    lemma_closing_weighs_nothing(s.state.blocks, false);
    let usage = crate::stream_model::final_usage(s);
    let reason = crate::state::final_stop_reason(s.state);
    assert(weight(crate::sse::message_delta_event(reason, usage)) == 0);
    assert(weight(crate::sse::message_stop_event()) == 0);
}

/// For a client that did not ask for thinking, the output that is counted is the output that is
/// sent: the tokens that the texts and the arguments of tool calls are taken to have, one event
/// after the other, up to what an `i32` holds.
///
/// Left out are responses in which two calls go by the same id, and streams that end because a
/// tool call could not be used.
pub proof fn law_sent_output_is_counted(s: StreamV, events: Seq<EventV>)
    requires
        unsent(s),
        !s.thinking_enabled,
        s.pending.len() == 0,
        s.output_tokens == 0,
        distinct(response_calls(events, s.tool_name_map)),
        last_state(s, events).tool_json_error is None,
    ensures
        last_state(s, events).output_tokens == (if weighed(transcript(s, events)) > i32::MAX {
            i32::MAX as int
        } else {
            weighed(transcript(s, events))
        }),
{
    let names = s.tool_name_map;
    let whole = whole_calls(pieces(events), names);
    let last = last_calls(events, names);
    let all = response_calls(events, names);
    assert(all == whole + last);
    assert forall|i: int, j: int|
        #![trigger whole[i], whole[j]]
        0 <= i < j < whole.len() implies whole[i].id != whole[j].id by {
        assert(all[i].id != all[j].id);
    }
    assert forall|i: int, j: int|
        #![trigger last[i], last[j]]
        0 <= i < j < last.len() implies last[i].id != last[j].id by {
        assert(all[whole.len() + i].id != all[whole.len() + j].id);
    }
    lemma_initial_step(s);
    let (s1, e1) = initial_step(s);
    crate::call_laws::lemma_start_is_plain(s);
    lemma_start_counts(s);
    lemma_events_send(s1, events);
    lemma_events_step(s1, events);
    lemma_events_count(s1, events);
    let (s2, e2) = events_step(s1, events);
    lemma_counts_range(s1, s2, e2);
    assert forall|i: int| 0 <= i < last.len() implies !s2.tool_block_indices.contains_key(
        (#[trigger] last[i]).id,
    ) by {
        if s2.tool_block_indices.contains_key(last[i].id) {
            let k = choose|k: int| 0 <= k < whole.len() && (#[trigger] whole[k]).id == last[i].id;
            assert(all[k].id != all[whole.len() + i].id);
        }
    }
    lemma_finish_counts(s2);
    let (s3, e3) = finish_stream(s2);
    lemma_counts_concat(s, s1, s2, e1, e2);
    lemma_counts_concat(s, s2, s3, e1 + e2, e3);
}

proof fn lemma_start_counts(s: StreamV)
    requires
        unsent(s),
        !s.thinking_enabled,
        s.output_tokens == 0,
    ensures
        counts(s, initial_step(s).0, initial_step(s).1),
{
    lemma_weights();
    lemma_text_of();
    lemma_part_of();
    lemma_kinds();
    let (state, start) = crate::state::message_start_step(
        s.state,
        crate::stream_model::start_payload(s),
    );
    let s1 = StreamV { state, ..s };
    let opening = start_event(s1.state.next_block_index, part_json("text"@, "text"@, ""@));
    assert(weight(opening) == 0);
    if let Some(e) = start {
        assert(weight(e) == 0);
    }
    let e1 = initial_step(s).1;
    assert(weightless(e1));
    lemma_weightless(e1);
}

proof fn lemma_finish_counts(s: StreamV)
    requires
        in_order(s),
        silent(s),
        0 <= s.output_tokens <= i32::MAX,
        finish_stream(s).0.tool_json_error is None,
        finish_step(s.pending, s.tool_name_map).1 matches FinishV::Done(calls) ==> distinct(calls)
            && forall|i: int|
            0 <= i < calls.len() ==> !s.tool_block_indices.contains_key((#[trigger] calls[i]).id),
    ensures
        counts(s, finish_stream(s).0, finish_stream(s).1),
{
    if s.tool_json_error is Some {
        crate::call_laws::lemma_error_stays(s);
    }
    let (pending, outcome) = finish_step(s.pending, s.tool_name_map);
    let s0 = StreamV { pending, ..s };
    assert(in_order(s0));
    if let FinishV::Done(calls) = outcome {
        lemma_calls_count(s0, calls);
    }
    lemma_flush_calls(s);
    let (s1, e1) = flush_calls(s);
    assert(counts(s, s1, e1)) by {
        assert(weighed(Seq::<SseEventV>::empty()) == 0);
    }
    lemma_counts_range(s, s1, e1);
    let emptied = StreamV {
        filter: crate::xml_filter::FilterV { buffer: Seq::empty(), stripping: false },
        ..s1
    };
    assert(in_order(emptied));
    lemma_filtered_counts(emptied, crate::xml_filter::stripped(s1.filter.buffer));
    let (s2, e2) = flush_filter(s1);
    assert(counts(s1, s2, e2));
    lemma_counts_range(s1, s2, e2);
    crate::call_laws::lemma_filtered_is_plain(
        emptied,
        crate::xml_filter::stripped(s1.filter.buffer),
    );
    if s2.tool_json_error is Some {
        lemma_thinking_is_plain(s2, Seq::empty());
        lemma_thinking_is_plain(close_reasoning(s2).0, Seq::empty());
        assert(false);
    }
    lemma_end_weighs_nothing(s2);
    let (s3, e3) = end_well(s2);
    assert(e3 =~= end_message(s2).1);
    lemma_weightless(e3);
    assert(counts(s2, s3, e3));
    lemma_counts_concat(s, s1, s2, e1, e2);
    lemma_counts_concat(s, s2, s3, e1 + e2, e3);
}

/// Content is counted alike whether or not the client asked for thinking.
pub proof fn law_thinking_changes_no_count(s: StreamV, content: Seq<char>)
    requires
        in_order(s),
        !s.reasoning_block_open,
    ensures
        event_step(
            (StreamV { thinking_enabled: true, ..s }),
            EventV::Content(content),
        ).0.output_tokens == event_step(
            (StreamV { thinking_enabled: false, ..s }),
            EventV::Content(content),
        ).0.output_tokens,
{
    reveal(event_step);
    let (text, filter) = crate::xml_filter::scan(s.filter.buffer + content, s.filter.stripping);
    let a = StreamV { thinking_enabled: true, filter, ..s };
    let b = StreamV { thinking_enabled: false, filter, ..s };
    if text.len() > 0 {
        let n = capped(s.output_tokens + capped(estimate(text)));
        lemma_content_keeps_count(StreamV { output_tokens: n, ..a }, text);
        lemma_text_keeps_count(StreamV { output_tokens: n, ..b }, text);
    }
}

proof fn lemma_text_keeps_count(s: StreamV, text: Seq<char>)
    ensures
        text_step(s, text).0.output_tokens == s.output_tokens,
{
}

proof fn lemma_content_keeps_count(s: StreamV, text: Seq<char>)
    ensures
        crate::stream_model::content_step(s, text).0.output_tokens == s.output_tokens,
{
}

/// Disclosed reasoning that is shown counts as much as text of the same length would.
pub proof fn law_shown_reasoning_is_counted(s: StreamV, text: Seq<char>)
    requires
        s.thinking_enabled,
        text.len() > 0,
        0 <= s.output_tokens <= i32::MAX,
    ensures
        event_step(
            s,
            EventV::Reasoning(crate::events::ReasoningV { text, redacted: None }),
        ).0.output_tokens == (if s.output_tokens + estimate(text) > i32::MAX {
            i32::MAX as int
        } else {
            s.output_tokens + estimate(text)
        }),
{
    reveal(event_step);
    lemma_estimate(text);
}

} // verus!
