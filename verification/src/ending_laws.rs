//! How a stream tells its beginning and its end.

use crate::answer_laws::{ends_early, from_last, last_tells, lemma_from_last, lemma_message_keys};
use crate::answer_laws::{lemma_told, pieces, stop_word, tells_counts};
use crate::call_laws::{lemma_after_is_plain, lemma_before_call_is_plain};
use crate::call_laws::{lemma_close_at_end_is_plain, lemma_disclosed_is_plain, lemma_error_stays};
use crate::call_laws::{lemma_filtered_is_plain, lemma_redacted_is_sent, lemma_start_is_plain};
use crate::call_laws::{lemma_text_is_plain, lemma_thinking_is_plain};
use crate::delivery_laws::{lemma_end_says_nothing, lemma_said_concat, lemma_text_is_said, said};
use crate::events::EventV;
use crate::filler_laws::{lemma_end_speaks, lemma_events_speak, lemma_quiet, lemma_speaks_on};
use crate::filler_laws::lemma_start_speaks;
use crate::json::{field, string_field, JsonV};
use crate::sse::{message_delta_event, message_stop_event, SseEventV};
use crate::state::{closing_events, final_stop_reason, has_other_than_thinking};
use crate::state::{lemma_position_from, position, StateV};
use crate::stream_laws::{in_order, lemma_close_reasoning, lemma_events_step, lemma_flush_buffer};
use crate::stream_laws::{lemma_flush_calls, lemma_flush_filter, lemma_initial_step, lemma_kinds};
use crate::stream_laws::{lemma_same_text, lemma_text_step, lemma_with_stop_reason, text_is_text};
use crate::stream_laws::unsent;
use crate::stream_model::{before_call, call_step, calls_step, close_reasoning, end_message};
use crate::stream_model::{end_well, end_with_error, event_step, events_step, fill_text};
use crate::stream_model::{final_usage, finish_stream, flush_buffer, flush_calls, flush_filter};
use crate::stream_model::{initial_step, last_state, resolved_input, start_payload, tool_step};
use crate::stream_model::{transcript, usage_of, with_stop_reason, StreamV};
use crate::tokens::{divided, law_split_adds_up, lemma_divided, split};
use crate::tool_json::{error_text, finish_step, push_step, CompletedV, FinishV, PushV, ToolUseV};
use vstd::prelude::*;

verus! {

/// What sending tool calls keeps of what is told at the end.
spec fn keeps_end(s: StreamV, t: StreamV) -> bool {
    &&& t.thinking_enabled == s.thinking_enabled
    &&& t.tool_json_error == s.tool_json_error
    &&& t.state.stop_reason == s.state.stop_reason
    &&& t.context_input_tokens == s.context_input_tokens
    &&& t.input_tokens == s.input_tokens
    &&& t.cache_usage == s.cache_usage
}

proof fn lemma_call_ends(s: StreamV, call: CompletedV)
    ensures
        keeps_end(s, call_step(s, call).0),
        call_step(s, call).0.state.has_tool_use,
{
}

proof fn lemma_calls_end(s: StreamV, calls: Seq<CompletedV>)
    ensures
        keeps_end(s, calls_step(s, calls).0),
        s.state.has_tool_use ==> calls_step(s, calls).0.state.has_tool_use,
        calls.len() == 0 ==> calls_step(s, calls).0.state.has_tool_use == s.state.has_tool_use,
    decreases calls.len(),
{
    if calls.len() > 0 {
        lemma_calls_end(s, calls.drop_last());
        lemma_call_ends(calls_step(s, calls.drop_last()).0, calls.last());
    }
}

proof fn lemma_tool_ends(s: StreamV, t: ToolUseV)
    ensures
        ({
            let u = tool_step(s, t).0;
            &&& u.state.has_tool_use
            &&& u.context_input_tokens == s.context_input_tokens
            &&& u.input_tokens == s.input_tokens
            &&& u.cache_usage == s.cache_usage
            &&& u.thinking_enabled == s.thinking_enabled
            &&& u.tool_json_error is None ==> s.tool_json_error is None && u.state.stop_reason
                == s.state.stop_reason
        }),
{
    let s0 = StreamV { state: StateV { has_tool_use: true, ..s.state }, ..s };
    lemma_before_call_is_plain(s0);
    let s1 = before_call(s0).0;
    let (pending, outcome) = push_step(s1.pending, t, s1.tool_name_map);
    let s2 = StreamV { pending, ..s1 };
    if let PushV::Done(call) = outcome {
        lemma_call_ends(s2, call);
    }
}

/// What an event does to what is told at the end.
proof fn lemma_event_ends(s: StreamV, e: EventV)
    requires
        in_order(s),
        event_step(s, e).0.tool_json_error is None,
    ensures
        ({
            let u = event_step(s, e).0;
            &&& s.tool_json_error is None
            &&& u.thinking_enabled == s.thinking_enabled
            &&& u.input_tokens == s.input_tokens
            &&& u.cache_usage == s.cache_usage
            &&& u.context_input_tokens == (if e is ContextUsage {
                Some(e->input_tokens)
            } else {
                s.context_input_tokens
            })
            &&& u.state.stop_reason == (if ends_early(e) {
                Some(stop_word(e))
            } else {
                s.state.stop_reason
            })
            &&& u.state.has_tool_use == (s.state.has_tool_use || e is ToolUse)
        }),
{
    reveal(event_step);
    lemma_thinking_is_plain(s, Seq::empty());
    let s1 = close_reasoning(s).0;
    match e {
        EventV::Content(content) => {
            let (text, filter) = crate::xml_filter::scan(
                s1.filter.buffer + content,
                s1.filter.stripping,
            );
            lemma_filtered_is_plain(StreamV { filter, ..s1 }, text);
        },
        EventV::ToolUse(t) => {
            lemma_tool_ends(s1, t);
        },
        EventV::Reasoning(r) => {
            let held = match r.redacted {
                Some(data) => data,
                None => Seq::empty(),
            };
            if held.len() > 0 {
                lemma_redacted_is_sent(s, held);
            } else {
                lemma_disclosed_is_plain(s, r.text);
            }
        },
        _ => {},
    }
}

pub proof fn lemma_events_end(s: StreamV, events: Seq<EventV>)
    requires
        in_order(s),
        s.context_input_tokens is None,
        s.state.stop_reason is None,
        !s.state.has_tool_use,
        events_step(s, events).0.tool_json_error is None,
    ensures
        ({
            let t = events_step(s, events).0;
            &&& s.tool_json_error is None
            &&& t.thinking_enabled == s.thinking_enabled
            &&& t.input_tokens == s.input_tokens
            &&& t.cache_usage == s.cache_usage
            &&& from_last(
                t.context_input_tokens,
                events,
                |e: EventV| e is ContextUsage,
                |e: EventV| e->input_tokens,
            )
            &&& from_last(
                t.state.stop_reason,
                events,
                |e: EventV| ends_early(e),
                |e: EventV| stop_word(e),
            )
            &&& t.state.has_tool_use == (pieces(events).len() > 0)
        }),
    decreases events.len(),
{
    if events.len() > 0 {
        let front = events.drop_last();
        let before = events_step(s, front).0;
        lemma_events_step(s, front);
        lemma_event_ends(before, events.last());
        lemma_events_end(s, front);
        let t = events_step(s, events).0;
        lemma_from_last(
            t.context_input_tokens,
            events,
            |e: EventV| e is ContextUsage,
            |e: EventV| e->input_tokens,
            before.context_input_tokens,
        );
        lemma_from_last(
            t.state.stop_reason,
            events,
            |e: EventV| ends_early(e),
            |e: EventV| stop_word(e),
            before.state.stop_reason,
        );
    }
}

/// The last two events of a message: the reason for its end with the final counts, and the stop.
pub open spec fn ends_with_counts(
    events: Seq<SseEventV>,
    reason: Seq<char>,
    counts: (int, int, int, int),
) -> bool {
    let n = events.len() as int;
    &&& n >= 2
    &&& events[n - 1].event == "message_stop"@
    &&& events[n - 2].event == "message_delta"@
    &&& field(events[n - 2].data, "delta"@) matches Some(d) && string_field(d, "stop_reason"@)
        == Some(reason)
    &&& field(events[n - 2].data, "usage"@) matches Some(u) && tells_counts(u, counts)
}

pub proof fn lemma_delta_keys(reason: Seq<char>, usage: crate::sse::Usage)
    ensures
        ({
            let e = message_delta_event(reason, usage);
            &&& e.event == "message_delta"@
            &&& field(e.data, "delta"@) matches Some(d) && string_field(d, "stop_reason"@) == Some(
                reason,
            )
            &&& field(e.data, "usage"@) == Some(crate::sse::usage_json(usage))
        }),
{
    reveal_strlit("type");
    reveal_strlit("delta");
    reveal_strlit("usage");
    reveal_strlit("stop_reason");
    reveal_strlit("stop_sequence");
    assert("type"@.len() == 4 && "delta"@.len() == 5 && "usage"@.len() == 5 && "stop_reason"@.len()
        == 11 && "stop_sequence"@.len() == 13);
    assert("delta"@[0] == 'd' && "usage"@[0] == 'u');
}

/// Numbers that a usage object holds as they are.
pub open spec fn fits(n: int) -> bool {
    i32::MIN <= n <= i32::MAX
}

proof fn lemma_end_message_tells(s: StreamV)
    requires
        !s.state.message_delta_sent,
        !s.state.message_ended,
        fits(resolved_input(s)),
        fits(s.output_tokens),
    ensures
        ({
            let (a, c, d) = split(s.cache_usage, resolved_input(s));
            ends_with_counts(
                end_message(s).1,
                final_stop_reason(s.state),
                (a, s.output_tokens, c, d),
            ) && a + c + d == resolved_input(s)
        }),
{
    let total = resolved_input(s);
    law_split_adds_up(s.cache_usage, total);
    lemma_message_keys();
    let usage = final_usage(s);
    let reason = final_stop_reason(s.state);
    lemma_delta_keys(reason, usage);
    let events = end_message(s).1;
    let n = events.len() as int;
    assert(events == closing_events(s.state.blocks, false) + seq![
        message_delta_event(reason, usage),
    ] + seq![message_stop_event()]);
    assert(events[n - 2] == message_delta_event(reason, usage));
    assert(events[n - 1] == message_stop_event());
}

proof fn lemma_ends_behind(
    a: Seq<SseEventV>,
    b: Seq<SseEventV>,
    reason: Seq<char>,
    counts: (int, int, int, int),
)
    requires
        ends_with_counts(b, reason, counts),
    ensures
        ends_with_counts(a + b, reason, counts),
{
    let n = (a + b).len() as int;
    assert((a + b)[n - 1] == b[b.len() - 1]);
    assert((a + b)[n - 2] == b[b.len() - 2]);
}

/// A stream that has a text block has a block other than thinking.
proof fn lemma_text_is_other(s: StreamV, i: int)
    requires
        text_is_text(s),
        s.text_block_index == Some(i),
    ensures
        has_other_than_thinking(s.state),
{
    lemma_kinds();
    lemma_position_from(s.state.blocks, i, 0);
    let k = position(s.state.blocks, i)->0;
    assert(s.state.blocks[k].kind != "thinking"@);
}

/// What the end of a stream in which all went well tells.
proof fn lemma_end_well_tells(s: StreamV)
    requires
        in_order(s),
        s.tool_json_error is None,
        fits(resolved_input(s)),
        fits(end_well(s).0.output_tokens),
    ensures
        ({
            let (t, e) = end_well(s);
            let (a, c, d) = split(s.cache_usage, resolved_input(s));
            let expected = final_stop_reason(s.state);
            &&& a + c + d == resolved_input(s)
            &&& ends_with_counts(e, expected, (a, t.output_tokens, c, d)) || (s.thinking_enabled
                && ends_with_counts(e, "max_tokens"@, (a, t.output_tokens, c, d)) && said(e)
                == " "@ && s.text_block_index is None)
            &&& t.tool_json_error is None
            &&& t.cache_usage == s.cache_usage
            &&& resolved_input(t) == resolved_input(s)
        }),
{
    lemma_thinking_is_plain(s, Seq::empty());
    lemma_close_reasoning(s);
    let (s1, e1) = close_reasoning(s);
    lemma_close_at_end_is_plain(s1);
    lemma_thinking_is_plain(s1, s1.thinking_buffer);
    lemma_after_is_plain(s1);
    lemma_flush_buffer(s1);
    let (s2, e2) = flush_buffer(s1);
    let filled = with_stop_reason(s2, "max_tokens"@);
    let idle = StreamV { in_thinking_block: false, ..s2 };
    lemma_with_stop_reason(idle, "max_tokens"@);
    lemma_text_is_plain(filled, " "@);
    lemma_text_step(with_stop_reason(idle, "max_tokens"@), " "@);
    lemma_text_is_said(with_stop_reason(idle, "max_tokens"@), " "@);
    lemma_same_text(filled, " "@);
    let (s3, e3) = fill_text(s2);
    let (s4, e4) = end_message(s3);
    lemma_end_message_tells(s3);
    let (a, c, d) = split(s.cache_usage, resolved_input(s));
    lemma_ends_behind(
        e1 + e2 + e3,
        e4,
        final_stop_reason(s3.state),
        (a, s3.output_tokens, c, d),
    );
    reveal_strlit(" ");
    lemma_end_says_nothing(s3);
    lemma_said_concat(e1 + e2, e3);
    lemma_said_concat(e1 + e2 + e3, e4);
    if s3.state.stop_reason != s2.state.stop_reason {
        lemma_end_speaks(s);
        lemma_end_speaks(s1);
        lemma_speaks_on(s, s1, s2, e1, e2);
        if let Some(i) = s2.text_block_index {
            lemma_text_is_other(idle, i);
            assert(false);
        }
        lemma_quiet(e1 + e2);
        assert(said(e1 + e2 + e3 + e4) =~= " "@);
    }
}

pub proof fn lemma_finish_tells(s: StreamV)
    requires
        in_order(s),
        finish_stream(s).0.tool_json_error is None,
        fits(resolved_input(s)),
        fits(finish_stream(s).0.output_tokens),
    ensures
        ({
            let (t, e) = finish_stream(s);
            let (a, c, d) = split(s.cache_usage, resolved_input(s));
            let more = finish_step(s.pending, s.tool_name_map).1;
            let expected = match s.state.stop_reason {
                Some(reason) => reason,
                None => if s.state.has_tool_use || (more is Done && more->Done_0.len() > 0) {
                    "tool_use"@
                } else {
                    "end_turn"@
                },
            };
            &&& s.tool_json_error is None
            &&& t.cache_usage == s.cache_usage
            &&& resolved_input(t) == resolved_input(s)
            &&& a + c + d == resolved_input(s)
            &&& ends_with_counts(e, expected, (a, t.output_tokens, c, d)) || (s.thinking_enabled
                && ends_with_counts(e, "max_tokens"@, (a, t.output_tokens, c, d)) && said(e)
                == " "@ && s.text_block_index is None)
        }),
{
    if s.tool_json_error is Some {
        lemma_error_stays(s);
    }
    let (pending, outcome) = finish_step(s.pending, s.tool_name_map);
    let s0 = StreamV { pending, ..s };
    if let FinishV::Done(calls) = outcome {
        lemma_calls_end(s0, calls);
        if calls.len() > 0 {
            lemma_call_ends(calls_step(s0, calls.drop_last()).0, calls.last());
        }
    }
    lemma_flush_calls(s);
    let (s1, e1) = flush_calls(s);
    let emptied = StreamV {
        filter: crate::xml_filter::FilterV { buffer: Seq::empty(), stripping: false },
        ..s1
    };
    lemma_filtered_is_plain(emptied, crate::xml_filter::stripped(s1.filter.buffer));
    lemma_flush_filter(s1);
    let (s2, e2) = flush_filter(s1);
    if s2.tool_json_error is Some {
        lemma_error_end_keeps(s2);
        assert(false);
    }
    lemma_end_well_tells(s2);
    let (s3, e3) = end_well(s2);
    let (a, c, d) = split(s.cache_usage, resolved_input(s));
    let counts = (a, s3.output_tokens, c, d);
    let expected = final_stop_reason(s2.state);
    if ends_with_counts(e3, expected, counts) {
        lemma_ends_behind(e1 + e2, e3, expected, counts);
    } else {
        lemma_ends_behind(e1 + e2, e3, "max_tokens"@, counts);
        lemma_said_concat(e1 + e2, e3);
        lemma_end_speaks(s);
        lemma_end_speaks(s1);
        lemma_speaks_on(s, s1, s2, e1, e2);
        lemma_quiet(e1 + e2);
        assert(said(e1 + e2 + e3) =~= " "@);
    }
}

proof fn lemma_error_end_keeps(s: StreamV)
    requires
        s.tool_json_error is Some,
    ensures
        end_with_error(s, s.tool_json_error->0).0.tool_json_error is Some,
{
    lemma_thinking_is_plain(s, Seq::empty());
    let s3 = close_reasoning(s).0;
    lemma_thinking_is_plain(s3, Seq::empty());
}

/// A stream ends with the reason for its end, the final counts, and then the stop.
///
/// The reason is the last that the upstream gave: a context window that is used up, or an answer
/// that is too long. Without one it is a tool call, where the upstream made one, or else that the
/// answer is complete. Only where a client that asked for thinking would get nothing else, and a
/// blank stands in for the text, is the answer taken to be too long.
///
/// The input counts are the last count that the upstream told, or else the estimate, divided as
/// the prompt is. Streams that end because a tool call could not be used are left out.
pub proof fn law_stream_tells_how_it_ends(s: StreamV, events: Seq<EventV>)
    requires
        unsent(s),
        s.pending.len() == 0,
        s.context_input_tokens is None,
        last_state(s, events).tool_json_error is None,
        i32::MIN <= resolved_input(events_step(initial_step(s).0, events).0) <= i32::MAX,
        i32::MIN <= last_state(s, events).output_tokens <= i32::MAX,
    ensures
        exists|reason: Seq<char>, counts: (int, int, int, int)|
            #![trigger ends_with_counts(transcript(s, events), reason, counts)]
            ends_with_counts(transcript(s, events), reason, counts) && told_last(
                events,
                s.input_tokens,
                counts.0 + counts.2 + counts.3,
            ) && divided(
                s.cache_usage,
                counts.0 + counts.2 + counts.3,
                counts.0,
                counts.2,
                counts.3,
            ) && counts.1 == last_state(s, events).output_tokens && (reason_last(events, reason) || (s.thinking_enabled && reason == "max_tokens"@
                && said(transcript(s, events)) == " "@)),
{
    lemma_initial_step(s);
    lemma_start_is_plain(s);
    let (s1, e1) = initial_step(s);
    lemma_events_step(s1, events);
    let (s2, e2) = events_step(s1, events);
    lemma_finish_tells(s2);
    lemma_events_end(s1, events);
    let (s3, e3) = finish_stream(s2);
    let (a, c, d) = split(s2.cache_usage, resolved_input(s2));
    let counts = (a, s3.output_tokens, c, d);
    let more = finish_step(s2.pending, s2.tool_name_map).1;
    let reason = match s2.state.stop_reason {
        Some(reason) => reason,
        None => if s2.state.has_tool_use {
            "tool_use"@
        } else {
            "end_turn"@
        },
    };
    lemma_no_pieces(s1, events);
    lemma_divided(s.cache_usage, resolved_input(s2));
    lemma_told_last(s2, events, s.input_tokens);
    lemma_reason_last(s2, events, reason);
    if ends_with_counts(e3, reason, counts) {
        lemma_ends_behind(e1 + e2, e3, reason, counts);
        assert(ends_with_counts(transcript(s, events), reason, counts));
    } else {
        lemma_ends_behind(e1 + e2, e3, "max_tokens"@, counts);
        lemma_said_concat(e1 + e2, e3);
        lemma_start_speaks(s);
        lemma_events_speak(s1, events);
        lemma_speaks_on(s, s1, s2, e1, e2);
        lemma_quiet(e1 + e2);
        assert(said(e1 + e2 + e3) =~= " "@);
        assert(ends_with_counts(transcript(s, events), "max_tokens"@, counts));
    }
}

/// `total` is the last count that the events tell, or else the estimate.
pub open spec fn told_last(events: Seq<EventV>, estimate: int, total: int) -> bool {
    &&& forall|i: int|
        0 <= i < events.len() && #[trigger] events[i] is ContextUsage && (forall|j: int|
            i < j < events.len() ==> !(#[trigger] events[j] is ContextUsage)) ==> total
            == events[i]->input_tokens
    &&& (forall|i: int| 0 <= i < events.len() ==> !(#[trigger] events[i] is ContextUsage))
        ==> total == estimate
}

/// `reason` is the last that the events give; without one, a tool call or that all is said.
pub open spec fn reason_last(events: Seq<EventV>, reason: Seq<char>) -> bool {
    &&& forall|i: int|
        0 <= i < events.len() && ends_early(#[trigger] events[i]) && (forall|j: int|
            i < j < events.len() ==> !ends_early(#[trigger] events[j])) ==> reason == (
        if events[i] is ContextUsage {
            "model_context_window_exceeded"@
        } else {
            "max_tokens"@
        })
    &&& (forall|i: int| 0 <= i < events.len() ==> !ends_early(#[trigger] events[i])) ==> reason == (
    if pieces(events).len() > 0 {
        "tool_use"@
    } else {
        "end_turn"@
    })
}

pub proof fn lemma_told_last(t: StreamV, events: Seq<EventV>, estimate: int)
    requires
        t.input_tokens == estimate,
        from_last(
            t.context_input_tokens,
            events,
            |e: EventV| e is ContextUsage,
            |e: EventV| e->input_tokens,
        ),
    ensures
        told_last(events, estimate, resolved_input(t)),
{
    let usage = |e: EventV| e is ContextUsage;
    let tokens = |e: EventV| e->input_tokens;
    assert forall|i: int|
        0 <= i < events.len() && #[trigger] events[i] is ContextUsage && (forall|j: int|
            i < j < events.len() ==> !(
            #[trigger] events[j] is ContextUsage)) implies resolved_input(t)
        == events[i]->input_tokens by {
        lemma_told(t.context_input_tokens, events, usage, tokens, i);
    }
    if t.context_input_tokens is Some {
        let k = choose|k: int| #[trigger]
            last_tells(events, usage, k) && t.context_input_tokens->0 == tokens(events[k]);
        assert(events[k] is ContextUsage);
    }
}

proof fn lemma_reason_last(t: StreamV, events: Seq<EventV>, reason: Seq<char>)
    requires
        from_last(
            t.state.stop_reason,
            events,
            |e: EventV| ends_early(e),
            |e: EventV| stop_word(e),
        ),
        t.state.has_tool_use == (pieces(events).len() > 0),
        reason == final_stop_reason(t.state),
    ensures
        reason_last(events, reason),
{
    let early = |e: EventV| ends_early(e);
    let word = |e: EventV| stop_word(e);
    assert forall|i: int|
        0 <= i < events.len() && ends_early(#[trigger] events[i]) && (forall|j: int|
            i < j < events.len() ==> !ends_early(#[trigger] events[j])) implies reason == (
    if events[i] is ContextUsage {
        "model_context_window_exceeded"@
    } else {
        "max_tokens"@
    }) by {
        lemma_told(t.state.stop_reason, events, early, word, i);
    }
    if t.state.stop_reason is Some {
        let k = choose|k: int| #[trigger]
            last_tells(events, early, k) && t.state.stop_reason->0 == word(events[k]);
        assert(ends_early(events[k]));
    }
}

/// Without pieces of tool calls none is pending at the end.
proof fn lemma_no_pieces(s: StreamV, events: Seq<EventV>)
    requires
        in_order(s),
        s.pending.len() == 0,
    ensures
        pieces(events).len() == 0 ==> events_step(s, events).0.pending.len() == 0,
    decreases events.len(),
{
    if events.len() > 0 && pieces(events).len() == 0 {
        let front = events.drop_last();
        lemma_no_pieces(s, front);
        lemma_events_step(s, front);
        let before = events_step(s, front).0;
        reveal(event_step);
        lemma_thinking_is_plain(before, Seq::empty());
        let s1 = close_reasoning(before).0;
        match events.last() {
            EventV::Content(content) => {
                let (text, filter) = crate::xml_filter::scan(
                    s1.filter.buffer + content,
                    s1.filter.stripping,
                );
                lemma_filtered_is_plain(StreamV { filter, ..s1 }, text);
            },
            EventV::Reasoning(r) => {
                let held = match r.redacted {
                    Some(data) => data,
                    None => Seq::empty(),
                };
                if held.len() > 0 {
                    lemma_redacted_is_sent(before, held);
                } else {
                    lemma_disclosed_is_plain(before, r.text);
                }
            },
            _ => {},
        }
    }
}

/// A stream begins with the id of the message, its model and its author. The input counts of the
/// beginning are the estimate, divided as the prompt is, and one token of output is counted.
pub proof fn law_stream_begins_with_the_message(s: StreamV, events: Seq<EventV>)
    requires
        unsent(s),
        i32::MIN <= s.input_tokens <= i32::MAX,
    ensures
        ({
            let first = transcript(s, events)[0];
            &&& transcript(s, events).len() > 0
            &&& first.event == "message_start"@
            &&& field(first.data, "message"@) matches Some(m) && string_field(m, "id"@) == Some(
                s.message_id,
            ) && string_field(m, "model"@) == Some(s.model) && string_field(m, "role"@) == Some(
                "assistant"@,
            ) && field(m, "stop_reason"@) == Some(JsonV::Null) && (field(
                m,
                "usage"@,
            ) matches Some(u) && exists|a: int, c: int, d: int|
                #![trigger tells_counts(u, (a, 1, c, d))]
                tells_counts(u, (a, 1, c, d)) && divided(s.cache_usage, s.input_tokens, a, c, d))
        }),
{
    let (a, c, d) = split(s.cache_usage, s.input_tokens);
    law_split_adds_up(s.cache_usage, s.input_tokens);
    lemma_divided(s.cache_usage, s.input_tokens);
    lemma_message_keys();
    let usage = usage_of((a, c, d), 1);
    let first = transcript(s, events)[0];
    assert(first == (SseEventV { event: "message_start"@, data: start_payload(s) }));
    reveal_strlit("type");
    reveal_strlit("message");
    reveal_strlit("id");
    reveal_strlit("role");
    reveal_strlit("model");
    reveal_strlit("content");
    reveal_strlit("stop_reason");
    reveal_strlit("stop_sequence");
    reveal_strlit("usage");
    assert("type"@.len() == 4 && "message"@.len() == 7 && "id"@.len() == 2 && "role"@.len() == 4
        && "model"@.len() == 5 && "content"@.len() == 7 && "stop_reason"@.len() == 11
        && "stop_sequence"@.len() == 13 && "usage"@.len() == 5);
    assert("type"@[0] == 't' && "role"@[0] == 'r' && "model"@[0] == 'm' && "usage"@[0] == 'u');
    assert(tells_counts(crate::sse::usage_json(usage), (a, 1, c, d)));
}

/// A stream in which a tool call cannot be used ends with an error that says so; nothing comes
/// behind it.
pub proof fn law_unusable_call_ends_with_an_error(s: StreamV, events: Seq<EventV>)
    requires
        unsent(s),
        last_state(s, events).tool_json_error is Some,
    ensures
        ({
            let sent = transcript(s, events);
            let e = sent.last();
            &&& sent.len() > 0
            &&& e.event == "error"@
            &&& field(e.data, "error"@) matches Some(x) && string_field(x, "type"@) == Some(
                "upstream_tool_json_error"@,
            ) && string_field(x, "message"@) == Some(
                error_text(last_state(s, events).tool_json_error->0),
            )
        }),
{
    let (s1, e1) = initial_step(s);
    let (s2, e2) = events_step(s1, events);
    let (s3, e3) = flush_calls(s2);
    let (s4, e4) = flush_filter(s3);
    if s4.tool_json_error is None {
        lemma_end_well_keeps(s4);
        assert(false);
    }
    let error = s4.tool_json_error->0;
    lemma_thinking_is_plain(s4, Seq::empty());
    lemma_thinking_is_plain(close_reasoning(s4).0, Seq::empty());
    let e5 = end_with_error(s4, error).1;
    assert(transcript(s, events) == e1 + e2 + (e3 + e4 + e5));
    assert(transcript(s, events).last() == e5.last());
    reveal_strlit("type");
    reveal_strlit("error");
    reveal_strlit("message");
    assert("type"@.len() == 4 && "error"@.len() == 5 && "message"@.len() == 7);
}

proof fn lemma_end_well_keeps(s: StreamV)
    requires
        s.tool_json_error is None,
    ensures
        end_well(s).0.tool_json_error is None,
{
    lemma_thinking_is_plain(s, Seq::empty());
    let s1 = close_reasoning(s).0;
    lemma_close_at_end_is_plain(s1);
    lemma_thinking_is_plain(s1, s1.thinking_buffer);
    lemma_after_is_plain(s1);
    let s2 = flush_buffer(s1).0;
    lemma_text_is_plain(with_stop_reason(s2, "max_tokens"@), " "@);
}

} // verus!
