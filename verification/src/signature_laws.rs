//! A thinking block is signed before it is stopped.

use crate::buffered::{all_corrected, buffer_all, input_counts, release, unfilled, BufferedV};
use crate::buffered::law_holding_back_changes_only_counts;
use crate::events::{EventV, ReasoningV};
use crate::json::{empty_object, field, printed, string_field, JsonV};
use crate::protocol::{index_of, lemma_event_names, lemma_index_of, table};
use crate::render::{answer_events, block_events, block_number, content_events, input_of};
use crate::render::{rendered_delta, text_under};
use crate::sse::{block_delta_json, block_start_json, input_delta_event, opt_events, part_json};
use crate::sse::{signature_delta_event, start_event, stop_event, text_delta_event};
use crate::sse::{message_start_event, message_stop_event, Usage};
use crate::sse::{thinking_delta_event, tool_use_json, SseEventV, THINKING_SIGNATURE_PLACEHOLDER};
use crate::state::{block_delta_step, block_start_step, block_stop_step, closing_events};
use crate::state::{is_open, lemma_position_from, open_of_kind, position, to_close, BlockV, StateV};
use crate::stream_laws::{in_order, lemma_before_call, lemma_call_step};
use crate::stream_laws::{lemma_close_at_end, lemma_close_reasoning, lemma_close_text};
use crate::stream_laws::{lemma_events_step, lemma_flush_calls};
use crate::stream_laws::{lemma_flush_filter, lemma_initial_step, lemma_inside_step, lemma_kinds};
use crate::stream_laws::{lemma_search_step, unsent};
use crate::stream_model::{after_step, assistant_step, before_call, call_step, calls_step};
use crate::stream_model::{close_at_end, close_reasoning, close_text, close_thinking};
use crate::stream_model::{close_unfinished, content_step, end_message, end_well, end_with_error};
use crate::stream_model::{event_step, events_step, fill_text, filtered_step, finish_stream};
use crate::stream_model::{flush_buffer, flush_calls, flush_filter, initial_step, inside_step};
use crate::stream_model::{leave_thinking, open_block, reasoning_block_step, reasoning_step};
use crate::stream_model::{redacted_step, safe_chars, search_step, strip_step, text_block_step};
use crate::stream_model::{text_step, thinking_events, thinking_is_open, tool_step, transcript};
use crate::stream_model::{with_stop_reason, Step, StreamV};
use crate::thinking::{find_end, first_last_close, first_real, open_tag};
use crate::tool_json::{finish_step, push_step, CompletedV, FinishV, PushV, ToolErrorV};
use crate::tool_json::ToolUseV;
use vstd::prelude::*;

verus! {

/// The part of a block that an event adds, where it adds one.
pub open spec fn part_of(e: SseEventV) -> Option<JsonV> {
    if e.event == "content_block_delta"@ {
        field(e.data, "delta"@)
    } else {
        None
    }
}

/// Whether an event signs a block.
pub open spec fn is_signature(e: SseEventV) -> bool {
    match part_of(e) {
        Some(part) => string_field(part, "type"@) == Some("signature_delta"@) && string_field(
            part,
            "signature"@,
        ) == Some(THINKING_SIGNATURE_PLACEHOLDER@),
        None => false,
    }
}

/// Whether an event adds thinking to a block.
pub open spec fn is_thought(e: SseEventV) -> bool {
    match part_of(e) {
        Some(part) => string_field(part, "type"@) == Some("thinking_delta"@) && match string_field(
            part,
            "thinking"@,
        ) {
            Some(thinking) => thinking.len() > 0,
            None => false,
        },
        None => false,
    }
}

/// Whether a block is one of thinking.
pub open spec fn is_thinking_block(block: JsonV) -> bool {
    string_field(block, "type"@) == Some("thinking"@)
}

/// Whether an event starts a thinking block.
pub open spec fn is_thinking_start(e: SseEventV) -> bool {
    e.event == "content_block_start"@ && match field(e.data, "content_block"@) {
        Some(block) => is_thinking_block(block),
        None => false,
    }
}

/// Each stop of a thinking block comes behind a signature of the block, which comes behind its
/// start.
pub open spec fn signed_before_stop(events: Seq<SseEventV>) -> bool {
    forall|k: int, j: int|
        0 <= k < j < events.len() && is_thinking_start(#[trigger] events[k]) && (
        #[trigger] events[j]).event == "content_block_stop"@ && index_of(events[k]) is Some
            && index_of(events[j]) == index_of(events[k]) ==> signed_between(events, k, j)
}

/// Between positions `k` and `j` stands a signature of the block that the event at `k` is about.
pub open spec fn signed_between(events: Seq<SseEventV>, k: int, j: int) -> bool {
    exists|m: int|
        k < m < j && is_signature(#[trigger] events[m]) && index_of(events[m]) == index_of(
            events[k],
        )
}

/// Reading one more event, where `owing` are the thinking blocks that owe a signature: from
/// their start, and from each piece of thinking, until they are signed. None where such a block
/// is stopped.
pub open spec fn owing_step(owing: Set<int>, e: SseEventV) -> Option<Set<int>> {
    match index_of(e) {
        Some(i) => if e.event == "content_block_stop"@ {
            if owing.contains(i) {
                None
            } else {
                Some(owing)
            }
        } else if is_signature(e) {
            Some(owing.remove(i))
        } else if is_thinking_start(e) || is_thought(e) {
            Some(owing.insert(i))
        } else {
            Some(owing)
        },
        None => Some(owing),
    }
}

/// Reading events one after the other; none where a thinking block is stopped that owes a
/// signature.
pub open spec fn owing_after(owing: Set<int>, events: Seq<SseEventV>) -> Option<Set<int>>
    decreases events.len(),
{
    if events.len() == 0 {
        Some(owing)
    } else {
        match owing_after(owing, events.drop_last()) {
            Some(o) => owing_step(o, events.last()),
            None => None,
        }
    }
}

proof fn lemma_owing_concat(owing: Set<int>, a: Seq<SseEventV>, b: Seq<SseEventV>)
    ensures
        owing_after(owing, a + b) == (match owing_after(owing, a) {
            Some(o) => owing_after(o, b),
            None => None,
        }),
    decreases b.len(),
{
    if b.len() == 0 {
        assert(a + b =~= a);
    } else {
        lemma_owing_concat(owing, a, b.drop_last());
        assert((a + b).drop_last() =~= a + b.drop_last());
    }
}

proof fn lemma_owing_one(owing: Set<int>, e: SseEventV)
    ensures
        owing_after(owing, seq![e]) == owing_step(owing, e),
{
    assert(seq![e].drop_last() =~= Seq::empty());
    assert(owing_after(owing, Seq::empty()) == Some(owing));
}

/// A thinking block that has been started and not been signed since owes a signature.
proof fn lemma_still_owing(owing: Set<int>, events: Seq<SseEventV>, k: int)
    requires
        owing_after(owing, events) is Some,
        0 <= k < events.len(),
        is_thinking_start(events[k]),
        index_of(events[k]) is Some,
        !signed_between(events, k, events.len() as int),
    ensures
        owing_after(owing, events)->0.contains(index_of(events[k])->0),
    decreases events.len(),
{
    lemma_event_names();
    let front = events.drop_last();
    if k < front.len() {
        assert(!signed_between(front, k, front.len() as int)) by {
            if signed_between(front, k, front.len() as int) {
                let m = choose|m: int|
                    k < m < front.len() && is_signature(#[trigger] front[m]) && index_of(front[m])
                        == index_of(front[k]);
                assert(events[m] == front[m]);
            }
        }
        lemma_still_owing(owing, front, k);
        let last = events[events.len() - 1];
        assert(!(is_signature(last) && index_of(last) == index_of(events[k])));
    }
}

/// Where no thinking block is stopped that owes a signature, each is signed before its stop.
proof fn lemma_signed_before_stop(owing: Set<int>, events: Seq<SseEventV>)
    requires
        owing_after(owing, events) is Some,
    ensures
        signed_before_stop(events),
    decreases events.len(),
{
    if events.len() > 0 {
        let front = events.drop_last();
        lemma_signed_before_stop(owing, front);
        assert forall|k: int, j: int|
            0 <= k < j < events.len() && is_thinking_start(#[trigger] events[k]) && (
            #[trigger] events[j]).event == "content_block_stop"@ && index_of(events[k]) is Some
                && index_of(events[j]) == index_of(events[k]) implies signed_between(
            events,
            k,
            j,
        ) by {
            if j < front.len() {
                assert(front[k] == events[k] && front[j] == events[j]);
                assert(signed_between(front, k, j));
                let m = choose|m: int|
                    k < m < j && is_signature(#[trigger] front[m]) && index_of(front[m])
                        == index_of(front[k]);
                assert(events[m] == front[m]);
            } else {
                if !signed_between(front, k, j) {
                    lemma_still_owing(owing, front, k);
                }
                assert(signed_between(front, k, j));
                let m = choose|m: int|
                    k < m < j && is_signature(#[trigger] front[m]) && index_of(front[m])
                        == index_of(front[k]);
                assert(events[m] == front[m]);
            }
        }
    }
}

/// Events that change nothing, one after the other, change nothing.
proof fn lemma_neutral(owing: Set<int>, events: Seq<SseEventV>)
    requires
        forall|k: int|
            0 <= k < events.len() ==> owing_step(owing, #[trigger] events[k]) == Some(owing),
    ensures
        owing_after(owing, events) == Some(owing),
    decreases events.len(),
{
    if events.len() > 0 {
        lemma_neutral(owing, events.drop_last());
        assert(owing_step(owing, events[events.len() - 1]) == Some(owing));
    }
}

/// What each kind of event does.
proof fn lemma_owing_events(owing: Set<int>, index: int, block: JsonV, text: Seq<char>)
    ensures
        owing_step(owing, start_event(index, block)) == Some(
            if is_thinking_block(block) {
                owing.insert(index)
            } else {
                owing
            },
        ),
        owing_step(owing, text_delta_event(index, text)) == Some(owing),
        owing_step(owing, input_delta_event(index, text)) == Some(owing),
        owing_step(owing, thinking_delta_event(index, text)) == Some(
            if text.len() > 0 {
                owing.insert(index)
            } else {
                owing
            },
        ),
        owing_step(owing, signature_delta_event(index)) == Some(owing.remove(index)),
        owing_step(owing, stop_event(index)) == (if owing.contains(index) {
            None
        } else {
            Some(owing)
        }),
{
    lemma_event_names();
    lemma_index_of(index, block);
    lemma_index_of(index, part_json("text_delta"@, "text"@, text));
    lemma_index_of(index, part_json("input_json_delta"@, "partial_json"@, text));
    lemma_index_of(index, part_json("thinking_delta"@, "thinking"@, text));
    lemma_index_of(
        index,
        part_json("signature_delta"@, "signature"@, THINKING_SIGNATURE_PLACEHOLDER@),
    );
    reveal_strlit("type");
    reveal_strlit("index");
    reveal_strlit("delta");
    reveal_strlit("content_block");
    reveal_strlit("text");
    reveal_strlit("thinking");
    reveal_strlit("signature");
    reveal_strlit("partial_json");
    reveal_strlit("text_delta");
    reveal_strlit("input_json_delta");
    reveal_strlit("thinking_delta");
    reveal_strlit("signature_delta");
    assert("type"@.len() == 4 && "text"@.len() == 4 && "type"@[1] == 'y' && "text"@[1] == 'e');
    assert("thinking"@.len() == 8 && "signature"@.len() == 9 && "partial_json"@.len() == 12);
    assert("delta"@.len() == 5 && "index"@.len() == 5 && "delta"@[0] == 'd');
    assert("text_delta"@.len() == 10 && "input_json_delta"@.len() == 16);
    assert("thinking_delta"@.len() == 14 && "signature_delta"@.len() == 15);
}

/// Events of other names change nothing.
proof fn lemma_owing_other(owing: Set<int>, e: SseEventV)
    requires
        e.event != "content_block_start"@,
        e.event != "content_block_stop"@,
        e.event != "content_block_delta"@,
    ensures
        owing_step(owing, e) == Some(owing),
{
}

/// The blocks that owe a signature are those that the stream will sign: its thinking block,
/// while it is open.
pub open spec fn owes(s: StreamV, owing: Set<int>) -> bool {
    &&& s.in_thinking_block ==> s.thinking_enabled
    &&& forall|i: int| #[trigger]
        owing.contains(i) ==> s.thinking_block_index == Some(i) && (s.reasoning_block_open
            || s.in_thinking_block)
}

/// A step that keeps its promise to sign.
pub open spec fn signs(owing: Set<int>, r: Step) -> bool {
    owing_after(owing, r.1) matches Some(o) && owes(r.0, o)
}

/// Two steps that keep their promise, one after the other.
proof fn lemma_signs_concat(owing: Set<int>, a: Step, b: Step)
    requires
        signs(owing, a),
        signs(owing_after(owing, a.1)->0, b),
    ensures
        signs(owing, (b.0, a.1 + b.1)),
{
    lemma_owing_concat(owing, a.1, b.1);
}

proof fn lemma_nothing_owed(owing: Set<int>)
    requires
        forall|i: int| !#[trigger] owing.contains(i),
    ensures
        owing == Set::<int>::empty(),
{
    assert(owing =~= Set::empty());
}

/// The blocks that a stream starts, and which of them are thinking.
proof fn lemma_blocks(text: Seq<char>, id: Seq<char>, name: Seq<char>, input: JsonV)
    ensures
        !is_thinking_block(part_json("text"@, "text"@, text)),
        !is_thinking_block(part_json("redacted_thinking"@, "data"@, text)),
        !is_thinking_block(tool_use_json(id, name, input)),
{
    lemma_kinds();
    reveal_strlit("type");
    reveal_strlit("text");
    reveal_strlit("data");
    reveal_strlit("id");
    reveal_strlit("name");
    reveal_strlit("input");
    reveal_strlit("thinking");
    reveal_strlit("redacted_thinking");
    assert("type"@[1] == 'y' && "text"@[1] == 'e' && "data"@[1] == 'a' && "name"@[1] == 'a');
    assert("type"@.len() == 4 && "id"@.len() == 2 && "input"@.len() == 5);
    assert("thinking"@.len() == 8 && "redacted_thinking"@.len() == 17);
}

/// Starting a thinking block makes it owe a signature, and no other block.
proof fn lemma_open_thinking_owes(owing: Set<int>, s: StreamV, block: JsonV)
    ensures
        owing_after(owing, open_block(s, "thinking"@, block).1) matches Some(o) && forall|i: int|
         #[trigger] o.contains(i) ==> owing.contains(i) || i == s.state.next_block_index,
{
    lemma_kinds();
    let index = s.state.next_block_index;
    let events = open_block(s, "thinking"@, block).1;
    lemma_owing_events(owing, index, block, Seq::empty());
    lemma_owing_one(owing, start_event(index, block));
    if events.len() > 0 {
        assert(events =~= seq![start_event(index, block)]);
    }
}

/// Starting a block other than a tool call or thinking changes nothing.
proof fn lemma_open_owes_nothing(owing: Set<int>, s: StreamV, kind: Seq<char>, block: JsonV)
    requires
        kind != "tool_use"@,
        !is_thinking_block(block),
    ensures
        owing_after(owing, open_block(s, kind, block).1) == Some(owing),
{
    let index = s.state.next_block_index;
    lemma_owing_events(owing, index, block, Seq::empty());
    lemma_neutral(owing, open_block(s, kind, block).1);
}

/// Sending text changes nothing.
proof fn lemma_text_owes_nothing(owing: Set<int>, s: StreamV, text: Seq<char>)
    ensures
        owing_after(owing, text_step(s, text).1) == Some(owing),
{
    lemma_kinds();
    lemma_blocks(""@, ""@, ""@, JsonV::Null);
    let (s1, opening) = text_block_step(s);
    let fresh = StreamV { text_block_index: Some(s.state.next_block_index), ..s };
    lemma_open_owes_nothing(owing, fresh, "text"@, part_json("text"@, "text"@, ""@));
    assert(owing_after(owing, opening) == Some(owing));
    match s1.text_block_index {
        Some(index) => {
            let e = text_delta_event(index, text);
            lemma_owing_events(owing, index, JsonV::Null, text);
            lemma_owing_one(owing, e);
            let delta = block_delta_step(
                s1.state,
                index,
                block_delta_json(index, part_json("text_delta"@, "text"@, text)),
            );
            lemma_owing_concat(owing, opening, opt_events(delta));
        },
        None => {
            lemma_owing_concat(owing, opening, Seq::empty());
        },
    }
}

/// A piece of thinking makes its block owe a signature.
proof fn lemma_thinking_owes(owing: Set<int>, s: StreamV, thinking: Seq<char>)
    ensures
        owing_after(owing, thinking_events(s, thinking)) == Some(
            if thinking.len() > 0 && s.thinking_block_index is Some {
                owing.insert(s.thinking_block_index->0)
            } else {
                owing
            },
        ),
{
    match s.thinking_block_index {
        Some(index) => {
            lemma_owing_events(owing, index, JsonV::Null, thinking);
            lemma_owing_one(owing, thinking_delta_event(index, thinking));
        },
        None => {},
    }
}

/// Closing the thinking block signs it.
proof fn lemma_close_thinking_signs(owing: Set<int>, s: StreamV)
    requires
        s.thinking_block_index is Some,
        forall|i: int| #[trigger] owing.contains(i) ==> s.thinking_block_index == Some(i),
    ensures
        owing_after(owing, close_thinking(s).1) == Some(Set::<int>::empty()),
{
    let index = s.thinking_block_index->0;
    let a = thinking_delta_event(index, ""@);
    let b = signature_delta_event(index);
    let none = Set::<int>::empty();
    reveal_strlit("");
    lemma_owing_events(owing, index, JsonV::Null, ""@);
    lemma_owing_events(none, index, JsonV::Null, ""@);
    lemma_owing_one(owing, a);
    lemma_owing_one(owing, b);
    lemma_owing_one(none, stop_event(index));
    assert(owing.remove(index) =~= none);
    assert(seq![a] + seq![b] =~= seq![a, b]);
    lemma_owing_concat(owing, seq![a], seq![b]);
    let stop = block_stop_step(s.state, index).1;
    lemma_owing_concat(owing, seq![a, b], opt_events(stop));
}

proof fn lemma_close_reasoning_signs(owing: Set<int>, s: StreamV)
    requires
        in_order(s),
        owes(s, owing),
    ensures
        signs(owing, close_reasoning(s)),
{
    if s.reasoning_block_open {
        lemma_close_thinking_signs(owing, s);
    }
}

proof fn lemma_close_unfinished_signs(owing: Set<int>, s: StreamV)
    requires
        in_order(s),
        owes(s, owing),
        !s.reasoning_block_open,
    ensures
        owing_after(owing, close_unfinished(s).1) == Some(Set::<int>::empty()),
{
    if s.in_thinking_block {
        lemma_close_thinking_signs(owing, s);
    } else {
        lemma_nothing_owed(owing);
    }
}

proof fn lemma_close_text_signs(owing: Set<int>, s: StreamV)
    requires
        in_order(s),
        owes(s, owing),
    ensures
        owing_after(owing, close_text(s).1) == Some(owing),
        owes(close_text(s).0, owing),
{
    lemma_kinds();
    match s.text_block_index {
        Some(index) => {
            if open_of_kind(s.state, index, "text"@) {
                assert(!owing.contains(index)) by {
                    if owing.contains(index) {
                        assert(thinking_is_open(s));
                    }
                }
                lemma_owing_events(owing, index, JsonV::Null, Seq::empty());
                lemma_owing_one(owing, stop_event(index));
            }
        },
        None => {},
    }
}

proof fn lemma_search_signs(owing: Set<int>, s: StreamV)
    requires
        in_order(s),
        owes(s, owing),
        s.thinking_enabled,
        !s.in_thinking_block,
        !s.thinking_extracted,
    ensures
        signs(owing, search_step(s)),
{
    lemma_kinds();
    match first_real(s.thinking_buffer, open_tag(), 0) {
        Some(start) => {
            let before = s.thinking_buffer.take(start);
            lemma_text_owes_nothing(owing, s, before);
            let (s1, e1) = if crate::text::blank(before) {
                (s, Seq::empty())
            } else {
                text_step(s, before)
            };
            let s2 = StreamV {
                in_thinking_block: true,
                strip_thinking_leading_newline: true,
                thinking_buffer: s1.thinking_buffer.skip(start + 10),
                thinking_block_index: Some(s1.state.next_block_index),
                ..s1
            };
            let block = part_json("thinking"@, "thinking"@, ""@);
            lemma_open_thinking_owes(owing, s2, block);
            lemma_owing_concat(owing, e1, open_block(s2, "thinking"@, block).1);
        },
        None => {
            let n = safe_chars(s.thinking_buffer, 10);
            lemma_text_owes_nothing(owing, s, s.thinking_buffer.take(n));
        },
    }
}

proof fn lemma_leave_thinking_signs(owing: Set<int>, s: StreamV, end: int)
    requires
        in_order(s),
        owes(s, owing),
        s.in_thinking_block,
    ensures
        owing_after(owing, leave_thinking(s, end).1) == Some(Set::<int>::empty()),
{
    let inner = s.thinking_buffer.take(end);
    lemma_thinking_owes(owing, s, inner);
    let s0 = StreamV {
        in_thinking_block: false,
        thinking_extracted: true,
        strip_text_after_thinking_boundary: true,
        ..s
    };
    let o = owing_after(owing, thinking_events(s, inner))->0;
    lemma_close_thinking_signs(o, s0);
    lemma_owing_concat(owing, thinking_events(s, inner), close_thinking(s0).1);
}

proof fn lemma_inside_signs(owing: Set<int>, s: StreamV)
    requires
        in_order(s),
        owes(s, owing),
        s.in_thinking_block,
    ensures
        signs(owing, inside_step(s)),
{
    let s0 = strip_step(s);
    assert(in_order(s0));
    assert(owes(s0, owing));
    match find_end(s0.thinking_buffer) {
        Some((end, resume)) => {
            lemma_leave_thinking_signs(owing, s0, end);
        },
        None => {
            let n = safe_chars(s0.thinking_buffer, 11);
            lemma_thinking_owes(owing, s0, s0.thinking_buffer.take(n));
        },
    }
}

proof fn lemma_after_signs(owing: Set<int>, s: StreamV)
    requires
        owes(s, owing),
        !s.in_thinking_block,
    ensures
        signs(owing, after_step(s)),
{
    let text = crate::stream_model::buffered_text(s);
    let s0 = StreamV {
        thinking_buffer: Seq::empty(),
        strip_text_after_thinking_boundary: s.strip_text_after_thinking_boundary && text.len()
            == 0,
        ..s
    };
    lemma_text_owes_nothing(owing, s0, text);
}

proof fn lemma_content_signs(owing: Set<int>, s: StreamV, content: Seq<char>)
    requires
        in_order(s),
        owes(s, owing),
        s.thinking_enabled,
    ensures
        signs(owing, content_step(s, content)),
{
    let s0 = StreamV { thinking_buffer: s.thinking_buffer + content, ..s };
    assert(in_order(s0));
    assert(owes(s0, owing));
    let searching = !s0.in_thinking_block && !s0.thinking_extracted;
    if searching {
        lemma_search_step(s0);
        lemma_search_signs(owing, s0);
    }
    let (s1, e1) = if searching {
        search_step(s0)
    } else {
        (s0, Seq::empty())
    };
    assert(in_order(s1));
    assert(signs(owing, (s1, e1)));
    let o1 = owing_after(owing, e1)->0;
    if !(searching && !s1.in_thinking_block) {
        if s1.in_thinking_block {
            lemma_inside_step(s1);
            lemma_inside_signs(o1, s1);
        }
        let (s2, e2) = if s1.in_thinking_block {
            inside_step(s1)
        } else {
            (s1, Seq::empty())
        };
        assert(signs(o1, (s2, e2)));
        lemma_signs_concat(owing, (s1, e1), (s2, e2));
        let o2 = owing_after(owing, e1 + e2)->0;
        if !s2.in_thinking_block {
            lemma_after_signs(o2, s2);
            lemma_signs_concat(owing, (s2, e1 + e2), after_step(s2));
        }
    }
}

proof fn lemma_filtered_signs(owing: Set<int>, s: StreamV, text: Seq<char>)
    requires
        in_order(s),
        owes(s, owing),
    ensures
        signs(owing, filtered_step(s, text)),
{
    if text.len() > 0 {
        let s0 = StreamV {
            output_tokens: crate::tokens::capped(
                s.output_tokens + crate::tokens::capped(crate::tokens::estimate(text)),
            ),
            ..s
        };
        assert(in_order(s0));
        assert(owes(s0, owing));
        if s0.thinking_enabled {
            lemma_content_signs(owing, s0, text);
        } else {
            lemma_text_owes_nothing(owing, s0, text);
        }
    }
}

/// Closing text blocks stops no block that owes a signature.
proof fn lemma_closing_stops_text(owing: Set<int>, blocks: Seq<BlockV>)
    requires
        forall|k: int|
            0 <= k < blocks.len() && (#[trigger] blocks[k]).kind == "text"@ && is_open(blocks[k])
                ==> !owing.contains(blocks[k].index),
    ensures
        owing_after(owing, closing_events(blocks, true)) == Some(owing),
    decreases blocks.len(),
{
    if blocks.len() > 0 {
        let front = blocks.drop_last();
        assert forall|k: int|
            0 <= k < front.len() && (#[trigger] front[k]).kind == "text"@ && is_open(
                front[k],
            ) implies !owing.contains(front[k].index) by {
            assert(front[k] == blocks[k]);
        }
        lemma_closing_stops_text(owing, front);
        if to_close(blocks.last(), true) {
            let index = blocks.last().index;
            assert(blocks[blocks.len() - 1] == blocks.last());
            assert(!owing.contains(index));
            lemma_owing_events(owing, index, JsonV::Null, Seq::empty());
            let events = closing_events(blocks, true);
            assert(events.drop_last() =~= closing_events(front, true));
            assert(events.last() == stop_event(index));
        }
    }
}

proof fn lemma_call_signs(owing: Set<int>, s: StreamV, call: CompletedV)
    requires
        in_order(s),
        owes(s, owing),
    ensures
        owing_after(owing, call_step(s, call).1) == Some(owing),
        owes(call_step(s, call).0, owing),
{
    lemma_kinds();
    let blocks = s.state.blocks;
    assert forall|k: int|
        0 <= k < blocks.len() && (#[trigger] blocks[k]).kind == "text"@ && is_open(
            blocks[k],
        ) implies !owing.contains(blocks[k].index) by {
        let i = blocks[k].index;
        if owing.contains(i) {
            assert(thinking_is_open(s));
            lemma_position_from(blocks, i, 0);
            let p = position(blocks, i)->0;
            assert(p == k) by {
                if p < k {
                    assert(blocks[p].index != blocks[k].index);
                } else if k < p {
                    assert(blocks[k].index != blocks[p].index);
                }
            }
        }
    }
    lemma_closing_stops_text(owing, blocks);
    let known = s.tool_block_indices.contains_key(call.id);
    let index = if known {
        s.tool_block_indices[call.id]
    } else {
        s.state.next_block_index
    };
    assert(!owing.contains(index)) by {
        if owing.contains(index) {
            assert(thinking_is_open(s));
            lemma_position_from(blocks, index, 0);
            let p = position(blocks, index)->0;
            assert(blocks[p].index < s.state.next_block_index);
            if known {
                assert(table(blocks)[index].stopped);
            }
        }
    }
    let block = tool_use_json(call.id, call.name, empty_object());
    let partial = printed(call.input);
    lemma_blocks(""@, call.id, call.name, empty_object());
    lemma_owing_events(owing, index, block, partial);
    let state1 = if known {
        s.state
    } else {
        StateV { next_block_index: index + 1, ..s.state }
    };
    let (state2, e2) = block_start_step(
        state1,
        index,
        "tool_use"@,
        block_start_json(index, block),
    );
    let closing = closing_events(blocks, true);
    lemma_owing_one(owing, start_event(index, block));
    lemma_owing_concat(owing, closing, seq![start_event(index, block)]);
    assert(closing.push(start_event(index, block)) =~= closing + seq![start_event(index, block)]);
    assert(owing_after(owing, e2) == Some(owing));
    let delta = block_delta_step(
        state2,
        index,
        block_delta_json(index, part_json("input_json_delta"@, "partial_json"@, partial)),
    );
    let stop = block_stop_step(state2, index).1;
    lemma_owing_one(owing, input_delta_event(index, partial));
    lemma_owing_one(owing, stop_event(index));
    lemma_owing_concat(owing, e2, opt_events(delta));
    lemma_owing_concat(owing, e2 + opt_events(delta), opt_events(stop));
    assert(call_step(s, call).1 == e2 + opt_events(delta) + opt_events(stop));
}

proof fn lemma_calls_sign(owing: Set<int>, s: StreamV, calls: Seq<CompletedV>)
    requires
        in_order(s),
        owes(s, owing),
    ensures
        owing_after(owing, calls_step(s, calls).1) == Some(owing),
        owes(calls_step(s, calls).0, owing),
        in_order(calls_step(s, calls).0),
    decreases calls.len(),
{
    if calls.len() > 0 {
        lemma_calls_sign(owing, s, calls.drop_last());
        let (s1, e1) = calls_step(s, calls.drop_last());
        lemma_call_step(s1, calls.last());
        lemma_call_signs(owing, s1, calls.last());
        lemma_owing_concat(owing, e1, call_step(s1, calls.last()).1);
    }
}

proof fn lemma_close_at_end_signs(owing: Set<int>, s: StreamV)
    requires
        in_order(s),
        owes(s, owing),
        s.in_thinking_block,
    ensures
        signs(owing, close_at_end(s)),
{
    match first_last_close(s.thinking_buffer, 0) {
        Some(end) => {
            lemma_leave_thinking_signs(owing, s, end);
        },
        None => {},
    }
}

proof fn lemma_before_call_signs(owing: Set<int>, s: StreamV)
    requires
        in_order(s),
        owes(s, owing),
    ensures
        signs(owing, before_call(s)),
{
    if s.thinking_enabled && s.in_thinking_block {
        lemma_close_at_end(s);
        lemma_close_at_end_signs(owing, s);
    }
    let (s1, e1) = if s.thinking_enabled && s.in_thinking_block {
        close_at_end(s)
    } else {
        (s, Seq::empty())
    };
    assert(signs(owing, (s1, e1)));
    let o = owing_after(owing, e1)->0;
    if s1.thinking_enabled && !s1.in_thinking_block && !s1.thinking_extracted
        && s1.thinking_buffer.len() > 0 {
        let s2 = StreamV { thinking_buffer: Seq::empty(), ..s1 };
        lemma_text_owes_nothing(o, s2, s1.thinking_buffer);
        assert(owes(text_step(s2, s1.thinking_buffer).0, o));
        lemma_signs_concat(owing, (s1, e1), text_step(s2, s1.thinking_buffer));
    }
}

proof fn lemma_tool_signs(owing: Set<int>, s: StreamV, t: ToolUseV)
    requires
        in_order(s),
        owes(s, owing),
    ensures
        signs(owing, tool_step(s, t)),
{
    let s0 = StreamV { state: StateV { has_tool_use: true, ..s.state }, ..s };
    assert(in_order(s0));
    assert(owes(s0, owing));
    lemma_before_call(s0);
    lemma_before_call_signs(owing, s0);
    let (s1, e1) = before_call(s0);
    let o = owing_after(owing, e1)->0;
    let (pending, outcome) = push_step(s1.pending, t, s1.tool_name_map);
    let s2 = StreamV { pending, ..s1 };
    assert(in_order(s2));
    assert(owes(s2, o));
    match outcome {
        PushV::Done(call) => {
            lemma_call_signs(o, s2, call);
            lemma_signs_concat(owing, (s2, e1), call_step(s2, call));
        },
        _ => {},
    }
}

proof fn lemma_redacted_signs(owing: Set<int>, s: StreamV, redacted: Seq<char>)
    requires
        in_order(s),
        owes(s, owing),
    ensures
        signs(owing, redacted_step(s, redacted)),
{
    lemma_kinds();
    lemma_close_reasoning(s);
    lemma_close_reasoning_signs(owing, s);
    let (s1, e1) = close_reasoning(s);
    let o = owing_after(owing, e1)->0;
    lemma_close_text(s1);
    lemma_close_text_signs(o, s1);
    let (s2, e2) = close_text(s1);
    let index = s2.state.next_block_index;
    let block = part_json("redacted_thinking"@, "data"@, redacted);
    lemma_blocks(redacted, ""@, ""@, JsonV::Null);
    lemma_open_owes_nothing(o, s2, "redacted_thinking"@, block);
    let (s3, e3) = open_block(s2, "redacted_thinking"@, block);
    let stop = block_stop_step(s3.state, index).1;
    assert(!o.contains(index)) by {
        if o.contains(index) {
            assert(thinking_is_open(s2));
            lemma_position_from(s2.state.blocks, index, 0);
            let p = position(s2.state.blocks, index)->0;
            assert(s2.state.blocks[p].index < s2.state.next_block_index);
        }
    }
    lemma_owing_events(o, index, JsonV::Null, Seq::empty());
    lemma_owing_one(o, stop_event(index));
    lemma_owing_concat(owing, e1, e2);
    lemma_owing_concat(owing, e1 + e2, e3);
    lemma_owing_concat(owing, e1 + e2 + e3, opt_events(stop));
    assert(owes(redacted_step(s, redacted).0, o));
}

proof fn lemma_reasoning_block_signs(owing: Set<int>, s: StreamV)
    requires
        in_order(s),
        owes(s, owing),
    ensures
        signs(owing, reasoning_block_step(s)),
        reasoning_block_step(s).0.reasoning_block_open,
{
    lemma_kinds();
    if !s.reasoning_block_open {
        lemma_close_text(s);
        lemma_close_text_signs(owing, s);
        let (s1, e1) = close_text(s);
        let s2 = StreamV {
            reasoning_block_open: true,
            in_thinking_block: false,
            thinking_extracted: true,
            ..s1
        };
        if !thinking_is_open(s1) {
            assert forall|i: int| !#[trigger] owing.contains(i) by {}
            let s3 = StreamV { thinking_block_index: Some(s2.state.next_block_index), ..s2 };
            let block = part_json("thinking"@, "thinking"@, ""@);
            lemma_open_thinking_owes(owing, s3, block);
            lemma_owing_concat(owing, e1, open_block(s3, "thinking"@, block).1);
        }
    }
}

proof fn lemma_reasoning_signs(owing: Set<int>, s: StreamV, r: ReasoningV)
    requires
        in_order(s),
        owes(s, owing),
    ensures
        signs(owing, reasoning_step(s, r)),
{
    if s.thinking_enabled {
        match r.redacted {
            Some(redacted) => {
                lemma_redacted_signs(owing, s, redacted);
            },
            None => {},
        }
        lemma_reasoning_block_signs(owing, s);
        let (s1, e1) = reasoning_block_step(s);
        let o = owing_after(owing, e1)->0;
        lemma_thinking_owes(o, s1, r.text);
        lemma_owing_concat(owing, e1, thinking_events(s1, r.text));
    }
}

proof fn lemma_event_signs(owing: Set<int>, s: StreamV, e: EventV)
    requires
        in_order(s),
        owes(s, owing),
    ensures
        signs(owing, event_step(s, e)),
{
    reveal(event_step);
    lemma_close_reasoning(s);
    lemma_close_reasoning_signs(owing, s);
    let (s1, e1) = close_reasoning(s);
    let o = owing_after(owing, e1)->0;
    match e {
        EventV::Content(content) => {
            let (text, filter) = crate::xml_filter::scan(
                s1.filter.buffer + content,
                s1.filter.stripping,
            );
            let s2 = StreamV { filter, ..s1 };
            assert(in_order(s2));
            assert(owes(s2, o));
            lemma_filtered_signs(o, s2, text);
            lemma_signs_concat(owing, (s1, e1), assistant_step(s1, content));
        },
        EventV::ToolUse(t) => {
            lemma_tool_signs(o, s1, t);
            lemma_signs_concat(owing, (s1, e1), tool_step(s1, t));
        },
        EventV::Reasoning(r) => {
            lemma_reasoning_signs(owing, s, r);
        },
        _ => {},
    }
}

proof fn lemma_events_sign(owing: Set<int>, s: StreamV, events: Seq<EventV>)
    requires
        in_order(s),
        owes(s, owing),
    ensures
        signs(owing, events_step(s, events)),
    decreases events.len(),
{
    if events.len() > 0 {
        lemma_events_sign(owing, s, events.drop_last());
        lemma_events_step(s, events.drop_last());
        let (s1, e1) = events_step(s, events.drop_last());
        let o = owing_after(owing, e1)->0;
        lemma_event_signs(o, s1, events.last());
        lemma_signs_concat(owing, (s1, e1), event_step(s1, events.last()));
    }
}

proof fn lemma_flush_calls_signs(owing: Set<int>, s: StreamV)
    requires
        in_order(s),
        owes(s, owing),
    ensures
        signs(owing, flush_calls(s)),
{
    let (pending, outcome) = finish_step(s.pending, s.tool_name_map);
    let s1 = StreamV { pending, ..s };
    assert(in_order(s1));
    assert(owes(s1, owing));
    match outcome {
        FinishV::Done(calls) => {
            lemma_calls_sign(owing, s1, calls);
        },
        FinishV::Failed(e) => {},
    }
}

/// At the end of a message nothing is owed.
proof fn lemma_flush_buffer_signs(owing: Set<int>, s: StreamV)
    requires
        in_order(s),
        owes(s, owing),
        !s.reasoning_block_open,
    ensures
        owing_after(owing, flush_buffer(s).1) == Some(Set::<int>::empty()),
{
    if s.in_thinking_block {
        match first_last_close(s.thinking_buffer, 0) {
            Some(end) => {
                lemma_leave_thinking_signs(owing, s, end);
            },
            None => {
                let thinking = thinking_events(s, s.thinking_buffer);
                lemma_thinking_owes(owing, s, s.thinking_buffer);
                let o = owing_after(owing, thinking)->0;
                lemma_close_unfinished_signs(o, s);
                lemma_owing_concat(owing, thinking, close_unfinished(s).1);
            },
        }
    } else {
        lemma_nothing_owed(owing);
        let text = crate::stream_model::buffered_text(s);
        let s0 = StreamV {
            thinking_buffer: Seq::empty(),
            strip_text_after_thinking_boundary: s.strip_text_after_thinking_boundary && text.len()
                == 0,
            ..s
        };
        lemma_text_owes_nothing(owing, s0, text);
    }
}

/// Closing blocks that owe nothing.
proof fn lemma_closing_owes_nothing(blocks: Seq<BlockV>)
    ensures
        owing_after(Set::<int>::empty(), closing_events(blocks, false)) == Some(
            Set::<int>::empty(),
        ),
    decreases blocks.len(),
{
    let none = Set::<int>::empty();
    if blocks.len() > 0 {
        lemma_closing_owes_nothing(blocks.drop_last());
        if to_close(blocks.last(), false) {
            let index = blocks.last().index;
            lemma_owing_events(none, index, JsonV::Null, Seq::empty());
            let events = closing_events(blocks, false);
            assert(events.drop_last() =~= closing_events(blocks.drop_last(), false));
            assert(events.last() == stop_event(index));
        }
    }
}

proof fn lemma_end_message_signs(s: StreamV)
    ensures
        owing_after(Set::<int>::empty(), end_message(s).1) == Some(Set::<int>::empty()),
{
    let none = Set::<int>::empty();
    lemma_event_names();
    lemma_closing_owes_nothing(s.state.blocks);
    let closing = closing_events(s.state.blocks, false);
    let usage = crate::stream_model::final_usage(s);
    let d = crate::sse::message_delta_event(crate::state::final_stop_reason(s.state), usage);
    let e = crate::sse::message_stop_event();
    lemma_owing_other(none, d);
    lemma_owing_other(none, e);
    lemma_owing_one(none, d);
    lemma_owing_one(none, e);
    let delta = if s.state.message_delta_sent {
        Seq::empty()
    } else {
        seq![d]
    };
    let end = if s.state.message_ended {
        Seq::empty()
    } else {
        seq![e]
    };
    lemma_owing_concat(none, closing, delta);
    lemma_owing_concat(none, closing + delta, end);
}

proof fn lemma_end_well_signs(owing: Set<int>, s: StreamV)
    requires
        in_order(s),
        owes(s, owing),
    ensures
        owing_after(owing, end_well(s).1) == Some(Set::<int>::empty()),
{
    let none = Set::<int>::empty();
    lemma_close_reasoning(s);
    lemma_close_reasoning_signs(owing, s);
    let (s1, e1) = close_reasoning(s);
    let o = owing_after(owing, e1)->0;
    lemma_flush_buffer_signs(o, s1);
    let (s2, e2) = flush_buffer(s1);
    lemma_text_owes_nothing(none, with_stop_reason(s2, "max_tokens"@), " "@);
    let (s3, e3) = fill_text(s2);
    assert(owing_after(none, e3) == Some(none));
    lemma_end_message_signs(s3);
    let e4 = end_message(s3).1;
    lemma_owing_concat(owing, e1, e2);
    lemma_owing_concat(owing, e1 + e2, e3);
    lemma_owing_concat(owing, e1 + e2 + e3, e4);
}

proof fn lemma_end_with_error_signs(owing: Set<int>, s: StreamV, e: ToolErrorV)
    requires
        in_order(s),
        owes(s, owing),
    ensures
        owing_after(owing, end_with_error(s, e).1) == Some(Set::<int>::empty()),
{
    let none = Set::<int>::empty();
    lemma_event_names();
    lemma_close_reasoning(s);
    lemma_close_reasoning_signs(owing, s);
    let (s1, e1) = close_reasoning(s);
    let o = owing_after(owing, e1)->0;
    lemma_close_unfinished_signs(o, s1);
    let (s2, e2) = close_unfinished(s1);
    lemma_end_message_signs(s2);
    let e3 = end_message(s2).1;
    let last = end_with_error(s, e).1.last();
    lemma_owing_other(none, last);
    lemma_owing_concat(owing, e1, e2);
    lemma_owing_concat(owing, e1 + e2, e3);
    assert(end_with_error(s, e).1.drop_last() =~= e1 + e2 + e3);
}

proof fn lemma_finish_signs(owing: Set<int>, s: StreamV)
    requires
        in_order(s),
        owes(s, owing),
    ensures
        owing_after(owing, finish_stream(s).1) == Some(Set::<int>::empty()),
{
    lemma_flush_calls(s);
    lemma_flush_calls_signs(owing, s);
    let (s1, e1) = flush_calls(s);
    let o1 = owing_after(owing, e1)->0;
    let quiet = StreamV {
        filter: crate::xml_filter::FilterV { buffer: Seq::empty(), stripping: false },
        ..s1
    };
    assert(in_order(quiet));
    assert(owes(quiet, o1));
    lemma_flush_filter(s1);
    lemma_filtered_signs(o1, quiet, crate::xml_filter::stripped(s1.filter.buffer));
    let (s2, e2) = flush_filter(s1);
    let o2 = owing_after(o1, e2)->0;
    lemma_owing_concat(owing, e1, e2);
    match s2.tool_json_error {
        Some(e) => {
            lemma_end_with_error_signs(o2, s2, e);
            lemma_owing_concat(owing, e1 + e2, end_with_error(s2, e).1);
        },
        None => {
            lemma_end_well_signs(o2, s2);
            lemma_owing_concat(owing, e1 + e2, end_well(s2).1);
        },
    }
}

/// Every thinking block is signed before it is stopped, so that the client can hand it back:
/// behind its start, and behind the last that was thought in it. So it is whatever the upstream
/// sends, and also where the stream ends in the middle of thinking, or because a tool call could
/// not be used.
pub proof fn law_thinking_is_signed(s: StreamV, events: Seq<EventV>)
    requires
        unsent(s),
    ensures
        signed_before_stop(transcript(s, events)),
        owing_after(Set::<int>::empty(), transcript(s, events)) == Some(Set::<int>::empty()),
{
    let none = Set::<int>::empty();
    lemma_initial_step(s);
    lemma_event_names();
    lemma_kinds();
    let (s1, e1) = initial_step(s);
    let (state, start) = crate::state::message_start_step(
        s.state,
        crate::stream_model::start_payload(s),
    );
    let started = StreamV { state, ..s };
    lemma_owing_other(none, start->0);
    lemma_owing_one(none, start->0);
    let fresh = StreamV { text_block_index: Some(started.state.next_block_index), ..started };
    let block = part_json("text"@, "text"@, ""@);
    lemma_blocks(""@, ""@, ""@, JsonV::Null);
    lemma_open_owes_nothing(none, fresh, "text"@, block);
    lemma_owing_concat(none, opt_events(start), open_block(fresh, "text"@, block).1);
    assert(owing_after(none, e1) == Some(none));
    assert(owes(s1, none));
    lemma_events_sign(none, s1, events);
    lemma_events_step(s1, events);
    let (s2, e2) = events_step(s1, events);
    let o = owing_after(none, e2)->0;
    lemma_finish_signs(o, s2);
    lemma_owing_concat(none, e1, e2);
    lemma_owing_concat(none, e1 + e2, finish_stream(s2).1);
    lemma_signed_before_stop(none, transcript(s, events));
}

proof fn lemma_corrected_owes_alike(
    owing: Set<int>,
    events: Seq<SseEventV>,
    counts: (int, int, int),
)
    ensures
        owing_after(owing, all_corrected(events, counts)) == owing_after(owing, events),
    decreases events.len(),
{
    let sent = all_corrected(events, counts);
    if events.len() > 0 {
        lemma_event_names();
        lemma_corrected_owes_alike(owing, events.drop_last(), counts);
        assert(sent.drop_last() =~= all_corrected(events.drop_last(), counts));
        match owing_after(owing, events.drop_last()) {
            Some(o) => {
                if sent.last() != events.last() {
                    lemma_owing_other(o, events.last());
                    lemma_owing_other(o, sent.last());
                }
            },
            None => {},
        }
    }
}

/// A held-back stream signs its thinking blocks before it stops them as well.
pub proof fn law_held_back_thinking_is_signed(b: BufferedV, events: Seq<EventV>)
    requires
        unfilled(b),
    ensures
        signed_before_stop(release(buffer_all(b, events)).1),
{
    law_holding_back_changes_only_counts(b, events);
    law_thinking_is_signed(b.inner, events);
    let end = events_step(initial_step(b.inner).0, events).0;
    let none = Set::<int>::empty();
    lemma_corrected_owes_alike(none, transcript(b.inner, events), input_counts(end));
    lemma_signed_before_stop(none, release(buffer_all(b, events)).1);
}

/// A rendered block owes nothing once it is stopped.
proof fn lemma_block_is_signed(index: int, block: JsonV)
    ensures
        owing_after(Set::<int>::empty(), block_events(index, block)) == Some(Set::<int>::empty()),
{
    let none = Set::<int>::empty();
    let kind = text_under(block, "type"@);
    let events = block_events(index, block);
    if kind == "thinking"@ {
        let thinking = text_under(block, "thinking"@);
        let start = start_event(index, part_json("thinking"@, "thinking"@, ""@));
        let one = none.insert(index);
        let rest = seq![signature_delta_event(index), stop_event(index)];
        lemma_owing_events(none, index, part_json("thinking"@, "thinking"@, ""@), thinking);
        lemma_owing_events(one, index, JsonV::Null, thinking);
        lemma_owing_one(none, start);
        let o1 = owing_after(none, seq![start])->0;
        lemma_owing_events(o1, index, JsonV::Null, thinking);
        lemma_owing_one(o1, thinking_delta_event(index, thinking));
        assert(one.insert(index) =~= one);
        assert(one.remove(index) =~= none);
        assert(none.remove(index) =~= none);
        assert(owing_after(none, rest) == Some(none) && owing_after(one, rest) == Some(none)) by {
            lemma_owing_one(none, signature_delta_event(index));
            lemma_owing_one(one, signature_delta_event(index));
            assert(rest.drop_last() =~= seq![signature_delta_event(index)]);
        }
        if thinking.len() == 0 {
            lemma_owing_concat(none, seq![start], rest);
            assert(events =~= seq![start] + rest);
        } else {
            let thought = seq![thinking_delta_event(index, thinking)];
            lemma_owing_concat(none, seq![start], thought);
            lemma_owing_concat(none, seq![start] + thought, rest);
            assert(events =~= seq![start] + thought + rest);
        }
    } else {
        let text = text_under(block, "text"@);
        let data = text_under(block, "data"@);
        let partial = printed(input_of(block));
        let (id, name) = (text_under(block, "id"@), text_under(block, "name"@));
        lemma_blocks(""@, id, name, empty_object());
        lemma_blocks(data, id, name, empty_object());
        lemma_owing_events(none, index, part_json("redacted_thinking"@, "data"@, data), text);
        lemma_owing_events(none, index, part_json("text"@, "text"@, ""@), text);
        lemma_owing_events(none, index, tool_use_json(id, name, empty_object()), partial);
        lemma_owing_events(none, index, block, text);
        lemma_neutral(none, events);
    }
}

proof fn lemma_content_is_signed(content: Seq<JsonV>)
    ensures
        owing_after(Set::<int>::empty(), content_events(content)) == Some(Set::<int>::empty()),
    decreases content.len(),
{
    if content.len() > 0 {
        let none = Set::<int>::empty();
        lemma_content_is_signed(content.drop_last());
        let number = block_number(content.len() - 1);
        lemma_block_is_signed(number, content.last());
        lemma_owing_concat(
            none,
            content_events(content.drop_last()),
            block_events(number, content.last()),
        );
    }
}

/// An answer that is rendered as events signs its thinking blocks before it stops them.
pub proof fn law_rendered_thinking_is_signed(
    id: Seq<char>,
    model: Seq<char>,
    content: Seq<JsonV>,
    stop_reason: Seq<char>,
    usage: Usage,
)
    ensures
        signed_before_stop(answer_events(id, model, content, stop_reason, usage)),
{
    let none = Set::<int>::empty();
    lemma_event_names();
    let start = message_start_event(id, model, Usage { output_tokens: 0, ..usage });
    let ending = seq![rendered_delta(stop_reason, usage), message_stop_event()];
    lemma_owing_other(none, start);
    lemma_owing_one(none, start);
    lemma_owing_other(none, ending[0]);
    lemma_owing_other(none, ending[1]);
    lemma_neutral(none, ending);
    lemma_content_is_signed(content);
    lemma_owing_concat(none, seq![start], content_events(content));
    lemma_owing_concat(none, seq![start] + content_events(content), ending);
    lemma_signed_before_stop(none, answer_events(id, model, content, stop_reason, usage));
}

} // verus!
