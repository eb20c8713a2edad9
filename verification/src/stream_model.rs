//! What each upstream event does to the stream that the client sees.

use crate::events::{EventV, ReasoningV};
use crate::json::{empty_object, printed, JsonV};
use crate::sse::{block_delta_json, block_start_json, error_event, message_start_json, opt_events};
use crate::sse::{part_json, signature_delta_event, thinking_delta_event, tool_use_json};
use crate::sse::{SseEventV, Usage};
use crate::state::{block_delta_step, block_start_step, block_stop_step, final_step, fresh_state};
use crate::state::{has_other_than_thinking, message_start_step, open_of_kind, StateV};
use crate::text::{blank, byte_len, trimmed_start};
use crate::thinking::{chars_within, find_end, first_last_close, first_real, open_tag};
use crate::tokens::{capped, estimate, split, CacheUsage};
use crate::tool_json::{error_text, finish_step, push_step, CompletedV, FinishV, PendingV, PushV};
use crate::tool_json::{ToolErrorV, ToolUseV};
use crate::xml_filter::{scan, stripped, FilterV};
use vstd::prelude::*;

verus! {

/// What a stream to the client is, between two upstream events.
pub struct StreamV {
    pub state: StateV,
    pub model: Seq<char>,
    pub message_id: Seq<char>,
    pub input_tokens: int,
    pub context_input_tokens: Option<int>,
    pub output_tokens: int,
    pub tool_block_indices: Map<Seq<char>, int>,
    pub tool_name_map: Map<Seq<char>, String>,
    pub thinking_enabled: bool,
    pub thinking_buffer: Seq<char>,
    pub in_thinking_block: bool,
    pub thinking_extracted: bool,
    pub thinking_block_index: Option<int>,
    pub reasoning_block_open: bool,
    pub text_block_index: Option<int>,
    pub strip_thinking_leading_newline: bool,
    pub strip_text_after_thinking_boundary: bool,
    pub cache_usage: CacheUsage,
    pub pending: Seq<PendingV>,
    pub tool_json_error: Option<ToolErrorV>,
    pub filter: FilterV,
}

/// A step of the stream: what it becomes, and what it sends.
pub type Step = (StreamV, Seq<SseEventV>);

/// A stream that has sent nothing.
pub open spec fn fresh_stream(
    message_id: Seq<char>,
    model: Seq<char>,
    input_tokens: int,
    thinking_enabled: bool,
    tool_name_map: Map<Seq<char>, String>,
) -> StreamV {
    StreamV {
        state: fresh_state(),
        model,
        message_id,
        input_tokens,
        context_input_tokens: None,
        output_tokens: 0,
        tool_block_indices: Map::empty(),
        tool_name_map,
        thinking_enabled,
        thinking_buffer: Seq::empty(),
        in_thinking_block: false,
        thinking_extracted: false,
        thinking_block_index: None,
        reasoning_block_open: false,
        text_block_index: None,
        strip_thinking_leading_newline: false,
        strip_text_after_thinking_boundary: false,
        cache_usage: CacheUsage { cache_read: 0, cache_covered_est: 0, prompt_total_est: 0 },
        pending: Seq::empty(),
        tool_json_error: None,
        filter: FilterV { buffer: Seq::empty(), stripping: false },
    }
}

/// Token counts out of a split input count.
pub open spec fn usage_of(parts: (int, int, int), output_tokens: int) -> Usage {
    Usage {
        input_tokens: parts.0 as i32,
        output_tokens: output_tokens as i32,
        cache_creation_input_tokens: parts.1 as i32,
        cache_read_input_tokens: parts.2 as i32,
    }
}

/// The input count to report: the one that the upstream told, or else the estimate.
pub open spec fn resolved_input(s: StreamV) -> int {
    match s.context_input_tokens {
        Some(n) => n,
        None => s.input_tokens,
    }
}

/// The counts to report at the end.
pub open spec fn final_usage(s: StreamV) -> Usage {
    usage_of(split(s.cache_usage, resolved_input(s)), s.output_tokens)
}

/// The payload that starts the message.
pub open spec fn start_payload(s: StreamV) -> JsonV {
    message_start_json(
        s.message_id,
        s.model,
        usage_of(split(s.cache_usage, s.input_tokens), 1),
    )
}

/// Numbers a new block of the given kind and starts it.
pub open spec fn open_block(s: StreamV, kind: Seq<char>, block: JsonV) -> Step {
    let index = s.state.next_block_index;
    let numbered = StateV { next_block_index: index + 1, ..s.state };
    let (state, events) = block_start_step(numbered, index, kind, block_start_json(index, block));
    (StreamV { state, ..s }, events)
}

/// Makes sure that a text block is open.
pub open spec fn text_block_step(s: StreamV) -> Step {
    match s.text_block_index {
        Some(index) => if open_of_kind(s.state, index, "text"@) {
            (s, Seq::empty())
        } else {
            new_text_block(s)
        },
        None => new_text_block(s),
    }
}

/// Opens a new text block.
pub open spec fn new_text_block(s: StreamV) -> Step {
    open_block(
        StreamV { text_block_index: Some(s.state.next_block_index), ..s },
        "text"@,
        part_json("text"@, "text"@, ""@),
    )
}

/// Sends text, in the open text block or in a new one.
pub open spec fn text_step(s: StreamV, text: Seq<char>) -> Step {
    let (s1, opening) = text_block_step(s);
    let delta = match s1.text_block_index {
        Some(index) => block_delta_step(
            s1.state,
            index,
            block_delta_json(index, part_json("text_delta"@, "text"@, text)),
        ),
        None => None,
    };
    (s1, opening + opt_events(delta))
}

/// Sends text, where there is any.
pub open spec fn some_text_step(s: StreamV, text: Seq<char>) -> Step {
    if text.len() == 0 {
        (s, Seq::empty())
    } else {
        text_step(s, text)
    }
}

/// Thinking sent in the thinking block, where there is any.
pub open spec fn thinking_events(s: StreamV, thinking: Seq<char>) -> Seq<SseEventV> {
    match s.thinking_block_index {
        Some(index) => if thinking.len() == 0 {
            Seq::empty()
        } else {
            seq![thinking_delta_event(index, thinking)]
        },
        None => Seq::empty(),
    }
}

/// Signs the thinking block and closes it.
pub open spec fn close_thinking(s: StreamV) -> Step {
    match s.thinking_block_index {
        Some(index) => {
            let (state, stop) = block_stop_step(s.state, index);
            (
                StreamV { state, ..s },
                seq![thinking_delta_event(index, ""@), signature_delta_event(index)] + opt_events(
                    stop,
                ),
            )
        },
        None => (s, Seq::empty()),
    }
}

/// Closes the block of disclosed reasoning, where one is open.
pub open spec fn close_reasoning(s: StreamV) -> Step {
    if !s.reasoning_block_open {
        (s, Seq::empty())
    } else {
        let (s1, events) = close_thinking(s);
        (StreamV { reasoning_block_open: false, thinking_extracted: true, ..s1 }, events)
    }
}

/// Whether the thinking block is open.
pub open spec fn thinking_is_open(s: StreamV) -> bool {
    match s.thinking_block_index {
        Some(index) => open_of_kind(s.state, index, "thinking"@),
        None => false,
    }
}

/// Signs and closes the thinking block that a tag has opened, where its closing tag never came.
pub open spec fn close_unfinished(s: StreamV) -> Step {
    if s.in_thinking_block && thinking_is_open(s) {
        close_thinking(s)
    } else {
        (s, Seq::empty())
    }
}

/// Closes the text block, where one is open.
pub open spec fn close_text(s: StreamV) -> Step {
    match s.text_block_index {
        Some(index) => if open_of_kind(s.state, index, "text"@) {
            let (state, stop) = block_stop_step(s.state, index);
            (StreamV { state, ..s }, opt_events(stop))
        } else {
            (s, Seq::empty())
        },
        None => (s, Seq::empty()),
    }
}

/// How many characters of `buffer` can go out while `held` bytes may yet become part of a tag.
pub open spec fn safe_chars(buffer: Seq<char>, held: int) -> int {
    let bytes = byte_len(buffer) as int;
    chars_within(
        buffer,
        if bytes < held {
            0
        } else {
            bytes - held
        },
    )
}

/// Looking for the opening tag: text before it goes out, and the thinking block is opened.
pub open spec fn search_step(s: StreamV) -> Step {
    match first_real(s.thinking_buffer, open_tag(), 0) {
        Some(start) => {
            let before = s.thinking_buffer.take(start);
            let (s1, e1) = if blank(before) {
                (s, Seq::empty())
            } else {
                text_step(s, before)
            };
            let s2 = StreamV {
                in_thinking_block: true,
                strip_thinking_leading_newline: true,
                thinking_buffer: s1.thinking_buffer.skip(start + 10),
                thinking_block_index: Some(s1.state.next_block_index),
                ..s1
            };
            let (s3, e3) = open_block(
                s2,
                "thinking"@,
                part_json("thinking"@, "thinking"@, ""@),
            );
            (s3, e1 + e3)
        },
        None => {
            let n = safe_chars(s.thinking_buffer, 10);
            let safe = s.thinking_buffer.take(n);
            if blank(safe) {
                (s, Seq::empty())
            } else {
                let (s1, e1) = text_step(s, safe);
                (StreamV { thinking_buffer: s1.thinking_buffer.skip(n), ..s1 }, e1)
            }
        },
    }
}

/// Drops the line break behind the opening tag, as soon as there is something behind it.
pub open spec fn strip_step(s: StreamV) -> StreamV {
    if s.strip_thinking_leading_newline && s.thinking_buffer.len() > 0 {
        StreamV {
            thinking_buffer: if s.thinking_buffer[0] == '\n' {
                s.thinking_buffer.drop_first()
            } else {
                s.thinking_buffer
            },
            strip_thinking_leading_newline: false,
            ..s
        }
    } else {
        s
    }
}

/// Leaves the thinking block: what stands before position `end` of the buffer is thinking.
pub open spec fn leave_thinking(s: StreamV, end: int) -> Step {
    let thinking = thinking_events(s, s.thinking_buffer.take(end));
    let (s1, e1) = close_thinking(
        StreamV {
            in_thinking_block: false,
            thinking_extracted: true,
            strip_text_after_thinking_boundary: true,
            ..s
        },
    );
    (s1, thinking + e1)
}

/// Inside the thinking block: thinking goes out, up to the closing tag.
pub open spec fn inside_step(s: StreamV) -> Step {
    let s0 = strip_step(s);
    match find_end(s0.thinking_buffer) {
        Some((end, resume)) => {
            let (s1, e1) = leave_thinking(s0, end);
            (StreamV { thinking_buffer: s1.thinking_buffer.skip(resume), ..s1 }, e1)
        },
        None => {
            let n = safe_chars(s0.thinking_buffer, 11);
            (
                StreamV { thinking_buffer: s0.thinking_buffer.skip(n), ..s0 },
                thinking_events(s0, s0.thinking_buffer.take(n)),
            )
        },
    }
}

/// The buffered text, without the white space that parts it from thinking.
pub open spec fn buffered_text(s: StreamV) -> Seq<char> {
    if s.strip_text_after_thinking_boundary {
        trimmed_start(s.thinking_buffer)
    } else {
        s.thinking_buffer
    }
}

/// Behind the thinking block: all that is buffered goes out as text.
pub open spec fn after_step(s: StreamV) -> Step {
    let text = buffered_text(s);
    some_text_step(
        StreamV {
            thinking_buffer: Seq::empty(),
            strip_text_after_thinking_boundary: s.strip_text_after_thinking_boundary && text.len()
                == 0,
            ..s
        },
        text,
    )
}

/// A piece of text that may hold thinking.
pub open spec fn content_step(s: StreamV, content: Seq<char>) -> Step {
    let s0 = StreamV { thinking_buffer: s.thinking_buffer + content, ..s };
    let searching = !s0.in_thinking_block && !s0.thinking_extracted;
    let (s1, e1) = if searching {
        search_step(s0)
    } else {
        (s0, Seq::empty())
    };
    if searching && !s1.in_thinking_block {
        (s1, e1)
    } else {
        let (s2, e2) = if s1.in_thinking_block {
            inside_step(s1)
        } else {
            (s1, Seq::empty())
        };
        if s2.in_thinking_block {
            (s2, e1 + e2)
        } else {
            let (s3, e3) = after_step(s2);
            (s3, e1 + e2 + e3)
        }
    }
}

/// Text that has passed the filter.
pub open spec fn filtered_step(s: StreamV, text: Seq<char>) -> Step {
    if text.len() == 0 {
        (s, Seq::empty())
    } else {
        let s0 = StreamV { output_tokens: capped(s.output_tokens + capped(estimate(text))), ..s };
        if s0.thinking_enabled {
            content_step(s0, text)
        } else {
            text_step(s0, text)
        }
    }
}

/// A piece of the answer.
pub open spec fn assistant_step(s: StreamV, content: Seq<char>) -> Step {
    let (text, filter) = scan(s.filter.buffer + content, s.filter.stripping);
    filtered_step(StreamV { filter, ..s }, text)
}

/// A whole tool call.
pub open spec fn call_step(s: StreamV, call: CompletedV) -> Step {
    let known = s.tool_block_indices.contains_key(call.id);
    let index = if known {
        s.tool_block_indices[call.id]
    } else {
        s.state.next_block_index
    };
    let s1 = if known {
        s
    } else {
        StreamV {
            state: StateV { next_block_index: index + 1, ..s.state },
            tool_block_indices: s.tool_block_indices.insert(call.id, index),
            ..s
        }
    };
    let (state2, e2) = block_start_step(
        s1.state,
        index,
        "tool_use"@,
        block_start_json(index, tool_use_json(call.id, call.name, empty_object())),
    );
    let partial = printed(call.input);
    let delta = block_delta_step(
        state2,
        index,
        block_delta_json(index, part_json("input_json_delta"@, "partial_json"@, partial)),
    );
    let (state3, stop) = block_stop_step(state2, index);
    (
        StreamV {
            state: state3,
            output_tokens: capped(s1.output_tokens + capped(estimate(partial))),
            ..s1
        },
        e2 + opt_events(delta) + opt_events(stop),
    )
}

/// Whole tool calls, one after the other.
pub open spec fn calls_step(s: StreamV, calls: Seq<CompletedV>) -> Step
    decreases calls.len(),
{
    if calls.len() == 0 {
        (s, Seq::empty())
    } else {
        let (s1, e1) = calls_step(s, calls.drop_last());
        let (s2, e2) = call_step(s1, calls.last());
        (s2, e1 + e2)
    }
}

/// A tool call that cannot be used.
pub open spec fn failed_call(s: StreamV, e: ToolErrorV) -> StreamV {
    StreamV {
        tool_json_error: Some(e),
        state: StateV { stop_reason: Some("error"@), ..s.state },
        ..s
    }
}

/// Thinking that ends where the buffer ends, white space aside.
pub open spec fn close_at_end(s: StreamV) -> Step {
    match first_last_close(s.thinking_buffer, 0) {
        Some(end) => {
            let (s1, e1) = leave_thinking(s, end);
            (StreamV { thinking_buffer: Seq::empty(), ..s1 }, e1)
        },
        None => (s, Seq::empty()),
    }
}

/// What goes out before a tool call: the end of thinking, or text that was held back.
pub open spec fn before_call(s: StreamV) -> Step {
    let (s1, e1) = if s.thinking_enabled && s.in_thinking_block {
        close_at_end(s)
    } else {
        (s, Seq::empty())
    };
    if s1.thinking_enabled && !s1.in_thinking_block && !s1.thinking_extracted
        && s1.thinking_buffer.len() > 0 {
        let (s2, e2) = text_step(
            StreamV { thinking_buffer: Seq::empty(), ..s1 },
            s1.thinking_buffer,
        );
        (s2, e1 + e2)
    } else {
        (s1, e1)
    }
}

/// A piece of a tool call.
pub open spec fn tool_step(s: StreamV, t: ToolUseV) -> Step {
    let (s1, e1) = before_call(
        StreamV { state: StateV { has_tool_use: true, ..s.state }, ..s },
    );
    let (pending, outcome) = push_step(s1.pending, t, s1.tool_name_map);
    let s2 = StreamV { pending, ..s1 };
    match outcome {
        PushV::Waiting => (s2, e1),
        PushV::Failed(e) => (failed_call(s2, e), e1),
        PushV::Done(call) => {
            let (s3, e3) = call_step(s2, call);
            (s3, e1 + e3)
        },
    }
}

/// Reasoning that the upstream holds back: a block of its own, passed on as it is.
pub open spec fn redacted_step(s: StreamV, redacted: Seq<char>) -> Step {
    let (s1, e1) = close_reasoning(s);
    let (s2, e2) = close_text(s1);
    let index = s2.state.next_block_index;
    let (s3, e3) = open_block(
        s2,
        "redacted_thinking"@,
        part_json("redacted_thinking"@, "data"@, redacted),
    );
    let (state4, stop) = block_stop_step(s3.state, index);
    (
        StreamV { state: state4, thinking_extracted: true, ..s3 },
        e1 + e2 + e3 + opt_events(stop),
    )
}

/// Makes sure that a block for disclosed reasoning is open.
pub open spec fn reasoning_block_step(s: StreamV) -> Step {
    if s.reasoning_block_open {
        (s, Seq::empty())
    } else {
        let (s1, e1) = close_text(s);
        let reuse = match s1.thinking_block_index {
            Some(index) => open_of_kind(s1.state, index, "thinking"@),
            None => false,
        };
        let s2 = StreamV {
            reasoning_block_open: true,
            in_thinking_block: false,
            thinking_extracted: true,
            ..s1
        };
        if reuse {
            (s2, e1)
        } else {
            let (s3, e3) = open_block(
                StreamV { thinking_block_index: Some(s2.state.next_block_index), ..s2 },
                "thinking"@,
                part_json("thinking"@, "thinking"@, ""@),
            );
            (s3, e1 + e3)
        }
    }
}

/// Disclosed reasoning.
pub open spec fn disclosed_step(s: StreamV, text: Seq<char>) -> Step {
    let (s1, e1) = reasoning_block_step(s);
    if text.len() == 0 {
        (s1, e1)
    } else {
        (
            StreamV {
                output_tokens: capped(s1.output_tokens + capped(estimate(text))),
                ..s1
            },
            e1 + thinking_events(s1, text),
        )
    }
}

/// A piece of reasoning; a client that did not ask for thinking sees none of it.
pub open spec fn reasoning_step(s: StreamV, r: ReasoningV) -> Step {
    if !s.thinking_enabled {
        (s, Seq::empty())
    } else {
        match r.redacted {
            Some(redacted) => if redacted.len() > 0 {
                redacted_step(s, redacted)
            } else {
                disclosed_step(s, r.text)
            },
            None => disclosed_step(s, r.text),
        }
    }
}

/// Sets the reason for the end of the message.
pub open spec fn with_stop_reason(s: StreamV, reason: Seq<char>) -> StreamV {
    StreamV { state: StateV { stop_reason: Some(reason), ..s.state }, ..s }
}

/// The start of the stream. Without thinking a text block is open from the start.
pub open spec fn initial_step(s: StreamV) -> Step {
    let (state, start) = message_start_step(s.state, start_payload(s));
    let s1 = StreamV { state, ..s };
    if s1.thinking_enabled {
        (s1, opt_events(start))
    } else {
        let (s2, e2) = new_text_block(s1);
        (s2, opt_events(start) + e2)
    }
}

/// One upstream event.
#[verifier::opaque]
pub open spec fn event_step(s: StreamV, e: EventV) -> Step {
    match e {
        EventV::Content(content) => {
            let (s1, e1) = close_reasoning(s);
            let (s2, e2) = assistant_step(s1, content);
            (s2, e1 + e2)
        },
        EventV::ToolUse(t) => {
            let (s1, e1) = close_reasoning(s);
            let (s2, e2) = tool_step(s1, t);
            (s2, e1 + e2)
        },
        EventV::Reasoning(r) => reasoning_step(s, r),
        EventV::ContextUsage { input_tokens, exhausted } => {
            let s1 = StreamV { context_input_tokens: Some(input_tokens), ..s };
            (
                if exhausted {
                    with_stop_reason(s1, "model_context_window_exceeded"@)
                } else {
                    s1
                },
                Seq::empty(),
            )
        },
        EventV::Exception(kind) => (
            if kind == "ContentLengthExceededException"@ {
                with_stop_reason(s, "max_tokens"@)
            } else {
                s
            },
            Seq::empty(),
        ),
        EventV::Other => (s, Seq::empty()),
    }
}

/// The pending tool calls at the end: those without arguments go out, a call cut short is an
/// error.
pub open spec fn flush_calls(s: StreamV) -> Step {
    if s.tool_json_error is None {
        let (pending, outcome) = finish_step(s.pending, s.tool_name_map);
        let s1 = StreamV { pending, ..s };
        match outcome {
            FinishV::Done(calls) => calls_step(s1, calls),
            FinishV::Failed(e) => (failed_call(s1, e), Seq::empty()),
        }
    } else {
        (s, Seq::empty())
    }
}

/// The text that the filter has held back goes out.
pub open spec fn flush_filter(s: StreamV) -> Step {
    filtered_step(
        StreamV { filter: FilterV { buffer: Seq::empty(), stripping: false }, ..s },
        stripped(s.filter.buffer),
    )
}

/// Thinking or text that is still buffered goes out. A thinking block that is open is closed,
/// whether or not anything is buffered.
pub open spec fn flush_buffer(s: StreamV) -> Step {
    if !s.thinking_enabled {
        (s, Seq::empty())
    } else if s.in_thinking_block {
        match first_last_close(s.thinking_buffer, 0) {
            Some(end) => close_at_end(s),
            None => {
                let (s1, e1) = close_unfinished(s);
                (
                    StreamV { thinking_buffer: Seq::empty(), ..s1 },
                    thinking_events(s, s.thinking_buffer) + e1,
                )
            },
        }
    } else if s.thinking_buffer.len() == 0 {
        (s, Seq::empty())
    } else {
        after_step(s)
    }
}

/// A message of thinking alone is taken to have run out of tokens, and gets a text block.
pub open spec fn fill_text(s: StreamV) -> Step {
    if s.thinking_enabled && s.thinking_block_index is Some && !has_other_than_thinking(s.state) {
        text_step(with_stop_reason(s, "max_tokens"@), " "@)
    } else {
        (s, Seq::empty())
    }
}

/// The end of the message.
pub open spec fn end_message(s: StreamV) -> Step {
    let (state, events) = final_step(s.state, final_usage(s));
    (StreamV { state, ..s }, events)
}

/// The message of the tool call that cannot be used, where there is one.
pub open spec fn error_message(s: StreamV) -> Option<Seq<char>> {
    match s.tool_json_error {
        Some(e) => Some(error_text(e)),
        None => None,
    }
}

/// The end of a stream with a tool call that cannot be used: the client is told of it.
pub open spec fn end_with_error(s: StreamV, e: ToolErrorV) -> Step {
    let (s1, e1) = close_reasoning(s);
    let (s2, e2) = close_unfinished(s1);
    let (s3, e3) = end_message(s2);
    (s3, (e1 + e2 + e3).push(error_event("upstream_tool_json_error"@, error_text(e))))
}

/// The end of a stream in which all went well.
pub open spec fn end_well(s: StreamV) -> Step {
    let (s1, e1) = close_reasoning(s);
    let (s2, e2) = flush_buffer(s1);
    let (s3, e3) = fill_text(s2);
    let (s4, e4) = end_message(s3);
    (s4, e1 + e2 + e3 + e4)
}

/// The end of the stream.
pub open spec fn finish_stream(s: StreamV) -> Step {
    let (s1, e1) = flush_calls(s);
    let (s2, e2) = flush_filter(s1);
    let (s3, e3) = match s2.tool_json_error {
        Some(e) => end_with_error(s2, e),
        None => end_well(s2),
    };
    (s3, e1 + e2 + e3)
}

/// Several upstream events, one after the other.
pub open spec fn events_step(s: StreamV, events: Seq<EventV>) -> Step
    decreases events.len(),
{
    if events.len() == 0 {
        (s, Seq::empty())
    } else {
        let (s1, e1) = events_step(s, events.drop_last());
        let (s2, e2) = event_step(s1, events.last());
        (s2, e1 + e2)
    }
}

/// What a stream is at its end.
pub open spec fn last_state(s: StreamV, events: Seq<EventV>) -> StreamV {
    finish_stream(events_step(initial_step(s).0, events).0).0
}

/// All that a stream sends, from its start over the upstream events to its end.
pub open spec fn transcript(s: StreamV, events: Seq<EventV>) -> Seq<SseEventV> {
    let (s1, e1) = initial_step(s);
    let (s2, e2) = events_step(s1, events);
    let (s3, e3) = finish_stream(s2);
    e1 + e2 + e3
}

} // verus!
