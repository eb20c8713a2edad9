//! What a whole answer holds, whatever the upstream sent for it.

use crate::accounting::Closing;
use crate::delivery_laws::content_of;
use crate::errors::ErrorResponse;
use crate::events::{Event, EventV, ReasoningContentEvent};
use crate::gather::{call_blocks, draft_reply, event_views, gather_all, gather_until_error};
use crate::gather::{nothing_gathered, reply_content, whole_response, GatheredV, ReplyDraft};
use crate::gather::ReplyFailure;
use crate::json::{field, string_field, values, Json, JsonV};
use crate::search_loop::{round_blocks, LoopDraft, RoundOutcome, SearchLoop};
use crate::sse::{message_json, part_json, thinking_json, tool_use_json, usage_json, Usage};
use crate::text::occurs;
use crate::text_map::TextMap;
use crate::thinking::{extracted, open_tag};
use crate::tokens::{divided, lemma_divided, CacheUsage};
use crate::tool_json::{calls, finish_step, outcome_at, push_step, pushed, CompletedV, FinishV};
use crate::tool_json::{PushV, ToolUseEvent, ToolUseV};
use crate::xml_filter::stripped;
use vstd::prelude::*;

verus! {

/// A text block with the given text.
pub open spec fn is_text_block(block: JsonV, text: Seq<char>) -> bool {
    string_field(block, "type"@) == Some("text"@) && string_field(block, "text"@) == Some(text)
}

/// A signed thinking block with the given thinking.
pub open spec fn is_thinking_block(block: JsonV, thinking: Seq<char>) -> bool {
    &&& string_field(block, "type"@) == Some("thinking"@)
    &&& string_field(block, "thinking"@) == Some(thinking)
    &&& string_field(block, "signature"@) == Some("kiro-rs-thinking-signature"@)
}

/// A block of reasoning that the upstream holds back.
pub open spec fn is_redacted_block(block: JsonV, data: Seq<char>) -> bool {
    string_field(block, "type"@) == Some("redacted_thinking"@) && string_field(block, "data"@)
        == Some(data)
}

/// A block with the given tool call.
pub open spec fn is_call_block(block: JsonV, call: CompletedV) -> bool {
    &&& string_field(block, "type"@) == Some("tool_use"@)
    &&& string_field(block, "id"@) == Some(call.id)
    &&& string_field(block, "name"@) == Some(call.name)
    &&& field(block, "input"@) == Some(call.input)
}

/// Blocks that hold these and nothing else, in this order: thinking, reasoning that the upstream
/// holds back and text, each where there is any, and all tool calls in theirs.
pub open spec fn lays_out(
    blocks: Seq<JsonV>,
    thinking: Seq<char>,
    redacted: Seq<char>,
    text: Seq<char>,
    calls: Seq<CompletedV>,
) -> bool {
    let a: int = if thinking.len() > 0 {
        1
    } else {
        0
    };
    let b: int = if redacted.len() > 0 {
        a + 1
    } else {
        a
    };
    let c: int = if text.len() > 0 {
        b + 1
    } else {
        b
    };
    &&& blocks.len() == c + calls.len()
    &&& thinking.len() > 0 ==> is_thinking_block(blocks[0], thinking)
    &&& redacted.len() > 0 ==> is_redacted_block(blocks[a], redacted)
    &&& text.len() > 0 ==> is_text_block(blocks[b], text)
    &&& forall|i: int|
        0 <= i < calls.len() ==> is_call_block(blocks[c + i], #[trigger] calls[i])
}

/// A value where it is shown, and nothing where it is not.
pub open spec fn if_shown(shown: bool, s: Seq<char>) -> Seq<char> {
    if shown {
        s
    } else {
        Seq::empty()
    }
}

/// A message with the given parts; the counts are those of input, output, cache writes and cache
/// reads.
pub open spec fn is_message(
    message: JsonV,
    id: Seq<char>,
    model: Seq<char>,
    content: Seq<JsonV>,
    stop_reason: Seq<char>,
    counts: (int, int, int, int),
) -> bool {
    &&& string_field(message, "type"@) == Some("message"@)
    &&& string_field(message, "role"@) == Some("assistant"@)
    &&& string_field(message, "id"@) == Some(id)
    &&& string_field(message, "model"@) == Some(model)
    &&& field(message, "content"@) == Some(JsonV::Array(content))
    &&& string_field(message, "stop_reason"@) == Some(stop_reason)
    &&& field(message, "stop_sequence"@) == Some(JsonV::Null)
    &&& field(message, "usage"@) matches Some(usage) && tells_counts(usage, counts)
}

/// Counts of input, output, cache writes and cache reads, each under its own name.
pub open spec fn tells_counts(usage: JsonV, counts: (int, int, int, int)) -> bool {
    &&& field(usage, "input_tokens"@) == Some(JsonV::Int(counts.0))
    &&& field(usage, "output_tokens"@) == Some(JsonV::Int(counts.1))
    &&& field(usage, "cache_creation_input_tokens"@) == Some(JsonV::Int(counts.2))
    &&& field(usage, "cache_read_input_tokens"@) == Some(JsonV::Int(counts.3))
}

pub proof fn lemma_message_keys()
    ensures
        forall|
            id: Seq<char>,
            model: Seq<char>,
            content: Seq<JsonV>,
            reason: Seq<char>,
            u: Usage,
        |
            is_message(
                #[trigger] message_json(id, model, content, reason, u),
                id,
                model,
                content,
                reason,
                (
                    u.input_tokens as int,
                    u.output_tokens as int,
                    u.cache_creation_input_tokens as int,
                    u.cache_read_input_tokens as int,
                ),
            ),
        forall|u: Usage|
            tells_counts(
                #[trigger] usage_json(u),
                (
                    u.input_tokens as int,
                    u.output_tokens as int,
                    u.cache_creation_input_tokens as int,
                    u.cache_read_input_tokens as int,
                ),
            ),
{
    reveal_strlit("type");
    reveal_strlit("role");
    reveal_strlit("id");
    reveal_strlit("model");
    reveal_strlit("content");
    reveal_strlit("stop_reason");
    reveal_strlit("stop_sequence");
    reveal_strlit("usage");
    reveal_strlit("input_tokens");
    reveal_strlit("output_tokens");
    reveal_strlit("cache_creation_input_tokens");
    reveal_strlit("cache_read_input_tokens");
    assert("type"@[0] == 't' && "role"@[0] == 'r' && "model"@[0] == 'm' && "usage"@[0] == 'u');
    assert("type"@.len() == 4 && "role"@.len() == 4 && "id"@.len() == 2 && "model"@.len() == 5
        && "content"@.len() == 7 && "stop_reason"@.len() == 11 && "stop_sequence"@.len() == 13
        && "usage"@.len() == 5);
    assert("input_tokens"@.len() == 12 && "output_tokens"@.len() == 13
        && "cache_creation_input_tokens"@.len() == 27 && "cache_read_input_tokens"@.len() == 23);
}

proof fn lemma_block_keys()
    ensures
        forall|text: Seq<char>|
            is_text_block(#[trigger] part_json("text"@, "text"@, text), text),
        forall|data: Seq<char>|
            is_redacted_block(#[trigger] part_json("redacted_thinking"@, "data"@, data), data),
        forall|thinking: Seq<char>|
            is_thinking_block(
                #[trigger] thinking_json(thinking, crate::sse::THINKING_SIGNATURE_PLACEHOLDER@),
                thinking,
            ),
        forall|call: CompletedV|
            is_call_block(#[trigger] tool_use_json(call.id, call.name, call.input), call),
{
    reveal_strlit("type");
    reveal_strlit("text");
    reveal_strlit("data");
    reveal_strlit("thinking");
    reveal_strlit("signature");
    reveal_strlit("id");
    reveal_strlit("name");
    reveal_strlit("input");
    assert("type"@[1] == 'y' && "text"@[1] == 'e' && "data"@[1] == 'a' && "name"@[1] == 'a');
    assert("type"@[0] == 't' && "name"@[0] == 'n');
    assert("thinking"@.len() == 8 && "signature"@.len() == 9 && "id"@.len() == 2 && "input"@.len()
        == 5 && "type"@.len() == 4);
}

pub proof fn lemma_round_blocks(round: RoundOutcome, thinking_enabled: bool)
    ensures
        lays_out(
            round_blocks(round.view(), thinking_enabled),
            if_shown(thinking_enabled, round.reasoning@),
            if_shown(thinking_enabled, round.redacted_reasoning@),
            round.text@,
            calls(round.tool_uses@),
        ),
{
    lemma_block_keys();
    let tools = calls(round.tool_uses@);
    let blocks = call_blocks(tools);
    let all = round_blocks(round.view(), thinking_enabled);
    let c = all.len() - tools.len();
    assert forall|i: int| 0 <= i < tools.len() implies is_call_block(
        all[c + i],
        #[trigger] tools[i],
    ) by {
        assert(blocks[i] == tool_use_json(tools[i].id, tools[i].name, tools[i].input));
        assert(all[c + i] == blocks[i]);
    }
}

/// The content of a round is all that the round brought: what was reasoned where thinking is
/// shown, then the text, then the tool calls in their order; nothing is left out and nothing
/// comes in between.
pub proof fn law_round_is_shown_whole(round: RoundOutcome, thinking_enabled: bool, r: Vec<Json>)
    requires
        call_ensures(RoundOutcome::content, (&round, thinking_enabled), r),
    ensures
        lays_out(
            values(r@),
            if_shown(thinking_enabled, round.reasoning@),
            if_shown(thinking_enabled, round.redacted_reasoning@),
            round.text@,
            calls(round.tool_uses@),
        ),
{
    lemma_round_blocks(round, thinking_enabled);
}

/// A search loop answers with what was shown of its searches and, behind that, with all that its
/// last round brought: its text wherever it has one, whatever tool calls come with it, and the
/// tool calls behind the text.
pub proof fn law_loop_answers_with_its_last_round(
    l: SearchLoop,
    round: RoundOutcome,
    cache_usage: CacheUsage,
    r: LoopDraft,
)
    requires
        call_ensures(SearchLoop::answer, (l, &round, cache_usage), r),
    ensures
        values(r.content@).len() >= l.presentation@.len(),
        values(r.content@).take(l.presentation@.len() as int) == values(l.presentation@),
        lays_out(
            values(r.content@).skip(l.presentation@.len() as int),
            if_shown(l.thinking_enabled, round.reasoning@),
            if_shown(l.thinking_enabled, round.redacted_reasoning@),
            round.text@,
            calls(round.tool_uses@),
        ),
        r.model@ == l.payload.model@,
        r.credential_id == l.credential_id,
{
    lemma_round_blocks(round, l.thinking_enabled);
    let n = l.presentation@.len() as int;
    let all = values(r.content@);
    assert(all.take(n) =~= values(l.presentation@));
    assert(all.skip(n) =~= round_blocks(round.view(), l.thinking_enabled));
}

/// A search loop ends for the reason that the upstream gave; without one, for a tool call that
/// the client has to make, where there is one, or else because the answer is complete. Its input
/// counts are those that the upstream told, or else the estimate, divided as the prompt is.
pub proof fn law_loop_tells_why_it_ends(
    l: SearchLoop,
    round: RoundOutcome,
    cache_usage: CacheUsage,
    r: LoopDraft,
)
    requires
        call_ensures(SearchLoop::answer, (l, &round, cache_usage), r),
    ensures
        round.stop_reason_override matches Some(reason) ==> r.stop_reason@ == reason@,
        round.stop_reason_override is None && round.tool_uses@.len() > 0 ==> r.stop_reason@
            == "tool_use"@,
        round.stop_reason_override is None && round.tool_uses@.len() == 0 ==> r.stop_reason@
            == "end_turn"@,
        divided(
            cache_usage,
            (match l.context_input_tokens {
                Some(n) => n,
                None => l.fallback_input_tokens,
            }) as int,
            r.counts.0 as int,
            r.counts.1 as int,
            r.counts.2 as int,
        ),
{
    let total = match l.context_input_tokens {
        Some(n) => n,
        None => l.fallback_input_tokens,
    };
    lemma_divided(cache_usage, total as int);
}

/// The reasoning that upstream events disclose.
pub open spec fn reasoning_texts(events: Seq<EventV>) -> Seq<char>
    decreases events.len(),
{
    if events.len() == 0 {
        Seq::empty()
    } else {
        reasoning_texts(events.drop_last()) + match events.last() {
            EventV::Reasoning(r) => r.text,
            _ => Seq::empty(),
        }
    }
}

/// The reasoning that upstream events hold back: that of events which disclose none.
pub open spec fn held_back(events: Seq<EventV>) -> Seq<char>
    decreases events.len(),
{
    if events.len() == 0 {
        Seq::empty()
    } else {
        held_back(events.drop_last()) + match events.last() {
            EventV::Reasoning(r) => if r.text.len() == 0 && r.redacted is Some {
                r.redacted->0
            } else {
                Seq::empty()
            },
            _ => Seq::empty(),
        }
    }
}

/// The pieces of tool calls among upstream events.
pub open spec fn pieces(events: Seq<EventV>) -> Seq<ToolUseV>
    decreases events.len(),
{
    if events.len() == 0 {
        Seq::empty()
    } else {
        match events.last() {
            EventV::ToolUse(t) => pieces(events.drop_last()).push(t),
            _ => pieces(events.drop_last()),
        }
    }
}

/// The tool calls that are whole behind the given pieces, in the order in which they became so.
pub open spec fn whole_calls(pieces: Seq<ToolUseV>, names: Map<Seq<char>, String>) -> Seq<
    CompletedV,
>
    decreases pieces.len(),
{
    if pieces.len() == 0 {
        Seq::empty()
    } else {
        let before = pieces.drop_last();
        match push_step(
            pushed(Seq::empty(), before, names),
            pieces.last(),
            names,
        ).1 {
            PushV::Done(call) => whole_calls(before, names).push(call),
            _ => whole_calls(before, names),
        }
    }
}

/// The tool calls of a whole response: those that are whole, and those without arguments that
/// its end completes.
pub open spec fn response_calls(events: Seq<EventV>, names: Map<Seq<char>, String>) -> Seq<
    CompletedV,
> {
    let p = pieces(events);
    whole_calls(p, names) + match finish_step(
        pushed(Seq::empty(), p, names),
        names,
    ).1 {
        FinishV::Done(more) => more,
        FinishV::Failed(_) => Seq::empty(),
    }
}

/// An event that gives a reason for the end of the message.
pub open spec fn ends_early(e: EventV) -> bool {
    match e {
        EventV::ContextUsage { exhausted, .. } => exhausted,
        EventV::Exception(kind) => kind == "ContentLengthExceededException"@,
        _ => false,
    }
}

/// The texts and the tool calls that have been gathered of a response are those of its events.
pub open spec fn gathered_texts(g: GatheredV, events: Seq<EventV>, names: Map<Seq<char>, String>) -> bool {
    &&& g.text == content_of(events)
    &&& g.reasoning == reasoning_texts(events)
    &&& g.redacted == held_back(events)
    &&& g.calls == whole_calls(pieces(events), names)
    &&& g.pending == pushed(Seq::empty(), pieces(events), names)
    &&& g.saw_tool_use == (pieces(events).len() > 0)
}

/// None of the events tells.
pub open spec fn none_tells(events: Seq<EventV>, tells: spec_fn(EventV) -> bool) -> bool {
    forall|i: int| 0 <= i < events.len() ==> !tells(#[trigger] events[i])
}

/// The event at position `i` is the last that tells.
pub open spec fn last_tells(events: Seq<EventV>, tells: spec_fn(EventV) -> bool, i: int) -> bool {
    0 <= i < events.len() && tells(events[i]) && none_tells(events.skip(i + 1), tells)
}

/// `told` is what the last event that tells says.
pub open spec fn from_last<T>(
    told: Option<T>,
    events: Seq<EventV>,
    tells: spec_fn(EventV) -> bool,
    says: spec_fn(EventV) -> T,
) -> bool {
    match told {
        None => none_tells(events, tells),
        Some(x) => exists|i: int| #[trigger] last_tells(events, tells, i) && x == says(events[i]),
    }
}

pub proof fn lemma_from_last<T>(
    told: Option<T>,
    events: Seq<EventV>,
    tells: spec_fn(EventV) -> bool,
    says: spec_fn(EventV) -> T,
    before: Option<T>,
)
    requires
        events.len() > 0,
        from_last(before, events.drop_last(), tells, says),
        told == (if tells(events.last()) {
            Some(says(events.last()))
        } else {
            before
        }),
    ensures
        from_last(told, events, tells, says),
{
    let front = events.drop_last();
    let n = events.len() - 1;
    assert(events[n] == events.last());
    if tells(events[n]) {
        assert(events.skip(n + 1) =~= Seq::empty());
        assert(last_tells(events, tells, n));
    } else if before is None {
        assert forall|i: int| 0 <= i < events.len() implies !tells(#[trigger] events[i]) by {
            if i < n {
                assert(events[i] == front[i]);
            }
        }
    } else {
        let k = choose|k: int| #[trigger]
            last_tells(front, tells, k) && before->0 == says(front[k]);
        let rest = events.skip(k + 1);
        assert forall|i: int| 0 <= i < rest.len() implies !tells(#[trigger] rest[i]) by {
            if i < rest.len() - 1 {
                assert(rest[i] == front.skip(k + 1)[i]);
            }
        }
        assert(last_tells(events, tells, k));
    }
}

/// Whatever the last event that tells is, it is the one that was told of.
pub proof fn lemma_told<T>(
    told: Option<T>,
    events: Seq<EventV>,
    tells: spec_fn(EventV) -> bool,
    says: spec_fn(EventV) -> T,
    i: int,
)
    requires
        from_last(told, events, tells, says),
        0 <= i < events.len(),
        tells(events[i]),
        forall|j: int| i < j < events.len() ==> !tells(#[trigger] events[j]),
    ensures
        told == Some(says(events[i])),
{
    let k = choose|k: int| #[trigger]
        last_tells(events, tells, k) && told->0 == says(events[k]);
    if k < i {
        assert(events.skip(k + 1)[i - k - 1] == events[i]);
    }
    assert(k == i);
}

/// The reason for the end of the message that an event gives.
pub open spec fn stop_word(e: EventV) -> Seq<char> {
    if e is ContextUsage {
        "model_context_window_exceeded"@
    } else {
        "max_tokens"@
    }
}

/// The reason for the end and the input count that have been gathered of a response are the last
/// that its events tell.
spec fn gathered_end(g: GatheredV, events: Seq<EventV>) -> bool {
    &&& from_last(
        g.stop_reason,
        events,
        |e: EventV| ends_early(e),
        |e: EventV| stop_word(e),
    )
    &&& from_last(
        g.context_input_tokens,
        events,
        |e: EventV| e is ContextUsage,
        |e: EventV| e->input_tokens,
    )
}

proof fn lemma_gathered_texts(events: Seq<EventV>, names: Map<Seq<char>, String>)
    requires
        gather_until_error(nothing_gathered(), events, names).error is None,
    ensures
        gathered_texts(gather_until_error(nothing_gathered(), events, names), events, names),
    decreases events.len(),
{
    if events.len() > 0 {
        let front = events.drop_last();
        let last = events.last();
        assert(gather_until_error(nothing_gathered(), front, names).error is None);
        lemma_gathered_texts(front, names);
        let g = gather_until_error(nothing_gathered(), events, names);
        assert(g.text =~= content_of(events));
        assert(g.reasoning =~= reasoning_texts(events));
        assert(g.redacted =~= held_back(events));
        if last is ToolUse {
            assert(pieces(events).drop_last() =~= pieces(front));
        }
    }
}

pub proof fn lemma_gathered_all_texts(events: Seq<EventV>, names: Map<Seq<char>, String>)
    ensures
        gathered_texts(gather_all(nothing_gathered(), events, names), events, names),
    decreases events.len(),
{
    if events.len() > 0 {
        let front = events.drop_last();
        lemma_gathered_all_texts(front, names);
        let g = gather_all(nothing_gathered(), events, names);
        assert(g.text =~= content_of(events));
        assert(g.reasoning =~= reasoning_texts(events));
        assert(g.redacted =~= held_back(events));
        if events.last() is ToolUse {
            assert(pieces(events).drop_last() =~= pieces(front));
        }
    }
}

proof fn lemma_gathered_end(events: Seq<EventV>, names: Map<Seq<char>, String>)
    requires
        gather_until_error(nothing_gathered(), events, names).error is None,
    ensures
        gathered_end(gather_until_error(nothing_gathered(), events, names), events),
    decreases events.len(),
{
    if events.len() > 0 {
        let front = events.drop_last();
        let before = gather_until_error(nothing_gathered(), front, names);
        assert(before.error is None);
        lemma_gathered_end(front, names);
        let g = gather_until_error(nothing_gathered(), events, names);
        lemma_from_last(
            g.stop_reason,
            events,
            |e: EventV| ends_early(e),
            |e: EventV| stop_word(e),
            before.stop_reason,
        );
        lemma_from_last(
            g.context_input_tokens,
            events,
            |e: EventV| e is ContextUsage,
            |e: EventV| e->input_tokens,
            before.context_input_tokens,
        );
    }
}

/// Prose and code are both content of the answer, a piece of a tool call stays one, reasoning
/// stays reasoning, and what the upstream meters or does not explain changes nothing.
pub proof fn law_every_event_is_taken_for_what_it_is(
    content: String,
    tool_use: ToolUseEvent,
    reasoning: ReasoningContentEvent,
    code: String,
    message: String,
)
    ensures
        (Event::AssistantResponse { content }).view() == EventV::Content(content@),
        (Event::Code { content }).view() == EventV::Content(content@),
        Event::ToolUse(tool_use).view() matches EventV::ToolUse(t) && t.name == tool_use.name@
            && t.id == tool_use.tool_use_id@ && t.input == tool_use.input@ && t.stop
            == tool_use.stop,
        Event::ReasoningContent(reasoning).view() matches EventV::Reasoning(r) && r.text
            == reasoning.text@ && (r.redacted is Some <==> reasoning.redacted_content is Some) && (
        reasoning.redacted_content matches Some(held) ==> r.redacted == Some(held@)),
        (Event::Exception { exception_type: code, message }).view() == EventV::Exception(code@),
        (Event::Error { error_code: code, error_message: message }).view() == EventV::Other,
        Event::Metering.view() == EventV::Other,
        Event::Unknown.view() == EventV::Other,
{
}

proof fn lemma_laid_out(
    blocks: Seq<JsonV>,
    head: Seq<JsonV>,
    thinking: Seq<char>,
    redacted: Seq<char>,
    text: Seq<char>,
    calls: Seq<CompletedV>,
)
    requires
        lays_out(head, thinking, redacted, text, Seq::empty()),
        blocks == head + call_blocks(calls),
    ensures
        lays_out(blocks, thinking, redacted, text, calls),
{
    lemma_block_keys();
    let c = head.len() as int;
    assert forall|i: int| 0 <= i < calls.len() implies is_call_block(
        blocks[c + i],
        #[trigger] calls[i],
    ) by {
        assert(call_blocks(calls)[i] == tool_use_json(calls[i].id, calls[i].name, calls[i].input));
        assert(blocks[c + i] == call_blocks(calls)[i]);
    }
}

proof fn lemma_reply(g: GatheredV, shown: bool)
    ensures
        !shown ==> lays_out(
            reply_content(g, shown),
            Seq::empty(),
            Seq::empty(),
            g.text,
            g.calls,
        ),
        shown && g.reasoning.len() > 0 ==> lays_out(
            reply_content(g, shown),
            g.reasoning,
            g.redacted,
            g.text,
            g.calls,
        ),
        shown && g.reasoning.len() == 0 ==> lays_out(
            reply_content(g, shown),
            match extracted(g.text).0 {
                Some(thinking) => thinking,
                None => Seq::empty(),
            },
            g.redacted,
            extracted(g.text).1,
            g.calls,
        ),
{
    lemma_block_keys();
    let (thinking, text) = crate::gather::thinking_and_text(g);
    let head = if shown {
        crate::gather::thinking_blocks(thinking) + crate::gather::redacted_blocks(g.redacted)
            + crate::gather::text_blocks(text)
    } else {
        crate::gather::text_blocks(g.text)
    };
    if shown {
        let t = match thinking {
            Some(thinking) => thinking,
            None => Seq::empty(),
        };
        assert(lays_out(head, t, g.redacted, text, Seq::empty()));
        lemma_laid_out(reply_content(g, shown), head, t, g.redacted, text, g.calls);
    } else {
        lemma_laid_out(
            reply_content(g, shown),
            head,
            Seq::empty(),
            Seq::empty(),
            g.text,
            g.calls,
        );
    }
}

/// A whole answer holds all of the response and nothing else. Where reasoning was disclosed and
/// thinking is shown, its thinking block holds the texts of the reasoning in a row. Its text block
/// holds the content in a row, leaked markup aside, and behind it come the tool calls, in the
/// order in which they became whole. Where thinking is not shown, nothing of the reasoning is
/// there.
///
/// Where thinking is shown and no reasoning was disclosed, thinking is what the content marks as
/// such, if anything.
pub proof fn law_reply_holds_the_response(
    events: Vec<Event>,
    names: TextMap<String>,
    show_thinking: bool,
    input_tokens: i32,
    cache_usage: CacheUsage,
    draft: ReplyDraft,
)
    requires
        call_ensures(
            draft_reply,
            (&events, &names, show_thinking, input_tokens, cache_usage),
            Ok(draft),
        ),
    ensures
        ({
            let all = event_views(events@);
            let blocks = values(draft.content@);
            let text = stripped(content_of(all));
            let reasoning = reasoning_texts(all);
            let tools = response_calls(all, names.view());
            &&& !show_thinking ==> lays_out(blocks, Seq::empty(), Seq::empty(), text, tools)
            &&& show_thinking && reasoning.len() > 0 ==> lays_out(
                blocks,
                reasoning,
                held_back(all),
                text,
                tools,
            )
            &&& show_thinking && reasoning.len() == 0 && !occurs(text, "<thinking>"@) ==> lays_out(
                blocks,
                Seq::empty(),
                held_back(all),
                text,
                tools,
            )
            &&& show_thinking && reasoning.len() == 0 ==> lays_out(
                blocks,
                match extracted(text).0 {
                    Some(thinking) => thinking,
                    None => Seq::empty(),
                },
                held_back(all),
                extracted(text).1,
                tools,
            )
        }),
{
    let all = event_views(events@);
    let before = gather_until_error(nothing_gathered(), all, names.view());
    let g = whole_response(all, names.view());
    assert(before.error is None);
    lemma_gathered_texts(all, names.view());
    lemma_reply(g, show_thinking);
    assert(g.calls =~= response_calls(all, names.view()));
    let text = stripped(content_of(all));
    if !occurs(text, "<thinking>"@) {
        lemma_tag_word();
        lemma_no_tag(text);
    }
}

proof fn lemma_tag_word()
    ensures
        open_tag() == "<thinking>"@,
{
    reveal_strlit("<thinking>");
    assert(open_tag() =~= "<thinking>"@);
}

proof fn lemma_no_tag(text: Seq<char>)
    requires
        !occurs(text, open_tag()),
    ensures
        extracted(text) == (None::<Seq<char>>, text),
{
    crate::thinking::lemma_first_real(text, open_tag(), 0);
}

/// A whole answer ends for the last reason that the upstream gave: a context window that is used
/// up, or an answer that is too long. Without one it ends for a tool call, where the upstream made
/// one, or else because it is complete. Its input counts are the last count that the upstream
/// told, or else the estimate, divided as the prompt is.
pub proof fn law_reply_tells_why_it_ends(
    events: Vec<Event>,
    names: TextMap<String>,
    show_thinking: bool,
    input_tokens: i32,
    cache_usage: CacheUsage,
    draft: ReplyDraft,
)
    requires
        call_ensures(
            draft_reply,
            (&events, &names, show_thinking, input_tokens, cache_usage),
            Ok(draft),
        ),
    ensures
        ({
            let all = event_views(events@);
            let sum = draft.counts.0 + draft.counts.1 + draft.counts.2;
            &&& forall|i: int|
                0 <= i < all.len() && ends_early(#[trigger] all[i]) && (forall|j: int|
                    i < j < all.len() ==> !ends_early(#[trigger] all[j])) ==> draft.stop_reason@ == (
                if all[i] is ContextUsage {
                    "model_context_window_exceeded"@
                } else {
                    "max_tokens"@
                })
            &&& (forall|i: int| 0 <= i < all.len() ==> !ends_early(#[trigger] all[i])) ==> (
            draft.stop_reason@ == if pieces(all).len() > 0 {
                "tool_use"@
            } else {
                "end_turn"@
            })
            &&& forall|i: int|
                0 <= i < all.len() && #[trigger] all[i] is ContextUsage && (forall|j: int|
                    i < j < all.len() ==> !(#[trigger] all[j] is ContextUsage)) ==> sum
                    == all[i]->input_tokens
            &&& (forall|i: int| 0 <= i < all.len() ==> !(#[trigger] all[i] is ContextUsage))
                ==> sum == input_tokens
            &&& divided(
                cache_usage,
                sum,
                draft.counts.0 as int,
                draft.counts.1 as int,
                draft.counts.2 as int,
            )
        }),
{
    let all = event_views(events@);
    let before = gather_until_error(nothing_gathered(), all, names.view());
    assert(before.error is None);
    lemma_gathered_texts(all, names.view());
    lemma_gathered_end(all, names.view());
    lemma_divided(
        cache_usage,
        crate::gather::usage_input(input_tokens as int, before.context_input_tokens),
    );
    let usage = |e: EventV| e is ContextUsage;
    let early = |e: EventV| ends_early(e);
    let tokens = |e: EventV| e->input_tokens;
    let word = |e: EventV| stop_word(e);
    assert forall|i: int|
        0 <= i < all.len() && #[trigger] all[i] is ContextUsage && (forall|j: int|
            i < j < all.len() ==> !(
            #[trigger] all[j] is ContextUsage)) implies before.context_input_tokens == Some(
        all[i]->input_tokens,
    ) by {
        lemma_told(before.context_input_tokens, all, usage, tokens, i);
    }
    assert forall|i: int|
        0 <= i < all.len() && ends_early(#[trigger] all[i]) && (forall|j: int|
            i < j < all.len() ==> !ends_early(#[trigger] all[j])) implies before.stop_reason == Some(
        stop_word(all[i]),
    ) by {
        lemma_told(before.stop_reason, all, early, word, i);
    }
    if before.stop_reason is Some {
        let k = choose|k: int| #[trigger]
            last_tells(all, early, k) && before.stop_reason->0 == word(all[k]);
        assert(ends_early(all[k]));
    }
    if before.context_input_tokens is Some {
        let k = choose|k: int| #[trigger]
            last_tells(all, usage, k) && before.context_input_tokens->0 == tokens(all[k]);
        assert(all[k] is ContextUsage);
    }
}

/// The message of a whole answer carries the id, the model, the content and the reason that were
/// given, and each count under its own name.
pub proof fn law_message_carries_the_answer(
    draft: ReplyDraft,
    id: &str,
    model: &str,
    output_tokens: i32,
    r: Json,
)
    requires
        call_ensures(ReplyDraft::into_body, (draft, id, model, output_tokens), r),
    ensures
        is_message(
            r.view(),
            id@,
            model@,
            values(draft.content@),
            draft.stop_reason@,
            (draft.counts.0 as int, output_tokens as int, draft.counts.1 as int, draft.counts.2 as int),
        ),
{
    lemma_message_keys();
}

/// A tool call among these pieces cannot be used: its last piece has come, and its arguments are
/// no JSON.
pub open spec fn any_failed(pieces: Seq<ToolUseV>, names: Map<Seq<char>, String>) -> bool {
    exists|k: int|
        0 <= k < pieces.len() && #[trigger] outcome_at(Seq::empty(), pieces, k, names) is Failed
}

proof fn lemma_failed_push(pieces: Seq<ToolUseV>, names: Map<Seq<char>, String>)
    requires
        pieces.len() > 0,
    ensures
        any_failed(pieces, names) <==> any_failed(pieces.drop_last(), names) || push_step(
            pushed(Seq::empty(), pieces.drop_last(), names),
            pieces.last(),
            names,
        ).1 is Failed,
{
    let front = pieces.drop_last();
    let n = pieces.len() - 1;
    assert(pieces.take(n) =~= front);
    assert forall|k: int| 0 <= k < n implies #[trigger] outcome_at(Seq::empty(), pieces, k, names)
        == outcome_at(Seq::empty(), front, k, names) by {
        assert(pieces.take(k) =~= front.take(k));
    }
    if any_failed(front, names) {
        let k = choose|k: int|
            0 <= k < front.len() && #[trigger] outcome_at(
                Seq::empty(),
                front,
                k,
                names,
            ) is Failed;
        assert(outcome_at(Seq::empty(), pieces, k, names) is Failed);
    }
    if any_failed(pieces, names) {
        let k = choose|k: int|
            0 <= k < pieces.len() && #[trigger] outcome_at(
                Seq::empty(),
                pieces,
                k,
                names,
            ) is Failed;
        if k < n {
            assert(outcome_at(Seq::empty(), front, k, names) is Failed);
        }
    }
    assert(outcome_at(Seq::empty(), pieces, n, names) == push_step(
        pushed(Seq::empty(), front, names),
        pieces.last(),
        names,
    ).1);
}

pub proof fn lemma_gathered_all_error(events: Seq<EventV>, names: Map<Seq<char>, String>)
    ensures
        gather_all(nothing_gathered(), events, names).error is Some <==> any_failed(
            pieces(events),
            names,
        ),
    decreases events.len(),
{
    if events.len() > 0 {
        let front = events.drop_last();
        lemma_gathered_all_error(front, names);
        lemma_gathered_all_texts(front, names);
        if events.last() is ToolUse {
            assert(pieces(events).drop_last() =~= pieces(front));
            lemma_failed_push(pieces(events), names);
        }
    }
}

proof fn lemma_gathered_error(events: Seq<EventV>, names: Map<Seq<char>, String>)
    ensures
        gather_until_error(nothing_gathered(), events, names).error is Some <==> any_failed(
            pieces(events),
            names,
        ),
    decreases events.len(),
{
    if events.len() > 0 {
        let front = events.drop_last();
        lemma_gathered_error(front, names);
        if events.last() is ToolUse {
            assert(pieces(events).drop_last() =~= pieces(front));
            lemma_failed_push(pieces(events), names);
        }
        if gather_until_error(nothing_gathered(), front, names).error is None {
            lemma_gathered_texts(front, names);
        }
    }
}

/// A whole answer is given if and only if every tool call of the response can be used: none whose
/// arguments are no JSON, and none that was cut short. Else the client is told that the upstream
/// failed.
pub proof fn law_reply_needs_usable_calls(
    events: Vec<Event>,
    names: TextMap<String>,
    show_thinking: bool,
    input_tokens: i32,
    cache_usage: CacheUsage,
    r: Result<ReplyDraft, ReplyFailure>,
)
    requires
        call_ensures(
            draft_reply,
            (&events, &names, show_thinking, input_tokens, cache_usage),
            r,
        ),
    ensures
        r is Ok <==> !any_failed(pieces(event_views(events@)), names.view()) && finish_step(
            pushed(Seq::empty(), pieces(event_views(events@)), names.view()),
            names.view(),
        ).1 is Done,
        r matches Err(failure) ==> failure.error_type@ == "upstream_tool_json_error"@,
{
    let all = event_views(events@);
    lemma_gathered_error(all, names.view());
    let before = gather_until_error(nothing_gathered(), all, names.view());
    if before.error is None {
        lemma_gathered_texts(all, names.view());
    }
}

/// A response that cannot be answered is told to the client as a bad gateway, in the words of the
/// failure, and recorded as an error with the input counts alone; an answer is recorded as a
/// success with its own counts, each under its own name.
pub proof fn law_replies_are_recorded(
    failure: ReplyFailure,
    response: ErrorResponse,
    refused: Closing,
    draft: ReplyDraft,
    output_tokens: i32,
    answered: Closing,
)
    requires
        call_ensures(ReplyFailure::response, (&failure,), response),
        call_ensures(ReplyFailure::closing, (&failure,), refused),
        call_ensures(ReplyDraft::closing, (&draft, output_tokens), answered),
    ensures
        response.status == 502,
        response.error_type@ == failure.error_type@,
        response.message@ == failure.message@,
        refused.status@ == "error"@,
        refused.error_message matches Some(m) && m@ == failure.message@,
        refused.counts == (failure.counts.0, 0i32, failure.counts.1, failure.counts.2),
        answered.status@ == "success"@,
        answered.error_message is None,
        answered.counts == (draft.counts.0, output_tokens, draft.counts.1, draft.counts.2),
{
}

} // verus!
