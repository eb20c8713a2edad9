//! Gathers a whole upstream response before anything is answered.

use crate::accounting::{bad_call, success, Closing};
use crate::errors::{ErrorResponse, ErrorV};
use crate::events::{Event, EventV};
use crate::json::{values, Json, JsonV};
use crate::sse;
use crate::sse::{message_json, part_json, thinking_json, tool_use_json, Usage};
use crate::sse::THINKING_SIGNATURE_PLACEHOLDER;
use crate::state::opt_text;
use crate::stream::{opt_error, opt_int};
use crate::text;
use crate::text_map::TextMap;
use crate::thinking::{extract_thinking_from_complete_text, extracted};
use crate::tokens::{split, CacheUsage};
use crate::tool_json::{calls, error_text, finish_step, push_step, CompletedToolUse, CompletedV};
use crate::tool_json::{FinishV, PendingV, PushV, ToolErrorV, ToolJsonAccumulator};
use crate::tool_json::{ToolJsonAccumulatorError};
use crate::xml_filter::{strip_tool_use_xml_leaks, stripped};
use vstd::prelude::*;

verus! {

/// What has been gathered of a response.
pub struct GatheredV {
    pub text: Seq<char>,
    pub reasoning: Seq<char>,
    pub redacted: Seq<char>,
    pub calls: Seq<CompletedV>,
    pub pending: Seq<PendingV>,
    pub saw_tool_use: bool,
    pub context_input_tokens: Option<int>,
    /// The reason for the end of the message, where the upstream gave one.
    pub stop_reason: Option<Seq<char>>,
    /// The last tool call that could not be used.
    pub error: Option<ToolErrorV>,
}

/// Nothing has been gathered.
pub open spec fn nothing_gathered() -> GatheredV {
    GatheredV {
        text: Seq::empty(),
        reasoning: Seq::empty(),
        redacted: Seq::empty(),
        calls: Seq::empty(),
        pending: Seq::empty(),
        saw_tool_use: false,
        context_input_tokens: None,
        stop_reason: None,
        error: None,
    }
}

/// Gathering one more event.
pub open spec fn gather_step(
    g: GatheredV,
    e: EventV,
    names: Map<Seq<char>, String>,
) -> GatheredV {
    match e {
        EventV::Content(content) => GatheredV { text: g.text + content, ..g },
        EventV::Reasoning(r) => if r.text.len() > 0 {
            GatheredV { reasoning: g.reasoning + r.text, ..g }
        } else {
            match r.redacted {
                Some(redacted) => GatheredV { redacted: g.redacted + redacted, ..g },
                None => g,
            }
        },
        EventV::ToolUse(t) => {
            let (pending, outcome) = push_step(g.pending, t, names);
            let g1 = GatheredV { pending, saw_tool_use: true, ..g };
            match outcome {
                PushV::Waiting => g1,
                PushV::Done(call) => GatheredV { calls: g1.calls.push(call), ..g1 },
                PushV::Failed(error) => GatheredV { error: Some(error), ..g1 },
            }
        },
        EventV::ContextUsage { input_tokens, exhausted } => GatheredV {
            context_input_tokens: Some(input_tokens),
            stop_reason: if exhausted {
                Some("model_context_window_exceeded"@)
            } else {
                g.stop_reason
            },
            ..g
        },
        EventV::Exception(kind) => if kind == "ContentLengthExceededException"@ {
            GatheredV { stop_reason: Some("max_tokens"@), ..g }
        } else {
            g
        },
        EventV::Other => g,
    }
}

/// Gathering events one after the other.
pub open spec fn gather_all(
    g: GatheredV,
    events: Seq<EventV>,
    names: Map<Seq<char>, String>,
) -> GatheredV
    decreases events.len(),
{
    if events.len() == 0 {
        g
    } else {
        gather_step(gather_all(g, events.drop_last(), names), events.last(), names)
    }
}

/// Gathering events one after the other, up to the first tool call that cannot be used.
pub open spec fn gather_until_error(
    g: GatheredV,
    events: Seq<EventV>,
    names: Map<Seq<char>, String>,
) -> GatheredV
    decreases events.len(),
{
    if events.len() == 0 {
        g
    } else {
        let before = gather_until_error(g, events.drop_last(), names);
        if before.error is Some {
            before
        } else {
            gather_step(before, events.last(), names)
        }
    }
}

/// The end of the response: leaked markup is dropped, and the pending tool calls are settled.
pub open spec fn gather_end(g: GatheredV, names: Map<Seq<char>, String>) -> GatheredV {
    let g1 = GatheredV { text: stripped(g.text), ..g };
    if g1.error is Some {
        g1
    } else {
        let (pending, outcome) = finish_step(g1.pending, names);
        let g2 = GatheredV { pending, ..g1 };
        match outcome {
            FinishV::Done(more) => GatheredV { calls: g2.calls + more, ..g2 },
            FinishV::Failed(error) => GatheredV { error: Some(error), ..g2 },
        }
    }
}

/// A text block, where there is text.
pub open spec fn text_blocks(text: Seq<char>) -> Seq<JsonV> {
    if text.len() == 0 {
        Seq::empty()
    } else {
        seq![part_json("text"@, "text"@, text)]
    }
}

/// A thinking block, where there is thinking.
pub open spec fn thinking_blocks(thinking: Option<Seq<char>>) -> Seq<JsonV> {
    match thinking {
        Some(thinking) => seq![thinking_json(thinking, THINKING_SIGNATURE_PLACEHOLDER@)],
        None => Seq::empty(),
    }
}

/// A block of reasoning that the upstream holds back, where there is some.
pub open spec fn redacted_blocks(redacted: Seq<char>) -> Seq<JsonV> {
    if redacted.len() == 0 {
        Seq::empty()
    } else {
        seq![part_json("redacted_thinking"@, "data"@, redacted)]
    }
}

/// Blocks of tool calls.
pub open spec fn call_blocks(calls: Seq<CompletedV>) -> Seq<JsonV> {
    calls.map_values(|c: CompletedV| tool_use_json(c.id, c.name, c.input))
}

/// A text that may be there but not empty.
pub open spec fn unless_empty(s: Seq<char>) -> Option<Seq<char>> {
    if s.len() == 0 {
        None
    } else {
        Some(s)
    }
}

/// The thinking of a response, and its text without it: disclosed reasoning, or else what the
/// text marks as thinking.
pub open spec fn thinking_and_text(g: GatheredV) -> (Option<Seq<char>>, Seq<char>) {
    if g.reasoning.len() > 0 {
        (Some(g.reasoning), g.text)
    } else {
        extracted(g.text)
    }
}

/// The content of the answer to a client that takes the message as a whole.
pub open spec fn reply_content(g: GatheredV, thinking_enabled: bool) -> Seq<JsonV> {
    (if thinking_enabled {
        let (thinking, text) = thinking_and_text(g);
        thinking_blocks(thinking) + redacted_blocks(g.redacted) + text_blocks(text)
    } else {
        text_blocks(g.text)
    }) + call_blocks(g.calls)
}

/// The reason for the end of the message.
pub open spec fn reply_stop_reason(g: GatheredV) -> Seq<char> {
    match g.stop_reason {
        Some(reason) => reason,
        None => if g.saw_tool_use {
            "tool_use"@
        } else {
            "end_turn"@
        },
    }
}

/// The input count to report: the one that the upstream told, or else the estimate.
pub open spec fn usage_input(fallback: int, told: Option<int>) -> int {
    match told {
        Some(n) => n,
        None => fallback,
    }
}

/// The input count to report.
pub fn resolve_usage_input_tokens(
    fallback_total_input_tokens: i32,
    context_total_input_tokens: Option<i32>,
) -> (r: i32)
    ensures
        r == usage_input(
            fallback_total_input_tokens as int,
            opt_int(context_total_input_tokens),
        ),
{
    match context_total_input_tokens {
        Some(n) => n,
        None => fallback_total_input_tokens,
    }
}

/// Gathers a whole upstream response.
pub struct Gatherer {
    pub text: String,
    pub reasoning: String,
    pub redacted_reasoning: String,
    pub tool_uses: Vec<CompletedToolUse>,
    pub tool_accumulator: ToolJsonAccumulator,
    pub saw_tool_use: bool,
    pub context_input_tokens: Option<i32>,
    pub stop_reason: Option<String>,
    pub tool_json_error: Option<ToolJsonAccumulatorError>,
}

impl Gatherer {
    pub open spec fn view(&self) -> GatheredV {
        GatheredV {
            text: self.text@,
            reasoning: self.reasoning@,
            redacted: self.redacted_reasoning@,
            calls: calls(self.tool_uses@),
            pending: self.tool_accumulator.view(),
            saw_tool_use: self.saw_tool_use,
            context_input_tokens: opt_int(self.context_input_tokens),
            stop_reason: opt_text(self.stop_reason),
            error: opt_error(self.tool_json_error),
        }
    }

    pub fn new() -> (r: Gatherer)
        ensures
            r.view() == nothing_gathered(),
    {
        let tool_uses: Vec<CompletedToolUse> = Vec::new();
        assert(calls(tool_uses@) =~= Seq::empty());
        Gatherer {
            text: String::new(),
            reasoning: String::new(),
            redacted_reasoning: String::new(),
            tool_uses,
            tool_accumulator: ToolJsonAccumulator::new(),
            saw_tool_use: false,
            context_input_tokens: None,
            stop_reason: None,
            tool_json_error: None,
        }
    }

    /// Takes in one event.
    pub fn take(&mut self, event: &Event, tool_name_map: &TextMap<String>)
        ensures
            final(self).view() == gather_step(
                old(self).view(),
                event.view(),
                tool_name_map.view(),
            ),
    {
        match event {
            Event::AssistantResponse { content } => {
                self.text.append(content.as_str());
            },
            Event::Code { content } => {
                self.text.append(content.as_str());
            },
            Event::ReasoningContent(reasoning) => {
                if !reasoning.text.as_str().is_empty() {
                    self.reasoning.append(reasoning.text.as_str());
                } else if let Some(redacted) = &reasoning.redacted_content {
                    self.redacted_reasoning.append(redacted.as_str());
                }
            },
            Event::ToolUse(tool_use) => {
                self.saw_tool_use = true;
                match self.tool_accumulator.push(tool_use, tool_name_map) {
                    Ok(Some(call)) => {
                        self.tool_uses.push(call);
                        assert(calls(self.tool_uses@) =~= calls(old(self).tool_uses@).push(
                            call.view(),
                        ));
                    },
                    Ok(None) => {},
                    Err(e) => {
                        self.tool_json_error = Some(e);
                    },
                }
            },
            Event::ContextUsage { input_tokens, exhausted } => {
                self.context_input_tokens = Some(*input_tokens);
                if *exhausted {
                    self.stop_reason = Some("model_context_window_exceeded".to_owned());
                }
            },
            Event::Exception { exception_type, .. } => {
                if text::same(exception_type.as_str(), "ContentLengthExceededException") {
                    self.stop_reason = Some("max_tokens".to_owned());
                }
            },
            _ => {},
        }
    }

    /// Takes in events one after the other.
    pub fn take_all(&mut self, events: &Vec<Event>, tool_name_map: &TextMap<String>)
        ensures
            final(self).view() == gather_all(
                old(self).view(),
                event_views(events@),
                tool_name_map.view(),
            ),
    {
        let ghost all = event_views(events@);
        let mut i: usize = 0;
        assert(all.take(0) =~= Seq::empty());
        while i < events.len()
            invariant
                i <= events.len(),
                all == event_views(events@),
                self.view() == gather_all(
                    old(self).view(),
                    all.take(i as int),
                    tool_name_map.view(),
                ),
            decreases events.len() - i,
        {
            proof {
                assert(all.take(i + 1).drop_last() =~= all.take(i as int));
                assert(all.take(i + 1).last() == events@[i as int].view());
            }
            self.take(&events[i], tool_name_map);
            i += 1;
        }
        assert(all.take(events.len() as int) =~= all);
    }

    /// Takes in events one after the other, up to the first tool call that cannot be used.
    pub fn take_until_error(&mut self, events: &Vec<Event>, tool_name_map: &TextMap<String>)
        ensures
            final(self).view() == gather_until_error(
                old(self).view(),
                event_views(events@),
                tool_name_map.view(),
            ),
    {
        let ghost all = event_views(events@);
        let ghost names = tool_name_map.view();
        let mut i: usize = 0;
        assert(all.take(0) =~= Seq::empty());
        while i < events.len()
            invariant
                i <= events.len(),
                all == event_views(events@),
                names == tool_name_map.view(),
                self.view() == gather_until_error(old(self).view(), all.take(i as int), names),
            decreases events.len() - i,
        {
            proof {
                assert(all.take(i + 1).drop_last() =~= all.take(i as int));
                assert(all.take(i + 1).last() == events@[i as int].view());
            }
            if self.tool_json_error.is_none() {
                self.take(&events[i], tool_name_map);
            }
            i += 1;
        }
        assert(all.take(events.len() as int) =~= all);
    }

    /// Ends the response.
    pub fn finish(&mut self, tool_name_map: &TextMap<String>)
        ensures
            final(self).view() == gather_end(old(self).view(), tool_name_map.view()),
    {
        self.text = strip_tool_use_xml_leaks(self.text.as_str());
        if self.tool_json_error.is_some() {
            return;
        }
        match self.tool_accumulator.finish(tool_name_map) {
            Ok(more) => {
                let ghost before = self.tool_uses@;
                let mut more = more;
                let ghost added = more@;
                self.tool_uses.append(&mut more);
                assert(calls(self.tool_uses@) =~= calls(before) + calls(added));
            },
            Err(e) => {
                self.tool_json_error = Some(e);
            },
        }
    }

    /// The reason for the end of the message.
    pub fn stop_reason_or_default(&self) -> (r: String)
        ensures
            r@ == reply_stop_reason(self.view()),
    {
        match &self.stop_reason {
            Some(reason) => reason.clone(),
            None => if self.saw_tool_use {
                "tool_use".to_owned()
            } else {
                "end_turn".to_owned()
            },
        }
    }

    /// The content of the answer to a client that takes the message as a whole.
    pub fn content(&self, thinking_enabled: bool) -> (r: Vec<Json>)
        ensures
            values(r@) == reply_content(self.view(), thinking_enabled),
    {
        let mut content: Vec<Json> = Vec::new();
        assert(values(content@) =~= Seq::empty());
        if thinking_enabled {
            let (thinking, rest) = if !self.reasoning.as_str().is_empty() {
                (Some(self.reasoning.clone()), self.text.clone())
            } else {
                extract_thinking_from_complete_text(self.text.as_str())
            };
            push_thinking(&mut content, &thinking);
            push_redacted(&mut content, self.redacted_reasoning.as_str());
            push_text(&mut content, rest.as_str());
            assert(opt_text(thinking) == thinking_and_text(self.view()).0);
        } else {
            push_text(&mut content, self.text.as_str());
        }
        push_calls(&mut content, &self.tool_uses);
        assert(values(content@) =~= reply_content(self.view(), thinking_enabled));
        content
    }
}

/// The events of a list.
pub open spec fn event_views(events: Seq<Event>) -> Seq<EventV> {
    events.map_values(|e: Event| e.view())
}

/// Appends the blocks of tool calls.
pub fn push_calls(content: &mut Vec<Json>, tool_uses: &Vec<CompletedToolUse>)
    ensures
        values(final(content)@) == values(old(content)@) + call_blocks(calls(tool_uses@)),
{
    let ghost blocks = call_blocks(calls(tool_uses@));
    let mut i: usize = 0;
    assert(values(content@) =~= values(content@) + blocks.take(0));
    while i < tool_uses.len()
        invariant
            i <= tool_uses.len(),
            blocks == call_blocks(calls(tool_uses@)),
            blocks.len() == tool_uses.len(),
            values(content@) == values(old(content)@) + blocks.take(i as int),
        decreases tool_uses.len() - i,
    {
        let block = sse::tool_use_block(
            tool_uses[i].id.as_str(),
            tool_uses[i].name.as_str(),
            tool_uses[i].input.copy(),
        );
        proof {
            assert(calls(tool_uses@)[i as int] == tool_uses@[i as int].view());
            assert(blocks.take(i + 1) =~= blocks.take(i as int).push(block.view()));
            crate::json::lemma_values_push(content@, block);
            assert((values(old(content)@) + blocks.take(i as int)).push(block.view()) =~= values(
                old(content)@,
            ) + blocks.take(i + 1));
        }
        content.push(block);
        i += 1;
    }
    assert(blocks.take(tool_uses.len() as int) =~= blocks);
}

/// Appends a text block, where there is text.
pub fn push_text(content: &mut Vec<Json>, text: &str)
    ensures
        values(final(content)@) == values(old(content)@) + text_blocks(text@),
{
    if !text.is_empty() {
        let block = sse::part("text", "text", text);
        proof {
            crate::json::lemma_values_push(content@, block);
        }
        content.push(block);
    }
    assert(values(content@) =~= values(old(content)@) + text_blocks(text@));
}

/// Appends a thinking block, where there is thinking.
fn push_thinking(content: &mut Vec<Json>, thinking: &Option<String>)
    ensures
        values(final(content)@) == values(old(content)@) + thinking_blocks(opt_text(*thinking)),
{
    if let Some(thinking) = thinking {
        let block = sse::thinking_block(thinking.as_str(), THINKING_SIGNATURE_PLACEHOLDER);
        proof {
            crate::json::lemma_values_push(content@, block);
        }
        content.push(block);
    }
    assert(values(content@) =~= values(old(content)@) + thinking_blocks(opt_text(*thinking)));
}

/// Appends a block of reasoning that the upstream holds back, where there is some.
pub fn push_redacted(content: &mut Vec<Json>, redacted: &str)
    ensures
        values(final(content)@) == values(old(content)@) + redacted_blocks(redacted@),
{
    if !redacted.is_empty() {
        let block = sse::part("redacted_thinking", "data", redacted);
        proof {
            crate::json::lemma_values_push(content@, block);
        }
        content.push(block);
    }
    assert(values(content@) =~= values(old(content)@) + redacted_blocks(redacted@));
}

/// An answer to a client that takes the message as a whole, but for its output count.
pub struct ReplyDraft {
    pub content: Vec<Json>,
    pub stop_reason: String,
    /// New input, cache writes and cache reads.
    pub counts: (i32, i32, i32),
}

/// Why a response could not be answered, with the input counts to record.
pub struct ReplyFailure {
    pub error_type: String,
    pub message: String,
    pub counts: (i32, i32, i32),
}

/// Input counts as numbers.
pub open spec fn int_counts(counts: (i32, i32, i32)) -> (int, int, int) {
    (counts.0 as int, counts.1 as int, counts.2 as int)
}

/// What is gathered of the events of a whole response.
pub open spec fn whole_response(events: Seq<EventV>, names: Map<Seq<char>, String>) -> GatheredV {
    let g = gather_until_error(nothing_gathered(), events, names);
    if g.error is Some {
        g
    } else {
        gather_end(g, names)
    }
}

/// Makes the answer to a client that takes the message as a whole out of all upstream events.
pub fn draft_reply(
    events: &Vec<Event>,
    tool_name_map: &TextMap<String>,
    thinking_enabled: bool,
    input_tokens: i32,
    cache_usage: CacheUsage,
) -> (r: Result<ReplyDraft, ReplyFailure>)
    ensures
        ({
            let g = whole_response(event_views(events@), tool_name_map.view());
            let counts = split(
                cache_usage,
                usage_input(input_tokens as int, g.context_input_tokens),
            );
            match r {
                Ok(draft) => g.error is None && values(draft.content@) == reply_content(
                    g,
                    thinking_enabled,
                ) && draft.stop_reason@ == reply_stop_reason(g) && int_counts(draft.counts)
                    == counts,
                Err(failure) => g.error is Some && failure.error_type@
                    == "upstream_tool_json_error"@ && failure.message@ == error_text(g.error->0)
                    && int_counts(failure.counts) == counts,
            }
        }),
{
    let mut g = Gatherer::new();
    g.take_until_error(events, tool_name_map);
    if g.tool_json_error.is_none() {
        g.finish(tool_name_map);
    }
    assert(g.view() == whole_response(event_views(events@), tool_name_map.view()));
    let total = resolve_usage_input_tokens(input_tokens, g.context_input_tokens);
    let counts = cache_usage.split_against_total(total);
    match &g.tool_json_error {
        Some(e) => Err(
            ReplyFailure {
                error_type: e.error_type().to_owned(),
                message: e.message(),
                counts,
            },
        ),
        None => Ok(
            ReplyDraft {
                content: g.content(thinking_enabled),
                stop_reason: g.stop_reason_or_default(),
                counts,
            },
        ),
    }
}

impl ReplyFailure {
    /// How the failure is told to the client.
    pub fn response(&self) -> (r: ErrorResponse)
        ensures
            r.view() == (ErrorV {
                status: 502,
                error_type: self.error_type@,
                message: self.message@,
            }),
    {
        ErrorResponse::new(502, self.error_type.as_str(), self.message.as_str())
    }

    /// What is recorded of the failure.
    pub fn closing(&self) -> (r: Closing)
        ensures
            r.view() == bad_call(
                (self.counts.0 as int, 0, self.counts.1 as int, self.counts.2 as int),
                self.message@,
            ),
    {
        Closing::bad_call((self.counts.0, 0, self.counts.1, self.counts.2), self.message.as_str())
    }
}

impl ReplyDraft {
    /// What is recorded of the answer, with its output count.
    pub fn closing(&self, output_tokens: i32) -> (r: Closing)
        ensures
            r.view() == success(
                (
                    self.counts.0 as int,
                    output_tokens as int,
                    self.counts.1 as int,
                    self.counts.2 as int,
                ),
            ),
    {
        Closing::success((self.counts.0, output_tokens, self.counts.1, self.counts.2))
    }

    /// The message, with the given id and output count.
    pub fn into_body(self, message_id: &str, model: &str, output_tokens: i32) -> (r: Json)
        ensures
            r.view() == message_json(
                message_id@,
                model@,
                values(self.content@),
                self.stop_reason@,
                (Usage {
                    input_tokens: self.counts.0,
                    output_tokens,
                    cache_creation_input_tokens: self.counts.1,
                    cache_read_input_tokens: self.counts.2,
                }),
            ),
    {
        sse::message_body(
            message_id,
            model,
            self.content,
            self.stop_reason.as_str(),
            Usage {
                input_tokens: self.counts.0,
                output_tokens,
                cache_creation_input_tokens: self.counts.1,
                cache_read_input_tokens: self.counts.2,
            },
        )
    }
}

} // verus!
