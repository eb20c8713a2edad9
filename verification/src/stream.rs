//! Turns the upstream's events into the event stream of the Messages API.

use crate::events::{Event, ReasoningContentEvent};
use crate::ids;
use crate::json::{Json, JsonObject};
use crate::sse;
use crate::sse::{emit, emit_all, emit_some, no_events, views, SseEvent, Usage};
use crate::state::{opt_text, SseStateManager, StateV};
use crate::stream_model as model;
use crate::stream_model::StreamV;
use crate::text;
use crate::thinking;
use crate::tokens;
use crate::tokens::CacheUsage;
use crate::text_map::TextMap;
use crate::tool_json::{calls, lemma_with_blank_len, CompletedToolUse};
use crate::tool_json::{ToolErrorV, ToolJsonAccumulator, ToolJsonAccumulatorError, ToolUseEvent};
use crate::xml_filter::ToolUseXmlLeakFilter;
use vstd::prelude::*;

verus! {

/// A stream to the client.
pub struct StreamContext {
    pub state_manager: SseStateManager,
    pub model: String,
    pub message_id: String,
    /// Estimated input tokens.
    pub input_tokens: i32,
    /// Input tokens as the upstream tells them.
    pub context_input_tokens: Option<i32>,
    /// Estimated output tokens so far.
    pub output_tokens: i32,
    /// Block numbers of the tool calls, by their ids.
    pub tool_block_indices: TextMap<i32>,
    /// The client's tool names, by those that the upstream uses.
    pub tool_name_map: TextMap<String>,
    pub thinking_enabled: bool,
    /// Text in which a tag may be.
    pub thinking_buffer: String,
    pub in_thinking_block: bool,
    pub thinking_extracted: bool,
    pub thinking_block_index: Option<i32>,
    /// Whether the upstream's own reasoning opened the thinking block.
    pub reasoning_block_open: bool,
    pub text_block_index: Option<i32>,
    /// Whether a line break at the start of thinking is yet to be dropped.
    pub strip_thinking_leading_newline: bool,
    /// Whether white space between thinking and text is yet to be dropped.
    pub strip_text_after_thinking_boundary: bool,
    pub cache_usage: CacheUsage,
    pub tool_json_accumulator: ToolJsonAccumulator,
    pub tool_json_error: Option<ToolJsonAccumulatorError>,
    pub tool_use_xml_filter: ToolUseXmlLeakFilter,
}

/// A number that may be there.
pub open spec fn opt_int(n: Option<i32>) -> Option<int> {
    match n {
        Some(n) => Some(n as int),
        None => None,
    }
}

/// An error that may be there.
pub open spec fn opt_error(e: Option<ToolJsonAccumulatorError>) -> Option<ToolErrorV> {
    match e {
        Some(e) => Some(e.view()),
        None => None,
    }
}

/// Block numbers as numbers.
pub open spec fn numbers(m: Map<Seq<char>, i32>) -> Map<Seq<char>, int> {
    m.map_values(|n: i32| n as int)
}

impl StreamContext {
    pub open spec fn view(&self) -> StreamV {
        StreamV {
            state: self.state_manager.view(),
            model: self.model@,
            message_id: self.message_id@,
            input_tokens: self.input_tokens as int,
            context_input_tokens: opt_int(self.context_input_tokens),
            output_tokens: self.output_tokens as int,
            tool_block_indices: numbers(self.tool_block_indices.view()),
            tool_name_map: self.tool_name_map.view(),
            thinking_enabled: self.thinking_enabled,
            thinking_buffer: self.thinking_buffer@,
            in_thinking_block: self.in_thinking_block,
            thinking_extracted: self.thinking_extracted,
            thinking_block_index: opt_int(self.thinking_block_index),
            reasoning_block_open: self.reasoning_block_open,
            text_block_index: opt_int(self.text_block_index),
            strip_thinking_leading_newline: self.strip_thinking_leading_newline,
            strip_text_after_thinking_boundary: self.strip_text_after_thinking_boundary,
            cache_usage: self.cache_usage,
            pending: self.tool_json_accumulator.view(),
            tool_json_error: opt_error(self.tool_json_error),
            filter: self.tool_use_xml_filter.view(),
        }
    }

    /// A stream with the given message id.
    pub fn with_message_id(
        message_id: String,
        model: &str,
        input_tokens: i32,
        thinking_enabled: bool,
        tool_name_map: TextMap<String>,
    ) -> (r: StreamContext)
        ensures
            r.view() == model::fresh_stream(
                message_id@,
                model@,
                input_tokens as int,
                thinking_enabled,
                tool_name_map.view(),
            ),
    {
        let r = StreamContext {
            state_manager: SseStateManager::new(),
            model: model.to_owned(),
            message_id,
            input_tokens,
            context_input_tokens: None,
            output_tokens: 0,
            tool_block_indices: TextMap::new(),
            tool_name_map,
            thinking_enabled,
            thinking_buffer: String::new(),
            in_thinking_block: false,
            thinking_extracted: false,
            thinking_block_index: None,
            reasoning_block_open: false,
            text_block_index: None,
            strip_thinking_leading_newline: false,
            strip_text_after_thinking_boundary: false,
            cache_usage: CacheUsage::none(),
            tool_json_accumulator: ToolJsonAccumulator::new(),
            tool_json_error: None,
            tool_use_xml_filter: ToolUseXmlLeakFilter::new(),
        };
        assert(numbers(Map::empty()) =~= Map::empty());
        r
    }

    /// A stream with a new message id.
    pub fn new_with_thinking(
        model: &str,
        input_tokens: i32,
        thinking_enabled: bool,
        tool_name_map: TextMap<String>,
    ) -> (r: StreamContext)
        ensures
            ids::id_shape(r.message_id@, "msg_"@, 32),
            r.view() == model::fresh_stream(
                r.message_id@,
                model@,
                input_tokens as int,
                thinking_enabled,
                tool_name_map.view(),
            ),
    {
        StreamContext::with_message_id(
            ids::new_message_id(),
            model,
            input_tokens,
            thinking_enabled,
            tool_name_map,
        )
    }

    /// The input count to report: new input, cache writes and cache reads.
    pub fn resolved_usage(&self) -> (r: (i32, i32, i32))
        ensures
            (r.0 as int, r.1 as int, r.2 as int) == tokens::split(
                self.cache_usage,
                model::resolved_input(self.view()),
            ),
    {
        let total = match self.context_input_tokens {
            Some(n) => n,
            None => self.input_tokens,
        };
        self.cache_usage.split_against_total(total)
    }

    /// The payload that starts the message.
    pub fn create_message_start_event(&self) -> (r: Json)
        ensures
            r.view() == model::start_payload(self.view()),
    {
        let (input, creation, read) = self.cache_usage.split_against_total(self.input_tokens);
        sse::message_start_payload(
            self.message_id.as_str(),
            self.model.as_str(),
            Usage {
                input_tokens: input,
                output_tokens: 1,
                cache_creation_input_tokens: creation,
                cache_read_input_tokens: read,
            },
        )
    }

    /// Numbers a new block of the given kind and starts it.
    fn open_block(&mut self, kind: &str, block: Json) -> (r: Vec<SseEvent>)
        requires
            old(self).view().state.next_block_index < i32::MAX,
        ensures
            (final(self).view(), views(r@)) == model::open_block(
                old(self).view(),
                kind@,
                block.view(),
            ),
            final(self).view().state.next_block_index == old(self).view().state.next_block_index
                + 1,
    {
        let index = self.state_manager.next_block_index();
        self.state_manager.handle_content_block_start(
            index,
            kind,
            sse::block_start_payload(index, block),
        )
    }

    /// Opens a new text block.
    fn open_text_block(&mut self) -> (r: Vec<SseEvent>)
        requires
            old(self).view().state.next_block_index < i32::MAX,
        ensures
            (final(self).view(), views(r@)) == model::new_text_block(old(self).view()),
            final(self).view().state.next_block_index == old(self).view().state.next_block_index
                + 1,
            final(self).text_block_index is Some,
    {
        let index = self.state_manager.peek_block_index();
        self.text_block_index = Some(index);
        self.open_block("text", sse::part("text", "text", ""))
    }

    /// Sends text, in the open text block or in a new one.
    fn create_text_delta_events(&mut self, text: &str) -> (r: Vec<SseEvent>)
        requires
            old(self).view().state.next_block_index < i32::MAX,
        ensures
            (final(self).view(), views(r@)) == model::text_step(old(self).view(), text@),
            final(self).view().state.next_block_index <= old(self).view().state.next_block_index
                + 1,
    {
        let open = match self.text_block_index {
            Some(index) => self.state_manager.is_block_open_of_type(index, "text"),
            None => false,
        };
        let mut events = no_events();
        if !open {
            events = self.open_text_block();
        }
        assert((self.view(), views(events@)) == model::text_block_step(old(self).view()));
        if let Some(index) = self.text_block_index {
            let delta = self.state_manager.handle_content_block_delta(
                index,
                sse::block_delta_payload(index, sse::part("text_delta", "text", text)),
            );
            emit_some(&mut events, delta);
        }
        events
    }

    /// Sends text, where there is any.
    fn send_text(&mut self, text: &str) -> (r: Vec<SseEvent>)
        requires
            old(self).view().state.next_block_index < i32::MAX,
        ensures
            (final(self).view(), views(r@)) == model::some_text_step(old(self).view(), text@),
            final(self).view().state.next_block_index <= old(self).view().state.next_block_index
                + 1,
    {
        if text.is_empty() {
            no_events()
        } else {
            self.create_text_delta_events(text)
        }
    }

    /// Sends thinking in the thinking block, where there is any.
    fn send_thinking(&self, thinking: &str) -> (r: Vec<SseEvent>)
        ensures
            views(r@) == model::thinking_events(self.view(), thinking@),
    {
        let mut events = no_events();
        if let Some(index) = self.thinking_block_index {
            if !thinking.is_empty() {
                emit(&mut events, sse::thinking_delta(index, thinking));
            }
        }
        assert(views(events@) =~= model::thinking_events(self.view(), thinking@));
        events
    }

    /// Signs the thinking block and closes it.
    fn close_thinking(&mut self) -> (r: Vec<SseEvent>)
        ensures
            (final(self).view(), views(r@)) == model::close_thinking(old(self).view()),
            final(self).view().state.next_block_index == old(self).view().state.next_block_index,
    {
        let mut events = no_events();
        if let Some(index) = self.thinking_block_index {
            emit(&mut events, sse::thinking_delta(index, ""));
            emit(&mut events, sse::signature_delta(index));
            let stop = self.state_manager.handle_content_block_stop(index);
            emit_some(&mut events, stop);
        }
        assert(views(events@) =~= model::close_thinking(old(self).view()).1);
        events
    }

    /// Closes the block of disclosed reasoning, where one is open.
    fn close_reasoning_if_open(&mut self) -> (r: Vec<SseEvent>)
        ensures
            (final(self).view(), views(r@)) == model::close_reasoning(old(self).view()),
            final(self).view().state.next_block_index == old(self).view().state.next_block_index,
    {
        if !self.reasoning_block_open {
            return no_events();
        }
        let events = self.close_thinking();
        self.reasoning_block_open = false;
        self.thinking_extracted = true;
        events
    }

    /// Closes the text block, where one is open.
    fn close_text_if_open(&mut self) -> (r: Vec<SseEvent>)
        ensures
            (final(self).view(), views(r@)) == model::close_text(old(self).view()),
            final(self).view().state.next_block_index == old(self).view().state.next_block_index,
    {
        let mut events = no_events();
        if let Some(index) = self.text_block_index {
            if self.state_manager.is_block_open_of_type(index, "text") {
                let stop = self.state_manager.handle_content_block_stop(index);
                emit_some(&mut events, stop);
            }
        }
        assert(views(events@) =~= model::close_text(old(self).view()).1);
        events
    }

    /// Text before the opening tag goes out, and the thinking block is opened.
    fn enter_thinking(&mut self, chars: &Vec<char>, start: usize) -> (r: Vec<SseEvent>)
        requires
            chars@ == old(self).view().thinking_buffer,
            thinking::first_real(chars@, thinking::open_tag(), 0) == Some(start as int),
            start + 10 <= chars.len(),
            old(self).view().state.next_block_index + 2 <= i32::MAX,
        ensures
            (final(self).view(), views(r@)) == model::search_step(old(self).view()),
            final(self).view().state.next_block_index <= old(self).view().state.next_block_index
                + 2,
    {
        let before = text::slice(self.thinking_buffer.as_str(), 0, start);
        let rest = text::slice(self.thinking_buffer.as_str(), start + 10, chars.len());
        proof {
            assert(before@ =~= chars@.take(start as int));
            assert(rest@ =~= chars@.skip(start + 10));
        }
        let mut events = no_events();
        if !text::is_blank(before.as_str()) {
            events = self.create_text_delta_events(before.as_str());
        }
        self.in_thinking_block = true;
        self.strip_thinking_leading_newline = true;
        self.thinking_buffer = rest;
        self.thinking_block_index = Some(self.state_manager.peek_block_index());
        let opening = self.open_block("thinking", sse::part("thinking", "thinking", ""));
        emit_all(&mut events, opening);
        events
    }

    /// Looks for the opening tag.
    fn search_thinking(&mut self) -> (r: Vec<SseEvent>)
        requires
            old(self).view().state.next_block_index + 2 <= i32::MAX,
        ensures
            (final(self).view(), views(r@)) == model::search_step(old(self).view()),
            final(self).view().state.next_block_index <= old(self).view().state.next_block_index
                + 2,
    {
        let chars = text::chars_of(self.thinking_buffer.as_str());
        if let Some(start) = thinking::start_tag_index(&chars) {
            return self.enter_thinking(&chars, start);
        }
        let n = StreamContext::safe_length(self.thinking_buffer.as_str(), &chars, 10);
        let safe = text::slice(self.thinking_buffer.as_str(), 0, n);
        let rest = text::slice(self.thinking_buffer.as_str(), n, chars.len());
        proof {
            assert(safe@ =~= chars@.take(n as int));
            assert(rest@ =~= chars@.skip(n as int));
        }
        if text::is_blank(safe.as_str()) {
            return no_events();
        }
        let events = self.create_text_delta_events(safe.as_str());
        self.thinking_buffer = rest;
        events
    }

    /// How many characters can go out while `held` bytes may yet become part of a tag.
    fn safe_length(buffer: &str, chars: &Vec<char>, held: usize) -> (r: usize)
        requires
            chars@ == buffer@,
        ensures
            r == model::safe_chars(buffer@, held as int),
            r <= chars.len(),
    {
        let bytes = text::byte_length(buffer);
        let target: usize = if bytes < held {
            0
        } else {
            bytes - held
        };
        thinking::chars_within_bytes(chars, target)
    }

    /// Drops the line break behind the opening tag, as soon as there is something behind it.
    fn strip_leading_newline(&mut self)
        ensures
            final(self).view() == model::strip_step(old(self).view()),
    {
        if self.strip_thinking_leading_newline && !self.thinking_buffer.as_str().is_empty() {
            let chars = text::chars_of(self.thinking_buffer.as_str());
            if chars[0] == '\n' {
                let rest = text::slice(self.thinking_buffer.as_str(), 1, chars.len());
                assert(rest@ =~= chars@.drop_first());
                self.thinking_buffer = rest;
            }
            self.strip_thinking_leading_newline = false;
        }
    }

    /// Leaves the thinking block: what stands before position `end` of the buffer is thinking.
    fn leave_thinking(&mut self, end: usize) -> (r: Vec<SseEvent>)
        requires
            end <= old(self).view().thinking_buffer.len(),
        ensures
            (final(self).view(), views(r@)) == model::leave_thinking(
                old(self).view(),
                end as int,
            ),
            final(self).view().state.next_block_index == old(self).view().state.next_block_index,
    {
        let inner = text::slice(self.thinking_buffer.as_str(), 0, end);
        assert(inner@ =~= self.thinking_buffer@.take(end as int));
        let mut events = self.send_thinking(inner.as_str());
        self.in_thinking_block = false;
        self.thinking_extracted = true;
        self.strip_text_after_thinking_boundary = true;
        let closing = self.close_thinking();
        emit_all(&mut events, closing);
        events
    }

    /// Thinking goes out, up to the closing tag.
    fn continue_thinking(&mut self) -> (r: Vec<SseEvent>)
        ensures
            (final(self).view(), views(r@)) == model::inside_step(old(self).view()),
            final(self).view().state.next_block_index == old(self).view().state.next_block_index,
    {
        self.strip_leading_newline();
        let chars = text::chars_of(self.thinking_buffer.as_str());
        match thinking::end_tag_index(&chars) {
            Some((end, resume)) => {
                let rest = text::slice(self.thinking_buffer.as_str(), resume, chars.len());
                assert(rest@ =~= chars@.skip(resume as int));
                let events = self.leave_thinking(end);
                self.thinking_buffer = rest;
                events
            },
            None => {
                let n = StreamContext::safe_length(self.thinking_buffer.as_str(), &chars, 11);
                let safe = text::slice(self.thinking_buffer.as_str(), 0, n);
                let rest = text::slice(self.thinking_buffer.as_str(), n, chars.len());
                proof {
                    assert(safe@ =~= chars@.take(n as int));
                    assert(rest@ =~= chars@.skip(n as int));
                }
                let events = self.send_thinking(safe.as_str());
                self.thinking_buffer = rest;
                events
            },
        }
    }

    /// All that is buffered goes out as text.
    fn send_buffered_text(&mut self) -> (r: Vec<SseEvent>)
        requires
            old(self).view().state.next_block_index < i32::MAX,
        ensures
            (final(self).view(), views(r@)) == model::after_step(old(self).view()),
            final(self).view().state.next_block_index <= old(self).view().state.next_block_index
                + 1,
    {
        let text = if self.strip_text_after_thinking_boundary {
            text::trim_start(self.thinking_buffer.as_str())
        } else {
            self.thinking_buffer.clone()
        };
        if self.strip_text_after_thinking_boundary && !text.as_str().is_empty() {
            self.strip_text_after_thinking_boundary = false;
        }
        self.thinking_buffer = String::new();
        self.send_text(text.as_str())
    }

    /// Takes in a piece of text that may hold thinking.
    fn process_content_with_thinking(&mut self, content: &str) -> (r: Vec<SseEvent>)
        requires
            old(self).view().state.next_block_index + 3 <= i32::MAX,
        ensures
            (final(self).view(), views(r@)) == model::content_step(old(self).view(), content@),
            final(self).view().state.next_block_index <= old(self).view().state.next_block_index
                + 3,
    {
        self.thinking_buffer.append(content);
        let mut events = no_events();
        if !self.in_thinking_block && !self.thinking_extracted {
            events = self.search_thinking();
            if !self.in_thinking_block {
                return events;
            }
        }
        let ghost e1 = views(events@);
        let ghost mut e2 = Seq::<sse::SseEventV>::empty();
        if self.in_thinking_block {
            let inside = self.continue_thinking();
            proof {
                e2 = views(inside@);
            }
            emit_all(&mut events, inside);
            if self.in_thinking_block {
                return events;
            }
        }
        assert(e1 + e2 =~= views(events@));
        let text = self.send_buffered_text();
        emit_all(&mut events, text);
        events
    }

    /// Takes in text that has passed the filter.
    fn process_filtered(&mut self, text: &str) -> (r: Vec<SseEvent>)
        requires
            old(self).view().state.next_block_index + 3 <= i32::MAX,
        ensures
            (final(self).view(), views(r@)) == model::filtered_step(old(self).view(), text@),
            final(self).view().state.next_block_index <= old(self).view().state.next_block_index
                + 3,
    {
        if text.is_empty() {
            return no_events();
        }
        self.output_tokens = tokens::add_tokens(self.output_tokens, tokens::estimate_tokens(text));
        if self.thinking_enabled {
            self.process_content_with_thinking(text)
        } else {
            self.create_text_delta_events(text)
        }
    }

    /// Takes in a piece of the answer.
    pub fn process_assistant_response(&mut self, content: &str) -> (r: Vec<SseEvent>)
        requires
            old(self).view().state.next_block_index + 3 <= i32::MAX,
        ensures
            (final(self).view(), views(r@)) == model::assistant_step(old(self).view(), content@),
            final(self).view().state.next_block_index <= old(self).view().state.next_block_index
                + 3,
    {
        let text = self.tool_use_xml_filter.filter(content);
        self.process_filtered(text.as_str())
    }

    /// The block number of a tool call, which gets one where it has none.
    fn tool_block_index(&mut self, id: &str) -> (r: i32)
        requires
            old(self).view().state.next_block_index < i32::MAX,
        ensures
            old(self).view().tool_block_indices.contains_key(id@) ==> final(self).view() == old(
                self,
            ).view() && r == old(self).view().tool_block_indices[id@],
            !old(self).view().tool_block_indices.contains_key(id@) ==> r == old(
                self,
            ).view().state.next_block_index && final(self).view() == (StreamV {
                state: StateV { next_block_index: r + 1, ..old(self).view().state },
                tool_block_indices: old(self).view().tool_block_indices.insert(id@, r as int),
                ..old(self).view()
            }),
    {
        if let Some(index) = self.tool_block_indices.get(id) {
            return *index;
        }
        let index = self.state_manager.next_block_index();
        self.tool_block_indices.insert(id, index);
        assert(self.view().tool_block_indices =~= old(self).view().tool_block_indices.insert(
            id@,
            index as int,
        ));
        index
    }

    /// Sends a whole tool call.
    fn emit_completed_tool_use(&mut self, completed: CompletedToolUse) -> (r: Vec<SseEvent>)
        requires
            old(self).view().state.next_block_index < i32::MAX,
        ensures
            (final(self).view(), views(r@)) == model::call_step(
                old(self).view(),
                completed.view(),
            ),
            final(self).view().state.next_block_index <= old(self).view().state.next_block_index
                + 1,
    {
        let index = self.tool_block_index(completed.id.as_str());
        let ghost s1 = self.view();
        let empty = Json::Object(JsonObject::new());
        let block = sse::tool_use_block(completed.id.as_str(), completed.name.as_str(), empty);
        let mut events = self.state_manager.handle_content_block_start(
            index,
            "tool_use",
            sse::block_start_payload(index, block),
        );
        let partial = completed.input.to_text();
        self.output_tokens =
        tokens::add_tokens(self.output_tokens, tokens::estimate_tokens(partial.as_str()));
        let delta = self.state_manager.handle_content_block_delta(
            index,
            sse::block_delta_payload(
                index,
                sse::part("input_json_delta", "partial_json", partial.as_str()),
            ),
        );
        emit_some(&mut events, delta);
        let stop = self.state_manager.handle_content_block_stop(index);
        emit_some(&mut events, stop);
        events
    }

    /// Ends thinking where the closing tag ends the buffer, white space aside.
    fn close_thinking_at_buffer_end(&mut self) -> (r: Vec<SseEvent>)
        ensures
            (final(self).view(), views(r@)) == model::close_at_end(old(self).view()),
            final(self).view().state.next_block_index == old(self).view().state.next_block_index,
    {
        let chars = text::chars_of(self.thinking_buffer.as_str());
        match thinking::last_close_index(&chars) {
            Some(end) => {
                let events = self.leave_thinking(end);
                self.thinking_buffer = String::new();
                events
            },
            None => {
                no_events()
            },
        }
    }

    /// Sends what has to go out before a tool call.
    fn flush_before_tool_use(&mut self) -> (r: Vec<SseEvent>)
        requires
            old(self).view().state.next_block_index < i32::MAX,
        ensures
            (final(self).view(), views(r@)) == model::before_call(old(self).view()),
            final(self).view().state.next_block_index <= old(self).view().state.next_block_index
                + 1,
    {
        let mut events = no_events();
        if self.thinking_enabled && self.in_thinking_block {
            events = self.close_thinking_at_buffer_end();
        }
        if self.thinking_enabled && !self.in_thinking_block && !self.thinking_extracted
            && !self.thinking_buffer.as_str().is_empty() {
            let buffered = self.thinking_buffer.clone();
            self.thinking_buffer = String::new();
            let text = self.create_text_delta_events(buffered.as_str());
            emit_all(&mut events, text);
        }
        events
    }

    /// Takes in a piece of a tool call.
    pub fn process_tool_use(&mut self, tool_use: &ToolUseEvent) -> (r: Vec<SseEvent>)
        requires
            old(self).view().state.next_block_index + 2 <= i32::MAX,
        ensures
            (final(self).view(), views(r@)) == model::tool_step(
                old(self).view(),
                tool_use.view(),
            ),
            final(self).view().state.next_block_index <= old(self).view().state.next_block_index
                + 2,
    {
        self.state_manager.set_has_tool_use(true);
        let mut events = self.flush_before_tool_use();
        match self.tool_json_accumulator.push(tool_use, &self.tool_name_map) {
            Ok(Some(completed)) => {
                let call = self.emit_completed_tool_use(completed);
                emit_all(&mut events, call);
            },
            Ok(None) => {},
            Err(e) => {
                self.tool_json_error = Some(e);
                self.state_manager.set_stop_reason("error");
            },
        }
        events
    }

    /// Passes on reasoning that the upstream holds back.
    fn send_redacted(&mut self, redacted: &str) -> (r: Vec<SseEvent>)
        requires
            old(self).view().state.next_block_index < i32::MAX,
        ensures
            (final(self).view(), views(r@)) == model::redacted_step(old(self).view(), redacted@),
            final(self).view().state.next_block_index <= old(self).view().state.next_block_index
                + 1,
    {
        let mut events = self.close_reasoning_if_open();
        let text = self.close_text_if_open();
        emit_all(&mut events, text);
        let index = self.state_manager.peek_block_index();
        let opening = self.open_block(
            "redacted_thinking",
            sse::part("redacted_thinking", "data", redacted),
        );
        emit_all(&mut events, opening);
        let stop = self.state_manager.handle_content_block_stop(index);
        emit_some(&mut events, stop);
        self.thinking_extracted = true;
        events
    }

    /// Makes sure that a block for disclosed reasoning is open.
    fn open_reasoning_block(&mut self) -> (r: Vec<SseEvent>)
        requires
            old(self).view().state.next_block_index < i32::MAX,
        ensures
            (final(self).view(), views(r@)) == model::reasoning_block_step(old(self).view()),
            final(self).view().state.next_block_index <= old(self).view().state.next_block_index
                + 1,
    {
        if self.reasoning_block_open {
            return no_events();
        }
        let mut events = self.close_text_if_open();
        let reuse = match self.thinking_block_index {
            Some(index) => self.state_manager.is_block_open_of_type(index, "thinking"),
            None => false,
        };
        self.reasoning_block_open = true;
        self.in_thinking_block = false;
        self.thinking_extracted = true;
        if !reuse {
            self.thinking_block_index = Some(self.state_manager.peek_block_index());
            let opening = self.open_block("thinking", sse::part("thinking", "thinking", ""));
            emit_all(&mut events, opening);
        }
        events
    }

    /// Passes on disclosed reasoning.
    fn send_reasoning(&mut self, text: &str) -> (r: Vec<SseEvent>)
        requires
            old(self).view().state.next_block_index < i32::MAX,
        ensures
            (final(self).view(), views(r@)) == model::disclosed_step(old(self).view(), text@),
            final(self).view().state.next_block_index <= old(self).view().state.next_block_index
                + 1,
    {
        let mut events = self.open_reasoning_block();
        if !text.is_empty() {
            let thinking = self.send_thinking(text);
            self.output_tokens =
            tokens::add_tokens(self.output_tokens, tokens::estimate_tokens(text));
            emit_all(&mut events, thinking);
        }
        events
    }

    /// Takes in a piece of reasoning.
    fn process_reasoning_content(&mut self, reasoning: &ReasoningContentEvent) -> (r: Vec<
        SseEvent,
    >)
        requires
            old(self).view().state.next_block_index < i32::MAX,
        ensures
            (final(self).view(), views(r@)) == model::reasoning_step(
                old(self).view(),
                reasoning.view(),
            ),
            final(self).view().state.next_block_index <= old(self).view().state.next_block_index
                + 1,
    {
        if !self.thinking_enabled {
            return no_events();
        }
        if let Some(redacted) = &reasoning.redacted_content {
            if !redacted.as_str().is_empty() {
                return self.send_redacted(redacted.as_str());
            }
        }
        self.send_reasoning(reasoning.text.as_str())
    }

    /// Starts the stream.
    pub fn generate_initial_events(&mut self) -> (r: Vec<SseEvent>)
        requires
            old(self).view().state.next_block_index < i32::MAX,
        ensures
            (final(self).view(), views(r@)) == model::initial_step(old(self).view()),
            final(self).view().state.next_block_index <= old(self).view().state.next_block_index
                + 1,
    {
        let mut events = no_events();
        let payload = self.create_message_start_event();
        let start = self.state_manager.handle_message_start(payload);
        emit_some(&mut events, start);
        assert(Seq::<sse::SseEventV>::empty() + sse::opt_events(sse::opt_view(start))
            =~= sse::opt_events(sse::opt_view(start)));
        if self.thinking_enabled {
            return events;
        }
        let opening = self.open_text_block();
        emit_all(&mut events, opening);
        events
    }

    /// Whether the stream can take `n` more blocks.
    pub fn has_block_room(&self, n: usize) -> (r: bool)
        ensures
            r == (self.view().state.next_block_index + n <= i32::MAX),
    {
        self.state_manager.has_block_room(n)
    }

    /// Whether the blocks that the end of the stream may need can be numbered.
    pub fn can_finish(&self) -> (r: bool)
        ensures
            r == (self.view().state.next_block_index + self.view().pending.len() + 5 <= i32::MAX),
    {
        let pending = self.tool_json_accumulator.pending();
        let _ = self.state_manager.peek_block_index();
        pending <= usize::MAX - 5 && self.has_block_room(pending + 5)
    }

    /// Takes in one upstream event.
    pub fn process_kiro_event(&mut self, event: &Event) -> (r: Vec<SseEvent>)
        requires
            old(self).view().state.next_block_index + 3 <= i32::MAX,
        ensures
            (final(self).view(), views(r@)) == model::event_step(old(self).view(), event.view()),
            final(self).view().state.next_block_index <= old(self).view().state.next_block_index
                + 3,
    {
        proof {
            reveal(model::event_step);
        }
        match event {
            Event::AssistantResponse { content } => {
                let mut events = self.close_reasoning_if_open();
                let more = self.process_assistant_response(content.as_str());
                emit_all(&mut events, more);
                events
            },
            Event::Code { content } => {
                let mut events = self.close_reasoning_if_open();
                let more = self.process_assistant_response(content.as_str());
                emit_all(&mut events, more);
                events
            },
            Event::ToolUse(tool_use) => {
                let mut events = self.close_reasoning_if_open();
                let more = self.process_tool_use(tool_use);
                emit_all(&mut events, more);
                events
            },
            Event::ReasoningContent(reasoning) => self.process_reasoning_content(reasoning),
            Event::ContextUsage { input_tokens, exhausted } => {
                self.context_input_tokens = Some(*input_tokens);
                if *exhausted {
                    self.state_manager.set_stop_reason("model_context_window_exceeded");
                }
                no_events()
            },
            Event::Exception { exception_type, .. } => {
                if text::same(exception_type.as_str(), "ContentLengthExceededException") {
                    self.state_manager.set_stop_reason("max_tokens");
                }
                no_events()
            },
            _ => {
                no_events()
            },
        }
    }

    /// Sends whole tool calls, one after the other.
    fn emit_tool_uses(&mut self, completed: Vec<CompletedToolUse>) -> (r: Vec<SseEvent>)
        requires
            old(self).view().state.next_block_index + completed.len() <= i32::MAX,
        ensures
            (final(self).view(), views(r@)) == model::calls_step(
                old(self).view(),
                calls(completed@),
            ),
            final(self).view().state.next_block_index <= old(self).view().state.next_block_index
                + completed.len(),
    {
        let mut events = no_events();
        let ghost all = calls(completed@);
        let mut rest = completed;
        let mut i: usize = 0;
        let n = rest.len();
        assert(all.take(0) =~= Seq::empty());
        assert(all.skip(0) =~= all);
        while i < n
            invariant
                i <= n,
                n == all.len(),
                rest.len() == n - i,
                calls(rest@) == all.skip(i as int),
                old(self).view().state.next_block_index + n <= i32::MAX,
                self.view().state.next_block_index <= old(self).view().state.next_block_index + i,
                (self.view(), views(events@)) == model::calls_step(
                    old(self).view(),
                    all.take(i as int),
                ),
            decreases n - i,
        {
            let ghost r0 = rest@;
            let call = rest.remove(0);
            proof {
                assert(calls(r0)[0] == call.view());
                assert(calls(rest@) =~= calls(r0).remove(0));
                assert(calls(rest@) =~= all.skip(i + 1));
                assert(all.take(i + 1).drop_last() =~= all.take(i as int));
                assert(all.take(i + 1).last() == call.view());
            }
            let more = self.emit_completed_tool_use(call);
            emit_all(&mut events, more);
            i += 1;
        }
        assert(all.take(n as int) =~= all);
        events
    }

    /// Sends the pending tool calls that are whole, or notes that one was cut short.
    fn flush_tool_uses(&mut self) -> (r: Vec<SseEvent>)
        requires
            old(self).view().state.next_block_index + old(self).view().pending.len() <= i32::MAX,
        ensures
            (final(self).view(), views(r@)) == model::flush_calls(old(self).view()),
            final(self).view().state.next_block_index <= old(self).view().state.next_block_index
                + old(self).view().pending.len(),
    {
        if self.tool_json_error.is_some() {
            return no_events();
        }
        proof {
            lemma_with_blank_len(self.view().pending, true);
        }
        match self.tool_json_accumulator.finish(&self.tool_name_map) {
            Ok(completed) => {
                assert(calls(completed@).len() == completed@.len());
                self.emit_tool_uses(completed)
            },
            Err(e) => {
                self.tool_json_error = Some(e);
                self.state_manager.set_stop_reason("error");
                no_events()
            },
        }
    }

    /// Sends the text that the filter has held back.
    fn flush_filtered_text(&mut self) -> (r: Vec<SseEvent>)
        requires
            old(self).view().state.next_block_index + 3 <= i32::MAX,
        ensures
            (final(self).view(), views(r@)) == model::flush_filter(old(self).view()),
            final(self).view().state.next_block_index <= old(self).view().state.next_block_index
                + 3,
    {
        let text = self.tool_use_xml_filter.finish();
        self.process_filtered(text.as_str())
    }

    /// Signs and closes the thinking block whose closing tag never came.
    fn close_unfinished_thinking(&mut self) -> (r: Vec<SseEvent>)
        ensures
            (final(self).view(), views(r@)) == model::close_unfinished(old(self).view()),
    {
        let open = match self.thinking_block_index {
            Some(index) => self.state_manager.is_block_open_of_type(index, "thinking"),
            None => false,
        };
        if self.in_thinking_block && open {
            self.close_thinking()
        } else {
            no_events()
        }
    }

    /// Sends the thinking or the text that is still buffered, and closes the thinking block.
    fn flush_thinking_buffer(&mut self) -> (r: Vec<SseEvent>)
        requires
            old(self).view().state.next_block_index < i32::MAX,
        ensures
            (final(self).view(), views(r@)) == model::flush_buffer(old(self).view()),
            final(self).view().state.next_block_index <= old(self).view().state.next_block_index
                + 1,
    {
        if !self.thinking_enabled {
            return no_events();
        }
        if !self.in_thinking_block {
            if self.thinking_buffer.as_str().is_empty() {
                return no_events();
            }
            return self.send_buffered_text();
        }
        let chars = text::chars_of(self.thinking_buffer.as_str());
        if thinking::last_close_index(&chars).is_some() {
            return self.close_thinking_at_buffer_end();
        }
        let buffer = self.thinking_buffer.clone();
        let mut events = self.send_thinking(buffer.as_str());
        let closing = self.close_unfinished_thinking();
        emit_all(&mut events, closing);
        self.thinking_buffer = String::new();
        events
    }

    /// Gives a message of thinking alone a text block.
    fn fill_missing_text(&mut self) -> (r: Vec<SseEvent>)
        requires
            old(self).view().state.next_block_index < i32::MAX,
        ensures
            (final(self).view(), views(r@)) == model::fill_text(old(self).view()),
            final(self).view().state.next_block_index <= old(self).view().state.next_block_index
                + 1,
    {
        if self.thinking_enabled && self.thinking_block_index.is_some()
            && !self.state_manager.has_non_thinking_blocks() {
            self.state_manager.set_stop_reason("max_tokens");
            self.create_text_delta_events(" ")
        } else {
            no_events()
        }
    }

    /// Ends the message.
    fn end_message(&mut self) -> (r: Vec<SseEvent>)
        ensures
            (final(self).view(), views(r@)) == model::end_message(old(self).view()),
    {
        let (input, creation, read) = self.resolved_usage();
        self.state_manager.generate_final_events(input, self.output_tokens, creation, read)
    }

    /// Ends the stream.
    pub fn generate_final_events(&mut self) -> (r: Vec<SseEvent>)
        requires
            old(self).view().state.next_block_index + old(self).view().pending.len() + 5
                <= i32::MAX,
        ensures
            (final(self).view(), views(r@)) == model::finish_stream(old(self).view()),
    {
        let mut events = self.flush_tool_uses();
        let held = self.flush_filtered_text();
        emit_all(&mut events, held);
        let ghost s2 = self.view();
        let ghost e12 = views(events@);
        let mut ending = self.close_reasoning_if_open();
        let failure = match &self.tool_json_error {
            Some(e) => Some((e.error_type(), e.message())),
            None => None,
        };
        match failure {
            Some((error_type, message)) => {
                let closing = self.close_unfinished_thinking();
                emit_all(&mut ending, closing);
                let last = self.end_message();
                emit_all(&mut ending, last);
                emit(&mut ending, sse::error(error_type, message.as_str()));
                assert((self.view(), views(ending@)) == model::end_with_error(
                    s2,
                    s2.tool_json_error->0,
                ));
            },
            None => {
                let buffered = self.flush_thinking_buffer();
                emit_all(&mut ending, buffered);
                let filler = self.fill_missing_text();
                emit_all(&mut ending, filler);
                let last = self.end_message();
                emit_all(&mut ending, last);
                assert((self.view(), views(ending@)) == model::end_well(s2));
            },
        }
        emit_all(&mut events, ending);
        events
    }

    /// The message of the tool call that cannot be used, where there is one.
    pub fn tool_json_error_message(&self) -> (r: Option<String>)
        ensures
            opt_text(r) == model::error_message(self.view()),
    {
        match &self.tool_json_error {
            Some(e) => Some(e.message()),
            None => None,
        }
    }
}

} // verus!
