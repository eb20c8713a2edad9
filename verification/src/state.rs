//! The state behind an event stream: which blocks are open, and how far the message has come.

use crate::json::{Json, JsonV};
use crate::sse;
use crate::sse::{emit, message_delta_event, message_stop_event, opt_view, stop_event};
use crate::sse::{views, SseEvent, SseEventV, Usage};
use crate::text;
use vstd::prelude::*;

verus! {

/// What is known of a content block.
pub struct BlockV {
    pub index: int,
    pub kind: Seq<char>,
    pub started: bool,
    pub stopped: bool,
}

/// What a stream's state is. The blocks stand in the order of their creation.
#[verifier::ext_equal]
pub struct StateV {
    pub message_started: bool,
    pub message_delta_sent: bool,
    pub blocks: Seq<BlockV>,
    pub message_ended: bool,
    pub next_block_index: int,
    pub stop_reason: Option<Seq<char>>,
    pub has_tool_use: bool,
}

/// The position of the first block numbered `index`, among those from `from` on.
pub open spec fn position_from(blocks: Seq<BlockV>, index: int, from: int) -> Option<int>
    decreases blocks.len() - from,
{
    if from < 0 || from >= blocks.len() {
        None
    } else if blocks[from].index == index {
        Some(from)
    } else {
        position_from(blocks, index, from + 1)
    }
}

/// The position of the block numbered `index`.
pub open spec fn position(blocks: Seq<BlockV>, index: int) -> Option<int> {
    position_from(blocks, index, 0)
}

/// A block that has begun and not ended.
pub open spec fn is_open(b: BlockV) -> bool {
    b.started && !b.stopped
}

/// Whether the block numbered `index` is open and of the given kind.
pub open spec fn open_of_kind(s: StateV, index: int, kind: Seq<char>) -> bool {
    match position(s.blocks, index) {
        Some(i) => is_open(s.blocks[i]) && s.blocks[i].kind == kind,
        None => false,
    }
}

/// Whether some block is of a kind other than thinking.
pub open spec fn has_other_than_thinking(s: StateV) -> bool {
    exists|i: int| 0 <= i < s.blocks.len() && (#[trigger] s.blocks[i]).kind != "thinking"@
}

/// A block that is to be closed: any open one, or only the open text blocks.
pub open spec fn to_close(b: BlockV, text_only: bool) -> bool {
    is_open(b) && (text_only ==> b.kind == "text"@)
}

/// The block, closed where it is to be closed.
pub open spec fn closed_block(b: BlockV, text_only: bool) -> BlockV {
    BlockV { stopped: b.stopped || to_close(b, text_only), ..b }
}

/// All blocks, closed where they are to be closed.
pub open spec fn closed_blocks(blocks: Seq<BlockV>, text_only: bool) -> Seq<BlockV> {
    blocks.map_values(|b: BlockV| closed_block(b, text_only))
}

/// The events that close the blocks that are to be closed, in order.
pub open spec fn closing_events(blocks: Seq<BlockV>, text_only: bool) -> Seq<SseEventV>
    decreases blocks.len(),
{
    if blocks.len() == 0 {
        Seq::empty()
    } else {
        let before = closing_events(blocks.drop_last(), text_only);
        if to_close(blocks.last(), text_only) {
            before.push(stop_event(blocks.last().index))
        } else {
            before
        }
    }
}

/// A stream that has sent nothing.
pub open spec fn fresh_state() -> StateV {
    StateV {
        message_started: false,
        message_delta_sent: false,
        blocks: Seq::empty(),
        message_ended: false,
        next_block_index: 0,
        stop_reason: None,
        has_tool_use: false,
    }
}

/// The reason given for the end of the message.
pub open spec fn final_stop_reason(s: StateV) -> Seq<char> {
    match s.stop_reason {
        Some(reason) => reason,
        None => if s.has_tool_use {
            "tool_use"@
        } else {
            "end_turn"@
        },
    }
}

/// Starting the message: once.
pub open spec fn message_start_step(s: StateV, data: JsonV) -> (StateV, Option<SseEventV>) {
    if s.message_started {
        (s, None)
    } else {
        (
            StateV { message_started: true, ..s },
            Some(SseEventV { event: "message_start"@, data }),
        )
    }
}

/// The state and the events once a tool call has made the open text blocks close.
pub open spec fn before_block(s: StateV, kind: Seq<char>) -> (StateV, Seq<SseEventV>) {
    if kind == "tool_use"@ {
        (
            StateV { has_tool_use: true, blocks: closed_blocks(s.blocks, true), ..s },
            closing_events(s.blocks, true),
        )
    } else {
        (s, Seq::empty())
    }
}

/// Starting a block: once. A tool call closes the open text blocks first.
pub open spec fn block_start_step(s: StateV, index: int, kind: Seq<char>, data: JsonV) -> (
    StateV,
    Seq<SseEventV>,
) {
    let (s1, closing) = before_block(s, kind);
    let event = SseEventV { event: "content_block_start"@, data };
    match position(s1.blocks, index) {
        Some(i) => if s1.blocks[i].started {
            (s1, closing)
        } else {
            let b = BlockV { started: true, ..s1.blocks[i] };
            (StateV { blocks: s1.blocks.update(i, b), ..s1 }, closing.push(event))
        },
        None => {
            let b = BlockV { index, kind, started: true, stopped: false };
            (StateV { blocks: s1.blocks.push(b), ..s1 }, closing.push(event))
        },
    }
}

/// Adding to a block: only to an open one.
pub open spec fn block_delta_step(s: StateV, index: int, data: JsonV) -> Option<SseEventV> {
    match position(s.blocks, index) {
        Some(i) => if is_open(s.blocks[i]) {
            Some(SseEventV { event: "content_block_delta"@, data })
        } else {
            None
        },
        None => None,
    }
}

/// Closing a block: once.
pub open spec fn block_stop_step(s: StateV, index: int) -> (StateV, Option<SseEventV>) {
    match position(s.blocks, index) {
        Some(i) => if s.blocks[i].stopped {
            (s, None)
        } else {
            let b = BlockV { stopped: true, ..s.blocks[i] };
            (StateV { blocks: s.blocks.update(i, b), ..s }, Some(stop_event(index)))
        },
        None => (s, None),
    }
}

/// Ending the message: the open blocks are closed, then come the final counts, then the end.
pub open spec fn final_step(s: StateV, usage: Usage) -> (StateV, Seq<SseEventV>) {
    let delta = if s.message_delta_sent {
        Seq::empty()
    } else {
        seq![message_delta_event(final_stop_reason(s), usage)]
    };
    let end = if s.message_ended {
        Seq::empty()
    } else {
        seq![message_stop_event()]
    };
    (
        StateV {
            blocks: closed_blocks(s.blocks, false),
            message_delta_sent: true,
            message_ended: true,
            ..s
        },
        closing_events(s.blocks, false) + delta + end,
    )
}

/// No two blocks have the same number.
pub open spec fn state_ok(s: StateV) -> bool {
    forall|i: int, j: int|
        #![trigger s.blocks[i], s.blocks[j]]
        0 <= i < j < s.blocks.len() ==> s.blocks[i].index != s.blocks[j].index
}

pub proof fn lemma_position_from(blocks: Seq<BlockV>, index: int, from: int)
    requires
        0 <= from,
    ensures
        position_from(blocks, index, from) matches Some(i) ==> from <= i < blocks.len()
            && blocks[i].index == index,
        position_from(blocks, index, from) is None ==> forall|j: int|
            from <= j < blocks.len() ==> (#[trigger] blocks[j]).index != index,
    decreases blocks.len() - from,
{
    if from < blocks.len() && blocks[from].index != index {
        lemma_position_from(blocks, index, from + 1);
    }
}

struct BlockState {
    index: i32,
    block_type: String,
    started: bool,
    stopped: bool,
}

impl BlockState {
    spec fn view(&self) -> BlockV {
        BlockV {
            index: self.index as int,
            kind: self.block_type@,
            started: self.started,
            stopped: self.stopped,
        }
    }
}

spec fn block_views(blocks: Seq<BlockState>) -> Seq<BlockV> {
    blocks.map_values(|b: BlockState| b.view())
}

/// Keeps an event stream in order.
///
/// A message starts once. A block is started, added to and stopped, in that order. The final
/// counts come once, when every block is stopped; the end of the message comes last.
pub struct SseStateManager {
    message_started: bool,
    message_delta_sent: bool,
    active_blocks: Vec<BlockState>,
    message_ended: bool,
    next_block_index: i32,
    stop_reason: Option<String>,
    has_tool_use: bool,
}

/// The text that may be there.
pub open spec fn opt_text(s: Option<String>) -> Option<Seq<char>> {
    match s {
        Some(s) => Some(s@),
        None => None,
    }
}

impl Default for SseStateManager {
    fn default() -> (r: SseStateManager)
        ensures
            r.view() == fresh_state(),
    {
        SseStateManager::new()
    }
}

impl SseStateManager {
    pub closed spec fn view(&self) -> StateV {
        StateV {
            message_started: self.message_started,
            message_delta_sent: self.message_delta_sent,
            blocks: block_views(self.active_blocks@),
            message_ended: self.message_ended,
            next_block_index: self.next_block_index as int,
            stop_reason: opt_text(self.stop_reason),
            has_tool_use: self.has_tool_use,
        }
    }

    pub fn new() -> (r: SseStateManager)
        ensures
            r.view() == fresh_state(),
            state_ok(r.view()),
    {
        let r = SseStateManager {
            message_started: false,
            message_delta_sent: false,
            active_blocks: Vec::new(),
            message_ended: false,
            next_block_index: 0,
            stop_reason: None,
            has_tool_use: false,
        };
        assert(r.view().blocks =~= Seq::empty());
        r
    }

    /// Position of the block numbered `index`.
    fn find(&self, index: i32) -> (r: Option<usize>)
        ensures
            r is Some <==> position(self.view().blocks, index as int) is Some,
            r matches Some(i) ==> position(self.view().blocks, index as int) == Some(i as int) && i
                < self.active_blocks.len(),
    {
        let mut i: usize = 0;
        while i < self.active_blocks.len()
            invariant
                i <= self.active_blocks.len(),
                position(self.view().blocks, index as int) == position_from(
                    self.view().blocks,
                    index as int,
                    i as int,
                ),
            decreases self.active_blocks.len() - i,
        {
            assert(self.view().blocks[i as int] == self.active_blocks@[i as int].view());
            if self.active_blocks[i].index == index {
                return Some(i);
            }
            i += 1;
        }
        None
    }

    /// Whether the block numbered `index` can take additions of the given kind.
    pub fn is_block_open_of_type(&self, index: i32, expected_type: &str) -> (r: bool)
        ensures
            r == open_of_kind(self.view(), index as int, expected_type@),
    {
        match self.find(index) {
            Some(i) => {
                assert(self.view().blocks[i as int] == self.active_blocks@[i as int].view());
                self.active_blocks[i].started && !self.active_blocks[i].stopped && text::same(
                    self.active_blocks[i].block_type.as_str(),
                    expected_type,
                )
            },
            None => false,
        }
    }

    /// Whether `n` more blocks can be numbered.
    pub fn has_block_room(&self, n: usize) -> (r: bool)
        ensures
            r == (self.view().next_block_index + n <= i32::MAX),
    {
        let room: i64 = i32::MAX as i64 - self.next_block_index as i64;
        n as u64 <= room as u64
    }

    /// The number that the next block gets.
    pub fn peek_block_index(&self) -> (r: i32)
        ensures
            r == self.view().next_block_index,
    {
        self.next_block_index
    }

    /// Hands out the next block number.
    pub fn next_block_index(&mut self) -> (r: i32)
        requires
            old(self).view().next_block_index < i32::MAX,
        ensures
            r == old(self).view().next_block_index,
            final(self).view() == (StateV {
                next_block_index: old(self).view().next_block_index + 1,
                ..old(self).view()
            }),
    {
        let index = self.next_block_index;
        self.next_block_index = self.next_block_index + 1;
        index
    }

    /// Notes whether the message holds a tool call.
    pub fn set_has_tool_use(&mut self, has: bool)
        ensures
            final(self).view() == (StateV { has_tool_use: has, ..old(self).view() }),
    {
        self.has_tool_use = has;
    }

    /// Sets the reason for the end of the message.
    pub fn set_stop_reason(&mut self, reason: &str)
        ensures
            final(self).view() == (StateV { stop_reason: Some(reason@), ..old(self).view() }),
    {
        self.stop_reason = Some(reason.to_owned());
    }

    /// Whether some block is of a kind other than thinking.
    pub fn has_non_thinking_blocks(&self) -> (r: bool)
        ensures
            r == has_other_than_thinking(self.view()),
    {
        let mut i: usize = 0;
        while i < self.active_blocks.len()
            invariant
                i <= self.active_blocks.len(),
                forall|j: int| 0 <= j < i ==> (#[trigger] self.view().blocks[j]).kind
                    == "thinking"@,
            decreases self.active_blocks.len() - i,
        {
            assert(self.view().blocks[i as int] == self.active_blocks@[i as int].view());
            if !text::same(self.active_blocks[i].block_type.as_str(), "thinking") {
                return true;
            }
            i += 1;
        }
        false
    }

    /// The reason given for the end of the message.
    pub fn get_stop_reason(&self) -> (r: String)
        ensures
            r@ == final_stop_reason(self.view()),
    {
        match &self.stop_reason {
            Some(reason) => reason.clone(),
            None => if self.has_tool_use {
                "tool_use".to_owned()
            } else {
                "end_turn".to_owned()
            },
        }
    }

    /// Starts the message, unless it has started.
    pub fn handle_message_start(&mut self, event: Json) -> (r: Option<SseEvent>)
        ensures
            final(self).view() == message_start_step(old(self).view(), event.view()).0,
            opt_view(r) == message_start_step(old(self).view(), event.view()).1,
    {
        if self.message_started {
            return None;
        }
        self.message_started = true;
        Some(SseEvent::new("message_start", event))
    }

    /// Closes the open blocks, or only the open text blocks.
    fn close_blocks(&mut self, text_only: bool) -> (r: Vec<SseEvent>)
        ensures
            final(self).view() == (StateV {
                blocks: closed_blocks(old(self).view().blocks, text_only),
                ..old(self).view()
            }),
            views(r@) == closing_events(old(self).view().blocks, text_only),
    {
        let mut events: Vec<SseEvent> = Vec::new();
        let ghost start = self.view().blocks;
        let mut i: usize = 0;
        assert(views(events@) =~= closing_events(start.take(0), text_only));
        while i < self.active_blocks.len()
            invariant
                i <= self.active_blocks.len(),
                start.len() == self.active_blocks.len(),
                old(self).view().blocks == start,
                self.view() == (StateV { blocks: self.view().blocks, ..old(self).view() }),
                forall|j: int| i <= j < start.len() ==> #[trigger] self.view().blocks[j]
                    == start[j],
                forall|j: int| 0 <= j < i ==> #[trigger] self.view().blocks[j] == closed_block(
                    start[j],
                    text_only,
                ),
                views(events@) == closing_events(start.take(i as int), text_only),
            decreases self.active_blocks.len() - i,
        {
            proof {
                assert(start.take(i + 1).drop_last() =~= start.take(i as int));
                assert(start.take(i + 1).last() == start[i as int]);
                assert(self.view().blocks[i as int] == self.active_blocks@[i as int].view());
            }
            let open = self.active_blocks[i].started && !self.active_blocks[i].stopped;
            if open && (!text_only || text::same(
                self.active_blocks[i].block_type.as_str(),
                "text",
            )) {
                emit(&mut events, sse::stop(self.active_blocks[i].index));
                let ghost before = self.active_blocks@;
                self.active_blocks[i].stopped = true;
                proof {
                    assert forall|j: int|
                        0 <= j < start.len() && j != i implies #[trigger] self.view().blocks[j]
                        == block_views(before)[j] by {
                        assert(self.active_blocks@[j] == before[j]);
                    }
                }
            }
            i += 1;
        }
        proof {
            assert(start.take(start.len() as int) =~= start);
            assert(self.view().blocks =~= closed_blocks(start, text_only));
        }
        events
    }

    /// Starts a block, unless it has started; a tool call closes the open text blocks first.
    pub fn handle_content_block_start(&mut self, index: i32, block_type: &str, data: Json) -> (r:
        Vec<SseEvent>)
        ensures
            final(self).view() == block_start_step(
                old(self).view(),
                index as int,
                block_type@,
                data.view(),
            ).0,
            views(r@) == block_start_step(
                old(self).view(),
                index as int,
                block_type@,
                data.view(),
            ).1,
            state_ok(old(self).view()) ==> state_ok(final(self).view()),
    {
        let mut events: Vec<SseEvent> = Vec::new();
        assert(views(events@) =~= Seq::empty());
        if text::same(block_type, "tool_use") {
            self.has_tool_use = true;
            events = self.close_blocks(true);
        }
        let ghost s1 = self.view();
        let ghost before = self.active_blocks@;
        proof {
            lemma_position_from(s1.blocks, index as int, 0);
        }
        match self.find(index) {
            Some(i) => {
                assert(s1.blocks[i as int] == before[i as int].view());
                if self.active_blocks[i].started {
                    return events;
                }
                self.active_blocks[i].started = true;
                assert(self.view().blocks =~= s1.blocks.update(
                    i as int,
                    BlockV { started: true, ..s1.blocks[i as int] },
                ));
            },
            None => {
                self.active_blocks.push(
                    BlockState {
                        index,
                        block_type: block_type.to_owned(),
                        started: true,
                        stopped: false,
                    },
                );
                assert(self.view().blocks =~= s1.blocks.push(
                    BlockV {
                        index: index as int,
                        kind: block_type@,
                        started: true,
                        stopped: false,
                    },
                ));
            },
        }
        emit(&mut events, SseEvent::new("content_block_start", data));
        events
    }

    /// Adds to an open block.
    pub fn handle_content_block_delta(&self, index: i32, data: Json) -> (r: Option<SseEvent>)
        ensures
            opt_view(r) == block_delta_step(self.view(), index as int, data.view()),
    {
        match self.find(index) {
            Some(i) => {
                assert(self.view().blocks[i as int] == self.active_blocks@[i as int].view());
                if !self.active_blocks[i].started || self.active_blocks[i].stopped {
                    return None;
                }
                Some(SseEvent::new("content_block_delta", data))
            },
            None => None,
        }
    }

    /// Closes a block, unless it is closed.
    pub fn handle_content_block_stop(&mut self, index: i32) -> (r: Option<SseEvent>)
        ensures
            final(self).view() == block_stop_step(old(self).view(), index as int).0,
            opt_view(r) == block_stop_step(old(self).view(), index as int).1,
            state_ok(old(self).view()) ==> state_ok(final(self).view()),
    {
        let ghost s = self.view();
        match self.find(index) {
            Some(i) => {
                assert(s.blocks[i as int] == self.active_blocks@[i as int].view());
                if self.active_blocks[i].stopped {
                    return None;
                }
                self.active_blocks[i].stopped = true;
                assert(self.view().blocks =~= s.blocks.update(
                    i as int,
                    BlockV { stopped: true, ..s.blocks[i as int] },
                ));
                Some(sse::stop(index))
            },
            None => None,
        }
    }

    /// Ends the message.
    pub fn generate_final_events(
        &mut self,
        input_tokens: i32,
        output_tokens: i32,
        cache_creation_input_tokens: i32,
        cache_read_input_tokens: i32,
    ) -> (r: Vec<SseEvent>)
        ensures
            final(self).view() == final_step(
                old(self).view(),
                (Usage {
                    input_tokens,
                    output_tokens,
                    cache_creation_input_tokens,
                    cache_read_input_tokens,
                }),
            ).0,
            views(r@) == final_step(
                old(self).view(),
                (Usage {
                    input_tokens,
                    output_tokens,
                    cache_creation_input_tokens,
                    cache_read_input_tokens,
                }),
            ).1,
            state_ok(old(self).view()) ==> state_ok(final(self).view()),
    {
        let usage = Usage {
            input_tokens,
            output_tokens,
            cache_creation_input_tokens,
            cache_read_input_tokens,
        };
        let mut events = self.close_blocks(false);
        if !self.message_delta_sent {
            self.message_delta_sent = true;
            let reason = self.get_stop_reason();
            emit(&mut events, sse::message_delta(reason.as_str(), usage));
        }
        if !self.message_ended {
            self.message_ended = true;
            emit(&mut events, sse::message_stop());
        }
        assert(views(events@) =~= final_step(old(self).view(), usage).1);
        events
    }
}

} // verus!
