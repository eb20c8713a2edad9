//! The course of one streamed answer: what is sent when, and what is recorded at its end.

use crate::accounting::{bad_call, int_four, interrupted, success, Closing, ClosingV};
use crate::buffered::{buffer_all, release, BufferedStreamContext};
use crate::events::Event;
use crate::gather::event_views;
use crate::sse;
use crate::sse::{emit_all, no_events, ping_frame, sse_frame, views, SseEvent, SseEventV};
use crate::state::opt_text;
use crate::stream::StreamContext;
use crate::stream_model as model;
use crate::stream_model::StreamV;
use crate::tokens::split;
use vstd::prelude::*;

verus! {

/// Seconds between two frames that keep a connection alive.
pub const PING_INTERVAL_SECS: u64 = 25;

/// The final counts of a stream: input, output, cache writes and cache reads.
pub open spec fn four_counts(s: StreamV) -> (int, int, int, int) {
    let (input, creation, read) = split(s.cache_usage, model::resolved_input(s));
    (input, s.output_tokens, creation, read)
}

/// The end of a stream that the upstream ended: a success, unless a tool call could not be used.
pub open spec fn ended(s: StreamV) -> ClosingV {
    match model::error_message(s) {
        Some(message) => bad_call(four_counts(s), message),
        None => success(four_counts(s)),
    }
}

/// The end of a stream that the upstream broke off.
pub open spec fn broken_off(s: StreamV, message: Seq<char>, bytes: int) -> ClosingV {
    interrupted(four_counts(s), message, Some(bytes))
}

/// The texts of a list.
pub open spec fn texts(frames: Seq<String>) -> Seq<Seq<char>> {
    frames.map_values(|f: String| f@)
}

/// The frames of events.
pub open spec fn wire(events: Seq<SseEventV>) -> Seq<Seq<char>> {
    events.map_values(|e: SseEventV| sse_frame(e))
}

/// A count of bytes that stops at the greatest `u64`.
pub open spec fn byte_count(a: int, b: int) -> int {
    if a + b > u64::MAX {
        u64::MAX as int
    } else {
        a + b
    }
}

fn add_bytes(a: u64, b: u64) -> (r: u64)
    ensures
        r == byte_count(a as int, b as int),
{
    if a > u64::MAX - b {
        u64::MAX
    } else {
        a + b
    }
}

/// Writes events as frames.
pub fn render(events: &Vec<SseEvent>) -> (r: Vec<String>)
    ensures
        texts(r@) == wire(views(events@)),
{
    let ghost all = wire(views(events@));
    let mut out: Vec<String> = Vec::new();
    let mut i: usize = 0;
    assert(texts(out@) =~= all.take(0));
    while i < events.len()
        invariant
            i <= events.len(),
            all == wire(views(events@)),
            texts(out@) == all.take(i as int),
        decreases events.len() - i,
    {
        let ghost before = out@;
        let frame = events[i].to_sse_string();
        out.push(frame);
        proof {
            assert(texts(out@) =~= texts(before).push(frame@));
            assert(views(events@)[i as int] == events@[i as int].view());
            assert(all.take(i + 1) =~= all.take(i as int).push(all[i as int]));
        }
        i += 1;
    }
    assert(all.take(events.len() as int) =~= all);
    out
}

/// The frame that keeps a connection alive.
pub fn tick() -> (r: Vec<String>)
    ensures
        texts(r@) == seq![ping_frame()],
{
    let mut out: Vec<String> = Vec::new();
    out.push(sse::create_ping_sse());
    assert(texts(out@) =~= seq![ping_frame()]);
    out
}

/// The end of a stream that the upstream ended.
fn close_ended(counts: (i32, i32, i32, i32), error: Option<String>) -> (r: Closing)
    ensures
        r.view() == (match opt_text(error) {
            Some(message) => bad_call(int_four(counts), message),
            None => success(int_four(counts)),
        }),
{
    match error {
        Some(message) => Closing::bad_call(counts, message.as_str()),
        None => Closing::success(counts),
    }
}

/// A streamed answer under way.
pub struct StreamSession {
    pub ctx: StreamContext,
    pub received_bytes: u64,
}

impl StreamSession {
    /// Starts an answer, and gives the frames that go out at once.
    pub fn start(ctx: StreamContext) -> (r: (StreamSession, Vec<String>))
        requires
            ctx.view().state.next_block_index < i32::MAX,
        ensures
            r.0.received_bytes == 0,
            r.0.ctx.view() == model::initial_step(ctx.view()).0,
            texts(r.1@) == wire(model::initial_step(ctx.view()).1),
    {
        let mut ctx = ctx;
        let events = ctx.generate_initial_events();
        let frames = render(&events);
        (StreamSession { ctx, received_bytes: 0 }, frames)
    }

    /// Takes in a chunk, of the given size and with the given events, and gives the frames that
    /// go out.
    pub fn on_chunk(&mut self, bytes: u64, events: &Vec<Event>) -> (r: Vec<String>)
        requires
            old(self).ctx.view().state.next_block_index + 3 * events.len() <= i32::MAX,
        ensures
            final(self).received_bytes == byte_count(
                old(self).received_bytes as int,
                bytes as int,
            ),
            final(self).ctx.view() == model::events_step(
                old(self).ctx.view(),
                event_views(events@),
            ).0,
            texts(r@) == wire(
                model::events_step(old(self).ctx.view(), event_views(events@)).1,
            ),
    {
        self.received_bytes = add_bytes(self.received_bytes, bytes);
        let ghost all = event_views(events@);
        let ghost start = self.ctx.view();
        let mut out = no_events();
        let mut i: usize = 0;
        assert(all.take(0) =~= Seq::empty());
        while i < events.len()
            invariant
                i <= events.len(),
                all == event_views(events@),
                start.state.next_block_index + 3 * events.len() <= i32::MAX,
                self.ctx.view().state.next_block_index <= start.state.next_block_index + 3 * i,
                (self.ctx.view(), views(out@)) == model::events_step(start, all.take(i as int)),
                self.received_bytes == byte_count(old(self).received_bytes as int, bytes as int),
            decreases events.len() - i,
        {
            proof {
                assert(all.take(i + 1).drop_last() =~= all.take(i as int));
                assert(all.take(i + 1).last() == events@[i as int].view());
            }
            let more = self.ctx.process_kiro_event(&events[i]);
            emit_all(&mut out, more);
            i += 1;
        }
        assert(all.take(events.len() as int) =~= all);
        render(&out)
    }

    /// The final counts: input, output, cache writes and cache reads.
    fn counts(&self) -> (r: (i32, i32, i32, i32))
        ensures
            int_four(r) == four_counts(self.ctx.view()),
    {
        let (input, creation, read) = self.ctx.resolved_usage();
        (input, self.ctx.output_tokens, creation, read)
    }

    /// Ends the answer, as the upstream has ended its response.
    pub fn end(self) -> (r: (Vec<String>, Closing))
        requires
            self.ctx.view().state.next_block_index + self.ctx.view().pending.len() + 5 <= i32::MAX,
        ensures
            texts(r.0@) == wire(model::finish_stream(self.ctx.view()).1),
            r.1.view() == ended(model::finish_stream(self.ctx.view()).0),
    {
        let mut session = self;
        let events = session.ctx.generate_final_events();
        let error = session.ctx.tool_json_error_message();
        (render(&events), close_ended(session.counts(), error))
    }

    /// Ends the answer, as the upstream's response broke off.
    pub fn break_off(self, message: &str) -> (r: (Vec<String>, Closing))
        requires
            self.ctx.view().state.next_block_index + self.ctx.view().pending.len() + 5 <= i32::MAX,
        ensures
            texts(r.0@) == wire(model::finish_stream(self.ctx.view()).1),
            r.1.view() == broken_off(
                model::finish_stream(self.ctx.view()).0,
                message@,
                self.received_bytes as int,
            ),
    {
        let mut session = self;
        let events = session.ctx.generate_final_events();
        let closing = Closing::interrupted(
            session.counts(),
            message,
            Some(session.received_bytes),
        );
        (render(&events), closing)
    }
}

/// A streamed answer under way that is held back until its end.
pub struct BufferedSession {
    pub ctx: BufferedStreamContext,
    pub received_bytes: u64,
}

impl BufferedSession {
    /// Takes in a chunk, of the given size and with the given events; nothing goes out.
    pub fn on_chunk(&mut self, bytes: u64, events: &Vec<Event>)
        requires
            old(self).ctx.view().inner.state.next_block_index + 4 * events.len() <= i32::MAX,
        ensures
            final(self).received_bytes == byte_count(
                old(self).received_bytes as int,
                bytes as int,
            ),
            final(self).ctx.view() == buffer_all(old(self).ctx.view(), event_views(events@)),
    {
        self.received_bytes = add_bytes(self.received_bytes, bytes);
        let ghost all = event_views(events@);
        let ghost start = self.ctx.view();
        let mut i: usize = 0;
        assert(all.take(0) =~= Seq::empty());
        while i < events.len()
            invariant
                i <= events.len(),
                all == event_views(events@),
                start.inner.state.next_block_index + 4 * events.len() <= i32::MAX,
                self.ctx.view().inner.state.next_block_index
                    <= start.inner.state.next_block_index + 4 * i,
                self.ctx.view() == buffer_all(start, all.take(i as int)),
                self.received_bytes == byte_count(old(self).received_bytes as int, bytes as int),
            decreases events.len() - i,
        {
            proof {
                assert(all.take(i + 1).drop_last() =~= all.take(i as int));
                assert(all.take(i + 1).last() == events@[i as int].view());
            }
            self.ctx.process_and_buffer(&events[i]);
            i += 1;
        }
        assert(all.take(events.len() as int) =~= all);
    }

    /// Ends the answer, as the upstream has ended its response.
    pub fn end(self) -> (r: (Vec<String>, Closing))
        requires
            self.ctx.view().inner.state.next_block_index + self.ctx.view().inner.pending.len() + 6
                <= i32::MAX,
        ensures
            texts(r.0@) == wire(release(self.ctx.view()).1),
            r.1.view() == ended(release(self.ctx.view()).0.inner),
    {
        let mut session = self;
        let events = session.ctx.finish_and_get_all_events();
        let counts = session.ctx.final_usage();
        let error = session.ctx.tool_json_error_message();
        (render(&events), close_ended(counts, error))
    }

    /// Ends the answer, as the upstream's response broke off.
    pub fn break_off(self, message: &str) -> (r: (Vec<String>, Closing))
        requires
            self.ctx.view().inner.state.next_block_index + self.ctx.view().inner.pending.len() + 6
                <= i32::MAX,
        ensures
            texts(r.0@) == wire(release(self.ctx.view()).1),
            r.1.view() == broken_off(
                release(self.ctx.view()).0.inner,
                message@,
                self.received_bytes as int,
            ),
    {
        let mut session = self;
        let events = session.ctx.finish_and_get_all_events();
        let counts = session.ctx.final_usage();
        let closing = Closing::interrupted(counts, message, Some(session.received_bytes));
        (render(&events), closing)
    }
}

} // verus!
