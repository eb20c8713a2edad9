//! What a streamed answer sends on the wire, and what is recorded of it.

use crate::accounting::{AttemptOutcome, Closing};
use crate::answer_laws::lemma_message_keys;
use crate::buffered::{buffer_all, law_counts_agree, release, unfilled, BufferedStreamContext};
use crate::buffered::BufferedV;
use crate::ending_laws::{ends_with_counts, fits, lemma_delta_keys, lemma_events_end};
use crate::ending_laws::{lemma_finish_tells, lemma_told_last, told_last};
use crate::events::{Event, EventV};
use crate::gather::event_views;
use crate::json::{field, printed, string_field, JsonV};
use crate::session::{render, texts, tick, wire, BufferedSession, StreamSession};
use crate::sse::{create_error_sse, create_ping_sse, message_delta_event, message_start_event};
use crate::sse::{usage_json, views, SseEvent, SseEventV, Usage};
use crate::stream::StreamContext;
use crate::stream_laws::{in_order, lemma_initial_step, unsent};
use crate::stream_model::{event_step, events_step, finish_stream, initial_step, resolved_input};
use crate::stream_model::{transcript, usage_of, StreamV};
use crate::text_map::TextMap;
use crate::tokens::{divided, lemma_divided, split};
use vstd::prelude::*;

verus! {

/// A frame that carries an event: a line with its name, a line with its data, and an empty line.
pub open spec fn frames(frame: Seq<char>, name: Seq<char>, data: JsonV) -> bool {
    frame == "event: "@ + name + "\ndata: "@ + printed(data) + "\n\n"@
}

/// Every event goes out as one frame with its own name and its own data.
pub proof fn law_event_is_framed(e: SseEvent, r: String)
    requires
        call_ensures(SseEvent::to_sse_string, (&e,), r),
    ensures
        frames(r@, e.event@, e.data.view()),
{
}

/// Events go out one frame each, in their order.
pub proof fn law_events_are_framed_in_order(events: Vec<SseEvent>, r: Vec<String>, i: int)
    requires
        call_ensures(render, (&events,), r),
        0 <= i < events@.len(),
    ensures
        r@.len() == events@.len(),
        frames(r@[i]@, events@[i].event@, events@[i].data.view()),
{
    assert(texts(r@) == wire(views(events@)));
    assert(texts(r@).len() == r@.len());
    assert(wire(views(events@)).len() == events@.len());
    assert(texts(r@)[i] == r@[i]@);
    assert(views(events@)[i] == events@[i].view());
    assert(wire(views(events@))[i] == crate::sse::sse_frame(views(events@)[i]));
}

/// The frame that tells of an error has its type and its message, each under its own name.
pub proof fn law_error_is_framed(error_type: &str, message: &str, r: String)
    requires
        call_ensures(create_error_sse, (error_type, message), r),
    ensures
        exists|data: JsonV| #[trigger]
            frames(r@, "error"@, data) && string_field(data, "type"@) == Some("error"@) && (field(
                data,
                "error"@,
            ) matches Some(detail) && string_field(detail, "type"@) == Some(error_type@)
                && string_field(detail, "message"@) == Some(message@)),
{
    reveal_strlit("type");
    reveal_strlit("error");
    reveal_strlit("message");
    assert("type"@.len() == 4 && "error"@.len() == 5 && "message"@.len() == 7);
    let data = crate::sse::error_event(error_type@, message@).data;
    assert(frames(r@, "error"@, data));
}

/// Between two events the connection is kept alive by a ping, and by nothing else.
pub proof fn law_ping_keeps_alive(r: Vec<String>, frame: String)
    requires
        call_ensures(tick, (), r),
        call_ensures(create_ping_sse, (), frame),
    ensures
        r@.len() == 1,
        r@[0]@ == frame@,
        frame@ == "event: ping\ndata: {\"type\": \"ping\"}\n\n"@,
{
    assert(texts(r@).len() == r@.len());
    assert(texts(r@)[0] == r@[0]@);
}

/// A streamed answer that the upstream ended is recorded as a success with the very counts that
/// the client was told: input, output, cache writes and cache reads, divided as the prompt is.
pub proof fn law_told_counts_are_recorded(s: StreamSession, r: (Vec<String>, Closing))
    requires
        call_ensures(StreamSession::end, (s,), r),
        in_order(s.ctx.view()),
        finish_stream(s.ctx.view()).0.tool_json_error is None,
        fits(resolved_input(s.ctx.view())),
        fits(finish_stream(s.ctx.view()).0.output_tokens),
    ensures
        texts(r.0@) == wire(finish_stream(s.ctx.view()).1),
        exists|reason: Seq<char>|
            ends_with_counts(
                finish_stream(s.ctx.view()).1,
                reason,
                (
                    r.1.counts.0 as int,
                    r.1.counts.1 as int,
                    r.1.counts.2 as int,
                    r.1.counts.3 as int,
                ),
            ),
        divided(
            s.ctx.cache_usage,
            (match s.ctx.context_input_tokens {
                Some(n) => n,
                None => s.ctx.input_tokens,
            }) as int,
            r.1.counts.0 as int,
            r.1.counts.2 as int,
            r.1.counts.3 as int,
        ),
        r.1.status@ == "success"@,
        r.1.error_message is None,
{
    lemma_finish_tells(s.ctx.view());
    let t = finish_stream(s.ctx.view()).0;
    let (a, c, d) = split(s.ctx.view().cache_usage, resolved_input(s.ctx.view()));
    lemma_divided(s.ctx.cache_usage, resolved_input(s.ctx.view()));
    assert(crate::accounting::int_four(r.1.counts) == (a, t.output_tokens, c, d));
    assert(r.1.view().status == "success"@);
}

/// A streamed answer with a tool call that cannot be used is recorded as an error, with the
/// message that the client gets.
pub proof fn law_unusable_call_is_recorded(s: StreamSession, r: (Vec<String>, Closing))
    requires
        call_ensures(StreamSession::end, (s,), r),
        finish_stream(s.ctx.view()).0.tool_json_error is Some,
    ensures
        r.1.status@ == "error"@,
        r.1.error_type == Some(AttemptOutcome::BadRequest),
        r.1.error_message matches Some(m) && m@ == crate::tool_json::error_text(
            finish_stream(s.ctx.view()).0.tool_json_error->0,
        ),
{
}

/// A streamed answer that broke off still ends well for the client, but is recorded as
/// interrupted, behind the bytes that were received; the same holds of one that is held back.
pub proof fn law_broken_stream_is_recorded(
    s: StreamSession,
    message: &str,
    r: (Vec<String>, Closing),
    b: BufferedSession,
    q: (Vec<String>, Closing),
)
    requires
        call_ensures(StreamSession::break_off, (s, message), r),
        call_ensures(BufferedSession::break_off, (b, message), q),
    ensures
        texts(r.0@) == wire(finish_stream(s.ctx.view()).1),
        texts(q.0@) == wire(release(b.ctx.view()).1),
        r.1.status@ == "error"@ && q.1.status@ == "error"@,
        r.1.trace_status@ == "interrupted"@ && q.1.trace_status@ == "interrupted"@,
        r.1.error_type == Some(AttemptOutcome::StreamInterrupted),
        q.1.error_type == Some(AttemptOutcome::StreamInterrupted),
        r.1.error_message matches Some(m) && m@ == message@,
        q.1.error_message matches Some(m) && m@ == message@,
        r.1.interrupted_after_bytes == Some(s.received_bytes),
        q.1.interrupted_after_bytes == Some(b.received_bytes),
{
}

/// Every byte that is received is counted, in a stream that is held back as well; the count stops
/// at the greatest `u64`.
pub proof fn law_received_bytes_are_counted(
    s: &mut StreamSession,
    b: &mut BufferedSession,
    bytes: u64,
    events: Vec<Event>,
    r: Vec<String>,
)
    requires
        call_ensures(StreamSession::on_chunk, (s, bytes, &events), r),
        call_ensures(BufferedSession::on_chunk, (b, bytes, &events), ()),
    ensures
        old(s).received_bytes + bytes <= u64::MAX ==> final(s).received_bytes
            == old(s).received_bytes + bytes,
        old(s).received_bytes + bytes > u64::MAX ==> final(s).received_bytes == u64::MAX,
        old(b).received_bytes + bytes <= u64::MAX ==> final(b).received_bytes
            == old(b).received_bytes + bytes,
        old(b).received_bytes + bytes > u64::MAX ==> final(b).received_bytes == u64::MAX,
{
}

/// A stream to a client takes over the model, the estimate of the input, whether the client asked
/// for thinking, and the names of its tools; it has sent nothing yet, and nothing is under way.
pub open spec fn takes_over(
    s: StreamV,
    model: Seq<char>,
    input_tokens: int,
    thinking_enabled: bool,
    names: Map<Seq<char>, String>,
) -> bool {
    &&& s.model == model
    &&& s.input_tokens == input_tokens
    &&& s.thinking_enabled == thinking_enabled
    &&& s.tool_name_map == names
    &&& unsent(s)
    &&& s.context_input_tokens is None
    &&& s.output_tokens == 0
    &&& s.pending.len() == 0
    &&& s.tool_json_error is None
    &&& s.thinking_buffer.len() == 0
    &&& s.filter.buffer.len() == 0 && !s.filter.stripping
}

/// A stream is made with what it is given, whether its id is given, new, or that of a stream that
/// is held back.
pub proof fn law_stream_takes_what_it_is_given(
    message_id: String,
    model: &str,
    input_tokens: i32,
    thinking_enabled: bool,
    names: TextMap<String>,
    given: StreamContext,
    fresh: StreamContext,
    held: BufferedStreamContext,
)
    requires
        call_ensures(
            StreamContext::with_message_id,
            (message_id, model, input_tokens, thinking_enabled, names),
            given,
        ),
        call_ensures(
            StreamContext::new_with_thinking,
            (model, input_tokens, thinking_enabled, names),
            fresh,
        ),
        call_ensures(
            BufferedStreamContext::new,
            (model, input_tokens, thinking_enabled, names),
            held,
        ),
    ensures
        given.view().message_id == message_id@,
        takes_over(given.view(), model@, input_tokens as int, thinking_enabled, names.view()),
        takes_over(fresh.view(), model@, input_tokens as int, thinking_enabled, names.view()),
        takes_over(
            held.view().inner,
            model@,
            input_tokens as int,
            thinking_enabled,
            names.view(),
        ),
        held.view().held.len() == 0,
        !held.view().started,
{
}

proof fn lemma_wire_concat(a: Seq<SseEventV>, b: Seq<SseEventV>)
    ensures
        wire(a + b) == wire(a) + wire(b),
{
    assert(wire(a + b) =~= wire(a) + wire(b));
}

/// A session sends what the stream makes of the upstream events, from the first frame to the last:
/// at its start, at each chunk, and at its end.
pub proof fn law_session_sends_the_stream(
    ctx: StreamContext,
    begun: (StreamSession, Vec<String>),
    s: &mut StreamSession,
    bytes: u64,
    events: Vec<Event>,
    more: Vec<String>,
    ended: (Vec<String>, Closing),
)
    requires
        call_ensures(StreamSession::start, (ctx,), begun),
        *old(s) == begun.0,
        call_ensures(StreamSession::on_chunk, (s, bytes, &events), more),
        call_ensures(StreamSession::end, (*final(s),), ended),
    ensures
        texts(begun.1@) + texts(more@) + texts(ended.0@) == wire(
            transcript(ctx.view(), event_views(events@)),
        ),
        begun.0.received_bytes == 0,
{
    let (s1, e1) = initial_step(ctx.view());
    let (s2, e2) = events_step(s1, event_views(events@));
    let e3 = finish_stream(s2).1;
    lemma_wire_concat(e1, e2);
    lemma_wire_concat(e1 + e2, e3);
}

/// A chunk is taken in as its parts would be, one after the other: however the upstream's events
/// are cut into chunks, the same frames go out.
pub proof fn law_chunks_do_not_matter(s: StreamV, a: Seq<EventV>, b: Seq<EventV>)
    ensures
        events_step(s, a + b).0 == events_step(events_step(s, a).0, b).0,
        events_step(s, a + b).1 == events_step(s, a).1 + events_step(events_step(s, a).0, b).1,
    decreases b.len(),
{
    if b.len() == 0 {
        assert(a + b =~= a);
        assert(events_step(s, a).1 + Seq::<SseEventV>::empty() =~= events_step(s, a).1);
    } else {
        law_chunks_do_not_matter(s, a, b.drop_last());
        assert((a + b).drop_last() =~= a + b.drop_last());
        let t = events_step(s, a).0;
        let (u, e) = events_step(t, b.drop_last());
        let last = event_step(u, b.last()).1;
        assert(events_step(s, a).1 + e + last =~= events_step(s, a).1 + (e + last));
    }
}

/// A held-back stream starts and ends its message with the same input counts, those that are known
/// at its end: the last count that the upstream told, or else the estimate, divided as the prompt
/// is.
pub proof fn law_held_back_stream_tells_final_counts(b: BufferedV, events: Seq<EventV>)
    requires
        unfilled(b),
        b.inner.context_input_tokens is None,
        events_step(initial_step(b.inner).0, events).0.tool_json_error is None,
        i32::MIN <= resolved_input(events_step(initial_step(b.inner).0, events).0) <= i32::MAX,
    ensures
        ({
            let sent = release(buffer_all(b, events)).1;
            exists|a: int, c: int, d: int|
                #![trigger divided(b.inner.cache_usage, a + c + d, a, c, d)]
                divided(b.inner.cache_usage, a + c + d, a, c, d) && told_last(
                    events,
                    b.inner.input_tokens,
                    a + c + d,
                ) && starts_with_counts(sent, b.inner, (a, c, d)) && ends_with_input(
                    sent,
                    (a, c, d),
                )
        }),
{
    law_counts_agree(b, events);
    lemma_initial_step(b.inner);
    crate::call_laws::lemma_start_is_plain(b.inner);
    let s1 = initial_step(b.inner).0;
    lemma_events_end(s1, events);
    let s2 = events_step(s1, events).0;
    lemma_told_last(s2, events, b.inner.input_tokens);
    let total = resolved_input(s2);
    let (a, c, d) = split(b.inner.cache_usage, total);
    lemma_divided(b.inner.cache_usage, total);
    assert(divided(b.inner.cache_usage, a + c + d, a, c, d));
    let sent = release(buffer_all(b, events)).1;
    lemma_message_keys();
    lemma_start_keys(b.inner.message_id, b.inner.model, usage_of((a, c, d), 1));
    let (i, reason, output) = choose|i: int, reason: Seq<char>, output: int|
        0 <= i < sent.len() && #[trigger] sent[i] == #[trigger] message_delta_event(
            reason,
            usage_of((a, c, d), output),
        );
    lemma_delta_keys(reason, usage_of((a, c, d), output));
    assert(tells_input(field(sent[i].data, "usage"@)->0, (a, c, d)));
}

/// Counts of new input, cache writes and cache reads, each under its own name.
pub open spec fn tells_input(usage: JsonV, counts: (int, int, int)) -> bool {
    &&& field(usage, "input_tokens"@) == Some(JsonV::Int(counts.0))
    &&& field(usage, "cache_creation_input_tokens"@) == Some(JsonV::Int(counts.1))
    &&& field(usage, "cache_read_input_tokens"@) == Some(JsonV::Int(counts.2))
}

/// The first event starts the message of the stream, with the given input counts.
pub open spec fn starts_with_counts(
    sent: Seq<SseEventV>,
    s: StreamV,
    counts: (int, int, int),
) -> bool {
    &&& sent.len() > 0
    &&& sent[0].event == "message_start"@
    &&& field(sent[0].data, "message"@) matches Some(m) && string_field(m, "id"@) == Some(
        s.message_id,
    ) && string_field(m, "model"@) == Some(s.model) && (field(m, "usage"@) matches Some(u)
        && tells_input(u, counts))
}

/// The event with the final counts has the given input counts.
pub open spec fn ends_with_input(sent: Seq<SseEventV>, counts: (int, int, int)) -> bool {
    exists|i: int|
        0 <= i < sent.len() && (#[trigger] sent[i]).event == "message_delta"@ && (field(
            sent[i].data,
            "usage"@,
        ) matches Some(u) && tells_input(u, counts))
}

proof fn lemma_start_keys(id: Seq<char>, model: Seq<char>, usage: Usage)
    ensures
        ({
            let data = message_start_event(id, model, usage).data;
            field(data, "message"@) matches Some(m) && string_field(m, "id"@) == Some(id)
                && string_field(m, "model"@) == Some(model) && field(m, "usage"@) == Some(
                usage_json(usage),
            )
        }),
{
    reveal_strlit("type");
    reveal_strlit("message");
    reveal_strlit("id");
    reveal_strlit("role");
    reveal_strlit("model");
    reveal_strlit("content");
    reveal_strlit("stop_reason");
    reveal_strlit("stop_sequence");
    reveal_strlit("usage");
    assert("type"@.len() == 4 && "message"@.len() == 7 && "id"@.len() == 2 && "role"@.len() == 4
        && "model"@.len() == 5 && "content"@.len() == 7 && "stop_reason"@.len() == 11
        && "stop_sequence"@.len() == 13 && "usage"@.len() == 5);
    assert("type"@[0] == 't' && "role"@[0] == 'r' && "model"@[0] == 'm' && "usage"@[0] == 'u');
}

/// A held-back answer that the upstream ended is recorded with the counts of its stream, divided
/// as the prompt is, and as a success unless a tool call could not be used.
pub proof fn law_held_back_counts_are_recorded(b: BufferedSession, r: (Vec<String>, Closing))
    requires
        call_ensures(BufferedSession::end, (b,), r),
    ensures
        ({
            let end = release(b.ctx.view()).0.inner;
            &&& divided(
                end.cache_usage,
                resolved_input(end),
                r.1.counts.0 as int,
                r.1.counts.2 as int,
                r.1.counts.3 as int,
            )
            &&& r.1.counts.1 == end.output_tokens
            &&& r.1.status@ == (if end.tool_json_error is None {
                "success"@
            } else {
                "error"@
            })
            &&& texts(r.0@) == wire(release(b.ctx.view()).1)
        }),
{
    let end = release(b.ctx.view()).0.inner;
    lemma_divided(end.cache_usage, resolved_input(end));
}

} // verus!
