//! A stream that is held back until its token counts are known.

use crate::events::{Event, EventV};
use crate::json::{field, Json, JsonV};
use crate::sse::{emit_all, message_delta_event, message_start_event, message_start_json, num};
use crate::sse::{usage_json, views, SseEvent, SseEventV};
use crate::protocol::{read_all, unread, ProgressV};
use crate::state::opt_text;
use crate::stream_laws::{law_stream_is_in_order, lemma_events_step, lemma_initial_step, unsent};
use crate::stream_laws::whole;
use crate::stream::StreamContext;
use crate::stream_model as model;
use crate::stream_model::{event_step, final_usage, finish_stream, initial_step, resolved_input};
use crate::stream_model::{usage_of, StreamV};
use crate::text;
use crate::text_map::TextMap;
use crate::tokens::{split, CacheUsage};
use vstd::prelude::*;

verus! {

/// What a held-back stream is.
pub struct BufferedV {
    pub inner: StreamV,
    pub held: Seq<SseEventV>,
    pub started: bool,
}

/// The input counts of a stream: new input, cache writes and cache reads.
pub open spec fn input_counts(s: StreamV) -> (int, int, int) {
    split(s.cache_usage, resolved_input(s))
}

/// A held-back stream whose start has been made, if it was not before.
pub open spec fn started(b: BufferedV) -> BufferedV {
    if b.started {
        b
    } else {
        let (inner, events) = initial_step(b.inner);
        BufferedV { inner, held: b.held + events, started: true }
    }
}

/// A held-back stream after one more upstream event.
pub open spec fn buffer_step(b: BufferedV, e: EventV) -> BufferedV {
    let b1 = started(b);
    let (inner, events) = event_step(b1.inner, e);
    BufferedV { inner, held: b1.held + events, ..b1 }
}

/// The object `v` with `value` under `key`; nothing else is changed.
pub open spec fn with_field(v: JsonV, key: Seq<char>, value: JsonV) -> JsonV {
    match v {
        JsonV::Object(m) => JsonV::Object(m.insert(key, value)),
        _ => v,
    }
}

/// A `usage` object with the given input counts.
pub open spec fn with_counts(usage: JsonV, counts: (int, int, int)) -> JsonV {
    with_field(
        with_field(
            with_field(usage, "input_tokens"@, num(counts.0)),
            "cache_creation_input_tokens"@,
            num(counts.1),
        ),
        "cache_read_input_tokens"@,
        num(counts.2),
    )
}

/// A payload that starts a message, with the given input counts.
pub open spec fn with_message_counts(data: JsonV, counts: (int, int, int)) -> JsonV {
    match field(data, "message"@) {
        Some(message) => match field(message, "usage"@) {
            Some(usage) => with_field(
                data,
                "message"@,
                with_field(message, "usage"@, with_counts(usage, counts)),
            ),
            None => data,
        },
        None => data,
    }
}

/// An event with the given input counts, where it starts a message.
pub open spec fn corrected(e: SseEventV, counts: (int, int, int)) -> SseEventV {
    if e.event == "message_start"@ {
        SseEventV { data: with_message_counts(e.data, counts), ..e }
    } else {
        e
    }
}

/// Events with the given input counts, where they start a message.
pub open spec fn all_corrected(events: Seq<SseEventV>, counts: (int, int, int)) -> Seq<SseEventV> {
    events.map_values(|e: SseEventV| corrected(e, counts))
}

/// A held-back stream at its end: what is left of it, and what is let go.
pub open spec fn release(b: BufferedV) -> (BufferedV, Seq<SseEventV>) {
    let b1 = started(b);
    let (inner, events) = finish_stream(b1.inner);
    (
        BufferedV { inner, held: Seq::empty(), ..b1 },
        all_corrected(b1.held + events, input_counts(b1.inner)),
    )
}

/// Two streams report the same input counts.
pub open spec fn same_counts(a: StreamV, b: StreamV) -> bool {
    a.cache_usage == b.cache_usage && a.input_tokens == b.input_tokens && a.context_input_tokens
        == b.context_input_tokens && a.state.message_delta_sent == b.state.message_delta_sent
}

proof fn lemma_calls_keep_counts(s: StreamV, calls: Seq<crate::tool_json::CompletedV>)
    ensures
        same_counts(s, model::calls_step(s, calls).0),
    decreases calls.len(),
{
    if calls.len() > 0 {
        lemma_calls_keep_counts(s, calls.drop_last());
    }
}

proof fn lemma_content_keeps_counts(s: StreamV, content: Seq<char>)
    ensures
        same_counts(s, model::content_step(s, content).0),
{
    let s0 = StreamV { thinking_buffer: s.thinking_buffer + content, ..s };
    assert(same_counts(s0, model::search_step(s0).0));
    let s1 = if !s0.in_thinking_block && !s0.thinking_extracted {
        model::search_step(s0).0
    } else {
        s0
    };
    assert(same_counts(s1, model::inside_step(s1).0));
    let s2 = if s1.in_thinking_block {
        model::inside_step(s1).0
    } else {
        s1
    };
    assert(same_counts(s2, model::after_step(s2).0));
}

proof fn lemma_filter_keeps_counts(s: StreamV)
    ensures
        same_counts(s, model::flush_filter(s).0),
{
    let text = crate::xml_filter::stripped(s.filter.buffer);
    let s1 = StreamV {
        filter: crate::xml_filter::FilterV { buffer: Seq::empty(), stripping: false },
        ..s
    };
    let s0 = StreamV {
        output_tokens: crate::tokens::capped(
            s1.output_tokens + crate::tokens::capped(crate::tokens::estimate(text)),
        ),
        ..s1
    };
    lemma_content_keeps_counts(s0, text);
}

/// Among the events are final counts with the given input counts.
pub open spec fn tells_counts(events: Seq<SseEventV>, counts: (int, int, int)) -> bool {
    exists|i: int, reason: Seq<char>, output: int|
        0 <= i < events.len() && #[trigger] events[i] == #[trigger] message_delta_event(
            reason,
            usage_of(counts, output),
        )
}

proof fn lemma_tells_more(a: Seq<SseEventV>, b: Seq<SseEventV>, counts: (int, int, int))
    requires
        tells_counts(a, counts) || tells_counts(b, counts),
    ensures
        tells_counts(a + b, counts),
{
    if tells_counts(a, counts) {
        let (i, reason, output) = choose|i: int, reason: Seq<char>, output: int|
            0 <= i < a.len() && #[trigger] a[i] == #[trigger] message_delta_event(
                reason,
                usage_of(counts, output),
            );
        assert((a + b)[i] == message_delta_event(reason, usage_of(counts, output)));
    } else {
        let (i, reason, output) = choose|i: int, reason: Seq<char>, output: int|
            0 <= i < b.len() && #[trigger] b[i] == #[trigger] message_delta_event(
                reason,
                usage_of(counts, output),
            );
        assert((a + b)[a.len() + i] == message_delta_event(reason, usage_of(counts, output)));
    }
}

proof fn lemma_end_message_counts(s: StreamV)
    requires
        !s.state.message_delta_sent,
    ensures
        tells_counts(model::end_message(s).1, input_counts(s)),
{
    let closing = crate::state::closing_events(s.state.blocks, false);
    assert(model::end_message(s).1[closing.len() as int] == message_delta_event(
        crate::state::final_stop_reason(s.state),
        usage_of(input_counts(s), s.output_tokens),
    ));
}

proof fn lemma_end_with_error_counts(s: StreamV, e: crate::tool_json::ToolErrorV)
    requires
        !s.state.message_delta_sent,
    ensures
        tells_counts(model::end_with_error(s, e).1, input_counts(s)),
{
    let (s1, e1) = model::close_reasoning(s);
    let (s2, e2) = model::close_unfinished(s1);
    assert(same_counts(s, s1));
    assert(same_counts(s1, s2));
    lemma_end_message_counts(s2);
    let e3 = model::end_message(s2).1;
    lemma_tells_more(e1 + e2, e3, input_counts(s));
    let last = seq![model::end_with_error(s, e).1.last()];
    lemma_tells_more(e1 + e2 + e3, last, input_counts(s));
    assert(model::end_with_error(s, e).1 =~= e1 + e2 + e3 + last);
}

proof fn lemma_end_well_counts(s: StreamV)
    requires
        !s.state.message_delta_sent,
    ensures
        tells_counts(model::end_well(s).1, input_counts(s)),
{
    let (s1, e1) = model::close_reasoning(s);
    let (s2, e2) = model::flush_buffer(s1);
    let (s3, e3) = model::fill_text(s2);
    assert(same_counts(s, s1));
    assert(same_counts(s1, s2));
    assert(same_counts(s2, s3));
    lemma_end_message_counts(s3);
    lemma_tells_more(e1 + e2 + e3, model::end_message(s3).1, input_counts(s));
}

proof fn lemma_flush_calls_keeps_counts(s: StreamV)
    ensures
        same_counts(s, model::flush_calls(s).0),
{
    let (pending, outcome) = crate::tool_json::finish_step(s.pending, s.tool_name_map);
    match outcome {
        crate::tool_json::FinishV::Done(calls) => {
            lemma_calls_keep_counts(StreamV { pending, ..s }, calls);
        },
        _ => {},
    }
}

/// The end of a stream sends final counts, with the input counts that the stream had before.
pub proof fn lemma_final_counts(s: StreamV)
    requires
        !s.state.message_delta_sent,
    ensures
        tells_counts(finish_stream(s).1, input_counts(s)),
{
    let (s1, e1) = model::flush_calls(s);
    let (s2, e2) = model::flush_filter(s1);
    lemma_flush_calls_keeps_counts(s);
    lemma_filter_keeps_counts(s1);
    match s2.tool_json_error {
        Some(e) => {
            lemma_end_with_error_counts(s2, e);
            lemma_tells_more(e1 + e2, model::end_with_error(s2, e).1, input_counts(s));
        },
        None => {
            lemma_end_well_counts(s2);
            lemma_tells_more(e1 + e2, model::end_well(s2).1, input_counts(s));
        },
    }
}

/// Setting the input counts of a message start gives the message start with those counts.
pub proof fn lemma_corrected_start(
    id: Seq<char>,
    name: Seq<char>,
    before: (int, int, int),
    counts: (int, int, int),
)
    requires
        i32::MIN <= counts.0 <= i32::MAX,
        i32::MIN <= counts.1 <= i32::MAX,
        i32::MIN <= counts.2 <= i32::MAX,
    ensures
        corrected(message_start_event(id, name, usage_of(before, 1)), counts)
            == message_start_event(id, name, usage_of(counts, 1)),
{
    reveal_strlit("type");
    reveal_strlit("message");
    reveal_strlit("usage");
    reveal_strlit("input_tokens");
    reveal_strlit("output_tokens");
    reveal_strlit("cache_creation_input_tokens");
    reveal_strlit("cache_read_input_tokens");
    let u0 = usage_of(before, 1);
    let u1 = usage_of(counts, 1);
    assert("output_tokens"@[0] != "input_tokens"@[0]);
    assert(with_counts(usage_json(u0), counts)->Object_0 =~= usage_json(u1)->Object_0);
    let data = message_start_json(id, name, u0);
    let message = field(data, "message"@)->0;
    assert(field(message, "usage"@) == Some(usage_json(u0)));
    let message1 = with_field(message, "usage"@, usage_json(u1));
    let wanted = message_start_json(id, name, u1);
    assert(message1->Object_0 =~= field(wanted, "message"@)->0->Object_0);
    assert(with_field(data, "message"@, message1)->Object_0 =~= wanted->Object_0);
}

/// Two streams answer the same request.
pub open spec fn same_request(a: StreamV, b: StreamV) -> bool {
    a.model == b.model && a.message_id == b.message_id && a.input_tokens == b.input_tokens
        && a.cache_usage == b.cache_usage
}

proof fn lemma_content_keeps_request(s: StreamV, content: Seq<char>)
    ensures
        same_request(s, model::content_step(s, content).0),
{
    let s0 = StreamV { thinking_buffer: s.thinking_buffer + content, ..s };
    assert(same_request(s0, model::search_step(s0).0));
    let s1 = if !s0.in_thinking_block && !s0.thinking_extracted {
        model::search_step(s0).0
    } else {
        s0
    };
    assert(same_request(s1, model::inside_step(s1).0));
    let s2 = if s1.in_thinking_block {
        model::inside_step(s1).0
    } else {
        s1
    };
    assert(same_request(s2, model::after_step(s2).0));
}

proof fn lemma_filtered_keeps_request(s: StreamV, text: Seq<char>)
    ensures
        same_request(s, model::filtered_step(s, text).0),
{
    let s0 = StreamV {
        output_tokens: crate::tokens::capped(
            s.output_tokens + crate::tokens::capped(crate::tokens::estimate(text)),
        ),
        ..s
    };
    lemma_content_keeps_request(s0, text);
    assert(same_request(s0, model::text_step(s0, text).0));
}

proof fn lemma_tool_keeps_request(s: StreamV, t: crate::tool_json::ToolUseV)
    ensures
        same_request(s, model::tool_step(s, t).0),
{
    let s0 = StreamV { state: crate::state::StateV { has_tool_use: true, ..s.state }, ..s };
    assert(same_request(s0, model::before_call(s0).0));
}

proof fn lemma_reasoning_keeps_request(s: StreamV, r: crate::events::ReasoningV)
    ensures
        same_request(s, model::reasoning_step(s, r).0),
{
    match r.redacted {
        Some(redacted) => {
            assert(same_request(s, model::redacted_step(s, redacted).0));
        },
        None => {},
    }
    assert(same_request(s, model::reasoning_block_step(s).0));
}

proof fn lemma_event_keeps_request(s: StreamV, e: EventV)
    ensures
        same_request(s, event_step(s, e).0),
{
    reveal(event_step);
    let s1 = model::close_reasoning(s).0;
    assert(same_request(s, s1));
    match e {
        EventV::Content(content) => {
            let (text, filter) = crate::xml_filter::scan(
                s1.filter.buffer + content,
                s1.filter.stripping,
            );
            lemma_filtered_keeps_request(StreamV { filter, ..s1 }, text);
        },
        EventV::ToolUse(t) => {
            lemma_tool_keeps_request(s1, t);
        },
        EventV::Reasoning(r) => {
            lemma_reasoning_keeps_request(s, r);
        },
        _ => {},
    }
}

/// A held-back stream after several upstream events.
pub open spec fn buffer_all(b: BufferedV, events: Seq<EventV>) -> BufferedV
    decreases events.len(),
{
    if events.len() == 0 {
        b
    } else {
        buffer_step(buffer_all(b, events.drop_last()), events.last())
    }
}

/// A held-back stream that nothing has come into.
pub open spec fn unfilled(b: BufferedV) -> bool {
    unsent(b.inner) && b.held.len() == 0 && !b.started
}

/// What a held-back stream holds is what a stream would have sent.
proof fn lemma_buffer_all(b: BufferedV, events: Seq<EventV>)
    requires
        unfilled(b),
    ensures
        ({
            let (s1, e1) = initial_step(b.inner);
            let (s2, e2) = model::events_step(s1, events);
            &&& started(buffer_all(b, events)).inner == s2
            &&& started(buffer_all(b, events)).held == e1 + e2
            &&& same_request(b.inner, s2)
        }),
    decreases events.len(),
{
    let (s1, e1) = initial_step(b.inner);
    if events.len() == 0 {
        assert(b.held + e1 =~= e1 + Seq::<SseEventV>::empty());
    } else {
        lemma_buffer_all(b, events.drop_last());
        let (s2, e2) = model::events_step(s1, events.drop_last());
        lemma_event_keeps_request(s2, events.last());
        let (s3, e3) = event_step(s2, events.last());
        assert(e1 + e2 + e3 =~= e1 + (e2 + e3));
    }
}

/// A held-back stream lets go what a stream would have sent, with the counts that are known at
/// its end.
pub proof fn law_holding_back_changes_only_counts(b: BufferedV, events: Seq<EventV>)
    requires
        unfilled(b),
    ensures
        ({
            let end = model::events_step(initial_step(b.inner).0, events).0;
            release(buffer_all(b, events)).1 == all_corrected(
                model::transcript(b.inner, events),
                input_counts(end),
            )
        }),
{
    lemma_buffer_all(b, events);
}

/// A held-back stream starts and ends its message with the same input counts: those that are
/// known at the end, whatever was estimated at the start.
pub proof fn law_counts_agree(b: BufferedV, events: Seq<EventV>)
    requires
        unfilled(b),
        i32::MIN <= resolved_input(
            model::events_step(initial_step(b.inner).0, events).0,
        ) <= i32::MAX,
    ensures
        ({
            let counts = input_counts(model::events_step(initial_step(b.inner).0, events).0);
            let sent = release(buffer_all(b, events)).1;
            &&& sent.len() > 0
            &&& sent[0] == message_start_event(
                b.inner.message_id,
                b.inner.model,
                usage_of(counts, 1),
            )
            &&& tells_counts(sent, counts)
        }),
{
    lemma_buffer_all(b, events);
    lemma_initial_step(b.inner);
    let (s1, e1) = initial_step(b.inner);
    lemma_events_step(s1, events);
    let (s2, e2) = model::events_step(s1, events);
    let counts = input_counts(s2);
    crate::tokens::law_split_adds_up(s2.cache_usage, resolved_input(s2));
    lemma_corrected_start(
        b.inner.message_id,
        b.inner.model,
        split(b.inner.cache_usage, b.inner.input_tokens),
        counts,
    );
    lemma_final_counts(s2);
    let e3 = finish_stream(s2).1;
    let (i, reason, output) = choose|i: int, reason: Seq<char>, output: int|
        0 <= i < e3.len() && #[trigger] e3[i] == #[trigger] message_delta_event(
            reason,
            usage_of(counts, output),
        );
    let d = message_delta_event(reason, usage_of(counts, output));
    reveal_strlit("message_start");
    reveal_strlit("message_delta");
    assert("message_start"@[8] != "message_delta"@[8]);
    assert(corrected(d, counts) == d);
    let sent = release(buffer_all(b, events)).1;
    assert(sent[(e1 + e2).len() + i] == d);
    assert(e1[0] == message_start_event(
        b.inner.message_id,
        b.inner.model,
        usage_of(split(b.inner.cache_usage, b.inner.input_tokens), 1),
    ));
}

proof fn lemma_corrected_reads_alike(
    q: ProgressV,
    events: Seq<SseEventV>,
    counts: (int, int, int),
)
    ensures
        read_all(q, all_corrected(events, counts)) == read_all(q, events),
    decreases events.len(),
{
    if events.len() > 0 {
        lemma_corrected_reads_alike(q, events.drop_last(), counts);
        assert(all_corrected(events, counts).drop_last() =~= all_corrected(
            events.drop_last(),
            counts,
        ));
    }
}

/// A held-back stream is in order, whatever the upstream sends.
pub proof fn law_held_back_stream_is_in_order(b: BufferedV, events: Seq<EventV>)
    requires
        unfilled(b),
    ensures
        read_all(unread(), release(buffer_all(b, events)).1) matches Some(q) && whole(q),
{
    law_holding_back_changes_only_counts(b, events);
    law_stream_is_in_order(b.inner, events);
    let end = model::events_step(initial_step(b.inner).0, events).0;
    lemma_corrected_reads_alike(
        unread(),
        model::transcript(b.inner, events),
        input_counts(end),
    );
}

/// A stream that is held back until its token counts are known.
pub struct BufferedStreamContext {
    inner: StreamContext,
    event_buffer: Vec<SseEvent>,
    initial_events_generated: bool,
}

/// Puts a value under a key, where the value at hand is an object.
fn set_field(v: Json, key: &str, value: Json) -> (r: Json)
    ensures
        r.view() == with_field(v.view(), key@, value.view()),
{
    match v {
        Json::Object(o) => Json::Object(o.with(key, value)),
        other => other,
    }
}

/// Sets the input counts of a `usage` object.
fn set_counts(usage: Json, counts: (i32, i32, i32)) -> (r: Json)
    ensures
        r.view() == with_counts(
            usage.view(),
            (counts.0 as int, counts.1 as int, counts.2 as int),
        ),
{
    let a = set_field(usage, "input_tokens", Json::integer(counts.0 as i64));
    let b = set_field(a, "cache_creation_input_tokens", Json::integer(counts.1 as i64));
    set_field(b, "cache_read_input_tokens", Json::integer(counts.2 as i64))
}

/// Sets the input counts of an event, where it starts a message.
fn correct(e: SseEvent, counts: (i32, i32, i32)) -> (r: SseEvent)
    ensures
        r.view() == corrected(
            e.view(),
            (counts.0 as int, counts.1 as int, counts.2 as int),
        ),
{
    if !text::same(e.event.as_str(), "message_start") {
        return e;
    }
    let changed = match e.data.get("message") {
        Some(message) => match message.get("usage") {
            Some(usage) => {
                let usage = set_counts(usage.copy(), counts);
                Some(set_field(message.copy(), "usage", usage))
            },
            None => None,
        },
        None => None,
    };
    match changed {
        Some(message) => SseEvent {
            event: e.event,
            data: set_field(e.data, "message", message),
        },
        None => e,
    }
}

/// Sets the input counts of the events that start a message.
fn correct_all(events: Vec<SseEvent>, counts: (i32, i32, i32)) -> (r: Vec<SseEvent>)
    ensures
        views(r@) == all_corrected(
            views(events@),
            (counts.0 as int, counts.1 as int, counts.2 as int),
        ),
{
    let ghost all = views(events@);
    let ghost c = (counts.0 as int, counts.1 as int, counts.2 as int);
    let mut rest = events;
    let mut out: Vec<SseEvent> = Vec::new();
    let n = rest.len();
    let mut i: usize = 0;
    assert(all.skip(0) =~= all);
    assert(views(out@) =~= all_corrected(all.take(0), c));
    while i < n
        invariant
            i <= n,
            n == all.len(),
            rest.len() == n - i,
            views(rest@) == all.skip(i as int),
            views(out@) == all_corrected(all.take(i as int), c),
            c == (counts.0 as int, counts.1 as int, counts.2 as int),
        decreases n - i,
    {
        let ghost r0 = rest@;
        let ghost o0 = out@;
        let e = rest.remove(0);
        proof {
            assert(views(r0)[0] == e.view());
            assert(views(rest@) =~= views(r0).remove(0));
            assert(views(rest@) =~= all.skip(i + 1));
        }
        let e1 = correct(e, counts);
        out.push(e1);
        proof {
            assert(views(out@) =~= views(o0).push(e1.view()));
            assert(all_corrected(all.take(i + 1), c) =~= all_corrected(
                all.take(i as int),
                c,
            ).push(corrected(all[i as int], c)));
        }
        i += 1;
    }
    assert(all.take(n as int) =~= all);
    out
}

impl BufferedStreamContext {
    pub closed spec fn view(&self) -> BufferedV {
        BufferedV {
            inner: self.inner.view(),
            held: views(self.event_buffer@),
            started: self.initial_events_generated,
        }
    }

    /// A held-back stream.
    pub fn new(
        model: &str,
        estimated_input_tokens: i32,
        thinking_enabled: bool,
        tool_name_map: TextMap<String>,
    ) -> (r: BufferedStreamContext)
        ensures
            crate::ids::id_shape(r.view().inner.message_id, "msg_"@, 32),
            r.view() == (BufferedV {
                inner: model::fresh_stream(
                    r.view().inner.message_id,
                    model@,
                    estimated_input_tokens as int,
                    thinking_enabled,
                    tool_name_map.view(),
                ),
                held: Seq::empty(),
                started: false,
            }),
    {
        let inner = StreamContext::new_with_thinking(
            model,
            estimated_input_tokens,
            thinking_enabled,
            tool_name_map,
        );
        let event_buffer: Vec<SseEvent> = Vec::new();
        assert(views(event_buffer@) =~= Seq::empty());
        BufferedStreamContext { inner, event_buffer, initial_events_generated: false }
    }

    /// Tells how much of the prompt the cache covers.
    pub fn set_cache_usage(&mut self, cache_usage: CacheUsage)
        ensures
            final(self).view() == (BufferedV {
                inner: StreamV { cache_usage, ..old(self).view().inner },
                ..old(self).view()
            }),
    {
        self.inner.cache_usage = cache_usage;
    }

    /// Whether `n` more blocks can be numbered.
    pub fn has_block_room(&self, n: usize) -> (r: bool)
        ensures
            r == (self.view().inner.state.next_block_index + n <= i32::MAX),
    {
        self.inner.has_block_room(n)
    }

    /// Whether the blocks that the end of the stream may need can be numbered.
    pub fn can_finish(&self) -> (r: bool)
        ensures
            r == (self.view().inner.state.next_block_index + self.view().inner.pending.len() + 6
                <= i32::MAX),
    {
        let pending = self.inner.tool_json_accumulator.pending();
        let _ = self.inner.state_manager.peek_block_index();
        pending <= usize::MAX - 6 && self.inner.has_block_room(pending + 6)
    }

    /// Makes the start of the stream, if it has not been made.
    fn start(&mut self)
        requires
            old(self).view().inner.state.next_block_index < i32::MAX,
        ensures
            final(self).view() == started(old(self).view()),
            final(self).view().inner.state.next_block_index <= old(
                self,
            ).view().inner.state.next_block_index + 1,
            final(self).view().inner.pending == old(self).view().inner.pending,
    {
        if !self.initial_events_generated {
            let events = self.inner.generate_initial_events();
            emit_all(&mut self.event_buffer, events);
            self.initial_events_generated = true;
        }
    }

    /// Takes in one upstream event and holds back what it leads to.
    pub fn process_and_buffer(&mut self, event: &Event)
        requires
            old(self).view().inner.state.next_block_index + 4 <= i32::MAX,
        ensures
            final(self).view() == buffer_step(old(self).view(), event.view()),
            final(self).view().inner.state.next_block_index <= old(
                self,
            ).view().inner.state.next_block_index + 4,
    {
        self.start();
        let events = self.inner.process_kiro_event(event);
        emit_all(&mut self.event_buffer, events);
    }

    /// Ends the stream and lets all of its events go.
    pub fn finish_and_get_all_events(&mut self) -> (r: Vec<SseEvent>)
        requires
            old(self).view().inner.state.next_block_index + old(self).view().inner.pending.len()
                + 6 <= i32::MAX,
        ensures
            (final(self).view(), views(r@)) == release(old(self).view()),
    {
        self.start();
        let counts = self.inner.resolved_usage();
        let events = self.inner.generate_final_events();
        emit_all(&mut self.event_buffer, events);
        let mut held: Vec<SseEvent> = Vec::new();
        std::mem::swap(&mut held, &mut self.event_buffer);
        assert(views(self.event_buffer@) =~= Seq::empty());
        correct_all(held, counts)
    }

    /// The message of the tool call that cannot be used, where there is one.
    pub fn tool_json_error_message(&self) -> (r: Option<String>)
        ensures
            opt_text(r) == model::error_message(self.view().inner),
    {
        self.inner.tool_json_error_message()
    }

    /// The final counts: input, output, cache writes and cache reads.
    pub fn final_usage(&self) -> (r: (i32, i32, i32, i32))
        ensures
            r.1 == self.view().inner.output_tokens,
            (r.0 as int, r.2 as int, r.3 as int) == input_counts(self.view().inner),
    {
        let (input, creation, read) = self.inner.resolved_usage();
        (input, self.inner.output_tokens, creation, read)
    }
}

} // verus!
