//! Renders a finished answer, as a whole or as an event stream.

use crate::ids;
use crate::json::{empty_object, field, printed, string_field, values, Json, JsonObject, JsonV};
use crate::protocol::{block_open, lemma_event_names, lemma_index_of, lemma_read_all_concat};
use crate::protocol::{read, read_all, unread, ProgressV};
use crate::sse;
use crate::sse::{delta_event, emit, emit_all, input_delta_event, message_json, num, part_json};
use crate::sse::{message_start_event, message_stop_event, signature_delta_event, start_event};
use crate::sse::{stop_event, text_delta_event, thinking_delta_event, tool_use_json, views};
use crate::sse::{SseEvent, SseEventV, Usage};
use crate::stream_laws::whole;
use crate::text;
use vstd::prelude::*;

verus! {

/// The text under `key`, empty where there is none.
pub open spec fn text_under(block: JsonV, key: Seq<char>) -> Seq<char> {
    match string_field(block, key) {
        Some(text) => text,
        None => Seq::empty(),
    }
}

/// The arguments of a tool call, empty where there are none.
pub open spec fn input_of(block: JsonV) -> JsonV {
    match field(block, "input"@) {
        Some(input) => input,
        None => empty_object(),
    }
}

/// The events of a thinking block.
pub open spec fn thinking_block_events(index: int, block: JsonV) -> Seq<SseEventV> {
    let thinking = text_under(block, "thinking"@);
    let start = start_event(index, part_json("thinking"@, "thinking"@, ""@));
    if thinking.len() == 0 {
        seq![start, signature_delta_event(index), stop_event(index)]
    } else {
        seq![
            start,
            thinking_delta_event(index, thinking),
            signature_delta_event(index),
            stop_event(index),
        ]
    }
}

/// The events of a content block; none for a kind that is not known.
pub open spec fn block_events(index: int, block: JsonV) -> Seq<SseEventV> {
    let kind = text_under(block, "type"@);
    if kind == "thinking"@ {
        thinking_block_events(index, block)
    } else if kind == "redacted_thinking"@ {
        let data = text_under(block, "data"@);
        seq![
            start_event(index, part_json("redacted_thinking"@, "data"@, data)),
            stop_event(index),
        ]
    } else if kind == "text"@ {
        seq![
            start_event(index, part_json("text"@, "text"@, ""@)),
            text_delta_event(index, text_under(block, "text"@)),
            stop_event(index),
        ]
    } else if kind == "tool_use"@ {
        seq![
            start_event(
                index,
                tool_use_json(
                    text_under(block, "id"@),
                    text_under(block, "name"@),
                    empty_object(),
                ),
            ),
            input_delta_event(index, printed(input_of(block))),
            stop_event(index),
        ]
    } else if kind == "server_tool_use"@ || kind == "web_search_tool_result"@ {
        seq![start_event(index, block), stop_event(index)]
    } else {
        Seq::empty()
    }
}

/// The number of the block at position `i`: the lower 32 bits of the position, with a sign.
pub open spec fn block_number(i: int) -> int {
    let low = i % 0x1_0000_0000;
    if low < 0x8000_0000 {
        low
    } else {
        low - 0x1_0000_0000
    }
}

/// The events of content blocks, numbered from zero on.
pub open spec fn content_events(content: Seq<JsonV>) -> Seq<SseEventV>
    decreases content.len(),
{
    if content.len() == 0 {
        Seq::empty()
    } else {
        content_events(content.drop_last()) + block_events(
            block_number(content.len() - 1),
            content.last(),
        )
    }
}

/// The event with the final counts of a rendered answer.
pub open spec fn rendered_delta(stop_reason: Seq<char>, usage: Usage) -> SseEventV {
    SseEventV {
        event: "message_delta"@,
        data: JsonV::Object(
            Map::empty().insert("type"@, JsonV::Str("message_delta"@)).insert(
                "delta"@,
                JsonV::Object(Map::empty().insert("stop_reason"@, JsonV::Str(stop_reason))),
            ).insert(
                "usage"@,
                JsonV::Object(
                    Map::empty().insert("output_tokens"@, num(usage.output_tokens as int)).insert(
                        "cache_creation_input_tokens"@,
                        num(usage.cache_creation_input_tokens as int),
                    ).insert(
                        "cache_read_input_tokens"@,
                        num(usage.cache_read_input_tokens as int),
                    ),
                ),
            ),
        ),
    }
}

/// The events of a whole answer.
pub open spec fn answer_events(
    id: Seq<char>,
    model: Seq<char>,
    content: Seq<JsonV>,
    stop_reason: Seq<char>,
    usage: Usage,
) -> Seq<SseEventV> {
    let start = message_start_event(id, model, Usage { output_tokens: 0, ..usage });
    seq![start] + content_events(content) + seq![
        rendered_delta(stop_reason, usage),
        message_stop_event(),
    ]
}

/// The text under `key`, empty where there is none.
fn get_text(block: &Json, key: &str) -> (r: String)
    ensures
        r@ == text_under(block.view(), key@),
{
    match block.get_str(key) {
        Some(text) => text.to_owned(),
        None => String::new(),
    }
}

/// Renders a thinking block.
fn render_thinking(index: i32, block: &Json) -> (r: Vec<SseEvent>)
    ensures
        views(r@) == thinking_block_events(index as int, block.view()),
{
    let thinking = get_text(block, "thinking");
    let mut events = sse::no_events();
    emit(&mut events, sse::start(index, sse::part("thinking", "thinking", "")));
    if !thinking.as_str().is_empty() {
        emit(&mut events, sse::thinking_delta(index, thinking.as_str()));
    }
    emit(&mut events, sse::signature_delta(index));
    emit(&mut events, sse::stop(index));
    assert(views(events@) =~= thinking_block_events(index as int, block.view()));
    events
}

/// Renders a tool call.
fn render_tool_use(index: i32, block: &Json) -> (r: Vec<SseEvent>)
    ensures
        views(r@) == seq![
            start_event(
                index as int,
                tool_use_json(
                    text_under(block.view(), "id"@),
                    text_under(block.view(), "name"@),
                    empty_object(),
                ),
            ),
            input_delta_event(index as int, printed(input_of(block.view()))),
            stop_event(index as int),
        ],
{
    let id = get_text(block, "id");
    let name = get_text(block, "name");
    let partial = match block.get("input") {
        Some(input) => input.to_text(),
        None => Json::Object(JsonObject::new()).to_text(),
    };
    let mut events = sse::no_events();
    let empty = Json::Object(JsonObject::new());
    emit(
        &mut events,
        sse::start(index, sse::tool_use_block(id.as_str(), name.as_str(), empty)),
    );
    emit(
        &mut events,
        sse::delta(index, sse::part("input_json_delta", "partial_json", partial.as_str())),
    );
    emit(&mut events, sse::stop(index));
    assert(views(events@) =~= seq![
        start_event(index as int, tool_use_json(id@, name@, empty_object())),
        input_delta_event(index as int, partial@),
        stop_event(index as int),
    ]);
    events
}

/// Renders a content block.
fn render_block(index: i32, block: &Json) -> (r: Vec<SseEvent>)
    ensures
        views(r@) == block_events(index as int, block.view()),
{
    let kind = get_text(block, "type");
    let kind = kind.as_str();
    if text::same(kind, "thinking") {
        return render_thinking(index, block);
    }
    let mut events = sse::no_events();
    if text::same(kind, "redacted_thinking") {
        let data = get_text(block, "data");
        emit(
            &mut events,
            sse::start(index, sse::part("redacted_thinking", "data", data.as_str())),
        );
        emit(&mut events, sse::stop(index));
    } else if text::same(kind, "text") {
        let content = get_text(block, "text");
        emit(&mut events, sse::start(index, sse::part("text", "text", "")));
        emit(
            &mut events,
            sse::delta(index, sse::part("text_delta", "text", content.as_str())),
        );
        emit(&mut events, sse::stop(index));
    } else if text::same(kind, "tool_use") {
        return render_tool_use(index, block);
    } else if text::same(kind, "server_tool_use") || text::same(kind, "web_search_tool_result") {
        emit(&mut events, sse::start(index, block.copy()));
        emit(&mut events, sse::stop(index));
    }
    assert(views(events@) =~= block_events(index as int, block.view()));
    events
}

/// Renders the event with the final counts.
fn render_delta(stop_reason: &str, usage: Usage) -> (r: SseEvent)
    ensures
        r.view() == rendered_delta(stop_reason@, usage),
{
    let change = JsonObject::new().with("stop_reason", Json::text(stop_reason));
    let counts = JsonObject::new().with(
        "output_tokens",
        Json::integer(usage.output_tokens as i64),
    ).with(
        "cache_creation_input_tokens",
        Json::integer(usage.cache_creation_input_tokens as i64),
    ).with("cache_read_input_tokens", Json::integer(usage.cache_read_input_tokens as i64));
    SseEvent::new(
        "message_delta",
        Json::Object(
            JsonObject::new().with("type", Json::text("message_delta")).with(
                "delta",
                Json::Object(change),
            ).with("usage", Json::Object(counts)),
        ),
    )
}

/// The number of the block at a position.
fn number_block(i: usize) -> (r: i32)
    ensures
        r == block_number(i as int),
{
    let n: u64 = i as u64;
    let r: i32 = #[verifier::truncate] (n as i32);
    assert(r == n as i32);
    assert(n % 0x1_0000_0000 < 0x8000_0000 ==> n as i32 == n % 0x1_0000_0000) by (bit_vector);
    assert(n % 0x1_0000_0000 >= 0x8000_0000 ==> n as i32 == n % 0x1_0000_0000 - 0x1_0000_0000)
        by (bit_vector);
    r
}

/// Renders an answer with the given message id as events.
pub fn build_sse_events_with_id(
    message_id: &str,
    model: &str,
    content: Vec<Json>,
    stop_reason: &str,
    usage: Usage,
) -> (r: Vec<SseEvent>)
    ensures
        views(r@) == answer_events(message_id@, model@, values(content@), stop_reason@, usage),
{
    let ghost all = values(content@);
    let mut events = sse::no_events();
    let start = SseEvent::new(
        "message_start",
        sse::message_start_payload(message_id, model, Usage { output_tokens: 0, ..usage }),
    );
    emit(&mut events, start);
    let ghost head = views(events@);
    assert(head =~= seq![start.view()]);
    let mut i: usize = 0;
    assert(all.take(0) =~= Seq::empty());
    assert(views(events@) =~= head + content_events(all.take(0)));
    while i < content.len()
        invariant
            i <= content.len(),
            all == values(content@),
            views(events@) == head + content_events(all.take(i as int)),
        decreases content.len() - i,
    {
        let more = render_block(number_block(i), &content[i]);
        proof {
            assert(all.take(i + 1).drop_last() =~= all.take(i as int));
            assert(all.take(i + 1).last() == content@[i as int].view());
            assert(head + content_events(all.take(i as int)) + views(more@) =~= head
                + content_events(all.take(i + 1)));
        }
        emit_all(&mut events, more);
        i += 1;
    }
    assert(all.take(content.len() as int) =~= all);
    emit(&mut events, render_delta(stop_reason, usage));
    emit(&mut events, sse::message_stop());
    assert(views(events@) =~= answer_events(message_id@, model@, all, stop_reason@, usage));
    events
}

/// Renders an answer as events, with a new message id.
pub fn build_sse_events(
    model: &str,
    content: Vec<Json>,
    stop_reason: &str,
    input_tokens: i32,
    output_tokens: i32,
    cache_creation_tokens: i32,
    cache_read_tokens: i32,
) -> (r: Vec<SseEvent>)
    ensures
        exists|id: Seq<char>| #[trigger]
            ids::id_shape(id, "msg_"@, 24) && views(r@) == answer_events(
                id,
                model@,
                values(content@),
                stop_reason@,
                (Usage {
                    input_tokens,
                    output_tokens,
                    cache_creation_input_tokens: cache_creation_tokens,
                    cache_read_input_tokens: cache_read_tokens,
                }),
            ),
{
    let id = ids::new_id("msg_", 24);
    build_sse_events_with_id(
        id.as_str(),
        model,
        content,
        stop_reason,
        Usage {
            input_tokens,
            output_tokens,
            cache_creation_input_tokens: cache_creation_tokens,
            cache_read_input_tokens: cache_read_tokens,
        },
    )
}

/// Renders an answer as a whole, with a new message id.
pub fn render_json(
    model: &str,
    content: Vec<Json>,
    stop_reason: &str,
    input_tokens: i32,
    output_tokens: i32,
    cache_creation_tokens: i32,
    cache_read_tokens: i32,
) -> (r: Json)
    ensures
        exists|id: Seq<char>| #[trigger]
            ids::id_shape(id, "msg_"@, 32) && r.view() == message_json(
                id,
                model@,
                values(content@),
                stop_reason@,
                (Usage {
                    input_tokens,
                    output_tokens,
                    cache_creation_input_tokens: cache_creation_tokens,
                    cache_read_input_tokens: cache_read_tokens,
                }),
            ),
{
    let id = ids::new_message_id();
    sse::message_body(
        id.as_str(),
        model,
        content,
        stop_reason,
        Usage {
            input_tokens,
            output_tokens,
            cache_creation_input_tokens: cache_creation_tokens,
            cache_read_input_tokens: cache_read_tokens,
        },
    )
}

/// The position of the block with the given number.
spec fn place(number: int) -> int {
    if number < 0 {
        number + 0x1_0000_0000
    } else {
        number
    }
}

/// A message that has started, with its first `n` blocks behind it.
spec fn rendered(q: ProgressV, n: int) -> bool {
    &&& q.started
    &&& !q.delta_sent
    &&& !q.ended
    &&& !q.failed
    &&& forall|i: int| #[trigger] q.blocks.contains_key(i) ==> place(i) < n && !q.blocks[i]
}

proof fn lemma_read_block(q: ProgressV, n: int, block: JsonV)
    requires
        0 <= n < 0x1_0000_0000,
        rendered(q, n),
    ensures
        read_all(q, block_events(block_number(n), block)) matches Some(t) && rendered(t, n + 1),
{
    reveal_with_fuel(read_all, 5);
    lemma_event_names();
    let k = block_number(n);
    let events = block_events(k, block);
    assert(place(k) == n);
    if events.len() > 0 {
        assert(!q.blocks.contains_key(k));
        lemma_all_indices(k);
        let q1 = ProgressV { blocks: q.blocks.insert(k, true), ..q };
        let q2 = ProgressV { blocks: q1.blocks.insert(k, false), ..q1 };
        assert(read(q, events[0]) == Some(q1));
        assert(read(q1, stop_event(k)) == Some(q2));
        let a = events.take(1);
        assert(a.drop_last() =~= Seq::empty());
        assert(read_all(q, a) == Some(q1));
        if events.len() == 2 {
            assert(events.drop_last() =~= a);
        } else if events.len() == 3 {
            let b = events.take(2);
            assert(b.drop_last() =~= a);
            assert(read(q1, events[1]) == Some(q1));
            assert(read_all(q, b) == Some(q1));
            assert(events.drop_last() =~= b);
        } else {
            let b = events.take(2);
            assert(b.drop_last() =~= a);
            assert(read(q1, events[1]) == Some(q1));
            assert(read_all(q, b) == Some(q1));
            let c = events.take(3);
            assert(c.drop_last() =~= b);
            assert(read(q1, events[2]) == Some(q1));
            assert(read_all(q, c) == Some(q1));
            assert(events.drop_last() =~= c);
        }
        assert(events.last() == stop_event(k));
        assert(read_all(q, events) == Some(q2));
    }
}

proof fn lemma_all_indices(n: int)
    ensures
        forall|x: JsonV| crate::protocol::index_of(#[trigger] start_event(n, x)) == Some(n),
        forall|x: JsonV| crate::protocol::index_of(#[trigger] delta_event(n, x)) == Some(n),
        crate::protocol::index_of(stop_event(n)) == Some(n),
{
    assert forall|x: JsonV| crate::protocol::index_of(#[trigger] start_event(n, x)) == Some(n) by {
        lemma_index_of(n, x);
    }
    assert forall|x: JsonV| crate::protocol::index_of(#[trigger] delta_event(n, x)) == Some(n) by {
        lemma_index_of(n, x);
    }
    lemma_index_of(n, JsonV::Null);
}

proof fn lemma_read_content(q: ProgressV, content: Seq<JsonV>)
    requires
        content.len() <= 0x1_0000_0000,
        rendered(q, 0),
    ensures
        read_all(q, content_events(content)) matches Some(t) && rendered(t, content.len() as int),
    decreases content.len(),
{
    if content.len() > 0 {
        let front = content.drop_last();
        lemma_read_content(q, front);
        let t = read_all(q, content_events(front))->0;
        lemma_read_block(t, content.len() - 1, content.last());
        lemma_read_all_concat(
            q,
            content_events(front),
            block_events(block_number(content.len() - 1), content.last()),
        );
    }
}

/// A rendered answer is a stream in order, whatever blocks it is made of, as long as no two of
/// them get the same number.
pub proof fn law_rendered_answer_is_in_order(
    id: Seq<char>,
    model: Seq<char>,
    content: Seq<JsonV>,
    stop_reason: Seq<char>,
    usage: Usage,
)
    requires
        content.len() <= 0x1_0000_0000,
    ensures
        read_all(
            unread(),
            answer_events(id, model, content, stop_reason, usage),
        ) matches Some(q) && whole(q) && !q.failed,
{
    lemma_event_names();
    let start = message_start_event(id, model, Usage { output_tokens: 0, ..usage });
    let q0 = ProgressV { started: true, ..unread() };
    assert(seq![start].drop_last() =~= Seq::empty());
    assert(read_all(unread(), Seq::empty()) == Some(unread()));
    assert(read_all(unread(), seq![start]) == Some(q0));
    lemma_read_content(q0, content);
    let q1 = read_all(q0, content_events(content))->0;
    lemma_read_all_concat(unread(), seq![start], content_events(content));
    let d = rendered_delta(stop_reason, usage);
    let tail = seq![d, message_stop_event()];
    let q2 = ProgressV { delta_sent: true, ..q1 };
    let q3 = ProgressV { ended: true, ..q2 };
    assert forall|i: int| !#[trigger] block_open(q1, i) by {
        assert(q1.blocks.contains_key(i) ==> !q1.blocks[i]);
    }
    assert(read(q1, d) == Some(q2));
    assert(read(q2, message_stop_event()) == Some(q3));
    assert(tail.drop_last() =~= seq![d]);
    assert(seq![d].drop_last() =~= Seq::empty());
    assert(read_all(q1, Seq::empty()) == Some(q1));
    assert(read_all(q1, seq![d]) == Some(q2));
    assert(read_all(q1, tail) == Some(q3));
    lemma_read_all_concat(unread(), seq![start] + content_events(content), tail);
    assert forall|i: int| !#[trigger] block_open(q3, i) by {
        assert(!block_open(q1, i));
    }
}

} // verus!
