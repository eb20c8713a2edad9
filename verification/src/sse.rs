//! Server-sent events of the Messages API, and the JSON payloads that they carry.

use crate::json::{printed, values, Json, JsonObject, JsonV};
use vstd::prelude::*;

verus! {

/// Stands in for the signature of a thinking block, which clients require to be there.
pub const THINKING_SIGNATURE_PLACEHOLDER: &'static str = "kiro-rs-thinking-signature";

/// What a server-sent event is.
pub struct SseEventV {
    pub event: Seq<char>,
    pub data: JsonV,
}

/// A server-sent event.
#[derive(Debug)]
pub struct SseEvent {
    pub event: String,
    pub data: Json,
}

/// Token counts of one message.
#[derive(Debug, Clone, Copy, PartialEq, Eq)]
pub struct Usage {
    pub input_tokens: i32,
    pub output_tokens: i32,
    pub cache_creation_input_tokens: i32,
    pub cache_read_input_tokens: i32,
}

/// The events of a list.
pub open spec fn views(events: Seq<SseEvent>) -> Seq<SseEventV> {
    events.map_values(|e: SseEvent| e.view())
}

/// The frame of an event on the wire.
pub open spec fn sse_frame(event: SseEventV) -> Seq<char> {
    "event: "@ + event.event + "\ndata: "@ + printed(event.data) + "\n\n"@
}

/// The frame that keeps a connection alive.
pub open spec fn ping_frame() -> Seq<char> {
    "event: ping\ndata: {\"type\": \"ping\"}\n\n"@
}

impl SseEvent {
    pub open spec fn view(&self) -> SseEventV {
        SseEventV { event: self.event@, data: self.data.view() }
    }

    /// An event of the given name.
    pub fn new(event: &str, data: Json) -> (r: SseEvent)
        ensures
            r.view() == (SseEventV { event: event@, data: data.view() }),
    {
        SseEvent { event: event.to_owned(), data }
    }

    /// The event as a frame of the stream.
    pub fn to_sse_string(&self) -> (r: String)
        ensures
            r@ == sse_frame(self.view()),
    {
        let mut s = "event: ".to_owned();
        s.append(self.event.as_str());
        s.append("\ndata: ");
        s.append(self.data.to_text().as_str());
        s.append("\n\n");
        s
    }
}

/// The frame that keeps a connection alive.
pub fn create_ping_sse() -> (r: String)
    ensures
        r@ == ping_frame(),
{
    "event: ping\ndata: {\"type\": \"ping\"}\n\n".to_owned()
}

/// The frame that tells the client of an error.
pub fn create_error_sse(error_type: &str, message: &str) -> (r: String)
    ensures
        r@ == sse_frame(error_event(error_type@, message@)),
{
    error(error_type, message).to_sse_string()
}

/// A list without events.
pub fn no_events() -> (r: Vec<SseEvent>)
    ensures
        views(r@) == Seq::<SseEventV>::empty(),
{
    let events: Vec<SseEvent> = Vec::new();
    assert(views(events@) =~= Seq::empty());
    events
}

/// Appends one event.
pub fn emit(events: &mut Vec<SseEvent>, e: SseEvent)
    ensures
        views(final(events)@) == views(old(events)@).push(e.view()),
{
    events.push(e);
    assert(views(events@) =~= views(old(events)@).push(e.view()));
}

/// Appends a list of events.
pub fn emit_all(events: &mut Vec<SseEvent>, more: Vec<SseEvent>)
    ensures
        views(final(events)@) == views(old(events)@) + views(more@),
{
    let mut tail = more;
    events.append(&mut tail);
    assert(views(events@) =~= views(old(events)@) + views(more@));
}

/// Appends an event that may not be there.
pub fn emit_some(events: &mut Vec<SseEvent>, e: Option<SseEvent>)
    ensures
        views(final(events)@) == views(old(events)@) + opt_events(opt_view(e)),
{
    match e {
        Some(e) => {
            emit(events, e);
        },
        None => {},
    }
    assert(views(events@) =~= views(old(events)@) + opt_events(opt_view(e)));
}

/// The event that may be there.
pub open spec fn opt_view(e: Option<SseEvent>) -> Option<SseEventV> {
    match e {
        Some(e) => Some(e.view()),
        None => None,
    }
}

/// A list of at most one event.
pub open spec fn opt_events(e: Option<SseEventV>) -> Seq<SseEventV> {
    match e {
        Some(e) => seq![e],
        None => Seq::empty(),
    }
}

/// A whole number as JSON.
pub open spec fn num(n: int) -> JsonV {
    JsonV::Int(n)
}

/// The `usage` object of a message.
pub open spec fn usage_json(u: Usage) -> JsonV {
    JsonV::Object(
        Map::empty().insert("input_tokens"@, num(u.input_tokens as int)).insert(
            "output_tokens"@,
            num(u.output_tokens as int),
        ).insert("cache_creation_input_tokens"@, num(u.cache_creation_input_tokens as int)).insert(
            "cache_read_input_tokens"@,
            num(u.cache_read_input_tokens as int),
        ),
    )
}

/// Payload of `message_start`.
pub open spec fn message_start_json(id: Seq<char>, model: Seq<char>, usage: Usage) -> JsonV {
    JsonV::Object(
        Map::empty().insert("type"@, JsonV::Str("message_start"@)).insert(
            "message"@,
            JsonV::Object(
                Map::empty().insert("id"@, JsonV::Str(id)).insert(
                    "type"@,
                    JsonV::Str("message"@),
                ).insert("role"@, JsonV::Str("assistant"@)).insert(
                    "content"@,
                    JsonV::Array(Seq::empty()),
                ).insert("model"@, JsonV::Str(model)).insert("stop_reason"@, JsonV::Null).insert(
                    "stop_sequence"@,
                    JsonV::Null,
                ).insert("usage"@, usage_json(usage)),
            ),
        ),
    )
}

/// A whole message.
pub open spec fn message_json(
    id: Seq<char>,
    model: Seq<char>,
    content: Seq<JsonV>,
    stop_reason: Seq<char>,
    usage: Usage,
) -> JsonV {
    JsonV::Object(
        Map::empty().insert("id"@, JsonV::Str(id)).insert("type"@, JsonV::Str("message"@)).insert(
            "role"@,
            JsonV::Str("assistant"@),
        ).insert("content"@, JsonV::Array(content)).insert("model"@, JsonV::Str(model)).insert(
            "stop_reason"@,
            JsonV::Str(stop_reason),
        ).insert("stop_sequence"@, JsonV::Null).insert("usage"@, usage_json(usage)),
    )
}

/// Payload of `content_block_start`.
pub open spec fn block_start_json(index: int, block: JsonV) -> JsonV {
    JsonV::Object(
        Map::empty().insert("type"@, JsonV::Str("content_block_start"@)).insert(
            "index"@,
            num(index),
        ).insert("content_block"@, block),
    )
}

/// Payload of `content_block_delta`.
pub open spec fn block_delta_json(index: int, delta: JsonV) -> JsonV {
    JsonV::Object(
        Map::empty().insert("type"@, JsonV::Str("content_block_delta"@)).insert(
            "index"@,
            num(index),
        ).insert("delta"@, delta),
    )
}

/// Payload of `content_block_stop`.
pub open spec fn block_stop_json(index: int) -> JsonV {
    JsonV::Object(
        Map::empty().insert("type"@, JsonV::Str("content_block_stop"@)).insert(
            "index"@,
            num(index),
        ),
    )
}

/// A part of a message with one text under `key`, such as a text block or a text delta.
pub open spec fn part_json(kind: Seq<char>, key: Seq<char>, text: Seq<char>) -> JsonV {
    JsonV::Object(Map::empty().insert("type"@, JsonV::Str(kind)).insert(key, JsonV::Str(text)))
}

/// A thinking block of a whole message.
pub open spec fn thinking_json(thinking: Seq<char>, signature: Seq<char>) -> JsonV {
    JsonV::Object(
        Map::empty().insert("type"@, JsonV::Str("thinking"@)).insert(
            "thinking"@,
            JsonV::Str(thinking),
        ).insert("signature"@, JsonV::Str(signature)),
    )
}

/// A tool call.
pub open spec fn tool_use_json(id: Seq<char>, name: Seq<char>, input: JsonV) -> JsonV {
    JsonV::Object(
        Map::empty().insert("type"@, JsonV::Str("tool_use"@)).insert("id"@, JsonV::Str(id)).insert(
            "name"@,
            JsonV::Str(name),
        ).insert("input"@, input),
    )
}

/// Payload of `message_delta`.
pub open spec fn message_delta_json(stop_reason: Seq<char>, usage: Usage) -> JsonV {
    JsonV::Object(
        Map::empty().insert("type"@, JsonV::Str("message_delta"@)).insert(
            "delta"@,
            JsonV::Object(
                Map::empty().insert("stop_reason"@, JsonV::Str(stop_reason)).insert(
                    "stop_sequence"@,
                    JsonV::Null,
                ),
            ),
        ).insert("usage"@, usage_json(usage)),
    )
}

/// Payload of `message_stop`.
pub open spec fn message_stop_json() -> JsonV {
    JsonV::Object(Map::empty().insert("type"@, JsonV::Str("message_stop"@)))
}

/// An event that starts a block.
pub open spec fn start_event(index: int, block: JsonV) -> SseEventV {
    SseEventV { event: "content_block_start"@, data: block_start_json(index, block) }
}

/// An event that adds to a block.
pub open spec fn delta_event(index: int, delta: JsonV) -> SseEventV {
    SseEventV { event: "content_block_delta"@, data: block_delta_json(index, delta) }
}

/// An event that closes a block.
pub open spec fn stop_event(index: int) -> SseEventV {
    SseEventV { event: "content_block_stop"@, data: block_stop_json(index) }
}

/// An event that adds to a thinking block.
pub open spec fn thinking_delta_event(index: int, thinking: Seq<char>) -> SseEventV {
    delta_event(index, part_json("thinking_delta"@, "thinking"@, thinking))
}

/// An event that adds text to a text block.
pub open spec fn text_delta_event(index: int, text: Seq<char>) -> SseEventV {
    delta_event(index, part_json("text_delta"@, "text"@, text))
}

/// An event that adds arguments to a tool call.
pub open spec fn input_delta_event(index: int, partial: Seq<char>) -> SseEventV {
    delta_event(index, part_json("input_json_delta"@, "partial_json"@, partial))
}

/// An event that signs a thinking block.
pub open spec fn signature_delta_event(index: int) -> SseEventV {
    delta_event(
        index,
        part_json("signature_delta"@, "signature"@, THINKING_SIGNATURE_PLACEHOLDER@),
    )
}

/// The event that starts a message.
pub open spec fn message_start_event(id: Seq<char>, model: Seq<char>, usage: Usage) -> SseEventV {
    SseEventV { event: "message_start"@, data: message_start_json(id, model, usage) }
}

/// The event with the final stop reason and token counts.
pub open spec fn message_delta_event(stop_reason: Seq<char>, usage: Usage) -> SseEventV {
    SseEventV { event: "message_delta"@, data: message_delta_json(stop_reason, usage) }
}

/// The event that ends a message.
pub open spec fn message_stop_event() -> SseEventV {
    SseEventV { event: "message_stop"@, data: message_stop_json() }
}

/// The event that tells of an error.
pub open spec fn error_event(error_type: Seq<char>, message: Seq<char>) -> SseEventV {
    SseEventV {
        event: "error"@,
        data: JsonV::Object(
            Map::empty().insert("type"@, JsonV::Str("error"@)).insert(
                "error"@,
                JsonV::Object(
                    Map::empty().insert("type"@, JsonV::Str(error_type)).insert(
                        "message"@,
                        JsonV::Str(message),
                    ),
                ),
            ),
        ),
    }
}

pub fn usage_object(u: Usage) -> (r: Json)
    ensures
        r.view() == usage_json(u),
{
    Json::Object(
        JsonObject::new().with("input_tokens", Json::integer(u.input_tokens as i64)).with(
            "output_tokens",
            Json::integer(u.output_tokens as i64),
        ).with(
            "cache_creation_input_tokens",
            Json::integer(u.cache_creation_input_tokens as i64),
        ).with("cache_read_input_tokens", Json::integer(u.cache_read_input_tokens as i64)),
    )
}

pub fn message_start_payload(id: &str, model: &str, usage: Usage) -> (r: Json)
    ensures
        r.view() == message_start_json(id@, model@, usage),
{
    let empty: Vec<Json> = Vec::new();
    assert(values(empty@) =~= Seq::empty());
    let message = JsonObject::new().with("id", Json::text(id)).with(
        "type",
        Json::text("message"),
    ).with("role", Json::text("assistant")).with("content", Json::array(empty)).with(
        "model",
        Json::text(model),
    ).with("stop_reason", Json::Null).with("stop_sequence", Json::Null).with(
        "usage",
        usage_object(usage),
    );
    Json::Object(
        JsonObject::new().with("type", Json::text("message_start")).with(
            "message",
            Json::Object(message),
        ),
    )
}

/// A whole message.
pub fn message_body(
    id: &str,
    model: &str,
    content: Vec<Json>,
    stop_reason: &str,
    usage: Usage,
) -> (r: Json)
    ensures
        r.view() == message_json(id@, model@, values(content@), stop_reason@, usage),
{
    Json::Object(
        JsonObject::new().with("id", Json::text(id)).with("type", Json::text("message")).with(
            "role",
            Json::text("assistant"),
        ).with("content", Json::array(content)).with("model", Json::text(model)).with(
            "stop_reason",
            Json::text(stop_reason),
        ).with("stop_sequence", Json::Null).with("usage", usage_object(usage)),
    )
}

pub fn block_start_payload(index: i32, block: Json) -> (r: Json)
    ensures
        r.view() == block_start_json(index as int, block.view()),
{
    Json::Object(
        JsonObject::new().with("type", Json::text("content_block_start")).with(
            "index",
            Json::integer(index as i64),
        ).with("content_block", block),
    )
}

pub fn block_delta_payload(index: i32, delta: Json) -> (r: Json)
    ensures
        r.view() == block_delta_json(index as int, delta.view()),
{
    Json::Object(
        JsonObject::new().with("type", Json::text("content_block_delta")).with(
            "index",
            Json::integer(index as i64),
        ).with("delta", delta),
    )
}

pub fn part(kind: &str, key: &str, text: &str) -> (r: Json)
    ensures
        r.view() == part_json(kind@, key@, text@),
{
    Json::Object(JsonObject::new().with("type", Json::text(kind)).with(key, Json::text(text)))
}

pub fn thinking_block(thinking: &str, signature: &str) -> (r: Json)
    ensures
        r.view() == thinking_json(thinking@, signature@),
{
    Json::Object(
        JsonObject::new().with("type", Json::text("thinking")).with(
            "thinking",
            Json::text(thinking),
        ).with("signature", Json::text(signature)),
    )
}

pub fn tool_use_block(id: &str, name: &str, input: Json) -> (r: Json)
    ensures
        r.view() == tool_use_json(id@, name@, input.view()),
{
    Json::Object(
        JsonObject::new().with("type", Json::text("tool_use")).with("id", Json::text(id)).with(
            "name",
            Json::text(name),
        ).with("input", input),
    )
}

pub fn start(index: i32, block: Json) -> (r: SseEvent)
    ensures
        r.view() == start_event(index as int, block.view()),
{
    SseEvent::new("content_block_start", block_start_payload(index, block))
}

pub fn delta(index: i32, part: Json) -> (r: SseEvent)
    ensures
        r.view() == delta_event(index as int, part.view()),
{
    SseEvent::new("content_block_delta", block_delta_payload(index, part))
}

pub fn stop(index: i32) -> (r: SseEvent)
    ensures
        r.view() == stop_event(index as int),
{
    SseEvent::new(
        "content_block_stop",
        Json::Object(
            JsonObject::new().with("type", Json::text("content_block_stop")).with(
                "index",
                Json::integer(index as i64),
            ),
        ),
    )
}

pub fn thinking_delta(index: i32, thinking: &str) -> (r: SseEvent)
    ensures
        r.view() == thinking_delta_event(index as int, thinking@),
{
    delta(index, part("thinking_delta", "thinking", thinking))
}

pub fn signature_delta(index: i32) -> (r: SseEvent)
    ensures
        r.view() == signature_delta_event(index as int),
{
    delta(index, part("signature_delta", "signature", THINKING_SIGNATURE_PLACEHOLDER))
}

pub fn message_delta(stop_reason: &str, usage: Usage) -> (r: SseEvent)
    ensures
        r.view() == message_delta_event(stop_reason@, usage),
{
    let change = JsonObject::new().with("stop_reason", Json::text(stop_reason)).with(
        "stop_sequence",
        Json::Null,
    );
    SseEvent::new(
        "message_delta",
        Json::Object(
            JsonObject::new().with("type", Json::text("message_delta")).with(
                "delta",
                Json::Object(change),
            ).with("usage", usage_object(usage)),
        ),
    )
}

pub fn message_stop() -> (r: SseEvent)
    ensures
        r.view() == message_stop_event(),
{
    SseEvent::new(
        "message_stop",
        Json::Object(JsonObject::new().with("type", Json::text("message_stop"))),
    )
}

pub fn error(error_type: &str, message: &str) -> (r: SseEvent)
    ensures
        r.view() == error_event(error_type@, message@),
{
    let detail = JsonObject::new().with("type", Json::text(error_type)).with(
        "message",
        Json::text(message),
    );
    SseEvent::new(
        "error",
        Json::Object(
            JsonObject::new().with("type", Json::text("error")).with(
                "error",
                Json::Object(detail),
            ),
        ),
    )
}

} // verus!
