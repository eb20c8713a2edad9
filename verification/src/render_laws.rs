//! A rendered answer delivers every block in full.

use crate::answer_laws::{is_message, lemma_message_keys, tells_counts};
use crate::delivery_laws::{lemma_said_concat, lemma_said_one, lemma_text_of, said, text_of};
use crate::json::{field, printed, string_field, values, Json, JsonV};
use crate::reasoning_laws::{lemma_thought_concat, lemma_thought_of, lemma_thought_one, thought};
use crate::reasoning_laws::thought_of;
use crate::render::{answer_events, block_events, block_number, build_sse_events};
use crate::render::{build_sse_events_with_id, content_events, render_json, rendered_delta};
use crate::render::text_under;
use crate::sse::{message_start_event, message_stop_event, views, SseEvent, SseEventV, Usage};
use vstd::prelude::*;

verus! {

/// The texts of the blocks of one kind, in a row: what stands under `key` in each.
pub open spec fn texts_in(content: Seq<JsonV>, kind: Seq<char>, key: Seq<char>) -> Seq<char>
    decreases content.len(),
{
    if content.len() == 0 {
        Seq::empty()
    } else {
        texts_in(content.drop_last(), kind, key) + if string_field(content.last(), "type"@) == Some(
            kind,
        ) && string_field(content.last(), key) is Some {
            string_field(content.last(), key)->0
        } else {
            Seq::empty()
        }
    }
}

proof fn lemma_kinds()
    ensures
        "text"@ != "thinking"@,
        "text"@ != "redacted_thinking"@,
        "thinking"@ != "redacted_thinking"@,
        "tool_use"@ != "text"@,
        "tool_use"@ != "thinking"@,
        "tool_use"@ != "redacted_thinking"@,
        "server_tool_use"@ != "text"@,
        "server_tool_use"@ != "thinking"@,
        "server_tool_use"@ != "redacted_thinking"@,
        "server_tool_use"@ != "tool_use"@,
        "web_search_tool_result"@ != "text"@,
        "web_search_tool_result"@ != "thinking"@,
        "web_search_tool_result"@ != "redacted_thinking"@,
        "web_search_tool_result"@ != "tool_use"@,
        "text"@.len() > 0,
        "thinking"@.len() > 0,
{
    reveal_strlit("text");
    reveal_strlit("thinking");
    reveal_strlit("redacted_thinking");
    reveal_strlit("tool_use");
    reveal_strlit("server_tool_use");
    reveal_strlit("web_search_tool_result");
    assert("text"@.len() == 4 && "thinking"@.len() == 8 && "redacted_thinking"@.len() == 17
        && "tool_use"@.len() == 8 && "server_tool_use"@.len() == 15
        && "web_search_tool_result"@.len() == 22);
    assert("tool_use"@[1] == 'o' && "thinking"@[1] == 'h');
}

proof fn lemma_several(events: Seq<SseEventV>)
    requires
        events.len() <= 4,
    ensures
        events.len() == 0 ==> said(events) == Seq::<char>::empty() && thought(events) == Seq::<
            char,
        >::empty(),
        events.len() == 2 ==> said(events) == text_of(events[0])
            + text_of(events[1]) && thought(events)
            == thought_of(events[0]) + thought_of(
            events[1],
        ),
        events.len() == 3 ==> said(events) == text_of(events[0])
            + text_of(events[1]) + text_of(events[2])
            && thought(events) == thought_of(events[0])
            + thought_of(events[1]) + thought_of(
            events[2],
        ),
        events.len() == 4 ==> said(events) == text_of(events[0])
            + text_of(events[1]) + text_of(events[2])
            + text_of(events[3]) && thought(events)
            == thought_of(events[0]) + thought_of(
            events[1],
        ) + thought_of(events[2]) + thought_of(
            events[3],
        ),
{
    reveal_with_fuel(said, 5);
    reveal_with_fuel(thought, 5);
    if events.len() > 1 {
        let a = events.drop_last();
        let b = a.drop_last();
        assert(a.len() == events.len() - 1 && b.len() == events.len() - 2);
        if events.len() == 2 {
            assert(said(events) =~= text_of(events[0])
                + text_of(events[1]));
            assert(thought(events) =~= thought_of(events[0])
                + thought_of(events[1]));
        } else if events.len() == 3 {
            assert(b.drop_last() =~= Seq::empty());
            assert(said(events) =~= text_of(events[0])
                + text_of(events[1]) + text_of(
                events[2],
            ));
            assert(thought(events) =~= thought_of(events[0])
                + thought_of(events[1]) + thought_of(
                events[2],
            ));
        } else {
            let c = b.drop_last();
            assert(c.drop_last() =~= Seq::empty());
            assert(said(events) =~= text_of(events[0])
                + text_of(events[1]) + text_of(
                events[2],
            ) + text_of(events[3]));
            assert(thought(events) =~= thought_of(events[0])
                + thought_of(events[1]) + thought_of(
                events[2],
            ) + thought_of(events[3]));
        }
    }
}

proof fn lemma_block_is_delivered(index: int, block: JsonV)
    ensures
        said(block_events(index, block)) == (if string_field(block, "type"@) == Some("text"@)
            && string_field(block, "text"@) is Some {
            string_field(block, "text"@)->0
        } else {
            Seq::empty()
        }),
        thought(block_events(index, block)) == (if string_field(block, "type"@) == Some(
            "thinking"@,
        ) && string_field(block, "thinking"@) is Some {
            string_field(block, "thinking"@)->0
        } else {
            Seq::empty()
        }),
{
    lemma_kinds();
    lemma_text_of();
    lemma_thought_of();
    let events = block_events(index, block);
    lemma_several(events);
    assert(said(events) =~= if text_under(block, "type"@) == "text"@ {
        text_under(block, "text"@)
    } else {
        Seq::empty()
    });
    assert(thought(events) =~= if text_under(block, "type"@) == "thinking"@ {
        text_under(block, "thinking"@)
    } else {
        Seq::empty()
    });
}

proof fn lemma_content_is_delivered(content: Seq<JsonV>)
    ensures
        said(content_events(content)) == texts_in(content, "text"@, "text"@),
        thought(content_events(content)) == texts_in(content, "thinking"@, "thinking"@),
    decreases content.len(),
{
    if content.len() > 0 {
        let front = content.drop_last();
        lemma_content_is_delivered(front);
        let index = block_number(content.len() - 1);
        lemma_block_is_delivered(index, content.last());
        lemma_said_concat(content_events(front), block_events(index, content.last()));
        lemma_thought_concat(content_events(front), block_events(index, content.last()));
    }
}

proof fn lemma_answer_is_delivered(
    id: Seq<char>,
    model: Seq<char>,
    content: Seq<JsonV>,
    stop_reason: Seq<char>,
    usage: Usage,
)
    ensures
        said(answer_events(id, model, content, stop_reason, usage)) == texts_in(
            content,
            "text"@,
            "text"@,
        ),
        thought(answer_events(id, model, content, stop_reason, usage)) == texts_in(
            content,
            "thinking"@,
            "thinking"@,
        ),
{
    lemma_text_of();
    lemma_thought_of();
    let start = message_start_event(id, model, Usage { output_tokens: 0, ..usage });
    let tail = seq![rendered_delta(stop_reason, usage), message_stop_event()];
    let all = content_events(content);
    lemma_said_one(start);
    lemma_thought_one(start);
    lemma_several(tail);
    lemma_content_is_delivered(content);
    lemma_said_concat(seq![start], all);
    lemma_said_concat(seq![start] + all, tail);
    lemma_thought_concat(seq![start], all);
    lemma_thought_concat(seq![start] + all, tail);
    assert(said(seq![start] + all + tail) =~= said(all));
    assert(thought(seq![start] + all + tail) =~= thought(all));
}

/// Rendering delivers the text of every text block in full, and the thinking of every thinking
/// block: the text deltas of the rendered answer, put together, are the texts of its text blocks
/// put together, and the thinking deltas the thinking of its thinking blocks.
pub proof fn law_rendered_text_is_delivered(
    message_id: &str,
    model: &str,
    content: Vec<Json>,
    stop_reason: &str,
    usage: Usage,
    r: Vec<SseEvent>,
)
    requires
        call_ensures(build_sse_events_with_id, (message_id, model, content, stop_reason, usage), r),
    ensures
        said(views(r@)) == texts_in(values(content@), "text"@, "text"@),
        thought(views(r@)) == texts_in(values(content@), "thinking"@, "thinking"@),
{
    lemma_answer_is_delivered(message_id@, model@, values(content@), stop_reason@, usage);
}

/// So it is for an answer with a new message id.
pub proof fn law_newly_rendered_text_is_delivered(
    model: &str,
    content: Vec<Json>,
    stop_reason: &str,
    counts: (i32, i32, i32, i32),
    r: Vec<SseEvent>,
)
    requires
        call_ensures(
            build_sse_events,
            (model, content, stop_reason, counts.0, counts.1, counts.2, counts.3),
            r,
        ),
    ensures
        said(views(r@)) == texts_in(values(content@), "text"@, "text"@),
        thought(views(r@)) == texts_in(values(content@), "thinking"@, "thinking"@),
{
    let usage = Usage {
        input_tokens: counts.0,
        output_tokens: counts.1,
        cache_creation_input_tokens: counts.2,
        cache_read_input_tokens: counts.3,
    };
    let id = choose|id: Seq<char>| #[trigger]
        crate::ids::id_shape(id, "msg_"@, 24) && views(r@) == answer_events(
            id,
            model@,
            values(content@),
            stop_reason@,
            usage,
        );
    lemma_answer_is_delivered(id, model@, values(content@), stop_reason@, usage);
}

/// An event of the given name for the block with the given number.
pub open spec fn is_event_of(e: SseEventV, name: Seq<char>, index: int) -> bool {
    e.event == name && string_field(e.data, "type"@) == Some(name) && field(e.data, "index"@)
        == Some(JsonV::Int(index))
}

/// An event that starts the block with the given number, which shows up as `shown`.
pub open spec fn starts(e: SseEventV, index: int, shown: JsonV) -> bool {
    is_event_of(e, "content_block_start"@, index) && field(e.data, "content_block"@) == Some(shown)
}

/// An event that adds to the block with the given number: `text` under `key`.
pub open spec fn adds(
    e: SseEventV,
    index: int,
    kind: Seq<char>,
    key: Seq<char>,
    text: Seq<char>,
) -> bool {
    is_event_of(e, "content_block_delta"@, index) && (field(e.data, "delta"@) matches Some(delta)
        && string_field(delta, "type"@) == Some(kind) && string_field(delta, key) == Some(text))
}

/// The events from position `k` on stop the block with the given number behind `n` others.
pub open spec fn stops(events: Seq<SseEventV>, k: int, n: int, index: int) -> bool {
    0 <= k && k + n < events.len() && is_event_of(events[k + n], "content_block_stop"@, index)
}

/// A text under `key`, or nothing.
pub open spec fn text_at(block: JsonV, key: Seq<char>) -> Seq<char> {
    match string_field(block, key) {
        Some(text) => text,
        None => Seq::empty(),
    }
}

/// The events from position `k` on are those of a block: its start, what is added to it, and its
/// stop, with nothing in between.
pub open spec fn renders(events: Seq<SseEventV>, k: int, index: int, block: JsonV) -> bool {
    let kind = string_field(block, "type"@);
    &&& kind == Some("text"@) ==> {
        &&& stops(events, k, 2, index)
        &&& field(events[k].data, "content_block"@) matches Some(shown) && string_field(
            shown,
            "type"@,
        ) == kind && is_event_of(events[k], "content_block_start"@, index)
        &&& adds(events[k + 1], index, "text_delta"@, "text"@, text_at(block, "text"@))
    }
    &&& kind == Some("thinking"@) && text_at(block, "thinking"@).len() > 0 ==> {
        &&& stops(events, k, 3, index)
        &&& field(events[k].data, "content_block"@) matches Some(shown) && string_field(
            shown,
            "type"@,
        ) == kind && is_event_of(events[k], "content_block_start"@, index)
        &&& adds(
            events[k + 1],
            index,
            "thinking_delta"@,
            "thinking"@,
            text_at(block, "thinking"@),
        )
        &&& adds(
            events[k + 2],
            index,
            "signature_delta"@,
            "signature"@,
            "kiro-rs-thinking-signature"@,
        )
    }
    &&& kind == Some("thinking"@) && text_at(block, "thinking"@).len() == 0 ==> {
        &&& stops(events, k, 2, index)
        &&& field(events[k].data, "content_block"@) matches Some(shown) && string_field(
            shown,
            "type"@,
        ) == kind && is_event_of(events[k], "content_block_start"@, index)
        &&& adds(
            events[k + 1],
            index,
            "signature_delta"@,
            "signature"@,
            "kiro-rs-thinking-signature"@,
        )
    }
    &&& kind == Some("redacted_thinking"@) ==> {
        &&& stops(events, k, 1, index)
        &&& field(events[k].data, "content_block"@) matches Some(shown) && string_field(
            shown,
            "type"@,
        ) == kind && string_field(shown, "data"@) == Some(text_at(block, "data"@)) && is_event_of(
            events[k],
            "content_block_start"@,
            index,
        )
    }
    &&& kind == Some("tool_use"@) ==> {
        &&& stops(events, k, 2, index)
        &&& field(events[k].data, "content_block"@) matches Some(shown) && string_field(
            shown,
            "type"@,
        ) == kind && string_field(shown, "id"@) == Some(text_at(block, "id"@)) && string_field(
            shown,
            "name"@,
        ) == Some(text_at(block, "name"@)) && is_event_of(
            events[k],
            "content_block_start"@,
            index,
        )
        &&& adds(
            events[k + 1],
            index,
            "input_json_delta"@,
            "partial_json"@,
            printed(
                match field(block, "input"@) {
                    Some(input) => input,
                    None => JsonV::Object(Map::empty()),
                },
            ),
        )
    }
    &&& kind == Some("server_tool_use"@) || kind == Some("web_search_tool_result"@) ==> {
        &&& stops(events, k, 1, index)
        &&& starts(events[k], index, block)
    }
}

proof fn lemma_event_keys()
    ensures
        forall|index: int, block: JsonV|
            is_event_of(
                #[trigger] crate::sse::start_event(index, block),
                "content_block_start"@,
                index,
            ) && field(crate::sse::start_event(index, block).data, "content_block"@) == Some(block),
        forall|index: int, delta: JsonV|
            is_event_of(
                #[trigger] crate::sse::delta_event(index, delta),
                "content_block_delta"@,
                index,
            ) && field(crate::sse::delta_event(index, delta).data, "delta"@) == Some(delta),
        forall|index: int|
            is_event_of(
                #[trigger] crate::sse::stop_event(index),
                "content_block_stop"@,
                index,
            ),
{
    reveal_strlit("type");
    reveal_strlit("index");
    reveal_strlit("delta");
    reveal_strlit("content_block");
    assert("type"@.len() == 4 && "index"@.len() == 5 && "delta"@.len() == 5
        && "content_block"@.len() == 13);
    assert("index"@[0] == 'i' && "delta"@[0] == 'd');
}

proof fn lemma_part_keys()
    ensures
        forall|kind: Seq<char>, text: Seq<char>|
            string_field(
                #[trigger] crate::sse::part_json(kind, "text"@, text),
                "type"@,
            ) == Some(kind) && string_field(
                crate::sse::part_json(kind, "text"@, text),
                "text"@,
            ) == Some(text),
        forall|kind: Seq<char>, text: Seq<char>|
            string_field(
                #[trigger] crate::sse::part_json(kind, "thinking"@, text),
                "type"@,
            ) == Some(kind) && string_field(
                crate::sse::part_json(kind, "thinking"@, text),
                "thinking"@,
            ) == Some(text),
        forall|kind: Seq<char>, text: Seq<char>|
            string_field(
                #[trigger] crate::sse::part_json(kind, "signature"@, text),
                "type"@,
            ) == Some(kind) && string_field(
                crate::sse::part_json(kind, "signature"@, text),
                "signature"@,
            ) == Some(text),
        forall|kind: Seq<char>, text: Seq<char>|
            string_field(
                #[trigger] crate::sse::part_json(kind, "data"@, text),
                "type"@,
            ) == Some(kind) && string_field(
                crate::sse::part_json(kind, "data"@, text),
                "data"@,
            ) == Some(text),
        forall|kind: Seq<char>, text: Seq<char>|
            string_field(
                #[trigger] crate::sse::part_json(kind, "partial_json"@, text),
                "type"@,
            ) == Some(kind) && string_field(
                crate::sse::part_json(kind, "partial_json"@, text),
                "partial_json"@,
            ) == Some(text),
        forall|id: Seq<char>, name: Seq<char>, input: JsonV|
            {
                let call = #[trigger] crate::sse::tool_use_json(id, name, input);
                string_field(call, "type"@) == Some("tool_use"@) && string_field(call, "id"@)
                    == Some(id) && string_field(call, "name"@) == Some(name) && field(
                    call,
                    "input"@,
                ) == Some(input)
            },
{
    reveal_strlit("type");
    reveal_strlit("text");
    reveal_strlit("thinking");
    reveal_strlit("signature");
    reveal_strlit("data");
    reveal_strlit("partial_json");
    reveal_strlit("id");
    reveal_strlit("name");
    reveal_strlit("input");
    assert("type"@.len() == 4 && "text"@.len() == 4 && "thinking"@.len() == 8 && "signature"@.len()
        == 9 && "data"@.len() == 4 && "partial_json"@.len() == 12 && "id"@.len() == 2
        && "name"@.len() == 4 && "input"@.len() == 5);
    assert("type"@[1] == 'y' && "text"@[1] == 'e' && "data"@[1] == 'a' && "name"@[0] == 'n'
        && "type"@[0] == 't');
}

proof fn lemma_block_is_rendered(index: int, block: JsonV)
    ensures
        renders(block_events(index, block), 0, index, block),
{
    lemma_kinds();
    lemma_event_keys();
    lemma_part_keys();
}

proof fn lemma_content_is_rendered(content: Seq<JsonV>, i: int) -> (k: int)
    requires
        0 <= i < content.len(),
    ensures
        0 <= k,
        k + block_events(block_number(i), content[i]).len() <= content_events(content).len(),
        content_events(content).subrange(
            k,
            k + block_events(block_number(i), content[i]).len(),
        ) == block_events(block_number(i), content[i]),
    decreases content.len(),
{
    let front = content.drop_last();
    let a = content_events(front);
    let b = block_events(block_number(content.len() - 1), content.last());
    if i == content.len() - 1 {
        assert((a + b).subrange(a.len() as int, (a.len() + b.len()) as int) =~= b);
        a.len() as int
    } else {
        let k = lemma_content_is_rendered(front, i);
        let own = block_events(block_number(i), content[i]);
        assert((a + b).subrange(k, k + own.len()) =~= a.subrange(k, k + own.len()));
        k
    }
}

/// Each block of an answer is rendered on its own, under its own number: its start, all that it
/// holds, and its stop. Text and thinking are added in full, a thinking block is signed, a tool
/// call keeps its id, its name and its arguments, and what the relay itself searched for is
/// passed on as it is.
pub proof fn law_each_block_is_rendered(
    message_id: &str,
    model: &str,
    content: Vec<Json>,
    stop_reason: &str,
    usage: Usage,
    r: Vec<SseEvent>,
    i: int,
)
    requires
        call_ensures(build_sse_events_with_id, (message_id, model, content, stop_reason, usage), r),
        0 <= i < content@.len(),
        i <= i32::MAX,
    ensures
        exists|k: int| #[trigger] renders(views(r@), k, i, values(content@)[i]),
{
    let all = values(content@);
    let block = all[i];
    let own = block_events(block_number(i), block);
    let k = lemma_content_is_rendered(all, i);
    lemma_block_is_rendered(block_number(i), block);
    let events = views(r@);
    let middle = content_events(all);
    assert forall|j: int| 0 <= j < own.len() implies events[k + 1 + j] == #[trigger] own[j] by {
        assert(middle.subrange(k, k + own.len())[j] == middle[k + j]);
        assert(events[k + 1 + j] == middle[k + j]);
    }
    assert(block_number(i) == i);
    assert(own.len() > 0 ==> events[k + 1] == own[0]);
    assert(own.len() > 1 ==> events[k + 1 + 1] == own[1]);
    assert(own.len() > 2 ==> events[k + 1 + 2] == own[2]);
    assert(own.len() > 3 ==> events[k + 1 + 3] == own[3]);
    lemma_kinds();
    assert(renders(events, k + 1, i, block));
}

/// A kind of block that can be rendered.
pub open spec fn is_known_kind(kind: Seq<char>) -> bool {
    kind == "text"@ || kind == "thinking"@ || kind == "redacted_thinking"@ || kind == "tool_use"@
        || kind == "server_tool_use"@ || kind == "web_search_tool_result"@
}

/// A block of a kind that is not known leaves no trace in a rendered answer.
pub proof fn law_unknown_blocks_are_left_out(
    message_id: &str,
    model: &str,
    content: Vec<Json>,
    more: Vec<Json>,
    stop_reason: &str,
    usage: Usage,
    r: Vec<SseEvent>,
    q: Vec<SseEvent>,
)
    requires
        call_ensures(build_sse_events_with_id, (message_id, model, content, stop_reason, usage), r),
        call_ensures(build_sse_events_with_id, (message_id, model, more, stop_reason, usage), q),
        more@.len() == content@.len() + 1,
        values(more@).drop_last() == values(content@),
        !is_known_kind(text_at(values(more@).last(), "type"@)),
    ensures
        views(q@) == views(r@),
{
    assert(content_events(values(more@)) =~= content_events(values(content@)));
}

/// A rendered answer starts with its id, its model and its input counts, and with an output count
/// of zero; it ends with the reason for its end and with the final counts, and then stops.
pub proof fn law_rendered_answer_tells_counts(
    message_id: &str,
    model: &str,
    content: Vec<Json>,
    stop_reason: &str,
    usage: Usage,
    r: Vec<SseEvent>,
)
    requires
        call_ensures(build_sse_events_with_id, (message_id, model, content, stop_reason, usage), r),
    ensures
        ({
            let events = views(r@);
            let n = events.len() as int;
            &&& n >= 3
            &&& events[0].event == "message_start"@
            &&& field(events[0].data, "message"@) matches Some(m) && string_field(m, "id"@) == Some(
                message_id@,
            ) && string_field(m, "model"@) == Some(model@) && string_field(m, "role"@) == Some(
                "assistant"@,
            ) && (field(m, "usage"@) matches Some(u) && tells_counts(
                u,
                (
                    usage.input_tokens as int,
                    0,
                    usage.cache_creation_input_tokens as int,
                    usage.cache_read_input_tokens as int,
                ),
            ))
            &&& events[n - 2].event == "message_delta"@
            &&& field(events[n - 2].data, "delta"@) matches Some(d) && string_field(
                d,
                "stop_reason"@,
            ) == Some(stop_reason@)
            &&& field(events[n - 2].data, "usage"@) matches Some(u) && field(
                u,
                "output_tokens"@,
            ) == Some(JsonV::Int(usage.output_tokens as int)) && field(
                u,
                "cache_creation_input_tokens"@,
            ) == Some(JsonV::Int(usage.cache_creation_input_tokens as int)) && field(
                u,
                "cache_read_input_tokens"@,
            ) == Some(JsonV::Int(usage.cache_read_input_tokens as int))
            &&& events[n - 1].event == "message_stop"@
        }),
{
    lemma_message_keys();
    reveal_strlit("type");
    reveal_strlit("message");
    reveal_strlit("delta");
    reveal_strlit("usage");
    reveal_strlit("id");
    reveal_strlit("role");
    reveal_strlit("model");
    reveal_strlit("content");
    reveal_strlit("stop_reason");
    reveal_strlit("stop_sequence");
    reveal_strlit("output_tokens");
    reveal_strlit("cache_creation_input_tokens");
    reveal_strlit("cache_read_input_tokens");
    assert("type"@.len() == 4 && "message"@.len() == 7 && "delta"@.len() == 5 && "usage"@.len()
        == 5 && "id"@.len() == 2 && "role"@.len() == 4 && "model"@.len() == 5 && "content"@.len()
        == 7 && "stop_reason"@.len() == 11 && "stop_sequence"@.len() == 13 && "output_tokens"@.len()
        == 13 && "cache_creation_input_tokens"@.len() == 27 && "cache_read_input_tokens"@.len()
        == 23);
    assert("delta"@[0] == 'd' && "usage"@[0] == 'u' && "model"@[0] == 'm' && "type"@[0] == 't'
        && "role"@[0] == 'r');
}

/// A whole answer carries its model, its content, the reason for its end and its counts, each
/// under its own name.
pub proof fn law_rendered_message_carries_the_answer(
    model: &str,
    content: Vec<Json>,
    stop_reason: &str,
    counts: (i32, i32, i32, i32),
    r: Json,
)
    requires
        call_ensures(
            render_json,
            (model, content, stop_reason, counts.0, counts.1, counts.2, counts.3),
            r,
        ),
    ensures
        string_field(r.view(), "id"@) is Some,
        is_message(
            r.view(),
            string_field(r.view(), "id"@)->0,
            model@,
            values(content@),
            stop_reason@,
            (counts.0 as int, counts.1 as int, counts.2 as int, counts.3 as int),
        ),
{
    lemma_message_keys();
}

} // verus!
