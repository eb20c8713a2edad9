use kiro_relay::accounting::{
    AppState, AttemptOutcome, Closing, RequestTracer, TraceAttempt, UsageRecordHook,
};
use kiro_relay::buffered::BufferedStreamContext;
use kiro_relay::errors::unreadable_response;
use kiro_relay::events::{Event, ReasoningContentEvent};
use kiro_relay::gather::{draft_reply, resolve_usage_input_tokens};
use kiro_relay::ids::{new_message_id, new_uuid};
use kiro_relay::json::{Json, JsonObject};
use kiro_relay::render::build_sse_events;
use kiro_relay::session::{tick, BufferedSession, StreamSession};
use kiro_relay::sse::{create_error_sse, SseEvent};
use kiro_relay::state::SseStateManager;
use kiro_relay::stream::StreamContext;
use kiro_relay::text_map::TextMap;
use kiro_relay::thinking::{
    extract_thinking_from_complete_text, find_char_boundary,
    find_real_thinking_end_tag_at_buffer_end, find_real_thinking_end_tag_with_boundary,
};
use kiro_relay::tokens::{estimate_tokens, reported_tokens, CacheUsage};
use kiro_relay::tool_json::{complete_tool_use, ToolJsonAccumulator, ToolUseEvent};
use kiro_relay::xml_filter::{strip_tool_use_xml_leaks, ToolUseXmlLeakFilter};
use serde_json::Value;

fn value(j: &Json) -> Value {
    serde_json::from_str(&j.to_text()).unwrap()
}

fn json(text: &str) -> Json {
    Json::parse(text).unwrap()
}

fn content(text: &str) -> Event {
    Event::AssistantResponse {
        content: text.to_string(),
    }
}

fn tool(id: &str, name: &str, input: &str, stop: bool) -> Event {
    Event::ToolUse(ToolUseEvent {
        name: name.to_string(),
        tool_use_id: id.to_string(),
        input: input.to_string(),
        stop,
    })
}

fn reasoning(text: &str) -> Event {
    Event::ReasoningContent(ReasoningContentEvent {
        text: text.to_string(),
        signature: Some("upstream".to_string()),
        redacted_content: None,
    })
}

/// Whether the events come in the order of the protocol.
fn in_order(events: &[(String, Value)]) -> bool {
    let mut started = false;
    let mut delta = false;
    let mut ended = false;
    let mut failed = false;
    let mut blocks: Vec<(i64, bool)> = Vec::new();
    for (name, data) in events {
        let index = data["index"].as_i64().unwrap_or(-1);
        let at = blocks.iter().position(|b| b.0 == index);
        let open = at.is_some_and(|i| blocks[i].1);
        match name.as_str() {
            "message_start" if !started => started = true,
            "content_block_start" if started && !delta && at.is_none() => {
                blocks.push((index, true))
            }
            "content_block_delta" if open => {}
            "content_block_stop" if open => blocks[at.unwrap()].1 = false,
            "message_delta" if started && !delta && blocks.iter().all(|b| !b.1) => delta = true,
            "message_stop" if delta && !ended => ended = true,
            "error" if ended && !failed => failed = true,
            _ => return false,
        }
    }
    started && delta && ended
}

fn plain(events: Vec<SseEvent>) -> Vec<(String, Value)> {
    events
        .iter()
        .map(|e| (e.event.clone(), value(&e.data)))
        .collect()
}

fn run(thinking: bool, events: &[Event]) -> Vec<(String, Value)> {
    let mut ctx = StreamContext::new_with_thinking("m", 5, thinking, TextMap::new());
    let mut out = plain(ctx.generate_initial_events());
    for e in events {
        out.extend(plain(ctx.process_kiro_event(e)));
    }
    out.extend(plain(ctx.generate_final_events()));
    out
}

fn said(events: &[(String, Value)]) -> String {
    events
        .iter()
        .filter(|e| e.0 == "content_block_delta")
        .filter_map(|e| e.1["delta"]["text"].as_str().map(|s| s.to_string()))
        .collect()
}

fn everything() -> Vec<Event> {
    vec![
        content("Hi <too"),
        reasoning("hm"),
        content("ls"),
        tool("a", "exec", "{\"x\":", false),
        content(" and"),
        tool("a", "exec", "1}", true),
        content(" more"),
        Event::ReasoningContent(ReasoningContentEvent {
            text: String::new(),
            signature: None,
            redacted_content: Some("secret".to_string()),
        }),
        tool("a", "exec", "{}", true),
        Event::Metering,
        Event::Unknown,
        Event::Error {
            error_code: "c".to_string(),
            error_message: "m".to_string(),
        },
        tool("b", "EnterPlanMode", "", false),
        content("."),
    ]
}

#[test]
fn streams_are_in_order() {
    for thinking in [false, true] {
        assert!(in_order(&run(thinking, &everything())));
        assert!(in_order(&run(thinking, &[])));
        assert!(in_order(&run(thinking, &[content("<thinking>a"), reasoning("b"), content("c")])));
        let mut cut = everything();
        cut.push(tool("z", "exec", "{\"half", false));
        let sent = run(thinking, &cut);
        assert!(in_order(&sent));
        assert_eq!(sent.last().unwrap().0, "error");
    }
}

#[test]
fn the_whole_answer_is_delivered() {
    assert_eq!(said(&run(false, &everything())), "Hi <tools and more.");
    assert_eq!(said(&run(true, &everything())), "Hi <tools and more.");
}

#[test]
fn reasoning_stays_hidden_without_thinking() {
    let sent = run(false, &[reasoning("deep"), content("x")]);
    assert!(sent.iter().all(|e| !e.1.to_string().contains("deep")));
}

/// The thinking blocks that were stopped before they were signed.
fn unsigned(events: &[(String, Value)]) -> Vec<i64> {
    let mut owing: Vec<i64> = Vec::new();
    let mut unsigned = Vec::new();
    for (name, data) in events {
        let index = data["index"].as_i64().unwrap_or(-1);
        if name == "content_block_stop" && owing.contains(&index) {
            unsigned.push(index);
        }
        if data["delta"]["type"] == "signature_delta" {
            assert_eq!(data["delta"]["signature"], "kiro-rs-thinking-signature");
            owing.retain(|i| *i != index);
        }
        let starts = data["content_block"]["type"] == "thinking";
        if starts || data["delta"]["thinking"].as_str().is_some_and(|t| !t.is_empty()) {
            owing.push(index);
        }
    }
    unsigned
}

#[test]
fn every_thinking_block_is_signed() {
    assert!(unsigned(&run(true, &everything())).is_empty());
    assert!(unsigned(&run(true, &[content("<thinking>a"), reasoning("b")])).is_empty());
    let split = [content("<thinking>\nabc</think"), content("ing> d")];
    assert!(unsigned(&run(true, &split)).is_empty());
    let calling = [content("<thinking>abc"), tool("t", "n", "{}", true)];
    assert!(unsigned(&run(true, &calling)).is_empty());
    let cut = run(true, &[content("<thinking>a long thought"), tool("t", "n", "{", true)]);
    assert!(unsigned(&cut).is_empty());
    assert!(unsigned(&run(true, &[content("<thinking>")])).is_empty());
    assert!(unsigned(&run(true, &[content("<thinking>\n")])).is_empty());
    let empty = [content("<thinking>"), tool("t", "n", "{", false)];
    assert!(unsigned(&run(true, &empty)).is_empty());
}

#[test]
fn a_thinking_block_without_thinking_is_signed() {
    let mut ctx = StreamContext::new_with_thinking("test-model", 1, true, TextMap::new());
    ctx.generate_initial_events();
    ctx.process_assistant_response("<thinking>");
    let last = plain(ctx.generate_final_events());
    let names: Vec<&str> = last.iter().map(|e| e.0.as_str()).collect();
    assert_eq!(
        names,
        vec![
            "content_block_delta",
            "content_block_delta",
            "content_block_stop",
            "content_block_start",
            "content_block_delta",
            "content_block_stop",
            "message_delta",
            "message_stop",
        ]
    );
    assert_eq!(last[1].1["index"], 0);
    assert_eq!(last[1].1["delta"]["type"], "signature_delta");
    assert_eq!(last[1].1["delta"]["signature"], "kiro-rs-thinking-signature");
    assert_eq!(last[2].1["index"], 0);
    assert_eq!(last[6].1["delta"]["stop_reason"], "max_tokens");
}

#[test]
fn thinking_cut_short_by_a_bad_call_is_signed() {
    let sent = run(true, &[content("<thinking>a long thought"), tool("t", "n", "{", true)]);
    let n = sent.len();
    assert_eq!(sent[n - 1].0, "error");
    assert_eq!(sent[n - 4].0, "content_block_stop");
    assert_eq!(sent[n - 5].1["delta"]["type"], "signature_delta");
}

#[test]
fn held_back_thinking_is_signed() {
    let mut held = BufferedStreamContext::new("m", 1, true, TextMap::new());
    held.process_and_buffer(&content("<thinking>"));
    let sent = plain(held.finish_and_get_all_events());
    assert!(unsigned(&sent).is_empty());
    assert!(sent.iter().any(|e| e.1["delta"]["type"] == "signature_delta"));
}

#[test]
fn rendered_thinking_is_signed() {
    let blocks = vec![
        json(r#"{"type": "thinking", "thinking": ""}"#),
        json(r#"{"type": "thinking", "thinking": "plan"}"#),
        json(r#"{"type": "text", "text": "x"}"#),
    ];
    let sent = plain(build_sse_events("m", blocks, "end_turn", 1, 1, 0, 0));
    assert!(unsigned(&sent).is_empty());
    let signed = sent.iter().filter(|e| e.1["delta"]["type"] == "signature_delta");
    assert_eq!(signed.count(), 2);
}

#[test]
fn pieces_make_the_call_that_the_whole_would_be() {
    let names = TextMap::new();
    let piece = |id: &str, input: &str, stop: bool| ToolUseEvent {
        name: id.to_string(),
        tool_use_id: id.to_string(),
        input: input.to_string(),
        stop,
    };
    let mut acc = ToolJsonAccumulator::new();
    assert!(acc.push(&piece("b", "[1", false), &names).unwrap().is_none());
    assert!(acc.push(&piece("a", "{\"x\":", false), &names).unwrap().is_none());
    assert!(acc.push(&piece("c", "{}", true), &names).unwrap().is_some());
    assert!(acc.push(&piece("a", "", false), &names).unwrap().is_none());
    assert!(acc.push(&piece("b", ",2", false), &names).unwrap().is_none());
    let call = acc.push(&piece("a", "7}", true), &names).unwrap().unwrap();
    let mut alone = ToolJsonAccumulator::new();
    let whole = alone.push(&piece("a", "{\"x\":7}", true), &names).unwrap().unwrap();
    assert_eq!((call.id, call.name), (whole.id, whole.name));
    assert_eq!(call.input.to_text(), whole.input.to_text());
    assert_eq!(call.input.to_text(), "{\"x\":7}");
    assert_eq!(acc.pending(), 1);
    let other = acc.push(&piece("b", "]", true), &names).unwrap().unwrap();
    assert_eq!(other.input.to_text(), "[1,2]");
    assert_eq!(acc.pending(), 0);
}

fn thought(events: &[(String, Value)]) -> String {
    events
        .iter()
        .filter(|e| e.0 == "content_block_delta")
        .filter_map(|e| e.1["delta"]["thinking"].as_str().map(|s| s.to_string()))
        .collect()
}

/// A text in pieces of `n` characters.
fn pieces(text: &str, n: usize) -> Vec<Event> {
    let chars: Vec<char> = text.chars().collect();
    chars.chunks(n).map(|c| content(&c.iter().collect::<String>())).collect()
}

#[test]
fn marked_thinking_is_delivered_however_it_is_cut() {
    let cases = [
        ("<thinking>abc</thinking>\n\nhello", "abc", "hello"),
        ("\n <thinking>\nfirst\nsecond 思考</thinking> \n answer </thinking> <thinking>x", "first\nsecond 思考", "answer </thinking> <thinking>x"),
        ("<thinking>\n</thinking>\r\n\r\nx", "", "x"),
        ("<thinking>if a < b and c</th then</thinking>done", "if a < b and c</th then", "done"),
        ("Let me see<thinking>hm</thinking> Yes", "hm", "Let me seeYes"),
        ("<thinking>only</thinking>  ", "only", " "),
        ("<thinking>never closed </thinki", "never closed </thinki", " "),
        ("Hello<thinking>cut", "cut", "Hello"),
    ];
    for (text, thinking, words) in cases {
        for n in 1..40 {
            let sent = run(true, &pieces(text, n));
            assert_eq!(thought(&sent), thinking, "{:?} in pieces of {}", text, n);
            assert_eq!(said(&sent), words, "{:?} in pieces of {}", text, n);
        }
    }
}

#[test]
fn calls_do_not_disturb_marked_thinking() {
    let mut events = pieces("<thinking>plan", 3);
    events.push(tool("a", "exec", "{\"x\":", false));
    events.extend(pieces(" more</think", 2));
    events.push(tool("a", "exec", "1}", true));
    events.extend(pieces("ing>\n", 1));
    events.push(tool("b", "exec", "{}", true));
    let sent = run(true, &events);
    assert_eq!(thought(&sent), "plan more");
    assert_eq!(said(&sent), "");
    events.extend(pieces("answer", 4));
    let sent = run(true, &events);
    assert_eq!(thought(&sent), "plan more");
    assert_eq!(said(&sent), "answer");
}

#[test]
fn a_whole_text_is_parted_as_a_stream_is() {
    let (thinking, text) =
        extract_thinking_from_complete_text("Let me see<thinking>\nhm</thinking>\n\nYes");
    assert_eq!(thinking.as_deref(), Some("hm"));
    assert_eq!(text, "Let me seeYes");
}

#[test]
fn mentions_of_tags_are_delivered() {
    let text = "write `<thinking>` and \"<thinking>\" or <tool_users> and '<thinking>";
    for n in [1, 2, 3, 5, 7, 11, 13, 100] {
        let events = pieces(text, n);
        let cut_behind_name = text.find("<tool_users").map(|i| (i + 9) % n == 0).unwrap();
        if !cut_behind_name {
            let sent = run(true, &events);
            assert_eq!(said(&sent), text, "in pieces of {}", n);
            assert_eq!(thought(&sent), "");
        }
    }
}

#[test]
fn leaked_calls_are_dropped() {
    let leak = "<tool_use id=\"1\">{\"a\": 1}</tool_use>";
    assert_eq!(strip_tool_use_xml_leaks(&format!("a {} b", leak)), "a  b");
    assert_eq!(strip_tool_use_xml_leaks(&format!("a <tool_use>{}", leak)), "a ");
    let whole = format!("x < y{}tail", leak);
    for cut in 0..=5 + leak.len() - "</tool_use>".len() {
        let mut filter = ToolUseXmlLeakFilter::new();
        let mut out = filter.filter(&whole[..cut]);
        out.push_str(&filter.filter(&whole[cut..]));
        out.push_str(&filter.finish());
        assert_eq!(out, "x < ytail", "cut at {}", cut);
    }
}

#[test]
fn disclosed_reasoning_is_delivered() {
    let mut events = everything();
    events.push(reasoning(" and hm"));
    assert_eq!(thought(&run(true, &events)), "hm and hm");
    assert_eq!(thought(&run(false, &events)), "");
    assert_eq!(said(&run(true, &[reasoning("only")])), " ");
    assert_eq!(said(&run(true, &[])), "");
    assert_eq!(said(&run(true, &[content(" \n")])), " \n");
}

#[test]
fn upstream_signatures_stay_hidden() {
    let sent = run(true, &[reasoning("deep"), content("x")]);
    assert!(sent.iter().all(|e| !e.1.to_string().contains("upstream")));
    let draft = draft_reply(&vec![reasoning("deep")], &TextMap::new(), true, 1, CacheUsage::none())
        .ok()
        .unwrap();
    assert!(!draft.content[0].to_text().contains("upstream"));
}

#[test]
fn held_back_streams_only_change_their_counts() {
    let mut ctx = BufferedStreamContext::new("m", 5, true, TextMap::new());
    for e in &everything() {
        ctx.process_and_buffer(e);
    }
    ctx.process_and_buffer(&Event::ContextUsage {
        input_tokens: 77,
        exhausted: false,
    });
    let sent = plain(ctx.finish_and_get_all_events());
    assert!(in_order(&sent));
    assert_eq!(sent[0].1["message"]["usage"]["input_tokens"], Value::from(77));
    assert_eq!(sent[0].1["message"]["usage"]["output_tokens"], Value::from(1));
    let delta = sent.iter().find(|e| e.0 == "message_delta").unwrap();
    assert_eq!(delta.1["usage"]["input_tokens"], Value::from(77));
    let live = run(true, &everything());
    assert_eq!(live.len(), sent.len());
    assert_eq!(ctx.final_usage().0, 77);
    assert_eq!(ctx.tool_json_error_message(), None);
}

#[test]
fn stop_reasons_are_told() {
    let reason = |events: &[Event]| {
        let sent = run(false, events);
        let delta = sent.iter().find(|e| e.0 == "message_delta").unwrap();
        delta.1["delta"]["stop_reason"].as_str().unwrap().to_string()
    };
    assert_eq!(reason(&[content("x")]), "end_turn");
    assert_eq!(reason(&[tool("a", "exec", "{}", true)]), "tool_use");
    assert_eq!(reason(&[tool("a", "exec", "{", true)]), "error");
    assert_eq!(
        reason(&[Event::ContextUsage {
            input_tokens: 1,
            exhausted: true
        }]),
        "model_context_window_exceeded"
    );
    assert_eq!(
        reason(&[Event::Exception {
            exception_type: "ContentLengthExceededException".to_string(),
            message: String::new()
        }]),
        "max_tokens"
    );
    assert_eq!(
        reason(&[Event::Exception {
            exception_type: "Other".to_string(),
            message: String::new()
        }]),
        "end_turn"
    );
}

#[test]
fn states_number_their_blocks() {
    let mut state = SseStateManager::new();
    assert_eq!(state.next_block_index(), 0);
    assert_eq!(state.next_block_index(), 1);
    assert!(state.has_block_room(5));
    assert_eq!(state.get_stop_reason(), "end_turn");
    state.set_has_tool_use(true);
    assert_eq!(state.get_stop_reason(), "tool_use");
    state.set_stop_reason("max_tokens");
    assert_eq!(state.get_stop_reason(), "max_tokens");
    assert!(!state.has_non_thinking_blocks());
    state.handle_content_block_start(0, "text", json("{}"));
    assert!(state.is_block_open_of_type(0, "text"));
    assert!(!state.is_block_open_of_type(0, "thinking"));
    assert!(state.has_non_thinking_blocks());
    let events = state.handle_content_block_start(1, "tool_use", json("{}"));
    assert_eq!(events[0].event, "content_block_stop");
    assert_eq!(events[1].event, "content_block_start");
    assert!(state.handle_content_block_delta(0, json("{}")).is_none());
    assert!(state.handle_content_block_delta(9, json("{}")).is_none());
    let last = state.generate_final_events(1, 2, 3, 4);
    assert_eq!(last.len(), 3);
    assert_eq!(value(&last[0].data)["index"], Value::from(1));
    assert_eq!(value(&last[1].data)["usage"]["cache_read_input_tokens"], Value::from(4));
    assert!(state.generate_final_events(1, 2, 3, 4).is_empty());
}

#[test]
fn whole_replies_are_drafted() {
    let usage = CacheUsage {
        cache_read: 30,
        cache_covered_est: 80,
        prompt_total_est: 100,
    };
    let events = vec![
        content("<thinking>\nplan</thinking>\n\nHello"),
        tool("t", "exec", "{\"a\":1}", true),
        tool("e", "EnterPlanMode", "", false),
        Event::ContextUsage {
            input_tokens: 200,
            exhausted: false,
        },
    ];
    let draft = draft_reply(&events, &TextMap::new(), true, 100, usage).ok().unwrap();
    assert_eq!(draft.counts, (40, 100, 60));
    assert_eq!(draft.stop_reason, "tool_use");
    assert_eq!(draft.closing(12).counts, (40, 12, 100, 60));
    assert_eq!(draft.closing(12).status, "success");
    let body = value(&draft.into_body("msg_1", "m", 12));
    assert_eq!(
        body.to_string(),
        r#"{"content":[{"signature":"kiro-rs-thinking-signature","thinking":"plan","type":"thinking"},{"text":"Hello","type":"text"},{"id":"t","input":{"a":1},"name":"exec","type":"tool_use"},{"id":"e","input":{},"name":"EnterPlanMode","type":"tool_use"}],"id":"msg_1","model":"m","role":"assistant","stop_reason":"tool_use","stop_sequence":null,"type":"message","usage":{"cache_creation_input_tokens":100,"cache_read_input_tokens":60,"input_tokens":40,"output_tokens":12}}"#
    );
    let draft = draft_reply(&events, &TextMap::new(), false, 100, usage).ok().unwrap();
    assert_eq!(
        draft.content[0].get_str("text"),
        Some("<thinking>\nplan</thinking>\n\nHello")
    );
}

#[test]
fn disclosed_reasoning_comes_first_in_a_reply() {
    let events = vec![
        reasoning("why"),
        content("so"),
        Event::ReasoningContent(ReasoningContentEvent {
            text: String::new(),
            signature: None,
            redacted_content: Some("hidden".to_string()),
        }),
    ];
    let draft = draft_reply(&events, &TextMap::new(), true, 3, CacheUsage::none()).ok().unwrap();
    let kinds: Vec<&str> = draft.content.iter().map(|b| b.get_str("type").unwrap()).collect();
    assert_eq!(kinds, vec!["thinking", "redacted_thinking", "text"]);
    assert_eq!(draft.content[0].get_str("signature"), Some("kiro-rs-thinking-signature"));
    assert_eq!(draft.counts, (3, 0, 0));
    assert_eq!(draft.stop_reason, "end_turn");
}

#[test]
fn replies_with_a_bad_call_fail() {
    let bad = vec![
        Event::ContextUsage {
            input_tokens: 8,
            exhausted: false,
        },
        tool("x", "exec", "{", true),
        tool("y", "exec", "[", true),
    ];
    let failure = draft_reply(&bad, &TextMap::new(), false, 3, CacheUsage::none()).err().unwrap();
    assert_eq!(failure.error_type, "upstream_tool_json_error");
    assert!(failure.message.starts_with("Upstream returned invalid JSON for tool_use x (exec): "));
    assert_eq!(failure.counts, (8, 0, 0));
    assert_eq!(failure.response().status, 502);
    let closing = failure.closing();
    assert_eq!(closing.counts, (8, 0, 0, 0));
    assert_eq!(closing.error_type, Some(AttemptOutcome::BadRequest));
    assert!(closing.traces_counts);
    let cut = vec![tool("x", "exec", "{\"é", false)];
    let failure = draft_reply(&cut, &TextMap::new(), false, 3, CacheUsage::none()).err().unwrap();
    assert_eq!(
        failure.message,
        "Upstream ended before completing tool_use x (exec) JSON input; buffered 4 bytes. The tool call was not forwarded to the client."
    );
}

#[test]
fn the_longest_cut_call_is_named() {
    let mut acc = ToolJsonAccumulator::new();
    let names = TextMap::new();
    for (id, input) in [("a", "{\"1"), ("b", "{\"123"), ("c", "{\"456"), ("d", "")] {
        let piece = ToolUseEvent {
            name: "n".to_string(),
            tool_use_id: id.to_string(),
            input: input.to_string(),
            stop: false,
        };
        assert!(acc.push(&piece, &names).unwrap().is_none());
    }
    assert_eq!(acc.pending(), 4);
    assert!(acc.finish(&names).unwrap_err().message().contains("tool_use c (n)"));
    assert!(acc.finish(&names).unwrap_err().message().contains("tool_use b (n)"));
    assert!(acc.finish(&names).unwrap_err().message().contains("tool_use a (n)"));
    assert!(acc.finish(&names).unwrap().is_empty());
}

#[test]
fn calls_are_completed_by_what_was_read() {
    let names = TextMap::new();
    let done = complete_tool_use("i", "n", Ok(json("[1]")), &names).unwrap().unwrap();
    assert_eq!((done.id.as_str(), done.name.as_str()), ("i", "n"));
    assert_eq!(done.input.to_text(), "[1]");
    let e = complete_tool_use("i", "n", Err("bad".to_string()), &names).unwrap_err();
    assert_eq!(e.message(), "Upstream returned invalid JSON for tool_use i (n): bad");
    assert_eq!(e.error_type(), "upstream_tool_json_error");
}

#[test]
fn sessions_close_as_they_end() {
    let ctx = StreamContext::new_with_thinking("m", 5, false, TextMap::new());
    let (mut session, frames) = StreamSession::start(ctx);
    assert_eq!(frames.len(), 2);
    assert!(frames[0].starts_with("event: message_start\ndata: {"));
    let frames = session.on_chunk(10, &vec![content("abcdefgh")]);
    assert_eq!(
        frames,
        vec!["event: content_block_delta\ndata: {\"delta\":{\"text\":\"abcdefgh\",\"type\":\"text_delta\"},\"index\":0,\"type\":\"content_block_delta\"}\n\n".to_string()]
    );
    let (frames, closing) = session.end();
    assert_eq!(frames.len(), 3);
    assert_eq!(closing.counts, (5, 2, 0, 0));
    assert_eq!((closing.status.as_str(), closing.trace_status.as_str()), ("success", "success"));
    assert_eq!(closing.error_type, None);

    let ctx = StreamContext::new_with_thinking("m", 5, false, TextMap::new());
    let (mut session, _) = StreamSession::start(ctx);
    session.on_chunk(10, &vec![]);
    session.on_chunk(32, &vec![]);
    let (_, closing) = session.break_off("reset");
    assert_eq!((closing.status.as_str(), closing.trace_status.as_str()), ("error", "interrupted"));
    assert_eq!(closing.error_type, Some(AttemptOutcome::StreamInterrupted));
    assert_eq!(closing.error_message.as_deref(), Some("reset"));
    assert_eq!(closing.interrupted_after_bytes, Some(42));

    let ctx = BufferedStreamContext::new("m", 5, false, TextMap::new());
    let mut session = BufferedSession {
        ctx,
        received_bytes: 0,
    };
    session.on_chunk(3, &vec![tool("x", "n", "{", true)]);
    let (frames, closing) = session.end();
    assert!(frames.last().unwrap().starts_with("event: error\n"));
    assert_eq!((closing.status.as_str(), closing.trace_status.as_str()), ("error", "error"));
    assert_eq!(closing.error_type, Some(AttemptOutcome::BadRequest));
    assert_eq!(tick(), vec!["event: ping\ndata: {\"type\": \"ping\"}\n\n".to_string()]);
    assert_eq!(
        create_error_sse("api_error", "oops"),
        "event: error\ndata: {\"error\":{\"message\":\"oops\",\"type\":\"api_error\"},\"type\":\"error\"}\n\n"
    );
}

#[test]
fn usage_is_booked() {
    let state = AppState {
        usage_recorder: true,
        usage_aggregator: false,
        client_keys: true,
        trace_store: true,
    };
    let hook = UsageRecordHook::from_state(&state, 7, "m".to_string());
    let plan = hook.record(3, -5, 4, 1, 2, "success");
    assert_eq!(plan.record.input_tokens, 0);
    assert_eq!(plan.record.output_tokens, 4);
    assert_eq!(plan.record.credential_id, 3);
    assert!(plan.to_recorder && !plan.to_aggregator && plan.to_client_keys);
    assert!(!hook.record(3, 1, 1, 1, 1, "error").to_client_keys);
    let own = UsageRecordHook::from_state(&state, 0, "m".to_string());
    assert!(!own.record(3, 1, 1, 1, 1, "success").to_client_keys);
}

#[test]
fn attempts_are_traced() {
    let mut state = AppState {
        usage_recorder: false,
        usage_aggregator: false,
        client_keys: false,
        trace_store: true,
    };
    let mut tracer = RequestTracer::new(&state, 7, "m".to_string(), true);
    assert_eq!(tracer.trace_id.len(), 36);
    assert!(tracer.ts.contains('T'));
    assert_eq!(tracer.last_attempt_outcome(), None);
    tracer.on_attempt(TraceAttempt {
        credential_id: 1,
        outcome: AttemptOutcome::Transient,
    });
    assert_eq!(tracer.last_attempt_outcome(), Some(AttemptOutcome::Transient));
    tracer.on_attempt(TraceAttempt {
        credential_id: 2,
        outcome: AttemptOutcome::Success,
    });
    assert_eq!(tracer.last_attempt_outcome(), Some(AttemptOutcome::Unknown));
    tracer.set_usage(9, -1, 2, 3);
    let record = tracer
        .finalize("error", Some(AttemptOutcome::BadRequest), Some("e".to_string()), Some(4))
        .unwrap();
    assert_eq!(record.final_credential_id, 2);
    assert_eq!(record.total_attempts, 2);
    assert_eq!((record.input_tokens, record.output_tokens), (9, 0));
    assert_eq!(record.error_message.as_deref(), Some("e"));
    assert!(tracer.attempts.is_empty());
    state.trace_store = false;
    let mut off = RequestTracer::new(&state, 7, "m".to_string(), false);
    off.on_attempt(TraceAttempt {
        credential_id: 1,
        outcome: AttemptOutcome::AuthFailed,
    });
    assert!(off.finalize("success", None, None, None).is_none());
    assert_eq!(off.attempts.len(), 1);
}

#[test]
fn requests_are_closed() {
    let state = AppState {
        usage_recorder: true,
        usage_aggregator: true,
        client_keys: true,
        trace_store: true,
    };
    let hook = UsageRecordHook::from_state(&state, 7, "m".to_string());
    let mut tracer = RequestTracer::new(&state, 7, "m".to_string(), false);
    tracer.on_attempt(TraceAttempt {
        credential_id: 5,
        outcome: AttemptOutcome::QuotaExhausted,
    });
    let refused = tracer.refusal(20, "no");
    let plan = hook.close(0, &refused);
    assert_eq!((plan.record.input_tokens, plan.record.status.as_str()), (20, "error"));
    assert!(!plan.to_client_keys);
    assert!(plan.record.ts.contains('T'));
    let trace = tracer.close(&refused).unwrap();
    assert_eq!((trace.input_tokens, trace.final_credential_id), (0, 5));
    assert_eq!(trace.error_type, Some(AttemptOutcome::QuotaExhausted));
    assert_eq!(trace.error_message.as_deref(), Some("no"));
    let done = Closing::success((1, 2, 3, 4));
    assert!(hook.close(5, &done).to_client_keys);
    let trace = tracer.close(&done).unwrap();
    assert_eq!((trace.input_tokens, trace.cache_read_tokens, trace.total_attempts), (1, 4, 0));
    let broken = Closing::interrupted((1, 0, 0, 0), "gone", None);
    assert_eq!(broken.trace_status, "interrupted");
    assert!(!broken.traces_counts);
    let e = unreadable_response("gone");
    assert_eq!((e.status, e.message.as_str()), (502, "读取响应失败: gone"));
}

#[test]
fn tokens_are_estimated() {
    assert_eq!(estimate_tokens(""), 1);
    assert_eq!(estimate_tokens("Hello"), 2);
    assert_eq!(estimate_tokens("你好"), 2);
    assert_eq!(estimate_tokens("Hello 你好"), 4);
    assert_eq!(reported_tokens(0), 1);
    assert_eq!(reported_tokens(17), 17);
    assert_eq!(resolve_usage_input_tokens(3, None), 3);
    assert_eq!(resolve_usage_input_tokens(3, Some(4)), 4);
}

#[test]
fn splits_add_up() {
    let usage = CacheUsage {
        cache_read: 30,
        cache_covered_est: 80,
        prompt_total_est: 100,
    };
    assert_eq!(usage.split_against_total(100), (20, 50, 30));
    assert_eq!(usage.split_against_total(7), (2, 3, 2));
    assert_eq!(usage.split_against_total(0), (0, 0, 0));
    assert_eq!(usage.split_against_total(-4), (-4, 0, 0));
    assert_eq!(CacheUsage::none().split_against_total(9), (9, 0, 0));
    let odd = CacheUsage {
        cache_read: 500,
        cache_covered_est: 400,
        prompt_total_est: 300,
    };
    assert_eq!(odd.split_against_total(i32::MAX), (0, 0, i32::MAX));
}

#[test]
fn leaks_are_stripped() {
    assert_eq!(strip_tool_use_xml_leaks("a<tool_use>b</tool_use>c"), "ac");
    assert_eq!(strip_tool_use_xml_leaks("a<tool_used>b"), "a<tool_used>b");
    assert_eq!(strip_tool_use_xml_leaks("a <tool_us"), "a <tool_us");
    assert_eq!(strip_tool_use_xml_leaks("a<tool_use x"), "a");
    let mut filter = ToolUseXmlLeakFilter::new();
    assert_eq!(filter.filter("x<to"), "x");
    assert_eq!(filter.finish(), "<to");
    assert_eq!(filter.finish(), "");
    assert_eq!(filter.filter("y<tool_use "), "y");
    assert_eq!(filter.filter("lost"), "");
    assert_eq!(filter.filter("</tool_use>z"), "z");
}

#[test]
fn thinking_is_taken_out_of_whole_texts() {
    let take = |s: &str| extract_thinking_from_complete_text(s);
    assert_eq!(take("plain"), (None, "plain".to_string()));
    assert_eq!(
        take("\n<thinking>\nab</thinking>\n\ncd"),
        (Some("ab".to_string()), "cd".to_string())
    );
    assert_eq!(
        take("x <thinking>y</thinking> z"),
        (Some("y".to_string()), "x  z".to_string())
    );
    assert_eq!(take("<thinking>\n</thinking>z"), (None, "z".to_string()));
    assert_eq!(
        take("<thinking></thinking>z"),
        (None, "<thinking></thinking>z".to_string())
    );
    assert_eq!(take("<thinking>open"), (None, "<thinking>open".to_string()));
    assert_eq!(take("`<thinking>`a</thinking>"), (None, "`<thinking>`a</thinking>".to_string()));
}

#[test]
fn tags_are_found_by_their_bytes() {
    assert_eq!(find_real_thinking_end_tag_with_boundary("é</thinking>\r\n\r\nx"), Some((2, 17)));
    assert_eq!(find_real_thinking_end_tag_with_boundary("</thinking> \n"), Some((0, 13)));
    assert_eq!(find_real_thinking_end_tag_with_boundary("</thinking>\nx"), Some((0, 12)));
    assert_eq!(find_real_thinking_end_tag_at_buffer_end("</thinking>x</thinking> "), Some(12));
    assert_eq!(find_real_thinking_end_tag_at_buffer_end("</thinking>x"), None);
    assert_eq!(find_char_boundary("你好", 4), 3);
    assert_eq!(find_char_boundary("你好", 2), 0);
    assert_eq!(find_char_boundary("你好", 99), 6);
    assert_eq!(find_char_boundary("abc", 0), 0);
}

#[test]
fn json_reads_what_it_writes() {
    for text in [
        "null",
        "true",
        "0",
        "18446744073709551615",
        "-9223372036854775808",
        "1.5",
        "-0.0",
        "1e300",
        "\"a\\\"\\n\\u0000é\"",
        "[1,[],{}]",
        "{\"a\":{\"b\":[null]},\"c\":\"d\"}",
    ] {
        let v = json(text);
        let again = json(&v.to_text());
        assert_eq!(again.to_text(), v.to_text());
        let outside: Value = serde_json::from_str(text).unwrap();
        assert_eq!(v.to_text(), outside.to_string());
        assert_eq!(v.copy().to_text(), v.to_text());
    }
    assert!(Json::parse("{\"a\":").unwrap_err().contains("EOF"));
    assert_eq!(json("{\"a\":1,\"a\":2}").to_text(), "{\"a\":2}");
}

#[test]
fn json_objects_hold_one_value_per_key() {
    let mut o = JsonObject::new();
    assert!(o.is_empty());
    o.insert("k", Json::integer(-3));
    o.insert("k", Json::integer(4));
    assert!(o.has("k") && !o.has("x"));
    assert_eq!(o.get("k").unwrap().to_text(), "4");
    assert_eq!(o.copy().take("k").unwrap().to_text(), "4");
    assert!(o.take("k").is_some());
    assert!(o.take("k").is_none());
    assert!(o.is_empty());
    let o = o.with("z", Json::text("t")).with("a", Json::array(vec![Json::Bool(true)]));
    assert_eq!(Json::Object(o).to_text(), "{\"a\":[true],\"z\":\"t\"}");
}

#[test]
fn ids_are_new_and_well_formed() {
    let a = new_uuid();
    let b = new_uuid();
    assert_ne!(a, b);
    assert_eq!(a.len(), 36);
    assert_eq!(&a[8..9], "-");
    let id = new_message_id();
    assert_eq!(id.len(), 36);
    assert!(id.starts_with("msg_"));
    assert!(!id.contains('-'));
}
