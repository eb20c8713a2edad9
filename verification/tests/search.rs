use kiro_relay::accounting::AttemptOutcome;
use kiro_relay::errors::map_provider_error;
use kiro_relay::events::{Event, ReasoningContentEvent};
use kiro_relay::gather::Gatherer;
use kiro_relay::json::Json;
use kiro_relay::render::{build_sse_events, render_json};
use kiro_relay::request::MessagesRequest;
use kiro_relay::search_loop::{
    build_result_block, check_round, decode_round, should_search_round, DecodedToolUse, LoopAction,
    RoundOutcome, SearchLoop, Searched, StreamFirstByteMarker, WebSearchResult, WebSearchResults,
    MAX_WEB_SEARCH_ROUNDS,
};
use kiro_relay::sse::SseEvent;
use kiro_relay::text_map::TextMap;
use kiro_relay::tokens::CacheUsage;
use kiro_relay::tool_json::{ToolJsonAccumulator, ToolUseEvent};
use serde_json::Value;

struct Ev {
    event: String,
    data: Value,
}

fn value(j: &Json) -> Value {
    serde_json::from_str(&j.to_text()).unwrap()
}

fn val(text: &str) -> Value {
    serde_json::from_str(text).unwrap()
}

fn json(text: &str) -> Json {
    Json::parse(text).unwrap()
}

fn evs(events: Vec<SseEvent>) -> Vec<Ev> {
    events
        .iter()
        .map(|e| Ev {
            event: e.event.clone(),
            data: value(&e.data),
        })
        .collect()
}

fn tu(name: &str) -> DecodedToolUse {
    DecodedToolUse {
        id: format!("toolu_{}", name),
        name: name.to_string(),
        input: json(r#"{"query": "rust 2026"}"#),
    }
}

fn round(tool_uses: Vec<DecodedToolUse>) -> RoundOutcome {
    RoundOutcome {
        text: String::new(),
        reasoning: String::new(),
        redacted_reasoning: String::new(),
        tool_uses,
        context_input_tokens: None,
        stop_reason_override: None,
        stream_error: false,
        tool_json_error: None,
    }
}

fn request() -> MessagesRequest {
    MessagesRequest {
        model: "vendor-opus-4-8".to_string(),
        max_tokens: 100,
        messages: vec![],
        stream: false,
        system: None,
        tools: None,
        tool_choice: None,
        thinking: None,
        output_config: None,
    }
}

#[test]
fn round_with_only_web_search_continues() {
    let tools = vec![tu("web_search"), tu("web_search")];
    assert!(should_search_round(0, &tools));
    assert!(should_search_round(MAX_WEB_SEARCH_ROUNDS - 1, &tools));
}

#[test]
fn round_with_exec_does_not_enter_loop() {
    let mixed = vec![tu("web_search"), tu("exec")];
    assert!(!should_search_round(0, &mixed));
    let exec_only = vec![tu("exec")];
    assert!(!should_search_round(0, &exec_only));
}

#[test]
fn round_with_no_tool_use_does_not_enter_loop() {
    let empty: Vec<DecodedToolUse> = vec![];
    assert!(!should_search_round(0, &empty));
}

#[test]
fn round_at_limit_stops_even_if_web_search() {
    let tools = vec![tu("web_search")];
    assert!(!should_search_round(MAX_WEB_SEARCH_ROUNDS, &tools));
    assert!(!should_search_round(MAX_WEB_SEARCH_ROUNDS + 1, &tools));
}

#[test]
fn result_block_maps_contract_a_fields() {
    let results = WebSearchResults {
        results: vec![WebSearchResult {
            title: "Rust 1.99".to_string(),
            url: "https://example.com/rust".to_string(),
            snippet: Some("Rust 1.99 released".to_string()),
            published_date: None,
            id: None,
            domain: None,
            max_verbatim_word_limit: None,
            public_domain: None,
        }],
        total_results: Some(1),
        query: Some("rust".to_string()),
        error: None,
    };
    let block = build_result_block(&Some(results));
    assert_eq!(block.len(), 1);
    let first = value(&block[0]);
    assert_eq!(first["type"], "web_search_result");
    assert_eq!(first["title"], "Rust 1.99");
    assert_eq!(first["url"], "https://example.com/rust");
    assert_eq!(first["encrypted_content"], "Rust 1.99 released");
    assert_eq!(first["page_age"], Value::Null);
}

#[test]
fn pages_are_dated_in_words() {
    let hit = |ms: i64| WebSearchResults {
        results: vec![WebSearchResult {
            title: "t".to_string(),
            url: "u".to_string(),
            snippet: None,
            published_date: Some(ms),
            id: None,
            domain: None,
            max_verbatim_word_limit: None,
            public_domain: None,
        }],
        total_results: None,
        query: None,
        error: None,
    };
    let block = build_result_block(&Some(hit(1_767_312_000_000)));
    assert_eq!(value(&block[0])["page_age"], "January 2, 2026");
    assert_eq!(value(&block[0])["encrypted_content"], "");
    let block = build_result_block(&Some(hit(i64::MAX)));
    assert_eq!(value(&block[0])["page_age"], Value::Null);
}

#[test]
fn result_block_none_is_empty() {
    assert!(build_result_block(&None).is_empty());
}

#[test]
fn round_outcome_reports_pending_tool_json_on_finish() {
    let mut acc = ToolJsonAccumulator::new();
    acc.push(
        &ToolUseEvent {
            name: "web_search".to_string(),
            tool_use_id: "tool_pending".to_string(),
            input: r#"{"query":"kiro"#.to_string(),
            stop: false,
        },
        &TextMap::new(),
    )
    .unwrap();

    let outcome =
        RoundOutcome::from_tool_accumulator_finish(acc, &TextMap::new(), round(Vec::new()));

    assert!(outcome
        .tool_json_error
        .as_deref()
        .unwrap()
        .contains("tool_pending"));
    let failure = check_round(&outcome).unwrap();
    assert_eq!(failure.response.status, 502);
    assert_eq!(failure.response.error_type, "upstream_tool_json_error");
    assert_eq!(failure.trace_status, "error");
}

#[test]
fn mcp_failure_maps_to_error_response_not_silent_success() {
    let resp = map_provider_error("MCP error: -1 - upstream unavailable");
    assert!(
        !(200..300).contains(&resp.status),
        "a failed MCP search must return an error status and must not silently succeed"
    );
    assert_eq!(resp.status, 502);
}

#[test]
fn a_failed_search_ends_the_loop() {
    let search = SearchLoop::new(request(), 1);
    let response = search.on_search_failed("MCP error: -1 - upstream unavailable");
    assert_eq!(response.status, 502);
    assert_eq!(
        response.message,
        "上游 API 调用失败: MCP error: -1 - upstream unavailable"
    );
    assert_eq!(search.on_search_failed("Input is too long").status, 400);
}

#[test]
fn sse_events_render_search_presentation_and_keep_exec() {
    let content = vec![
        json(r#"{"type": "server_tool_use", "id": "srvtoolu_x", "name": "web_search", "input": {"query": "q"}}"#),
        json(r#"{"type": "web_search_tool_result", "content": []}"#),
        json(r#"{"type": "text", "text": "done"}"#),
        json(r#"{"type": "tool_use", "id": "toolu_exec", "name": "exec", "input": {"cmd": "ls"}}"#),
    ];
    let events = evs(build_sse_events("vendor-opus-4-8", content, "tool_use", 10, 5, 3, 2));

    assert_eq!(events.first().unwrap().event, "message_start");
    assert_eq!(events.last().unwrap().event, "message_stop");
    let delta = events.iter().find(|e| e.event == "message_delta").unwrap();
    assert_eq!(delta.data["delta"]["stop_reason"], "tool_use");
    assert_eq!(delta.data["usage"]["cache_creation_input_tokens"], val("3"));
    assert_eq!(delta.data["usage"]["cache_read_input_tokens"], val("2"));

    let has_server_tool = events.iter().any(|e| {
        e.event == "content_block_start" && e.data["content_block"]["type"] == "server_tool_use"
    });
    assert!(
        has_server_tool,
        "the server_tool_use block should be presented"
    );

    let has_result = events.iter().any(|e| {
        e.event == "content_block_start"
            && e.data["content_block"]["type"] == "web_search_tool_result"
    });
    assert!(
        has_result,
        "the web_search_tool_result block should be presented"
    );

    let has_exec = events.iter().any(|e| {
        e.event == "content_block_start"
            && e.data["content_block"]["type"] == "tool_use"
            && e.data["content_block"]["name"] == "exec"
    });
    assert!(
        has_exec,
        "the exec tool_use must be returned to the client as-is and not swallowed"
    );
    let partial = events
        .iter()
        .find(|e| e.data["delta"]["type"] == "input_json_delta")
        .unwrap();
    assert_eq!(partial.data["delta"]["partial_json"], r#"{"cmd":"ls"}"#);
    assert_eq!(partial.data["index"], val("3"));
}

#[test]
fn sse_events_render_redacted_thinking_without_plaintext_delta() {
    let content = vec![json(
        r#"{"type": "redacted_thinking", "data": "encrypted-thinking"}"#,
    )];
    let events = evs(build_sse_events("vendor-opus-4-8", content, "end_turn", 10, 5, 0, 0));

    let start = events
        .iter()
        .find(|e| {
            e.event == "content_block_start"
                && e.data["content_block"]["type"] == "redacted_thinking"
        })
        .expect("redacted thinking block should be rendered");
    assert_eq!(
        start.data["content_block"]["data"].as_str(),
        Some("encrypted-thinking")
    );
    assert!(
        events.iter().all(|e| {
            !(e.event == "content_block_delta" && e.data["delta"]["type"] == "thinking_delta")
        }),
        "redacted_thinking must not be serialized as plaintext thinking_delta"
    );
}

#[test]
fn sse_events_include_cache_usage_in_start_and_delta() {
    let events = evs(build_sse_events(
        "vendor-opus-4-8",
        vec![json(r#"{"type": "text", "text": "done"}"#)],
        "end_turn",
        123,
        7,
        45,
        67,
    ));

    let start = events
        .iter()
        .find(|e| e.event == "message_start")
        .expect("message_start should exist");
    assert_eq!(
        start.data["message"]["usage"]["cache_creation_input_tokens"],
        val("45")
    );
    assert_eq!(
        start.data["message"]["usage"]["cache_read_input_tokens"],
        val("67")
    );
    assert_eq!(start.data["message"]["usage"]["output_tokens"], val("0"));
    assert_eq!(start.data["message"]["id"].as_str().unwrap().len(), 28);

    let delta = events
        .iter()
        .find(|e| e.event == "message_delta")
        .expect("message_delta should exist");
    assert_eq!(
        delta.data["usage"]["cache_creation_input_tokens"],
        val("45")
    );
    assert_eq!(delta.data["usage"]["cache_read_input_tokens"], val("67"));
}

#[test]
fn rendered_thinking_is_signed_and_unknown_blocks_are_left_out() {
    let events = evs(build_sse_events(
        "m",
        vec![
            json(r#"{"type": "thinking", "thinking": "plan"}"#),
            json(r#"{"type": "odd"}"#),
            json(r#"{"type": "thinking"}"#),
        ],
        "end_turn",
        1,
        1,
        0,
        0,
    ));
    let names: Vec<&str> = events.iter().map(|e| e.event.as_str()).collect();
    assert_eq!(
        names,
        vec![
            "message_start",
            "content_block_start",
            "content_block_delta",
            "content_block_delta",
            "content_block_stop",
            "content_block_start",
            "content_block_delta",
            "content_block_stop",
            "message_delta",
            "message_stop",
        ]
    );
    assert_eq!(events[3].data["delta"]["type"], "signature_delta");
    assert_eq!(events[5].data["index"], val("2"));
}

#[test]
fn answers_are_rendered_as_a_whole() {
    let body = value(&render_json(
        "m",
        vec![json(r#"{"type":"text","text":"x"}"#)],
        "end_turn",
        3,
        4,
        5,
        6,
    ));
    assert_eq!(body["type"], "message");
    assert_eq!(body["role"], "assistant");
    assert_eq!(body["content"][0]["text"], "x");
    assert_eq!(body["stop_reason"], "end_turn");
    assert_eq!(body["stop_sequence"], Value::Null);
    assert_eq!(body["usage"]["input_tokens"], val("3"));
    assert_eq!(body["usage"]["cache_read_input_tokens"], val("6"));
    let id = body["id"].as_str().unwrap();
    assert!(id.starts_with("msg_"));
    assert_eq!(id.len(), 36);
    assert!(id[4..].chars().all(|c| c.is_ascii_hexdigit()));
}

#[test]
fn the_loop_searches_and_answers() {
    let mut search = SearchLoop::new(request(), 50);
    let mut first = round(vec![tu("web_search")]);
    first.text = "let me look".to_string();
    first.context_input_tokens = Some(80);
    match search.on_round(&first, 7) {
        LoopAction::Search(queries) => assert_eq!(queries, vec!["rust 2026".to_string()]),
        LoopAction::Answer => panic!("a pure search round goes on"),
    }
    let searched = vec![Searched {
        results: None,
        summary: "nothing".to_string(),
        server_tool_id: "srvtoolu_1".to_string(),
    }];
    search.on_searched(&first, &searched);
    assert_eq!(search.round_idx, 1);
    assert_eq!(search.payload.messages.len(), 2);
    assert_eq!(
        search.payload.messages[1].content.to_text(),
        r#"[{"content":"nothing","tool_use_id":"toolu_web_search","type":"tool_result"}]"#
    );
    assert_eq!(
        search.payload.messages[0].content.to_text(),
        r#"[{"text":"let me look","type":"text"},{"id":"toolu_web_search","input":{"query":"rust 2026"},"name":"web_search","type":"tool_use"}]"#
    );
    let mut last = round(vec![tu("exec")]);
    last.text = "done".to_string();
    assert!(matches!(search.on_round(&last, 9), LoopAction::Answer));
    let usage = CacheUsage {
        cache_read: 10,
        cache_covered_est: 50,
        prompt_total_est: 100,
    };
    let draft = search.answer(&last, usage);
    assert_eq!(draft.credential_id, 9);
    assert_eq!(draft.closing(6).counts, (40, 6, 32, 8));
    assert_eq!(draft.stop_reason, "tool_use");
    assert_eq!(draft.counts, (40, 32, 8));
    let kinds: Vec<String> = draft
        .content
        .iter()
        .map(|b| b.get_str("type").unwrap().to_string())
        .collect();
    assert_eq!(
        kinds,
        vec!["server_tool_use", "web_search_tool_result", "text", "tool_use"]
    );
}

#[test]
fn the_loop_stops_at_its_limit() {
    let mut search = SearchLoop::new(request(), 1);
    let asks = round(vec![tu("web_search")]);
    let mut rounds = 0;
    while let LoopAction::Search(_) = search.on_round(&asks, 0) {
        search.on_searched(&asks, &vec![]);
        rounds += 1;
    }
    assert_eq!(rounds, MAX_WEB_SEARCH_ROUNDS);
    assert_eq!(search.payload.messages.len(), 2 * MAX_WEB_SEARCH_ROUNDS);
    assert_eq!(search.payload.model, "vendor-opus-4-8");
    let draft = search.answer(&asks, CacheUsage::none());
    assert_eq!(draft.stop_reason, "tool_use");
    assert_eq!(draft.counts, (1, 0, 0));
}

#[test]
fn rounds_are_decoded() {
    let names = TextMap::new();
    let mut gathered = Gatherer::new();
    gathered.take_all(
        &vec![
            Event::AssistantResponse {
                content: "a<tool_use x>leak</tool_use>".to_string(),
            },
            Event::Code {
                content: "b".to_string(),
            },
            Event::ReasoningContent(ReasoningContentEvent {
                text: "why".to_string(),
                signature: Some("s".to_string()),
                redacted_content: Some("dropped".to_string()),
            }),
            Event::ReasoningContent(ReasoningContentEvent {
                text: String::new(),
                signature: None,
                redacted_content: Some("kept".to_string()),
            }),
            Event::ContextUsage {
                input_tokens: 9,
                exhausted: true,
            },
            Event::ToolUse(ToolUseEvent {
                name: "EnterPlanMode".to_string(),
                tool_use_id: "e".to_string(),
                input: " ".to_string(),
                stop: false,
            }),
        ],
        &names,
    );
    let outcome = decode_round(gathered, false, &names);
    assert_eq!(outcome.text, "ab");
    assert_eq!(outcome.reasoning, "why");
    assert_eq!(outcome.redacted_reasoning, "kept");
    assert_eq!(outcome.context_input_tokens, Some(9));
    assert_eq!(
        outcome.stop_reason_override.as_deref(),
        Some("model_context_window_exceeded")
    );
    assert_eq!(outcome.tool_uses.len(), 1);
    assert_eq!(outcome.tool_uses[0].input.to_text(), "{}");
    assert_eq!(outcome.tool_uses[0].query(), "");
    assert!(check_round(&outcome).is_none());
}

#[test]
fn rounds_that_broke_off_are_failures() {
    let mut broken = round(vec![]);
    broken.stream_error = true;
    let failure = check_round(&broken).unwrap();
    assert_eq!(failure.response.status, 502);
    assert_eq!(failure.response.error_type, "upstream_error");
    assert_eq!(failure.trace_status, "interrupted");
    let closing = failure.closing(30, Some(AttemptOutcome::Transient));
    assert_eq!(closing.counts, (30, 0, 0, 0));
    assert_eq!(closing.error_type, Some(AttemptOutcome::StreamInterrupted));
    broken.tool_json_error = Some("bad".to_string());
    let closing = check_round(&broken).unwrap().closing(30, Some(AttemptOutcome::Transient));
    assert_eq!(closing.error_type, Some(AttemptOutcome::Transient));
    assert_eq!(closing.error_message.as_deref(), Some("bad"));
}

#[test]
fn the_first_byte_is_marked_once() {
    let mut marker = StreamFirstByteMarker::new();
    assert_eq!(
        marker.mark_first_upstream_chunk().as_deref(),
        Some("event: ping\ndata: {\"type\": \"ping\"}\n\n")
    );
    assert_eq!(marker.mark_first_upstream_chunk(), None);
    assert!(!marker.mark_started_before_final_flush());
    assert!(!marker.fail_before_start());
    let mut fresh = StreamFirstByteMarker::new();
    assert!(fresh.fail_before_start());
    let mut other = StreamFirstByteMarker::new();
    assert!(other.mark_started_before_final_flush());
    assert!(!other.fail_before_start());
}
