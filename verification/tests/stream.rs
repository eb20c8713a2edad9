use kiro_relay::buffered::BufferedStreamContext;
use kiro_relay::events::{Event, ReasoningContentEvent};
use kiro_relay::json::Json;
use kiro_relay::sse::{SseEvent, THINKING_SIGNATURE_PLACEHOLDER};
use kiro_relay::state::SseStateManager;
use kiro_relay::stream::StreamContext;
use kiro_relay::text_map::TextMap;
use kiro_relay::thinking::{find_real_thinking_end_tag, find_real_thinking_start_tag};
use kiro_relay::tokens::{estimate_tokens, CacheUsage};
use kiro_relay::tool_json::{ToolJsonAccumulator, ToolUseEvent};
use serde_json::Value;

struct Ev {
    event: String,
    data: Value,
}

fn value(j: &Json) -> Value {
    serde_json::from_str(&j.to_text()).unwrap()
}

fn val(text: &str) -> Value {
    serde_json::from_str(text).unwrap()
}

fn json(text: &str) -> Json {
    Json::parse(text).unwrap()
}

fn evs(events: Vec<SseEvent>) -> Vec<Ev> {
    events
        .iter()
        .map(|e| Ev {
            event: e.event.clone(),
            data: value(&e.data),
        })
        .collect()
}

fn reasoning(text: &str) -> ReasoningContentEvent {
    ReasoningContentEvent::from_json(&json(text)).unwrap()
}

fn collect_thinking_content(events: &[Ev]) -> String {
    events
        .iter()
        .filter(|e| e.event == "content_block_delta" && e.data["delta"]["type"] == "thinking_delta")
        .map(|e| e.data["delta"]["thinking"].as_str().unwrap_or(""))
        .filter(|s| !s.is_empty())
        .collect()
}

fn collect_text_content(events: &[Ev]) -> String {
    events
        .iter()
        .filter(|e| e.event == "content_block_delta" && e.data["delta"]["type"] == "text_delta")
        .map(|e| e.data["delta"]["text"].as_str().unwrap_or(""))
        .collect()
}

#[test]
fn test_sse_event_format() {
    let event = SseEvent::new("message_start", json(r#"{"type": "message_start"}"#));
    let sse_str = event.to_sse_string();

    assert!(sse_str.starts_with("event: message_start\n"));
    assert!(sse_str.contains("data: "));
    assert!(sse_str.ends_with("\n\n"));
}

#[test]
fn test_sse_state_manager_message_start() {
    let mut manager = SseStateManager::new();

    let event = manager.handle_message_start(json(r#"{"type": "message_start"}"#));
    assert!(event.is_some());

    let event = manager.handle_message_start(json(r#"{"type": "message_start"}"#));
    assert!(event.is_none());
}

#[test]
fn test_message_start_includes_provisional_cache_usage() {
    let mut ctx = StreamContext::new_with_thinking("test-model", 100, false, TextMap::new());
    ctx.cache_usage = CacheUsage {
        cache_read: 30,
        cache_covered_est: 80,
        prompt_total_est: 100,
    };

    let event = value(&ctx.create_message_start_event());
    let usage = &event["message"]["usage"];

    assert_eq!(usage["input_tokens"], val(r#"20"#));
    assert_eq!(usage["cache_creation_input_tokens"], val(r#"50"#));
    assert_eq!(usage["cache_read_input_tokens"], val(r#"30"#));
}

#[test]
fn cc_v1_message_start_waits_for_context_usage_event() {
    let mut ctx = BufferedStreamContext::new("test-model", 100, false, TextMap::new());
    ctx.set_cache_usage(CacheUsage {
        cache_read: 25,
        cache_covered_est: 70,
        prompt_total_est: 100,
    });

    ctx.process_and_buffer(&Event::AssistantResponse { content: "hello".to_string() });
    ctx.process_and_buffer(&Event::ContextUsage { input_tokens: 100000, exhausted: false });
    let final_events = evs(ctx.finish_and_get_all_events());

    let message_start = final_events
        .iter()
        .find(|e| e.event == "message_start")
        .expect("final buffered flush should include message_start");
    let start_usage = &message_start.data["message"]["usage"];
    assert_ne!(
        start_usage["input_tokens"],
        val(r#"30"#),
        "message_start must not use provisional fallback usage"
    );
    let message_delta = final_events
        .iter()
        .find(|e| e.event == "message_delta")
        .expect("should have message_delta event");
    let usage = &message_delta.data["usage"];
    for key in [
        "input_tokens",
        "cache_creation_input_tokens",
        "cache_read_input_tokens",
    ] {
        assert_eq!(
            start_usage[key], usage[key],
            "{key} must match between message_start and message_delta after context usage is known"
        );
    }
}

#[test]
fn test_sse_state_manager_block_lifecycle() {
    let mut manager = SseStateManager::new();

    let events = manager.handle_content_block_start(0, "text", json(r#"{}"#));
    assert_eq!(events.len(), 1);

    let event = manager.handle_content_block_delta(0, json(r#"{}"#));
    assert!(event.is_some());

    let event = manager.handle_content_block_stop(0);
    assert!(event.is_some());

    let event = manager.handle_content_block_stop(0);
    assert!(event.is_none());
}

#[test]
fn test_tool_name_reverse_mapping_in_stream() {
    let mut map = TextMap::new();
    map.insert(
        "short_abc12345",
        "mcp__very_long_original_tool_name".to_string(),
    );

    let mut ctx = StreamContext::new_with_thinking("test-model", 1, false, map);
    let _ = evs(ctx.generate_initial_events());

    let tool_event = Event::ToolUse(ToolUseEvent {
        name: "short_abc12345".to_string(),
        tool_use_id: "toolu_01".to_string(),
        input: r#"{"key":"value"}"#.to_string(),
        stop: true,
    });

    let events = evs(ctx.process_kiro_event(&tool_event));

    let start_event = events
        .iter()
        .find(|e| e.event == "content_block_start")
        .unwrap();
    assert_eq!(
        start_event.data["content_block"]["name"], "mcp__very_long_original_tool_name",
        "应还原为原始工具名称"
    );
}

#[test]
fn test_tool_json_accumulator_waits_until_stop() {
    let mut map = TextMap::new();
    map.insert("fs_write", "Write".to_string());
    let mut acc = ToolJsonAccumulator::new();

    let first = acc
        .push(
            &ToolUseEvent {
                name: "fs_write".to_string(),
                tool_use_id: "tool_1".to_string(),
                input: r#"{"path":"/tmp/a.txt","#.to_string(),
                stop: false,
            },
            &map,
        )
        .unwrap();
    assert!(first.is_none());

    let completed = acc
        .push(
            &ToolUseEvent {
                name: "fs_write".to_string(),
                tool_use_id: "tool_1".to_string(),
                input: r#""text":"hello"}"#.to_string(),
                stop: true,
            },
            &map,
        )
        .unwrap()
        .unwrap();

    assert_eq!(completed.name, "Write");
    assert_eq!(value(&completed.input)["file_path"], "/tmp/a.txt");
    assert_eq!(value(&completed.input)["content"], "hello");
}

#[test]
fn test_tool_json_accumulator_restores_kiro_equivalent_claude_code_builtin_tools() {
    let mut map = TextMap::new();
    for (kiro_name, client_name) in [
        ("fs_write", "Write"),
        ("str_replace", "Edit"),
        ("execute_bash", "Bash"),
        ("read_file", "Read"),
        ("file_search", "Glob"),
        ("grep_search", "Grep"),
        ("list_directory", "LS"),
        ("web_search", "WebSearch"),
    ] {
        map.insert(kiro_name, client_name.to_string());
    }

    let cases = vec![
        (
            "fs_write",
            val(r#"{"path": "/tmp/a.txt", "text": "hello"}"#),
            "Write",
            val(r#"{"file_path": "/tmp/a.txt", "content": "hello"}"#),
        ),
        (
            "str_replace",
            val(r#"{ "path": "/tmp/a.txt", "oldStr": "old", "newStr": "new" }"#),
            "Edit",
            val(r#"{ "file_path": "/tmp/a.txt", "old_string": "old", "new_string": "new" }"#),
        ),
        (
            "execute_bash",
            val(r#"{"command": "echo ok", "timeout": 1000}"#),
            "Bash",
            val(r#"{"command": "echo ok", "timeout": 1000}"#),
        ),
        (
            "read_file",
            val(r#"{"path": "/tmp/a.txt", "start_line": 10, "end_line": 12}"#),
            "Read",
            val(r#"{"file_path": "/tmp/a.txt", "offset": 10, "limit": 3}"#),
        ),
        (
            "file_search",
            val(r#"{"query": "**/*.rs"}"#),
            "Glob",
            val(r#"{"pattern": "**/*.rs"}"#),
        ),
        (
            "grep_search",
            val(r#"{ "query": "fn main", "includePattern": "**/*.rs", "caseSensitive": true }"#),
            "Grep",
            val(r#"{ "pattern": "fn main", "glob": "**/*.rs", "case_sensitive": true }"#),
        ),
        (
            "list_directory",
            val(r#"{"path": "/tmp"}"#),
            "LS",
            val(r#"{"path": "/tmp"}"#),
        ),
        (
            "web_search",
            val(r#"{"query": "Kiro CLI 2.6.0"}"#),
            "WebSearch",
            val(r#"{"query": "Kiro CLI 2.6.0"}"#),
        ),
    ];

    for (index, (kiro_name, kiro_input, expected_name, expected_input)) in
        cases.into_iter().enumerate()
    {
        let mut acc = ToolJsonAccumulator::new();
        let completed = acc
            .push(
                &ToolUseEvent {
                    name: kiro_name.to_string(),
                    tool_use_id: format!("tool_{index}"),
                    input: kiro_input.to_string(),
                    stop: true,
                },
                &map,
            )
            .unwrap()
            .unwrap();

        assert_eq!(completed.name, expected_name, "{kiro_name} name mismatch");
        assert_eq!(
            value(&completed.input), expected_input,
            "{kiro_name} input mismatch"
        );
    }
}

#[test]
fn test_tool_json_accumulator_parallel_tool_uses() {
    let mut acc = ToolJsonAccumulator::new();
    let map = TextMap::new();

    assert!(
        acc.push(
            &ToolUseEvent {
                name: "a".to_string(),
                tool_use_id: "tool_a".to_string(),
                input: r#"{"a":"#.to_string(),
                stop: false,
            },
            &map,
        )
        .unwrap()
        .is_none()
    );
    assert!(
        acc.push(
            &ToolUseEvent {
                name: "b".to_string(),
                tool_use_id: "tool_b".to_string(),
                input: r#"{"b":2}"#.to_string(),
                stop: true,
            },
            &map,
        )
        .unwrap()
        .is_some()
    );
    let completed_a = acc
        .push(
            &ToolUseEvent {
                name: "a".to_string(),
                tool_use_id: "tool_a".to_string(),
                input: r#""one"}"#.to_string(),
                stop: true,
            },
            &map,
        )
        .unwrap()
        .unwrap();

    assert_eq!(value(&completed_a.input)["a"], "one");
}

#[test]
fn test_tool_json_accumulator_invalid_json() {
    let mut acc = ToolJsonAccumulator::new();
    let err = acc
        .push(
            &ToolUseEvent {
                name: "fs_write".to_string(),
                tool_use_id: "tool_bad".to_string(),
                input: r#"{"path":"#.to_string(),
                stop: true,
            },
            &TextMap::new(),
        )
        .unwrap_err();

    assert_eq!(err.error_type(), "upstream_tool_json_error");
    assert!(err.message().contains("tool_bad"));
}

#[test]
fn test_tool_json_accumulator_reports_incomplete_on_finish() {
    let mut acc = ToolJsonAccumulator::new();
    let partial = acc
        .push(
            &ToolUseEvent {
                name: "fs_write".to_string(),
                tool_use_id: "tool_truncated".to_string(),
                input: r#"{"path":"/tmp/a.txt","text":"#.to_string(),
                stop: false,
            },
            &TextMap::new(),
        )
        .unwrap();
    assert!(partial.is_none());

    let err = acc.finish(&TextMap::new()).unwrap_err();
    assert_eq!(err.error_type(), "upstream_tool_json_error");
    assert!(err.message().contains("tool_truncated"));
    assert!(err.message().contains("ended before completing"));
}

#[test]
fn test_enterplanmode_empty_buffer_emitted_as_valid_tool() {
    let mut acc = ToolJsonAccumulator::new();
    let pending = acc
        .push(
            &ToolUseEvent {
                name: "EnterPlanMode".to_string(),
                tool_use_id: "tp".to_string(),
                input: String::new(),
                stop: false,
            },
            &TextMap::new(),
        )
        .unwrap();
    assert!(pending.is_none());

    let completed = acc.finish(&TextMap::new()).unwrap();
    assert_eq!(completed.len(), 1, "空参数工具应被补发为 1 个合法 tool_use");
    assert_eq!(completed[0].id, "tp");
    assert_eq!(completed[0].name, "EnterPlanMode");
    assert_eq!(value(&completed[0].input), val(r#"{}"#));
}

#[test]
fn test_finish_empty_and_truncated_mixed() {
    let mut acc = ToolJsonAccumulator::new();
    acc.push(
        &ToolUseEvent {
            name: "EnterPlanMode".to_string(),
            tool_use_id: "empty".to_string(),
            input: String::new(),
            stop: false,
        },
        &TextMap::new(),
    )
    .unwrap();
    acc.push(
        &ToolUseEvent {
            name: "fs_write".to_string(),
            tool_use_id: "truncated".to_string(),
            input: r#"{"path":"/tmp/a.txt","text":"#.to_string(),
            stop: false,
        },
        &TextMap::new(),
    )
    .unwrap();

    let err = acc.finish(&TextMap::new()).unwrap_err();
    assert_eq!(err.error_type(), "upstream_tool_json_error");
    assert!(err.message().contains("truncated"));
    assert!(err.message().contains("ended before completing"));
}

#[test]
fn test_stream_tool_use_emits_complete_json_once() {
    let mut map = TextMap::new();
    map.insert("fs_write", "Write".to_string());
    let mut ctx = StreamContext::new_with_thinking("test-model", 1, false, map);
    let _ = evs(ctx.generate_initial_events());

    let part = evs(ctx.process_kiro_event(&Event::ToolUse(ToolUseEvent {
        name: "fs_write".to_string(),
        tool_use_id: "tool_1".to_string(),
        input: r#"{"path":"/tmp/a.txt","#.to_string(),
        stop: false,
    })));
    assert!(
        part.iter().all(|e| e.event != "content_block_start"
            || e.data["content_block"]["type"] != "tool_use"),
        "partial input should not start a tool_use block"
    );

    let done = evs(ctx.process_kiro_event(&Event::ToolUse(ToolUseEvent {
        name: "fs_write".to_string(),
        tool_use_id: "tool_1".to_string(),
        input: r#""text":"hello"}"#.to_string(),
        stop: true,
    })));
    let start = done
        .iter()
        .find(|e| {
            e.event == "content_block_start" && e.data["content_block"]["type"] == "tool_use"
        })
        .unwrap();
    assert_eq!(start.data["content_block"]["name"], "Write");

    let delta = done
        .iter()
        .find(|e| {
            e.event == "content_block_delta" && e.data["delta"]["type"] == "input_json_delta"
        })
        .unwrap();
    assert_eq!(
        delta.data["delta"]["partial_json"],
        val(r#"{"file_path": "/tmp/a.txt", "content": "hello"}"#).to_string()
    );
}

#[test]
fn test_stream_tool_use_incomplete_on_finish_emits_error_without_tool_block() {
    let mut map = TextMap::new();
    map.insert("fs_write", "Write".to_string());
    let mut ctx = StreamContext::new_with_thinking("test-model", 1, false, map);
    let _ = evs(ctx.generate_initial_events());

    let part = evs(ctx.process_kiro_event(&Event::ToolUse(ToolUseEvent {
        name: "fs_write".to_string(),
        tool_use_id: "tool_truncated".to_string(),
        input: r#"{"path":"/tmp/a.txt","text":"#.to_string(),
        stop: false,
    })));
    assert!(
        part.iter().all(|e| e.event != "content_block_start"
            || e.data["content_block"]["type"] != "tool_use"),
        "partial input should not start a tool_use block"
    );

    let final_events = evs(ctx.generate_final_events());
    assert!(
        final_events.iter().all(|e| {
            e.event != "content_block_start" || e.data["content_block"]["type"] != "tool_use"
        }),
        "incomplete input must not be forwarded as a tool_use block"
    );
    let error = final_events.iter().find(|e| e.event == "error").unwrap();
    assert_eq!(
        error.data["error"]["type"],
        val(r#""upstream_tool_json_error""#)
    );
    assert!(
        error.data["error"]["message"]
            .as_str()
            .unwrap()
            .contains("tool_truncated")
    );
}

#[test]
fn test_stream_empty_param_tool_emitted_at_finish() {
    let mut ctx = StreamContext::new_with_thinking("test-model", 1, false, TextMap::new());
    let _ = evs(ctx.generate_initial_events());

    let part = evs(ctx.process_kiro_event(&Event::ToolUse(ToolUseEvent {
        name: "EnterPlanMode".to_string(),
        tool_use_id: "tp".to_string(),
        input: String::new(),
        stop: false,
    })));
    assert!(
        part.iter().all(|e| e.event != "content_block_start"
            || e.data["content_block"]["type"] != "tool_use"),
        "未 stop 前不应开 tool_use 块"
    );

    let final_events = evs(ctx.generate_final_events());
    assert!(
        final_events.iter().all(|e| e.event != "error"),
        "空参数工具不应触发 error 块"
    );
    let start = final_events
        .iter()
        .find(|e| {
            e.event == "content_block_start" && e.data["content_block"]["type"] == "tool_use"
        })
        .expect("空参数工具应被补发为 tool_use 块");
    assert_eq!(start.data["content_block"]["name"], "EnterPlanMode");
    assert_eq!(start.data["content_block"]["id"], "tp");
    assert!(
        final_events
            .iter()
            .any(|e| e.event == "content_block_stop"),
        "补发的 tool_use 块应正常闭合"
    );
}

#[test]
fn test_stream_mixed_empty_and_truncated_emits_error_no_partial_block() {
    let mut map = TextMap::new();
    map.insert("fs_write", "Write".to_string());
    let mut ctx = StreamContext::new_with_thinking("test-model", 1, false, map);
    let _ = evs(ctx.generate_initial_events());

    evs(ctx.process_kiro_event(&Event::ToolUse(ToolUseEvent {
        name: "EnterPlanMode".to_string(),
        tool_use_id: "empty".to_string(),
        input: String::new(),
        stop: false,
    })));
    evs(ctx.process_kiro_event(&Event::ToolUse(ToolUseEvent {
        name: "fs_write".to_string(),
        tool_use_id: "truncated".to_string(),
        input: r#"{"path":"/tmp/a.txt","text":"#.to_string(),
        stop: false,
    })));

    let final_events = evs(ctx.generate_final_events());

    let error = final_events
        .iter()
        .find(|e| e.event == "error")
        .expect("半截 JSON 应触发 error 块");
    assert_eq!(
        error.data["error"]["type"],
        val(r#""upstream_tool_json_error""#)
    );
    assert!(
        error.data["error"]["message"]
            .as_str()
            .unwrap()
            .contains("truncated")
    );
    assert!(
        final_events.iter().all(|e| {
            e.event != "content_block_start"
                || e.data["content_block"]["type"] != "tool_use"
                || e.data["content_block"]["id"] != "truncated"
        }),
        "被截断的工具绝不能被发出为 tool_use 块"
    );
}

#[test]
fn test_text_delta_after_tool_use_restarts_text_block() {
    let mut ctx = StreamContext::new_with_thinking("test-model", 1, false, TextMap::new());

    let initial_events = evs(ctx.generate_initial_events());
    assert!(
        initial_events
            .iter()
            .any(|e| e.event == "content_block_start"
                && e.data["content_block"]["type"] == "text")
    );

    let initial_text_index = ctx
        .text_block_index
        .expect("initial text block index should exist");

    let tool_events = evs(ctx.process_tool_use(&ToolUseEvent {
        name: "test_tool".to_string(),
        tool_use_id: "tool_1".to_string(),
        input: "{}".to_string(),
        stop: true,
    }));
    assert!(
        tool_events.iter().any(|e| {
            e.event == "content_block_stop"
                && e.data["index"].as_i64() == Some(initial_text_index as i64)
        }),
        "tool_use should stop the previous text block"
    );

    let text_events = evs(ctx.process_assistant_response("hello"));
    let new_text_start_index = text_events.iter().find_map(|e| {
        if e.event == "content_block_start" && e.data["content_block"]["type"] == "text" {
            e.data["index"].as_i64()
        } else {
            None
        }
    });
    assert!(
        new_text_start_index.is_some(),
        "should start a new text block"
    );
    assert_ne!(
        new_text_start_index.unwrap(),
        initial_text_index as i64,
        "new text block index should differ from the stopped one"
    );
    assert!(
        text_events.iter().any(|e| {
            e.event == "content_block_delta"
                && e.data["delta"]["type"] == "text_delta"
                && e.data["delta"]["text"] == "hello"
        }),
        "should emit text_delta after restarting text block"
    );
}

#[test]
fn test_stream_filters_cross_chunk_tool_use_xml_leak() {
    let mut ctx = StreamContext::new_with_thinking("test-model", 1, false, TextMap::new());
    let mut all_events = evs(ctx.generate_initial_events());

    all_events.extend(evs(ctx.process_assistant_response("before\n<tool")));
    all_events.extend(evs(ctx.process_assistant_response(
        "_use id=\"toolu_1\" name=\"Write\">\n{\"path\":\"/tmp/a\"}\n</tool_use>\nafter",
    )));
    all_events.extend(evs(ctx.generate_final_events()));

    let text = all_events
        .iter()
        .filter(|e| e.event == "content_block_delta" && e.data["delta"]["type"] == "text_delta")
        .filter_map(|e| e.data["delta"]["text"].as_str())
        .collect::<String>();

    assert!(text.contains("before"));
    assert!(text.contains("after"));
    assert!(!text.contains("<tool_use"));
    assert!(!text.contains("\"path\""));
}

#[test]
fn test_stream_filters_cross_chunk_truncated_tool_use_xml_leak() {
    let mut ctx = StreamContext::new_with_thinking("test-model", 1, false, TextMap::new());
    let mut all_events = evs(ctx.generate_initial_events());

    all_events.extend(evs(ctx.process_assistant_response("before\n<tool")));
    all_events.extend(evs(ctx.process_assistant_response("_use id=\"toolu_1\" name=\"Write\"")));
    all_events.extend(evs(ctx.generate_final_events()));

    let text = all_events
        .iter()
        .filter(|e| e.event == "content_block_delta" && e.data["delta"]["type"] == "text_delta")
        .filter_map(|e| e.data["delta"]["text"].as_str())
        .collect::<String>();

    assert!(text.contains("before"));
    assert!(!text.contains("<tool_use"));
    assert!(!text.contains("toolu_1"));
}

#[test]
fn test_tool_use_flushes_pending_thinking_buffer_text_before_tool_block() {
    let mut ctx = StreamContext::new_with_thinking("test-model", 1, true, TextMap::new());
    let _initial_events = evs(ctx.generate_initial_events());

    let ev1 = evs(ctx.process_assistant_response("有修"));
    assert!(
        ev1.iter().all(|e| e.event != "content_block_delta"),
        "short prefix should be buffered under thinking mode"
    );
    let ev2 = evs(ctx.process_assistant_response("改："));
    assert!(
        ev2.iter().all(|e| e.event != "content_block_delta"),
        "short prefix should still be buffered under thinking mode"
    );

    let events = evs(ctx.process_tool_use(&ToolUseEvent {
        name: "test_tool".to_string(),
        tool_use_id: "tool_1".to_string(),
        input: "{}".to_string(),
        stop: true,
    }));

    let text_start_index = events.iter().find_map(|e| {
        if e.event == "content_block_start" && e.data["content_block"]["type"] == "text" {
            e.data["index"].as_i64()
        } else {
            None
        }
    });
    let pos_text_delta = events.iter().position(|e| {
        e.event == "content_block_delta" && e.data["delta"]["type"] == "text_delta"
    });
    let pos_text_stop = text_start_index.and_then(|idx| {
        events.iter().position(|e| {
            e.event == "content_block_stop" && e.data["index"].as_i64() == Some(idx)
        })
    });
    let pos_tool_start = events.iter().position(|e| {
        e.event == "content_block_start" && e.data["content_block"]["type"] == "tool_use"
    });

    assert!(
        text_start_index.is_some(),
        "should start a text block to flush buffered text"
    );
    assert!(
        pos_text_delta.is_some(),
        "should flush buffered text as text_delta"
    );
    assert!(
        pos_text_stop.is_some(),
        "should stop text block before tool_use block starts"
    );
    assert!(pos_tool_start.is_some(), "should start tool_use block");

    let pos_text_delta = pos_text_delta.unwrap();
    let pos_text_stop = pos_text_stop.unwrap();
    let pos_tool_start = pos_tool_start.unwrap();

    assert!(
        pos_text_delta < pos_text_stop && pos_text_stop < pos_tool_start,
        "ordering should be: text_delta -> text_stop -> tool_use_start"
    );

    assert!(
        events.iter().any(|e| {
            e.event == "content_block_delta"
                && e.data["delta"]["type"] == "text_delta"
                && e.data["delta"]["text"] == "有修改："
        }),
        "flushed text should equal the buffered prefix"
    );
}

#[test]
fn test_estimate_tokens() {
    assert!(estimate_tokens("Hello") > 0);
    assert!(estimate_tokens("你好") > 0);
    assert!(estimate_tokens("Hello 你好") > 0);
}

#[test]
fn test_find_real_thinking_start_tag_basic() {
    assert_eq!(find_real_thinking_start_tag("<thinking>"), Some(0));
    assert_eq!(find_real_thinking_start_tag("prefix<thinking>"), Some(6));
}

#[test]
fn test_find_real_thinking_start_tag_with_backticks() {
    assert_eq!(find_real_thinking_start_tag("`<thinking>`"), None);
    assert_eq!(find_real_thinking_start_tag("use `<thinking>` tag"), None);

    assert_eq!(
        find_real_thinking_start_tag("about `<thinking>` tag<thinking>content"),
        Some(22)
    );
}

#[test]
fn test_find_real_thinking_start_tag_with_quotes() {
    assert_eq!(find_real_thinking_start_tag("\"<thinking>\""), None);
    assert_eq!(find_real_thinking_start_tag("the \"<thinking>\" tag"), None);

    assert_eq!(find_real_thinking_start_tag("'<thinking>'"), None);

    assert_eq!(
        find_real_thinking_start_tag("about \"<thinking>\" and '<thinking>' then<thinking>"),
        Some(40)
    );
}

#[test]
fn test_find_real_thinking_end_tag_basic() {
    assert_eq!(find_real_thinking_end_tag("</thinking>\n\n"), Some(0));
    assert_eq!(
        find_real_thinking_end_tag("content</thinking>\n\n"),
        Some(7)
    );
    assert_eq!(
        find_real_thinking_end_tag("some text</thinking>\n\nmore text"),
        Some(9)
    );

    assert_eq!(find_real_thinking_end_tag("</thinking>"), Some(0));
    assert_eq!(find_real_thinking_end_tag("</thinking>\n"), Some(0));
    assert_eq!(find_real_thinking_end_tag("</thinking>\r\n"), Some(0));
    assert_eq!(find_real_thinking_end_tag("</thinking> more"), Some(0));
}

#[test]
fn test_find_real_thinking_end_tag_with_backticks() {
    assert_eq!(find_real_thinking_end_tag("`</thinking>`\n\n"), None);
    assert_eq!(
        find_real_thinking_end_tag("mention `</thinking>` in code\n\n"),
        None
    );

    assert_eq!(find_real_thinking_end_tag("`</thinking>\n\n"), None);

    assert_eq!(find_real_thinking_end_tag("</thinking>`\n\n"), None);
}

#[test]
fn test_find_real_thinking_end_tag_with_quotes() {
    assert_eq!(find_real_thinking_end_tag("\"</thinking>\"\n\n"), None);
    assert_eq!(
        find_real_thinking_end_tag("the string \"</thinking>\" is a tag\n\n"),
        None
    );

    assert_eq!(find_real_thinking_end_tag("'</thinking>'\n\n"), None);
    assert_eq!(
        find_real_thinking_end_tag("use '</thinking>' as marker\n\n"),
        None
    );

    assert_eq!(
        find_real_thinking_end_tag("about \"</thinking>\" tag</thinking>\n\n"),
        Some(23)
    );

    assert_eq!(
        find_real_thinking_end_tag("about '</thinking>' tag</thinking>\n\n"),
        Some(23)
    );
}

#[test]
fn test_find_real_thinking_end_tag_mixed() {
    assert_eq!(
        find_real_thinking_end_tag("discussing `</thinking>` tag</thinking>\n\n"),
        Some(28)
    );

    assert_eq!(
        find_real_thinking_end_tag("`</thinking>` and `</thinking>` done</thinking>\n\n"),
        Some(36)
    );

    assert_eq!(
        find_real_thinking_end_tag(
            "`</thinking>` and \"</thinking>\" and '</thinking>' done</thinking>\n\n"
        ),
        Some(54)
    );
}

#[test]
fn test_tool_use_immediately_after_thinking_filters_end_tag_and_closes_thinking_block() {
    let mut ctx = StreamContext::new_with_thinking("test-model", 1, true, TextMap::new());
    let _initial_events = evs(ctx.generate_initial_events());

    let mut all_events = Vec::new();

    all_events.extend(evs(ctx.process_assistant_response("<thinking>abc</thinking>")));

    let tool_events = evs(ctx.process_tool_use(&ToolUseEvent {
        name: "test_tool".to_string(),
        tool_use_id: "tool_1".to_string(),
        input: "{}".to_string(),
        stop: true,
    }));
    all_events.extend(tool_events);

    all_events.extend(evs(ctx.generate_final_events()));

    assert!(
        all_events.iter().all(|e| {
            !(e.event == "content_block_delta"
                && e.data["delta"]["type"] == "thinking_delta"
                && e.data["delta"]["thinking"] == "</thinking>")
        }),
        "`</thinking>` should be filtered from output"
    );

    let thinking_index = ctx
        .thinking_block_index
        .expect("thinking block index should exist");
    let pos_thinking_stop = all_events.iter().position(|e| {
        e.event == "content_block_stop"
            && e.data["index"].as_i64() == Some(thinking_index as i64)
    });
    let pos_tool_start = all_events.iter().position(|e| {
        e.event == "content_block_start" && e.data["content_block"]["type"] == "tool_use"
    });
    assert!(
        pos_thinking_stop.is_some(),
        "thinking block should be stopped"
    );
    assert!(pos_tool_start.is_some(), "tool_use block should be started");
    assert!(
        pos_thinking_stop.unwrap() < pos_tool_start.unwrap(),
        "thinking block should stop before tool_use block starts"
    );
}

#[test]
fn test_thinking_block_emits_signature_delta_before_stop() {
    let mut ctx = StreamContext::new_with_thinking("test-model", 1, true, TextMap::new());
    let _ = evs(ctx.generate_initial_events());

    let mut all = Vec::new();
    all.extend(evs(ctx.process_assistant_response("<thinking>abc</thinking>\n\nhello")));
    all.extend(evs(ctx.generate_final_events()));

    let thinking_index = ctx
        .thinking_block_index
        .expect("thinking block index should exist");

    let pos_sig = all.iter().position(|e| {
        e.event == "content_block_delta"
            && e.data["index"].as_i64() == Some(thinking_index as i64)
            && e.data["delta"]["type"] == "signature_delta"
            && e.data["delta"]["signature"]
                .as_str()
                .is_some_and(|s| !s.is_empty())
    });
    let pos_stop = all.iter().position(|e| {
        e.event == "content_block_stop"
            && e.data["index"].as_i64() == Some(thinking_index as i64)
    });

    assert!(pos_sig.is_some(), "signature_delta should be emitted");
    assert!(pos_stop.is_some(), "content_block_stop should be emitted");
    assert!(
        pos_sig.unwrap() < pos_stop.unwrap(),
        "signature_delta must precede content_block_stop"
    );
}

#[test]
fn test_reasoning_content_event_emits_thinking_block_with_placeholder_signature() {
    let mut ctx = StreamContext::new_with_thinking("test-model", 1, true, TextMap::new());
    let mut all = evs(ctx.generate_initial_events());

    all.extend(
        evs(ctx.process_kiro_event(&Event::ReasoningContent(
            reasoning(r#"{ "text": "plan", "signature": "sig-upstream" }"#)
        ))),
    );
    all.extend(evs(ctx.process_kiro_event(&Event::AssistantResponse { content: "answer".to_string() })));
    all.extend(evs(ctx.generate_final_events()));

    let thinking_index = ctx
        .thinking_block_index
        .expect("reasoning should create a thinking block");
    let signature = all.iter().find(|event| {
        event.event == "content_block_delta"
            && event.data["index"].as_i64() == Some(thinking_index as i64)
            && event.data["delta"]["type"] == "signature_delta"
    });

    assert_eq!(collect_thinking_content(&all), "plan");
    assert_eq!(collect_text_content(&all), "answer");
    assert_eq!(
        signature.unwrap().data["delta"]["signature"].as_str(),
        Some(THINKING_SIGNATURE_PLACEHOLDER)
    );
}

#[test]
fn test_reasoning_content_event_emits_redacted_thinking_block() {
    let mut ctx = StreamContext::new_with_thinking("test-model", 1, true, TextMap::new());
    let mut all = evs(ctx.generate_initial_events());

    all.extend(
        evs(ctx.process_kiro_event(&Event::ReasoningContent(
            reasoning(r#"{ "redactedContent": "encrypted-thinking" }"#)
        ))),
    );
    all.extend(evs(ctx.generate_final_events()));

    assert_eq!(
        collect_thinking_content(&all),
        "",
        "redactedContent must not be emitted as plaintext thinking_delta"
    );
    let start = all
        .iter()
        .find(|e| {
            e.event == "content_block_start"
                && e.data["content_block"]["type"] == "redacted_thinking"
        })
        .expect("redacted thinking block should start");
    assert_eq!(
        start.data["content_block"]["data"].as_str(),
        Some("encrypted-thinking")
    );
}

#[test]
fn thinking_disabled_drops_reasoning_text() {
    let mut ctx = StreamContext::new_with_thinking("test-model", 1, false, TextMap::new());
    let mut all = evs(ctx.generate_initial_events());

    all.extend(
        evs(ctx.process_kiro_event(&Event::ReasoningContent(
            reasoning(r#"{ "text": "visible reasoning", "signature": "sig-secret" }"#)
        ))),
    );
    all.extend(evs(ctx.generate_final_events()));

    assert_eq!(collect_text_content(&all), "");
    assert!(
        all.iter()
            .all(|e| e.data["delta"]["type"] != "signature_delta"),
        "disabled thinking must not leak reasoning signatures"
    );
}

#[test]
fn test_reasoning_only_sets_max_tokens_stop_reason() {
    let mut ctx = StreamContext::new_with_thinking("test-model", 1, true, TextMap::new());
    let mut all = evs(ctx.generate_initial_events());

    all.extend(evs(ctx.process_kiro_event(&Event::ReasoningContent(
        reasoning(r#"{"text": "plan"}"#)
    ))));
    all.extend(evs(ctx.generate_final_events()));

    let message_delta = all
        .iter()
        .find(|e| e.event == "message_delta")
        .expect("should have message_delta event");
    let signature = all.iter().find(|event| {
        event.event == "content_block_delta" && event.data["delta"]["type"] == "signature_delta"
    });

    assert_eq!(collect_thinking_content(&all), "plan");
    assert_eq!(
        signature.unwrap().data["delta"]["signature"].as_str(),
        Some(THINKING_SIGNATURE_PLACEHOLDER)
    );
    assert_eq!(message_delta.data["delta"]["stop_reason"], "max_tokens");
}

#[test]
fn test_final_flush_filters_standalone_thinking_end_tag() {
    let mut ctx = StreamContext::new_with_thinking("test-model", 1, true, TextMap::new());
    let _initial_events = evs(ctx.generate_initial_events());

    let mut all_events = Vec::new();
    all_events.extend(evs(ctx.process_assistant_response("<thinking>abc</thinking>")));
    all_events.extend(evs(ctx.generate_final_events()));

    assert!(
        all_events.iter().all(|e| {
            !(e.event == "content_block_delta"
                && e.data["delta"]["type"] == "thinking_delta"
                && e.data["delta"]["thinking"] == "</thinking>")
        }),
        "`</thinking>` should be filtered during final flush"
    );
}

#[test]
fn test_thinking_strips_leading_newline_same_chunk() {
    let mut ctx = StreamContext::new_with_thinking("test-model", 1, true, TextMap::new());
    let _initial_events = evs(ctx.generate_initial_events());

    let events = evs(ctx.process_assistant_response("<thinking>\nHello world"));

    let thinking_deltas: Vec<_> = events
        .iter()
        .filter(|e| {
            e.event == "content_block_delta" && e.data["delta"]["type"] == "thinking_delta"
        })
        .collect();

    let full_thinking: String = thinking_deltas
        .iter()
        .map(|e| e.data["delta"]["thinking"].as_str().unwrap_or(""))
        .collect();

    assert!(
        !full_thinking.starts_with('\n'),
        "thinking content should not start with \\n, got: {:?}",
        full_thinking
    );
}

#[test]
fn test_thinking_strips_leading_newline_cross_chunk() {
    let mut ctx = StreamContext::new_with_thinking("test-model", 1, true, TextMap::new());
    let _initial_events = evs(ctx.generate_initial_events());

    let events1 = evs(ctx.process_assistant_response("<thinking>"));
    let events2 = evs(ctx.process_assistant_response("\nHello world"));

    let mut all_events = Vec::new();
    all_events.extend(events1);
    all_events.extend(events2);

    let thinking_deltas: Vec<_> = all_events
        .iter()
        .filter(|e| {
            e.event == "content_block_delta" && e.data["delta"]["type"] == "thinking_delta"
        })
        .collect();

    let full_thinking: String = thinking_deltas
        .iter()
        .map(|e| e.data["delta"]["thinking"].as_str().unwrap_or(""))
        .collect();

    assert!(
        !full_thinking.starts_with('\n'),
        "thinking content should not start with \\n across chunks, got: {:?}",
        full_thinking
    );
}

#[test]
fn test_thinking_no_strip_when_no_leading_newline() {
    let mut ctx = StreamContext::new_with_thinking("test-model", 1, true, TextMap::new());
    let _initial_events = evs(ctx.generate_initial_events());

    let events = evs(ctx.process_assistant_response("<thinking>abc</thinking>\n\ntext"));

    let thinking_deltas: Vec<_> = events
        .iter()
        .filter(|e| {
            e.event == "content_block_delta" && e.data["delta"]["type"] == "thinking_delta"
        })
        .collect();

    let full_thinking: String = thinking_deltas
        .iter()
        .filter(|e| {
            !e.data["delta"]["thinking"]
                .as_str()
                .unwrap_or("")
                .is_empty()
        })
        .map(|e| e.data["delta"]["thinking"].as_str().unwrap_or(""))
        .collect();

    assert_eq!(full_thinking, "abc", "thinking content should be 'abc'");
}

#[test]
fn test_text_after_thinking_strips_leading_newlines() {
    let mut ctx = StreamContext::new_with_thinking("test-model", 1, true, TextMap::new());
    let _initial_events = evs(ctx.generate_initial_events());

    let events = evs(ctx.process_assistant_response("<thinking>\nabc</thinking>\n\n你好"));

    let text_deltas: Vec<_> = events
        .iter()
        .filter(|e| e.event == "content_block_delta" && e.data["delta"]["type"] == "text_delta")
        .collect();

    let full_text: String = text_deltas
        .iter()
        .map(|e| e.data["delta"]["text"].as_str().unwrap_or(""))
        .collect();

    assert!(
        !full_text.starts_with('\n'),
        "text after thinking should not start with \\n, got: {:?}",
        full_text
    );
    assert_eq!(full_text, "你好");
}

#[test]
fn thinking_end_tag_accepts_eof_lf_crlf_whitespace_and_inline_text() {
    for (input, expected_text) in [
        ("<thinking>abc</thinking>", ""),
        ("<thinking>abc</thinking>\n正文", "正文"),
        ("<thinking>abc</thinking>\r\n正文", "正文"),
        ("<thinking>abc</thinking>正文", "正文"),
        ("<thinking>abc</thinking>   \n正文", "正文"),
    ] {
        let mut ctx = StreamContext::new_with_thinking("test-model", 1, true, TextMap::new());
        let _ = evs(ctx.generate_initial_events());
        let mut all = evs(ctx.process_assistant_response(input));
        all.extend(evs(ctx.generate_final_events()));
        assert_eq!(collect_thinking_content(&all), "abc", "input={input:?}");
        assert_eq!(
            collect_text_content(&all).trim(),
            expected_text,
            "input={input:?}"
        );
    }
}

#[test]
fn test_end_tag_newlines_split_across_events() {
    let mut ctx = StreamContext::new_with_thinking("test-model", 1, true, TextMap::new());
    let _initial_events = evs(ctx.generate_initial_events());

    let mut all = Vec::new();
    all.extend(evs(ctx.process_assistant_response("<thinking>\nabc</thinking>\n")));
    all.extend(evs(ctx.process_assistant_response("\n")));
    all.extend(evs(ctx.process_assistant_response("你好")));
    all.extend(evs(ctx.generate_final_events()));

    let thinking = collect_thinking_content(&all);
    assert_eq!(
        thinking, "abc",
        "thinking should be 'abc', got: {:?}",
        thinking
    );

    let text = collect_text_content(&all);
    assert_eq!(text, "你好", "text should be '你好', got: {:?}", text);
}

#[test]
fn test_end_tag_alone_in_chunk_then_newlines_in_next() {
    let mut ctx = StreamContext::new_with_thinking("test-model", 1, true, TextMap::new());
    let _initial_events = evs(ctx.generate_initial_events());

    let mut all = Vec::new();
    all.extend(evs(ctx.process_assistant_response("<thinking>\nabc</thinking>")));
    all.extend(evs(ctx.process_assistant_response("\n\n你好")));
    all.extend(evs(ctx.generate_final_events()));

    let thinking = collect_thinking_content(&all);
    assert_eq!(
        thinking, "abc",
        "thinking should be 'abc', got: {:?}",
        thinking
    );

    let text = collect_text_content(&all);
    assert_eq!(text, "你好", "text should be '你好', got: {:?}", text);
}

#[test]
fn test_start_tag_newline_split_across_events() {
    let mut ctx = StreamContext::new_with_thinking("test-model", 1, true, TextMap::new());
    let _initial_events = evs(ctx.generate_initial_events());

    let mut all = Vec::new();
    all.extend(evs(ctx.process_assistant_response("\n\n")));
    all.extend(evs(ctx.process_assistant_response("<thinking>")));
    all.extend(evs(ctx.process_assistant_response("\n")));
    all.extend(evs(ctx.process_assistant_response("abc</thinking>\n\ntext")));
    all.extend(evs(ctx.generate_final_events()));

    let thinking = collect_thinking_content(&all);
    assert_eq!(
        thinking, "abc",
        "thinking should be 'abc', got: {:?}",
        thinking
    );

    let text = collect_text_content(&all);
    assert_eq!(text, "text", "text should be 'text', got: {:?}", text);
}

#[test]
fn test_full_flow_maximally_split() {
    let mut ctx = StreamContext::new_with_thinking("test-model", 1, true, TextMap::new());
    let _initial_events = evs(ctx.generate_initial_events());

    let mut all = Vec::new();
    all.extend(evs(ctx.process_assistant_response("\n")));
    all.extend(evs(ctx.process_assistant_response("\n")));
    all.extend(evs(ctx.process_assistant_response("<thin")));
    all.extend(evs(ctx.process_assistant_response("king>")));
    all.extend(evs(ctx.process_assistant_response("\n")));
    all.extend(evs(ctx.process_assistant_response("hello")));
    all.extend(evs(ctx.process_assistant_response("</thi")));
    all.extend(evs(ctx.process_assistant_response("nking>")));
    all.extend(evs(ctx.process_assistant_response("\n")));
    all.extend(evs(ctx.process_assistant_response("\n")));
    all.extend(evs(ctx.process_assistant_response("world")));
    all.extend(evs(ctx.generate_final_events()));

    let thinking = collect_thinking_content(&all);
    assert_eq!(
        thinking, "hello",
        "thinking should be 'hello', got: {:?}",
        thinking
    );

    let text = collect_text_content(&all);
    assert_eq!(text, "world", "text should be 'world', got: {:?}", text);
}

#[test]
fn test_thinking_only_sets_max_tokens_stop_reason() {
    let mut ctx = StreamContext::new_with_thinking("test-model", 1, true, TextMap::new());
    let _initial_events = evs(ctx.generate_initial_events());

    let mut all_events = Vec::new();
    all_events.extend(evs(ctx.process_assistant_response("<thinking>\nabc</thinking>")));
    all_events.extend(evs(ctx.generate_final_events()));

    let message_delta = all_events
        .iter()
        .find(|e| e.event == "message_delta")
        .expect("should have message_delta event");

    assert_eq!(
        message_delta.data["delta"]["stop_reason"], "max_tokens",
        "stop_reason should be max_tokens when only thinking is produced"
    );

    assert!(
        all_events.iter().any(|e| {
            e.event == "content_block_start" && e.data["content_block"]["type"] == "text"
        }),
        "should emit text content_block_start"
    );
    assert!(
        all_events.iter().any(|e| {
            e.event == "content_block_delta"
                && e.data["delta"]["type"] == "text_delta"
                && e.data["delta"]["text"] == " "
        }),
        "should emit text_delta with a single space"
    );
    let text_block_index = all_events
        .iter()
        .find_map(|e| {
            if e.event == "content_block_start" && e.data["content_block"]["type"] == "text" {
                e.data["index"].as_i64()
            } else {
                None
            }
        })
        .expect("text block should exist");
    assert!(
        all_events.iter().any(|e| {
            e.event == "content_block_stop"
                && e.data["index"].as_i64() == Some(text_block_index)
        }),
        "text block should be stopped"
    );
}

#[test]
fn test_thinking_with_text_keeps_end_turn_stop_reason() {
    let mut ctx = StreamContext::new_with_thinking("test-model", 1, true, TextMap::new());
    let _initial_events = evs(ctx.generate_initial_events());

    let mut all_events = Vec::new();
    all_events.extend(evs(ctx.process_assistant_response("<thinking>\nabc</thinking>\n\nHello")));
    all_events.extend(evs(ctx.generate_final_events()));

    let message_delta = all_events
        .iter()
        .find(|e| e.event == "message_delta")
        .expect("should have message_delta event");

    assert_eq!(
        message_delta.data["delta"]["stop_reason"], "end_turn",
        "stop_reason should be end_turn when text is also produced"
    );
}

#[test]
fn test_thinking_with_tool_use_keeps_tool_use_stop_reason() {
    let mut ctx = StreamContext::new_with_thinking("test-model", 1, true, TextMap::new());
    let _initial_events = evs(ctx.generate_initial_events());

    let mut all_events = Vec::new();
    all_events.extend(evs(ctx.process_assistant_response("<thinking>\nabc</thinking>")));
    all_events.extend(
        evs(ctx.process_tool_use(&ToolUseEvent {
            name: "test_tool".to_string(),
            tool_use_id: "tool_1".to_string(),
            input: "{}".to_string(),
            stop: true,
        })),
    );
    all_events.extend(evs(ctx.generate_final_events()));

    let message_delta = all_events
        .iter()
        .find(|e| e.event == "message_delta")
        .expect("should have message_delta event");

    assert_eq!(
        message_delta.data["delta"]["stop_reason"], "tool_use",
        "stop_reason should be tool_use when tool_use is present"
    );
}
