use kiro_relay::errors::{
    map_conversion_error, map_loop_conversion_error, map_provider_error, ConversionError,
};
use kiro_relay::json::{Json, JsonObject};
use kiro_relay::models::available_models;
use kiro_relay::request::{
    choose_route, count_image_budget, normalize_web_search_tool, override_thinking_from_model_name,
    parse_thinking_effort_from_model_name, plan_answer, prepare, Message, MessagesRequest,
    OutputConfig, Plan, Route, Thinking, Tool,
};

fn json(text: &str) -> Json {
    Json::parse(text).unwrap()
}

fn request(model: &str, messages: Vec<Message>) -> MessagesRequest {
    MessagesRequest {
        model: model.to_string(),
        max_tokens: 100,
        messages,
        stream: false,
        system: None,
        tools: None,
        tool_choice: None,
        thinking: None,
        output_config: None,
    }
}

fn user(content: &str) -> Message {
    Message {
        role: "user".to_string(),
        content: json(content),
    }
}

#[test]
fn bedrock_client_validation_errors_map_to_400() {
    for needle in [
        "非流式 API 请求失败: 500 {\"reason\":\"TOOL_USE_RESULT_MISMATCH\"}",
        "Expected toolResult blocks but found none",
    ] {
        let resp = map_provider_error(needle);
        assert_eq!(resp.status, 400, "错误串 `{needle}` 应映射为 400");
    }
}

#[test]
fn generic_upstream_error_still_maps_to_502() {
    let resp = map_provider_error("connection reset by peer");
    assert_eq!(resp.status, 502);
    let resp = map_provider_error("ValidationException: transient backend issue");
    assert_eq!(resp.status, 502);
}

#[test]
fn provider_errors_are_told_in_full_or_by_a_fixed_text() {
    let resp = map_provider_error("x CONTENT_LENGTH_EXCEEDS_THRESHOLD y");
    assert_eq!(resp.status, 400);
    assert_eq!(
        resp.message,
        "Context window is full. Reduce conversation history, system prompt, or tools."
    );
    let resp = map_provider_error("Input is too long");
    assert_eq!(resp.error_type, "invalid_request_error");
    assert_eq!(resp.message, "Input is too long. Reduce the size of your messages.");
    let resp = map_provider_error("TOOL_USE_RESULT_MISMATCH id-17");
    assert!(!resp.message.contains("id-17"));
    let resp = map_provider_error("boom");
    assert_eq!(resp.error_type, "api_error");
    assert_eq!(resp.message, "上游 API 调用失败: boom");
    assert_eq!(
        resp.body().to_text(),
        "{\"error\":{\"message\":\"上游 API 调用失败: boom\",\"type\":\"api_error\"},\"type\":\"error\"}"
    );
}

#[test]
fn conversion_errors_are_bad_requests() {
    let e = map_conversion_error(&ConversionError::UnsupportedModel("m".to_string()));
    assert_eq!((e.status, e.message.as_str()), (400, "模型不支持: m"));
    let e = map_conversion_error(&ConversionError::EmptyMessages);
    assert_eq!((e.status, e.message.as_str()), (400, "消息列表为空"));
    let e = map_conversion_error(&ConversionError::UnsupportedToolMapping("t".to_string()));
    assert_eq!((e.error_type.as_str(), e.message.as_str()), ("unsupported_tool_mapping", "t"));
    let e = map_loop_conversion_error(&ConversionError::UnsupportedModel("m".to_string()));
    assert_eq!(e.message, "unsupported model: m");
    let e = map_loop_conversion_error(&ConversionError::EmptyMessages);
    assert_eq!(e.message, "message list is empty");
    let e = map_loop_conversion_error(&ConversionError::InvalidImage("i".to_string()));
    assert_eq!((e.error_type.as_str(), e.message.as_str()), ("invalid_request_error", "i"));
}

#[test]
fn available_models_include_opus_4_7_variants() {
    let models = available_models("vendor", "Vendor");
    let ids: Vec<&str> = models.iter().map(|model| model.id.as_str()).collect();

    assert!(ids.contains(&"vendor-opus-4-7"));
    assert!(ids.contains(&"vendor-opus-4-7-thinking"));
}

#[test]
fn count_image_budget_handles_empty() {
    let req = request("vendor-opus-4-7", vec![]);
    let stats = count_image_budget(&req);
    assert_eq!(stats.count, 0);
    assert_eq!(stats.total_b64_bytes, 0);
    assert_eq!(stats.largest_b64_bytes, 0);
}

#[test]
fn count_image_budget_counts_inline_base64() {
    let req = request(
        "vendor-opus-4-7",
        vec![user(
            r#"[
                {"type": "text", "text": "hi"},
                {"type": "image", "source": {"type": "base64", "media_type": "image/png", "data": "AAAA1111"}},
                {"type": "image", "source": {"type": "base64", "media_type": "image/jpeg", "data": "BBBBBBBBBB"}},
                {"type": "image", "source": {"type": "url", "url": "https://example.com/x.png"}}
            ]"#,
        )],
    );
    let stats = count_image_budget(&req);
    assert_eq!(stats.count, 2);
    assert_eq!(stats.total_b64_bytes, 18);
    assert_eq!(stats.largest_b64_bytes, 10);
    assert!(!stats.is_large());
}

#[test]
fn count_image_budget_skips_url_only_images() {
    let req = request(
        "vendor-opus-4-7",
        vec![user(
            r#"[{"type": "image", "source": {"type": "url", "url": "https://example.com/x.png"}}]"#,
        )],
    );
    let stats = count_image_budget(&req);
    assert_eq!(stats.count, 0);
}

#[test]
fn available_models_include_4_8_variants() {
    let models = available_models("vendor", "Vendor");
    let ids: Vec<&str> = models.iter().map(|model| model.id.as_str()).collect();

    assert!(ids.contains(&"vendor-opus-4-8"));
    assert!(ids.contains(&"vendor-opus-4-8-thinking"));
    assert!(ids.contains(&"vendor-sonnet-4-8"));
    assert!(ids.contains(&"vendor-sonnet-4-8-thinking"));
}

#[test]
fn each_model_comes_with_its_thinking_variant() {
    let models = available_models("vendor", "Vendor");
    assert_eq!(models.len(), 16);
    for pair in models.chunks(2) {
        assert_eq!(pair[1].id, format!("{}-thinking", pair[0].id));
        assert_eq!(pair[1].display_name, format!("{} (Thinking)", pair[0].display_name));
        assert_eq!(pair[1].created, pair[0].created);
        assert_eq!(pair[0].max_tokens, 64000);
        assert_eq!(pair[0].owned_by, "anthropic");
    }
    assert_eq!(models[14].id, "vendor-haiku-4-5-20251001");
    assert_eq!(models[14].created, 1760486400);
}

#[test]
fn thinking_suffix_preserves_explicit_opus_4_8_effort() {
    let mut req = request("vendor-opus-4-8-thinking", vec![user(r#""hi""#)]);
    req.thinking = Some(Thinking {
        thinking_type: "adaptive".to_string(),
        budget_tokens: 20000,
    });
    req.output_config = Some(OutputConfig {
        effort: "xhigh".to_string(),
    });

    override_thinking_from_model_name(&mut req);

    assert_eq!(req.thinking.unwrap().thinking_type, "adaptive");
    assert_eq!(req.output_config.unwrap().effort, "xhigh");
}

#[test]
fn thinking_suffix_can_set_opus_4_8_effort() {
    let mut req = request("vendor-opus-4-8-thinking-max", vec![user(r#""hi""#)]);

    override_thinking_from_model_name(&mut req);

    assert_eq!(req.thinking.unwrap().thinking_type, "adaptive");
    assert_eq!(req.output_config.unwrap().effort, "max");
}

#[test]
fn thinking_suffix_can_set_sonnet_4_6_effort() {
    let mut req = request("vendor-sonnet-4-6-thinking-max", vec![user(r#""hi""#)]);

    override_thinking_from_model_name(&mut req);

    assert_eq!(req.thinking.unwrap().thinking_type, "adaptive");
    assert_eq!(req.output_config.unwrap().effort, "max");
}

#[test]
fn thinking_in_capitals_is_recognized() {
    let mut req = request("Vendor-OPUS-4.7-THINKING_Low", vec![]);
    override_thinking_from_model_name(&mut req);
    let thinking = req.thinking.unwrap();
    assert_eq!(thinking.thinking_type, "adaptive");
    assert_eq!(thinking.budget_tokens, 20000);
    assert_eq!(req.output_config.unwrap().effort, "low");
}

#[test]
fn other_models_think_without_effort() {
    let mut req = request("vendor-haiku-4-5-thinking-max", vec![]);
    override_thinking_from_model_name(&mut req);
    assert_eq!(req.thinking.unwrap().thinking_type, "enabled");
    assert!(req.output_config.is_none());
}

#[test]
fn adaptive_thinking_gets_a_default_effort() {
    let mut req = request("vendor-opus-4-8", vec![]);
    req.thinking = Some(Thinking {
        thinking_type: "adaptive".to_string(),
        budget_tokens: 1,
    });
    override_thinking_from_model_name(&mut req);
    assert_eq!(req.output_config.unwrap().effort, "high");
    assert_eq!(req.thinking.unwrap().budget_tokens, 1);
}

#[test]
fn effort_is_read_from_the_name() {
    assert_eq!(parse_thinking_effort_from_model_name("x-thinking-xhigh"), Some("xhigh"));
    assert_eq!(parse_thinking_effort_from_model_name("x-thinking_medium"), Some("medium"));
    assert_eq!(parse_thinking_effort_from_model_name("x-thinking-high"), Some("high"));
    assert_eq!(parse_thinking_effort_from_model_name("x-thinking"), None);
}

#[test]
fn overriding_and_normalizing_settle() {
    let make = || {
        let mut req = request("vendor-opus-4-8-thinking", vec![]);
        req.tools = Some(vec![
            Tool {
                name: "WebSearch".to_string(),
                tool_type: None,
                rest: JsonObject::new(),
            },
            Tool {
                name: "Bash".to_string(),
                tool_type: None,
                rest: JsonObject::new(),
            },
        ]);
        req.tool_choice = Some(json(r#"{"type":"tool","name":"WebSearch"}"#));
        req
    };
    let mut once = make();
    prepare(&mut once);
    let mut twice = make();
    prepare(&mut twice);
    prepare(&mut twice);
    let tools = once.tools.as_ref().unwrap();
    assert_eq!(tools[0].name, "web_search");
    assert_eq!(tools[0].tool_type.as_deref(), Some("web_search_20250305"));
    assert_eq!(tools[1].name, "Bash");
    assert_eq!(tools[1].tool_type, None);
    assert_eq!(
        once.tool_choice.as_ref().unwrap().to_text(),
        r#"{"name":"web_search","type":"tool"}"#
    );
    assert_eq!(once.output_config.as_ref().unwrap().effort, "high");
    assert_eq!(format!("{once:?}"), format!("{twice:?}"));
}

#[test]
fn a_type_that_is_given_is_kept() {
    let mut req = request("m", vec![]);
    req.tools = Some(vec![Tool {
        name: "WebSearch".to_string(),
        tool_type: Some("custom".to_string()),
        rest: JsonObject::new(),
    }]);
    req.tool_choice = Some(json(r#""auto""#));
    normalize_web_search_tool(&mut req);
    assert_eq!(req.tools.unwrap()[0].tool_type.as_deref(), Some("custom"));
    assert_eq!(req.tool_choice.unwrap().to_text(), "\"auto\"");
}

#[test]
fn routes_are_chosen_in_order() {
    assert_eq!(choose_route(false, true, true, true), Route::Unavailable);
    assert_eq!(choose_route(true, true, true, false), Route::DirectSearch);
    assert_eq!(choose_route(true, true, false, false), Route::SearchLoop);
    assert_eq!(choose_route(true, false, true, true), Route::SearchLoop);
    assert_eq!(choose_route(true, false, true, false), Route::Chat);
}

#[test]
fn requests_are_planned() {
    let mut req = request("vendor-opus-4-8-thinking", vec![]);
    prepare(&mut req);
    let plan = plan_answer(&req, Route::Unavailable, &None, true);
    assert!(matches!(plan, Plan::Refuse(e) if e.status == 503
        && e.error_type == "service_unavailable"
        && e.message == "Kiro API provider not configured"));
    let refused = Some(ConversionError::EmptyMessages);
    let plan = plan_answer(&req, Route::Chat, &refused, true);
    assert!(matches!(plan, Plan::Refuse(e) if e.status == 400));
    assert!(matches!(
        plan_answer(&req, Route::Chat, &None, false),
        Plan::Whole { show_thinking: false }
    ));
    assert!(matches!(
        plan_answer(&req, Route::Chat, &None, true),
        Plan::Whole { show_thinking: true }
    ));
    req.stream = true;
    assert!(matches!(
        plan_answer(&req, Route::Chat, &None, false),
        Plan::Stream { thinking_enabled: true }
    ));
    assert!(matches!(plan_answer(&req, Route::SearchLoop, &None, false), Plan::SearchLoop));
    assert!(matches!(plan_answer(&req, Route::DirectSearch, &None, false), Plan::DirectSearch));
}
