use kiro_relay::endpoint::{effective_profile_arn, CliEndpoint, IdeEndpoint, RequestContext};
use kiro_relay::events::ReasoningContentEvent;
use kiro_relay::json::Json;
use kiro_relay::kiro_request::{
    inject_ide_thinking_fields, inject_profile_arn, rewrite_cli_body, try_inject_profile_arn,
    AdditionalModelRequestFields, KiroOutputConfig, KiroReasoningConfig, KiroRequest,
    KiroThinkingConfig,
};
use kiro_relay::version::{cached, effective, Metadata, VersionCell};
use serde_json::Value;

const BUILDER_ID_PROFILE_ARN: &str = "arn:aws:codewhisperer:us-east-1:1:profile/BUILDER";

fn context() -> RequestContext {
    RequestContext {
        api_region: "us-east-1".to_string(),
        token: "token".to_string(),
        machine_id: "machine".to_string(),
        system_version: "linux".to_string(),
        node_version: "22".to_string(),
        kiro_version: "0.9.2".to_string(),
        latest_version: VersionCell::new(),
        is_api_key: false,
        effective_profile_arn: None,
        streaming_profile_arn: None,
    }
}

fn header<'a>(headers: &'a [(String, String)], name: &str) -> Option<&'a str> {
    headers
        .iter()
        .find(|(n, _)| n == name)
        .map(|(_, v)| v.as_str())
}

#[test]
fn test_cli_api_url_uses_runtime_kiro_dev() {
    let endpoint = CliEndpoint::new();
    let ctx = context();

    assert_eq!(
        endpoint.api_url(&ctx),
        "https://runtime.us-east-1.kiro.dev/"
    );
}

#[test]
fn test_set_origin_kiro_cli_current_message() {
    let body = r#"{"conversationState":{"currentMessage":{"userInputMessage":{"content":"hi","origin":"AI_EDITOR"}}}}"#;
    let result = rewrite_cli_body(body);
    assert!(result.contains("\"origin\":\"KIRO_CLI\""));
    assert!(!result.contains("\"origin\":\"AI_EDITOR\""));
}

#[test]
fn test_set_origin_kiro_cli_history() {
    let body = r#"{"conversationState":{"history":[{"userInputMessage":{"content":"hi","origin":"AI_EDITOR"}},{"userInputMessage":{"content":"hello","origin":"AI_EDITOR"}}],"currentMessage":{"userInputMessage":{"origin":"AI_EDITOR"}}}}"#;
    let result = rewrite_cli_body(body);
    assert!(!result.contains("\"origin\":\"AI_EDITOR\""));
    assert_eq!(result.matches("\"origin\":\"KIRO_CLI\"").count(), 3);
}

#[test]
fn test_set_origin_kiro_cli_no_origin() {
    let body = r#"{"conversationState":{}}"#;
    assert_eq!(rewrite_cli_body(body), r#"{"conversationState":{}}"#);
}

#[test]
fn test_cli_rewrite_only_changes_user_input_origin() {
    let body = r#"{
        "conversationState": {
            "agentContinuationId": "keep-me",
            "currentMessage": {
                "userInputMessage": {
                    "origin": "AI_EDITOR",
                    "modelId": "vendor-opus-4.8",
                    "userInputMessageContext": {
                        "tools": [{
                            "toolSpecification": {
                                "name": "test",
                                "description": "test",
                                "inputSchema": {
                                    "json": {
                                        "type": "object",
                                        "properties": {
                                            "origin": {"type": "string", "description": "AI_EDITOR"},
                                            "modelId": {"type": "string", "default": "vendor-opus-4.8"}
                                        }
                                    }
                                }
                            }
                        }]
                    }
                }
            }
        }
    }"#;

    let result = rewrite_cli_body(body);
    let json: Value = serde_json::from_str(&result).unwrap();
    assert_eq!(json["conversationState"]["agentContinuationId"], "keep-me");
    let uim = &json["conversationState"]["currentMessage"]["userInputMessage"];
    assert_eq!(uim["origin"], "KIRO_CLI");
    assert_eq!(uim["modelId"], "vendor-opus-4.8");
    let props = &uim["userInputMessageContext"]["tools"][0]["toolSpecification"]["inputSchema"]
        ["json"]["properties"];
    assert_eq!(props["origin"]["description"], "AI_EDITOR");
    assert_eq!(props["modelId"]["default"], "vendor-opus-4.8");
}

#[test]
fn test_cli_rewrite_removes_ide_thinking_wrapper() {
    let body = r#"{
        "conversationState": {
            "currentMessage": {
                "userInputMessage": {
                    "origin": "AI_EDITOR",
                    "modelId": "vendor-opus-4.8"
                }
            }
        },
        "additionalModelRequestFields": {
            "thinking": {"type":"adaptive","display":"summarized"},
            "output_config": {"effort":"xhigh"}
        }
    }"#;

    let result = rewrite_cli_body(body);
    let json: Value = serde_json::from_str(&result).unwrap();
    assert!(json["additionalModelRequestFields"]
        .get("thinking")
        .is_none());
    assert_eq!(
        json["additionalModelRequestFields"]["output_config"]["effort"],
        "xhigh"
    );
}

#[test]
fn test_cli_rewrite_preserves_reasoning_schema_path() {
    let body = r#"{
        "conversationState": {
            "currentMessage": {
                "userInputMessage": {
                    "origin": "AI_EDITOR",
                    "modelId": "vendor-opus-4.8"
                }
            }
        },
        "additionalModelRequestFields": {
            "thinking": {"type":"adaptive","display":"summarized"},
            "reasoning": {"effort":"high"}
        }
    }"#;

    let result = rewrite_cli_body(body);
    let json: Value = serde_json::from_str(&result).unwrap();
    assert!(json["additionalModelRequestFields"]
        .get("thinking")
        .is_none());
    assert_eq!(
        json["additionalModelRequestFields"]["reasoning"]["effort"],
        "high"
    );
}

#[test]
fn settings_that_hold_thinking_alone_are_dropped() {
    let body = r#"{"additionalModelRequestFields":{"thinking":{}},"x":1.5}"#;
    assert_eq!(rewrite_cli_body(body), r#"{"x":1.5}"#);
    assert_eq!(rewrite_cli_body("not json"), "not json");
}

#[test]
fn rewriting_for_the_command_line_settles() {
    let body = r#"{"conversationState":{"history":[{"userInputMessage":{"origin":"A"}},7],"currentMessage":{"userInputMessage":{"origin":"B","k":[1,null,true]}}},"additionalModelRequestFields":{"thinking":1,"a":2}}"#;
    let once = rewrite_cli_body(body);
    assert_eq!(rewrite_cli_body(&once), once);
    assert_eq!(
        once,
        r#"{"additionalModelRequestFields":{"a":2},"conversationState":{"currentMessage":{"userInputMessage":{"k":[1,null,true],"origin":"KIRO_CLI"}},"history":[{"userInputMessage":{"origin":"KIRO_CLI"}},7]}}"#
    );
}

#[test]
fn test_cli_transform_injects_profile_arn_for_enterprise() {
    let endpoint = CliEndpoint::new();
    let mut ctx = context();
    ctx.streaming_profile_arn =
        Some("arn:aws:codewhisperer:us-east-1:123:profile/CLI".to_string());
    let body = r#"{"conversationState":{"currentMessage":{"userInputMessage":{"origin":"AI_EDITOR"}}}}"#;

    let result = endpoint.transform_api_body(body, &ctx);
    let json: Value = serde_json::from_str(&result).unwrap();

    assert_eq!(
        json["profileArn"],
        "arn:aws:codewhisperer:us-east-1:123:profile/CLI"
    );
    assert_eq!(
        json["conversationState"]["currentMessage"]["userInputMessage"]["origin"],
        "KIRO_CLI"
    );
}

#[test]
fn bodies_that_cannot_hold_a_profile_are_told_apart() {
    let mut ctx = context();
    assert_eq!(
        CliEndpoint::new().try_transform_api_body("[1]", &ctx).as_deref(),
        Some("[1]")
    );
    ctx.streaming_profile_arn = Some("arn".to_string());
    assert_eq!(CliEndpoint::new().try_transform_api_body("[1]", &ctx), None);
    assert_eq!(IdeEndpoint::new().try_transform_api_body("7", &ctx), None);
    assert_eq!(
        IdeEndpoint::new().try_transform_api_body("null", &ctx).as_deref(),
        Some(r#"{"profileArn":"arn"}"#)
    );
    assert_eq!(
        IdeEndpoint::new()
            .try_transform_api_body(
                r#"{"additionalModelRequestFields":{"output_config":{"effort":"low"}}}"#,
                &ctx
            )
            .as_deref(),
        Some(
            r#"{"additionalModelRequestFields":{"output_config":{"effort":"low"},"thinking":{"display":"summarized","type":"adaptive"}},"profileArn":"arn"}"#
        )
    );
    assert_eq!(try_inject_profile_arn("nope", &ctx.streaming_profile_arn).as_deref(), Some("nope"));
}

#[test]
fn test_cli_mcp_header_skips_builder_placeholder_profile_arn() {
    let endpoint = CliEndpoint::new();
    let mut ctx = context();
    ctx.effective_profile_arn =
        effective_profile_arn(&Some(BUILDER_ID_PROFILE_ARN.to_string()), BUILDER_ID_PROFILE_ARN);

    let headers = endpoint.decorate_mcp(&ctx);
    assert!(header(&headers, "x-amzn-kiro-profile-arn").is_none());
}

#[test]
fn cli_headers_are_complete() {
    let endpoint = CliEndpoint::new();
    let mut ctx = context();
    ctx.is_api_key = true;
    ctx.effective_profile_arn = Some("arn".to_string());
    let headers = endpoint.decorate_api(&ctx);
    let names: Vec<&str> = headers.iter().map(|(n, _)| n.as_str()).collect();
    assert_eq!(
        names,
        vec![
            "x-amz-target",
            "x-amzn-codewhisperer-optout",
            "x-amz-user-agent",
            "user-agent",
            "host",
            "amz-sdk-invocation-id",
            "amz-sdk-request",
            "Authorization",
            "tokentype",
        ]
    );
    assert_eq!(
        header(&headers, "user-agent"),
        Some("aws-sdk-rust/1.3.15 ua/2.1 api/codewhispererstreaming/0.1.16551 os/linux lang/rust/1.92.0 md/appVersion-0.9.2 app/AmazonQ-For-CLI")
    );
    assert_eq!(
        header(&headers, "x-amz-user-agent"),
        Some("aws-sdk-rust/1.3.15 ua/2.1 api/codewhispererstreaming/0.1.16551 os/linux lang/rust/1.92.0 m/F app/AmazonQ-For-CLI")
    );
    assert_eq!(header(&headers, "host"), Some("runtime.us-east-1.kiro.dev"));
    assert_eq!(header(&headers, "Authorization"), Some("Bearer token"));
    assert_eq!(header(&headers, "tokentype"), Some("API_KEY"));
    let id = header(&headers, "amz-sdk-invocation-id").unwrap();
    assert_eq!(id.len(), 36);
    assert_eq!(id.split('-').map(|s| s.len()).collect::<Vec<_>>(), vec![8, 4, 4, 4, 12]);
    let again = endpoint.decorate_api(&ctx);
    assert_ne!(header(&again, "amz-sdk-invocation-id"), Some(id));
    let headers = endpoint.decorate_mcp(&ctx);
    assert_eq!(header(&headers, "x-amzn-kiro-profile-arn"), Some("arn"));
    assert_eq!(endpoint.mcp_url(&ctx), "https://q.us-east-1.amazonaws.com/mcp");
    assert_eq!(endpoint.name(), "cli");
    assert_eq!(endpoint.content_type(), "application/x-amz-json-1.0");
}

#[test]
fn ide_headers_go_by_the_latest_version() {
    let endpoint = IdeEndpoint::new();
    let mut ctx = context();
    let headers = endpoint.decorate_api(&ctx);
    assert_eq!(
        header(&headers, "x-amz-user-agent"),
        Some("aws-sdk-js/1.0.34 KiroIDE-0.9.2-machine")
    );
    assert!(ctx.latest_version.store("0.12.301".to_string()));
    let headers = endpoint.decorate_api(&ctx);
    assert_eq!(
        header(&headers, "user-agent"),
        Some("aws-sdk-js/1.0.34 ua/2.1 os/linux lang/js md/nodejs#22 api/codewhispererstreaming#1.0.34 m/E KiroIDE-0.12.301-machine")
    );
    assert_eq!(header(&headers, "x-amzn-kiro-agent-mode"), Some("vibe"));
    assert_eq!(header(&headers, "x-amzn-codewhisperer-optout"), Some("true"));
    assert_eq!(header(&headers, "host"), Some("q.us-east-1.amazonaws.com"));
    assert_eq!(
        endpoint.api_url(&ctx),
        "https://q.us-east-1.amazonaws.com/generateAssistantResponse"
    );
    assert_eq!(endpoint.name(), "ide");
}

#[test]
fn test_inject_profile_arn_with_some() {
    let body = r#"{"conversationState":{"conversationId":"c1"}}"#;
    let arn = Some("arn:aws:codewhisperer:us-east-1:123:profile/ABC".to_string());
    let result = inject_profile_arn(body, &arn);
    let json: Value = serde_json::from_str(&result).unwrap();
    assert_eq!(
        json["profileArn"],
        "arn:aws:codewhisperer:us-east-1:123:profile/ABC"
    );
    assert_eq!(json["conversationState"]["conversationId"], "c1");
}

#[test]
fn test_inject_profile_arn_with_none() {
    let body = r#"{"conversationState":{"conversationId":"c1"}}"#;
    let result = inject_profile_arn(body, &None);
    let json: Value = serde_json::from_str(&result).unwrap();
    assert!(json.get("profileArn").is_none());
    assert_eq!(json["conversationState"]["conversationId"], "c1");
}

#[test]
fn test_inject_profile_arn_overwrites_existing() {
    let body = r#"{"conversationState":{},"profileArn":"old-arn"}"#;
    let arn = Some("new-arn".to_string());
    let result = inject_profile_arn(body, &arn);
    let json: Value = serde_json::from_str(&result).unwrap();
    assert_eq!(json["profileArn"], "new-arn");
}

#[test]
fn test_inject_profile_arn_invalid_json() {
    let body = "not-valid-json";
    let arn = Some("arn:test".to_string());
    let result = inject_profile_arn(body, &arn);
    assert_eq!(result, "not-valid-json");
}

#[test]
fn test_inject_profile_arn_keeps_enterprise_idc_arn() {
    let body = r#"{"conversationState":{},"profileArn":"old-arn"}"#;
    let arn = Some("new-arn".to_string());
    let result = inject_profile_arn(body, &arn);
    let json: Value = serde_json::from_str(&result).unwrap();
    assert_eq!(json["profileArn"], "new-arn");
}

#[test]
fn test_ide_injects_thinking_for_output_config_effort() {
    let body = r#"{"conversationState":{},"additionalModelRequestFields":{"output_config":{"effort":"xhigh"}}}"#;
    let result = inject_ide_thinking_fields(body);
    let json: Value = serde_json::from_str(&result).unwrap();
    assert_eq!(
        json["additionalModelRequestFields"]["thinking"]["type"],
        "adaptive"
    );
    assert_eq!(
        json["additionalModelRequestFields"]["thinking"]["display"],
        "summarized"
    );
    assert_eq!(
        json["additionalModelRequestFields"]["output_config"]["effort"],
        "xhigh"
    );
    assert_eq!(inject_ide_thinking_fields(&result), result);
}

#[test]
fn test_ide_preserves_existing_thinking_field() {
    let body = r#"{"additionalModelRequestFields":{"thinking":{"type":"disabled"},"output_config":{"effort":"low"}}}"#;
    let result = inject_ide_thinking_fields(body);
    let json: Value = serde_json::from_str(&result).unwrap();
    assert_eq!(
        json["additionalModelRequestFields"]["thinking"]["type"],
        "disabled"
    );
}

#[test]
fn test_ide_does_not_inject_thinking_for_reasoning_schema_path() {
    let body = r#"{"additionalModelRequestFields":{"reasoning":{"effort":"high"}}}"#;
    let result = inject_ide_thinking_fields(body);
    let json: Value = serde_json::from_str(&result).unwrap();
    assert!(json["additionalModelRequestFields"]
        .get("thinking")
        .is_none());
    assert_eq!(
        json["additionalModelRequestFields"]["reasoning"]["effort"],
        "high"
    );
}

#[test]
fn test_ide_mcp_header_skips_builder_placeholder_profile_arn() {
    let endpoint = IdeEndpoint::new();
    let mut ctx = context();
    ctx.effective_profile_arn =
        effective_profile_arn(&Some(BUILDER_ID_PROFILE_ARN.to_string()), BUILDER_ID_PROFILE_ARN);

    let headers = endpoint.decorate_mcp(&ctx);
    assert!(header(&headers, "x-amzn-kiro-profile-arn").is_none());
}

#[test]
fn test_metadata_parses_current_release() {
    let json = r#"{"currentRelease":"0.12.301","releases":[]}"#;
    let meta = Metadata::from_json(&Json::parse(json).unwrap()).unwrap();
    assert_eq!(meta.current_release.as_deref(), Some("0.12.301"));
    assert_eq!(meta.into_release().unwrap(), "0.12.301");
}

#[test]
fn metadata_is_read_with_what_it_needs() {
    let read = |text: &str| Metadata::from_json(&Json::parse(text).unwrap());
    assert!(read("[]").is_none());
    assert!(read(r#"["1", "2"]"#).is_none());
    assert!(read("7").is_none());
    assert!(read(r#"{"currentRelease": 12}"#).is_none());
    assert!(read("{}").unwrap().current_release.is_none());
    assert!(read(r#"{"currentRelease": null}"#).unwrap().into_release().is_err());
    assert_eq!(read(r#"["0.12.301"]"#).unwrap().into_release().unwrap(), "0.12.301");
}

#[test]
fn releases_without_a_name_are_errors() {
    let blank = Metadata {
        current_release: Some(" \n".to_string()),
    };
    assert_eq!(blank.into_release().unwrap_err(), "元数据缺少 currentRelease");
    let none = Metadata {
        current_release: None,
    };
    assert!(none.into_release().is_err());
}

#[test]
fn test_effective_falls_back_without_cache() {
    let version = effective(&VersionCell::new(), "0.9.2");
    assert!(!version.is_empty());
    assert_eq!(version, "0.9.2");
}

#[test]
fn the_latest_version_holds() {
    let mut cell = VersionCell::new();
    assert_eq!(cached(&cell), None);
    assert!(cell.store("1".to_string()));
    assert!(!cell.store("1".to_string()));
    assert!(cell.store("2".to_string()));
    assert_eq!(cached(&cell).as_deref(), Some("2"));
    assert_eq!(effective(&cell, "0"), "2");
}

#[test]
fn test_deserialize_reasoning_content() {
    let json = r#"{"text":"thinking","signature":"sig-1","extraField":true}"#;
    let event = ReasoningContentEvent::from_json(&Json::parse(json).unwrap()).unwrap();

    assert_eq!(event.text, "thinking");
    assert_eq!(event.signature.as_deref(), Some("sig-1"));
}

#[test]
fn reasoning_payloads_of_other_shapes_are_refused() {
    let read = |s: &str| ReasoningContentEvent::from_json(&Json::parse(s).unwrap());
    let empty = read(r#"{"signature":null}"#).unwrap();
    assert_eq!((empty.text.as_str(), empty.signature, empty.redacted_content), ("", None, None));
    assert!(read(r#"{"text":1}"#).is_none());
    assert!(read(r#"{"redactedContent":[]}"#).is_none());
    assert!(read("[]").is_none());
}

#[test]
fn test_kiro_request_deserialize() {
    let json = r#"{
        "conversationState": {
            "conversationId": "conv-456",
            "currentMessage": {
                "userInputMessage": {
                    "content": "Test message",
                    "modelId": "vendor-3-5-sonnet",
                    "userInputMessageContext": {
                        "envState": {
                            "operatingSystem": "macos",
                            "currentWorkingDirectory": "/workspace"
                        }
                    }
                }
            }
        }
    }"#;

    let request = KiroRequest::from_json(&Json::parse(json).unwrap()).unwrap();
    assert_eq!(request.conversation_state.get_str("conversationId"), Some("conv-456"));
    assert_eq!(
        request
            .conversation_state
            .get("currentMessage")
            .unwrap()
            .get("userInputMessage")
            .unwrap()
            .get_str("content"),
        Some("Test message")
    );
    assert_eq!(request.to_json().to_text(), Json::parse(json).unwrap().to_text());
}

#[test]
fn test_additional_model_request_fields_wire_format() {
    let fields = AdditionalModelRequestFields {
        thinking: None,
        output_config: Some(KiroOutputConfig {
            effort: "max".to_string(),
        }),
        reasoning: None,
    };
    let v: Value = serde_json::from_str(&fields.to_json().to_text()).unwrap();
    assert!(v.get("thinking").is_none());
    assert_eq!(v["output_config"]["effort"], "max");
    assert!(
        v.get("outputConfig").is_none(),
        "inner key must stay snake_case output_config, got {v}"
    );
}

#[test]
fn whole_requests_have_their_wire_format() {
    let request = KiroRequest {
        conversation_state: Json::Null,
        profile_arn: Some("arn".to_string()),
        additional_model_request_fields: Some(AdditionalModelRequestFields {
            thinking: Some(KiroThinkingConfig {
                thinking_type: "adaptive".to_string(),
                display: Some("omitted".to_string()),
            }),
            output_config: None,
            reasoning: Some(KiroReasoningConfig {
                effort: "low".to_string(),
            }),
        }),
    };
    assert_eq!(
        request.to_json().to_text(),
        r#"{"additionalModelRequestFields":{"reasoning":{"effort":"low"},"thinking":{"display":"omitted","type":"adaptive"}},"conversationState":null,"profileArn":"arn"}"#
    );
}

#[test]
fn a_written_request_reads_back() {
    let request = KiroRequest {
        conversation_state: Json::parse(r#"{"conversationId": "c", "turns": [1, -2, null]}"#)
            .unwrap(),
        profile_arn: Some("arn:aws:x".to_string()),
        additional_model_request_fields: Some(AdditionalModelRequestFields {
            thinking: Some(KiroThinkingConfig {
                thinking_type: "adaptive".to_string(),
                display: Some("summarized".to_string()),
            }),
            output_config: Some(KiroOutputConfig { effort: "max".to_string() }),
            reasoning: None,
        }),
    };
    let again = KiroRequest::from_json(&request.to_json()).unwrap();
    assert_eq!(again.to_json().to_text(), request.to_json().to_text());
    assert_eq!(again.profile_arn.as_deref(), Some("arn:aws:x"));
    let fields = again.additional_model_request_fields.unwrap();
    let thinking = fields.thinking.unwrap();
    assert_eq!(thinking.thinking_type, "adaptive");
    assert_eq!(thinking.display.as_deref(), Some("summarized"));
    assert_eq!(fields.output_config.unwrap().effort, "max");
    assert!(fields.reasoning.is_none());
}

#[test]
fn a_request_is_read_with_what_it_needs() {
    let read = |text: &str| KiroRequest::from_json(&Json::parse(text).unwrap());
    assert!(read("{}").is_none());
    assert!(read("7").is_none());
    assert!(read(r#"{"conversationState": 7}"#).is_none());
    assert!(read(r#"{"conversationState": {}, "profileArn": 7}"#).is_none());
    let fields = |f: &str| {
        read(&format!(
            r#"{{"conversationState": {{}}, "additionalModelRequestFields": {}}}"#,
            f
        ))
    };
    assert!(fields("[]").is_none());
    assert!(fields(r#"{"thinking": {}}"#).is_none());
    assert!(fields(r#"{"thinking": {"type": "adaptive", "display": 1}}"#).is_none());
    assert!(fields(r#"{"reasoning": {"effort": null}}"#).is_none());
    assert!(fields("null").unwrap().additional_model_request_fields.is_none());
    let read = fields(r#"{"thinking": null, "reasoning": {"effort": "low", "more": 1}, "x": 2}"#);
    let read = read.unwrap().additional_model_request_fields.unwrap();
    assert!(read.thinking.is_none());
    assert!(read.output_config.is_none());
    assert_eq!(read.reasoning.unwrap().effort, "low");
}

#[test]
fn a_request_is_read_from_the_list_of_its_fields() {
    let read = |text: &str| KiroRequest::from_json(&Json::parse(text).unwrap());
    let request = read(r#"[{"conversationId": "c"}, null, [["adaptive", null], ["max"], null]]"#);
    let request = request.unwrap();
    assert_eq!(request.conversation_state.get_str("conversationId"), Some("c"));
    assert!(request.profile_arn.is_none());
    let fields = request.additional_model_request_fields.unwrap();
    let thinking = fields.thinking.unwrap();
    assert_eq!(thinking.thinking_type, "adaptive");
    assert!(thinking.display.is_none());
    assert_eq!(fields.output_config.unwrap().effort, "max");
    assert!(fields.reasoning.is_none());
    assert!(read(r#"[{}, null]"#).is_none());
    assert!(read(r#"[{}, null, null, null]"#).is_none());
    assert!(read(r#"[{}, "arn", [["adaptive"], null, null]]"#).is_none());
}

#[test]
fn the_command_line_takes_out_what_the_editor_adds() {
    let body = r#"{"additionalModelRequestFields":{"output_config":{"effort":"low"}},"x":1}"#;
    let edited = inject_ide_thinking_fields(body);
    assert!(edited.contains("summarized"));
    assert_eq!(rewrite_cli_body(&edited), rewrite_cli_body(body));
    assert_eq!(rewrite_cli_body(&edited), body);
    let bare = r#"{"additionalModelRequestFields":{}}"#;
    assert_eq!(rewrite_cli_body(&inject_ide_thinking_fields(bare)), "{}");
}

#[test]
fn a_profile_of_its_own_is_named() {
    let own = Some("arn:aws:own".to_string());
    assert_eq!(effective_profile_arn(&own, BUILDER_ID_PROFILE_ARN), own);
    assert_eq!(effective_profile_arn(&None, BUILDER_ID_PROFILE_ARN), None);
    let mut ctx = context();
    ctx.effective_profile_arn = effective_profile_arn(&own, BUILDER_ID_PROFILE_ARN);
    let headers = CliEndpoint::new().decorate_mcp(&ctx);
    assert_eq!(header(&headers, "x-amzn-kiro-profile-arn"), Some("arn:aws:own"));
    let headers = IdeEndpoint::new().decorate_mcp(&ctx);
    assert_eq!(header(&headers, "x-amzn-kiro-profile-arn"), Some("arn:aws:own"));
}
