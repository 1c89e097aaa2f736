//! The chat completion API: requests, replies, tools and response formats.
use coulisse::floats::Single;
use coulisse::ids::{MessageId, UserId};
use coulisse::memory::config::ExtractorConfig;
use coulisse::names::NameMap;
use coulisse::providers::kind::ProviderKind;
use coulisse::proxy::chat::{
    ChatCompletionRequest, ChunkDelta, CompletionId, ContentPart, ContentPartKind, FinishReason,
    Message, MessageContent, Role, StreamOptions, TokenCounts, Usage,
};
use coulisse::proxy::extractor::{Extractor, ExtractorBuildError};
use coulisse::proxy::language::LanguageTag;
use coulisse::proxy::response_format::{
    describe_schema, judge, judge_object, strip_code_fence, JsonSchemaSpec, ResponseFormat,
    ResponseFormatError,
};
use coulisse::proxy::shadow::{shadow_exchange, shadow_runs};
use coulisse::proxy::tool::{
    Tool, ToolCall, ToolCallFunction, ToolCallId, ToolChoice, ToolChoiceFunction, ToolChoiceMode,
    ToolFunction, ToolKind,
};
use serde_json::Value;

fn request(metadata: &[(&str, &str)]) -> ChatCompletionRequest {
    let mut map = NameMap::new();
    for (k, v) in metadata {
        map.insert(k.to_string(), v.to_string());
    }
    ChatCompletionRequest {
        max_tokens: None,
        messages: vec![],
        metadata: map,
        model: "test".into(),
        response_format: None,
        safety_identifier: None,
        stream: None,
        stream_options: None,
        temperature: None,
        tool_choice: None,
        tools: None,
        user: None,
    }
}

fn part_of(value: &Value) -> ContentPart {
    let mut extra = NameMap::new();
    for (k, v) in value.as_object().unwrap() {
        if k != "type" && k != "text" {
            extra.insert(k.clone(), v.to_string());
        }
    }
    ContentPart {
        extra,
        kind: ContentPartKind::from(value["type"].as_str().unwrap().to_string()),
        text: value.get("text").and_then(Value::as_str).map(str::to_string),
    }
}

fn content_of(raw: &str) -> MessageContent {
    match serde_json::from_str(raw).unwrap() {
        Value::String(s) => MessageContent::Text(s),
        Value::Array(parts) => MessageContent::Parts(parts.iter().map(part_of).collect()),
        other => panic!("{other}"),
    }
}

#[test]
fn language_is_none_when_metadata_key_is_absent() {
    assert!(request(&[]).language().unwrap().is_none());
}

#[test]
fn language_tag_comes_from_metadata() {
    let req = request(&[("language", "fr-FR")]);
    let tag = req.language().unwrap().expect("language present");
    assert_eq!(tag.as_str(), "fr-FR");
}

#[test]
fn language_rejects_malformed_tag() {
    let req = request(&[("language", "not a tag!")]);
    assert!(req.language().is_err());
}

#[test]
fn language_rejects_empty_value() {
    let req = request(&[("language", "")]);
    assert!(req.language().is_err());
}

#[test]
fn language_tags_are_subtags_between_hyphens() {
    for raw in ["en", "zh-Hant-TW", "es-419", "sl-rozaj-biske"] {
        assert_eq!(LanguageTag::parse(raw).unwrap().as_str(), raw);
    }
    for raw in ["-", "en-", "-en", "en--US", "1n", "en_US", "abcdefghi", "en-abcdefghi", "f\u{e9}"] {
        assert_eq!(LanguageTag::parse(raw).unwrap_err().0, raw);
    }
}

#[test]
fn message_content_deserializes_plain_string() {
    let content = content_of(r#""hello""#);
    assert!(matches!(content, MessageContent::Text(ref s) if s == "hello"));
    assert_eq!(content.text(), "hello");
}

#[test]
fn message_content_deserializes_parts_array() {
    let content = content_of(r#"[{"type":"text","text":"first"},{"type":"text","text":"second"}]"#);
    assert!(matches!(content, MessageContent::Parts(_)));
    assert_eq!(content.text(), "first\nsecond");
}

#[test]
fn message_content_text_skips_non_text_parts() {
    let content =
        content_of(r#"[{"type":"text","text":"caption"},{"type":"input_file","file_id":"file-1"}]"#);
    assert_eq!(content.text(), "caption");
}

#[test]
fn content_part_round_trips_unknown_fields() {
    let raw: Value = serde_json::from_str(r#"{"type":"input_file","file_id":"file-1"}"#).unwrap();
    let part = part_of(&raw);
    assert_eq!(part.kind, ContentPartKind::Other("input_file".into()));
    assert!(part.text.is_none());
    assert_eq!(part.kind.as_str(), "input_file");
    assert_eq!(part.extra.get("file_id").map(String::as_str), Some("\"file-1\""));
}

#[test]
fn content_part_kind_round_trips_known_and_unknown_values() {
    for (raw, kind) in [
        ("text", ContentPartKind::Text),
        ("image_url", ContentPartKind::ImageUrl),
        ("input_audio", ContentPartKind::InputAudio),
        ("file", ContentPartKind::File),
        ("refusal", ContentPartKind::Other("refusal".into())),
    ] {
        let parsed = ContentPartKind::from(raw.to_string());
        assert_eq!(parsed, kind);
        assert_eq!(parsed.as_str(), raw);
    }
}

fn message(role: Role, text: &str) -> Message {
    Message {
        content: Some(MessageContent::Text(text.to_string())),
        name: None,
        role,
        tool_call_id: None,
        tool_calls: None,
    }
}

#[test]
fn tool_message_round_trips_tool_call_id() {
    let mut m = message(Role::Tool, "42");
    m.tool_call_id = Some(ToolCallId::new("call_1"));
    assert_eq!(m.tool_call_id.as_ref().map(ToolCallId::as_str), Some("call_1"));
    assert_eq!(m.content_or_empty(), "42");
    m.content = None;
    assert_eq!(m.content_or_empty(), "");
}

#[test]
fn usage_clamps_provider_counts() {
    let usage = Usage::from(TokenCounts {
        completion: 2,
        prompt: 1,
        total: u64::from(u32::MAX) + 1,
    });
    assert_eq!(usage.prompt_tokens, 1);
    assert_eq!(usage.completion_tokens, 2);
    assert_eq!(usage.total_tokens, u32::MAX);
}

#[test]
fn response_serializes_openai_shape() {
    let usage = Usage::from(TokenCounts { completion: 1, prompt: 1, total: 2 });
    let response = request(&[]).response_with("hi".into(), usage, 1_700_000_000);
    assert_eq!(response.object, "chat.completion");
    assert_eq!(response.id.as_str(), format!("chatcmpl-coulisse-{}", response.created));
    assert_eq!(response.created, 1_700_000_000);
    assert_eq!(response.model, "test");
    assert_eq!(response.choices.len(), 1);
    assert_eq!(response.choices[0].message.role, Role::Assistant);
    assert_eq!(response.choices[0].message.content_or_empty(), "hi");
    assert_eq!(response.choices[0].finish_reason, FinishReason::Stop);
    assert_eq!(response.usage.total_tokens, 2);
}

#[test]
fn completions_are_numbered_by_time() {
    assert_eq!(CompletionId::from_created(0).as_str(), "chatcmpl-coulisse-0");
    assert_eq!(
        CompletionId::from_created(u64::MAX).as_str(),
        "chatcmpl-coulisse-18446744073709551615"
    );
}

#[test]
fn streaming_is_asked_for() {
    let mut req = request(&[]);
    assert!(!req.is_streaming());
    assert!(!req.include_usage());
    req.stream = Some(true);
    req.stream_options = Some(StreamOptions { include_usage: Some(true) });
    assert!(req.is_streaming());
    assert!(req.include_usage());
    assert!(ChunkDelta::default().content.is_none());
    assert_eq!(TokenCounts::default().total, 0);
}

#[test]
fn messages_are_told_by_role() {
    let mut req = request(&[]);
    assert!(req.last_user_message().is_none());
    req.messages = vec![
        message(Role::System, "s1"),
        message(Role::User, "u1"),
        message(Role::Assistant, "a1"),
        message(Role::User, "u2"),
        message(Role::System, "s2"),
        message(Role::Tool, "t"),
    ];
    assert_eq!(req.last_user_message().unwrap().content_or_empty(), "u2");
    assert_eq!(
        req.system_messages().iter().map(|m| m.content_or_empty()).collect::<Vec<_>>(),
        vec!["s1", "s2"]
    );
}

#[test]
fn caller_is_named_by_the_first_identifier() {
    let mut req = request(&[]);
    assert_eq!(req.user_key(), None);
    req.user = Some("  bob ".to_string());
    assert_eq!(req.user_key().as_deref(), Some("bob"));
    req.safety_identifier = Some("alice".to_string());
    assert_eq!(req.user_key().as_deref(), Some("alice"));
    req.safety_identifier = None;
    req.user = Some("   ".to_string());
    assert_eq!(req.user_key(), None);
}

#[test]
fn blank_identifier_counts_as_missing() {
    let mut req = request(&[]);
    req.safety_identifier = Some("  ".to_string());
    req.user = Some(" bob".to_string());
    assert_eq!(req.user_key().as_deref(), Some("bob"));
    req.user = Some("".to_string());
    assert_eq!(req.user_key(), None);
}

#[test]
fn parts_of_other_kinds_are_not_spoken() {
    let content =
        content_of(r#"[{"type":"text","text":"caption"},{"type":"refusal","text":"no"}]"#);
    assert_eq!(content.text(), "caption");
}

fn schema_format() -> ResponseFormat {
    ResponseFormat::JsonSchema {
        json_schema: JsonSchemaSpec {
            description: Some("a person".into()),
            name: "person".into(),
            schema: r#"{
                "type": "object",
                "properties": {
                    "age": {"type": "integer"},
                    "name": {"type": "string"}
                },
                "required": ["age", "name"],
                "additionalProperties": false
            }"#
            .to_string(),
            strict: Some(true),
        },
    }
}

#[test]
fn text_passes_through_and_needs_no_json() {
    let fmt = ResponseFormat::Text;
    assert!(!fmt.requires_json());
    assert!(fmt.instruction().is_none());
    assert_eq!(fmt.validate("hello").unwrap(), "hello");
}

#[test]
fn json_object_accepts_object_and_strips_prose() {
    let fmt = ResponseFormat::JsonObject;
    assert!(fmt.requires_json());
    let cleaned = fmt.validate("```json\n{\"a\": 1}\n```").unwrap();
    assert_eq!(cleaned, "{\"a\":1}");
}

#[test]
fn json_object_rejects_non_json() {
    let fmt = ResponseFormat::JsonObject;
    assert!(matches!(fmt.validate("not json"), Err(ResponseFormatError::NotJson(_))));
}

#[test]
fn json_object_rejects_other_values() {
    let fmt = ResponseFormat::JsonObject;
    for reply in ["[1]", "1", "\"a\"", "null", "```json\n[{}]\n```"] {
        assert!(
            matches!(fmt.validate(reply), Err(ResponseFormatError::SchemaViolation(_))),
            "{reply}"
        );
    }
    assert_eq!(judge_object("{}".to_string(), true).unwrap(), "{}");
    assert!(matches!(
        judge_object("1".to_string(), false),
        Err(ResponseFormatError::SchemaViolation(_))
    ));
}

#[test]
fn fence_on_one_line_comes_off() {
    assert_eq!(strip_code_fence("```{\"a\":1}```"), "{\"a\":1}");
    assert_eq!(strip_code_fence("```json {\"a\":1}```"), "{\"a\":1}");
    let fmt = ResponseFormat::JsonObject;
    assert_eq!(fmt.validate("```{\"a\": 1}```").unwrap(), "{\"a\":1}");
}

#[test]
fn schema_accepts_conforming_value() {
    let fmt = schema_format();
    let cleaned = fmt.validate("{\"name\": \"Ada\", \"age\": 36}").unwrap();
    let value: Value = serde_json::from_str(&cleaned).unwrap();
    assert_eq!(value["name"], "Ada");
    assert_eq!(value["age"], 36);
}

#[test]
fn schema_rejects_missing_required_field() {
    let fmt = schema_format();
    assert!(matches!(
        fmt.validate("{\"name\": \"Ada\"}"),
        Err(ResponseFormatError::SchemaViolation(_))
    ));
}

#[test]
fn schema_rejects_wrong_type() {
    let fmt = schema_format();
    assert!(matches!(
        fmt.validate("{\"name\": \"Ada\", \"age\": \"old\"}"),
        Err(ResponseFormatError::SchemaViolation(_))
    ));
}

#[test]
fn check_schema_rejects_malformed_schema() {
    let fmt = ResponseFormat::JsonSchema {
        json_schema: JsonSchemaSpec {
            description: None,
            name: "broken".into(),
            schema: r#"{"type": "not-a-real-type"}"#.to_string(),
            strict: None,
        },
    };
    assert!(matches!(fmt.check_schema(), Err(ResponseFormatError::InvalidSchema(_))));
    assert!(schema_format().check_schema().is_ok());
    assert!(ResponseFormat::JsonObject.check_schema().is_ok());
}

#[test]
fn instruction_embeds_schema_and_name() {
    let instruction = schema_format().instruction().unwrap();
    assert!(instruction.contains("person"));
    assert!(instruction.contains("a person"));
    assert!(instruction.contains("\"age\""));
}

#[test]
fn schema_is_laid_out_in_the_instruction() {
    let described = describe_schema("n", &Some("d".to_string()), "{}");
    assert!(described.contains("named `n`. The schema describes: d. Output only"), "{described}");
    assert!(described.ends_with("JSON Schema:\n{}"), "{described}");
    let instruction = schema_format().instruction().unwrap();
    assert!(instruction.contains("{\n  \""), "{instruction}");
}

#[test]
fn strip_code_fence_leaves_plain_text() {
    assert_eq!(strip_code_fence("{\"a\":1}"), "{\"a\":1}");
}

#[test]
fn few_violations_are_reported() {
    let all: Vec<String> = (0..9).map(|i| format!("v{i}")).collect();
    match judge("{}".to_string(), Ok(all)) {
        Err(ResponseFormatError::SchemaViolation(text)) => {
            assert!(text.contains("v4"), "{text}");
            assert!(!text.contains("v5"), "{text}");
        }
        other => panic!("{other:?}"),
    }
    assert_eq!(judge("{}".to_string(), Ok(vec![])).unwrap(), "{}");
    assert!(matches!(
        judge("{}".to_string(), Err("bad".to_string())),
        Err(ResponseFormatError::InvalidSchema(e)) if e == "bad"
    ));
}

#[test]
fn repair_quotes_the_error() {
    let error = ResponseFormatError::NotJson("expected value".to_string());
    let text = schema_format().repair_instruction(&error);
    assert!(text.contains(&error.to_text()), "{text}");
}

#[test]
fn tool_kinds_and_modes_have_words() {
    assert_eq!(ToolKind::parse("function"), Some(ToolKind::Function));
    assert_eq!(ToolKind::Function.as_str(), "function");
    assert_eq!(ToolChoiceMode::Auto.as_str(), "auto");
    assert_eq!(ToolChoiceMode::Never.as_str(), "none");
    assert_eq!(ToolChoiceMode::Required.as_str(), "required");
}

#[test]
fn unknown_tool_type_is_rejected() {
    assert_eq!(ToolKind::parse("retrieval"), None);
}

#[test]
fn tools_hold_what_they_are_given() {
    let tool = Tool {
        function: ToolFunction {
            description: None,
            name: "lookup".to_string(),
            parameters: Some(r#"{"type":"object"}"#.to_string()),
        },
        kind: ToolKind::Function,
    };
    assert_eq!(tool.function.name, "lookup");
    let call = ToolCall {
        function: ToolCallFunction { arguments: "{}".to_string(), name: "lookup".to_string() },
        id: ToolCallId::new("call_1"),
        kind: ToolKind::Function,
    };
    assert_eq!(call.id.as_str(), "call_1");
    let choice = ToolChoice::Specific {
        function: ToolChoiceFunction { name: "lookup".to_string() },
        kind: ToolKind::Function,
    };
    assert!(matches!(choice, ToolChoice::Specific { .. }));
}

#[test]
fn extractor_needs_a_known_provider() {
    let config = |provider: &str| ExtractorConfig {
        dedup_threshold: Single::from_bits(0),
        max_facts_per_turn: 5,
        model: "m".to_string(),
        provider: provider.to_string(),
    };
    let extractor = Extractor::from_config(&config("openai")).unwrap();
    assert_eq!(extractor.provider, ProviderKind::Openai);
    assert_eq!(extractor.max_facts_per_turn, 5);
    match Extractor::from_config(&config("acme")) {
        Err(e @ ExtractorBuildError::UnknownProvider(_)) => {
            assert!(e.to_text().contains("acme"), "{}", e.to_text())
        }
        other => panic!("{other:?}"),
    }
}

#[test]
fn shadows_run_when_sampled() {
    let variants = vec!["a".to_string(), "b".to_string()];
    assert_eq!(shadow_runs(true, &variants), variants);
    assert!(shadow_runs(false, &variants).is_empty());
    let e = shadow_exchange("a".into(), "u".into(), "r".into(), UserId(3));
    assert_eq!(e.agent_name, "a");
    assert_eq!(e.user_message, "u");
    assert_eq!(e.assistant_message, "r");
    assert_eq!(e.user_id, UserId(3));
    assert_ne!(e.message_id, MessageId(0));
}
