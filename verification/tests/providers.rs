//! Providers: their names, what a conversation sends, and what it costs.
use coulisse::providers::conversation::{
    flatten_tool_result, stream_event, CallError, Conversation, Message, Role, StreamEvent,
    StreamItem, ToolCallKind, ToolResultPart, Usage,
};
use coulisse::providers::kind::ProviderKind;
use coulisse::providers::pricing::{Charge, CostPerToken, ModelPricing, PricingTable};

fn cost(value: f64) -> Option<CostPerToken> {
    Some(CostPerToken { bits: value.to_bits() })
}

fn usd(charges: &[Charge]) -> f64 {
    charges.iter().map(|c| f64::from_bits(c.price.bits) * c.tokens as f64).sum()
}

fn model(provider: &str, input: f64, output: f64) -> ModelPricing {
    ModelPricing {
        cache_creation_input_token_cost: None,
        cache_read_input_token_cost: None,
        input_cost_per_token: cost(input),
        litellm_provider: Some(provider.to_string()),
        output_cost_per_token: cost(output),
    }
}

fn table() -> PricingTable {
    let sonnet = ModelPricing {
        cache_creation_input_token_cost: cost(3.75e-6),
        cache_read_input_token_cost: cost(3e-7),
        ..model("anthropic", 3e-6, 1.5e-5)
    };
    PricingTable::from_rows(vec![
        ("sample_spec".to_string(), None),
        ("sonnet-4-5-20250929".to_string(), Some(sonnet)),
        ("groq/llama-3.3-70b-versatile".to_string(), Some(model("groq", 5.9e-7, 7.9e-7))),
        ("shared".to_string(), Some(model("openai", 1e-6, 2e-6))),
    ])
}

#[test]
fn known_anthropic_model_returns_nonzero_cost() {
    let usage = Usage {
        input_tokens: 1_000,
        output_tokens: 500,
        total_tokens: 1_500,
        ..Default::default()
    };
    let charges = table()
        .cost_for(ProviderKind::Anthropic, "sonnet-4-5-20250929", &usage)
        .expect("known model");
    let cost = usd(&charges);
    assert!(cost > 0.0, "cost should be positive: {cost}");
    assert!((cost - 0.0105).abs() < 1e-9, "{cost}");
}

#[test]
fn unknown_model_returns_none() {
    let usage = Usage {
        input_tokens: 1,
        output_tokens: 1,
        total_tokens: 2,
        ..Default::default()
    };
    assert!(table().cost_for(ProviderKind::Openai, "totally-made-up-model", &usage).is_none());
}

#[test]
fn provider_prefix_lookup_finds_groq_models() {
    let usage = Usage {
        input_tokens: 1_000,
        output_tokens: 1_000,
        total_tokens: 2_000,
        ..Default::default()
    };
    let charges = table()
        .cost_for(ProviderKind::Groq, "llama-3.3-70b-versatile", &usage)
        .expect("prefixed key");
    assert!(usd(&charges) > 0.0);
}

#[test]
fn cache_tokens_priced_separately_from_input() {
    let with_cache = Usage {
        cache_creation_input_tokens: 1_000,
        cached_input_tokens: 1_000,
        input_tokens: 1_000,
        output_tokens: 0,
        total_tokens: 3_000,
    };
    let without_cache =
        Usage { input_tokens: 1_000, total_tokens: 1_000, ..Default::default() };
    let table = table();
    let with_c = table
        .cost_for(ProviderKind::Anthropic, "sonnet-4-5-20250929", &with_cache)
        .expect("known model");
    let without_c = table
        .cost_for(ProviderKind::Anthropic, "sonnet-4-5-20250929", &without_cache)
        .expect("known model");
    assert!(usd(&with_c) > usd(&without_c));
}

#[test]
fn prices_are_for_their_own_provider() {
    let usage = Usage { input_tokens: 1, ..Default::default() };
    assert!(table().cost_for(ProviderKind::Openai, "shared", &usage).is_some());
    assert!(table().cost_for(ProviderKind::Anthropic, "shared", &usage).is_none());
    assert!(table().lookup(ProviderKind::Groq, "sonnet-4-5-20250929").is_none());
}

#[test]
fn providers_are_told_by_name() {
    for kind in [
        ProviderKind::Anthropic,
        ProviderKind::Cohere,
        ProviderKind::Deepseek,
        ProviderKind::Gemini,
        ProviderKind::Groq,
        ProviderKind::Openai,
    ] {
        assert_eq!(ProviderKind::parse(kind.as_str()), Some(kind));
    }
    assert_eq!(ProviderKind::parse("OpenAI"), None);
    assert!(!ProviderKind::Gemini.alternate_pricing_names().is_empty());
}

fn message(role: Role, content: &str) -> Message {
    Message { content: content.to_string(), role }
}

#[test]
fn conversation_splits_history_and_prompt() {
    let conversation = Conversation::from_messages(
        vec![
            message(Role::System, "be brief"),
            message(Role::User, "a"),
            message(Role::Assistant, "b"),
            message(Role::User, "c"),
        ],
        "agent",
    )
    .unwrap();
    assert_eq!(conversation.preamble, "agent\n\nbe brief");
    assert_eq!(conversation.prompt.content, "c");
    assert_eq!(
        conversation.history.iter().map(|m| m.content.as_str()).collect::<Vec<_>>(),
        vec!["a", "b"]
    );
    assert_eq!(conversation.preamble_to_send(), Some("agent\n\nbe brief"));
}

#[test]
fn conversation_needs_a_message() {
    assert!(matches!(
        Conversation::from_messages(vec![], "agent"),
        Err(CallError::EmptyConversation)
    ));
    assert!(matches!(
        Conversation::from_messages(vec![message(Role::System, "s")], ""),
        Err(CallError::EmptyConversation)
    ));
    let bare = Conversation::from_messages(vec![message(Role::User, "x")], "").unwrap();
    assert_eq!(bare.preamble_to_send(), None);
}

#[test]
fn stream_items_become_events() {
    let names = vec!["helper".to_string()];
    assert!(matches!(
        stream_event(StreamItem::Text("t".to_string()), &names),
        Some(Ok(StreamEvent::Delta(t))) if t == "t"
    ));
    let call = |name: &str| StreamItem::ToolCall {
        arguments: "{}".to_string(),
        call_id: "c".to_string(),
        tool_name: name.to_string(),
    };
    assert!(matches!(
        stream_event(call("helper"), &names),
        Some(Ok(StreamEvent::ToolCall { kind: ToolCallKind::Subagent, .. }))
    ));
    assert!(matches!(
        stream_event(call("search"), &names),
        Some(Ok(StreamEvent::ToolCall { kind: ToolCallKind::Mcp, .. }))
    ));
    let result = StreamItem::ToolResult {
        call_id: "c".to_string(),
        parts: vec![ToolResultPart::Text("r".to_string())],
    };
    assert!(matches!(
        stream_event(result, &names),
        Some(Ok(StreamEvent::ToolResult { error: None, result: Some(r), .. })) if r == "r"
    ));
    assert!(matches!(
        stream_event(StreamItem::FinalResponse(Usage::default()), &names),
        Some(Ok(StreamEvent::Done { .. }))
    ));
    assert!(stream_event(StreamItem::Other, &names).is_none());
    match stream_event(StreamItem::Failed("down".to_string()), &names) {
        Some(Err(e)) => assert!(e.to_text().contains("down"), "{}", e.to_text()),
        _ => panic!("expected an error"),
    }
}

#[test]
fn tool_results_are_flattened() {
    let parts = vec![
        ToolResultPart::Text("a".to_string()),
        ToolResultPart::Image,
        ToolResultPart::Text("b".to_string()),
    ];
    let flat = flatten_tool_result(&parts);
    assert!(flat.starts_with('a') && flat.ends_with('b'), "{flat}");
}
