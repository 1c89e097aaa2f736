//! Agents: their configuration, their tools, and the dispatch of conversations.
use coulisse::json::JsonIn;
use coulisse::mcp::config::McpToolAccess;
use coulisse::mcp::pool::{LaunchFailure, ToolInfo};
use coulisse::names::NameMap;
use coulisse::prompter::backend::{
    build_tools, connect, find_agent, launch, tool_call_payload, AgentTool, Boot, BootStep, Launch,
    RigPrompter, SubagentFault, SubagentTool, MAX_SUBAGENT_DEPTH,
};
use coulisse::prompter::config::{
    AgentConfig, Config, ConfigError, McpServerConfig, ProviderConfig,
};
use coulisse::prompter::error::PrompterError;
use coulisse::prompter::testing::{ScriptedPrompter, ScriptedReply};
use coulisse::providers::conversation::{Message, Role, StreamEvent, ToolCallKind, Usage};
use coulisse::providers::kind::ProviderKind;
use std::collections::HashMap;

fn texts(all: &[&str]) -> Vec<String> {
    all.iter().map(|s| s.to_string()).collect()
}

fn agent(name: &str, subagents: &[&str]) -> AgentConfig {
    AgentConfig {
        mcp_tools: vec![],
        model: "m".to_string(),
        name: name.to_string(),
        preamble: "p".to_string(),
        provider: ProviderKind::Openai,
        purpose: Some(format!("does {name}")),
        subagents: texts(subagents),
    }
}

fn access(server: &str, only: Option<&[&str]>) -> McpToolAccess {
    McpToolAccess { only: only.map(texts), server: server.to_string() }
}

fn config(agents: Vec<AgentConfig>) -> Config {
    let mut mcp = NameMap::new();
    mcp.insert("hello".to_string(), McpServerConfig::Http { url: "http://h".to_string() });
    Config {
        agents,
        default_user_id: None,
        mcp,
        providers: vec![(ProviderKind::Openai, ProviderConfig { api_key: "k".to_string() })],
    }
}

fn user(text: &str) -> Vec<Message> {
    vec![Message { content: text.to_string(), role: Role::User }]
}

#[test]
fn configuration_is_validated() {
    assert!(config(vec![agent("a", &[])]).validate().is_ok());
    assert!(matches!(config(vec![]).validate(), Err(ConfigError::NoAgents)));
    assert!(matches!(
        config(vec![agent("a", &[]), agent("a", &[])]).validate(),
        Err(ConfigError::DuplicateAgent(n)) if n == "a"
    ));
    let mut other = agent("a", &[]);
    other.provider = ProviderKind::Groq;
    assert!(matches!(
        config(vec![other]).validate(),
        Err(ConfigError::ProviderNotConfigured { provider: ProviderKind::Groq, .. })
    ));
    let mut unknown = agent("a", &[]);
    unknown.mcp_tools = vec![access("nowhere", None)];
    assert!(matches!(
        config(vec![unknown]).validate(),
        Err(ConfigError::McpServerNotConfigured { server, .. }) if server == "nowhere"
    ));
    let mut blank = config(vec![agent("a", &[])]);
    blank.default_user_id = Some("  ".to_string());
    assert!(matches!(blank.validate(), Err(ConfigError::BlankDefaultUserId)));
}

#[test]
fn agents_are_found_by_name() {
    let agents = vec![agent("a", &[]), agent("b", &[])];
    assert_eq!(find_agent(&agents, "b").unwrap().name, "b");
    assert!(find_agent(&agents, "c").is_none());
}

fn servers() -> NameMap<Vec<String>> {
    let mut servers = NameMap::new();
    servers.insert("hello".to_string(), texts(&["say", "wave"]));
    servers
}

#[test]
fn tools_are_gathered_from_servers_and_subagents() {
    let mut lead = agent("lead", &["helper"]);
    lead.mcp_tools = vec![access("hello", Some(&["wave"]))];
    let agents = vec![agent("helper", &[]), agent("lead", &[])];
    let tools = build_tools(&agents, &servers(), &lead, 0).unwrap();
    assert_eq!(tools.len(), 2);
    assert!(matches!(&tools[0], AgentTool::Mcp { server, tool } if server == "hello" && tool == "wave"));
    match &tools[1] {
        AgentTool::Subagent(s) => {
            assert_eq!(s.name(), "helper");
            assert_eq!(s.depth, 0);
            assert!(s.purpose.contains("does helper"));
            assert_eq!(s.definition().name, "helper");
        }
        other => panic!("{other:?}"),
    }
    lead.mcp_tools = vec![access("hello", Some(&["nope"]))];
    assert!(matches!(
        build_tools(&agents, &servers(), &lead, 0),
        Err(PrompterError::McpToolNotFound { tool, .. }) if tool == "nope"
    ));
    lead.mcp_tools = vec![access("nowhere", None)];
    assert!(matches!(
        build_tools(&agents, &servers(), &lead, 0),
        Err(PrompterError::McpServerNotConfigured { .. })
    ));
}

fn prompter() -> RigPrompter {
    RigPrompter {
        agents: vec![agent("lead", &["helper"]), agent("helper", &[])],
        backends: vec![ProviderKind::Openai],
        mcp_servers: servers(),
    }
}

#[test]
fn conversations_are_dispatched_to_the_agent() {
    let dispatch = prompter().complete("lead", user("hi")).unwrap();
    assert_eq!(dispatch.model, "m");
    assert_eq!(dispatch.provider, ProviderKind::Openai);
    assert_eq!(dispatch.conversation.preamble, "p");
    assert_eq!(dispatch.conversation.prompt.content, "hi");
    assert_eq!(dispatch.subagent_names, texts(&["helper"]));
    assert!(matches!(
        prompter().complete("nobody", user("hi")),
        Err(PrompterError::UnknownAgent(n)) if n == "nobody"
    ));
    assert!(matches!(
        prompter().complete("lead", vec![]),
        Err(PrompterError::EmptyConversation)
    ));
}

#[test]
fn subagents_nest_to_a_limit() {
    assert!(prompter().complete_with_depth("lead", user("hi"), MAX_SUBAGENT_DEPTH).is_ok());
    match prompter().complete_with_depth("lead", user("hi"), MAX_SUBAGENT_DEPTH + 1) {
        Err(e @ PrompterError::SubagentDepthExceeded { .. }) => {
            assert!(e.to_text().contains("lead"), "{}", e.to_text())
        }
        other => panic!("{other:?}"),
    }
}

#[test]
fn direct_prompts_need_their_provider() {
    let c = prompter().prompt_with(ProviderKind::Openai, "pre", user("x")).unwrap();
    assert_eq!(c.preamble, "pre");
    assert!(prompter().prompt_with(ProviderKind::Groq, "pre", user("x")).is_err());
}

fn subagent() -> SubagentTool {
    SubagentTool { depth: 2, purpose: "p".to_string(), target_name: "helper".to_string() }
}

#[test]
fn subagent_calls_carry_their_message() {
    let call = subagent().call(r#"{"message": "do it", "extra": 1}"#).unwrap();
    assert_eq!(call.message, "do it");
    assert_eq!(call.target, "helper");
    assert_eq!(call.depth, 3);
    let messages = call.messages();
    assert_eq!(messages.len(), 1);
    assert_eq!(messages[0].content, "do it");
    assert_eq!(messages[0].role, Role::User);
}

#[test]
fn subagent_calls_without_message_fail() {
    assert!(matches!(subagent().call("{}"), Err(SubagentFault::MissingMessage)));
    assert!(matches!(subagent().call(r#"{"message": 3}"#), Err(SubagentFault::MissingMessage)));
    match subagent().call("not json") {
        Err(e @ SubagentFault::Json(_)) => assert!(!e.to_text().is_empty()),
        other => panic!("{other:?}"),
    }
    let fields = vec![("message".to_string(), JsonIn::Text("x".to_string()))];
    assert_eq!(subagent().call_parsed(Ok(Some(fields))).unwrap().message, "x");
    assert!(subagent().call_parsed(Ok(None)).is_err());
    assert!(subagent().call_parsed(Err("e".to_string())).is_err());
}

#[test]
fn tool_calls_are_recorded() {
    let ok = tool_call_payload("t", ToolCallKind::Mcp, "{}", &Ok("r".to_string()));
    assert_eq!(ok.result.as_deref(), Some("r"));
    assert!(ok.error.is_none());
    assert_eq!(ok.kind, "mcp");
    let bad = tool_call_payload("t", ToolCallKind::Subagent, "{}", &Err("e".to_string()));
    assert_eq!(bad.error.as_deref(), Some("e"));
    assert_eq!(bad.kind, "subagent");
}

#[test]
fn servers_are_launched_and_listed() {
    let stdio = McpServerConfig::Stdio {
        args: texts(&["x"]),
        command: "uvx".to_string(),
        env: HashMap::new(),
    };
    assert!(matches!(launch(&stdio), Launch::Stdio { command: "uvx", .. }));
    assert!(matches!(
        launch(&McpServerConfig::Http { url: "http://h".to_string() }),
        Launch::Http { url: "http://h" }
    ));
    let tool = ToolInfo {
        description: None,
        input_schema: "{}".to_string(),
        name: "say".to_string(),
    };
    assert_eq!(connect("h", Ok(vec![tool])).unwrap(), texts(&["say"]));
    let tools = ["b", "a", "b", "c", "a"].map(|name| ToolInfo {
        description: None,
        input_schema: "{}".to_string(),
        name: name.to_string(),
    });
    assert_eq!(connect("h", Ok(tools.into())).unwrap(), texts(&["b", "a", "c"]));
    assert!(matches!(
        connect("h", Err(LaunchFailure::Spawn("x".to_string()))),
        Err(PrompterError::SpawnMcp { .. })
    ));
    assert!(matches!(
        connect("h", Err(LaunchFailure::Connect("x".to_string()))),
        Err(PrompterError::McpConnect { .. })
    ));
    assert!(matches!(
        connect("h", Err(LaunchFailure::ListTools("x".to_string()))),
        Err(PrompterError::McpListTools { .. })
    ));
}

#[test]
fn boot_opens_clients_then_servers() {
    let mut boot = Boot::new(config(vec![agent("a", &[])]));
    assert!(matches!(
        boot.next(),
        BootStep::InitClient { api_key: "k", provider: ProviderKind::Openai }
    ));
    boot.client(Ok(())).unwrap();
    assert!(matches!(boot.next(), BootStep::OpenServer { name: "hello", .. }));
    let tool = ToolInfo {
        description: None,
        input_schema: "{}".to_string(),
        name: "say".to_string(),
    };
    boot.server(Ok(vec![tool])).unwrap();
    assert!(matches!(boot.next(), BootStep::Done));
    let prompter = boot.finish();
    assert_eq!(prompter.backends, vec![ProviderKind::Openai]);
    assert_eq!(prompter.mcp_servers.get("hello").unwrap(), &texts(&["say"]));
}

#[test]
fn boot_stops_at_a_failure() {
    let mut boot = Boot::new(config(vec![agent("a", &[])]));
    assert!(matches!(
        boot.client(Err("bad key".to_string())),
        Err(PrompterError::ClientInit { provider: ProviderKind::Openai, source }) if source == "bad key"
    ));
}

#[test]
fn scripted_replies_come_in_turn() {
    let usage = Usage { input_tokens: 1, output_tokens: 2, total_tokens: 3, ..Default::default() };
    let first = ScriptedReply::deltas(texts(&["he", "llo"])).with_usage(usage).with_tool_call(
        "t".to_string(),
        "{}".to_string(),
        ToolCallKind::Mcp,
        Some("r".to_string()),
    );
    assert_eq!(first.full_text(), "hello");
    let mut prompter = ScriptedPrompter::new(
        vec![agent("a", &[])],
        vec![first, ScriptedReply::text("second".to_string())],
    );
    let events = prompter.complete_streaming("a", user("x")).unwrap();
    let said: String = events
        .iter()
        .filter_map(|e| match e {
            StreamEvent::Delta(d) => Some(d.as_str()),
            _ => None,
        })
        .collect();
    assert_eq!(said, "hello");
    assert!(matches!(events.last(), Some(StreamEvent::Done { usage: u }) if *u == usage));
    assert!(events.iter().any(|e| matches!(e, StreamEvent::ToolCall { .. })));
    let done = prompter.complete("a", user("y")).unwrap();
    assert_eq!(done.text, "second");
    assert_eq!(prompter.dispatched_to, texts(&["a", "a"]));
    assert_eq!(prompter.calls.len(), 2);
    assert_eq!(prompter.calls[1][0].content, "y");
    assert!(matches!(
        prompter.complete("nobody", user("z")),
        Err(PrompterError::UnknownAgent(name)) if name == "nobody"
    ));
    assert!(prompter.complete_streaming("nobody", user("z")).is_err());
    assert_eq!(prompter.dispatched_to, texts(&["a", "a"]));
    assert_eq!(prompter.replies.len(), 1);
    assert_eq!(prompter.calls.len(), 4);
}

#[test]
fn scripted_prompter_answers_one_shot() {
    let mut prompter =
        ScriptedPrompter::new(vec![], vec![ScriptedReply::text("out".to_string())]);
    assert_eq!(prompter.one_shot("in").unwrap(), "out");
    assert_eq!(prompter.one_shot("again").unwrap(), "out");
    assert!(prompter.dispatched_to.is_empty());
    assert_eq!(prompter.replies.len(), 1);
}
