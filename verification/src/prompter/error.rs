//! What goes wrong once the configuration stands.
use vstd::prelude::*;

use crate::providers::kind::{kind_name, ProviderKind};
use crate::text;

verus! {

/// Why an agent gave no reply.
#[derive(Debug)]
pub enum PrompterError {
    ClientInit { provider: ProviderKind, source: String },
    EmptyConversation,
    McpConnect { server: String, source: String },
    McpListTools { server: String, source: String },
    McpServerNotConfigured { agent: String, server: String },
    McpToolNotFound { agent: String, server: String, tool: String },
    Provider(String),
    ProviderNotConfigured { agent: String, provider: ProviderKind },
    SpawnMcp { server: String, source: String },
    Streaming(String),
    SubagentDepthExceeded { limit: usize, subagent: String },
    UnknownAgent(String),
}

/// `PrompterError`, with texts as sequences of characters.
pub enum PrompterErrorView {
    ClientInit { provider: ProviderKind, source: Seq<char> },
    EmptyConversation,
    McpConnect { server: Seq<char>, source: Seq<char> },
    McpListTools { server: Seq<char>, source: Seq<char> },
    McpServerNotConfigured { agent: Seq<char>, server: Seq<char> },
    McpToolNotFound { agent: Seq<char>, server: Seq<char>, tool: Seq<char> },
    Provider(Seq<char>),
    ProviderNotConfigured { agent: Seq<char>, provider: ProviderKind },
    SpawnMcp { server: Seq<char>, source: Seq<char> },
    Streaming(Seq<char>),
    SubagentDepthExceeded { limit: usize, subagent: Seq<char> },
    UnknownAgent(Seq<char>),
}

impl View for PrompterError {
    type V = PrompterErrorView;

    open spec fn view(&self) -> PrompterErrorView {
        match self {
            PrompterError::ClientInit { provider, source } => PrompterErrorView::ClientInit {
                provider: *provider,
                source: source@,
            },
            PrompterError::EmptyConversation => PrompterErrorView::EmptyConversation,
            PrompterError::McpConnect { server, source } => PrompterErrorView::McpConnect {
                server: server@,
                source: source@,
            },
            PrompterError::McpListTools { server, source } => PrompterErrorView::McpListTools {
                server: server@,
                source: source@,
            },
            PrompterError::McpServerNotConfigured { agent, server } => {
                PrompterErrorView::McpServerNotConfigured { agent: agent@, server: server@ }
            },
            PrompterError::McpToolNotFound { agent, server, tool } => {
                PrompterErrorView::McpToolNotFound {
                    agent: agent@,
                    server: server@,
                    tool: tool@,
                }
            },
            PrompterError::Provider(e) => PrompterErrorView::Provider(e@),
            PrompterError::ProviderNotConfigured { agent, provider } => {
                PrompterErrorView::ProviderNotConfigured { agent: agent@, provider: *provider }
            },
            PrompterError::SpawnMcp { server, source } => PrompterErrorView::SpawnMcp {
                server: server@,
                source: source@,
            },
            PrompterError::Streaming(e) => PrompterErrorView::Streaming(e@),
            PrompterError::SubagentDepthExceeded { limit, subagent } => {
                PrompterErrorView::SubagentDepthExceeded { limit: *limit, subagent: subagent@ }
            },
            PrompterError::UnknownAgent(name) => PrompterErrorView::UnknownAgent(name@),
        }
    }
}

impl PrompterErrorView {
    /// What the error says.
    pub open spec fn message(self) -> Seq<char> {
        match self {
            PrompterErrorView::ClientInit { provider, source } => "failed to initialize "@
                + kind_name(provider) + " client: "@ + source,
            PrompterErrorView::EmptyConversation => {
                "conversation has no user or assistant messages"@
            },
            PrompterErrorView::McpConnect { server, source } => {
                "failed to connect to MCP server '"@ + server + "': "@ + source
            },
            PrompterErrorView::McpListTools { server, source } => {
                "failed to list tools for MCP server '"@ + server + "': "@ + source
            },
            PrompterErrorView::McpServerNotConfigured { agent, server } => "agent '"@ + agent
                + "' references MCP server '"@ + server + "' which is not configured"@,
            PrompterErrorView::McpToolNotFound { agent, server, tool } => "MCP server '"@ + server
                + "' does not expose tool '"@ + tool + "' (agent '"@ + agent + "')"@,
            PrompterErrorView::Provider(e) => "provider request failed: "@ + e,
            PrompterErrorView::ProviderNotConfigured { agent, provider } => "agent '"@ + agent
                + "' references provider '"@ + kind_name(provider) + "' which is not configured"@,
            PrompterErrorView::SpawnMcp { server, source } => "failed to spawn MCP server '"@
                + server + "': "@ + source,
            PrompterErrorView::Streaming(e) => "provider streaming failed: "@ + e,
            PrompterErrorView::SubagentDepthExceeded { limit, subagent } => {
                "subagent hop limit exceeded ("@ + text::decimal(limit as nat) + ") invoking '"@
                    + subagent + "'"@
            },
            PrompterErrorView::UnknownAgent(name) => "unknown agent: "@ + name,
        }
    }
}

impl PrompterError {
    /// What the error says.
    pub fn to_text(&self) -> (r: String)
        ensures
            r@ == self@.message(),
    {
        let mut out = String::new();
        match self {
            PrompterError::ClientInit { provider, source } => {
                out.append("failed to initialize ");
                out.append(provider.as_str());
                out.append(" client: ");
                out.append(source.as_str());
            },
            PrompterError::EmptyConversation => {
                out.append("conversation has no user or assistant messages");
            },
            PrompterError::McpConnect { server, source } => {
                out.append("failed to connect to MCP server '");
                out.append(server.as_str());
                out.append("': ");
                out.append(source.as_str());
            },
            PrompterError::McpListTools { server, source } => {
                out.append("failed to list tools for MCP server '");
                out.append(server.as_str());
                out.append("': ");
                out.append(source.as_str());
            },
            PrompterError::McpServerNotConfigured { agent, server } => {
                out.append("agent '");
                out.append(agent.as_str());
                out.append("' references MCP server '");
                out.append(server.as_str());
                out.append("' which is not configured");
            },
            PrompterError::McpToolNotFound { agent, server, tool } => {
                out.append("MCP server '");
                out.append(server.as_str());
                out.append("' does not expose tool '");
                out.append(tool.as_str());
                out.append("' (agent '");
                out.append(agent.as_str());
                out.append("')");
            },
            PrompterError::Provider(e) => {
                out.append("provider request failed: ");
                out.append(e.as_str());
            },
            PrompterError::ProviderNotConfigured { agent, provider } => {
                out.append("agent '");
                out.append(agent.as_str());
                out.append("' references provider '");
                out.append(provider.as_str());
                out.append("' which is not configured");
            },
            PrompterError::SpawnMcp { server, source } => {
                out.append("failed to spawn MCP server '");
                out.append(server.as_str());
                out.append("': ");
                out.append(source.as_str());
            },
            PrompterError::Streaming(e) => {
                out.append("provider streaming failed: ");
                out.append(e.as_str());
            },
            PrompterError::SubagentDepthExceeded { limit, subagent } => {
                out.append("subagent hop limit exceeded (");
                out.append(text::format_u64(*limit as u64).as_str());
                out.append(") invoking '");
                out.append(subagent.as_str());
                out.append("'");
            },
            PrompterError::UnknownAgent(name) => {
                out.append("unknown agent: ");
                out.append(name.as_str());
            },
        }
        assert(out@ =~= self@.message());
        out
    }
}

/// A message says what the error carries: the agent, server, tool or provider that it is
/// about, and the text of what lies under it.
pub proof fn law_message_says_what_it_is_about(e: PrompterErrorView)
    ensures
        match e {
            PrompterErrorView::ClientInit { provider, source } => text::contains_text(
                e.message(),
                kind_name(provider),
            ) && text::ends_with_text(e.message(), source),
            PrompterErrorView::McpConnect { server, source }
            | PrompterErrorView::McpListTools { server, source }
            | PrompterErrorView::SpawnMcp { server, source } => text::contains_text(
                e.message(),
                server,
            ) && text::ends_with_text(e.message(), source),
            PrompterErrorView::McpServerNotConfigured { agent, server } => text::contains_text(
                e.message(),
                agent,
            ) && text::contains_text(e.message(), server),
            PrompterErrorView::McpToolNotFound { agent, server, tool } => text::contains_text(
                e.message(),
                agent,
            ) && text::contains_text(e.message(), server) && text::contains_text(e.message(), tool),
            PrompterErrorView::Provider(m)
            | PrompterErrorView::Streaming(m)
            | PrompterErrorView::UnknownAgent(m) => text::ends_with_text(e.message(), m),
            PrompterErrorView::ProviderNotConfigured { agent, provider } => text::contains_text(
                e.message(),
                agent,
            ) && text::contains_text(e.message(), kind_name(provider)),
            PrompterErrorView::SubagentDepthExceeded { limit, subagent } => text::contains_text(
                e.message(),
                text::decimal(limit as nat),
            ) && text::contains_text(e.message(), subagent),
            PrompterErrorView::EmptyConversation => e.message().len() > 0,
        },
{
    let none = Seq::<char>::empty();
    match e {
        PrompterErrorView::ClientInit { provider, source } => {
            text::lemma_says_two(
                "failed to initialize "@,
                kind_name(provider),
                " client: "@,
                source,
                none,
            );
        },
        PrompterErrorView::McpConnect { server, source } => {
            text::lemma_says_two(
                "failed to connect to MCP server '"@,
                server,
                "': "@,
                source,
                none,
            );
        },
        PrompterErrorView::McpListTools { server, source } => {
            text::lemma_says_two(
                "failed to list tools for MCP server '"@,
                server,
                "': "@,
                source,
                none,
            );
        },
        PrompterErrorView::SpawnMcp { server, source } => {
            text::lemma_says_two(
                "failed to spawn MCP server '"@,
                server,
                "': "@,
                source,
                none,
            );
        },
        PrompterErrorView::McpServerNotConfigured { agent, server } => {
            text::lemma_says_two(
                "agent '"@,
                agent,
                "' references MCP server '"@,
                server,
                "' which is not configured"@,
            );
        },
        PrompterErrorView::McpToolNotFound { agent, server, tool } => {
            let front = "MCP server '"@ + server + "' does not expose tool '"@;
            let rest = "' (agent '"@ + agent + "')"@;
            text::lemma_says_two("MCP server '"@, server, "' does not expose tool '"@, tool, rest);
            assert(e.message() =~= front + tool + rest);
            let lead = front + tool + "' (agent '"@;
            text::lemma_says_one(lead, agent, "')"@);
            assert(e.message() =~= lead + agent + "')"@);
        },
        PrompterErrorView::Provider(m) => {
            text::lemma_says_one("provider request failed: "@, m, none);
        },
        PrompterErrorView::Streaming(m) => {
            text::lemma_says_one("provider streaming failed: "@, m, none);
        },
        PrompterErrorView::UnknownAgent(m) => {
            text::lemma_says_one("unknown agent: "@, m, none);
        },
        PrompterErrorView::ProviderNotConfigured { agent, provider } => {
            text::lemma_says_two(
                "agent '"@,
                agent,
                "' references provider '"@,
                kind_name(provider),
                "' which is not configured"@,
            );
        },
        PrompterErrorView::SubagentDepthExceeded { limit, subagent } => {
            text::lemma_says_two(
                "subagent hop limit exceeded ("@,
                text::decimal(limit as nat),
                ") invoking '"@,
                subagent,
                "'"@,
            );
        },
        PrompterErrorView::EmptyConversation => {
            reveal_strlit("conversation has no user or assistant messages");
        },
    }
}

} // verus!
