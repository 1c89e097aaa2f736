//! How an agent's request reaches a provider, with which tools, and how agents ask one
//! another.
use std::collections::HashMap;

use vstd::prelude::*;

use crate::json::{self, JsonIn, JsonView};
use crate::mcp::config::McpToolAccess;
use crate::mcp::error::McpError;
use crate::mcp::pool::{DefinitionView, LaunchFailure, ToolDefinition, ToolInfo};
use crate::mcp::server;
use crate::names::NameMap;
use crate::prompter::config::{AgentConfig, Config, McpServerConfig, ProviderConfig};
use crate::prompter::error::{PrompterError, PrompterErrorView};
use crate::providers::conversation::{
    packed, Conversation, ConversationView, Message, MessageView, Role, ToolCallKind,
};
use crate::providers::kind::ProviderKind;
use crate::seqs;
use crate::text;

verus! {

/// How many agents may stand between a request and the one that answers.
pub const MAX_SUBAGENT_DEPTH: usize = 4;

/// The first agent of a name.
pub open spec fn agent_named(agents: Seq<AgentConfig>, name: Seq<char>) -> Option<AgentConfig>
    decreases agents.len(),
{
    if agents.len() == 0 {
        None
    } else if agents[0].name@ == name {
        Some(agents[0])
    } else {
        agent_named(agents.drop_first(), name)
    }
}

/// The first agent of a name.
pub fn find_agent<'a>(agents: &'a Vec<AgentConfig>, name: &str) -> (r: Option<&'a AgentConfig>)
    ensures
        agent_named(agents@, name@) == (match r {
            Some(a) => Some(*a),
            None => None,
        }),
{
    let mut i: usize = 0;
    assert(agents@.skip(0) =~= agents@);
    while i < agents.len()
        invariant
            i <= agents@.len(),
            agent_named(agents@, name@) == agent_named(agents@.skip(i as int), name@),
        decreases agents@.len() - i,
    {
        assert(agents@.skip(i as int).drop_first() =~= agents@.skip(i + 1));
        if text::str_eq(agents[i].name.as_str(), name) {
            return Some(&agents[i]);
        }
        i = i + 1;
    }
    None
}

/// A tool that an agent is given.
#[derive(Debug)]
pub enum AgentTool {
    /// A tool of a server; its calls are recorded.
    Mcp { server: String, tool: String },
    /// Another agent.
    Subagent(SubagentTool),
}

/// Another agent, offered as a tool. It starts a conversation of its own.
#[derive(Debug)]
pub struct SubagentTool {
    /// How many agents stand before the one that is offered the tool.
    pub depth: usize,
    pub purpose: String,
    pub target_name: String,
}

/// `AgentTool`, with texts as sequences of characters.
pub enum AgentToolView {
    Mcp { server: Seq<char>, tool: Seq<char> },
    Subagent { depth: usize, purpose: Seq<char>, target_name: Seq<char> },
}

impl View for AgentTool {
    type V = AgentToolView;

    open spec fn view(&self) -> AgentToolView {
        match self {
            AgentTool::Mcp { server, tool } => AgentToolView::Mcp { server: server@, tool: tool@ },
            AgentTool::Subagent(t) => AgentToolView::Subagent {
                depth: t.depth,
                purpose: t.purpose@,
                target_name: t.target_name@,
            },
        }
    }
}

/// The tools of a server.
pub open spec fn server_tools(server: Seq<char>, names: Seq<Seq<char>>) -> Seq<AgentToolView> {
    names.map_values(|tool: Seq<char>| AgentToolView::Mcp { server, tool })
}

/// The error that a refusal becomes.
pub open spec fn refusal_error(refusal: server::Refusal) -> PrompterErrorView {
    match refusal {
        server::Refusal::ServerNotConfigured { agent, server } => {
            PrompterErrorView::McpServerNotConfigured { agent, server }
        },
        server::Refusal::ToolNotFound { agent, server, tool } => {
            PrompterErrorView::McpToolNotFound { agent, server, tool }
        },
    }
}

/// The tools that an access gives an agent. `servers` holds the tools of the servers
/// that are connected.
pub open spec fn access_tools(
    agent: Seq<char>,
    access: McpToolAccess,
    servers: Map<Seq<char>, Vec<String>>,
) -> Result<Seq<AgentToolView>, PrompterErrorView> {
    let name = access.server@;
    if !servers.contains_key(name) {
        Err(PrompterErrorView::McpServerNotConfigured { agent, server: name })
    } else {
        match server::picked(
            agent,
            name,
            server::opt_names(access.only),
            text::texts(servers[name]@),
        ) {
            Ok(tools) => Ok(server_tools(name, tools)),
            Err(refusal) => Err(refusal_error(refusal)),
        }
    }
}

/// The tools that the accesses give an agent, or the first error.
pub open spec fn mcp_tools(
    agent: Seq<char>,
    accesses: Seq<McpToolAccess>,
    servers: Map<Seq<char>, Vec<String>>,
) -> Result<Seq<AgentToolView>, PrompterErrorView>
    decreases accesses.len(),
{
    if accesses.len() == 0 {
        Ok(Seq::empty())
    } else {
        match mcp_tools(agent, accesses.drop_last(), servers) {
            Err(e) => Err(e),
            Ok(front) => match access_tools(agent, accesses.last(), servers) {
                Err(e) => Err(e),
                Ok(tools) => Ok(front + tools),
            },
        }
    }
}

/// What an agent is for.
pub open spec fn purpose_of(agent: AgentConfig) -> Seq<char> {
    match agent.purpose {
        Some(p) => p@,
        None => "Invoke the '"@ + agent.name@ + "' subagent."@,
    }
}

/// An agent as another's tool.
pub open spec fn subagent_tool(agents: Seq<AgentConfig>, name: Seq<char>, depth: usize) -> AgentToolView {
    let target = agent_named(agents, name)->0;
    AgentToolView::Subagent { depth, purpose: purpose_of(target), target_name: target.name@ }
}

/// Every agent that an agent may ask exists.
pub open spec fn subagents_exist(agents: Seq<AgentConfig>, names: Seq<Seq<char>>) -> bool {
    forall|i: int| 0 <= i < names.len() ==> agent_named(agents, #[trigger] names[i]) is Some
}

/// The tools that an agent is given: those of its servers, and then the agents that it
/// may ask.
pub open spec fn built_tools(
    agents: Seq<AgentConfig>,
    servers: Map<Seq<char>, Vec<String>>,
    agent: AgentConfig,
    depth: usize,
) -> Result<Seq<AgentToolView>, PrompterErrorView> {
    match mcp_tools(agent.name@, agent.mcp_tools@, servers) {
        Err(e) => Err(e),
        Ok(tools) => Ok(
            tools + text::texts(agent.subagents@).map_values(
                |name: Seq<char>| subagent_tool(agents, name, depth),
            ),
        ),
    }
}

/// The tools that an agent is given: those of its servers, and then the agents that it
/// may ask.
pub fn build_tools(
    agents: &Vec<AgentConfig>,
    servers: &NameMap<Vec<String>>,
    agent: &AgentConfig,
    depth: usize,
) -> (r: Result<Vec<AgentTool>, PrompterError>)
    requires
        subagents_exist(agents@, text::texts(agent.subagents@)),
    ensures
        match r {
            Ok(tools) => built_tools(agents@, servers@, *agent, depth) == Ok::<
                _,
                PrompterErrorView,
            >(seqs::views(tools@)),
            Err(e) => built_tools(agents@, servers@, *agent, depth) == Err::<
                Seq<AgentToolView>,
                _,
            >(e@),
        },
{
    let mut tools: Vec<AgentTool> = Vec::new();
    let mut i: usize = 0;
    assert(agent.mcp_tools@.take(0) =~= Seq::empty());
    assert(seqs::views(tools@) =~= Seq::empty());
    while i < agent.mcp_tools.len()
        invariant
            i <= agent.mcp_tools@.len(),
            mcp_tools(agent.name@, agent.mcp_tools@.take(i as int), servers@) == Ok::<
                _,
                PrompterErrorView,
            >(seqs::views(tools@)),
        decreases agent.mcp_tools@.len() - i,
    {
        let access: &McpToolAccess = &agent.mcp_tools[i];
        let ghost before = seqs::views(tools@);
        let ghost upto = agent.mcp_tools@.take(i + 1);
        proof {
            assert(upto.drop_last() =~= agent.mcp_tools@.take(i as int));
            assert(upto.last() == *access);
            lemma_error_stays(agent.name@, agent.mcp_tools@, servers@, i + 1);
        }
        match servers.get(access.server.as_str()) {
            None => {
                return Err(
                    PrompterError::McpServerNotConfigured {
                        agent: agent.name.clone(),
                        server: access.server.clone(),
                    },
                );
            },
            Some(available) => {
                match server::pick_tools(
                    agent.name.as_str(),
                    access.server.as_str(),
                    &access.only,
                    available,
                ) {
                    Ok(picked) => {
                        push_tools(&mut tools, access.server.as_str(), &picked);
                        assert(seqs::views(tools@) =~= before + server_tools(
                            access.server@,
                            text::texts(picked@),
                        ));
                    },
                    Err(McpError::ToolNotFound { agent, server, tool }) => {
                        return Err(PrompterError::McpToolNotFound { agent, server, tool });
                    },
                    Err(_) => {
                        assert(false);
                    },
                }
            },
        }
        i = i + 1;
    }
    assert(agent.mcp_tools@.take(i as int) =~= agent.mcp_tools@);
    let ghost of_servers = seqs::views(tools@);
    let ghost names = text::texts(agent.subagents@);
    let ghost as_tool = |name: Seq<char>| subagent_tool(agents@, name, depth);
    let mut j: usize = 0;
    assert(of_servers + names.take(0).map_values(as_tool) =~= of_servers);
    while j < agent.subagents.len()
        invariant
            j <= agent.subagents@.len(),
            names == text::texts(agent.subagents@),
            subagents_exist(agents@, names),
            as_tool == (|name: Seq<char>| subagent_tool(agents@, name, depth)),
            seqs::views(tools@) == of_servers + names.take(j as int).map_values(as_tool),
        decreases agent.subagents@.len() - j,
    {
        let ghost before = seqs::views(tools@);
        assert(names[j as int] == agent.subagents@[j as int]@);
        if let Some(target) = find_agent(agents, agent.subagents[j].as_str()) {
            let tool = AgentTool::Subagent(
                SubagentTool {
                    depth,
                    purpose: describe(target),
                    target_name: target.name.clone(),
                },
            );
            assert(tool@ == as_tool(names[j as int]));
            tools.push(tool);
            assert(seqs::views(tools@) =~= before.push(tool@));
            assert(of_servers + names.take(j + 1).map_values(as_tool) =~= before.push(tool@));
        }
        j = j + 1;
    }
    assert(names.take(j as int) =~= names);
    Ok(tools)
}

/// An error on the way to some accesses is the error on all of them.
proof fn lemma_error_stays(
    agent: Seq<char>,
    accesses: Seq<McpToolAccess>,
    servers: Map<Seq<char>, Vec<String>>,
    n: int,
)
    requires
        0 <= n <= accesses.len(),
    ensures
        mcp_tools(agent, accesses.take(n), servers) matches Err(e) ==> mcp_tools(
            agent,
            accesses,
            servers,
        ) == Err::<Seq<AgentToolView>, _>(e),
    decreases accesses.len() - n,
{
    if n == accesses.len() {
        assert(accesses.take(n) =~= accesses);
    } else {
        lemma_error_stays(agent, accesses, servers, n + 1);
        assert(accesses.take(n + 1).drop_last() =~= accesses.take(n));
    }
}

/// Adds the tools of a server.
fn push_tools(tools: &mut Vec<AgentTool>, server: &str, names: &Vec<String>)
    ensures
        seqs::views(final(tools)@) == seqs::views(old(tools)@) + server_tools(
            server@,
            text::texts(names@),
        ),
{
    let ghost before = seqs::views(tools@);
    let mut i: usize = 0;
    assert(seqs::views(tools@) =~= before + server_tools(server@, text::texts(names@).take(0)));
    while i < names.len()
        invariant
            i <= names@.len(),
            seqs::views(tools@) == before + server_tools(
                server@,
                text::texts(names@).take(i as int),
            ),
        decreases names@.len() - i,
    {
        let ghost sofar = seqs::views(tools@);
        let tool = AgentTool::Mcp { server: String::from_str(server), tool: names[i].clone() };
        tools.push(tool);
        assert(seqs::views(tools@) =~= sofar.push(tool@));
        assert(seqs::views(tools@) =~= before + server_tools(
            server@,
            text::texts(names@).take(i + 1),
        ));
        i = i + 1;
    }
    assert(text::texts(names@).take(i as int) =~= text::texts(names@));
}

/// What an agent is for.
fn describe(agent: &AgentConfig) -> (r: String)
    ensures
        r@ == purpose_of(*agent),
{
    match &agent.purpose {
        Some(p) => p.clone(),
        None => {
            let mut out = String::from_str("Invoke the '");
            out.append(agent.name.as_str());
            out.append("' subagent.");
            out
        },
    }
}

/// A request that is ready to be sent.
#[derive(Debug)]
pub struct Dispatch {
    pub conversation: Conversation,
    pub model: String,
    pub provider: ProviderKind,
    /// The tools whose calls go to another agent.
    pub subagent_names: Vec<String>,
    pub tools: Vec<AgentTool>,
}

/// `Dispatch`, with texts as sequences of characters.
pub struct DispatchView {
    pub conversation: ConversationView,
    pub model: Seq<char>,
    pub provider: ProviderKind,
    pub subagent_names: Seq<Seq<char>>,
    pub tools: Seq<AgentToolView>,
}

impl View for Dispatch {
    type V = DispatchView;

    open spec fn view(&self) -> DispatchView {
        DispatchView {
            conversation: self.conversation@,
            model: self.model@,
            provider: self.provider,
            subagent_names: text::texts(self.subagent_names@),
            tools: seqs::views(self.tools@),
        }
    }
}

/// The agents, the providers that can be asked, and the tools of the servers that are
/// connected.
#[derive(Debug)]
pub struct RigPrompter {
    pub agents: Vec<AgentConfig>,
    pub backends: Vec<ProviderKind>,
    pub mcp_servers: NameMap<Vec<String>>,
}

/// Every agent that another may ask exists.
pub open spec fn agents_known(agents: Seq<AgentConfig>) -> bool {
    forall|i: int|
        0 <= i < agents.len() ==> subagents_exist(
            agents,
            text::texts((#[trigger] agents[i]).subagents@),
        )
}

impl RigPrompter {
    /// Every agent that may be asked exists.
    pub open spec fn wf(&self) -> bool {
        agents_known(self.agents@)
    }

    /// What becomes of a request to an agent: too many agents before it, no such agent,
    /// no such provider, a tool that is missing and nothing to answer are errors, in this
    /// order.
    pub open spec fn dispatch_for(
        &self,
        agent_name: Seq<char>,
        messages: Seq<MessageView>,
        depth: usize,
    ) -> Result<DispatchView, PrompterErrorView> {
        if depth > MAX_SUBAGENT_DEPTH {
            Err(
                PrompterErrorView::SubagentDepthExceeded {
                    limit: MAX_SUBAGENT_DEPTH,
                    subagent: agent_name,
                },
            )
        } else {
            match agent_named(self.agents@, agent_name) {
                None => Err(PrompterErrorView::UnknownAgent(agent_name)),
                Some(agent) => if !self.backends@.contains(agent.provider) {
                    Err(
                        PrompterErrorView::ProviderNotConfigured {
                            agent: agent.name@,
                            provider: agent.provider,
                        },
                    )
                } else {
                    match built_tools(self.agents@, self.mcp_servers@, agent, depth) {
                        Err(e) => Err(e),
                        Ok(tools) => match packed(messages, agent.preamble@) {
                            None => Err(PrompterErrorView::EmptyConversation),
                            Some(conversation) => Ok(
                                DispatchView {
                                    conversation,
                                    model: agent.model@,
                                    provider: agent.provider,
                                    subagent_names: text::texts(agent.subagents@),
                                    tools,
                                },
                            ),
                        },
                    }
                },
            }
        }
    }

    fn has_backend(&self, provider: ProviderKind) -> (r: bool)
        ensures
            r == self.backends@.contains(provider),
    {
        let mut i: usize = 0;
        while i < self.backends.len()
            invariant
                i <= self.backends@.len(),
                forall|j: int| 0 <= j < i ==> self.backends@[j] != provider,
            decreases self.backends@.len() - i,
        {
            if self.backends[i] == provider {
                assert(self.backends@[i as int] == provider);
                return true;
            }
            i = i + 1;
        }
        false
    }

    /// Makes a request to an agent ready to be sent. Both a reply in one piece and one
    /// in many begin with this.
    pub fn complete_with_depth(
        &self,
        agent_name: &str,
        messages: Vec<Message>,
        depth: usize,
    ) -> (r: Result<Dispatch, PrompterError>)
        requires
            self.wf(),
        ensures
            match r {
                Ok(d) => self.dispatch_for(agent_name@, seqs::views(messages@), depth) == Ok::<
                    _,
                    PrompterErrorView,
                >(d@),
                Err(e) => self.dispatch_for(agent_name@, seqs::views(messages@), depth) == Err::<
                    DispatchView,
                    _,
                >(e@),
            },
    {
        if depth > MAX_SUBAGENT_DEPTH {
            return Err(
                PrompterError::SubagentDepthExceeded {
                    limit: MAX_SUBAGENT_DEPTH,
                    subagent: String::from_str(agent_name),
                },
            );
        }
        let agent: &AgentConfig = match find_agent(&self.agents, agent_name) {
            Some(agent) => agent,
            None => {
                return Err(PrompterError::UnknownAgent(String::from_str(agent_name)));
            },
        };
        proof {
            lemma_agent_named(self.agents@, agent_name@);
        }
        if !self.has_backend(agent.provider) {
            return Err(
                PrompterError::ProviderNotConfigured {
                    agent: agent.name.clone(),
                    provider: agent.provider,
                },
            );
        }
        let tools = match build_tools(&self.agents, &self.mcp_servers, agent, depth) {
            Ok(tools) => tools,
            Err(e) => {
                return Err(e);
            },
        };
        match Conversation::from_messages(messages, agent.preamble.as_str()) {
            Ok(conversation) => Ok(
                Dispatch {
                    conversation,
                    model: agent.model.clone(),
                    provider: agent.provider,
                    subagent_names: text::clone_list(&agent.subagents),
                    tools,
                },
            ),
            Err(_) => Err(PrompterError::EmptyConversation),
        }
    }

    /// Makes a request from a user ready to be sent.
    pub fn complete(&self, agent_name: &str, messages: Vec<Message>) -> (r: Result<
        Dispatch,
        PrompterError,
    >)
        requires
            self.wf(),
        ensures
            match r {
                Ok(d) => self.dispatch_for(agent_name@, seqs::views(messages@), 0) == Ok::<
                    _,
                    PrompterErrorView,
                >(d@),
                Err(e) => self.dispatch_for(agent_name@, seqs::views(messages@), 0) == Err::<
                    DispatchView,
                    _,
                >(e@),
            },
    {
        self.complete_with_depth(agent_name, messages, 0)
    }

    /// Makes a request without an agent ready to be sent: the given instructions, and no
    /// tools.
    pub fn prompt_with(&self, provider: ProviderKind, preamble: &str, messages: Vec<Message>) -> (r:
        Result<Conversation, PrompterError>)
        ensures
            match r {
                Ok(c) => self.backends@.contains(provider) && packed(
                    seqs::views(messages@),
                    preamble@,
                ) == Some(c@),
                Err(PrompterError::ProviderNotConfigured { agent, provider: p }) => {
                    !self.backends@.contains(provider) && p == provider && agent@ == "<internal>"@
                },
                Err(e) => e is EmptyConversation && self.backends@.contains(provider) && packed(
                    seqs::views(messages@),
                    preamble@,
                ) is None,
            },
    {
        if !self.has_backend(provider) {
            return Err(
                PrompterError::ProviderNotConfigured {
                    agent: String::from_str("<internal>"),
                    provider,
                },
            );
        }
        match Conversation::from_messages(messages, preamble) {
            Ok(c) => Ok(c),
            Err(_) => Err(PrompterError::EmptyConversation),
        }
    }
}

/// An agent that is found is one of the agents, and has the name.
proof fn lemma_agent_named(agents: Seq<AgentConfig>, name: Seq<char>)
    ensures
        agent_named(agents, name) matches Some(a) ==> a.name@ == name && exists|i: int|
            0 <= i < agents.len() && #[trigger] agents[i] == a,
    decreases agents.len(),
{
    if agents.len() > 0 && agents[0].name@ != name {
        lemma_agent_named(agents.drop_first(), name);
        if agent_named(agents, name) is Some {
            let a = agent_named(agents, name)->0;
            let i = choose|i: int|
                0 <= i < agents.drop_first().len() && #[trigger] agents.drop_first()[i] == a;
            assert(agents[i + 1] == a);
        }
    }
}

/// What is wrong with the arguments of a call.
#[derive(Debug)]
pub enum SubagentFault {
    /// They are no JSON; the text says why.
    Json(String),
    /// They hold no message.
    MissingMessage,
}

/// What an agent is to be asked.
#[derive(Debug)]
pub struct SubagentCall {
    pub depth: usize,
    pub message: String,
    pub target: String,
}

/// What is said of a call without a message.
pub open spec fn missing_message_text() -> Seq<char> {
    "subagent tool call is missing required 'message' field"@
}

/// The message in the arguments of a call.
pub open spec fn message_in(fields: Option<Seq<(Seq<char>, JsonView)>>) -> Option<Seq<char>> {
    match fields {
        Some(fields) => match json::field(fields, "message"@) {
            Some(JsonView::Text(s)) => Some(s),
            _ => None,
        },
        None => None,
    }
}

/// One more agent than before, as far as that can be counted.
pub open spec fn deeper(depth: usize) -> usize {
    if depth == usize::MAX {
        depth
    } else {
        (depth + 1) as usize
    }
}

impl SubagentFault {
    /// What is said of the arguments.
    pub fn to_text(&self) -> (r: String)
        ensures
            r@ == match self {
                SubagentFault::Json(e) => e@,
                SubagentFault::MissingMessage => missing_message_text(),
            },
    {
        match self {
            SubagentFault::Json(e) => e.clone(),
            SubagentFault::MissingMessage => String::from_str(
                "subagent tool call is missing required 'message' field",
            ),
        }
    }
}

impl SubagentTool {
    /// The name that the tool goes by.
    pub fn name(&self) -> (r: String)
        ensures
            r@ == self.target_name@,
    {
        self.target_name.clone()
    }

    /// What a model is told of the tool.
    pub fn definition(&self) -> (r: ToolDefinition)
        ensures
            r@ == (DefinitionView {
                description: self.purpose@,
                name: self.target_name@,
                parameters: subagent_parameters(),
            }),
    {
        ToolDefinition {
            description: self.purpose.clone(),
            name: self.target_name.clone(),
            parameters: String::from_str(
                "{\"properties\":{\"message\":{\"description\":\"Natural-language message or instruction to send to the subagent. The subagent starts with a fresh context and sees only this message.\",\"type\":\"string\"}},\"required\":[\"message\"],\"type\":\"object\"}",
            ),
        }
    }

    /// What the agent is to be asked, from the arguments as they were read.
    pub fn call_parsed(&self, parsed: Result<Option<Vec<(String, JsonIn)>>, String>) -> (r: Result<
        SubagentCall,
        SubagentFault,
    >)
        ensures
            match (r, parsed) {
                (Ok(call), Ok(fields)) => {
                    &&& message_in(json::opt_fields(fields)) == Some(call.message@)
                    &&& call.depth == deeper(self.depth)
                    &&& call.target@ == self.target_name@
                },
                (Err(SubagentFault::MissingMessage), Ok(fields)) => message_in(
                    json::opt_fields(fields),
                ) is None,
                (Err(SubagentFault::Json(e)), Err(why)) => e@ == why@,
                _ => false,
            },
    {
        let fields = match parsed {
            Ok(fields) => fields,
            Err(e) => {
                return Err(SubagentFault::Json(e));
            },
        };
        let message = match &fields {
            Some(fields) => json::text_field(fields, "message"),
            None => None,
        };
        match message {
            Some(message) => Ok(
                SubagentCall {
                    depth: if self.depth < usize::MAX {
                        self.depth + 1
                    } else {
                        self.depth
                    },
                    message,
                    target: self.target_name.clone(),
                },
            ),
            None => Err(SubagentFault::MissingMessage),
        }
    }

    /// What the agent is to be asked, from the arguments of the call.
    pub fn call(&self, args: &str) -> (r: Result<SubagentCall, SubagentFault>)
        ensures
            match (r, json::json_parsed(args@)) {
                (Ok(call), Ok(fields)) => {
                    &&& message_in(fields) == Some(call.message@)
                    &&& call.depth == deeper(self.depth)
                    &&& call.target@ == self.target_name@
                },
                (Err(SubagentFault::MissingMessage), Ok(fields)) => message_in(fields) is None,
                (Err(SubagentFault::Json(e)), Err(why)) => e@ == why,
                _ => false,
            },
    {
        self.call_parsed(json::parse_json(args))
    }
}

/// The JSON schema of a call to another agent.
pub open spec fn subagent_parameters() -> Seq<char> {
    "{\"properties\":{\"message\":{\"description\":\"Natural-language message or instruction to send to the subagent. The subagent starts with a fresh context and sees only this message.\",\"type\":\"string\"}},\"required\":[\"message\"],\"type\":\"object\"}"@
}

impl SubagentCall {
    /// The conversation that the other agent starts with: the message alone.
    pub fn messages(&self) -> (r: Vec<Message>)
        ensures
            seqs::views(r@) == seq![MessageView { content: self.message@, role: Role::User }],
    {
        let mut out: Vec<Message> = Vec::new();
        out.push(Message { content: self.message.clone(), role: Role::User });
        assert(seqs::views(out@) =~= seq![
            MessageView { content: self.message@, role: Role::User },
        ]);
        out
    }
}

/// What is recorded of a tool call.
#[derive(Debug)]
pub struct ToolCallPayload {
    pub args: String,
    pub error: Option<String>,
    pub kind: &'static str,
    pub result: Option<String>,
    pub tool_name: String,
}

/// The word for who answered a tool call.
pub open spec fn kind_word(kind: ToolCallKind) -> Seq<char> {
    match kind {
        ToolCallKind::Mcp => "mcp"@,
        ToolCallKind::Subagent => "subagent"@,
    }
}

/// What is recorded of a tool call: its result if it has one, and its error if not.
pub fn tool_call_payload(
    tool_name: &str,
    kind: ToolCallKind,
    args: &str,
    outcome: &Result<String, String>,
) -> (r: ToolCallPayload)
    ensures
        r.args@ == args@,
        r.kind@ == kind_word(kind),
        r.tool_name@ == tool_name@,
        match outcome {
            Ok(text) => text::opt_text(r.result) == Some(text@) && r.error is None,
            Err(e) => text::opt_text(r.error) == Some(e@) && r.result is None,
        },
{
    let (result, error): (Option<String>, Option<String>) = match outcome {
        Ok(text) => (Some(text.clone()), None),
        Err(e) => (None, Some(e.clone())),
    };
    ToolCallPayload {
        args: String::from_str(args),
        error,
        kind: match kind {
            ToolCallKind::Mcp => "mcp",
            ToolCallKind::Subagent => "subagent",
        },
        result,
        tool_name: String::from_str(tool_name),
    }
}

/// How a server is opened.
#[derive(Debug)]
pub enum Launch<'a> {
    Http { url: &'a str },
    Stdio {
        args: &'a Vec<String>,
        command: &'a str,
        /// What is added to the environment, if anything is.
        env: Option<&'a HashMap<String, String>>,
    },
}

/// The server is opened as configured; an empty environment adds nothing.
pub open spec fn opens(config: McpServerConfig, launch: Launch) -> bool {
    match (config, launch) {
        (McpServerConfig::Http { url }, Launch::Http { url: to }) => to@ == url@,
        (
            McpServerConfig::Stdio { args, command, env },
            Launch::Stdio { args: a, command: c, env: e },
        ) => {
            &&& *a == args
            &&& c@ == command@
            &&& e == if env@.len() == 0 {
                None
            } else {
                Some(&env)
            }
        },
        _ => false,
    }
}

/// How a server is opened.
pub fn launch<'a>(config: &'a McpServerConfig) -> (r: Launch<'a>)
    ensures
        opens(*config, r),
{
    match config {
        McpServerConfig::Http { url } => Launch::Http { url: url.as_str() },
        McpServerConfig::Stdio { args, command, env } => Launch::Stdio {
            args,
            command: command.as_str(),
            env: if env.is_empty() {
                None
            } else {
                Some(env)
            },
        },
    }
}

/// The names of a server's tools.
pub open spec fn tool_names(tools: Seq<ToolInfo>) -> Seq<Seq<char>> {
    tools.map_values(|t: ToolInfo| t.name@)
}

/// Some names, each only where it first comes.
pub open spec fn firsts(names: Seq<Seq<char>>) -> Seq<Seq<char>>
    decreases names.len(),
{
    if names.len() == 0 {
        names
    } else {
        let front = firsts(names.drop_last());
        if names.drop_last().contains(names.last()) {
            front
        } else {
            front.push(names.last())
        }
    }
}

/// The error of a server that could not be opened.
pub open spec fn is_launch_error(e: PrompterError, name: Seq<char>, failure: LaunchFailure) -> bool {
    match (e, failure) {
        (PrompterError::SpawnMcp { server, source }, LaunchFailure::Spawn(why)) => server@ == name
            && source == why,
        (PrompterError::McpConnect { server, source }, LaunchFailure::Connect(why)) => {
            server@ == name && source == why
        },
        (PrompterError::McpListTools { server, source }, LaunchFailure::ListTools(why)) => {
            server@ == name && source == why
        },
        _ => false,
    }
}

/// The tools of a server that was opened, each name once and in the order in which they
/// first came, or why it was not opened.
pub fn connect(name: &str, outcome: Result<Vec<ToolInfo>, LaunchFailure>) -> (r: Result<
    Vec<String>,
    PrompterError,
>)
    ensures
        match (r, outcome) {
            (Ok(names), Ok(tools)) => {
                &&& text::texts(names@) == firsts(tool_names(tools@))
                &&& names_once(text::texts(names@))
                &&& forall|n: Seq<char>| #[trigger]
                    text::texts(names@).contains(n) <==> tool_names(tools@).contains(n)
            },
            (Err(e), Err(failure)) => is_launch_error(e, name@, failure),
            _ => false,
        },
{
    let tools = match outcome {
        Ok(tools) => tools,
        Err(LaunchFailure::Spawn(source)) => {
            return Err(PrompterError::SpawnMcp { server: String::from_str(name), source });
        },
        Err(LaunchFailure::Connect(source)) => {
            return Err(PrompterError::McpConnect { server: String::from_str(name), source });
        },
        Err(LaunchFailure::ListTools(source)) => {
            return Err(PrompterError::McpListTools { server: String::from_str(name), source });
        },
    };
    let ghost all = tool_names(tools@);
    let mut names: Vec<String> = Vec::new();
    let mut i: usize = 0;
    assert(text::texts(names@) =~= Seq::empty());
    assert(all.take(0) =~= Seq::empty());
    while i < tools.len()
        invariant
            i <= tools@.len(),
            all == tool_names(tools@),
            text::texts(names@) == firsts(all.take(i as int)),
            names_once(text::texts(names@)),
            forall|n: Seq<char>| #[trigger]
                text::texts(names@).contains(n) <==> all.take(i as int).contains(n),
        decreases tools@.len() - i,
    {
        let ghost before = text::texts(names@);
        let ghost name_i = tools@[i as int].name@;
        assert(all.take(i + 1) =~= all.take(i as int).push(name_i));
        assert(all.take(i + 1).drop_last() =~= all.take(i as int));
        if !text::list_contains(&names, tools[i].name.as_str()) {
            let copy = tools[i].name.clone();
            proof {
                text::lemma_texts_push(names@, copy);
            }
            names.push(copy);
            assert(names_once(text::texts(names@))) by {
                let after = text::texts(names@);
                assert forall|a: int, b: int| 0 <= a < b < after.len() implies #[trigger] after[a]
                    != #[trigger] after[b] by {
                    assert(after[a] == before[a]);
                    if b < before.len() {
                        assert(after[b] == before[b]);
                    } else {
                        assert(before.contains(before[a]));
                    }
                }
            }
        }
        proof {
            assert forall|n: Seq<char>| #[trigger]
                text::texts(names@).contains(n) <==> all.take(i + 1).contains(n) by {
                crate::order::lemma_push_contains(all.take(i as int), name_i, n);
                crate::order::lemma_push_contains(before, name_i, n);
                assert(before.contains(n) <==> all.take(i as int).contains(n));
                assert(before.contains(name_i) ==> text::texts(names@) == before);
            }
        }
        i = i + 1;
    }
    assert(all.take(i as int) =~= all);
    Ok(names)
}

/// No name occurs twice.
pub open spec fn names_once(names: Seq<Seq<char>>) -> bool {
    forall|i: int, j: int|
        0 <= i < j < names.len() ==> #[trigger] names[i] != #[trigger] names[j]
}

/// A server's tools are added, each name only where it first comes.
pub open spec fn adds_server(
    before: Map<Seq<char>, Vec<String>>,
    after: Map<Seq<char>, Vec<String>>,
    name: Seq<char>,
    tools: Seq<Seq<char>>,
) -> bool {
    &&& after.contains_key(name)
    &&& after == before.insert(name, after[name])
    &&& text::texts(after[name]@) == firsts(tools)
}

/// Starting up: a client for each provider, and after them each server.
#[derive(Debug)]
pub struct Boot {
    config: Config,
    clients: usize,
    servers: NameMap<Vec<String>>,
    opened: usize,
}

/// What is to be done next.
#[derive(Debug)]
pub enum BootStep<'a> {
    InitClient { api_key: &'a str, provider: ProviderKind },
    OpenServer { launch: Launch<'a>, name: &'a str },
    Done,
}

impl Boot {
    /// The configuration that is started.
    pub closed spec fn config(&self) -> Config {
        self.config
    }

    /// How many clients are ready.
    pub closed spec fn clients(&self) -> nat {
        self.clients as nat
    }

    /// How many servers are open.
    pub closed spec fn opened(&self) -> nat {
        self.opened as nat
    }

    /// The tools of the servers that are open.
    pub closed spec fn servers(&self) -> Map<Seq<char>, Vec<String>> {
        self.servers@
    }

    /// Clients come first; no server is opened before all of them are ready.
    pub open spec fn wf(&self) -> bool {
        &&& self.clients() <= self.config().providers@.len()
        &&& self.opened() <= self.config().mcp.names().len()
        &&& self.opened() > 0 ==> self.clients() == self.config().providers@.len()
    }

    /// How much is left to do.
    pub open spec fn left(&self) -> nat {
        (self.config().providers@.len() - self.clients() + self.config().mcp.names().len()
            - self.opened()) as nat
    }

    /// The start.
    pub fn new(config: Config) -> (r: Self)
        ensures
            r.wf(),
            r.config() == config,
            r.clients() == 0,
            r.opened() == 0,
            r.servers() == Map::<Seq<char>, Vec<String>>::empty(),
    {
        Boot { config, clients: 0, servers: NameMap::new(), opened: 0 }
    }

    /// What is to be done next.
    pub fn next(&self) -> (r: BootStep<'_>)
        requires
            self.wf(),
        ensures
            match r {
                BootStep::InitClient { api_key, provider } => {
                    &&& self.clients() < self.config().providers@.len()
                    &&& self.config().providers@[self.clients() as int].0 == provider
                    &&& self.config().providers@[self.clients() as int].1.api_key@ == api_key@
                },
                BootStep::OpenServer { launch, name } => {
                    &&& self.clients() == self.config().providers@.len()
                    &&& self.opened() < self.config().mcp.names().len()
                    &&& name@ == self.config().mcp.names()[self.opened() as int]
                    &&& self.config().mcp@.contains_key(name@)
                    &&& opens(self.config().mcp@[name@], launch)
                },
                BootStep::Done => self.left() == 0,
            },
    {
        if self.clients < self.config.providers.len() {
            let (kind, provider): &(ProviderKind, ProviderConfig) =
                &self.config.providers[self.clients];
            return BootStep::InitClient { api_key: provider.api_key.as_str(), provider: *kind };
        }
        if self.opened < self.config.mcp.len() {
            return BootStep::OpenServer {
                launch: launch(self.config.mcp.value_at(self.opened)),
                name: self.config.mcp.name_at(self.opened),
            };
        }
        BootStep::Done
    }

    /// A client was made, or not.
    pub fn client(&mut self, outcome: Result<(), String>) -> (r: Result<(), PrompterError>)
        requires
            old(self).wf(),
            old(self).clients() < old(self).config().providers@.len(),
        ensures
            final(self).config() == old(self).config(),
            final(self).servers() == old(self).servers(),
            final(self).opened() == old(self).opened(),
            final(self).wf(),
            match (r, outcome) {
                (Ok(()), Ok(())) => final(self).clients() == old(self).clients() + 1,
                (Err(PrompterError::ClientInit { provider, source }), Err(e)) => {
                    &&& final(self).clients() == old(self).clients()
                    &&& provider == old(self).config().providers@[old(self).clients() as int].0
                    &&& source == e
                },
                _ => false,
            },
    {
        let count: usize = self.config.providers.len();
        assert(self.clients < count);
        match outcome {
            Ok(()) => {
                self.clients = self.clients + 1;
                Ok(())
            },
            Err(source) => Err(
                PrompterError::ClientInit {
                    provider: self.config.providers[self.clients].0,
                    source,
                },
            ),
        }
    }

    /// A server was opened, or not.
    pub fn server(&mut self, outcome: Result<Vec<ToolInfo>, LaunchFailure>) -> (r: Result<
        (),
        PrompterError,
    >)
        requires
            old(self).wf(),
            old(self).clients() == old(self).config().providers@.len(),
            old(self).opened() < old(self).config().mcp.names().len(),
        ensures
            final(self).config() == old(self).config(),
            final(self).clients() == old(self).clients(),
            final(self).wf(),
            match (r, outcome) {
                (Ok(()), Ok(tools)) => {
                    &&& final(self).opened() == old(self).opened() + 1
                    &&& adds_server(
                        old(self).servers(),
                        final(self).servers(),
                        old(self).config().mcp.names()[old(self).opened() as int],
                        tool_names(tools@),
                    )
                },
                (Err(e), Err(failure)) => {
                    &&& is_launch_error(
                        e,
                        old(self).config().mcp.names()[old(self).opened() as int],
                        failure,
                    )
                    &&& final(self).opened() == old(self).opened()
                    &&& final(self).servers() == old(self).servers()
                },
                _ => false,
            },
    {
        let count: usize = self.config.mcp.len();
        assert(self.opened < count);
        let name = String::from_str(self.config.mcp.name_at(self.opened));
        match connect(name.as_str(), outcome) {
            Ok(names) => {
                let ghost before = self.servers@;
                self.servers.insert(name, names);
                self.opened = self.opened + 1;
                assert(self.servers@ == before.insert(name@, names));
                Ok(())
            },
            Err(e) => Err(e),
        }
    }

    /// The end: what requests are answered from.
    pub fn finish(self) -> (r: RigPrompter)
        requires
            self.wf(),
            self.left() == 0,
        ensures
            r.agents == self.config().agents,
            r.backends@ == self.config().providers@.map_values(
                |p: (ProviderKind, ProviderConfig)| p.0,
            ),
            r.mcp_servers@ == self.servers(),
            r.wf() <==> agents_known(self.config().agents@),
    {
        let mut backends: Vec<ProviderKind> = Vec::new();
        let mut i: usize = 0;
        while i < self.config.providers.len()
            invariant
                i <= self.config.providers@.len(),
                backends@.len() == i,
                forall|j: int|
                    0 <= j < i ==> #[trigger] backends@[j] == self.config.providers@[j].0,
            decreases self.config.providers@.len() - i,
        {
            backends.push(self.config.providers[i].0);
            i = i + 1;
        }
        assert(backends@ =~= self.config.providers@.map_values(
            |p: (ProviderKind, ProviderConfig)| p.0,
        ));
        RigPrompter { agents: self.config.agents, backends, mcp_servers: self.servers }
    }
}

/// The agent that is found is the first of its name, and one is found wherever there is one.
pub proof fn law_first_agent_of_a_name_is_found(agents: Seq<AgentConfig>, name: Seq<char>)
    ensures
        match agent_named(agents, name) {
            Some(a) => exists|i: int|
                0 <= i < agents.len() && #[trigger] agents[i] == a && a.name@ == name && forall|
                    j: int,
                |
                    0 <= j < i ==> (#[trigger] agents[j]).name@ != name,
            None => forall|j: int| 0 <= j < agents.len() ==> (#[trigger] agents[j]).name@ != name,
        },
    decreases agents.len(),
{
    if agents.len() > 0 && agents[0].name@ != name {
        let rest = agents.drop_first();
        law_first_agent_of_a_name_is_found(rest, name);
        match agent_named(agents, name) {
            Some(a) => {
                let i = choose|i: int|
                    0 <= i < rest.len() && #[trigger] rest[i] == a && a.name@ == name && forall|
                        j: int,
                    |
                        0 <= j < i ==> (#[trigger] rest[j]).name@ != name;
                assert(agents[i + 1] == a);
                assert forall|j: int| 0 <= j < i + 1 implies (#[trigger] agents[j]).name@ != name by {
                    if j > 0 {
                        assert(rest[j - 1] == agents[j]);
                    }
                }
            },
            None => {
                assert forall|j: int| 0 <= j < agents.len() implies (
                #[trigger] agents[j]).name@ != name by {
                    if j > 0 {
                        assert(rest[j - 1] == agents[j]);
                    }
                }
            },
        }
    } else if agents.len() > 0 {
        assert(agents[0] == agents[0]);
    }
}

/// An access lets an agent use a tool: it names the tool, or names none and the server has
/// the tool.
pub open spec fn allows(
    access: McpToolAccess,
    servers: Map<Seq<char>, Vec<String>>,
    tool: Seq<char>,
) -> bool {
    match access.only {
        Some(names) => exists|k: int| 0 <= k < names@.len() && #[trigger] names@[k]@ == tool,
        None => exists|k: int|
            0 <= k < servers[access.server@]@.len() && #[trigger] servers[access.server@]@[k]@
                == tool,
    }
}

/// The access can be granted: its server is connected, and has every tool that it names.
pub open spec fn grantable(access: McpToolAccess, servers: Map<Seq<char>, Vec<String>>) -> bool {
    &&& servers.contains_key(access.server@)
    &&& access.only matches Some(names) ==> forall|k: int|
        0 <= k < names@.len() ==> exists|l: int|
            0 <= l < servers[access.server@]@.len() && #[trigger] servers[access.server@]@[l]@
                == (#[trigger] names@[k])@
}

/// An access is granted exactly when it can be, and gives what it allows, tool by tool and
/// in order.
proof fn lemma_access_tools(
    agent: Seq<char>,
    access: McpToolAccess,
    servers: Map<Seq<char>, Vec<String>>,
)
    ensures
        access_tools(agent, access, servers) is Ok <==> grantable(access, servers),
        access_tools(agent, access, servers) matches Ok(tools) ==> {
            let given = match access.only {
                Some(names) => names@,
                None => servers[access.server@]@,
            };
            &&& tools.len() == given.len()
            &&& forall|k: int|
                0 <= k < given.len() ==> #[trigger] tools[k] == (AgentToolView::Mcp {
                    server: access.server@,
                    tool: given[k]@,
                })
        },
        access_tools(agent, access, servers) matches Err(e) ==> if servers.contains_key(
            access.server@,
        ) {
            &&& e matches PrompterErrorView::McpToolNotFound { agent: a, server, tool }
            &&& access.only matches Some(names)
            &&& a == agent
            &&& server == access.server@
            &&& !text::texts(servers[server]@).contains(tool)
            &&& exists|k: int| 0 <= k < names@.len() && #[trigger] names@[k]@ == tool
        } else {
            e == (PrompterErrorView::McpServerNotConfigured { agent, server: access.server@ })
        },
{
    let name = access.server@;
    if servers.contains_key(name) {
        let available = text::texts(servers[name]@);
        match access.only {
            Some(names) => {
                let wanted = text::texts(names@);
                server::law_first_missing_is_missing(wanted, available);
                assert forall|k: int| 0 <= k < names@.len() implies wanted[k] == #[trigger] names@[k]@ by {}
                assert forall|t: Seq<char>| #[trigger] available.contains(t) implies exists|l: int|
                    0 <= l < servers[name]@.len() && #[trigger] servers[name]@[l]@ == t by {
                    let l = choose|l: int| 0 <= l < available.len() && available[l] == t;
                    assert(servers[name]@[l]@ == t);
                }
                if server::first_missing(wanted, available) is None {
                    assert forall|k: int| 0 <= k < names@.len() implies exists|l: int|
                        0 <= l < servers[name]@.len() && #[trigger] servers[name]@[l]@ == (
                        #[trigger] names@[k])@ by {
                        assert(available.contains(wanted[k]));
                    }
                } else {
                    let tool = server::first_missing(wanted, available)->0;
                    let k = choose|k: int| 0 <= k < wanted.len() && wanted[k] == tool;
                    assert(names@[k]@ == tool);
                    if grantable(access, servers) {
                        let l = choose|l: int|
                            0 <= l < servers[name]@.len() && #[trigger] servers[name]@[l]@
                                == names@[k]@;
                        assert(available[l] == tool);
                    }
                }
            },
            None => {},
        }
    }
}

/// One more access adds the tools that it gives behind those of the others, whatever they
/// are; one that cannot be granted spoils the whole.
pub proof fn law_access_adds_its_tools(
    agent: Seq<char>,
    accesses: Seq<McpToolAccess>,
    access: McpToolAccess,
    servers: Map<Seq<char>, Vec<String>>,
)
    ensures
        mcp_tools(agent, accesses.push(access), servers) is Ok <==> mcp_tools(
            agent,
            accesses,
            servers,
        ) is Ok && grantable(access, servers),
        mcp_tools(agent, accesses.push(access), servers) matches Ok(all) ==> {
            let front = mcp_tools(agent, accesses, servers)->Ok_0;
            let given = match access.only {
                Some(names) => names@,
                None => servers[access.server@]@,
            };
            &&& all.len() == front.len() + given.len()
            &&& all.take(front.len() as int) == front
            &&& forall|k: int|
                0 <= k < given.len() ==> #[trigger] all[front.len() + k] == (AgentToolView::Mcp {
                    server: access.server@,
                    tool: given[k]@,
                })
        },
{
    let more = accesses.push(access);
    assert(more.drop_last() =~= accesses);
    lemma_access_tools(agent, access, servers);
    if mcp_tools(agent, more, servers) is Ok {
        let all = mcp_tools(agent, more, servers)->Ok_0;
        let front = mcp_tools(agent, accesses, servers)->Ok_0;
        let tools = access_tools(agent, access, servers)->Ok_0;
        assert(all == front + tools);
        assert(all.take(front.len() as int) =~= front);
        assert forall|k: int| 0 <= k < tools.len() implies #[trigger] all[front.len() + k]
            == tools[k] by {}
    }
}

/// An agent that has no access has no tool of a server.
pub proof fn law_no_access_no_tools(agent: Seq<char>, servers: Map<Seq<char>, Vec<String>>)
    ensures
        mcp_tools(agent, Seq::empty(), servers) == Ok::<_, PrompterErrorView>(
            Seq::<AgentToolView>::empty(),
        ),
{
}

/// Every tool that any access of the agent allows is among its tools, and every tool of a
/// server among them comes from an access that allows it.
pub proof fn law_every_allowed_tool_is_built(
    agents: Seq<AgentConfig>,
    servers: Map<Seq<char>, Vec<String>>,
    agent: AgentConfig,
    depth: usize,
)
    requires
        built_tools(agents, servers, agent, depth) is Ok,
    ensures
        forall|i: int, tool: Seq<char>|
            0 <= i < agent.mcp_tools@.len() && #[trigger] allows(
                agent.mcp_tools@[i],
                servers,
                tool,
            ) ==> built_tools(agents, servers, agent, depth)->Ok_0.contains(
                AgentToolView::Mcp { server: agent.mcp_tools@[i].server@, tool },
            ),
        forall|server: Seq<char>, tool: Seq<char>| #[trigger]
            built_tools(agents, servers, agent, depth)->Ok_0.contains(
                AgentToolView::Mcp { server, tool },
            ) ==> exists|i: int|
                0 <= i < agent.mcp_tools@.len() && agent.mcp_tools@[i].server@ == server
                    && #[trigger] allows(agent.mcp_tools@[i], servers, tool),
{
    let all = built_tools(agents, servers, agent, depth)->Ok_0;
    let accesses = agent.mcp_tools@;
    let front = mcp_tools(agent.name@, accesses, servers)->Ok_0;
    lemma_allowed_tools(agent.name@, accesses, servers);
    assert forall|i: int, tool: Seq<char>|
        0 <= i < accesses.len() && #[trigger] allows(
            accesses[i],
            servers,
            tool,
        ) implies all.contains(AgentToolView::Mcp { server: accesses[i].server@, tool }) by {
        let t = AgentToolView::Mcp { server: accesses[i].server@, tool };
        assert(front.contains(t));
        let k = choose|k: int| 0 <= k < front.len() && front[k] == t;
        assert(all[k] == t);
    }
    assert forall|server: Seq<char>, tool: Seq<char>| #[trigger]
        all.contains(AgentToolView::Mcp { server, tool }) implies exists|i: int|
        0 <= i < accesses.len() && accesses[i].server@ == server && #[trigger] allows(
            accesses[i],
            servers,
            tool,
        ) by {
        let t = AgentToolView::Mcp { server, tool };
        let k = choose|k: int| 0 <= k < all.len() && all[k] == t;
        if k < front.len() {
            assert(front[k] == t);
            assert(front.contains(t));
        } else {
            let names = text::texts(agent.subagents@);
            assert(all[k] == subagent_tool(agents, names[k - front.len()], depth));
        }
    }
}

proof fn lemma_allowed_tools(
    agent: Seq<char>,
    accesses: Seq<McpToolAccess>,
    servers: Map<Seq<char>, Vec<String>>,
)
    requires
        mcp_tools(agent, accesses, servers) is Ok,
    ensures
        forall|i: int, tool: Seq<char>|
            0 <= i < accesses.len() && #[trigger] allows(accesses[i], servers, tool) ==> mcp_tools(
                agent,
                accesses,
                servers,
            )->Ok_0.contains(AgentToolView::Mcp { server: accesses[i].server@, tool }),
        forall|server: Seq<char>, tool: Seq<char>| #[trigger]
            mcp_tools(agent, accesses, servers)->Ok_0.contains(
                AgentToolView::Mcp { server, tool },
            ) ==> exists|i: int|
                0 <= i < accesses.len() && accesses[i].server@ == server && #[trigger] allows(
                    accesses[i],
                    servers,
                    tool,
                ),
    decreases accesses.len(),
{
    if accesses.len() > 0 {
        let rest = accesses.drop_last();
        let last = accesses.last();
        lemma_allowed_tools(agent, rest, servers);
        lemma_access_tools(agent, last, servers);
        let all = mcp_tools(agent, accesses, servers)->Ok_0;
        let front = mcp_tools(agent, rest, servers)->Ok_0;
        let tools = access_tools(agent, last, servers)->Ok_0;
        assert(all == front + tools);
        assert forall|i: int, tool: Seq<char>|
            0 <= i < accesses.len() && #[trigger] allows(
                accesses[i],
                servers,
                tool,
            ) implies all.contains(AgentToolView::Mcp { server: accesses[i].server@, tool }) by {
            let t = AgentToolView::Mcp { server: accesses[i].server@, tool };
            if i < rest.len() {
                assert(allows(rest[i], servers, tool));
                assert(front.contains(t));
                let k = choose|k: int| 0 <= k < front.len() && front[k] == t;
                assert(all[k] == t);
            } else {
                let given = match last.only {
                    Some(names) => names@,
                    None => servers[last.server@]@,
                };
                let k = choose|k: int| 0 <= k < given.len() && #[trigger] given[k]@ == tool;
                assert(tools[k] == t);
                assert(all[front.len() + k] == t);
            }
        }
        assert forall|server: Seq<char>, tool: Seq<char>| #[trigger]
            all.contains(AgentToolView::Mcp { server, tool }) implies exists|i: int|
            0 <= i < accesses.len() && accesses[i].server@ == server && #[trigger] allows(
                accesses[i],
                servers,
                tool,
            ) by {
            let t = AgentToolView::Mcp { server, tool };
            let k = choose|k: int| 0 <= k < all.len() && all[k] == t;
            if k < front.len() {
                assert(front[k] == t);
                assert(front.contains(t));
                let i = choose|i: int|
                    0 <= i < rest.len() && rest[i].server@ == server && #[trigger] allows(
                        rest[i],
                        servers,
                        tool,
                    );
                assert(allows(accesses[i], servers, tool));
            } else {
                let given = match last.only {
                    Some(names) => names@,
                    None => servers[last.server@]@,
                };
                let l = k - front.len();
                assert(tools[l] == t);
                assert(given[l]@ == tool);
                assert(allows(accesses[accesses.len() - 1], servers, tool));
            }
        }
    }
}

/// An agent's tools are built exactly when each of its accesses can be granted; the error
/// is of the first that cannot.
pub proof fn law_tools_need_every_access(
    agents: Seq<AgentConfig>,
    servers: Map<Seq<char>, Vec<String>>,
    agent: AgentConfig,
    depth: usize,
)
    ensures
        built_tools(agents, servers, agent, depth) is Ok <==> forall|i: int|
            0 <= i < agent.mcp_tools@.len() ==> grantable(
                #[trigger] agent.mcp_tools@[i],
                servers,
            ),
        built_tools(agents, servers, agent, depth) matches Err(e) ==> exists|i: int|
            first_ungrantable(agent.mcp_tools@, servers, i) && #[trigger] is_access_error(
                e,
                agent.name@,
                agent.mcp_tools@[i],
                servers,
            ),
{
    lemma_tools_need_every_access(agent.name@, agent.mcp_tools@, servers);
}

/// The access at `i` cannot be granted, and those before it can.
pub open spec fn first_ungrantable(
    accesses: Seq<McpToolAccess>,
    servers: Map<Seq<char>, Vec<String>>,
    i: int,
) -> bool {
    &&& 0 <= i < accesses.len()
    &&& !grantable(accesses[i], servers)
    &&& forall|j: int| 0 <= j < i ==> grantable(#[trigger] accesses[j], servers)
}

/// The error says of an access that its server is not there, or which tool is not.
pub open spec fn is_access_error(
    e: PrompterErrorView,
    agent: Seq<char>,
    access: McpToolAccess,
    servers: Map<Seq<char>, Vec<String>>,
) -> bool {
    match e {
        PrompterErrorView::McpServerNotConfigured { agent: a, server } => a == agent && server
            == access.server@ && !servers.contains_key(server),
        PrompterErrorView::McpToolNotFound { agent: a, server, tool } => a == agent && server
            == access.server@ && servers.contains_key(server) && (access.only matches Some(names)
            && text::texts(names@).contains(tool)) && !text::texts(servers[server]@).contains(
            tool,
        ),
        _ => false,
    }
}

proof fn lemma_tools_need_every_access(
    agent: Seq<char>,
    accesses: Seq<McpToolAccess>,
    servers: Map<Seq<char>, Vec<String>>,
)
    ensures
        mcp_tools(agent, accesses, servers) is Ok <==> forall|i: int|
            0 <= i < accesses.len() ==> grantable(#[trigger] accesses[i], servers),
        mcp_tools(agent, accesses, servers) matches Err(e) ==> exists|i: int|
            first_ungrantable(accesses, servers, i) && #[trigger] is_access_error(
                e,
                agent,
                accesses[i],
                servers,
            ),
    decreases accesses.len(),
{
    if accesses.len() > 0 {
        let rest = accesses.drop_last();
        let n = accesses.len() - 1;
        lemma_tools_need_every_access(agent, rest, servers);
        lemma_access_tools(agent, accesses[n], servers);
        if mcp_tools(agent, rest, servers) is Ok {
            assert forall|j: int| 0 <= j < n implies grantable(#[trigger] accesses[j], servers) by {
                assert(rest[j] == accesses[j]);
            }
            if !grantable(accesses[n], servers) {
                let e = access_tools(agent, accesses[n], servers)->Err_0;
                if servers.contains_key(accesses[n].server@) {
                    let names = accesses[n].only->0;
                    let k = choose|k: int|
                        0 <= k < names@.len() && #[trigger] names@[k]@ == e->tool;
                    assert(text::texts(names@)[k] == e->tool);
                }
                assert(first_ungrantable(accesses, servers, n));
                assert(is_access_error(e, agent, accesses[n], servers));
            }
        } else {
            let e = mcp_tools(agent, rest, servers)->Err_0;
            let i = choose|i: int|
                first_ungrantable(rest, servers, i) && #[trigger] is_access_error(
                    e,
                    agent,
                    rest[i],
                    servers,
                );
            assert forall|j: int| 0 <= j < i implies grantable(#[trigger] accesses[j], servers) by {
                assert(rest[j] == accesses[j]);
            }
            assert(first_ungrantable(accesses, servers, i));
            assert(is_access_error(e, agent, accesses[i], servers));
        }
    }
}

/// Behind the tools of servers stand the agents that may be asked, in the order in which
/// they are listed; each is described by its purpose, or by its name where it has none.
pub proof fn law_every_subagent_is_built(
    agents: Seq<AgentConfig>,
    servers: Map<Seq<char>, Vec<String>>,
    agent: AgentConfig,
    depth: usize,
    k: int,
)
    requires
        built_tools(agents, servers, agent, depth) is Ok,
        subagents_exist(agents, text::texts(agent.subagents@)),
        0 <= k < agent.subagents@.len(),
    ensures
        ({
            let tools = built_tools(agents, servers, agent, depth)->Ok_0;
            let at = tools.len() - agent.subagents@.len() + k;
            &&& at >= 0
            &&& tools[at] matches AgentToolView::Subagent { depth: d, purpose, target_name } && {
                &&& d == depth
                &&& target_name == agent.subagents@[k]@
                &&& exists|j: int|
                    0 <= j < agents.len() && (#[trigger] agents[j]).name@ == target_name && (
                    forall|l: int| 0 <= l < j ==> (#[trigger] agents[l]).name@ != target_name)
                        && match agents[j].purpose {
                        Some(p) => purpose == p@,
                        None => text::contains_text(purpose, target_name),
                    }
            }
            &&& forall|i: int|
                0 <= i < tools.len() - agent.subagents@.len() ==> #[trigger] tools[i] is Mcp
        }),
{
    let tools = built_tools(agents, servers, agent, depth)->Ok_0;
    let front = mcp_tools(agent.name@, agent.mcp_tools@, servers)->Ok_0;
    let names = text::texts(agent.subagents@);
    let at = tools.len() - agent.subagents@.len() + k;
    lemma_mcp_tools_are_mcp(agent.name@, agent.mcp_tools@, servers);
    assert(front.len() + names.len() == tools.len());
    assert(tools[at] == subagent_tool(agents, names[k], depth));
    assert(agent_named(agents, names[k]) is Some);
    law_first_agent_of_a_name_is_found(agents, names[k]);
    let target = agent_named(agents, names[k])->0;
    let j = choose|j: int|
        0 <= j < agents.len() && #[trigger] agents[j] == target && target.name@ == names[k]
            && forall|l: int| 0 <= l < j ==> (#[trigger] agents[l]).name@ != names[k];
    assert(agents[j].name@ == names[k]);
    if target.purpose is None {
        let lead = "Invoke the '"@;
        let said = purpose_of(target);
        assert(said.subrange(lead.len() as int, lead.len() as int + target.name@.len())
            =~= target.name@);
        assert(text::stands_at(said, target.name@, lead.len() as int));
    }
    assert forall|i: int| 0 <= i < tools.len() - agent.subagents@.len() implies
        #[trigger] tools[i] is Mcp by {
        assert(tools[i] == front[i]);
    }
}

/// A request goes to the first agent of the name, with that agent's model, provider, tools
/// and agents to ask, and with what was said; it is ready wherever nothing is missing.
pub proof fn law_request_goes_to_its_agent(
    prompter: RigPrompter,
    agents: Seq<AgentConfig>,
    i: int,
    messages: Seq<MessageView>,
    depth: usize,
)
    requires
        agents == prompter.agents@,
        0 <= i < agents.len(),
        forall|j: int| 0 <= j < i ==> (#[trigger] agents[j]).name@ != agents[i].name@,
        depth <= MAX_SUBAGENT_DEPTH,
    ensures
        ({
            let agent = agents[i];
            let tools = built_tools(agents, prompter.mcp_servers@, agent, depth);
            match prompter.dispatch_for(agent.name@, messages, depth) {
                Ok(d) => {
                    &&& d.model == agent.model@
                    &&& d.provider == agent.provider
                    &&& d.subagent_names == text::texts(agent.subagents@)
                    &&& tools == Ok::<_, PrompterErrorView>(d.tools)
                    &&& packed(messages, agent.preamble@) == Some(d.conversation)
                    &&& exists|k: int|
                        0 <= k < prompter.backends@.len() && #[trigger] prompter.backends@[k]
                            == agent.provider
                },
                Err(e) => {
                    ||| !prompter.backends@.contains(agent.provider) && e
                        == (PrompterErrorView::ProviderNotConfigured {
                        agent: agent.name@,
                        provider: agent.provider,
                    })
                    ||| prompter.backends@.contains(agent.provider) && tools == Err::<
                        Seq<AgentToolView>,
                        _,
                    >(e)
                    ||| prompter.backends@.contains(agent.provider) && tools is Ok && packed(
                        messages,
                        agent.preamble@,
                    ) is None && e == PrompterErrorView::EmptyConversation
                },
            }
        }),
{
    lemma_first_is_named(agents, i);
}

proof fn lemma_first_is_named(agents: Seq<AgentConfig>, i: int)
    requires
        0 <= i < agents.len(),
        forall|j: int| 0 <= j < i ==> (#[trigger] agents[j]).name@ != agents[i].name@,
    ensures
        agent_named(agents, agents[i].name@) == Some(agents[i]),
{
    let name = agents[i].name@;
    law_first_agent_of_a_name_is_found(agents, name);
    match agent_named(agents, name) {
        Some(a) => {
            let k = choose|k: int|
                0 <= k < agents.len() && #[trigger] agents[k] == a && a.name@ == name && forall|
                    j: int,
                |
                    0 <= j < k ==> (#[trigger] agents[j]).name@ != name;
            if k < i {
                assert(agents[k].name@ != name);
            } else if i < k {
                assert(agents[i].name@ != name);
            }
        },
        None => {
            assert(agents[i].name@ != name);
        },
    }
}

/// A name that no agent has is answered with that name, within the limit.
pub proof fn law_unknown_agent_is_refused(
    prompter: RigPrompter,
    agent_name: Seq<char>,
    messages: Seq<MessageView>,
    depth: usize,
)
    requires
        depth <= MAX_SUBAGENT_DEPTH,
        forall|j: int|
            0 <= j < prompter.agents@.len() ==> (#[trigger] prompter.agents@[j]).name@
                != agent_name,
    ensures
        prompter.dispatch_for(agent_name, messages, depth) == Err::<DispatchView, _>(
            PrompterErrorView::UnknownAgent(agent_name),
        ),
{
    law_first_agent_of_a_name_is_found(prompter.agents@, agent_name);
}

/// Names that differ are all kept, and a name that came before changes nothing, whatever
/// comes behind.
pub proof fn law_firsts_keep_what_is_new(names: Seq<Seq<char>>, more: Seq<Seq<char>>, n: Seq<char>)
    ensures
        names_once(names) ==> firsts(names) == names,
        names.contains(n) ==> firsts(names.push(n)) == firsts(names),
        !names.contains(n) ==> firsts(names.push(n)).len() == firsts(names).len() + 1
            && firsts(names.push(n)).last() == n,
        firsts(names).len() <= firsts(names + more).len(),
        firsts(names + more).take(firsts(names).len() as int) == firsts(names),
    decreases names.len() + more.len(),
{
    assert(names.push(n).drop_last() =~= names);
    if names.len() > 0 {
        let rest = names.drop_last();
        law_firsts_keep_what_is_new(rest, Seq::empty(), n);
        if names_once(names) {
            assert(names_once(rest)) by {
                assert forall|a: int, b: int| 0 <= a < b < rest.len() implies #[trigger] rest[a]
                    != #[trigger] rest[b] by {
                    assert(names[a] != names[b]);
                }
            }
            if rest.contains(names.last()) {
                let a = choose|a: int| 0 <= a < rest.len() && rest[a] == names.last();
                assert(names[a] != names[names.len() - 1]);
            }
            assert(rest.push(names.last()) =~= names);
        }
    }
    if more.len() > 0 {
        law_firsts_keep_what_is_new(names, more.drop_last(), n);
        assert((names + more).drop_last() =~= names + more.drop_last());
        let k = firsts(names).len() as int;
        let front = firsts(names + more.drop_last());
        assert(firsts(names + more).take(k) =~= front.take(k));
    } else {
        assert(names + more =~= names);
        assert(firsts(names).take(firsts(names).len() as int) =~= firsts(names));
    }
}

/// Agents that ask one another come to an end: with each question one more agent stands
/// before the one that is asked, and past the limit none is.
pub proof fn law_subagent_depth_is_bounded(
    prompter: RigPrompter,
    agent_name: Seq<char>,
    messages: Seq<MessageView>,
    depth: usize,
)
    ensures
        deeper(depth) > depth || depth > MAX_SUBAGENT_DEPTH,
        depth < usize::MAX ==> deeper(depth) == depth + 1,
        MAX_SUBAGENT_DEPTH == 4,
        depth > MAX_SUBAGENT_DEPTH ==> prompter.dispatch_for(agent_name, messages, depth) == Err::<
            DispatchView,
            _,
        >(
            PrompterErrorView::SubagentDepthExceeded {
                limit: MAX_SUBAGENT_DEPTH,
                subagent: agent_name,
            },
        ),
{
}

/// The tools that go to another agent are exactly those by whose names calls are told
/// apart as such.
pub proof fn law_subagent_tools_are_named(
    prompter: RigPrompter,
    agent_name: Seq<char>,
    messages: Seq<MessageView>,
    depth: usize,
)
    requires
        prompter.wf(),
        prompter.dispatch_for(agent_name, messages, depth) is Ok,
    ensures
        forall|i: int|
            0 <= i < prompter.dispatch_for(agent_name, messages, depth)->Ok_0.tools.len() ==> (
            #[trigger] prompter.dispatch_for(agent_name, messages, depth)->Ok_0.tools[i] matches
                AgentToolView::Subagent { depth: d, target_name, .. } ==> d == depth
                && prompter.dispatch_for(
                agent_name,
                messages,
                depth,
            )->Ok_0.subagent_names.contains(target_name)),
{
    let d = prompter.dispatch_for(agent_name, messages, depth)->Ok_0;
    let agent = agent_named(prompter.agents@, agent_name)->0;
    lemma_agent_named(prompter.agents@, agent_name);
    let names = text::texts(agent.subagents@);
    let front = mcp_tools(agent.name@, agent.mcp_tools@, prompter.mcp_servers@)->Ok_0;
    lemma_mcp_tools_are_mcp(agent.name@, agent.mcp_tools@, prompter.mcp_servers@);
    assert(subagents_exist(prompter.agents@, names));
    assert forall|i: int| 0 <= i < d.tools.len() implies (#[trigger] d.tools[i] matches
        AgentToolView::Subagent { depth: deep, target_name, .. } ==> deep == depth
        && d.subagent_names.contains(target_name)) by {
        if i < front.len() {
            assert(d.tools[i] == front[i]);
        } else {
            let j = i - front.len();
            assert(d.tools[i] == subagent_tool(prompter.agents@, names[j], depth));
            lemma_agent_named(prompter.agents@, names[j]);
            assert(agent_named(prompter.agents@, names[j]) is Some);
            assert(names.contains(names[j]));
        }
    }
}

proof fn lemma_mcp_tools_are_mcp(
    agent: Seq<char>,
    accesses: Seq<McpToolAccess>,
    servers: Map<Seq<char>, Vec<String>>,
)
    ensures
        mcp_tools(agent, accesses, servers) matches Ok(tools) ==> forall|i: int|
            0 <= i < tools.len() ==> #[trigger] tools[i] is Mcp,
    decreases accesses.len(),
{
    if accesses.len() > 0 {
        lemma_mcp_tools_are_mcp(agent, accesses.drop_last(), servers);
    }
}

/// An agent is asked exactly where the arguments hold a text under `message`, and is asked
/// that text.
pub proof fn law_message_is_read_from_the_arguments(
    fields: Option<Seq<(Seq<char>, JsonView)>>,
    message: Seq<char>,
)
    ensures
        message_in(fields) == Some(message) <==> fields is Some && json::field(
            fields->0,
            "message"@,
        ) == Some(JsonView::Text(message)),
        fields is None ==> message_in(fields) is None,
{
}

/// A server that is added has each of its tools once, and every other server keeps its own.
pub proof fn law_added_server_has_its_tools(
    before: Map<Seq<char>, Vec<String>>,
    after: Map<Seq<char>, Vec<String>>,
    name: Seq<char>,
    tools: Seq<Seq<char>>,
    tool: Seq<char>,
    other: Seq<char>,
)
    requires
        adds_server(before, after, name, tools),
    ensures
        after.contains_key(name),
        text::texts(after[name]@).contains(tool) <==> tools.contains(tool),
        names_once(text::texts(after[name]@)),
        other != name ==> (after.contains_key(other) <==> before.contains_key(other)),
        other != name && before.contains_key(other) ==> after[other] == before[other],
{
    lemma_firsts_hold(tools, tool);
}

proof fn lemma_firsts_hold(names: Seq<Seq<char>>, n: Seq<char>)
    ensures
        firsts(names).contains(n) <==> names.contains(n),
        names_once(firsts(names)),
    decreases names.len(),
{
    if names.len() > 0 {
        let rest = names.drop_last();
        let last = names.last();
        lemma_firsts_hold(rest, n);
        lemma_firsts_hold(rest, last);
        assert(rest.push(last) =~= names);
        crate::order::lemma_push_contains(rest, last, n);
        crate::order::lemma_push_contains(firsts(rest), last, n);
        if !rest.contains(last) {
            let all = firsts(rest).push(last);
            assert forall|i: int, j: int| 0 <= i < j < all.len() implies #[trigger] all[i]
                != #[trigger] all[j] by {
                assert(all[i] == firsts(rest)[i]);
                if j < firsts(rest).len() {
                    assert(firsts(rest)[i] != firsts(rest)[j]);
                } else {
                    assert(firsts(rest).contains(firsts(rest)[i]));
                }
            }
        }
    }
}

/// A server is opened as it is configured, and an environment is added only where it holds
/// anything.
pub proof fn law_server_is_opened_as_configured(config: McpServerConfig, launch: Launch)
    requires
        opens(config, launch),
    ensures
        config is Http <==> launch is Http,
        (launch matches Launch::Http { url } ==> url@ == config->url@),
        (launch matches Launch::Stdio { args, command, env } ==> *args == config->args && command@
            == config->command@ && (env is Some <==> config->env@.len() > 0)),
{
}

/// A server that could not be opened is reported by its name, with where it failed and why.
pub proof fn law_launch_error_tells_where(e: PrompterError, name: Seq<char>, failure: LaunchFailure)
    requires
        is_launch_error(e, name, failure),
    ensures
        match failure {
            LaunchFailure::Spawn(why) => e matches PrompterError::SpawnMcp { server, source }
                && server@ == name && source@ == why@,
            LaunchFailure::Connect(why) => e matches PrompterError::McpConnect { server, source }
                && server@ == name && source@ == why@,
            LaunchFailure::ListTools(why) => e matches PrompterError::McpListTools {
                server,
                source,
            } && server@ == name && source@ == why@,
        },
{
}

/// Tools go by their names, in order, and who answered a call is told by one of two words.
pub proof fn law_tools_go_by_their_names(tools: Seq<ToolInfo>, i: int)
    ensures
        tool_names(tools).len() == tools.len(),
        0 <= i < tools.len() ==> tool_names(tools)[i] == tools[i].name@,
        kind_word(ToolCallKind::Mcp) == "mcp"@,
        kind_word(ToolCallKind::Subagent) == "subagent"@,
{
}

/// The schema of a call asks for a message, and a call without one is told so.
pub proof fn law_call_needs_a_message()
    ensures
        text::contains_text(subagent_parameters(), "\"required\":[\"message\"]"@),
        text::contains_text(missing_message_text(), "'message'"@),
{
    reveal_strlit("\"required\":[\"message\"]");
    reveal_strlit(
        "{\"properties\":{\"message\":{\"description\":\"Natural-language message or instruction to send to the subagent. The subagent starts with a fresh context and sees only this message.\",\"type\":\"string\"}},\"required\":[\"message\"],\"type\":\"object\"}",
    );
    reveal_strlit("'message'");
    reveal_strlit("subagent tool call is missing required 'message' field");
    let schema = subagent_parameters();
    let needed = "\"required\":[\"message\"]"@;
    assert(exists|k: int| text::stands_at(schema, needed, k)) by {
        let k: int = schema.len() - needed.len() - 17;
        assert(schema.subrange(k, k + needed.len()) =~= needed);
        assert(text::stands_at(schema, needed, k));
    }
    let said = missing_message_text();
    assert(said.subrange(39, 48) =~= "'message'"@);
    assert(text::stands_at(said, "'message'"@, 39));
}

} // verus!
