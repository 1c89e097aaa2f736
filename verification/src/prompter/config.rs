//! What is configured of agents, providers and servers, and what is wrong with it.
use std::collections::HashMap;

use vstd::prelude::*;

pub use crate::mcp::config::McpToolAccess;
pub use crate::providers::kind::ProviderKind;
use crate::names::NameMap;
use crate::text;

verus! {

/// An agent as configured.
#[derive(Debug)]
pub struct AgentConfig {
    pub mcp_tools: Vec<McpToolAccess>,
    pub model: String,
    pub name: String,
    pub preamble: String,
    pub provider: ProviderKind,
    /// What the agent is for, as other agents are told.
    pub purpose: Option<String>,
    /// The agents that this one may ask.
    pub subagents: Vec<String>,
}

/// An MCP server as configured.
#[derive(Debug)]
pub enum McpServerConfig {
    Http { url: String },
    Stdio { args: Vec<String>, command: String, env: HashMap<String, String> },
}

/// A provider as configured.
#[derive(Debug)]
pub struct ProviderConfig {
    pub api_key: String,
}

/// The whole configuration.
#[derive(Debug)]
pub struct Config {
    pub agents: Vec<AgentConfig>,
    /// Who a request without an identifier is counted to.
    pub default_user_id: Option<String>,
    pub mcp: NameMap<McpServerConfig>,
    pub providers: Vec<(ProviderKind, ProviderConfig)>,
}

/// What is wrong with a configuration.
#[derive(Debug)]
pub enum ConfigError {
    BlankDefaultUserId,
    DuplicateAgent(String),
    McpServerNotConfigured { agent: String, server: String },
    NoAgents,
    ProviderNotConfigured { agent: String, provider: ProviderKind },
}

/// `ConfigError`, with texts as sequences of characters.
pub enum ConfigErrorView {
    BlankDefaultUserId,
    DuplicateAgent(Seq<char>),
    McpServerNotConfigured { agent: Seq<char>, server: Seq<char> },
    NoAgents,
    ProviderNotConfigured { agent: Seq<char>, provider: ProviderKind },
}

impl View for ConfigError {
    type V = ConfigErrorView;

    open spec fn view(&self) -> ConfigErrorView {
        match self {
            ConfigError::BlankDefaultUserId => ConfigErrorView::BlankDefaultUserId,
            ConfigError::DuplicateAgent(name) => ConfigErrorView::DuplicateAgent(name@),
            ConfigError::McpServerNotConfigured { agent, server } => {
                ConfigErrorView::McpServerNotConfigured { agent: agent@, server: server@ }
            },
            ConfigError::NoAgents => ConfigErrorView::NoAgents,
            ConfigError::ProviderNotConfigured { agent, provider } => {
                ConfigErrorView::ProviderNotConfigured { agent: agent@, provider: *provider }
            },
        }
    }
}

/// The providers that are configured.
pub open spec fn configured(providers: Seq<(ProviderKind, ProviderConfig)>, kind: ProviderKind) -> bool {
    exists|i: int| 0 <= i < providers.len() && (#[trigger] providers[i]).0 == kind
}

/// The first server that an agent uses and that is not configured.
pub open spec fn missing_server<V>(
    accesses: Seq<McpToolAccess>,
    servers: Map<Seq<char>, V>,
) -> Option<Seq<char>>
    decreases accesses.len(),
{
    if accesses.len() == 0 {
        None
    } else if !servers.contains_key(accesses[0].server@) {
        Some(accesses[0].server@)
    } else {
        missing_server(accesses.drop_first(), servers)
    }
}

/// An agent before the `n`-th has the same name.
pub open spec fn named_before(agents: Seq<AgentConfig>, n: int) -> bool {
    exists|i: int| 0 <= i < n && (#[trigger] agents[i]).name@ == agents[n].name@
}

/// What is wrong with the `n`-th agent.
pub open spec fn agent_fault<V>(
    agents: Seq<AgentConfig>,
    providers: Seq<(ProviderKind, ProviderConfig)>,
    servers: Map<Seq<char>, V>,
    n: int,
) -> Option<ConfigErrorView> {
    let agent = agents[n];
    if named_before(agents, n) {
        Some(ConfigErrorView::DuplicateAgent(agent.name@))
    } else if !configured(providers, agent.provider) {
        Some(
            ConfigErrorView::ProviderNotConfigured { agent: agent.name@, provider: agent.provider },
        )
    } else {
        match missing_server(agent.mcp_tools@, servers) {
            Some(server) => Some(
                ConfigErrorView::McpServerNotConfigured { agent: agent.name@, server },
            ),
            None => None,
        }
    }
}

/// What is wrong with the first agent, from the `n`-th on, with which something is.
pub open spec fn agents_fault<V>(
    agents: Seq<AgentConfig>,
    providers: Seq<(ProviderKind, ProviderConfig)>,
    servers: Map<Seq<char>, V>,
    n: int,
) -> Option<ConfigErrorView>
    decreases agents.len() - n,
{
    if n >= agents.len() {
        None
    } else {
        match agent_fault(agents, providers, servers, n) {
            Some(fault) => Some(fault),
            None => agents_fault(agents, providers, servers, n + 1),
        }
    }
}

/// What is wrong with a configuration.
pub open spec fn config_fault(config: Config) -> Option<ConfigErrorView> {
    if config.agents@.len() == 0 {
        Some(ConfigErrorView::NoAgents)
    } else if config.default_user_id is Some && text::trim_of(config.default_user_id->0@).len()
        == 0 {
        Some(ConfigErrorView::BlankDefaultUserId)
    } else {
        agents_fault(config.agents@, config.providers@, config.mcp@, 0)
    }
}

fn is_configured(providers: &Vec<(ProviderKind, ProviderConfig)>, kind: ProviderKind) -> (r: bool)
    ensures
        r == configured(providers@, kind),
{
    let mut i: usize = 0;
    while i < providers.len()
        invariant
            i <= providers@.len(),
            forall|j: int| 0 <= j < i ==> (#[trigger] providers@[j]).0 != kind,
        decreases providers@.len() - i,
    {
        if providers[i].0 == kind {
            return true;
        }
        i = i + 1;
    }
    false
}

fn is_named_before(agents: &Vec<AgentConfig>, n: usize) -> (r: bool)
    requires
        n < agents@.len(),
    ensures
        r == named_before(agents@, n as int),
{
    let mut i: usize = 0;
    while i < n
        invariant
            i <= n < agents@.len(),
            forall|j: int| 0 <= j < i ==> (#[trigger] agents@[j]).name@ != agents@[n as int].name@,
        decreases n - i,
    {
        if text::str_eq(agents[i].name.as_str(), agents[n].name.as_str()) {
            return true;
        }
        i = i + 1;
    }
    false
}

fn find_missing_server<V>(accesses: &Vec<McpToolAccess>, servers: &NameMap<V>) -> (r: Option<
    String,
>)
    ensures
        text::opt_text(r) == missing_server(accesses@, servers@),
{
    let mut i: usize = 0;
    assert(accesses@.skip(0) =~= accesses@);
    while i < accesses.len()
        invariant
            i <= accesses@.len(),
            missing_server(accesses@, servers@) == missing_server(
                accesses@.skip(i as int),
                servers@,
            ),
        decreases accesses@.len() - i,
    {
        assert(accesses@.skip(i as int).drop_first() =~= accesses@.skip(i + 1));
        if !servers.contains(accesses[i].server.as_str()) {
            return Some(accesses[i].server.clone());
        }
        i = i + 1;
    }
    None
}

impl Config {
    /// Whether the configuration can be used, or the first thing that is wrong with it:
    /// there must be agents, the default user must not be blank, and each agent must
    /// have a name of its own, a configured provider and configured servers.
    pub fn validate(&self) -> (r: Result<(), ConfigError>)
        ensures
            match r {
                Ok(()) => config_fault(*self) is None,
                Err(e) => config_fault(*self) == Some(e@),
            },
    {
        if self.agents.len() == 0 {
            return Err(ConfigError::NoAgents);
        }
        if let Some(id) = &self.default_user_id {
            let trimmed = text::trim(id.as_str());
            if text::chars_of(trimmed.as_str()).len() == 0 {
                return Err(ConfigError::BlankDefaultUserId);
            }
        }
        let mut i: usize = 0;
        while i < self.agents.len()
            invariant
                i <= self.agents@.len(),
                config_fault(*self) == agents_fault(
                    self.agents@,
                    self.providers@,
                    self.mcp@,
                    i as int,
                ),
            decreases self.agents@.len() - i,
        {
            let agent: &AgentConfig = &self.agents[i];
            if is_named_before(&self.agents, i) {
                return Err(ConfigError::DuplicateAgent(agent.name.clone()));
            }
            if !is_configured(&self.providers, agent.provider) {
                return Err(
                    ConfigError::ProviderNotConfigured {
                        agent: agent.name.clone(),
                        provider: agent.provider,
                    },
                );
            }
            if let Some(server) = find_missing_server(&agent.mcp_tools, &self.mcp) {
                return Err(
                    ConfigError::McpServerNotConfigured { agent: agent.name.clone(), server },
                );
            }
            i = i + 1;
        }
        Ok(())
    }
}

/// In a configuration that can be used, every agent is found by its name, and its
/// provider and servers are there.
pub proof fn law_valid_config_is_complete(config: Config, n: int)
    requires
        config_fault(config) is None,
        0 <= n < config.agents@.len(),
    ensures
        configured(config.providers@, config.agents@[n].provider),
        forall|k: int|
            0 <= k < config.agents@[n].mcp_tools@.len() ==> config.mcp@.contains_key(
                (#[trigger] config.agents@[n].mcp_tools@[k]).server@,
            ),
        forall|m: int|
            0 <= m < config.agents@.len() && m != n ==> (#[trigger] config.agents@[m]).name@
                != config.agents@[n].name@,
{
    lemma_no_fault(config, 0, n);
    lemma_no_missing(config.agents@[n].mcp_tools@, config.mcp@);
    assert forall|m: int| 0 <= m < config.agents@.len() && m != n implies (
    #[trigger] config.agents@[m]).name@ != config.agents@[n].name@ by {
        lemma_no_fault(config, 0, m);
        if config.agents@[m].name@ == config.agents@[n].name@ {
            if m < n {
                assert(named_before(config.agents@, n));
            } else {
                assert(named_before(config.agents@, m));
            }
        }
    }
}

proof fn lemma_no_fault(config: Config, from: int, n: int)
    requires
        agents_fault(config.agents@, config.providers@, config.mcp@, from) is None,
        0 <= from <= n < config.agents@.len(),
    ensures
        agent_fault(config.agents@, config.providers@, config.mcp@, n) is None,
    decreases n - from,
{
    if from < n {
        lemma_no_fault(config, from + 1, n);
    }
}

proof fn lemma_no_missing<V>(accesses: Seq<McpToolAccess>, servers: Map<Seq<char>, V>)
    requires
        missing_server(accesses, servers) is None,
    ensures
        forall|k: int|
            0 <= k < accesses.len() ==> servers.contains_key((#[trigger] accesses[k]).server@),
    decreases accesses.len(),
{
    if accesses.len() > 0 {
        lemma_no_missing(accesses.drop_first(), servers);
        assert forall|k: int| 0 <= k < accesses.len() implies servers.contains_key(
            (#[trigger] accesses[k]).server@,
        ) by {
            if k > 0 {
                assert(accesses.drop_first()[k - 1] == accesses[k]);
            }
        }
    }
}

/// A configuration in which nothing is missing can be used: it has agents, each with a name
/// of its own, a provider that is configured and servers that are, and its default user, if
/// it has one, is not blank.
pub proof fn law_complete_config_is_valid(config: Config)
    requires
        config.agents@.len() > 0,
        config.default_user_id matches Some(user) ==> text::trim_of(user@).len() > 0,
        forall|m: int, n: int|
            0 <= m < n < config.agents@.len() ==> (#[trigger] config.agents@[m]).name@
                != (#[trigger] config.agents@[n]).name@,
        forall|n: int|
            0 <= n < config.agents@.len() ==> exists|i: int|
                0 <= i < config.providers@.len() && (#[trigger] config.providers@[i]).0
                    == (#[trigger] config.agents@[n]).provider,
        forall|n: int, k: int|
            0 <= n < config.agents@.len() && 0 <= k < config.agents@[n].mcp_tools@.len()
                ==> config.mcp@.contains_key(
                (#[trigger] config.agents@[n].mcp_tools@[k]).server@,
            ),
    ensures
        config_fault(config) is None,
{
    lemma_complete_from(config, 0);
}

proof fn lemma_complete_from(config: Config, n: int)
    requires
        0 <= n <= config.agents@.len(),
        forall|l: int, m: int|
            0 <= l < m < config.agents@.len() ==> (#[trigger] config.agents@[l]).name@
                != (#[trigger] config.agents@[m]).name@,
        forall|m: int|
            0 <= m < config.agents@.len() ==> exists|i: int|
                0 <= i < config.providers@.len() && (#[trigger] config.providers@[i]).0
                    == (#[trigger] config.agents@[m]).provider,
        forall|m: int, k: int|
            0 <= m < config.agents@.len() && 0 <= k < config.agents@[m].mcp_tools@.len()
                ==> config.mcp@.contains_key(
                (#[trigger] config.agents@[m].mcp_tools@[k]).server@,
            ),
    ensures
        agents_fault(config.agents@, config.providers@, config.mcp@, n) is None,
    decreases config.agents@.len() - n,
{
    if n < config.agents@.len() {
        lemma_complete_from(config, n + 1);
        let accesses = config.agents@[n].mcp_tools@;
        law_missing_server_is_missing(accesses, config.mcp@);
        if missing_server(accesses, config.mcp@) is Some {
            let k = choose|k: int|
                0 <= k < accesses.len() && (#[trigger] accesses[k]).server@ == missing_server(
                    accesses,
                    config.mcp@,
                )->0 && !config.mcp@.contains_key(accesses[k].server@);
            assert(config.mcp@.contains_key(config.agents@[n].mcp_tools@[k].server@));
        }
    }
}

/// The server that is told is one that the agent uses and that is not configured; none is
/// told where all are.
pub proof fn law_missing_server_is_missing<V>(
    accesses: Seq<McpToolAccess>,
    servers: Map<Seq<char>, V>,
)
    ensures
        match missing_server(accesses, servers) {
            Some(server) => exists|k: int|
                0 <= k < accesses.len() && (#[trigger] accesses[k]).server@ == server
                    && !servers.contains_key(accesses[k].server@),
            None => forall|k: int|
                0 <= k < accesses.len() ==> servers.contains_key((#[trigger] accesses[k]).server@),
        },
    decreases accesses.len(),
{
    if accesses.len() > 0 && servers.contains_key(accesses[0].server@) {
        let rest = accesses.drop_first();
        law_missing_server_is_missing(rest, servers);
        assert forall|k: int| 0 < k < accesses.len() implies #[trigger] accesses[k]
            == rest[k - 1] by {}
        if missing_server(accesses, servers) is Some {
            let k = choose|k: int|
                0 <= k < rest.len() && (#[trigger] rest[k]).server@ == missing_server(
                    rest,
                    servers,
                )->0 && !servers.contains_key(rest[k].server@);
            assert(accesses[k + 1] == rest[k]);
        }
    } else if accesses.len() > 0 {
        assert(accesses[0].server@ == missing_server(accesses, servers)->0);
    }
}

/// The fault of the `n`-th agent is the one that is told.
spec fn fault_at(config: Config, n: int, e: ConfigErrorView) -> bool {
    0 <= n < config.agents@.len() && agent_fault(config.agents@, config.providers@, config.mcp@, n)
        == Some(e)
}

proof fn lemma_fault_is_of_an_agent(config: Config, from: int)
    requires
        0 <= from,
    ensures
        agents_fault(config.agents@, config.providers@, config.mcp@, from) matches Some(e)
            ==> exists|n: int| fault_at(config, n, e),
    decreases config.agents@.len() - from,
{
    if from < config.agents@.len() {
        lemma_fault_is_of_an_agent(config, from + 1);
        if agent_fault(config.agents@, config.providers@, config.mcp@, from) is Some {
            let e = agent_fault(config.agents@, config.providers@, config.mcp@, from)->0;
            assert(fault_at(config, from, e));
        }
    }
}

/// A fault that is told is one that the configuration has.
pub proof fn law_told_fault_is_real(config: Config)
    requires
        config_fault(config) is Some,
    ensures
        match config_fault(config)->0 {
            ConfigErrorView::NoAgents => config.agents@.len() == 0,
            ConfigErrorView::BlankDefaultUserId => config.default_user_id matches Some(user)
                && text::trim_of(user@).len() == 0,
            ConfigErrorView::DuplicateAgent(name) => exists|m: int, n: int|
                0 <= m < n < config.agents@.len() && (#[trigger] config.agents@[m]).name@ == name
                    && (#[trigger] config.agents@[n]).name@ == name,
            ConfigErrorView::ProviderNotConfigured { agent, provider } => !configured(
                config.providers@,
                provider,
            ) && exists|n: int|
                0 <= n < config.agents@.len() && (#[trigger] config.agents@[n]).name@ == agent
                    && config.agents@[n].provider == provider,
            ConfigErrorView::McpServerNotConfigured { agent, server } => {
                !config.mcp@.contains_key(server) && exists|n: int|
                    0 <= n < config.agents@.len() && (#[trigger] config.agents@[n]).name@ == agent
            },
        },
{
    let e = config_fault(config)->0;
    lemma_fault_is_of_an_agent(config, 0);
    if e is DuplicateAgent || e is ProviderNotConfigured || e is McpServerNotConfigured {
        let n = choose|n: int| fault_at(config, n, e);
        law_missing_server_is_missing(config.agents@[n].mcp_tools@, config.mcp@);
        if e is DuplicateAgent {
            let m = choose|m: int|
                0 <= m < n && (#[trigger] config.agents@[m]).name@ == config.agents@[n].name@;
            assert(config.agents@[m].name@ == config.agents@[n].name@);
        }
        assert(config.agents@[n].name@ == config.agents@[n].name@);
    }
}

} // verus!
