//! Which tools an agent gets from the MCP servers that it names.
//!
//! Servers without OAuth are connected once; servers with OAuth have a session per
//! user. A server that cannot be used is replaced by a placeholder, so that one broken
//! server does not take the others away.
use vstd::prelude::*;

use crate::ids::UserId;
use crate::mcp::config::{McpServerConfig, McpToolAccess};
use crate::mcp::error::McpError;
use crate::mcp::oauth::STATE_TTL_SECS;
use crate::mcp::pool::{
    empty_object_schema, empty_schema_text, is_connect_message, opt_signer, placeholder_definition,
    unreachable_definition, unreachable_text, DefinitionView, NotConnectedTool, ToolInfo,
    UnreachableTool,
};
use crate::mcp::routes::{ConnectLinkSigner, SignerView};
use crate::mcp::sanitize;
use crate::names::NameMap;
use crate::text;

verus! {

/// The configured servers, the names of the tools of those that are connected, and
/// whether there is a vault for per-user sessions.
pub struct McpServers {
    pub configs: NameMap<McpServerConfig>,
    pub has_user_pool: bool,
    pub servers: NameMap<Vec<String>>,
}

/// A tool of a connected server.
#[derive(Debug)]
pub struct LiveTool {
    pub server: String,
    pub tool: String,
}

/// What stands behind a tool that an agent is offered.
#[derive(Debug)]
pub enum ToolSource {
    Live(LiveTool),
    NotConnected(NotConnectedTool),
    Unreachable(UnreachableTool),
}

/// The tools that an agent is offered: `names[i]` is the name of `sources[i]`.
#[derive(Debug)]
pub struct OfferedTools {
    pub names: Vec<String>,
    pub sources: Vec<ToolSource>,
}

/// The refusals of a request for tools.
pub enum Refusal {
    ServerNotConfigured { agent: Seq<char>, server: Seq<char> },
    ToolNotFound { agent: Seq<char>, server: Seq<char>, tool: Seq<char> },
}

/// The error says what the refusal says.
pub open spec fn refuses(e: McpError, refusal: Refusal) -> bool {
    match refusal {
        Refusal::ServerNotConfigured { agent, server } => match e {
            McpError::ServerNotConfigured { agent: a, server: s } => a@ == agent && s@ == server,
            _ => false,
        },
        Refusal::ToolNotFound { agent, server, tool } => match e {
            McpError::ToolNotFound { agent: a, server: s, tool: t } => a@ == agent && s@ == server
                && t@ == tool,
            _ => false,
        },
    }
}

/// The message of a refusal.
pub open spec fn refusal_message(refusal: Refusal) -> Seq<char> {
    match refusal {
        Refusal::ServerNotConfigured { agent, server } => "agent '"@ + agent
            + "' references MCP server '"@ + server + "' which is not configured"@,
        Refusal::ToolNotFound { agent, server, tool } => "MCP server '"@ + server
            + "' does not expose tool '"@ + tool + "' (agent '"@ + agent + "')"@,
    }
}

/// The first of `names` that is not among `available`.
pub open spec fn first_missing(names: Seq<Seq<char>>, available: Seq<Seq<char>>) -> Option<Seq<char>>
    decreases names.len(),
{
    if names.len() == 0 {
        None
    } else if !available.contains(names[0]) {
        Some(names[0])
    } else {
        first_missing(names.drop_first(), available)
    }
}

/// A name is missing exactly when one of those asked for is not available, and the one that
/// is told is one of those.
pub proof fn law_first_missing_is_missing(names: Seq<Seq<char>>, available: Seq<Seq<char>>)
    ensures
        match first_missing(names, available) {
            Some(tool) => exists|i: int|
                0 <= i < names.len() && #[trigger] names[i] == tool && !available.contains(tool)
                    && forall|j: int|
                    0 <= j < i ==> available.contains(#[trigger] names[j]),
            None => forall|j: int|
                0 <= j < names.len() ==> available.contains(#[trigger] names[j]),
        },
    decreases names.len(),
{
    if names.len() > 0 && available.contains(names[0]) {
        let rest = names.drop_first();
        law_first_missing_is_missing(rest, available);
        match first_missing(names, available) {
            Some(tool) => {
                let i = choose|i: int|
                    0 <= i < rest.len() && #[trigger] rest[i] == tool && !available.contains(tool)
                        && forall|j: int|
                        0 <= j < i ==> available.contains(#[trigger] rest[j]);
                assert(names[i + 1] == tool);
                assert forall|j: int| 0 <= j < i + 1 implies available.contains(
                    #[trigger] names[j],
                ) by {
                    if j > 0 {
                        assert(rest[j - 1] == names[j]);
                    }
                }
            },
            None => {
                assert forall|j: int| 0 <= j < names.len() implies available.contains(
                    #[trigger] names[j],
                ) by {
                    if j > 0 {
                        assert(rest[j - 1] == names[j]);
                    }
                }
            },
        }
    } else if names.len() > 0 {
        assert(names[0] == names[0]);
    }
}

/// Model of an optional list of names.
pub open spec fn opt_names(only: Option<Vec<String>>) -> Option<Seq<Seq<char>>> {
    match only {
        Some(v) => Some(text::texts(v@)),
        None => None,
    }
}

/// The tools that an access picks from a server: all, or the named ones, which must
/// all be there.
pub open spec fn picked(
    agent: Seq<char>,
    server: Seq<char>,
    only: Option<Seq<Seq<char>>>,
    available: Seq<Seq<char>>,
) -> Result<Seq<Seq<char>>, Refusal> {
    match only {
        None => Ok(available),
        Some(names) => match first_missing(names, available) {
            Some(tool) => Err(Refusal::ToolNotFound { agent, server, tool }),
            None => Ok(names),
        },
    }
}

/// The tools that an access picks from a server.
pub fn pick_tools(
    agent: &str,
    server_name: &str,
    only: &Option<Vec<String>>,
    available: &Vec<String>,
) -> (r: Result<Vec<String>, McpError>)
    ensures
        match picked(agent@, server_name@, opt_names(*only), text::texts(available@)) {
            Ok(names) => r is Ok && text::texts(r->Ok_0@) == names,
            Err(refusal) => r is Err && refuses(r->Err_0, refusal),
        },
{
    let names = match only {
        None => {
            return Ok(text::clone_list(available));
        },
        Some(names) => names,
    };
    let ghost all = text::texts(names@);
    let mut i: usize = 0;
    assert(all.skip(0) =~= all);
    while i < names.len()
        invariant
            i <= names.len(),
            all == text::texts(names@),
            opt_names(*only) == Some(all),
            first_missing(all, text::texts(available@)) == first_missing(
                all.skip(i as int),
                text::texts(available@),
            ),
        decreases names.len() - i,
    {
        assert(all.skip(i as int)[0] == names@[i as int]@);
        if !text::list_contains(available, names[i].as_str()) {
            return Err(
                McpError::ToolNotFound {
                    agent: agent.to_owned(),
                    server: server_name.to_owned(),
                    tool: names[i].clone(),
                },
            );
        }
        assert(all.skip(i as int).drop_first() =~= all.skip(i + 1));
        i = i + 1;
    }
    Ok(text::clone_list(names))
}

/// Single placeholder for a server that the user has not connected and whose tools are
/// not known.
pub open spec fn sentinel_definition(server: Seq<char>) -> DefinitionView {
    DefinitionView {
        description: "Returns a one-time URL the user must open to authorize access to the '"@
            + server + "' MCP server. Call this whenever the user wants to use "@ + server
            + " features or asks you to connect to "@ + server
            + ", INCLUDING when a previous link has expired — always call the tool to get a fresh URL. Copy the URL from the tool result into your reply verbatim; never edit it, regenerate it, or invent a new one (the URL is HMAC-signed and any modification makes it invalid)."@,
        name: "connect_"@ + server,
        parameters: empty_schema_text(),
    }
}

/// Placeholder for a named tool.
pub open spec fn named_definition(name: Seq<char>) -> DefinitionView {
    DefinitionView { description: Seq::empty(), name, parameters: empty_schema_text() }
}

/// Single placeholder for a server that the user has not connected and whose tools are
/// not known. Its description makes clear that it is the way to connect.
pub fn sentinel_placeholder(server: &str) -> (r: ToolInfo)
    ensures
        placeholder_definition(r) == sentinel_definition(server@),
        r.description is Some,
{
    let mut name = String::from_str("connect_");
    name.append(server);
    let mut description = String::from_str(
        "Returns a one-time URL the user must open to authorize access to the '",
    );
    description.append(server);
    description.append("' MCP server. Call this whenever the user wants to use ");
    description.append(server);
    description.append(" features or asks you to connect to ");
    description.append(server);
    description.append(
        ", INCLUDING when a previous link has expired — always call the tool to get a fresh URL. Copy the URL from the tool result into your reply verbatim; never edit it, regenerate it, or invent a new one (the URL is HMAC-signed and any modification makes it invalid).",
    );
    ToolInfo { description: Some(description), input_schema: empty_object_schema(), name }
}

/// Placeholder for a tool that an access names.
pub fn named_placeholder(name: &str) -> (r: ToolInfo)
    ensures
        placeholder_definition(r) == named_definition(name@),
        r.description is None,
{
    ToolInfo {
        description: None,
        input_schema: empty_object_schema(),
        name: name.to_owned(),
    }
}

/// Model of `McpServers`.
pub struct ServersView {
    pub configs: Map<Seq<char>, McpServerConfig>,
    pub has_user_pool: bool,
    pub servers: Map<Seq<char>, Vec<String>>,
}

impl View for McpServers {
    type V = ServersView;

    open spec fn view(&self) -> ServersView {
        ServersView {
            configs: self.configs@,
            has_user_pool: self.has_user_pool,
            servers: self.servers@,
        }
    }
}

/// The tools of one server, as live tools.
pub open spec fn live(server: Seq<char>, tools: Seq<Seq<char>>) -> Seq<OfferView> {
    tools.map_values(|tool: Seq<char>| OfferView::Live { server, tool })
}

/// Model of what stands behind an offered tool.
pub enum OfferView {
    Live { server: Seq<char>, tool: Seq<char> },
    NotConnected { definition: DefinitionView, server: Seq<char> },
    Unreachable { server: Seq<char>, summary: Seq<char> },
}

impl OfferView {
    /// The name of the tool before it is made acceptable to providers.
    pub open spec fn name(self) -> Seq<char> {
        match self {
            OfferView::Live { tool, .. } => tool,
            OfferView::NotConnected { definition, .. } => definition.name,
            OfferView::Unreachable { server, .. } => unreachable_definition(server).name,
        }
    }
}

/// The names of some offers.
pub open spec fn offer_names(offers: Seq<OfferView>) -> Seq<Seq<char>> {
    offers.map_values(|o: OfferView| o.name())
}

/// `source` is what the offer says.
pub open spec fn fulfils(
    source: ToolSource,
    offer: OfferView,
    user_id: UserId,
    signer: Option<SignerView>,
    now: u64,
) -> bool {
    match (source, offer) {
        (ToolSource::Live(t), OfferView::Live { server, tool }) => t.server@ == server && t.tool@
            == tool,
        (ToolSource::NotConnected(t), OfferView::NotConnected { definition, server }) => {
            t.definition@ == definition && is_connect_message(
                server,
                user_id,
                signer,
                now,
                t.message@,
            )
        },
        (ToolSource::Unreachable(t), OfferView::Unreachable { server, summary }) => {
            t.definition@ == unreachable_definition(server) && t.message@ == unreachable_text(
                server,
                summary,
            )
        },
        _ => false,
    }
}

impl ServersView {
    /// A per-user session has to be asked for.
    pub open spec fn needs_session(self, server: Seq<char>) -> bool {
        self.configs.contains_key(server) && self.configs[server].oauth is Some
            && self.has_user_pool
    }

    /// A server gives its tools only to a user who has authorized it.
    pub open spec fn needs_user(self, server: Seq<char>) -> bool {
        self.configs.contains_key(server) && self.configs[server].oauth is Some
    }

    /// The tools that an access gives an agent without a user.
    pub open spec fn access_tools(self, agent: Seq<char>, access: McpToolAccess) -> Result<
        Seq<Seq<char>>,
        Refusal,
    > {
        let server = access.server@;
        if !self.configs.contains_key(server) || !self.servers.contains_key(server) {
            Err(Refusal::ServerNotConfigured { agent, server })
        } else {
            picked(agent, server, opt_names(access.only), text::texts(self.servers[server]@))
        }
    }

    /// The tools that some accesses give an agent without a user: all of them, or the
    /// first refusal.
    pub open spec fn tools_for(self, agent: Seq<char>, accesses: Seq<McpToolAccess>) -> Result<
        Seq<OfferView>,
        Refusal,
    >
        decreases accesses.len(),
    {
        if accesses.len() == 0 {
            Ok(Seq::empty())
        } else {
            match self.tools_for(agent, accesses.drop_last()) {
                Ok(front) => match self.access_tools(agent, accesses.last()) {
                    Ok(tools) => Ok(front + live(accesses.last().server@, tools)),
                    Err(r) => Err(r),
                },
                Err(r) => Err(r),
            }
        }
    }

    /// What an access offers an agent that works for a user; `session` is the outcome
    /// of asking for the user's session, where one is needed.
    pub open spec fn access_offers(
        self,
        agent: Seq<char>,
        access: McpToolAccess,
        session: Option<Result<Vec<String>, McpError>>,
    ) -> Seq<OfferView> {
        let server = access.server@;
        if !self.configs.contains_key(server) {
            seq![OfferView::Unreachable { server, summary: "server not configured"@ }]
        } else if self.configs[server].oauth is Some {
            if !self.has_user_pool {
                seq![OfferView::Unreachable { server, summary: "no OAuth vault"@ }]
            } else {
                match session {
                    Some(Ok(tools)) => picked_offers(
                        agent,
                        server,
                        opt_names(access.only),
                        text::texts(tools@),
                    ),
                    Some(Err(McpError::NotConnected { server: s, .. })) => placeholders(
                        s@,
                        opt_names(access.only),
                    ),
                    Some(Err(e)) => seq![OfferView::Unreachable { server, summary: e.message() }],
                    None => Seq::empty(),
                }
            }
        } else if !self.servers.contains_key(server) {
            seq![OfferView::Unreachable { server, summary: "server not connected at boot"@ }]
        } else {
            picked_offers(
                agent,
                server,
                opt_names(access.only),
                text::texts(self.servers[server]@),
            )
        }
    }

    /// What some accesses offer an agent that works for a user.
    pub open spec fn offers(
        self,
        agent: Seq<char>,
        accesses: Seq<McpToolAccess>,
        sessions: Seq<Option<Result<Vec<String>, McpError>>>,
    ) -> Seq<OfferView>
        decreases accesses.len(),
    {
        if accesses.len() == 0 {
            Seq::empty()
        } else {
            self.offers(agent, accesses.drop_last(), sessions) + self.access_offers(
                agent,
                accesses.last(),
                sessions[accesses.len() - 1],
            )
        }
    }
}

/// The picked tools, or a placeholder that says which one is missing.
pub open spec fn picked_offers(
    agent: Seq<char>,
    server: Seq<char>,
    only: Option<Seq<Seq<char>>>,
    available: Seq<Seq<char>>,
) -> Seq<OfferView> {
    match picked(agent, server, only, available) {
        Ok(tools) => live(server, tools),
        Err(r) => seq![OfferView::Unreachable { server, summary: refusal_message(r) }],
    }
}

/// The placeholders for a server that the user has not connected: one for each named
/// tool, or one that connects.
pub open spec fn placeholders(server: Seq<char>, only: Option<Seq<Seq<char>>>) -> Seq<OfferView> {
    match only {
        None => seq![OfferView::NotConnected { definition: sentinel_definition(server), server }],
        Some(names) => names.map_values(
            |name: Seq<char>|
                OfferView::NotConnected { definition: named_definition(name), server },
        ),
    }
}

/// `sources` fulfil `offers`, one by one.
pub open spec fn all_fulfil(
    sources: Seq<ToolSource>,
    offers: Seq<OfferView>,
    user_id: UserId,
    signer: Option<SignerView>,
    now: u64,
) -> bool {
    &&& sources.len() == offers.len()
    &&& forall|i: int|
        0 <= i < sources.len() ==> fulfils(#[trigger] sources[i], offers[i], user_id, signer, now)
}

/// Appends the live tools of a server.
fn push_live(sources: &mut Vec<ToolSource>, server: &str, tools: Vec<String>)
    ensures
        final(sources)@.len() == old(sources)@.len() + tools@.len(),
        forall|i: int|
            0 <= i < old(sources)@.len() ==> #[trigger] final(sources)@[i] == old(sources)@[i],
        forall|i: int|
            0 <= i < tools@.len() ==> match #[trigger] final(sources)@[old(sources)@.len() + i] {
                ToolSource::Live(t) => t.server@ == server@ && t.tool@ == tools@[i]@,
                _ => false,
            },
{
    let ghost before = sources@;
    let mut i: usize = 0;
    while i < tools.len()
        invariant
            i <= tools.len(),
            before == old(sources)@,
            sources@.len() == before.len() + i,
            forall|j: int| 0 <= j < before.len() ==> #[trigger] sources@[j] == before[j],
            forall|j: int|
                before.len() <= j < before.len() + i ==> match #[trigger] sources@[j] {
                    ToolSource::Live(t) => t.server@ == server@ && t.tool@ == tools@[j
                        - before.len()]@,
                    _ => false,
                },
        decreases tools.len() - i,
    {
        sources.push(
            ToolSource::Live(LiveTool { server: server.to_owned(), tool: tools[i].clone() }),
        );
        i = i + 1;
    }
}

/// The names of what was gathered, before they are made acceptable.
fn source_names(sources: &Vec<ToolSource>) -> (r: Vec<String>)
    ensures
        r@.len() == sources@.len(),
        forall|i: int|
            0 <= i < r@.len() ==> (#[trigger] r@[i])@ == match sources@[i] {
                ToolSource::Live(t) => t.tool@,
                ToolSource::NotConnected(t) => t.definition.name@,
                ToolSource::Unreachable(t) => t.definition.name@,
            },
{
    let mut out: Vec<String> = Vec::new();
    let mut i: usize = 0;
    while i < sources.len()
        invariant
            i <= sources.len(),
            out@.len() == i,
            forall|j: int|
                0 <= j < i ==> (#[trigger] out@[j])@ == match sources@[j] {
                    ToolSource::Live(t) => t.tool@,
                    ToolSource::NotConnected(t) => t.definition.name@,
                    ToolSource::Unreachable(t) => t.definition.name@,
                },
        decreases sources.len() - i,
    {
        let name = match &sources[i] {
            ToolSource::Live(t) => t.tool.clone(),
            ToolSource::NotConnected(t) => t.name(),
            ToolSource::Unreachable(t) => t.name(),
        };
        out.push(name);
        i = i + 1;
    }
    out
}

/// A server is connected when the program starts: it is configured, and needs no user.
pub open spec fn starts_at_boot(configs: Map<Seq<char>, McpServerConfig>, name: Seq<char>) -> bool {
    configs.contains_key(name) && configs[name].oauth is None
}

/// The tools of the servers that were connected when the program started. One that could
/// not be is left out.
pub open spec fn connected(
    configs: Map<Seq<char>, McpServerConfig>,
    outcomes: Seq<(String, Result<Vec<String>, String>)>,
) -> Map<Seq<char>, Vec<String>>
    decreases outcomes.len(),
{
    if outcomes.len() == 0 {
        Map::empty()
    } else {
        let before = connected(configs, outcomes.drop_last());
        match outcomes.last() {
            (name, Ok(tools)) => if starts_at_boot(configs, name@) {
                before.insert(name@, tools)
            } else {
                before
            },
            (_, Err(_)) => before,
        }
    }
}

impl McpServers {
    /// The servers of a program without a vault; `outcomes` are the tools of each server
    /// that was to be connected, or why it was not.
    pub fn connect(
        configs: NameMap<McpServerConfig>,
        outcomes: Vec<(String, Result<Vec<String>, String>)>,
    ) -> (r: Self)
        ensures
            r@ == (ServersView {
                configs: configs@,
                has_user_pool: false,
                servers: connected(configs@, outcomes@),
            }),
    {
        Self::connect_with_vault(configs, outcomes, false)
    }

    /// The servers of a program; `outcomes` are the tools of each server that was to be
    /// connected, or why it was not. A server that was not is left out, and the others
    /// stay. Servers that need a user are connected when one asks for them.
    pub fn connect_with_vault(
        configs: NameMap<McpServerConfig>,
        outcomes: Vec<(String, Result<Vec<String>, String>)>,
        has_vault: bool,
    ) -> (r: Self)
        ensures
            r@ == (ServersView {
                configs: configs@,
                has_user_pool: has_vault,
                servers: connected(configs@, outcomes@),
            }),
    {
        let ghost all = outcomes@;
        let ghost mut n: int = 0;
        let mut rest = outcomes;
        let mut servers: NameMap<Vec<String>> = NameMap::new();
        assert(all.skip(0) =~= all);
        assert(all.take(0) =~= Seq::empty());
        while rest.len() > 0
            invariant
                0 <= n <= all.len(),
                rest@ == all.skip(n),
                servers@ == connected(configs@, all.take(n)),
            decreases rest.len(),
        {
            let (name, outcome) = rest.remove(0);
            proof {
                assert(all.take(n + 1).drop_last() =~= all.take(n));
                assert(all.take(n + 1).last() == (name, outcome));
                assert(rest@ =~= all.skip(n + 1));
                n = n + 1;
            }
            let starts = match configs.get(name.as_str()) {
                Some(config) => config.oauth.is_none(),
                None => false,
            };
            if let Ok(tools) = outcome {
                if starts {
                    servers.insert(name, tools);
                }
            }
        }
        assert(all.take(n) =~= all);
        McpServers { configs, has_user_pool: has_vault, servers }
    }

    /// Whether a per-user session has to be asked for.
    pub fn needs_session(&self, server: &str) -> (r: bool)
        ensures
            r == self@.needs_session(server@),
    {
        match self.configs.get(server) {
            Some(c) => c.oauth.is_some() && self.has_user_pool,
            None => false,
        }
    }

    /// The tools of an agent that works for no user. A server that is not configured or
    /// not connected refuses the whole request. No access may name a server that needs a
    /// user: those are for `tools_for_user`.
    pub fn tools_for(&self, agent: &str, accesses: &Vec<McpToolAccess>) -> (r: Result<
        OfferedTools,
        McpError,
    >)
        requires
            forall|i: int|
                0 <= i < accesses@.len() ==> !self@.needs_user((#[trigger] accesses@[i]).server@),
            self@.tools_for(agent@, accesses@) matches Ok(offers) ==> offers.len() <= u32::MAX - 2,
        ensures
            match self@.tools_for(agent@, accesses@) {
                Ok(offers) => {
                    &&& r is Ok
                    &&& all_fulfil(r->Ok_0.sources@, offers, UserId(0), None, 0)
                    &&& sanitize::are_tool_names(offer_names(offers), text::texts(r->Ok_0.names@))
                },
                Err(refusal) => r is Err && refuses(r->Err_0, refusal),
            },
    {
        let mut sources: Vec<ToolSource> = Vec::new();
        let mut i: usize = 0;
        assert(accesses@.take(0) =~= Seq::empty());
        while i < accesses.len()
            invariant
                i <= accesses.len(),
                self@.tools_for(agent@, accesses@.take(i as int)) is Ok,
                all_fulfil(
                    sources@,
                    self@.tools_for(agent@, accesses@.take(i as int))->Ok_0,
                    UserId(0),
                    None,
                    0,
                ),
            decreases accesses.len() - i,
        {
            let access = &accesses[i];
            let ghost upto = accesses@.take(i + 1);
            proof {
                assert(upto.drop_last() =~= accesses@.take(i as int));
                assert(upto.last() == *access);
                lemma_refusal_stays(self@, agent@, accesses@, i + 1);
            }
            let configured = self.configs.get(access.server.as_str()).is_some();
            let available = match self.servers.get(access.server.as_str()) {
                Some(tools) if configured => tools,
                _ => {
                    return Err(
                        McpError::ServerNotConfigured {
                            agent: agent.to_owned(),
                            server: access.server.clone(),
                        },
                    );
                },
            };
            let tools = match pick_tools(agent, access.server.as_str(), &access.only, available) {
                Ok(tools) => tools,
                Err(e) => {
                    return Err(e);
                },
            };
            let ghost before = sources@;
            let ghost front = self@.tools_for(agent@, accesses@.take(i as int))->Ok_0;
            push_live(&mut sources, access.server.as_str(), tools);
            proof {
                let offers = self@.tools_for(agent@, upto)->Ok_0;
                assert(offers == front + live(access.server@, text::texts(tools@)));
                assert forall|k: int| 0 <= k < sources@.len() implies fulfils(
                    #[trigger] sources@[k],
                    offers[k],
                    UserId(0),
                    None,
                    0,
                ) by {
                    if k < before.len() {
                        assert(sources@[k] == before[k]);
                    } else {
                        assert(sources@[before.len() + (k - before.len())] == sources@[k]);
                    }
                }
            }
            i = i + 1;
        }
        assert(accesses@.take(accesses@.len() as int) =~= accesses@);
        let raw = source_names(&sources);
        let ghost offers = self@.tools_for(agent@, accesses@)->Ok_0;
        assert(text::texts(raw@) =~= offer_names(offers)) by {
            assert forall|k: int| 0 <= k < raw@.len() implies text::texts(raw@)[k] == offer_names(
                offers,
            )[k] by {
                assert(fulfils(sources@[k], offers[k], UserId(0), None, 0));
                assert(raw@[k]@ == offers[k].name());
            }
        }
        Ok(OfferedTools { names: sanitize::apply(&raw), sources })
    }

    /// What one access offers an agent that works for a user.
    fn gather(
        &self,
        agent: &str,
        access: &McpToolAccess,
        session: Option<Result<Vec<String>, McpError>>,
        user_id: UserId,
        signer: Option<&ConnectLinkSigner>,
        now: u64,
    ) -> (r: Vec<ToolSource>)
        requires
            self@.needs_session(access.server@) ==> session is Some,
            session matches Some(Err(McpError::NotConnected { server, .. })) ==> server@.len()
                <= 0x1_0000_0000,
            now + STATE_TTL_SECS <= u64::MAX,
        ensures
            all_fulfil(
                r@,
                self@.access_offers(agent@, *access, session),
                user_id,
                opt_signer(signer),
                now,
            ),
    {
        let server: &str = access.server.as_str();
        let mut out: Vec<ToolSource> = Vec::new();
        let config = match self.configs.get(server) {
            Some(c) => c,
            None => {
                out.push(
                    ToolSource::Unreachable(UnreachableTool::new(server, "server not configured")),
                );
                return out;
            },
        };
        let available: Vec<String> = if config.oauth.is_some() {
            if !self.has_user_pool {
                out.push(ToolSource::Unreachable(UnreachableTool::new(server, "no OAuth vault")));
                return out;
            }
            match session {
                Some(Ok(tools)) => tools,
                Some(Err(McpError::NotConnected { server: s, .. })) => {
                    return Self::gather_placeholders(
                        s.as_str(),
                        &access.only,
                        user_id,
                        signer,
                        now,
                    );
                },
                Some(Err(e)) => {
                    let summary = e.to_text();
                    out.push(
                        ToolSource::Unreachable(UnreachableTool::new(server, summary.as_str())),
                    );
                    return out;
                },
                None => {
                    return out;
                },
            }
        } else {
            match self.servers.get(server) {
                Some(tools) => text::clone_list(tools),
                None => {
                    out.push(
                        ToolSource::Unreachable(
                            UnreachableTool::new(server, "server not connected at boot"),
                        ),
                    );
                    return out;
                },
            }
        };
        match pick_tools(agent, server, &access.only, &available) {
            Ok(tools) => {
                push_live(&mut out, server, tools);
                proof {
                    let offers = self@.access_offers(agent@, *access, session);
                    assert(offers == live(server@, text::texts(tools@)));
                    assert forall|k: int| 0 <= k < out@.len() implies fulfils(
                        #[trigger] out@[k],
                        offers[k],
                        user_id,
                        opt_signer(signer),
                        now,
                    ) by {
                        assert(out@[0 + k] == out@[k]);
                    }
                }
            },
            Err(e) => {
                let summary = e.to_text();
                out.push(ToolSource::Unreachable(UnreachableTool::new(server, summary.as_str())));
            },
        }
        out
    }

    /// The placeholders for a server that the user has not connected.
    fn gather_placeholders(
        server: &str,
        only: &Option<Vec<String>>,
        user_id: UserId,
        signer: Option<&ConnectLinkSigner>,
        now: u64,
    ) -> (r: Vec<ToolSource>)
        requires
            server@.len() <= 0x1_0000_0000,
            now + STATE_TTL_SECS <= u64::MAX,
        ensures
            all_fulfil(
                r@,
                placeholders(server@, opt_names(*only)),
                user_id,
                opt_signer(signer),
                now,
            ),
    {
        let mut out: Vec<ToolSource> = Vec::new();
        match only {
            None => {
                let tool = sentinel_placeholder(server);
                out.push(
                    ToolSource::NotConnected(
                        NotConnectedTool::new(server, tool, user_id, signer, now),
                    ),
                );
            },
            Some(names) => {
                let ghost offers = placeholders(server@, opt_names(*only));
                let mut i: usize = 0;
                while i < names.len()
                    invariant
                        i <= names.len(),
                        server@.len() <= 0x1_0000_0000,
                        now + STATE_TTL_SECS <= u64::MAX,
                        offers == placeholders(server@, Some(text::texts(names@))),
                        all_fulfil(
                            out@,
                            offers.take(i as int),
                            user_id,
                            opt_signer(signer),
                            now,
                        ),
                    decreases names.len() - i,
                {
                    let tool = named_placeholder(names[i].as_str());
                    out.push(
                        ToolSource::NotConnected(
                            NotConnectedTool::new(server, tool, user_id, signer, now),
                        ),
                    );
                    i = i + 1;
                }
                assert(offers.take(names@.len() as int) =~= offers);
            },
        }
        out
    }

    /// The tools of an agent that works for a user. `sessions[i]` is the outcome of
    /// asking for the user's session at the server of `accesses[i]`, where one is needed.
    /// No server makes the request fail: one that cannot be used is replaced by a
    /// placeholder.
    pub fn tools_for_user(
        &self,
        agent: &str,
        accesses: &Vec<McpToolAccess>,
        sessions: Vec<Option<Result<Vec<String>, McpError>>>,
        user_id: UserId,
        signer: Option<&ConnectLinkSigner>,
        now: u64,
    ) -> (r: OfferedTools)
        requires
            sessions@.len() == accesses@.len(),
            forall|i: int|
                0 <= i < accesses@.len() && self@.needs_session(
                    (#[trigger] accesses@[i]).server@,
                ) ==> sessions@[i] is Some,
            forall|i: int|
                0 <= i < sessions@.len() ==> (#[trigger] sessions@[i] matches Some(
                    Err(McpError::NotConnected { server, .. }),
                ) ==> server@.len() <= 0x1_0000_0000),
            self@.offers(agent@, accesses@, sessions@).len() <= u32::MAX - 2,
            now + STATE_TTL_SECS <= u64::MAX,
        ensures
            all_fulfil(
                r.sources@,
                self@.offers(agent@, accesses@, sessions@),
                user_id,
                opt_signer(signer),
                now,
            ),
            sanitize::are_tool_names(
                offer_names(self@.offers(agent@, accesses@, sessions@)),
                text::texts(r.names@),
            ),
    {
        let ghost all = sessions@;
        let mut rest = sessions;
        let mut sources: Vec<ToolSource> = Vec::new();
        let mut i: usize = 0;
        assert(accesses@.take(0) =~= Seq::empty());
        assert(all.skip(0) =~= all);
        while i < accesses.len()
            invariant
                i <= accesses.len(),
                all.len() == accesses@.len(),
                rest@ == all.skip(i as int),
                forall|k: int|
                    0 <= k < accesses@.len() && self@.needs_session(
                        (#[trigger] accesses@[k]).server@,
                    ) ==> all[k] is Some,
                forall|k: int|
                    0 <= k < all.len() ==> (#[trigger] all[k] matches Some(
                        Err(McpError::NotConnected { server, .. }),
                    ) ==> server@.len() <= 0x1_0000_0000),
                now + STATE_TTL_SECS <= u64::MAX,
                all_fulfil(
                    sources@,
                    self@.offers(agent@, accesses@.take(i as int), all),
                    user_id,
                    opt_signer(signer),
                    now,
                ),
            decreases accesses.len() - i,
        {
            let ghost upto = accesses@.take(i + 1);
            proof {
                assert(upto.drop_last() =~= accesses@.take(i as int));
                assert(upto.last() == accesses@[i as int]);
                assert(rest@[0] == all[i as int]);
            }
            let session = rest.remove(0);
            assert(rest@ =~= all.skip(i + 1));
            let ghost before = sources@;
            let mut more = self.gather(agent, &accesses[i], session, user_id, signer, now);
            let ghost added = more@;
            sources.append(&mut more);
            proof {
                let offers = self@.offers(agent@, upto, all);
                assert forall|k: int| 0 <= k < sources@.len() implies fulfils(
                    #[trigger] sources@[k],
                    offers[k],
                    user_id,
                    opt_signer(signer),
                    now,
                ) by {
                    if k < before.len() {
                        assert(sources@[k] == before[k]);
                    } else {
                        assert(sources@[k] == added[k - before.len()]);
                    }
                }
            }
            i = i + 1;
        }
        assert(accesses@.take(accesses@.len() as int) =~= accesses@);
        let raw = source_names(&sources);
        let ghost offers = self@.offers(agent@, accesses@, all);
        assert(text::texts(raw@) =~= offer_names(offers)) by {
            assert forall|k: int| 0 <= k < raw@.len() implies text::texts(raw@)[k] == offer_names(
                offers,
            )[k] by {
                assert(fulfils(sources@[k], offers[k], user_id, opt_signer(signer), now));
                assert(raw@[k]@ == offers[k].name());
            }
        }
        OfferedTools { names: sanitize::apply(&raw), sources }
    }
}

/// A refused prefix of a request refuses the whole.
proof fn lemma_refusal_stays(
    servers: ServersView,
    agent: Seq<char>,
    accesses: Seq<McpToolAccess>,
    n: int,
)
    requires
        0 <= n <= accesses.len(),
    ensures
        servers.tools_for(agent, accesses.take(n)) is Err ==> servers.tools_for(agent, accesses)
            == servers.tools_for(agent, accesses.take(n)),
    decreases accesses.len(),
{
    if n < accesses.len() {
        lemma_refusal_stays(servers, agent, accesses.drop_last(), n);
        assert(accesses.drop_last().take(n) =~= accesses.take(n));
    } else {
        assert(accesses.take(n) =~= accesses);
    }
}

/// What an access offers does not depend on the other accesses: the offers of a request
/// are those of its first accesses, followed by those of the rest.
pub proof fn law_servers_are_isolated(
    servers: ServersView,
    agent: Seq<char>,
    accesses: Seq<McpToolAccess>,
    sessions: Seq<Option<Result<Vec<String>, McpError>>>,
    n: int,
)
    requires
        0 <= n <= accesses.len(),
        sessions.len() == accesses.len(),
    ensures
        servers.offers(agent, accesses, sessions) == servers.offers(
            agent,
            accesses.take(n),
            sessions.take(n),
        ) + servers.offers(agent, accesses.skip(n), sessions.skip(n)),
    decreases accesses.len(),
{
    let a = servers.offers(agent, accesses.take(n), sessions.take(n));
    if n == accesses.len() {
        assert(accesses.take(n) =~= accesses);
        assert(sessions.take(n) =~= sessions);
        assert(a + Seq::<OfferView>::empty() =~= a);
    } else {
        let front = accesses.drop_last();
        law_servers_are_isolated(servers, agent, front, sessions.drop_last(), n);
        lemma_offers_ignore_later_sessions(servers, agent, front, sessions, sessions.drop_last());
        let tail = accesses.skip(n);
        assert(front.take(n) =~= accesses.take(n));
        assert(sessions.drop_last().take(n) =~= sessions.take(n));
        assert(front.skip(n) =~= tail.drop_last());
        lemma_offers_ignore_later_sessions(
            servers,
            agent,
            tail.drop_last(),
            sessions.skip(n),
            sessions.drop_last().skip(n),
        );
        let last = servers.access_offers(agent, accesses.last(), sessions[accesses.len() - 1]);
        assert(tail.last() == accesses.last());
        assert(sessions.skip(n)[tail.len() - 1] == sessions[accesses.len() - 1]);
        let b = servers.offers(agent, tail.drop_last(), sessions.skip(n));
        assert((a + b) + last =~= a + (b + last));
    }
}

/// Only the sessions of the accesses themselves matter.
proof fn lemma_offers_ignore_later_sessions(
    servers: ServersView,
    agent: Seq<char>,
    accesses: Seq<McpToolAccess>,
    a: Seq<Option<Result<Vec<String>, McpError>>>,
    b: Seq<Option<Result<Vec<String>, McpError>>>,
)
    requires
        forall|i: int| 0 <= i < accesses.len() ==> a[i] == b[i],
    ensures
        servers.offers(agent, accesses, a) == servers.offers(agent, accesses, b),
    decreases accesses.len(),
{
    if accesses.len() > 0 {
        lemma_offers_ignore_later_sessions(servers, agent, accesses.drop_last(), a, b);
    }
}

/// A server that the user has not connected offers exactly one tool where the access
/// names none: the one that connects.
pub proof fn law_unconnected_server_offers_one_sentinel(
    servers: ServersView,
    agent: Seq<char>,
    access: McpToolAccess,
    error: McpError,
)
    requires
        servers.needs_session(access.server@),
        access.only is None,
        error is NotConnected,
        error->NotConnected_server@ == access.server@,
    ensures
        ({
            let offers = servers.access_offers(agent, access, Some(Err(error)));
            offers.len() == 1 && offers[0].name() == "connect_"@ + access.server@
        }),
{
}

/// A server that is not configured is replaced by one placeholder.
pub proof fn law_missing_server_becomes_placeholder(
    servers: ServersView,
    agent: Seq<char>,
    access: McpToolAccess,
    session: Option<Result<Vec<String>, McpError>>,
)
    requires
        !servers.configs.contains_key(access.server@),
    ensures
        ({
            let offers = servers.access_offers(agent, access, session);
            offers.len() == 1 && offers[0].name() == access.server@ + "_unreachable"@
        }),
{
}

/// A server that starts at boot has its tools exactly where it could be connected: another
/// server's failure changes nothing.
pub proof fn law_boot_failures_are_isolated(
    configs: Map<Seq<char>, McpServerConfig>,
    outcomes: Seq<(String, Result<Vec<String>, String>)>,
    name: Seq<char>,
)
    ensures
        connected(configs, outcomes).contains_key(name) <==> starts_at_boot(configs, name)
            && exists|i: int|
            0 <= i < outcomes.len() && (#[trigger] outcomes[i]).0@ == name && outcomes[i].1 is Ok,
        connected(configs, outcomes).contains_key(name) ==> exists|i: int|
            0 <= i < outcomes.len() && (#[trigger] outcomes[i]).0@ == name && outcomes[i].1 == Ok::<
                _,
                String,
            >(connected(configs, outcomes)[name]),
    decreases outcomes.len(),
{
    if outcomes.len() > 0 {
        let front = outcomes.drop_last();
        let last = outcomes.len() - 1;
        law_boot_failures_are_isolated(configs, front, name);
        assert(outcomes[last] == outcomes.last());
        if connected(configs, front).contains_key(name) {
            let i = choose|i: int|
                0 <= i < front.len() && (#[trigger] front[i]).0@ == name && front[i].1 == Ok::<
                    _,
                    String,
                >(connected(configs, front)[name]);
            assert(outcomes[i] == front[i]);
        }
        if starts_at_boot(configs, name) && exists|i: int|
            0 <= i < outcomes.len() && (#[trigger] outcomes[i]).0@ == name && outcomes[i].1 is Ok {
            let i = choose|i: int|
                0 <= i < outcomes.len() && (#[trigger] outcomes[i]).0@ == name
                    && outcomes[i].1 is Ok;
            if i < front.len() {
                assert(front[i] == outcomes[i]);
            }
        }
    }
}

/// An agent is told of a server that could not be connected at boot by a placeholder.
pub proof fn law_failed_boot_becomes_placeholder(
    configs: Map<Seq<char>, McpServerConfig>,
    outcomes: Seq<(String, Result<Vec<String>, String>)>,
    has_user_pool: bool,
    agent: Seq<char>,
    access: McpToolAccess,
)
    requires
        starts_at_boot(configs, access.server@),
        forall|i: int|
            0 <= i < outcomes.len() && (#[trigger] outcomes[i]).0@ == access.server@
                ==> outcomes[i].1 is Err,
    ensures
        (ServersView {
            configs,
            has_user_pool,
            servers: connected(configs, outcomes),
        }).access_offers(agent, access, None) == seq![
            OfferView::Unreachable {
                server: access.server@,
                summary: "server not connected at boot"@,
            },
        ],
{
    law_boot_failures_are_isolated(configs, outcomes, access.server@);
}

/// The tools that an access picks: what it names where it names anything, and else all that
/// the server has.
pub open spec fn wanted(access: McpToolAccess, available: Vec<String>) -> Seq<String> {
    match access.only {
        Some(names) => names@,
        None => available@,
    }
}

/// Every tool that an access names is available.
pub open spec fn all_available(access: McpToolAccess, available: Vec<String>) -> bool {
    access.only matches Some(names) ==> forall|k: int|
        0 <= k < names@.len() ==> text::texts(available@).contains((#[trigger] names@[k])@)
}

proof fn lemma_picked(
    agent: Seq<char>,
    access: McpToolAccess,
    available: Vec<String>,
)
    ensures
        ({
            let got = picked(
                agent,
                access.server@,
                opt_names(access.only),
                text::texts(available@),
            );
            &&& got is Ok <==> all_available(access, available)
            &&& got matches Ok(tools) ==> tools == text::texts(wanted(access, available))
            &&& got matches Err(refusal) ==> refusal matches Refusal::ToolNotFound {
                agent: a,
                server,
                tool,
            } && a == agent && server == access.server@ && access.only is Some && text::texts(
                access.only->0@,
            ).contains(tool) && !text::texts(available@).contains(tool)
        }),
{
    if access.only is Some {
        let names = text::texts(access.only->0@);
        let all = text::texts(available@);
        law_first_missing_is_missing(names, all);
        match first_missing(names, all) {
            Some(tool) => {
                let i = choose|i: int|
                    0 <= i < names.len() && #[trigger] names[i] == tool && !all.contains(tool)
                        && forall|j: int|
                        0 <= j < i ==> all.contains(#[trigger] names[j]);
                assert(access.only->0@[i]@ == tool);
            },
            None => {
                assert forall|k: int| 0 <= k < names.len() implies all.contains(
                    (#[trigger] access.only->0@[k])@,
                ) by {
                    assert(all.contains(names[k]));
                }
            },
        }
    }
}

/// The tools at `from` are live tools of a server, one for each name and in order.
pub open spec fn live_from(
    offers: Seq<OfferView>,
    from: int,
    server: Seq<char>,
    names: Seq<String>,
) -> bool {
    &&& 0 <= from && from + names.len() == offers.len()
    &&& forall|k: int|
        0 <= k < names.len() ==> #[trigger] offers[from + k] == (OfferView::Live {
            server,
            tool: names[k]@,
        })
}

/// One more access gives an agent without a user the tools that it picks, behind those of
/// the others, whatever they are; one that cannot be granted refuses the whole.
pub proof fn law_access_gives_its_tools(
    servers: ServersView,
    agent: Seq<char>,
    accesses: Seq<McpToolAccess>,
    access: McpToolAccess,
)
    ensures
        ({
            let server = access.server@;
            let granted = servers.configs.contains_key(server) && servers.servers.contains_key(
                server,
            ) && all_available(access, servers.servers[server]);
            match servers.tools_for(agent, accesses) {
                Ok(front) => match servers.tools_for(agent, accesses.push(access)) {
                    Ok(offers) => granted && offers.take(front.len() as int) == front && live_from(
                        offers,
                        front.len() as int,
                        server,
                        wanted(access, servers.servers[server]),
                    ),
                    Err(refusal) => !granted && match refusal {
                        Refusal::ServerNotConfigured { agent: a, server: s } => a == agent && s
                            == server && !(servers.configs.contains_key(server)
                            && servers.servers.contains_key(server)),
                        Refusal::ToolNotFound { agent: a, server: s, tool } => a == agent && s
                            == server && !text::texts(servers.servers[server]@).contains(tool),
                    },
                },
                Err(refusal) => servers.tools_for(agent, accesses.push(access)) == Err::<
                    Seq<OfferView>,
                    _,
                >(refusal),
            }
        }),
        servers.tools_for(agent, Seq::empty()) == Ok::<_, Refusal>(Seq::<OfferView>::empty()),
{
    let server = access.server@;
    let more = accesses.push(access);
    assert(more.drop_last() =~= accesses);
    if servers.configs.contains_key(server) && servers.servers.contains_key(server) {
        lemma_picked(agent, access, servers.servers[server]);
    }
    if servers.tools_for(agent, more) is Ok {
        let offers = servers.tools_for(agent, more)->Ok_0;
        let front = servers.tools_for(agent, accesses)->Ok_0;
        assert(offers.take(front.len() as int) =~= front);
    }
}

/// A request with one access offers what that access does, and one with none offers
/// nothing.
pub proof fn law_one_access_offers_its_own(
    servers: ServersView,
    agent: Seq<char>,
    access: McpToolAccess,
    session: Option<Result<Vec<String>, McpError>>,
)
    ensures
        servers.offers(agent, seq![access], seq![session]) == servers.access_offers(
            agent,
            access,
            session,
        ),
        servers.offers(agent, Seq::empty(), Seq::empty()) == Seq::<OfferView>::empty(),
{
    reveal_with_fuel(ServersView::offers, 2);
    assert(seq![access].drop_last() =~= Seq::empty());
    assert(servers.offers(agent, seq![access], seq![session]) =~= servers.access_offers(
        agent,
        access,
        session,
    ));
}

/// The text holds the name of a tool that an access names and that is not available.
pub open spec fn says_what_is_missing(
    said: Seq<char>,
    access: McpToolAccess,
    available: Vec<String>,
) -> bool {
    exists|k: int|
        0 <= k < access.only->0@.len() && text::contains_text(
            said,
            (#[trigger] access.only->0@[k])@,
        ) && !text::texts(available@).contains(access.only->0@[k]@)
}

/// A user gets every tool that an access picks, of a server that is connected for all or for
/// them. Where a tool that is named is missing, one placeholder says which.
pub proof fn law_user_gets_the_picked_tools(
    servers: ServersView,
    agent: Seq<char>,
    access: McpToolAccess,
    session: Option<Result<Vec<String>, McpError>>,
    available: Vec<String>,
)
    requires
        servers.configs.contains_key(access.server@),
        servers.configs[access.server@].oauth is Some ==> servers.has_user_pool && session == Some(
            Ok::<_, McpError>(available),
        ),
        servers.configs[access.server@].oauth is None ==> servers.servers.contains_key(
            access.server@,
        ) && servers.servers[access.server@] == available,
    ensures
        ({
            let offers = servers.access_offers(agent, access, session);
            &&& all_available(access, available) ==> live_from(
                offers,
                0,
                access.server@,
                wanted(access, available),
            )
            &&& !all_available(access, available) ==> offers.len() == 1
                && offers[0] is Unreachable && offers[0]->Unreachable_server == access.server@
                && says_what_is_missing(offers[0]->Unreachable_summary, access, available)
        }),
{
    let server = access.server@;
    lemma_picked(agent, access, available);
    if !all_available(access, available) {
        let refusal = picked(
            agent,
            server,
            opt_names(access.only),
            text::texts(available@),
        )->Err_0;
        let tool = refusal->tool;
        let said = refusal_message(refusal);
        let front = "MCP server '"@ + server + "' does not expose tool '"@;
        text::lemma_middle_stands(front, tool, said.skip((front + tool).len() as int));
        assert(said =~= front + tool + said.skip((front + tool).len() as int));
        assert(text::contains_text(said, tool));
        let offers = servers.access_offers(agent, access, session);
        assert(offers =~= seq![OfferView::Unreachable { server, summary: said }]);
        let named = text::texts(access.only->0@);
        let k = choose|k: int| 0 <= k < named.len() && named[k] == tool;
        assert(access.only->0@[k]@ == tool);
        assert(says_what_is_missing(said, access, available));
    } else {
        let names = wanted(access, available);
        let offers = servers.access_offers(agent, access, session);
        assert(offers == live(server, text::texts(names)));
        assert forall|k: int| 0 <= k < names.len() implies #[trigger] offers[0 + k]
            == (OfferView::Live { server, tool: names[k]@ }) by {
            assert(text::texts(names)[k] == names[k]@);
        }
        assert(live_from(offers, 0, server, names));
    }
}

/// A user who has not connected a server is offered one placeholder for each tool that the
/// access names, under that tool's name; a server that fails otherwise, or cannot be
/// connected for anybody, is replaced by one placeholder.
pub proof fn law_user_is_told_what_is_missing(
    servers: ServersView,
    agent: Seq<char>,
    access: McpToolAccess,
    error: McpError,
)
    requires
        servers.configs.contains_key(access.server@),
        servers.configs[access.server@].oauth is Some,
    ensures
        ({
            let offers = servers.access_offers(agent, access, Some(Err(error)));
            &&& servers.has_user_pool && error is NotConnected ==> (access.only matches Some(names)
                ==> offers.len() == names@.len() && forall|k: int|
                0 <= k < names@.len() ==> (#[trigger] offers[k]) is NotConnected
                    && offers[k].name() == names@[k]@ && offers[k]->NotConnected_server
                    == error->NotConnected_server@)
            &&& servers.has_user_pool && !(error is NotConnected) ==> offers.len() == 1 && offers[0]
                == (OfferView::Unreachable { server: access.server@, summary: error.message() })
            &&& !servers.has_user_pool ==> offers.len() == 1 && offers[0] is Unreachable
                && offers[0]->Unreachable_server == access.server@
        }),
{
}

/// What was gathered is what is offered: a live tool under its server and name, and a
/// placeholder under its own.
pub proof fn law_source_goes_by_the_offered_name(
    source: ToolSource,
    offer: OfferView,
    user_id: UserId,
    signer: Option<SignerView>,
    now: u64,
)
    requires
        fulfils(source, offer, user_id, signer, now),
    ensures
        offer.name() == match source {
            ToolSource::Live(t) => t.tool@,
            ToolSource::NotConnected(t) => t.definition.name@,
            ToolSource::Unreachable(t) => t.definition.name@,
        },
        source is Live <==> offer is Live,
        source is NotConnected <==> offer is NotConnected,
        (source matches ToolSource::Live(t) ==> offer == (OfferView::Live {
            server: t.server@,
            tool: t.tool@,
        })),
        (source matches ToolSource::Unreachable(t) ==> text::contains_text(
            t.message@,
            offer->Unreachable_summary,
        )),
{
    if source is Unreachable {
        crate::mcp::pool::law_placeholders_say_why(
            offer->Unreachable_server,
            offer->Unreachable_summary,
        );
    }
}

/// A refusal is reported as it is: the agent, the server and the tool that it is about.
pub proof fn law_refusal_is_reported(e: McpError, refusal: Refusal)
    requires
        refuses(e, refusal),
    ensures
        match refusal {
            Refusal::ServerNotConfigured { agent, server } => e matches
                McpError::ServerNotConfigured { agent: a, server: s } && a@ == agent && s@
                == server,
            Refusal::ToolNotFound { agent, server, tool } => e matches McpError::ToolNotFound {
                agent: a,
                server: s,
                tool: t,
            } && a@ == agent && s@ == server && t@ == tool,
        },
        e.message() == refusal_message(refusal),
{
}

/// What was gathered answers the offers one by one, each under its own name.
pub proof fn law_every_offer_has_its_source(
    sources: Seq<ToolSource>,
    offers: Seq<OfferView>,
    user_id: UserId,
    signer: Option<SignerView>,
    now: u64,
    i: int,
)
    requires
        all_fulfil(sources, offers, user_id, signer, now),
        0 <= i < offers.len(),
    ensures
        sources.len() == offers.len(),
        offer_names(offers).len() == offers.len(),
        offer_names(offers)[i] == match sources[i] {
            ToolSource::Live(t) => t.tool@,
            ToolSource::NotConnected(t) => t.definition.name@,
            ToolSource::Unreachable(t) => t.definition.name@,
        },
        (offers[i] matches OfferView::Live { server, tool } ==> (sources[i] matches
            ToolSource::Live(t) && t.server@ == server && t.tool@ == tool)),
        (offers[i] matches OfferView::NotConnected { server, .. } ==> (sources[i] matches
            ToolSource::NotConnected(t) && is_connect_message(
            server,
            user_id,
            signer,
            now,
            t.message@,
        ))),
{
    assert(fulfils(sources[i], offers[i], user_id, signer, now));
    law_source_goes_by_the_offered_name(sources[i], offers[i], user_id, signer, now);
}

/// A server needs a user exactly where it is configured with OAuth, and a session of its
/// user where the program can hold one.
pub proof fn law_oauth_servers_need_a_user(servers: ServersView, server: Seq<char>)
    ensures
        servers.needs_user(server) <==> servers.configs.contains_key(server)
            && servers.configs[server].oauth is Some,
        servers.needs_session(server) <==> servers.needs_user(server) && servers.has_user_pool,
{
}

} // verus!
