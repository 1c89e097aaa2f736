//! The administrator's pages on conversations.
use vstd::prelude::*;

use crate::display;
use crate::ids::{self, UserId};
use crate::memory::store::{role_str, role_word, ConversationSummary};
use crate::memory::types::{kind_word, Memory, StoredMessage};
use crate::providers::conversation::Role;
use crate::text;

verus! {

/// Why a request was refused.
#[derive(Debug)]
pub enum AdminError {
    InvalidUserId,
    Memory(String),
    Render(String),
}

impl AdminError {
    /// What the answer says.
    pub open spec fn message(&self) -> Seq<char> {
        match self {
            AdminError::InvalidUserId => "user_id must be a valid UUID"@,
            AdminError::Memory(m) => m@,
            AdminError::Render(m) => m@,
        }
    }

    /// What the answer says.
    pub fn to_text(&self) -> (r: String)
        ensures
            r@ == self.message(),
    {
        match self {
            AdminError::InvalidUserId => String::from_str("user_id must be a valid UUID"),
            AdminError::Memory(m) => m.clone(),
            AdminError::Render(m) => m.clone(),
        }
    }

    /// The status of the answer.
    pub fn status(&self) -> (r: u16)
        ensures
            r == if self is InvalidUserId {
                400u16
            } else {
                500u16
            },
    {
        match self {
            AdminError::InvalidUserId => 400,
            _ => 500,
        }
    }
}

/// The user that a path names.
pub fn parse_user_id(raw: &str) -> (r: Result<UserId, AdminError>)
    ensures
        match r {
            Ok(id) => ids::uuid_of(raw@) == Some(id.0),
            Err(e) => e is InvalidUserId && ids::uuid_of(raw@) is None,
        },
{
    match UserId::parse(raw) {
        Some(id) => Ok(id),
        None => Err(AdminError::InvalidUserId),
    }
}

/// A conversation on an agent's page.
#[derive(Debug)]
pub struct AgentConversationRow {
    pub last_activity_at: String,
    pub message_count: u32,
    pub user_id: String,
    pub user_id_short: String,
}

impl AgentConversationRow {
    /// The row shows a conversation at a moment.
    pub open spec fn shows(&self, s: ConversationSummary, now: u64) -> bool {
        &&& self.last_activity_at@ == display::ago(s.last_message_at, now)
        &&& self.message_count == s.message_count
        &&& self.user_id@ == ids::uuid_text(s.user_id.0)
        &&& self.user_id_short@ == ids::uuid_text(s.user_id.0).take(8) + "…"@
    }

    /// The row of a conversation at a moment.
    pub fn from_summary(s: &ConversationSummary, now: u64) -> (r: Self)
        ensures
            r.shows(*s, now),
    {
        let full = s.user_id.to_text();
        let chars = text::chars_of(full.as_str());
        let mut short = text::string_between(&chars, 0, 8);
        assert(short@ =~= full@.take(8));
        short.append("…");
        AgentConversationRow {
            last_activity_at: display::relative_time(s.last_message_at, now),
            message_count: s.message_count,
            user_id: full,
            user_id_short: short,
        }
    }
}

/// How many conversations an agent's page shows.
pub const RECENT_CONVERSATIONS: usize = 10;

/// The conversations on an agent's page: the first ten.
pub fn recent_conversations(summaries: &Vec<ConversationSummary>, now: u64) -> (r: Vec<
    AgentConversationRow,
>)
    ensures
        r@.len() == if summaries@.len() < RECENT_CONVERSATIONS {
            summaries@.len() as int
        } else {
            RECENT_CONVERSATIONS as int
        },
        forall|i: int| 0 <= i < r@.len() ==> (#[trigger] r@[i]).shows(summaries@[i], now),
{
    let mut out: Vec<AgentConversationRow> = Vec::new();
    let mut i: usize = 0;
    while i < summaries.len() && i < RECENT_CONVERSATIONS
        invariant
            i <= summaries@.len(),
            i <= RECENT_CONVERSATIONS,
            out@.len() == i,
            forall|j: int| 0 <= j < i ==> (#[trigger] out@[j]).shows(summaries@[j], now),
        decreases summaries@.len() - i,
    {
        out.push(AgentConversationRow::from_summary(&summaries[i], now));
        i = i + 1;
    }
    out
}

/// A conversation in the list of conversations.
#[derive(Debug)]
pub struct ConversationRow {
    pub duration: String,
    pub last_activity_at: String,
    pub message_count: u32,
    pub total_tokens: String,
    pub user_id: String,
}

impl ConversationRow {
    /// The row of a conversation at a moment.
    pub fn from_summary(s: &ConversationSummary, now: u64) -> (r: Self)
        ensures
            r.duration@ == display::span(s.first_message_at, s.last_message_at),
            r.last_activity_at@ == display::ago(s.last_message_at, now),
            r.message_count == s.message_count,
            r.total_tokens@ == display::grouped(text::decimal(s.total_tokens as nat), 0),
            r.user_id@ == ids::uuid_text(s.user_id.0),
    {
        ConversationRow {
            duration: display::format_duration(s.first_message_at, s.last_message_at),
            last_activity_at: display::relative_time(s.last_message_at, now),
            message_count: s.message_count,
            total_tokens: display::format_tokens(s.total_tokens),
            user_id: s.user_id.to_text(),
        }
    }
}

/// A message on the page of a conversation.
#[derive(Debug)]
pub struct MessageRow {
    pub content: String,
    pub created_at: String,
    pub id: String,
    pub is_assistant: bool,
    pub role_label: &'static str,
    pub role_tone: &'static str,
    pub token_count: u32,
}

/// The colours of a role.
pub open spec fn role_tone(role: Role) -> Seq<char> {
    match role {
        Role::Assistant => "bg-indigo-950/40 border-indigo-900/60"@,
        Role::System => "bg-slate-950/60 border-slate-800"@,
        Role::User => "bg-slate-900 border-slate-800"@,
    }
}

impl MessageRow {
    /// The row shows a message at a moment.
    pub open spec fn shows(&self, m: StoredMessage, now: u64) -> bool {
        &&& self.content@ == m.content@
        &&& self.created_at@ == display::ago(m.created_at, now)
        &&& self.id@ == ids::uuid_text(m.id.0)
        &&& self.is_assistant == (m.role == Role::Assistant)
        &&& self.role_label@ == role_word(m.role)
        &&& self.role_tone@ == role_tone(m.role)
        &&& self.token_count == m.token_count.0
    }
}

/// The messages on the page of a conversation.
pub fn message_rows(messages: &Vec<StoredMessage>, now: u64) -> (r: Vec<MessageRow>)
    ensures
        r@.len() == messages@.len(),
        forall|i: int| 0 <= i < r@.len() ==> (#[trigger] r@[i]).shows(messages@[i], now),
{
    let mut out: Vec<MessageRow> = Vec::new();
    let mut i: usize = 0;
    while i < messages.len()
        invariant
            i <= messages@.len(),
            out@.len() == i,
            forall|j: int| 0 <= j < i ==> (#[trigger] out@[j]).shows(messages@[j], now),
        decreases messages@.len() - i,
    {
        let m: &StoredMessage = &messages[i];
        let role_tone = match m.role {
            Role::Assistant => "bg-indigo-950/40 border-indigo-900/60",
            Role::System => "bg-slate-950/60 border-slate-800",
            Role::User => "bg-slate-900 border-slate-800",
        };
        let is_assistant = match m.role {
            Role::Assistant => true,
            _ => false,
        };
        out.push(
            MessageRow {
                content: m.content.clone(),
                created_at: display::relative_time(m.created_at, now),
                id: ids::format_uuid(m.id.0),
                is_assistant,
                role_label: role_str(m.role),
                role_tone,
                token_count: m.token_count.0,
            },
        );
        i = i + 1;
    }
    out
}

/// A memory on the page of a conversation.
#[derive(Debug)]
pub struct MemoryRow {
    pub content: String,
    pub created_at: String,
    pub kind_label: &'static str,
}

impl MemoryRow {
    /// The row of a memory at a moment.
    pub fn from_memory(m: &Memory, now: u64) -> (r: Self)
        ensures
            r.content@ == m.content@,
            r.created_at@ == display::ago(m.created_at, now),
            r.kind_label@ == kind_word(m.kind),
    {
        MemoryRow {
            content: m.content.clone(),
            created_at: display::relative_time(m.created_at, now),
            kind_label: m.kind.as_str(),
        }
    }
}

/// A message is shown as it was said: its text, its identifier, its tokens, who said it, and
/// how long ago.
pub proof fn law_message_is_shown_as_said(row: MessageRow, m: StoredMessage, now: u64)
    requires
        row.shows(m, now),
    ensures
        row.content@ == m.content@,
        row.id@ == ids::uuid_text(m.id.0),
        row.token_count == m.token_count.0,
        row.is_assistant <==> m.role is Assistant,
        row.role_label@ == role_word(m.role),
        row.role_tone@ == role_tone(m.role),
        row.created_at@ == display::ago(m.created_at, now),
{
}

/// A conversation on an agent's page stands under its user, with its messages and its last
/// activity.
pub proof fn law_conversation_is_shown_under_its_user(
    row: AgentConversationRow,
    s: ConversationSummary,
    now: u64,
)
    requires
        row.shows(s, now),
    ensures
        row.user_id@ == ids::uuid_text(s.user_id.0),
        row.message_count == s.message_count,
        row.last_activity_at@ == display::ago(s.last_message_at, now),
        text::starts_with_text(row.user_id_short@, ids::uuid_text(s.user_id.0).take(8)),
{
    let short = ids::uuid_text(s.user_id.0).take(8);
    assert(row.user_id_short@.take(short.len() as int) =~= short);
}

} // verus!
