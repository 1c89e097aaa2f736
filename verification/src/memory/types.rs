//! Messages, memories, and how many tokens they take.
use vstd::prelude::*;

use crate::floats::Single;
use crate::ids::{self, MessageId, UserId};
use crate::providers::conversation::{Message, MessageView, Role};
use crate::seqs;
use crate::text;

verus! {

/// A memory's identifier.
#[derive(Clone, Copy, Debug, PartialEq, Eq, Structural, Hash)]
pub struct MemoryId(pub u128);

impl MemoryId {
    /// A fresh random identifier.
    pub fn new() -> (r: Self)
        ensures
            ids::is_random_uuid(r.0),
    {
        MemoryId(ids::random_uuid())
    }
}

/// A number of tokens.
#[derive(Clone, Copy, Debug, PartialEq, Eq, Structural, PartialOrd, Ord, Default)]
pub struct TokenCount(pub u32);

/// The tokens that memories and history may take, unless configured otherwise.
pub const DEFAULT_CONTEXT_BUDGET: u32 = 8000;

/// About how many tokens a text of a length takes: one for every four characters, and
/// one more.
pub open spec fn estimated(len: nat) -> u32 {
    ((if len > u32::MAX {
        u32::MAX as nat
    } else {
        len
    }) / 4 + 1) as u32
}

/// `a + b`, or the largest count.
pub open spec fn saturating_sum(a: u32, b: u32) -> u32 {
    if a + b > u32::MAX {
        u32::MAX
    } else {
        (a + b) as u32
    }
}

/// How many of the first costs fit in what a budget leaves over `used`: they are taken as
/// long as the sum does not exceed the budget.
pub open spec fn fit_count(costs: Seq<u32>, budget: u32, used: u32) -> nat
    decreases costs.len(),
{
    if costs.len() == 0 || saturating_sum(used, costs[0]) > budget {
        0
    } else {
        1 + fit_count(costs.drop_first(), budget, saturating_sum(used, costs[0]))
    }
}

/// The sum of some costs.
pub open spec fn total(costs: Seq<u32>) -> nat
    decreases costs.len(),
{
    if costs.len() == 0 {
        0
    } else {
        total(costs.drop_last()) + costs.last() as nat
    }
}

/// What memories cost.
pub open spec fn memory_costs(memories: Seq<MemoryView>) -> Seq<u32> {
    memories.map_values(|m: MemoryView| estimated(m.content.len()))
}

/// What messages cost, the last first.
pub open spec fn costs_backwards(messages: Seq<StoredMessage>) -> Seq<u32> {
    Seq::new(messages.len(), |i: int| messages[messages.len() - 1 - i].token_count.0)
}

/// The messages as a provider takes them.
pub open spec fn as_messages(messages: Seq<StoredMessage>) -> Seq<MessageView> {
    messages.map_values(|m: StoredMessage| MessageView { content: m.content@, role: m.role })
}

impl TokenCount {
    /// About how many tokens a text takes.
    pub fn estimate(text: &str) -> (r: Self)
        ensures
            r.0 == estimated(text@.len()),
    {
        let len: usize = text::chars_of(text).len();
        let chars: u64 = len as u64;
        let capped: u32 = if chars > u32::MAX as u64 {
            u32::MAX
        } else {
            chars as u32
        };
        TokenCount(capped / 4 + 1)
    }

    /// The sum, or the largest count.
    pub fn saturating_add(self, rhs: Self) -> (r: Self)
        ensures
            r.0 == saturating_sum(self.0, rhs.0),
    {
        if self.0 > u32::MAX - rhs.0 {
            TokenCount(u32::MAX)
        } else {
            TokenCount(self.0 + rhs.0)
        }
    }

    /// The difference, or zero.
    pub fn saturating_sub(self, rhs: Self) -> (r: Self)
        ensures
            r.0 == if self.0 >= rhs.0 {
                self.0 - rhs.0
            } else {
                0
            },
    {
        if self.0 >= rhs.0 {
            TokenCount(self.0 - rhs.0)
        } else {
            TokenCount(0)
        }
    }

    /// The first memories, as many as fit in this budget, in order.
    pub fn fit_memories(self, recalled: Vec<Memory>) -> (r: Vec<Memory>)
        ensures
            seqs::views(r@) == seqs::views(recalled@).take(
                fit_count(memory_costs(seqs::views(recalled@)), self.0, 0) as int,
            ),
            fit_count(memory_costs(seqs::views(recalled@)), self.0, 0) <= recalled@.len(),
    {
        let ghost all = seqs::views(recalled@);
        let ghost costs = memory_costs(all);
        let mut used = TokenCount(0);
        let mut out: Vec<Memory> = Vec::new();
        let mut i: usize = 0;
        assert(costs.skip(0) =~= costs);
        assert(seqs::views(out@) =~= all.take(0));
        while i < recalled.len()
            invariant
                i <= recalled@.len(),
                all == seqs::views(recalled@),
                costs == memory_costs(all),
                fit_count(costs, self.0, 0) == i + fit_count(
                    costs.skip(i as int),
                    self.0,
                    used.0,
                ),
                seqs::views(out@) == all.take(i as int),
            decreases recalled@.len() - i,
        {
            let cost = TokenCount::estimate(recalled[i].content.as_str());
            let sum = used.saturating_add(cost);
            proof {
                assert(costs.skip(i as int)[0] == cost.0);
                assert(costs.skip(i as int).drop_first() =~= costs.skip(i + 1));
            }
            if sum.0 > self.0 {
                return out;
            }
            used = sum;
            let ghost before = seqs::views(out@);
            let copy = recalled[i].clone();
            out.push(copy);
            assert(seqs::views(out@) =~= before.push(copy@));
            assert(all.take(i + 1) =~= before.push(copy@));
            i = i + 1;
        }
        out
    }

    /// The last messages, as many as fit in this budget, in the order in which they were
    /// said.
    pub fn fit_messages(self, messages: &[StoredMessage]) -> (r: Vec<Message>)
        ensures
            fit_count(costs_backwards(messages@), self.0, 0) <= messages@.len(),
            seqs::views(r@) == as_messages(
                messages@.skip(
                    messages@.len() - fit_count(costs_backwards(messages@), self.0, 0),
                ),
            ),
    {
        let ghost costs = costs_backwards(messages@);
        let len: usize = messages.len();
        let mut used = TokenCount(0);
        let mut taken: usize = 0;
        let mut full = false;
        assert(costs.skip(0) =~= costs);
        while taken < len && !full
            invariant
                taken <= len == messages@.len(),
                costs == costs_backwards(messages@),
                !full ==> fit_count(costs, self.0, 0) == taken + fit_count(
                    costs.skip(taken as int),
                    self.0,
                    used.0,
                ),
                full ==> fit_count(costs, self.0, 0) == taken,
            decreases len - taken,
                if full {
                    0int
                } else {
                    1
                },
        {
            let sum = used.saturating_add(messages[len - 1 - taken].token_count);
            proof {
                assert(costs.skip(taken as int)[0] == messages@[len - 1 - taken].token_count.0);
                assert(costs.skip(taken as int).drop_first() =~= costs.skip(taken + 1));
            }
            if sum.0 > self.0 {
                full = true;
            } else {
                used = sum;
                taken = taken + 1;
            }
        }
        let mut out: Vec<Message> = Vec::new();
        let mut i: usize = len - taken;
        let ghost start = i as int;
        assert(taken == fit_count(costs, self.0, 0));
        assert(seqs::views(out@) =~= as_messages(messages@.subrange(start, start)));
        while i < len
            invariant
                start <= i <= len == messages@.len(),
                start >= 0,
                seqs::views(out@) == as_messages(messages@.subrange(start, i as int)),
            decreases len - i,
        {
            let ghost before = seqs::views(out@);
            let message = messages[i].as_message();
            out.push(message);
            assert(seqs::views(out@) =~= before.push(message@));
            assert(as_messages(messages@.subrange(start, i + 1)) =~= before.push(message@));
            i = i + 1;
        }
        assert(messages@.subrange(start, len as int) =~= messages@.skip(start));
        out
    }
}

/// A message of a user's conversation.
#[derive(Debug)]
pub struct StoredMessage {
    pub content: String,
    pub created_at: u64,
    pub id: MessageId,
    pub role: Role,
    pub token_count: TokenCount,
    pub user_id: UserId,
}

impl Clone for StoredMessage {
    fn clone(&self) -> (r: Self)
        ensures
            r == *self,
    {
        StoredMessage {
            content: self.content.clone(),
            created_at: self.created_at,
            id: self.id,
            role: self.role,
            token_count: self.token_count,
            user_id: self.user_id,
        }
    }
}

/// A message as it is stored when it is said.
pub open spec fn is_message_said(
    m: StoredMessage,
    user_id: UserId,
    role: Role,
    content: String,
    now: u64,
) -> bool {
    &&& m.content == content
    &&& m.created_at == now
    &&& m.role == role
    &&& m.token_count.0 == estimated(content@.len())
    &&& m.user_id == user_id
}

impl StoredMessage {
    /// A message that is said at a moment.
    pub fn new(user_id: UserId, role: Role, content: String, now: u64) -> (r: Self)
        ensures
            is_message_said(r, user_id, role, content, now),
            ids::is_random_uuid(r.id.0),
    {
        StoredMessage::new_with_id(user_id, role, content, MessageId::new(), now)
    }

    /// A message that is said at a moment, under a given identifier.
    pub fn new_with_id(
        user_id: UserId,
        role: Role,
        content: String,
        id: MessageId,
        now: u64,
    ) -> (r: Self)
        ensures
            is_message_said(r, user_id, role, content, now),
            r.id == id,
    {
        let token_count = TokenCount::estimate(content.as_str());
        StoredMessage { content, created_at: now, id, role, token_count, user_id }
    }

    /// The message as a provider takes it.
    pub fn as_message(&self) -> (r: Message)
        ensures
            r.content@ == self.content@,
            r.role == self.role,
    {
        Message { content: self.content.clone(), role: self.role }
    }
}

/// What kind of thing is remembered.
#[derive(Clone, Copy, Debug, PartialEq, Eq, Structural)]
pub enum MemoryKind {
    Fact,
    Preference,
}

/// The word for a kind.
pub open spec fn kind_word(kind: MemoryKind) -> Seq<char> {
    match kind {
        MemoryKind::Fact => "fact"@,
        MemoryKind::Preference => "preference"@,
    }
}

/// The kind that a word stands for.
pub open spec fn kind_named(s: Seq<char>) -> Option<MemoryKind> {
    if s == "fact"@ {
        Some(MemoryKind::Fact)
    } else if s == "preference"@ {
        Some(MemoryKind::Preference)
    } else {
        None
    }
}

/// A word that stands for no kind.
#[derive(Debug)]
pub struct UnknownMemoryKind(pub String);

impl UnknownMemoryKind {
    /// What the error says.
    pub fn to_text(&self) -> (r: String)
        ensures
            r@ == "unknown memory kind '"@ + self.0@ + "'"@,
    {
        let mut out = String::from_str("unknown memory kind '");
        out.append(self.0.as_str());
        out.append("'");
        out
    }
}

impl MemoryKind {
    /// The word for the kind.
    pub fn as_str(self) -> (r: &'static str)
        ensures
            r@ == kind_word(self),
    {
        match self {
            MemoryKind::Fact => "fact",
            MemoryKind::Preference => "preference",
        }
    }

    /// The kind that a word stands for.
    pub fn parse(s: &str) -> (r: Result<Self, UnknownMemoryKind>)
        ensures
            match r {
                Ok(kind) => kind_named(s@) == Some(kind),
                Err(e) => kind_named(s@) is None && e.0@ == s@,
            },
    {
        if text::str_eq(s, "fact") {
            Ok(MemoryKind::Fact)
        } else if text::str_eq(s, "preference") {
            Ok(MemoryKind::Preference)
        } else {
            Err(UnknownMemoryKind(String::from_str(s)))
        }
    }
}

/// Something remembered of a user.
#[derive(Debug)]
pub struct Memory {
    pub content: String,
    pub created_at: u64,
    pub embedding: Vec<Single>,
    pub id: MemoryId,
    pub kind: MemoryKind,
    pub user_id: UserId,
}

/// `Memory`, with lists as sequences.
pub struct MemoryView {
    pub content: Seq<char>,
    pub created_at: u64,
    pub embedding: Seq<Single>,
    pub id: MemoryId,
    pub kind: MemoryKind,
    pub user_id: UserId,
}

impl View for Memory {
    type V = MemoryView;

    open spec fn view(&self) -> MemoryView {
        MemoryView {
            content: self.content@,
            created_at: self.created_at,
            embedding: self.embedding@,
            id: self.id,
            kind: self.kind,
            user_id: self.user_id,
        }
    }
}

impl Clone for Memory {
    fn clone(&self) -> (r: Self)
        ensures
            r@ == self@,
    {
        let mut embedding: Vec<Single> = Vec::new();
        let mut i: usize = 0;
        while i < self.embedding.len()
            invariant
                i <= self.embedding@.len(),
                embedding@ == self.embedding@.take(i as int),
            decreases self.embedding@.len() - i,
        {
            embedding.push(self.embedding[i]);
            assert(embedding@ =~= self.embedding@.take(i + 1));
            i = i + 1;
        }
        assert(embedding@ =~= self.embedding@);
        Memory {
            content: self.content.clone(),
            created_at: self.created_at,
            embedding,
            id: self.id,
            kind: self.kind,
            user_id: self.user_id,
        }
    }
}

impl Memory {
    /// Something that is remembered at a moment.
    pub fn new(
        user_id: UserId,
        kind: MemoryKind,
        content: String,
        embedding: Vec<Single>,
        now: u64,
    ) -> (r: Self)
        ensures
            r.content == content,
            r.created_at == now,
            r.embedding == embedding,
            ids::is_random_uuid(r.id.0),
            r.kind == kind,
            r.user_id == user_id,
    {
        Memory { content, created_at: now, embedding, id: MemoryId::new(), kind, user_id }
    }
}

/// The word for a kind is read back as the kind, and no other word is.
pub proof fn law_memory_kinds_round_trip(kind: MemoryKind, s: Seq<char>)
    ensures
        kind_named(kind_word(kind)) == Some(kind),
        kind_named(s) == Some(kind) ==> s == kind_word(kind),
{
    reveal_strlit("fact");
    reveal_strlit("preference");
    assert("fact"@.len() == 4 && "preference"@.len() == 10);
}

/// The sum of the first costs, taken from the front.
proof fn lemma_total_first(costs: Seq<u32>, n: int)
    requires
        0 < n <= costs.len(),
    ensures
        total(costs.take(n)) == costs[0] + total(costs.drop_first().take(n - 1)),
    decreases n,
{
    assert(costs.take(n).drop_last() =~= costs.take(n - 1));
    if n == 1 {
        assert(costs.take(0) =~= Seq::empty());
        assert(costs.drop_first().take(0) =~= Seq::empty());
    } else {
        lemma_total_first(costs, n - 1);
        let rest = costs.drop_first();
        assert(rest.take(n - 1).drop_last() =~= rest.take(n - 2));
        assert(rest.take(n - 1).last() == costs[n - 1]);
    }
}

proof fn lemma_fit_within(costs: Seq<u32>, budget: u32, used: u32)
    requires
        used <= budget,
        budget < u32::MAX,
    ensures
        fit_count(costs, budget, used) <= costs.len(),
        used + total(costs.take(fit_count(costs, budget, used) as int)) <= budget,
    decreases costs.len(),
{
    let n = fit_count(costs, budget, used);
    if n > 0 {
        let next = saturating_sum(used, costs[0]);
        lemma_fit_within(costs.drop_first(), budget, next);
        lemma_total_first(costs, n as int);
    } else {
        assert(costs.take(0) =~= Seq::empty());
    }
}

proof fn lemma_fit_maximal(costs: Seq<u32>, budget: u32, used: u32)
    ensures
        fit_count(costs, budget, used) < costs.len() ==> used + total(
            costs.take(fit_count(costs, budget, used) as int + 1),
        ) > budget,
    decreases costs.len(),
{
    let n = fit_count(costs, budget, used);
    if n < costs.len() {
        lemma_total_first(costs, n as int + 1);
        if n > 0 {
            let next = saturating_sum(used, costs[0]);
            lemma_fit_maximal(costs.drop_first(), budget, next);
        } else {
            assert(costs.drop_first().take(0) =~= Seq::empty());
        }
    }
}

/// What is taken keeps to the budget, and nothing more could have been taken. The largest
/// budget of all is left out: there the sum stops growing before it exceeds it.
pub proof fn law_fit_keeps_to_budget(costs: Seq<u32>, budget: u32)
    requires
        budget < u32::MAX,
    ensures
        fit_count(costs, budget, 0) <= costs.len(),
        total(costs.take(fit_count(costs, budget, 0) as int)) <= budget,
        fit_count(costs, budget, 0) < costs.len() ==> total(
            costs.take(fit_count(costs, budget, 0) as int + 1),
        ) > budget,
{
    lemma_fit_within(costs, budget, 0);
    lemma_fit_maximal(costs, budget, 0);
}

} // verus!
