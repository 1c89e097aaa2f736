//! The store of messages and memories, in which users do not see one another.
use vstd::prelude::*;

use crate::floats::{single, Single};
use crate::ids::{self, MessageId, UserId};
use crate::memory::error::MemoryError;
use crate::memory::types::{
    as_messages, costs_backwards, estimated, fit_count, is_message_said, kind_named, kind_word,
    memory_costs, total, Memory, MemoryId, MemoryKind, MemoryView, StoredMessage, TokenCount,
};
use crate::numbers;
use crate::providers::conversation::{Message, Role};
use crate::seqs;
use crate::text;

verus! {

/// A memory, with the name of the embedder that made its vector.
#[derive(Debug)]
pub struct MemoryRecord {
    pub memory: Memory,
    pub model: String,
}

/// `MemoryRecord`, with lists as sequences.
pub struct MemoryRecordView {
    pub memory: MemoryView,
    pub model: Seq<char>,
}

impl View for MemoryRecord {
    type V = MemoryRecordView;

    open spec fn view(&self) -> MemoryRecordView {
        MemoryRecordView { memory: self.memory@, model: self.model@ }
    }
}

/// The messages of a user, in order.
pub open spec fn messages_of(messages: Seq<StoredMessage>, user_id: UserId) -> Seq<StoredMessage> {
    messages.filter(|m: StoredMessage| m.user_id == user_id)
}

/// The memory of a record, if it is a user's and its vector was made by an embedder;
/// whichever embedder it was where none is asked for.
pub open spec fn memory_of(
    record: MemoryRecordView,
    user_id: UserId,
    model: Option<Seq<char>>,
) -> Option<MemoryView> {
    if record.memory.user_id == user_id && (model is None || model->0 == record.model) {
        Some(record.memory)
    } else {
        None
    }
}

/// The memories of a user, in order; those whose vectors an embedder made, where one is
/// asked for.
pub open spec fn memories_of(
    records: Seq<MemoryRecordView>,
    user_id: UserId,
    model: Option<Seq<char>>,
) -> Seq<MemoryView> {
    seqs::somes(records.map_values(|r: MemoryRecordView| memory_of(r, user_id, model)))
}

/// All messages and memories, and the name of the embedder in use.
#[derive(Debug)]
pub struct Store {
    memories: Vec<MemoryRecord>,
    messages: Vec<StoredMessage>,
    model: String,
}

/// The error says which length a vector should have and which it has.
pub open spec fn is_mismatch(e: MemoryError, expected: usize, len: nat) -> bool {
    e matches MemoryError::DimensionMismatch { expected: x, got } && x == expected && got == len
}

/// The vector has the length that the embedder's vectors have.
pub fn check_dims(vector: &Vec<Single>, expected: usize) -> (r: Result<(), MemoryError>)
    ensures
        match r {
            Ok(()) => vector@.len() == expected,
            Err(e) => vector@.len() != expected && is_mismatch(e, expected, vector@.len()),
        },
{
    let got: usize = vector.len();
    if got != expected {
        return Err(MemoryError::DimensionMismatch { expected, got });
    }
    Ok(())
}

impl Store {
    /// All messages, in the order in which they were said.
    pub closed spec fn all_messages(&self) -> Seq<StoredMessage> {
        self.messages@
    }

    /// All memories, in the order in which they were made.
    pub closed spec fn all_memories(&self) -> Seq<MemoryRecordView> {
        seqs::views(self.memories@)
    }

    /// The name of the embedder in use.
    pub closed spec fn model(&self) -> Seq<char> {
        self.model@
    }

    /// What a user has said and was told.
    pub open spec fn messages_for(&self, user_id: UserId) -> Seq<StoredMessage> {
        messages_of(self.all_messages(), user_id)
    }

    /// What is remembered of a user.
    pub open spec fn memories_for(&self, user_id: UserId) -> Seq<MemoryView> {
        memories_of(self.all_memories(), user_id, None)
    }

    /// What can be recalled of a user: what the embedder in use made a vector of.
    pub open spec fn recallable_for(&self, user_id: UserId) -> Seq<MemoryView> {
        memories_of(self.all_memories(), user_id, Some(self.model()))
    }

    /// An empty store.
    pub fn new(model: String) -> (r: Self)
        ensures
            r.all_messages() == Seq::<StoredMessage>::empty(),
            r.all_memories() == Seq::<MemoryRecordView>::empty(),
            r.model() == model@,
    {
        let store = Store { memories: Vec::new(), messages: Vec::new(), model };
        assert(store.all_memories() =~= Seq::empty());
        store
    }

    /// A store with what was read of it.
    pub fn restore(
        messages: Vec<StoredMessage>,
        memories: Vec<MemoryRecord>,
        model: String,
    ) -> (r: Self)
        ensures
            r.all_messages() == messages@,
            r.all_memories() == seqs::views(memories@),
            r.model() == model@,
    {
        Store { memories, messages, model }
    }

    /// Adds a message to a user's conversation, under the given identifier or a fresh one.
    pub fn append_message(
        &mut self,
        user_id: UserId,
        role: Role,
        content: String,
        id: Option<MessageId>,
        now: u64,
    ) -> (r: MessageId)
        ensures
            final(self).model() == old(self).model(),
            final(self).all_memories() == old(self).all_memories(),
            final(self).all_messages().len() == old(self).all_messages().len() + 1,
            final(self).all_messages().drop_last() == old(self).all_messages(),
            is_message_said(final(self).all_messages().last(), user_id, role, content, now),
            final(self).all_messages().last().id == r,
            match id {
                Some(id) => r == id,
                None => ids::is_random_uuid(r.0),
            },
            final(self).messages_for(user_id) == old(self).messages_for(user_id).push(
                final(self).all_messages().last(),
            ),
            forall|other: UserId|
                other != user_id ==> #[trigger] final(self).messages_for(other) == old(
                    self,
                ).messages_for(other),
    {
        let ghost before = self.messages@;
        let message = match id {
            Some(id) => StoredMessage::new_with_id(user_id, role, content, id, now),
            None => StoredMessage::new(user_id, role, content, now),
        };
        let stored: MessageId = message.id;
        self.messages.push(message);
        proof {
            let after = self.messages@;
            assert(after.drop_last() =~= before);
            assert forall|u: UserId| #[trigger] messages_of(after, u) == if u == user_id {
                messages_of(before, u).push(message)
            } else {
                messages_of(before, u)
            } by {
                seqs::lemma_filter_step(
                    after,
                    |m: StoredMessage| m.user_id == u,
                    before.len() as int,
                );
                assert(after.take(before.len() as int) =~= before);
                assert(after.take(before.len() as int + 1) =~= after);
            }
            assert forall|u: UserId| u != user_id implies #[trigger] self.messages_for(u)
                == messages_of(before, u) by {
                assert(self.messages_for(u) == messages_of(after, u));
            }
            assert(self.messages_for(user_id) == messages_of(after, user_id));
        }
        stored
    }

    /// A user's conversation, in the order in which it was held.
    pub fn messages(&self, user_id: UserId) -> (r: Vec<StoredMessage>)
        ensures
            r@ == self.messages_for(user_id),
    {
        let ghost all = self.messages@;
        let ghost is_own = |m: StoredMessage| m.user_id == user_id;
        let mut out: Vec<StoredMessage> = Vec::new();
        let mut i: usize = 0;
        proof {
            reveal(Seq::filter);
            assert(all.take(0).filter(is_own) =~= Seq::empty());
        }
        while i < self.messages.len()
            invariant
                i <= self.messages@.len(),
                all == self.messages@,
                is_own == (|m: StoredMessage| m.user_id == user_id),
                out@ == all.take(i as int).filter(is_own),
            decreases self.messages@.len() - i,
        {
            proof {
                seqs::lemma_filter_step(all, is_own, i as int);
            }
            if self.messages[i].user_id == user_id {
                out.push(self.messages[i].clone());
            }
            i = i + 1;
        }
        assert(all.take(i as int) =~= all);
        out
    }

    /// How many messages a user's conversation has.
    pub fn message_count(&self, user_id: UserId) -> (r: usize)
        ensures
            r == self.messages_for(user_id).len(),
    {
        self.messages(user_id).len()
    }

    /// What is remembered of a user, in the order in which it was.
    pub fn memories(&self, user_id: UserId) -> (r: Vec<Memory>)
        ensures
            seqs::views(r@) == self.memories_for(user_id),
    {
        self.select_memories(user_id, false)
    }

    /// How much is remembered of a user.
    pub fn memory_count(&self, user_id: UserId) -> (r: usize)
        ensures
            r == self.memories_for(user_id).len(),
    {
        let memories = self.memories(user_id);
        assert(seqs::views(memories@).len() == memories@.len());
        memories.len()
    }

    /// What can be recalled of a user, in the order in which it was remembered. Vectors
    /// that another embedder made are passed over.
    pub fn load_memories(&self, user_id: UserId) -> (r: Vec<Memory>)
        ensures
            seqs::views(r@) == self.recallable_for(user_id),
    {
        self.select_memories(user_id, true)
    }

    fn select_memories(&self, user_id: UserId, recallable: bool) -> (r: Vec<Memory>)
        ensures
            seqs::views(r@) == if recallable {
                self.recallable_for(user_id)
            } else {
                self.memories_for(user_id)
            },
    {
        let ghost all = seqs::views(self.memories@);
        let ghost model = if recallable {
            Some(self.model@)
        } else {
            None
        };
        let ghost of = |m: MemoryRecordView| memory_of(m, user_id, model);
        let mut out: Vec<Memory> = Vec::new();
        let mut i: usize = 0;
        assert(all.take(0) =~= Seq::empty());
        assert(seqs::views(out@) =~= seqs::somes(all.take(0).map_values(of)));
        while i < self.memories.len()
            invariant
                i <= self.memories@.len(),
                all == seqs::views(self.memories@),
                model == (if recallable {
                    Some(self.model@)
                } else {
                    None
                }),
                of == (|m: MemoryRecordView| memory_of(m, user_id, model)),
                seqs::views(out@) == seqs::somes(all.take(i as int).map_values(of)),
            decreases self.memories@.len() - i,
        {
            let ghost before = seqs::views(out@);
            proof {
                assert(all[i as int] == self.memories@[i as int]@);
                seqs::lemma_somes_step(all, of, i as int);
            }
            if self.memories[i].memory.user_id == user_id && (!recallable || text::str_eq(
                self.memories[i].model.as_str(),
                self.model.as_str(),
            )) {
                let copy = self.memories[i].memory.clone();
                out.push(copy);
                assert(seqs::views(out@) =~= before.push(copy@));
            }
            i = i + 1;
        }
        assert(all.take(i as int) =~= all);
        out
    }

    fn insert_memory(&mut self, memory: Memory)
        ensures
            final(self).model() == old(self).model(),
            final(self).all_messages() == old(self).all_messages(),
            final(self).all_memories() == old(self).all_memories().push(
                (MemoryRecordView { memory: memory@, model: old(self).model() }),
            ),
    {
        let ghost before = self.all_memories();
        let record = MemoryRecord { memory, model: self.model.clone() };
        self.memories.push(record);
        assert(self.all_memories() =~= before.push(record@));
    }

    /// Remembers something of a user.
    pub fn remember(
        &mut self,
        user_id: UserId,
        kind: MemoryKind,
        content: String,
        embedding: Vec<Single>,
        ndims: usize,
        now: u64,
    ) -> (r: Result<MemoryId, MemoryError>)
        ensures
            final(self).model() == old(self).model(),
            final(self).all_messages() == old(self).all_messages(),
            match r {
                Ok(id) => {
                    &&& embedding@.len() == ndims
                    &&& ids::is_random_uuid(id.0)
                    &&& final(self).memories_for(user_id) == old(self).memories_for(user_id).push(
                        remembered(user_id, kind, content@, embedding@, id, now),
                    )
                    &&& final(self).recallable_for(user_id) == old(self).recallable_for(
                        user_id,
                    ).push(remembered(user_id, kind, content@, embedding@, id, now))
                    &&& forall|other: UserId|
                        other != user_id ==> #[trigger] final(self).memories_for(other) == old(
                            self,
                        ).memories_for(other)
                    &&& forall|other: UserId|
                        other != user_id ==> #[trigger] final(self).recallable_for(other) == old(
                            self,
                        ).recallable_for(other)
                },
                Err(e) => {
                    &&& embedding@.len() != ndims
                    &&& is_mismatch(e, ndims, embedding@.len())
                    &&& final(self).all_memories() == old(self).all_memories()
                },
            },
    {
        match check_dims(&embedding, ndims) {
            Ok(()) => {},
            Err(e) => {
                return Err(e);
            },
        }
        let memory = Memory::new(user_id, kind, content, embedding, now);
        let id: MemoryId = memory.id;
        let ghost before = self.all_memories();
        let ghost view = memory@;
        self.insert_memory(memory);
        proof {
            lemma_memories_push(before, view, self.model(), None);
            lemma_memories_push(before, view, self.model(), Some(self.model()));
            assert(view == remembered(user_id, kind, content@, embedding@, id, now));
        }
        Ok(id)
    }

    /// Remembers something of a user unless something whose similarity is above the
    /// threshold is remembered already. `similarities` are those to what can be recalled
    /// of the user.
    pub fn remember_if_novel(
        &mut self,
        user_id: UserId,
        kind: MemoryKind,
        content: String,
        embedding: Vec<Single>,
        ndims: usize,
        similarities: &Vec<Single>,
        threshold: Single,
        now: u64,
    ) -> (r: Result<Option<MemoryId>, MemoryError>)
        requires
            similarities@.len() == old(self).recallable_for(user_id).len(),
        ensures
            final(self).model() == old(self).model(),
            final(self).all_messages() == old(self).all_messages(),
            match r {
                Ok(Some(id)) => {
                    &&& embedding@.len() == ndims
                    &&& !any_exceeds(similarities@, threshold)
                    &&& ids::is_random_uuid(id.0)
                    &&& final(self).memories_for(user_id) == old(self).memories_for(user_id).push(
                        remembered(user_id, kind, content@, embedding@, id, now),
                    )
                    &&& final(self).recallable_for(user_id) == old(self).recallable_for(
                        user_id,
                    ).push(remembered(user_id, kind, content@, embedding@, id, now))
                    &&& forall|other: UserId|
                        other != user_id ==> #[trigger] final(self).memories_for(other) == old(
                            self,
                        ).memories_for(other)
                    &&& forall|other: UserId|
                        other != user_id ==> #[trigger] final(self).recallable_for(other) == old(
                            self,
                        ).recallable_for(other)
                },
                Ok(None) => {
                    &&& embedding@.len() == ndims
                    &&& any_exceeds(similarities@, threshold)
                    &&& final(self).all_memories() == old(self).all_memories()
                },
                Err(e) => {
                    &&& embedding@.len() != ndims
                    &&& is_mismatch(e, ndims, embedding@.len())
                    &&& final(self).all_memories() == old(self).all_memories()
                },
            },
    {
        match check_dims(&embedding, ndims) {
            Ok(()) => {},
            Err(e) => {
                return Err(e);
            },
        }
        if exceeds(similarities, threshold) {
            return Ok(None);
        }
        match self.remember(user_id, kind, content, embedding, ndims, now) {
            Ok(id) => Ok(Some(id)),
            Err(e) => Err(e),
        }
    }
}

/// Something that is remembered at a moment.
pub open spec fn remembered(
    user_id: UserId,
    kind: MemoryKind,
    content: Seq<char>,
    embedding: Seq<Single>,
    id: MemoryId,
    now: u64,
) -> MemoryView {
    MemoryView { content, created_at: now, embedding, id, kind, user_id }
}

/// Some similarity is above the threshold.
pub open spec fn any_exceeds(similarities: Seq<Single>, threshold: Single) -> bool {
    exists|i: int| 0 <= i < similarities.len() && threshold.lt(#[trigger] similarities[i])
}

fn exceeds(similarities: &Vec<Single>, threshold: Single) -> (r: bool)
    ensures
        r == any_exceeds(similarities@, threshold),
{
    let mut i: usize = 0;
    while i < similarities.len()
        invariant
            i <= similarities@.len(),
            forall|j: int| 0 <= j < i ==> !threshold.lt(#[trigger] similarities@[j]),
        decreases similarities@.len() - i,
    {
        if threshold.less_than(similarities[i]) {
            return true;
        }
        i = i + 1;
    }
    false
}

/// A memory is seen by its user only.
proof fn lemma_memories_push(
    records: Seq<MemoryRecordView>,
    memory: MemoryView,
    model: Seq<char>,
    asked: Option<Seq<char>>,
)
    requires
        asked is None || asked->0 == model,
    ensures
        forall|u: UserId| #[trigger]
            memories_of(records.push(MemoryRecordView { memory, model }), u, asked) == if u
                == memory.user_id {
                memories_of(records, u, asked).push(memory)
            } else {
                memories_of(records, u, asked)
            },
{
    let all = records.push(MemoryRecordView { memory, model });
    assert forall|u: UserId| #[trigger] memories_of(all, u, asked) == if u == memory.user_id {
        memories_of(records, u, asked).push(memory)
    } else {
        memories_of(records, u, asked)
    } by {
        seqs::lemma_somes_step(
            all,
            |r: MemoryRecordView| memory_of(r, u, asked),
            records.len() as int,
        );
        assert(all.take(records.len() as int) =~= records);
        assert(all.take(records.len() as int + 1) =~= all);
    }
}

/// A memory with its similarity to what is asked.
#[derive(Debug)]
pub struct ScoredMemory {
    pub memory: Memory,
    pub similarity: Single,
}

/// `a` comes before `b` in the ranking: it is more similar, or as similar and older.
pub open spec fn ranks_before(similarities: Seq<Single>, a: int, b: int) -> bool {
    ||| similarities[b].place() < similarities[a].place()
    ||| similarities[b].place() == similarities[a].place() && a < b
}

/// `order` holds each of the first `n` places once.
pub open spec fn is_order(order: Seq<usize>, n: int) -> bool {
    &&& order.len() == n
    &&& forall|i: int| 0 <= i < order.len() ==> (#[trigger] order[i]) < n
    &&& forall|i: int, j: int|
        0 <= i < j < order.len() ==> #[trigger] order[i] != #[trigger] order[j]
}

/// All similarities are numbers.
pub open spec fn all_numbers(similarities: Seq<Single>) -> bool {
    forall|i: int| 0 <= i < similarities.len() ==> !(#[trigger] similarities[i]).is_nan()
}

/// The places from the most similar to the least; older ones go before younger ones that
/// are as similar. Where some similarity is no number, the places are in no set order.
pub open spec fn is_ranking(similarities: Seq<Single>, order: Seq<usize>) -> bool {
    &&& is_order(order, similarities.len() as int)
    &&& all_numbers(similarities) ==> forall|i: int, j: int|
        0 <= i < j < order.len() ==> ranks_before(
            similarities,
            (#[trigger] order[i]) as int,
            (#[trigger] order[j]) as int,
        )
}

/// The similarities of some memories.
pub open spec fn similarities_of(scored: Seq<ScoredMemory>) -> Seq<Single> {
    scored.map_values(|s: ScoredMemory| s.similarity)
}

/// The places from the most similar to the least.
fn rank(scored: &Vec<ScoredMemory>) -> (r: Vec<usize>)
    ensures
        is_ranking(similarities_of(scored@), r@),
{
    let ghost all = similarities_of(scored@);
    let mut order: Vec<usize> = Vec::new();
    let mut i: usize = 0;
    while i < scored.len()
        invariant
            i <= scored@.len(),
            all == similarities_of(scored@),
            is_order(order@, i as int),
            all_numbers(all) ==> forall|a: int, b: int|
                0 <= a < b < order@.len() ==> ranks_before(
                    all,
                    (#[trigger] order@[a]) as int,
                    (#[trigger] order@[b]) as int,
                ),
        decreases scored@.len() - i,
    {
        let ghost before = order@;
        let mut at: usize = order.len();
        while at > 0 && scored[order[at - 1]].similarity.less_than(scored[i].similarity)
            invariant
                at <= order@.len(),
                i < scored@.len(),
                all == similarities_of(scored@),
                order@ == before,
                is_order(order@, i as int),
                all_numbers(all) ==> forall|a: int|
                    at <= a < order@.len() ==> ranks_before(
                        all,
                        i as int,
                        (#[trigger] order@[a]) as int,
                    ),
            decreases at,
        {
            at = at - 1;
            assert(all[before[at as int] as int].lt(all[i as int]));
        }
        order.insert(at, i);
        proof {
            let after = order@;
            assert(after =~= before.insert(at as int, i));
            assert forall|a: int, b: int| 0 <= a < b < after.len() implies #[trigger] after[a]
                != #[trigger] after[b] by {
                let x = if a < at {
                    a
                } else {
                    a - 1
                };
                let y = if b < at {
                    b
                } else {
                    b - 1
                };
                if a != at && b != at {
                    assert(before[x] != before[y]);
                } else if a == at {
                    assert(before[y] < i);
                } else {
                    assert(before[x] < i);
                }
            }
            assert forall|a: int| 0 <= a < after.len() implies (#[trigger] after[a]) < i + 1 by {
                if a < at {
                    assert(before[a] < i);
                } else if a > at {
                    assert(before[a - 1] < i);
                }
            }
            if all_numbers(all) {
                if at > 0 {
                    assert(!all[before[at - 1] as int].lt(all[i as int]));
                    assert(!all[before[at - 1] as int].is_nan() && !all[i as int].is_nan());
                }
                assert forall|a: int, b: int| 0 <= a < b < after.len() implies ranks_before(
                    all,
                    (#[trigger] after[a]) as int,
                    (#[trigger] after[b]) as int,
                ) by {
                    if b < at {
                        assert(ranks_before(all, before[a] as int, before[b] as int));
                    } else if b == at {
                        assert(before[a] < i);
                        if a < at - 1 {
                            assert(ranks_before(all, before[a] as int, before[at - 1] as int));
                        }
                    } else if a < at {
                        assert(ranks_before(all, before[a] as int, before[b - 1] as int));
                    } else if a == at {
                        assert(ranks_before(all, i as int, before[b - 1] as int));
                    } else {
                        assert(ranks_before(all, before[a - 1] as int, before[b - 1] as int));
                    }
                }
            }
        }
        i = i + 1;
    }
    order
}

/// The memories at some places.
pub open spec fn memories_at(scored: Seq<ScoredMemory>, order: Seq<usize>) -> Seq<MemoryView> {
    order.map_values(|i: usize| scored[i as int].memory@)
}

/// `recalled` are the `k` memories that are most similar, the most similar first.
pub open spec fn is_recall(scored: Seq<ScoredMemory>, k: nat, recalled: Seq<MemoryView>) -> bool {
    exists|order: Seq<usize>| #[trigger]
        is_ranking(similarities_of(scored), order) && recalled == memories_at(
            scored,
            order.take(
                if order.len() < k {
                    order.len() as int
                } else {
                    k as int
                },
            ),
        )
}

/// The memories that are most similar to what is asked, at most `k`, the most similar
/// first.
pub fn recall(scored: &Vec<ScoredMemory>, k: usize) -> (r: Vec<Memory>)
    ensures
        is_recall(scored@, k as nat, seqs::views(r@)),
{
    let order = rank(scored);
    let mut out: Vec<Memory> = Vec::new();
    let mut i: usize = 0;
    assert(seqs::views(out@) =~= memories_at(scored@, order@.take(0)));
    while i < order.len() && i < k
        invariant
            i <= order@.len(),
            i <= k,
            is_order(order@, scored@.len() as int),
            seqs::views(out@) == memories_at(scored@, order@.take(i as int)),
        decreases order@.len() - i,
    {
        let ghost before = seqs::views(out@);
        assert(order@[i as int] < scored@.len());
        let copy = scored[order[i]].memory.clone();
        out.push(copy);
        assert(seqs::views(out@) =~= before.push(copy@));
        assert(memories_at(scored@, order@.take(i + 1)) =~= before.push(copy@));
        i = i + 1;
    }
    assert(is_ranking(similarities_of(scored@), order@));
    out
}

/// What a provider is told of a user.
#[derive(Debug)]
pub struct AssembledContext {
    pub memories: Vec<Memory>,
    pub messages: Vec<Message>,
}

/// The tokens of some memories, or the largest count.
pub open spec fn memories_used(memories: Seq<MemoryView>) -> u32
    decreases memories.len(),
{
    if memories.len() == 0 {
        0
    } else {
        crate::memory::types::saturating_sum(
            memories_used(memories.drop_last()),
            estimated(memories.last().content.len()),
        )
    }
}

/// What is left of a budget.
pub open spec fn left_of(budget: u32, used: u32) -> u32 {
    if budget >= used {
        (budget - used) as u32
    } else {
        0
    }
}

/// The memories that are told: the first, as many as fit in their budget.
pub open spec fn told_memories(recalled: Seq<MemoryView>, memory_budget: u32) -> Seq<MemoryView> {
    recalled.take(fit_count(memory_costs(recalled), memory_budget, 0) as int)
}

/// The messages that are told: the last, as many as fit in what the memories leave.
pub open spec fn told_messages(
    told: Seq<MemoryView>,
    stored: Seq<StoredMessage>,
    budget: u32,
) -> Seq<StoredMessage> {
    stored.skip(
        stored.len() - fit_count(
            costs_backwards(stored),
            left_of(budget, memories_used(told)),
            0,
        ),
    )
}

/// Puts together what a provider is told of a user: the memories that were recalled, as
/// far as they fit in their budget, and the last messages, as far as they fit in what is
/// left.
pub fn assemble_context(
    recalled: Vec<Memory>,
    stored: &Vec<StoredMessage>,
    memory_budget: TokenCount,
    budget: TokenCount,
) -> (r: AssembledContext)
    ensures
        seqs::views(r.memories@) == told_memories(seqs::views(recalled@), memory_budget.0),
        seqs::views(r.messages@) == as_messages(
            told_messages(seqs::views(r.memories@), stored@, budget.0),
        ),
{
    let memories = memory_budget.fit_memories(recalled);
    let ghost told = seqs::views(memories@);
    let mut used = TokenCount(0);
    let mut i: usize = 0;
    assert(told.take(0) =~= Seq::empty());
    while i < memories.len()
        invariant
            i <= memories@.len(),
            told == seqs::views(memories@),
            used.0 == memories_used(told.take(i as int)),
        decreases memories@.len() - i,
    {
        used = used.saturating_add(TokenCount::estimate(memories[i].content.as_str()));
        proof {
            let next = told.take(i + 1);
            assert(next.drop_last() =~= told.take(i as int));
            assert(next.last() == memories@[i as int]@);
        }
        i = i + 1;
    }
    assert(told.take(i as int) =~= told);
    let messages = budget.saturating_sub(used).fit_messages(stored.as_slice());
    AssembledContext { memories, messages }
}

/// What a user sees is their own: every message and memory that is listed for a user is
/// that user's.
pub proof fn law_users_see_their_own(store: Store, user_id: UserId)
    ensures
        forall|i: int|
            0 <= i < store.messages_for(user_id).len() ==> (#[trigger] store.messages_for(
                user_id,
            )[i]).user_id == user_id,
        forall|i: int|
            0 <= i < store.memories_for(user_id).len() ==> (#[trigger] store.memories_for(
                user_id,
            )[i]).user_id == user_id,
        forall|i: int|
            0 <= i < store.recallable_for(user_id).len() ==> (#[trigger] store.recallable_for(
                user_id,
            )[i]).user_id == user_id,
{
    let is_own = |m: StoredMessage| m.user_id == user_id;
    assert forall|i: int| 0 <= i < store.messages_for(user_id).len() implies (
    #[trigger] store.messages_for(user_id)[i]).user_id == user_id by {
        store.all_messages().lemma_filter_pred(is_own, i);
    }
    lemma_memories_of(store.all_memories(), user_id, None);
    lemma_memories_of(store.all_memories(), user_id, Some(store.model()));
}

/// One more message is listed last for its user and for no other, and one more memory is
/// too; a memory whose vector another embedder made is only kept from being recalled.
pub proof fn law_what_is_added_is_listed(
    messages: Seq<StoredMessage>,
    m: StoredMessage,
    records: Seq<MemoryRecordView>,
    r: MemoryRecordView,
    user_id: UserId,
    model: Seq<char>,
)
    ensures
        messages_of(messages.push(m), user_id) == if m.user_id == user_id {
            messages_of(messages, user_id).push(m)
        } else {
            messages_of(messages, user_id)
        },
        memories_of(records.push(r), user_id, None) == if r.memory.user_id == user_id {
            memories_of(records, user_id, None).push(r.memory)
        } else {
            memories_of(records, user_id, None)
        },
        memories_of(records.push(r), user_id, Some(model)) == if r.memory.user_id == user_id
            && r.model == model {
            memories_of(records, user_id, Some(model)).push(r.memory)
        } else {
            memories_of(records, user_id, Some(model))
        },
        messages_of(Seq::empty(), user_id) == Seq::<StoredMessage>::empty(),
        memories_of(Seq::empty(), user_id, None) == Seq::<MemoryView>::empty(),
        memories_of(Seq::empty(), user_id, Some(model)) == Seq::<MemoryView>::empty(),
{
    reveal(Seq::filter);
    let n = messages.len() as int;
    let all = messages.push(m);
    seqs::lemma_filter_step(all, |x: StoredMessage| x.user_id == user_id, n);
    assert(all.take(n) =~= messages);
    assert(all.take(n + 1) =~= all);
    let k = records.len() as int;
    let more = records.push(r);
    assert(more.take(k) =~= records);
    assert(more.take(k + 1) =~= more);
    seqs::lemma_somes_step(more, |x: MemoryRecordView| memory_of(x, user_id, None), k);
    seqs::lemma_somes_step(more, |x: MemoryRecordView| memory_of(x, user_id, Some(model)), k);
}

/// What is remembered is what was given, of the user it was given for.
pub proof fn law_remembered_is_what_was_given(
    user_id: UserId,
    kind: MemoryKind,
    content: Seq<char>,
    embedding: Seq<Single>,
    id: MemoryId,
    now: u64,
)
    ensures
        ({
            let m = remembered(user_id, kind, content, embedding, id, now);
            &&& m.user_id == user_id
            &&& m.kind == kind
            &&& m.content == content
            &&& m.embedding == embedding
            &&& m.id == id
            &&& m.created_at == now
        }),
{
}

/// A message is stored as it was said: who said it, to whom, what, and when.
pub proof fn law_stored_message_is_what_was_said(
    m: StoredMessage,
    user_id: UserId,
    role: Role,
    content: String,
    now: u64,
)
    requires
        is_message_said(m, user_id, role, content, now),
    ensures
        m.user_id == user_id,
        m.role == role,
        m.content@ == content@,
        m.created_at == now,
        content@.len() <= u32::MAX ==> m.token_count.0 == content@.len() / 4 + 1,
{
}

/// Something is new exactly when nothing that is remembered is more similar than the
/// threshold; as similar is not more similar.
pub proof fn law_novel_means_none_exceeds(similarities: Seq<Single>, threshold: Single)
    requires
        !threshold.is_nan(),
        all_numbers(similarities),
    ensures
        any_exceeds(similarities, threshold) <==> exists|i: int|
            0 <= i < similarities.len() && (#[trigger] similarities[i]).place()
                > threshold.place(),
{
    if any_exceeds(similarities, threshold) {
        let i = choose|i: int|
            0 <= i < similarities.len() && threshold.lt(#[trigger] similarities[i]);
        assert(similarities[i].place() > threshold.place());
    }
    if exists|i: int|
        0 <= i < similarities.len() && (#[trigger] similarities[i]).place() > threshold.place() {
        let i = choose|i: int|
            0 <= i < similarities.len() && (#[trigger] similarities[i]).place()
                > threshold.place();
        assert(!similarities[i].is_nan());
        assert(threshold.lt(similarities[i]));
    }
}

/// What can be recalled of a user is remembered of them: a vector of another embedder only
/// keeps a memory from being recalled.
pub proof fn law_recallable_is_remembered(store: Store, user_id: UserId, m: MemoryView)
    requires
        store.recallable_for(user_id).contains(m),
    ensures
        store.memories_for(user_id).contains(m),
{
    let records = store.all_memories();
    let some = records.map_values(
        |r: MemoryRecordView| memory_of(r, user_id, Some(store.model())),
    );
    let all = records.map_values(|r: MemoryRecordView| memory_of(r, user_id, None));
    seqs::lemma_somes_contains(some, m);
    let j = choose|j: int| 0 <= j < some.len() && #[trigger] some[j] == Some(m);
    assert(memory_of(records[j], user_id, Some(store.model())) == Some(m));
    assert(all[j] == Some(m));
    seqs::lemma_somes_contains(all, m);
}

/// Each memory of a user is one of the records, and is that user's.
proof fn lemma_memories_of(
    records: Seq<MemoryRecordView>,
    user_id: UserId,
    model: Option<Seq<char>>,
)
    ensures
        forall|i: int|
            0 <= i < memories_of(records, user_id, model).len() ==> (#[trigger] memories_of(
                records,
                user_id,
                model,
            )[i]).user_id == user_id,
{
    let found = records.map_values(|r: MemoryRecordView| memory_of(r, user_id, model));
    let own = memories_of(records, user_id, model);
    assert forall|i: int| 0 <= i < own.len() implies (#[trigger] own[i]).user_id == user_id by {
        let m = own[i];
        assert(seqs::somes(found).contains(m));
        seqs::lemma_somes_contains(found, m);
        let j = choose|j: int| 0 <= j < found.len() && #[trigger] found[j] == Some(m);
        assert(memory_of(records[j], user_id, model) == Some(m));
    }
}

/// What a provider is told keeps to the budget: memories and messages together take no
/// more tokens than it has. The largest budget of all is left out: there the sums stop
/// growing before they exceed it.
pub proof fn law_context_keeps_to_budget(
    recalled: Seq<MemoryView>,
    stored: Seq<StoredMessage>,
    memory_budget: u32,
    budget: u32,
)
    requires
        memory_budget <= budget,
        budget < u32::MAX,
    ensures
        total(memory_costs(told_memories(recalled, memory_budget))) + total(
            costs_backwards(
                told_messages(told_memories(recalled, memory_budget), stored, budget),
            ),
        ) <= budget,
{
    let told = told_memories(recalled, memory_budget);
    let n = fit_count(memory_costs(recalled), memory_budget, 0);
    crate::memory::types::law_fit_keeps_to_budget(memory_costs(recalled), memory_budget);
    assert(memory_costs(told) =~= memory_costs(recalled).take(n as int));
    lemma_memories_used(told);
    let left = left_of(budget, memories_used(told));
    let costs = costs_backwards(stored);
    let k = fit_count(costs, left, 0);
    crate::memory::types::law_fit_keeps_to_budget(costs, left);
    let last = stored.skip(stored.len() - k);
    assert(costs_backwards(last) =~= costs.take(k as int));
}

/// The tokens of some messages, one by one.
pub open spec fn tokens_of_messages(messages: Seq<StoredMessage>) -> int
    decreases messages.len(),
{
    if messages.len() == 0 {
        0
    } else {
        messages[0].token_count.0 + tokens_of_messages(messages.drop_first())
    }
}

/// About how many tokens a memory takes: one for each four characters, and one more.
pub open spec fn tokens_of_memory(memory: MemoryView) -> int {
    (if memory.content.len() > u32::MAX {
        u32::MAX as int
    } else {
        memory.content.len() as int
    }) / 4 + 1
}

/// The tokens of some memories, one by one.
pub open spec fn tokens_of_memories(memories: Seq<MemoryView>) -> int
    decreases memories.len(),
{
    if memories.len() == 0 {
        0
    } else {
        tokens_of_memories(memories.drop_last()) + tokens_of_memory(memories.last())
    }
}

proof fn lemma_tokens_of_messages(messages: Seq<StoredMessage>)
    ensures
        tokens_of_messages(messages) == total(costs_backwards(messages)),
    decreases messages.len(),
{
    let costs = costs_backwards(messages);
    if messages.len() > 0 {
        lemma_tokens_of_messages(messages.drop_first());
        assert(costs.drop_last() =~= costs_backwards(messages.drop_first()));
        assert(costs.last() == messages[0].token_count.0);
    }
}

proof fn lemma_tokens_of_memories(memories: Seq<MemoryView>)
    ensures
        tokens_of_memories(memories) == total(memory_costs(memories)),
    decreases memories.len(),
{
    let costs = memory_costs(memories);
    if memories.len() > 0 {
        lemma_tokens_of_memories(memories.drop_last());
        assert(costs.drop_last() =~= memory_costs(memories.drop_last()));
        assert(costs.last() == estimated(memories.last().content.len()));
    }
}

/// The memories that are told are the first that were recalled, and no more of them would
/// fit: with the next one they would take more than their budget. The largest budget of all
/// is left out: there the sums stop growing before they exceed it.
pub proof fn law_told_memories_cannot_be_extended(recalled: Seq<MemoryView>, memory_budget: u32)
    requires
        memory_budget < u32::MAX,
    ensures
        told_memories(recalled, memory_budget).len() <= recalled.len(),
        told_memories(recalled, memory_budget) == recalled.take(
            told_memories(recalled, memory_budget).len() as int,
        ),
        tokens_of_memories(told_memories(recalled, memory_budget)) <= memory_budget,
        told_memories(recalled, memory_budget).len() < recalled.len() ==> tokens_of_memories(
            told_memories(recalled, memory_budget),
        ) + tokens_of_memory(recalled[told_memories(recalled, memory_budget).len() as int])
            > memory_budget,
{
    let costs = memory_costs(recalled);
    let n = fit_count(costs, memory_budget, 0) as int;
    let told = told_memories(recalled, memory_budget);
    crate::memory::types::law_fit_keeps_to_budget(costs, memory_budget);
    lemma_tokens_of_memories(told);
    assert(memory_costs(told) =~= costs.take(n));
    if n < recalled.len() {
        let more = recalled.take(n + 1);
        lemma_tokens_of_memories(more);
        assert(memory_costs(more) =~= costs.take(n + 1));
        assert(more.drop_last() =~= told);
        assert(more.last() == recalled[n]);
    }
}

/// The messages that are told are the last of the history, and no more of them would fit:
/// with the newest that is left out, memories and messages would take more than the budget.
/// With what is told they do not, where the memories keep to it. The largest budget of all
/// is left out: there the sums stop growing before they exceed it.
pub proof fn law_context_cannot_be_extended(
    recalled: Seq<MemoryView>,
    stored: Seq<StoredMessage>,
    memory_budget: u32,
    budget: u32,
)
    requires
        budget < u32::MAX,
    ensures
        ({
            let memories = told_memories(recalled, memory_budget);
            let messages = told_messages(memories, stored, budget);
            let out = stored.len() - messages.len();
            &&& out >= 0
            &&& messages == stored.skip(out)
            &&& out > 0 ==> tokens_of_memories(memories) + tokens_of_messages(messages)
                + stored[out - 1].token_count.0 > budget
            &&& memory_budget <= budget ==> tokens_of_memories(memories) + tokens_of_messages(
                messages,
            ) <= budget
        }),
{
    let memories = told_memories(recalled, memory_budget);
    let messages = told_messages(memories, stored, budget);
    let left = left_of(budget, memories_used(memories));
    let costs = costs_backwards(stored);
    let k = fit_count(costs, left, 0) as int;
    crate::memory::types::law_fit_keeps_to_budget(costs, left);
    lemma_memories_used(memories);
    lemma_tokens_of_memories(memories);
    lemma_tokens_of_messages(messages);
    assert(costs_backwards(messages) =~= costs.take(k));
    if k < stored.len() {
        let next = costs.take(k + 1);
        assert(next.drop_last() =~= costs.take(k));
        assert(next.last() == stored[stored.len() - 1 - k].token_count.0);
    }
    if memory_budget <= budget {
        law_context_keeps_to_budget(recalled, stored, memory_budget, budget);
    }
}

/// What a provider is told of a message is who said it and what was said.
pub proof fn law_told_messages_say_what_was_said(stored: Seq<StoredMessage>)
    ensures
        as_messages(stored).len() == stored.len(),
        forall|i: int|
            0 <= i < stored.len() ==> (#[trigger] as_messages(stored)[i]).content
                == stored[i].content@ && as_messages(stored)[i].role == stored[i].role,
{
}

proof fn lemma_memories_used(memories: Seq<MemoryView>)
    ensures
        total(memory_costs(memories)) < u32::MAX ==> memories_used(memories) == total(
            memory_costs(memories),
        ),
        memories_used(memories) <= total(memory_costs(memories)),
    decreases memories.len(),
{
    if memories.len() > 0 {
        lemma_memories_used(memories.drop_last());
        assert(memory_costs(memories).drop_last() =~= memory_costs(memories.drop_last()));
        assert(memory_costs(memories).last() == estimated(memories.last().content.len()));
    } else {
        assert(memory_costs(memories) =~= Seq::empty());
    }
}

/// The most similar memory is recalled first, whatever the others are.
pub proof fn law_most_similar_comes_first(scored: Seq<ScoredMemory>, k: nat, recalled: Seq<MemoryView>)
    requires
        is_recall(scored, k, recalled),
        all_numbers(similarities_of(scored)),
        k > 0,
        scored.len() > 0,
    ensures
        recalled.len() > 0,
        exists|i: int|
            0 <= i < scored.len() && recalled[0] == (#[trigger] scored[i]).memory@ && forall|
                j: int,
            |
                0 <= j < scored.len() ==> (#[trigger] scored[j]).similarity.place()
                    <= scored[i].similarity.place(),
{
    let all = similarities_of(scored);
    let order = choose|order: Seq<usize>| #[trigger]
        is_ranking(all, order) && recalled == memories_at(
            scored,
            order.take(
                if order.len() < k {
                    order.len() as int
                } else {
                    k as int
                },
            ),
        );
    let best = order[0] as int;
    assert(order[0] < scored.len());
    assert(recalled[0] == scored[best].memory@);
    assert forall|j: int| 0 <= j < scored.len() implies (#[trigger] scored[j]).similarity.place()
        <= scored[best].similarity.place() by {
        lemma_order_holds(order, scored.len() as int, j);
        let at = choose|at: int| 0 <= at < order.len() && order[at] == j;
        if at > 0 {
            assert(ranks_before(all, order[0] as int, order[at] as int));
        }
        assert(all[j] == scored[j].similarity && all[best] == scored[best].similarity);
    }
}

/// The memories at `places` are recalled in this order: each place once, from the most
/// similar to the least, and nothing that is left out is more similar.
pub open spec fn are_most_similar(
    scored: Seq<ScoredMemory>,
    recalled: Seq<MemoryView>,
    places: Seq<int>,
) -> bool {
    &&& places.len() == recalled.len()
    &&& forall|a: int|
        0 <= a < places.len() ==> 0 <= #[trigger] places[a] < scored.len() && recalled[a]
            == scored[places[a]].memory@
    &&& forall|a: int, b: int|
        0 <= a < b < places.len() ==> #[trigger] places[a] != #[trigger] places[b]
            && scored[places[b]].similarity.place() <= scored[places[a]].similarity.place()
    &&& forall|a: int, j: int|
        0 <= a < places.len() && 0 <= j < scored.len() && !places.contains(j)
            ==> (#[trigger] scored[j]).similarity.place() <= scored[#[trigger] places[a]].similarity.place()
}

/// As many memories are recalled as are asked for, or all where there are fewer; they are
/// the most similar, the most similar first.
pub proof fn law_recall_takes_the_most_similar(
    scored: Seq<ScoredMemory>,
    k: nat,
    recalled: Seq<MemoryView>,
)
    requires
        is_recall(scored, k, recalled),
        all_numbers(similarities_of(scored)),
    ensures
        recalled.len() == if scored.len() < k {
            scored.len()
        } else {
            k
        },
        exists|places: Seq<int>| are_most_similar(scored, recalled, places),
{
    let all = similarities_of(scored);
    let order = choose|order: Seq<usize>| #[trigger]
        is_ranking(all, order) && recalled == memories_at(
            scored,
            order.take(
                if order.len() < k {
                    order.len() as int
                } else {
                    k as int
                },
            ),
        );
    let places = Seq::new(recalled.len(), |a: int| order[a] as int);
    assert forall|a: int| 0 <= a < places.len() implies 0 <= #[trigger] places[a] < scored.len()
        && recalled[a] == scored[places[a]].memory@ by {
        assert(order[a] < scored.len());
    }
    assert forall|i: int| 0 <= i < scored.len() implies #[trigger] all[i]
        == scored[i].similarity by {}
    assert forall|a: int, b: int| 0 <= a < b < places.len() implies #[trigger] places[a]
        != #[trigger] places[b] && scored[places[b]].similarity.place()
        <= scored[places[a]].similarity.place() by {
        assert(order[a] != order[b]);
        assert(ranks_before(all, order[a] as int, order[b] as int));
        assert(order[a] < scored.len() && order[b] < scored.len());
        assert(all[places[a]] == scored[places[a]].similarity);
        assert(all[places[b]] == scored[places[b]].similarity);
    }
    assert forall|a: int, j: int|
        0 <= a < places.len() && 0 <= j < scored.len() && !places.contains(j) implies (
    #[trigger] scored[j]).similarity.place() <= scored[#[trigger] places[a]].similarity.place() by {
        lemma_order_holds(order, scored.len() as int, j);
        let at = choose|at: int| 0 <= at < order.len() && order[at] == j;
        if at < places.len() {
            assert(places[at] == j);
        }
        assert(ranks_before(all, order[a] as int, order[at] as int));
        assert(order[a] < scored.len());
        assert(all[places[a]] == scored[places[a]].similarity && all[j] == scored[j].similarity);
    }
    assert(are_most_similar(scored, recalled, places));
}

/// What is recalled for a user is that user's, if what was searched is.
pub proof fn law_recall_stays_with_user(
    scored: Seq<ScoredMemory>,
    k: nat,
    recalled: Seq<MemoryView>,
    user_id: UserId,
)
    requires
        is_recall(scored, k, recalled),
        forall|i: int| 0 <= i < scored.len() ==> (#[trigger] scored[i]).memory.user_id == user_id,
    ensures
        recalled.len() <= k,
        forall|i: int| 0 <= i < recalled.len() ==> (#[trigger] recalled[i]).user_id == user_id,
{
    let order = choose|order: Seq<usize>| #[trigger]
        is_ranking(similarities_of(scored), order) && recalled == memories_at(
            scored,
            order.take(
                if order.len() < k {
                    order.len() as int
                } else {
                    k as int
                },
            ),
        );
    assert forall|i: int| 0 <= i < recalled.len() implies (#[trigger] recalled[i]).user_id
        == user_id by {
        assert(order[i] < scored.len());
        assert(recalled[i] == scored[order[i] as int].memory@);
    }
}

/// An order holds every place.
proof fn lemma_order_holds(order: Seq<usize>, n: int, j: int)
    requires
        is_order(order, n),
        0 <= j < n,
    ensures
        exists|at: int| 0 <= at < order.len() && order[at] == j,
{
    if !(exists|at: int| 0 <= at < order.len() && order[at] == j) {
        let ints = order.map_values(|i: usize| i as int);
        assert(ints.no_duplicates()) by {
            assert forall|a: int, b: int| 0 <= a < ints.len() && 0 <= b < ints.len() && a
                != b implies ints[a] != ints[b] by {
                if a < b {
                    assert(order[a] != order[b]);
                } else {
                    assert(order[b] != order[a]);
                }
            }
        }
        ints.unique_seq_to_set();
        let places = vstd::set_lib::set_int_range(0, n);
        vstd::set_lib::lemma_int_range(0, n);
        assert(ints.to_set().subset_of(places.remove(j))) by {
            assert forall|x: int| ints.to_set().contains(x) implies places.remove(j).contains(
                x,
            ) by {
                let a = choose|a: int| 0 <= a < ints.len() && ints[a] == x;
                assert(order[a] < n);
            }
        }
        vstd::set_lib::lemma_len_subset(ints.to_set(), places.remove(j));
    }
}

// ---------------------------------------------------------------------------
// Rows of the database

/// The four bytes of a number, lowest first.
pub open spec fn number_bytes(x: Single) -> Seq<u8> {
    seq![
        (x.bits % 0x100) as u8,
        (x.bits / 0x100 % 0x100) as u8,
        (x.bits / 0x1_0000 % 0x100) as u8,
        (x.bits / 0x100_0000) as u8,
    ]
}

/// The number that four bytes hold.
pub open spec fn number_in(b: Seq<u8>) -> Single {
    single((b[0] + b[1] * 0x100 + b[2] * 0x1_0000 + b[3] * 0x100_0000) as u32)
}

/// The bytes of a vector.
pub open spec fn vector_bytes(v: Seq<Single>) -> Seq<u8>
    decreases v.len(),
{
    if v.len() == 0 {
        Seq::empty()
    } else {
        vector_bytes(v.drop_last()) + number_bytes(v.last())
    }
}

/// The vector that some bytes hold.
pub open spec fn vector_in(bytes: Seq<u8>) -> Seq<Single> {
    Seq::new(bytes.len() / 4, |i: int| number_in(bytes.subrange(4 * i, 4 * i + 4)))
}

/// The bytes of a vector.
pub fn vec_to_bytes(v: &Vec<Single>) -> (r: Vec<u8>)
    ensures
        r@ == vector_bytes(v@),
{
    let mut bytes: Vec<u8> = Vec::new();
    let mut i: usize = 0;
    assert(v@.take(0) =~= Seq::empty());
    while i < v.len()
        invariant
            i <= v@.len(),
            bytes@ == vector_bytes(v@.take(i as int)),
        decreases v@.len() - i,
    {
        let bits: u32 = v[i].bits;
        let ghost before = bytes@;
        bytes.push((bits % 0x100) as u8);
        bytes.push((bits / 0x100 % 0x100) as u8);
        bytes.push((bits / 0x1_0000 % 0x100) as u8);
        bytes.push((bits / 0x100_0000) as u8);
        proof {
            let next = v@.take(i + 1);
            assert(next.drop_last() =~= v@.take(i as int));
            assert(next.last() == v@[i as int]);
            assert(bytes@ =~= before + number_bytes(v@[i as int]));
        }
        i = i + 1;
    }
    assert(v@.take(i as int) =~= v@);
    bytes
}

/// What is said of bytes that hold no vector.
pub open spec fn bad_blob(len: nat) -> Seq<char> {
    "embedding blob length "@ + text::decimal(len) + " is not a multiple of 4"@
}

/// The vector that some bytes hold.
pub fn bytes_to_vec(bytes: &Vec<u8>) -> (r: Result<Vec<Single>, MemoryError>)
    ensures
        match r {
            Ok(v) => bytes@.len() % 4 == 0 && v@ == vector_in(bytes@),
            Err(MemoryError::RowDecode(e)) => bytes@.len() % 4 != 0 && e@ == bad_blob(bytes@.len()),
            Err(_) => false,
        },
{
    let len: usize = bytes.len();
    if len % 4 != 0 {
        let mut out = String::from_str("embedding blob length ");
        out.append(text::format_u64(len as u64).as_str());
        out.append(" is not a multiple of 4");
        return Err(MemoryError::RowDecode(out));
    }
    let mut v: Vec<Single> = Vec::new();
    let mut i: usize = 0;
    while i < len / 4
        invariant
            i <= len / 4,
            len == bytes@.len(),
            len % 4 == 0,
            v@.len() == i,
            forall|j: int|
                0 <= j < i ==> #[trigger] v@[j] == number_in(bytes@.subrange(4 * j, 4 * j + 4)),
        decreases len / 4 - i,
    {
        let b0: u32 = bytes[4 * i] as u32;
        let b1: u32 = bytes[4 * i + 1] as u32;
        let b2: u32 = bytes[4 * i + 2] as u32;
        let b3: u32 = bytes[4 * i + 3] as u32;
        v.push(Single::from_bits(b0 + b1 * 0x100 + b2 * 0x1_0000 + b3 * 0x100_0000));
        i = i + 1;
    }
    assert(v@ =~= vector_in(bytes@));
    Ok(v)
}

proof fn lemma_number_round_trip(x: Single)
    ensures
        number_in(number_bytes(x)) == x,
{
    let n: u32 = x.bits;
    assert((n % 0x100) + (n / 0x100 % 0x100) * 0x100 + (n / 0x1_0000 % 0x100) * 0x1_0000 + (n
        / 0x100_0000) * 0x100_0000 == n && n / 0x100_0000 < 0x100) by (bit_vector);
}

proof fn lemma_vector_bytes_len(v: Seq<Single>)
    ensures
        vector_bytes(v).len() == 4 * v.len(),
    decreases v.len(),
{
    if v.len() > 0 {
        lemma_vector_bytes_len(v.drop_last());
    }
}

proof fn lemma_vector_bytes_at(v: Seq<Single>, i: int)
    requires
        0 <= i < v.len(),
    ensures
        vector_bytes(v).len() == 4 * v.len(),
        vector_bytes(v).subrange(4 * i, 4 * i + 4) == number_bytes(v[i]),
    decreases v.len(),
{
    lemma_vector_bytes_len(v);
    lemma_vector_bytes_len(v.drop_last());
    let all = vector_bytes(v);
    let front = vector_bytes(v.drop_last());
    if i == v.len() - 1 {
        assert(all.subrange(4 * i, 4 * i + 4) =~= number_bytes(v[i]));
    } else {
        lemma_vector_bytes_at(v.drop_last(), i);
        assert(all.subrange(4 * i, 4 * i + 4) =~= front.subrange(4 * i, 4 * i + 4));
    }
}

/// A vector that is stored is read back as it was.
pub proof fn law_vector_round_trip(v: Seq<Single>)
    ensures
        vector_bytes(v).len() % 4 == 0,
        vector_in(vector_bytes(v)) == v,
{
    lemma_vector_bytes_len(v);
    assert forall|i: int| 0 <= i < v.len() implies vector_in(vector_bytes(v))[i] == v[i] by {
        lemma_vector_bytes_at(v, i);
        lemma_number_round_trip(v[i]);
    }
    assert(vector_in(vector_bytes(v)) =~= v);
}

/// The word for a role.
pub open spec fn role_word(role: Role) -> Seq<char> {
    match role {
        Role::Assistant => "assistant"@,
        Role::System => "system"@,
        Role::User => "user"@,
    }
}

/// The role that a word stands for.
pub open spec fn role_named(s: Seq<char>) -> Option<Role> {
    if s == "assistant"@ {
        Some(Role::Assistant)
    } else if s == "system"@ {
        Some(Role::System)
    } else if s == "user"@ {
        Some(Role::User)
    } else {
        None
    }
}

/// The word for a role.
pub fn role_str(role: Role) -> (r: &'static str)
    ensures
        r@ == role_word(role),
{
    match role {
        Role::Assistant => "assistant",
        Role::System => "system",
        Role::User => "user",
    }
}

fn parse_role(s: &str) -> (r: Option<Role>)
    ensures
        r == role_named(s@),
{
    if text::str_eq(s, "assistant") {
        Some(Role::Assistant)
    } else if text::str_eq(s, "system") {
        Some(Role::System)
    } else if text::str_eq(s, "user") {
        Some(Role::User)
    } else {
        None
    }
}

/// A memory as the database holds it.
#[derive(Debug)]
pub struct MemoryColumns {
    pub content: String,
    pub created_at: i64,
    pub embedding: Vec<u8>,
    pub id: String,
    pub kind: String,
    pub user_id: String,
}

/// A message as the database holds it.
#[derive(Debug)]
pub struct MessageColumns {
    pub content: String,
    pub created_at: i64,
    pub id: String,
    pub role: String,
    pub token_count: i64,
    pub user_id: String,
}

/// What is said of a column that holds no identifier.
pub open spec fn bad_uuid(label: Seq<char>, column: Seq<char>) -> Seq<char> {
    "invalid "@ + label + ": "@ + ids::uuid_parsed(column)->Err_0
}

fn parse_uuid(s: &str, label: &str) -> (r: Result<u128, MemoryError>)
    ensures
        match r {
            Ok(n) => ids::uuid_of(s@) == Some(n),
            Err(MemoryError::RowDecode(e)) => ids::uuid_of(s@) is None && e@ == bad_uuid(
                label@,
                s@,
            ),
            Err(_) => false,
        },
{
    match ids::parse_uuid(s) {
        Ok(n) => Ok(n),
        Err(e) => {
            let mut out = String::from_str("invalid ");
            out.append(label);
            out.append(": ");
            out.append(e.as_str());
            Err(MemoryError::RowDecode(out))
        },
    }
}

/// What is wrong with the columns of a memory: the first that cannot be read.
pub open spec fn memory_fault(row: MemoryColumns) -> Option<Seq<char>> {
    if row.embedding@.len() % 4 != 0 {
        Some(bad_blob(row.embedding@.len()))
    } else if ids::uuid_of(row.id@) is None {
        Some(bad_uuid("memory id"@, row.id@))
    } else if kind_named(row.kind@) is None {
        Some("unknown memory kind '"@ + row.kind@ + "'"@)
    } else if ids::uuid_of(row.user_id@) is None {
        Some(bad_uuid("user id"@, row.user_id@))
    } else {
        None
    }
}

/// The memory that the columns hold.
pub open spec fn memory_in(row: MemoryColumns) -> MemoryView {
    MemoryView {
        content: row.content@,
        created_at: numbers::unsigned(row.created_at),
        embedding: vector_in(row.embedding@),
        id: MemoryId(ids::uuid_of(row.id@)->0),
        kind: kind_named(row.kind@)->0,
        user_id: UserId(ids::uuid_of(row.user_id@)->0),
    }
}

/// The memory in a row.
pub fn row_to_memory(row: MemoryColumns) -> (r: Result<Memory, MemoryError>)
    ensures
        match r {
            Ok(m) => memory_fault(row) is None && m@ == memory_in(row),
            Err(MemoryError::RowDecode(e)) => memory_fault(row) == Some(e@),
            Err(_) => false,
        },
{
    let embedding = match bytes_to_vec(&row.embedding) {
        Ok(v) => v,
        Err(e) => {
            return Err(e);
        },
    };
    let id = match parse_uuid(row.id.as_str(), "memory id") {
        Ok(n) => MemoryId(n),
        Err(e) => {
            return Err(e);
        },
    };
    let kind = match MemoryKind::parse(row.kind.as_str()) {
        Ok(kind) => kind,
        Err(e) => {
            return Err(MemoryError::RowDecode(e.to_text()));
        },
    };
    let user_id = match parse_uuid(row.user_id.as_str(), "user id") {
        Ok(n) => UserId(n),
        Err(e) => {
            return Err(e);
        },
    };
    Ok(
        Memory {
            content: row.content,
            created_at: numbers::same_bits_unsigned(row.created_at),
            embedding,
            id,
            kind,
            user_id,
        },
    )
}

/// The columns that a memory is stored in.
pub fn memory_to_row(memory: &Memory) -> (r: MemoryColumns)
    ensures
        r.content@ == memory.content@,
        r.created_at == numbers::signed(memory.created_at),
        r.embedding@ == vector_bytes(memory.embedding@),
        r.id@ == ids::uuid_text(memory.id.0),
        r.kind@ == kind_word(memory.kind),
        r.user_id@ == ids::uuid_text(memory.user_id.0),
        memory_fault(r) is None,
        memory_in(r) == memory@,
{
    let r = MemoryColumns {
        content: memory.content.clone(),
        created_at: numbers::same_bits_signed(memory.created_at),
        embedding: vec_to_bytes(&memory.embedding),
        id: ids::format_uuid(memory.id.0),
        kind: String::from_str(memory.kind.as_str()),
        user_id: ids::format_uuid(memory.user_id.0),
    };
    proof {
        law_vector_round_trip(memory.embedding@);
        crate::memory::types::law_memory_kinds_round_trip(memory.kind, r.kind@);
        numbers::lemma_signed_round_trip(memory.created_at);
    }
    r
}

/// What is wrong with the columns of a message: the first that cannot be read.
pub open spec fn message_fault(row: MessageColumns) -> Option<Seq<char>> {
    if ids::uuid_of(row.id@) is None {
        Some(bad_uuid("message id"@, row.id@))
    } else if role_named(row.role@) is None {
        Some("unknown role '"@ + row.role@ + "'"@)
    } else if ids::uuid_of(row.user_id@) is None {
        Some(bad_uuid("user id"@, row.user_id@))
    } else {
        None
    }
}

/// The message that the columns hold.
pub open spec fn is_message_in(m: StoredMessage, row: MessageColumns) -> bool {
    &&& m.content@ == row.content@
    &&& m.created_at == numbers::unsigned(row.created_at)
    &&& ids::uuid_of(row.id@) == Some(m.id.0)
    &&& role_named(row.role@) == Some(m.role)
    &&& m.token_count.0 == row.token_count as int % 0x1_0000_0000
    &&& ids::uuid_of(row.user_id@) == Some(m.user_id.0)
}

/// The message in a row.
pub fn row_to_stored_message(row: MessageColumns) -> (r: Result<StoredMessage, MemoryError>)
    ensures
        match r {
            Ok(m) => message_fault(row) is None && is_message_in(m, row),
            Err(MemoryError::RowDecode(e)) => message_fault(row) == Some(e@),
            Err(_) => false,
        },
{
    let id = match parse_uuid(row.id.as_str(), "message id") {
        Ok(n) => MessageId(n),
        Err(e) => {
            return Err(e);
        },
    };
    let role = match parse_role(row.role.as_str()) {
        Some(role) => role,
        None => {
            let mut out = String::from_str("unknown role '");
            out.append(row.role.as_str());
            out.append("'");
            return Err(MemoryError::RowDecode(out));
        },
    };
    let user_id = match parse_uuid(row.user_id.as_str(), "user id") {
        Ok(n) => UserId(n),
        Err(e) => {
            return Err(e);
        },
    };
    Ok(
        StoredMessage {
            content: row.content,
            created_at: numbers::same_bits_unsigned(row.created_at),
            id,
            role,
            token_count: TokenCount(numbers::low_bits(row.token_count)),
            user_id,
        },
    )
}

/// The columns that a message is stored in.
pub fn message_to_row(message: &StoredMessage) -> (r: MessageColumns)
    ensures
        r.content@ == message.content@,
        r.created_at == numbers::signed(message.created_at),
        r.id@ == ids::uuid_text(message.id.0),
        r.role@ == role_word(message.role),
        r.token_count == message.token_count.0,
        r.user_id@ == ids::uuid_text(message.user_id.0),
        message_fault(r) is None,
        is_message_in(*message, r),
{
    let r = MessageColumns {
        content: message.content.clone(),
        created_at: numbers::same_bits_signed(message.created_at),
        id: ids::format_uuid(message.id.0),
        role: String::from_str(role_str(message.role)),
        token_count: message.token_count.0 as i64,
        user_id: ids::format_uuid(message.user_id.0),
    };
    proof {
        law_roles_round_trip(message.role);
        numbers::lemma_signed_round_trip(message.created_at);
    }
    r
}

/// The word for a role is read back as the role.
pub proof fn law_roles_round_trip(role: Role)
    ensures
        role_named(role_word(role)) == Some(role),
{
    reveal_strlit("assistant");
    reveal_strlit("system");
    reveal_strlit("user");
    assert("assistant"@.len() == 9 && "system"@.len() == 6 && "user"@.len() == 4);
}

/// A row is read exactly when its columns can be: whole numbers in its vector, identifiers
/// that are some, and a kind that is known; for a message, a role that is.
pub proof fn law_readable_rows_are_read(memory: MemoryColumns, message: MessageColumns)
    ensures
        memory_fault(memory) is None <==> memory.embedding@.len() % 4 == 0 && ids::uuid_of(
            memory.id@,
        ) is Some && ids::uuid_of(memory.user_id@) is Some && (memory.kind@ == "fact"@
            || memory.kind@ == "preference"@),
        memory_fault(memory) is None ==> {
            let m = memory_in(memory);
            &&& m.content == memory.content@
            &&& Some(m.id.0) == ids::uuid_of(memory.id@)
            &&& Some(m.user_id.0) == ids::uuid_of(memory.user_id@)
            &&& m.embedding.len() == memory.embedding@.len() / 4
            &&& m.kind is Fact <==> memory.kind@ == "fact"@
            &&& memory.created_at >= 0 ==> m.created_at == memory.created_at
        },
        message_fault(message) is None <==> ids::uuid_of(message.id@) is Some && ids::uuid_of(
            message.user_id@,
        ) is Some && (message.role@ == "assistant"@ || message.role@ == "system"@
            || message.role@ == "user"@),
{
    reveal_strlit("fact");
    reveal_strlit("preference");
    assert("fact"@.len() == 4 && "preference"@.len() == 10);
}

/// A message that is read from a row is the one that the row holds, column by column.
pub proof fn law_row_holds_its_message(m: StoredMessage, row: MessageColumns)
    requires
        is_message_in(m, row),
    ensures
        m.content@ == row.content@,
        ids::uuid_of(row.id@) == Some(m.id.0),
        ids::uuid_of(row.user_id@) == Some(m.user_id.0),
        row.role@ == role_word(m.role),
        row.created_at >= 0 ==> m.created_at == row.created_at,
        0 <= row.token_count <= u32::MAX ==> m.token_count.0 == row.token_count,
{
}

/// A user's conversation at a glance.
#[derive(Clone, Copy, Debug, PartialEq, Eq, Structural)]
pub struct ConversationSummary {
    pub first_message_at: u64,
    pub last_message_at: u64,
    pub message_count: u32,
    pub total_tokens: u64,
    pub user_id: UserId,
}

/// A user at a glance.
#[derive(Clone, Copy, Debug, PartialEq, Eq, Structural)]
pub struct UserSummary {
    pub last_activity_at: u64,
    pub memory_count: u32,
    pub message_count: u32,
    pub user_id: UserId,
}

/// A count brought between 0 and the largest.
pub fn clamp_u32(n: i64) -> (r: u32)
    ensures
        r == numbers::within(n as int, 0, u32::MAX as int),
{
    numbers::i64_to_u32(n)
}

/// The summary of a conversation in a row.
pub fn row_to_conversation_summary(
    user_id: &str,
    message_count: i64,
    total_tokens: i64,
    first_message_at: i64,
    last_message_at: i64,
) -> (r: Result<ConversationSummary, MemoryError>)
    ensures
        match r {
            Ok(s) => {
                &&& s.first_message_at == numbers::within(
                    first_message_at as int,
                    0,
                    u64::MAX as int,
                )
                &&& s.last_message_at == numbers::within(last_message_at as int, 0, u64::MAX as int)
                &&& s.message_count == numbers::within(message_count as int, 0, u32::MAX as int)
                &&& s.total_tokens == numbers::within(total_tokens as int, 0, u64::MAX as int)
                &&& ids::uuid_of(user_id@) == Some(s.user_id.0)
            },
            Err(MemoryError::RowDecode(e)) => ids::uuid_of(user_id@) is None && e@ == bad_uuid(
                "user id"@,
                user_id@,
            ),
            Err(_) => false,
        },
{
    match parse_uuid(user_id, "user id") {
        Ok(n) => Ok(
            ConversationSummary {
                first_message_at: numbers::i64_to_u64(first_message_at),
                last_message_at: numbers::i64_to_u64(last_message_at),
                message_count: clamp_u32(message_count),
                total_tokens: numbers::i64_to_u64(total_tokens),
                user_id: UserId(n),
            },
        ),
        Err(e) => Err(e),
    }
}

/// The summary of a user in a row.
pub fn row_to_user_summary(
    user_id: &str,
    message_count: i64,
    memory_count: i64,
    last_activity_at: i64,
) -> (r: Result<UserSummary, MemoryError>)
    ensures
        match r {
            Ok(s) => {
                &&& s.last_activity_at == numbers::unsigned(last_activity_at)
                &&& s.memory_count == numbers::within(memory_count as int, 0, u32::MAX as int)
                &&& s.message_count == numbers::within(message_count as int, 0, u32::MAX as int)
                &&& ids::uuid_of(user_id@) == Some(s.user_id.0)
            },
            Err(MemoryError::RowDecode(e)) => ids::uuid_of(user_id@) is None && e@ == bad_uuid(
                "user id"@,
                user_id@,
            ),
            Err(_) => false,
        },
{
    match parse_uuid(user_id, "user id") {
        Ok(n) => Ok(
            UserSummary {
                last_activity_at: numbers::same_bits_unsigned(last_activity_at),
                memory_count: clamp_u32(memory_count),
                message_count: clamp_u32(message_count),
                user_id: UserId(n),
            },
        ),
        Err(e) => Err(e),
    }
}

/// A vector of another length is reported with both lengths.
pub proof fn law_mismatch_tells_both_lengths(e: MemoryError, expected: usize, len: nat)
    requires
        is_mismatch(e, expected, len),
    ensures
        e matches MemoryError::DimensionMismatch { expected: x, got } && x == expected && got
            == len,
{
}

/// A column that cannot be read is reported by what it should hold, and bytes that hold no
/// vector by their length.
pub proof fn law_bad_column_is_named(label: Seq<char>, column: Seq<char>, len: nat)
    ensures
        text::contains_text(bad_uuid(label, column), label),
        text::contains_text(bad_blob(len), text::decimal(len)),
{
    text::lemma_says_two("invalid "@, label, ": "@, ids::uuid_parsed(column)->Err_0, Seq::empty());
    text::lemma_says_one(
        "embedding blob length "@,
        text::decimal(len),
        " is not a multiple of 4"@,
    );
}

} // verus!
