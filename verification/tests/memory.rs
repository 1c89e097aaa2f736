//! Memory: stored messages, recalled facts, and the context made of them.
use coulisse::fences::json_in;
use coulisse::floats::Single;
use coulisse::ids::{MessageId, UserId};
use coulisse::memory::admin::{
    message_rows, parse_user_id, recent_conversations, AdminError, ConversationRow, MemoryRow,
};
use coulisse::memory::config::{
    default_dedup_threshold, default_extractor_max_facts, default_memory_budget_fraction,
    BackendConfig, EmbedderConfig, ExtractorConfig, MemoryConfig, UserStateYaml,
};
use coulisse::memory::embedder::{
    openai_dims, voyage_dims, BundledEmbedder, EmbedderPlan, EmbeddingProvider, HashEmbedder,
};
use coulisse::memory::error::{ConfigError, MemoryError};
use coulisse::memory::extractor::{
    parse_facts, preamble, Exchange, ExtractError, Extractor, ParsedFact, RawFact, RawFactKind,
};
use coulisse::memory::store::{
    assemble_context, bytes_to_vec, check_dims, clamp_u32, memory_to_row, message_to_row, recall,
    role_str, row_to_conversation_summary, row_to_memory, row_to_stored_message,
    row_to_user_summary, vec_to_bytes, AssembledContext, ConversationSummary, MemoryRecord,
    ScoredMemory, Store,
};
use coulisse::memory::types::{Memory, MemoryKind, StoredMessage, TokenCount};
use coulisse::providers::conversation::Role;

const NOW: u64 = 1_700_000_000;

fn single(value: f32) -> Single {
    Single::from_bits(value.to_bits())
}

/// A store with an embedder by word counts.
struct Fixture {
    embedder: HashEmbedder,
    store: Store,
}

impl Fixture {
    fn new(dims: usize) -> Self {
        let config = EmbedderConfig::Hash { dims };
        Fixture { embedder: HashEmbedder::new(dims), store: Store::new(config.model_id()) }
    }

    fn embed(&self, text: &str) -> Vec<f32> {
        let counts = self.embedder.embed(text);
        let norm = counts.iter().map(|c| (*c as f32) * (*c as f32)).sum::<f32>().sqrt();
        counts.iter().map(|c| if norm > 0.0 { *c as f32 / norm } else { 0.0 }).collect()
    }

    fn similarity(a: &[f32], b: &[Single]) -> f32 {
        a.iter().zip(b).map(|(x, y)| x * f32::from_bits(y.bits)).sum()
    }

    fn vector(&self, text: &str) -> Vec<Single> {
        self.embed(text).into_iter().map(single).collect()
    }

    fn remember(&mut self, user: UserId, kind: MemoryKind, text: &str) {
        let v = self.vector(text);
        let n = self.embedder.ndims();
        self.store.remember(user, kind, text.to_string(), v, n, NOW).unwrap();
    }

    fn remember_if_novel(&mut self, user: UserId, text: &str, threshold: f32) -> bool {
        let query = self.embed(text);
        let similarities: Vec<Single> = self
            .store
            .load_memories(user)
            .iter()
            .map(|m| single(Self::similarity(&query, &m.embedding)))
            .collect();
        let v = self.vector(text);
        let n = self.embedder.ndims();
        self.store
            .remember_if_novel(
                user,
                MemoryKind::Fact,
                text.to_string(),
                v,
                n,
                &similarities,
                single(threshold),
                NOW,
            )
            .unwrap()
            .is_some()
    }

    fn recall(&self, user: UserId, query: &str, k: usize) -> Vec<Memory> {
        let q = self.embed(query);
        let scored: Vec<ScoredMemory> = self
            .store
            .load_memories(user)
            .into_iter()
            .map(|memory| ScoredMemory {
                similarity: single(Self::similarity(&q, &memory.embedding)),
                memory,
            })
            .collect();
        recall(&scored, k)
    }

    fn append(&mut self, user: UserId, role: Role, text: &str) {
        self.store.append_message(user, role, text.to_string(), None, NOW);
    }

    fn context(&self, user: UserId, budget: u32, query: &str) -> AssembledContext {
        let recalled = self.recall(user, query, 5);
        let memory_budget = TokenCount((budget as f32 * 0.1) as u32);
        assemble_context(recalled, &self.store.messages(user), memory_budget, TokenCount(budget))
    }
}

#[test]
fn recall_ranks_semantically_similar_content_first() {
    let mut f = Fixture::new(128);
    let user = UserId::new();
    f.remember(user, MemoryKind::Fact, "user loves italian food pasta pizza");
    f.remember(user, MemoryKind::Fact, "user drives a red tesla car");
    f.remember(user, MemoryKind::Preference, "user enjoys jazz music");
    let top = f.recall(user, "pizza pasta italian", 1);
    assert_eq!(top.len(), 1);
    assert!(top[0].content.contains("pasta"), "expected pasta memory on top, got {top:?}");
}

#[test]
fn assemble_context_returns_messages_chronologically() {
    let mut f = Fixture::new(128);
    let user = UserId::new();
    f.append(user, Role::User, "first");
    f.append(user, Role::Assistant, "second");
    f.append(user, Role::User, "third");
    let ctx = f.context(user, 1_000, "anything");
    let contents: Vec<_> = ctx.messages.iter().map(|m| m.content.clone()).collect();
    assert_eq!(contents, vec!["first", "second", "third"]);
}

#[test]
fn assemble_context_drops_oldest_when_over_budget() {
    let mut f = Fixture::new(128);
    let user = UserId::new();
    let long = "a".repeat(100);
    for i in 0..5 {
        f.append(user, Role::User, &format!("{long}-{i}"));
    }
    let ctx = f.context(user, 60, "q");
    assert!(ctx.messages.len() < 5, "expected some messages to be dropped");
    assert!(!ctx.messages.is_empty(), "expected at least one message");
    let last = ctx.messages.last().unwrap();
    assert!(last.content.ends_with("-4"), "newest message must be kept, got {}", last.content);
}

#[test]
fn assemble_context_includes_recalled_memories() {
    let mut f = Fixture::new(128);
    let user = UserId::new();
    f.remember(user, MemoryKind::Preference, "prefers dark mode");
    f.remember(user, MemoryKind::Fact, "lives in Paris");
    let ctx = f.context(user, 1_000, "dark mode settings");
    assert!(!ctx.memories.is_empty());
    assert!(ctx.memories[0].content.contains("dark"));
}

#[test]
fn memories_are_not_visible_across_users() {
    let mut f = Fixture::new(64);
    let alice = UserId::new();
    let bob = UserId::new();
    f.remember(alice, MemoryKind::Fact, "alice likes pizza");
    f.remember(bob, MemoryKind::Fact, "bob hates pineapple");
    let alice_recall = f.recall(alice, "food", 10);
    let bob_recall = f.recall(bob, "food", 10);
    assert_eq!(alice_recall.len(), 1);
    assert_eq!(bob_recall.len(), 1);
    assert!(alice_recall[0].content.contains("alice"));
    assert!(bob_recall[0].content.contains("bob"));
    assert_eq!(alice_recall[0].user_id, alice);
    assert_eq!(bob_recall[0].user_id, bob);
}

#[test]
fn messages_are_not_visible_across_users() {
    let mut f = Fixture::new(64);
    let alice = UserId::new();
    let bob = UserId::new();
    f.append(alice, Role::User, "alice says hi");
    f.append(bob, Role::User, "bob says hello");
    let alice_ctx = f.context(alice, 1_000, "hi");
    let bob_ctx = f.context(bob, 1_000, "hi");
    assert_eq!(alice_ctx.messages.len(), 1);
    assert_eq!(bob_ctx.messages.len(), 1);
    assert!(alice_ctx.messages[0].content.contains("alice"));
    assert!(bob_ctx.messages[0].content.contains("bob"));
}

#[test]
fn empty_user_sees_empty_context() {
    let f = Fixture::new(64);
    let ctx = f.context(UserId::new(), 1_000, "anything");
    assert!(ctx.memories.is_empty());
    assert!(ctx.messages.is_empty());
}

#[test]
fn counts_are_per_user() {
    let mut f = Fixture::new(64);
    let alice = UserId::new();
    let bob = UserId::new();
    for i in 0..5 {
        f.append(alice, Role::User, &format!("alice msg {i}"));
    }
    for i in 0..2 {
        f.append(bob, Role::User, &format!("bob msg {i}"));
    }
    assert_eq!(f.store.message_count(alice), 5);
    assert_eq!(f.store.message_count(bob), 2);
}

#[test]
fn data_survives_process_restart() {
    let mut f = Fixture::new(64);
    let user = UserId::new();
    f.remember(user, MemoryKind::Fact, "user lives in Paris");
    f.append(user, Role::User, "hello");
    let model = EmbedderConfig::Hash { dims: 64 }.model_id();
    let rows: Vec<_> = f.store.messages(user).iter().map(message_to_row).collect();
    let memory_rows: Vec<_> = f.store.memories(user).iter().map(memory_to_row).collect();
    let reopened = Store::restore(
        rows.into_iter().map(|r| row_to_stored_message(r).unwrap()).collect(),
        memory_rows
            .into_iter()
            .map(|r| MemoryRecord { memory: row_to_memory(r).unwrap(), model: model.clone() })
            .collect(),
        model.clone(),
    );
    let memories = reopened.memories(user);
    let messages = reopened.messages(user);
    assert_eq!(memories.len(), 1);
    assert!(memories[0].content.contains("Paris"));
    assert_eq!(memories[0].embedding, f.vector("user lives in Paris"));
    assert_eq!(messages.len(), 1);
    assert_eq!(messages[0].content, "hello");
}

#[test]
fn remember_if_novel_skips_duplicates() {
    let mut f = Fixture::new(64);
    let user = UserId::new();
    assert!(f.remember_if_novel(user, "user lives in Paris", 0.9));
    assert!(
        !f.remember_if_novel(user, "user lives in Paris", 0.9),
        "exact duplicate should have been skipped"
    );
    assert!(
        f.remember_if_novel(user, "user drives a tesla", 0.9),
        "unrelated fact should be stored"
    );
    assert_eq!(f.store.memory_count(user), 2);
}

#[test]
fn fact_as_similar_as_the_threshold_is_novel() {
    let mut f = Fixture::new(8);
    let user = UserId(1);
    f.remember(user, MemoryKind::Fact, "a");
    let mut novel = |similarity: f32, threshold: f32| {
        let known = f.store.load_memories(user).len();
        f.store
            .remember_if_novel(
                user,
                MemoryKind::Fact,
                "b".to_string(),
                vec![single(0.0); 8],
                8,
                &vec![single(similarity); known],
                single(threshold),
                NOW,
            )
            .unwrap()
            .is_some()
    };
    assert!(!novel(0.91, 0.9));
    assert!(novel(0.9, 0.9));
    assert!(novel(f32::NAN, 0.9));
}

#[test]
fn recall_ignores_memories_from_different_embedder_model() {
    let mut a = Fixture::new(32);
    let user = UserId::new();
    a.remember(user, MemoryKind::Fact, "written by embedder A");
    let record = MemoryRecord {
        memory: a.store.memories(user).remove(0),
        model: EmbedderConfig::Hash { dims: 32 }.model_id(),
    };
    let b = Fixture {
        embedder: HashEmbedder::new(64),
        store: Store::restore(vec![], vec![record], EmbedderConfig::Hash { dims: 64 }.model_id()),
    };
    let recalled = b.recall(user, "anything", 10);
    assert!(
        recalled.is_empty(),
        "memories from a different embedder should not be recalled, got {recalled:?}"
    );
    assert!(b.store.load_memories(user).is_empty());
    assert_eq!(b.store.memories(user).len(), 1);
    assert_eq!(b.store.memory_count(user), 1);
}

#[test]
fn vectors_of_another_size_are_refused() {
    let mut store = Store::new("m".to_string());
    let r = store.remember(UserId(1), MemoryKind::Fact, "x".into(), vec![single(1.0)], 2, NOW);
    assert!(matches!(r, Err(MemoryError::DimensionMismatch { expected: 2, got: 1 })));
    assert!(check_dims(&vec![single(1.0)], 1).is_ok());
    assert!(store.memories(UserId(1)).is_empty());
}

#[test]
fn vectors_round_trip_as_bytes() {
    let v = vec![single(1.5), single(-0.0), single(f32::MAX)];
    let bytes = vec_to_bytes(&v);
    assert_eq!(&bytes[..4], &1.5f32.to_le_bytes());
    assert_eq!(bytes_to_vec(&bytes).unwrap(), v);
    assert!(matches!(bytes_to_vec(&vec![1, 2, 3]), Err(MemoryError::RowDecode(_))));
}

#[test]
fn tokens_are_estimated_by_length() {
    assert_eq!(TokenCount::estimate("").0, 1);
    assert_eq!(TokenCount::estimate("abcd").0, 2);
    assert_eq!(TokenCount::estimate(&"a".repeat(102)).0, 26);
    assert_eq!(TokenCount(1).saturating_sub(TokenCount(2)).0, 0);
    assert_eq!(TokenCount(u32::MAX).saturating_add(TokenCount(2)).0, u32::MAX);
}

#[test]
fn memories_fit_their_budget() {
    let memory = |content: &str| {
        Memory::new(UserId(1), MemoryKind::Fact, content.to_string(), vec![], NOW)
    };
    let kept = TokenCount(5).fit_memories(vec![memory("abcd"), memory("abcdefgh"), memory("x")]);
    assert_eq!(kept.len(), 2);
    let kept = TokenCount(4).fit_memories(vec![memory("abcd"), memory("abcdefgh"), memory("x")]);
    assert_eq!(kept.len(), 1);
    assert!(TokenCount(0).fit_memories(vec![memory("abcd")]).is_empty());
}

#[test]
fn rows_of_the_wrong_shape_are_refused() {
    let message = StoredMessage::new(UserId(1), Role::User, "hi".to_string(), NOW);
    let mut row = message_to_row(&message);
    row.role = "robot".to_string();
    assert!(matches!(row_to_stored_message(row), Err(MemoryError::RowDecode(_))));
    let mut row = message_to_row(&message);
    row.id = "x".to_string();
    assert!(row_to_stored_message(row).is_err());
    let memory = Memory::new(UserId(1), MemoryKind::Fact, "x".to_string(), vec![], NOW);
    let mut row = memory_to_row(&memory);
    row.kind = "dream".to_string();
    assert!(matches!(row_to_memory(row), Err(MemoryError::RowDecode(_))));
}

#[test]
fn stored_messages_keep_their_id() {
    let m = StoredMessage::new_with_id(
        UserId(1),
        Role::Assistant,
        "hi".to_string(),
        MessageId(9),
        NOW,
    );
    assert_eq!(m.id, MessageId(9));
    assert_eq!(m.as_message().content, "hi");
    assert_eq!(m.as_message().role, Role::Assistant);
    let mut store = Store::new("m".to_string());
    let id =
        store.append_message(UserId(1), Role::User, "x".to_string(), Some(MessageId(4)), NOW);
    assert_eq!(id, MessageId(4));
    assert_eq!(store.messages(UserId(1))[0].created_at, NOW);
}

#[test]
fn kinds_and_roles_have_words() {
    assert_eq!(MemoryKind::parse("fact").unwrap(), MemoryKind::Fact);
    assert_eq!(MemoryKind::Preference.as_str(), "preference");
    match MemoryKind::parse("dream") {
        Err(e) => assert!(e.to_text().contains("dream"), "{}", e.to_text()),
        Ok(_) => panic!("no such kind"),
    }
    assert_eq!(role_str(Role::Assistant), "assistant");
    assert_eq!(role_str(Role::System), "system");
    assert_eq!(role_str(Role::User), "user");
}

#[test]
fn defaults_are_as_documented() {
    let config = MemoryConfig::default();
    assert_eq!(config.context_budget.0, 8000);
    assert_eq!(config.recall_k, 5);
    assert!(config.extractor.is_none());
    assert_eq!(f32::from_bits(default_dedup_threshold().bits), 0.9);
    assert_eq!(f32::from_bits(default_memory_budget_fraction().bits), 0.1);
    assert!(default_extractor_max_facts() > 0);
    assert_eq!(UserStateYaml::OnOff(true).parts().0, true);
    assert!(UserStateYaml::OnOff(false).parts().1.is_none());
}

#[test]
fn storage_is_memory_or_a_path() {
    assert!(matches!(BackendConfig::from_storage(":memory:"), BackendConfig::InMemory));
    assert!(matches!(
        BackendConfig::from_storage("/tmp/x.db"),
        BackendConfig::Sqlite { path } if path == "/tmp/x.db"
    ));
    assert_eq!(BackendConfig::InMemory.max_connections(), 1);
}

#[test]
fn embedders_are_named_by_model() {
    assert_ne!(
        EmbedderConfig::Hash { dims: 32 }.model_id(),
        EmbedderConfig::Hash { dims: 64 }.model_id()
    );
    assert_eq!(openai_dims("text-embedding-3-small").unwrap(), 1536);
    assert!(matches!(openai_dims("nope"), Err(ConfigError::UnknownModel { .. })));
    assert!(matches!(voyage_dims("nope"), Err(ConfigError::UnknownModel { .. })));
    let openai = EmbedderConfig::Openai {
        api_key: None,
        model: "text-embedding-3-small".to_string(),
    };
    assert!(matches!(
        BundledEmbedder::from_config(&openai, None),
        Err(ConfigError::MissingApiKey { .. })
    ));
    let request = match BundledEmbedder::from_config(&openai, Some("key")).unwrap() {
        EmbedderPlan::Client(request) => request,
        other => panic!("{other:?}"),
    };
    assert_eq!(request.key, "key");
    assert_eq!(request.provider, EmbeddingProvider::Openai);
    assert_eq!(BundledEmbedder::with_client(request, Ok(())).unwrap().ndims(), 1536);
    match BundledEmbedder::from_config(&EmbedderConfig::Hash { dims: 16 }, None).unwrap() {
        EmbedderPlan::Hash(h) => assert_eq!(h.ndims(), 16),
        other => panic!("{other:?}"),
    }
}

#[test]
fn words_are_counted_without_case() {
    let e = HashEmbedder::new(64);
    assert_eq!(e.embed("Pizza\t PASTA"), e.embed("pizza pasta"));
    assert_eq!(e.embed("a a b").iter().sum::<u64>(), 3);
    assert_ne!(e.embed("a"), e.embed("completely different words"));
    assert_eq!(e.embed("\u{c9}T\u{c9}"), e.embed("\u{e9}t\u{e9}"));
    assert_eq!(e.embed("").iter().sum::<u64>(), 0);
}

fn facts(answer: &str) -> Result<Vec<ParsedFact>, ExtractError> {
    let parsed = match json_in(answer) {
        Some(body) => serde_json::from_str::<Vec<serde_json::Value>>(&body)
            .map_err(|e| e.to_string())
            .map(|all| {
                all.iter()
                    .map(|v| RawFact {
                        content: v["content"].as_str().unwrap().to_string(),
                        kind: RawFactKind::parse(v["kind"].as_str().unwrap()),
                    })
                    .collect()
            }),
        None => Err(String::new()),
    };
    parse_facts(answer, parsed)
}

#[test]
fn facts_are_read_from_the_answer() {
    let found = facts(
        "```json\n[{\"content\": \" user lives in Paris \", \"kind\": \"fact\"}, \
         {\"content\": \"x\", \"kind\": \"mood\"}, {\"content\": \"  \", \"kind\": \"fact\"}, \
         {\"content\": \"likes tea\", \"kind\": \"preference\"}]\n```",
    )
    .unwrap();
    assert_eq!(found.len(), 2);
    assert_eq!(found[0].content, "user lives in Paris");
    assert_eq!(found[0].kind, MemoryKind::Fact);
    assert_eq!(found[1].kind, MemoryKind::Preference);
    assert!(facts("  ").unwrap().is_empty());
    assert!(matches!(
        facts("no"),
        Err(ExtractError::NonJson { output, .. }) if output == "no"
    ));
}

#[test]
fn extractor_takes_the_first_facts() {
    let extractor = Extractor::new(ExtractorConfig {
        dedup_threshold: single(0.5),
        max_facts_per_turn: 1,
        model: "m".to_string(),
        provider: "openai".to_string(),
    });
    assert_eq!(extractor.max_facts_per_turn(), 1);
    assert_eq!(extractor.model(), "m");
    assert_eq!(extractor.provider(), "openai");
    assert_eq!(extractor.dedup_threshold(), single(0.5));
    let fact = |c: &str| ParsedFact { content: c.to_string(), kind: MemoryKind::Fact };
    let kept = extractor.run(vec![fact("a"), fact("b")]);
    assert_eq!(kept.len(), 1);
    assert_eq!(kept[0].content, "a");
    let exchange =
        Exchange { assistant_message: "a".to_string(), user_message: "u".to_string() };
    assert_eq!(
        exchange.prompt_text(),
        "User: u\n\nAssistant: a\n\nReturn the JSON array now."
    );
    assert!(preamble().starts_with("You extract durable facts"));
}

fn summary(user: u128, last: u64) -> ConversationSummary {
    ConversationSummary {
        first_message_at: last - 90,
        last_message_at: last,
        message_count: 2,
        total_tokens: 12_345,
        user_id: UserId(user),
    }
}

#[test]
fn conversations_are_summed_up() {
    let row = ConversationRow::from_summary(&summary(1, NOW - 3600), NOW);
    assert_eq!(row.last_activity_at, "1h ago");
    assert_eq!(row.total_tokens, "12,345");
    assert_eq!(row.message_count, 2);
    let all: Vec<ConversationSummary> = (0..15).map(|i| summary(i, NOW)).collect();
    let recent = recent_conversations(&all, NOW);
    assert_eq!(recent.len(), 10);
    assert_eq!(recent[0].user_id, "00000000-0000-0000-0000-000000000000");
    assert_eq!(recent[0].user_id_short, "00000000\u{2026}");
}

#[test]
fn summaries_are_decoded_from_rows() {
    let id = "00000000-0000-0000-0000-00000000002a";
    let s = row_to_conversation_summary(id, 3, 7, 1, 2).unwrap();
    assert_eq!(s.user_id, UserId(42));
    assert_eq!(s.message_count, 3);
    assert_eq!(s.total_tokens, 7);
    let u = row_to_user_summary(id, 3, -4, 5).unwrap();
    assert_eq!(u.memory_count, 0);
    assert_eq!(u.last_activity_at, 5);
    assert!(row_to_user_summary("x", 1, 1, 1).is_err());
    assert_eq!(clamp_u32(-1), 0);
    assert_eq!(clamp_u32(i64::MAX), u32::MAX);
}

#[test]
fn admin_rows_show_messages_and_memories() {
    let messages = vec![
        StoredMessage::new(UserId(1), Role::User, "hi".to_string(), NOW),
        StoredMessage::new(UserId(1), Role::Assistant, "ho".to_string(), NOW),
    ];
    let rows = message_rows(&messages, NOW);
    assert_eq!(rows.len(), 2);
    assert!(rows.iter().any(|r| r.is_assistant && r.content == "ho"));
    let memory = Memory::new(UserId(1), MemoryKind::Fact, "x".to_string(), vec![], NOW);
    let row = MemoryRow::from_memory(&memory, NOW);
    assert_eq!(row.content, "x");
    assert!(matches!(parse_user_id("x"), Err(AdminError::InvalidUserId)));
    assert_eq!(AdminError::InvalidUserId.status(), 400);
    assert_eq!(AdminError::Memory("x".to_string()).status(), 500);
}

#[test]
fn shared_words_point_the_same_way() {
    for dims in [1, 7, 64] {
        let embedder = HashEmbedder::new(dims);
        let a = embedder.embed("user lives in Paris");
        let b = embedder.embed("PARIS is large");
        assert!(a.iter().zip(&b).map(|(x, y)| x * y).sum::<u64>() > 0, "{dims}");
    }
}
