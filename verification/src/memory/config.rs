//! How memory is configured.
use vstd::prelude::*;

use crate::floats::{single, Single};
use crate::memory::types::{TokenCount, DEFAULT_CONTEXT_BUDGET};
use crate::text;

verus! {

/// The bits of 0.9.
pub const DEDUP_THRESHOLD: u32 = 0x3f66_6666;

/// The bits of 0.1.
pub const MEMORY_BUDGET_FRACTION: u32 = 0x3dcc_cccd;

/// Memory as it is written in the configuration file.
#[derive(Debug)]
pub struct MemoryYaml {
    pub storage: Option<String>,
    pub user_state: UserStateYaml,
}

/// Whether facts about users are remembered: not at all, as usual, or in a way of its
/// own.
#[derive(Debug)]
pub enum UserStateYaml {
    Configured(UserStateConfig),
    OnOff(bool),
}

impl Default for UserStateYaml {
    fn default() -> (r: Self)
        ensures
            r == UserStateYaml::OnOff(false),
    {
        UserStateYaml::OnOff(false)
    }
}

impl Default for MemoryYaml {
    fn default() -> (r: Self)
        ensures
            r.storage is None,
            r.user_state == UserStateYaml::OnOff(false),
    {
        MemoryYaml { storage: None, user_state: UserStateYaml::default() }
    }
}

impl UserStateYaml {
    /// Whether facts are remembered, and what is set of how.
    pub fn parts(&self) -> (r: (bool, Option<&UserStateConfig>))
        ensures
            match self {
                UserStateYaml::Configured(cfg) => r.0 && r.1 == Some(cfg),
                UserStateYaml::OnOff(on) => r.0 == *on && r.1 is None,
            },
    {
        match self {
            UserStateYaml::Configured(cfg) => (true, Some(cfg)),
            UserStateYaml::OnOff(on) => (*on, None),
        }
    }
}

/// How facts about users are remembered; what is not set is as usual.
#[derive(Debug)]
pub struct UserStateConfig {
    pub dedup_threshold: Option<Single>,
    pub embed_with: Option<EmbedderYaml>,
    pub learn_from: Option<ProviderModel>,
    pub max_facts_per_turn: Option<usize>,
    pub recall_k: Option<usize>,
}

/// A model of a provider.
#[derive(Debug)]
pub struct ProviderModel {
    pub model: String,
    pub provider: String,
}

/// An embedder as it is written in the configuration file.
#[derive(Debug)]
pub enum EmbedderYaml {
    Hash { dims: Option<usize> },
    Openai { api_key: Option<String>, model: Option<String> },
    Voyage { api_key: Option<String>, model: Option<String> },
}

/// Memory as it is used.
#[derive(Debug)]
pub struct MemoryConfig {
    pub backend: BackendConfig,
    pub context_budget: TokenCount,
    pub embedder: EmbedderConfig,
    pub extractor: Option<ExtractorConfig>,
    pub memory_budget_fraction: Single,
    pub recall_k: usize,
}

impl Default for MemoryConfig {
    fn default() -> (r: Self)
        ensures
            r.backend matches BackendConfig::Sqlite { path } && path@ == "./coulisse-memory.db"@,
            r.context_budget.0 == DEFAULT_CONTEXT_BUDGET,
            r.embedder == (EmbedderConfig::Hash { dims: 32 }),
            r.extractor is None,
            r.memory_budget_fraction == single(MEMORY_BUDGET_FRACTION),
            r.recall_k == 5,
    {
        MemoryConfig {
            backend: BackendConfig::default(),
            context_budget: default_context_budget(),
            embedder: EmbedderConfig::default(),
            extractor: None,
            memory_budget_fraction: default_memory_budget_fraction(),
            recall_k: default_recall_k(),
        }
    }
}

/// Where memory is kept: only while the process runs, or in a file.
#[derive(Debug)]
pub enum BackendConfig {
    InMemory,
    Sqlite { path: String },
}

impl Default for BackendConfig {
    fn default() -> (r: Self)
        ensures
            r matches BackendConfig::Sqlite { path } && path@ == "./coulisse-memory.db"@,
    {
        BackendConfig::Sqlite { path: default_sqlite_path() }
    }
}

impl BackendConfig {
    /// Where memory is kept, as it is written in the configuration file.
    pub fn from_storage(value: &str) -> (r: Self)
        ensures
            match r {
                BackendConfig::InMemory => value@ == ":memory:"@,
                BackendConfig::Sqlite { path } => value@ != ":memory:"@ && path@ == value@,
            },
    {
        if text::str_eq(value, ":memory:") {
            BackendConfig::InMemory
        } else {
            BackendConfig::Sqlite { path: String::from_str(value) }
        }
    }

    /// How many connections to the database are held. What is kept while the process runs
    /// is seen by one connection only.
    pub fn max_connections(&self) -> (r: u32)
        ensures
            r == if self is InMemory {
                1u32
            } else {
                5u32
            },
    {
        match self {
            BackendConfig::InMemory => 1,
            BackendConfig::Sqlite { .. } => 5,
        }
    }
}

/// What turns texts into vectors.
#[derive(Debug)]
pub enum EmbedderConfig {
    Hash { dims: usize },
    Openai { api_key: Option<String>, model: String },
    Voyage { api_key: Option<String>, model: String },
}

impl Default for EmbedderConfig {
    fn default() -> (r: Self)
        ensures
            r == (EmbedderConfig::Hash { dims: 32 }),
    {
        EmbedderConfig::Hash { dims: default_hash_dims() }
    }
}

/// The name under which an embedder's vectors are stored.
pub open spec fn model_name(config: EmbedderConfig) -> Seq<char> {
    match config {
        EmbedderConfig::Hash { dims } => "hash-"@ + text::decimal(dims as nat),
        EmbedderConfig::Openai { model, .. } => "openai:"@ + model@,
        EmbedderConfig::Voyage { model, .. } => "voyage:"@ + model@,
    }
}

impl EmbedderConfig {
    /// The name under which the embedder's vectors are stored, so that those of another
    /// are not taken for its own.
    pub fn model_id(&self) -> (r: String)
        ensures
            r@ == model_name(*self),
    {
        match self {
            EmbedderConfig::Hash { dims } => {
                let mut out = String::from_str("hash-");
                out.append(text::format_u64(*dims as u64).as_str());
                out
            },
            EmbedderConfig::Openai { model, .. } => {
                let mut out = String::from_str("openai:");
                out.append(model.as_str());
                out
            },
            EmbedderConfig::Voyage { model, .. } => {
                let mut out = String::from_str("voyage:");
                out.append(model.as_str());
                out
            },
        }
    }
}

/// How facts are extracted.
#[derive(Debug)]
pub struct ExtractorConfig {
    pub dedup_threshold: Single,
    pub max_facts_per_turn: usize,
    pub model: String,
    pub provider: String,
}

/// From which similarity on two memories are taken for the same.
pub fn default_dedup_threshold() -> (r: Single)
    ensures
        r == single(DEDUP_THRESHOLD),
{
    Single::from_bits(DEDUP_THRESHOLD)
}

/// How many facts are taken from one exchange.
pub fn default_extractor_max_facts() -> (r: usize)
    ensures
        r == 5,
{
    5
}

/// How long the vectors of the hashing embedder are.
pub fn default_hash_dims() -> (r: usize)
    ensures
        r == 32,
{
    32
}

/// How many memories are recalled.
pub fn default_recall_k() -> (r: usize)
    ensures
        r == 5,
{
    5
}

/// Where the database lies.
pub fn default_sqlite_path() -> (r: String)
    ensures
        r@ == "./coulisse-memory.db"@,
{
    String::from_str("./coulisse-memory.db")
}

/// Voyage's model for embeddings.
pub fn default_voyage_model() -> (r: String)
    ensures
        r@ == "voyage-3.5"@,
{
    String::from_str("voyage-3.5")
}

/// OpenAI's model for embeddings.
pub fn default_openai_embedding_model() -> (r: String)
    ensures
        r@ == "text-embedding-3-small"@,
{
    String::from_str("text-embedding-3-small")
}

/// The tokens that memories and history may take.
pub fn default_context_budget() -> (r: TokenCount)
    ensures
        r.0 == DEFAULT_CONTEXT_BUDGET,
{
    TokenCount(DEFAULT_CONTEXT_BUDGET)
}

/// The fraction of them that memories may take.
pub fn default_memory_budget_fraction() -> (r: Single)
    ensures
        r == single(MEMORY_BUDGET_FRACTION),
{
    Single::from_bits(MEMORY_BUDGET_FRACTION)
}

/// Vectors of different embedders are stored under different names.
pub proof fn law_model_names_tell_apart(a: EmbedderConfig, b: EmbedderConfig)
    requires
        model_name(a) == model_name(b),
    ensures
        match (a, b) {
            (EmbedderConfig::Hash { dims: x }, EmbedderConfig::Hash { dims: y }) => x == y,
            (EmbedderConfig::Openai { model: x, .. }, EmbedderConfig::Openai { model: y, .. }) => {
                x@ == y@
            },
            (EmbedderConfig::Voyage { model: x, .. }, EmbedderConfig::Voyage { model: y, .. }) => {
                x@ == y@
            },
            _ => false,
        },
{
    reveal_strlit("hash-");
    reveal_strlit("openai:");
    reveal_strlit("voyage:");
    assert(a is Hash ==> model_name(a)[0] == 'h');
    assert(a is Openai ==> model_name(a)[0] == 'o');
    assert(a is Voyage ==> model_name(a)[0] == 'v');
    assert(b is Hash ==> model_name(b)[0] == 'h');
    assert(b is Openai ==> model_name(b)[0] == 'o');
    assert(b is Voyage ==> model_name(b)[0] == 'v');
    match (a, b) {
        (EmbedderConfig::Hash { dims: x }, EmbedderConfig::Hash { dims: y }) => {
            assert(model_name(a).skip(5) =~= text::decimal(x as nat));
            assert(model_name(b).skip(5) =~= text::decimal(y as nat));
            text::lemma_decimal(x as nat);
            text::lemma_decimal(y as nat);
        },
        (EmbedderConfig::Openai { model: x, .. }, EmbedderConfig::Openai { model: y, .. }) => {
            assert(model_name(a).skip(7) =~= x@);
            assert(model_name(b).skip(7) =~= y@);
        },
        (EmbedderConfig::Voyage { model: x, .. }, EmbedderConfig::Voyage { model: y, .. }) => {
            assert(model_name(a).skip(7) =~= x@);
            assert(model_name(b).skip(7) =~= y@);
        },
        _ => {},
    }
}

} // verus!
