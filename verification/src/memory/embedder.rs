//! What turns texts into vectors.
use std::hash::{DefaultHasher, Hasher};

use vstd::prelude::*;
use vstd::std_specs::hash::DefaultHasherAdditionalSpecFns;
use vstd::utf8::encode_utf8;

use crate::memory::config::EmbedderConfig;
use crate::memory::error::ConfigError;
use crate::seqs;
use crate::text;

verus! {

/// The lower-case form of a text.
pub uninterp spec fn lowercased(s: Seq<char>) -> Seq<char>;

/// `str::to_lowercase`.
#[verifier::external_body]
fn to_lowercase(s: &str) -> (r: String)
    ensures
        r@ == lowercased(s@),
{
    s.to_lowercase()
}

/// An embedder that counts words by their hashes. Texts with words in common have similar
/// vectors, and that is all it understands.
#[derive(Debug)]
pub struct HashEmbedder {
    dims: usize,
}

/// The place of a word in a vector.
pub open spec fn slot(word: Seq<char>, dims: usize) -> int {
    DefaultHasher::spec_finish(seq![encode_utf8(word), seq![0xffu8]]) as usize as int % dims as int
}

/// How many of the words have a place.
pub open spec fn words_at(words: Seq<Seq<char>>, dims: usize, i: int) -> nat {
    seqs::count_true(words.map_values(|w: Seq<char>| slot(w, dims) == i))
}

/// The place of a word in a vector.
fn slot_of(word: &str, dims: usize) -> (r: usize)
    requires
        dims > 0,
    ensures
        r == slot(word@, dims),
        r < dims,
{
    let mut hasher = DefaultHasher::new();
    let end: Vec<u8> = vec![0xff];
    hasher.write(word.as_bytes());
    hasher.write(end.as_slice());
    assert(hasher@ =~= seq![encode_utf8(word@), seq![0xffu8]]) by {
        assert(end@ =~= seq![0xffu8]);
    }
    let n: usize = hasher.finish() as usize;
    n % dims
}

impl HashEmbedder {
    /// How long the vectors are.
    pub closed spec fn len(&self) -> nat {
        self.dims as nat
    }

    /// The vectors have a length.
    #[verifier::type_invariant]
    spec fn positive(&self) -> bool {
        self.dims > 0
    }

    /// An embedder with vectors of a length.
    pub fn new(dims: usize) -> (r: Self)
        requires
            dims > 0,
        ensures
            r.len() == dims,
    {
        HashEmbedder { dims }
    }

    /// How long the vectors are.
    pub fn ndims(&self) -> (r: usize)
        ensures
            r == self.len(),
            r > 0,
    {
        proof {
            use_type_invariant(self);
        }
        self.dims
    }

    /// The direction of a text's vector: at each place, how many of its words have that
    /// place. The vector itself has the same direction and length one.
    pub fn embed(&self, text: &str) -> (r: Vec<u64>)
        ensures
            r@.len() == self.len(),
            forall|i: int|
                0 <= i < r@.len() ==> #[trigger] r@[i] == words_at(
                    text::words(lowercased(text@)),
                    self.len() as usize,
                    i,
                ),
    {
        proof {
            use_type_invariant(self);
        }
        let dims: usize = self.dims;
        let lower = to_lowercase(text);
        let words = text::split_whitespace(lower.as_str());
        let ghost all = text::texts(words@);
        let mut counts: Vec<u64> = Vec::new();
        let mut k: usize = 0;
        while k < dims
            invariant
                k <= dims,
                counts@.len() == k,
                forall|i: int| 0 <= i < k ==> #[trigger] counts@[i] == 0,
            decreases dims - k,
        {
            counts.push(0);
            k = k + 1;
        }
        let len: usize = words.len();
        let mut j: usize = 0;
        assert(all.take(0) =~= Seq::empty());
        assert forall|i: int| 0 <= i < dims implies #[trigger] words_at(all.take(0), dims, i)
            == 0 by {
            assert(all.take(0).map_values(|w: Seq<char>| slot(w, dims) == i) =~= Seq::empty());
        }
        while j < len
            invariant
                j <= len == words@.len(),
                dims > 0,
                all == text::texts(words@),
                counts@.len() == dims,
                forall|i: int|
                    0 <= i < dims ==> #[trigger] counts@[i] == words_at(
                        all.take(j as int),
                        dims,
                        i,
                    ),
            decreases len - j,
        {
            let at: usize = slot_of(words[j].as_str(), dims);
            let ghost before = counts@;
            proof {
                assert(all[j as int] == words@[j as int]@);
                lemma_words_bound(all.take(j as int), dims, at as int);
            }
            assert(counts@[at as int] <= j);
            let count: u64 = counts[at];
            counts.set(at, count + 1);
            proof {
                assert forall|i: int| 0 <= i < dims implies #[trigger] counts@[i] == words_at(
                    all.take(j + 1),
                    dims,
                    i,
                ) by {
                    seqs::lemma_count_true_step(
                        all,
                        |w: Seq<char>| slot(w, dims) == i,
                        j as int,
                    );
                    assert(before[i] == words_at(all.take(j as int), dims, i));
                }
            }
            j = j + 1;
        }
        assert(all.take(j as int) =~= all);
        counts
    }
}

impl Default for HashEmbedder {
    fn default() -> (r: Self)
        ensures
            r.len() == 32,
    {
        HashEmbedder::new(32)
    }
}

proof fn lemma_words_bound(words: Seq<Seq<char>>, dims: usize, i: int)
    ensures
        words_at(words, dims, i) <= words.len(),
{
    seqs::lemma_count_true_bound(words.map_values(|w: Seq<char>| slot(w, dims) == i));
}

/// How long the vectors of OpenAI's models are.
pub open spec fn openai_len(model: Seq<char>) -> Option<usize> {
    if model == "text-embedding-3-large"@ {
        Some(3072)
    } else if model == "text-embedding-3-small"@ || model == "text-embedding-ada-002"@ {
        Some(1536)
    } else {
        None
    }
}

/// How long the vectors of Voyage's models are.
pub open spec fn voyage_len(model: Seq<char>) -> Option<usize> {
    if model == "voyage-3-large"@ || model == "voyage-3.5"@ || model == "voyage-3.5-lite"@ || model
        == "voyage-code-3"@ || model == "voyage-finance-2"@ || model == "voyage-law-2"@ {
        Some(1024)
    } else if model == "voyage-code-2"@ {
        Some(1536)
    } else {
        None
    }
}

/// The error of a model that a provider does not have.
pub open spec fn is_unknown_model(e: ConfigError, provider: Seq<char>, model: Seq<char>) -> bool {
    match e {
        ConfigError::UnknownModel { model: m, provider: p } => m@ == model && p@ == provider,
        _ => false,
    }
}

fn unknown_model(provider: &str, model: &str) -> (r: ConfigError)
    ensures
        is_unknown_model(r, provider@, model@),
{
    ConfigError::UnknownModel { model: String::from_str(model), provider: String::from_str(provider) }
}

/// How long the vectors of one of OpenAI's models are.
pub fn openai_dims(model: &str) -> (r: Result<usize, ConfigError>)
    ensures
        match r {
            Ok(n) => openai_len(model@) == Some(n),
            Err(e) => openai_len(model@) is None && is_unknown_model(e, "openai"@, model@),
        },
{
    if text::str_eq(model, "text-embedding-3-large") {
        Ok(3072)
    } else if text::str_eq(model, "text-embedding-3-small") || text::str_eq(
        model,
        "text-embedding-ada-002",
    ) {
        Ok(1536)
    } else {
        Err(unknown_model("openai", model))
    }
}

/// How long the vectors of one of Voyage's models are.
pub fn voyage_dims(model: &str) -> (r: Result<usize, ConfigError>)
    ensures
        match r {
            Ok(n) => voyage_len(model@) == Some(n),
            Err(e) => voyage_len(model@) is None && is_unknown_model(e, "voyage"@, model@),
        },
{
    if text::str_eq(model, "voyage-3-large") || text::str_eq(model, "voyage-3.5") || text::str_eq(
        model,
        "voyage-3.5-lite",
    ) || text::str_eq(model, "voyage-code-3") || text::str_eq(model, "voyage-finance-2")
        || text::str_eq(model, "voyage-law-2") {
        Ok(1024)
    } else if text::str_eq(model, "voyage-code-2") {
        Ok(1536)
    } else {
        Err(unknown_model("voyage", model))
    }
}

/// Which of the providers turns texts into vectors.
#[derive(Clone, Copy, Debug, PartialEq, Eq, Structural)]
pub enum EmbeddingProvider {
    Openai,
    Voyage,
}

/// The name that a provider goes by.
pub open spec fn provider_word(provider: EmbeddingProvider) -> Seq<char> {
    match provider {
        EmbeddingProvider::Openai => "openai"@,
        EmbeddingProvider::Voyage => "voyage"@,
    }
}

/// How long the vectors of a provider's model are.
pub open spec fn vector_len(provider: EmbeddingProvider, model: Seq<char>) -> Option<usize> {
    match provider {
        EmbeddingProvider::Openai => openai_len(model),
        EmbeddingProvider::Voyage => voyage_len(model),
    }
}

impl EmbeddingProvider {
    /// The name that the provider goes by.
    pub fn as_str(self) -> (r: &'static str)
        ensures
            r@ == provider_word(self),
    {
        match self {
            EmbeddingProvider::Openai => "openai",
            EmbeddingProvider::Voyage => "voyage",
        }
    }
}

/// A client that has to be made before the embedder is there.
#[derive(Debug)]
pub struct ClientRequest {
    pub key: String,
    pub model: String,
    pub provider: EmbeddingProvider,
}

/// How an embedder is built: at once, or with a client.
#[derive(Debug)]
pub enum EmbedderPlan {
    Client(ClientRequest),
    Hash(HashEmbedder),
}

/// An embedder that is there.
#[derive(Debug)]
pub enum BundledEmbedder {
    Hash(HashEmbedder),
    Remote { dims: usize, model: String, provider: EmbeddingProvider },
}

/// The key that is used: the embedder's own, or the one to fall back on.
pub open spec fn chosen_key(own: Option<Seq<char>>, fallback: Option<Seq<char>>) -> Option<
    Seq<char>,
> {
    match own {
        Some(key) => Some(key),
        None => fallback,
    }
}

fn plan(
    provider: EmbeddingProvider,
    api_key: &Option<String>,
    model: &String,
    fallback: Option<&str>,
) -> (r: Result<EmbedderPlan, ConfigError>)
    ensures
        planned(r, provider, text::opt_text(*api_key), model@, text::opt_str(fallback)),
{
    let key = match api_key {
        Some(key) => key.clone(),
        None => match fallback {
            Some(key) => String::from_str(key),
            None => {
                return Err(
                    ConfigError::MissingApiKey { provider: String::from_str(provider.as_str()) },
                );
            },
        },
    };
    Ok(EmbedderPlan::Client(ClientRequest { key, model: model.clone(), provider }))
}

impl BundledEmbedder {
    /// How the embedder of a configuration is built. A provider needs a key: its own, or
    /// the one to fall back on.
    pub fn from_config(config: &EmbedderConfig, fallback_api_key: Option<&str>) -> (r: Result<
        EmbedderPlan,
        ConfigError,
    >)
        requires
            *config matches EmbedderConfig::Hash { dims } ==> dims > 0,
        ensures
            match *config {
                EmbedderConfig::Hash { dims } => r is Ok && (match r->Ok_0 {
                    EmbedderPlan::Hash(h) => h.len() == dims,
                    _ => false,
                }),
                EmbedderConfig::Openai { api_key, model } => planned(
                    r,
                    EmbeddingProvider::Openai,
                    text::opt_text(api_key),
                    model@,
                    text::opt_str(fallback_api_key),
                ),
                EmbedderConfig::Voyage { api_key, model } => planned(
                    r,
                    EmbeddingProvider::Voyage,
                    text::opt_text(api_key),
                    model@,
                    text::opt_str(fallback_api_key),
                ),
            },
    {
        match config {
            EmbedderConfig::Hash { dims } => Ok(EmbedderPlan::Hash(HashEmbedder::new(*dims))),
            EmbedderConfig::Openai { api_key, model } => plan(
                EmbeddingProvider::Openai,
                api_key,
                model,
                fallback_api_key,
            ),
            EmbedderConfig::Voyage { api_key, model } => plan(
                EmbeddingProvider::Voyage,
                api_key,
                model,
                fallback_api_key,
            ),
        }
    }

    /// The embedder, once its client was made or not: the client comes first, and then
    /// the model must be one of the provider's.
    pub fn with_client(request: ClientRequest, client: Result<(), String>) -> (r: Result<
        Self,
        ConfigError,
    >)
        ensures
            match (r, client) {
                (Err(ConfigError::ClientInit { message, provider }), Err(e)) => message == e
                    && provider@ == provider_word(request.provider),
                (Ok(BundledEmbedder::Remote { dims, model, provider }), Ok(())) => {
                    &&& vector_len(request.provider, request.model@) == Some(dims)
                    &&& model@ == request.model@
                    &&& provider == request.provider
                },
                (Err(e), Ok(())) => vector_len(request.provider, request.model@) is None
                    && is_unknown_model(e, provider_word(request.provider), request.model@),
                _ => false,
            },
    {
        if let Err(message) = client {
            return Err(
                ConfigError::ClientInit {
                    message,
                    provider: String::from_str(request.provider.as_str()),
                },
            );
        }
        let dims = match request.provider {
            EmbeddingProvider::Openai => openai_dims(request.model.as_str()),
            EmbeddingProvider::Voyage => voyage_dims(request.model.as_str()),
        };
        match dims {
            Ok(dims) => Ok(
                BundledEmbedder::Remote { dims, model: request.model, provider: request.provider },
            ),
            Err(e) => Err(e),
        }
    }

    /// How long the vectors are.
    pub fn ndims(&self) -> (r: usize)
        ensures
            r == match self {
                BundledEmbedder::Hash(h) => h.len() as int,
                BundledEmbedder::Remote { dims, .. } => *dims as int,
            },
    {
        match self {
            BundledEmbedder::Hash(h) => h.ndims(),
            BundledEmbedder::Remote { dims, .. } => *dims,
        }
    }
}

/// What comes of a configuration with a provider: a client with the key that is used, or
/// an error where there is none.
pub open spec fn planned(
    r: Result<EmbedderPlan, ConfigError>,
    provider: EmbeddingProvider,
    api_key: Option<Seq<char>>,
    model: Seq<char>,
    fallback: Option<Seq<char>>,
) -> bool {
    match (r, chosen_key(api_key, fallback)) {
        (Ok(EmbedderPlan::Client(c)), Some(key)) => {
            &&& c.key@ == key
            &&& c.model@ == model
            &&& c.provider == provider
        },
        (Err(ConfigError::MissingApiKey { provider: p }), None) => p@ == provider_word(provider),
        _ => false,
    }
}

/// The inner product of the first `n` places of the counts of two lists of words.
pub open spec fn common(a: Seq<Seq<char>>, b: Seq<Seq<char>>, dims: usize, n: nat) -> nat
    decreases n,
{
    if n == 0 {
        0
    } else {
        common(a, b, dims, (n - 1) as nat) + words_at(a, dims, n - 1) * words_at(b, dims, n - 1)
    }
}

/// A word that stands in a list is counted at its place.
proof fn lemma_word_is_counted(words: Seq<Seq<char>>, dims: usize, word: Seq<char>)
    requires
        words.contains(word),
    ensures
        words_at(words, dims, slot(word, dims)) > 0,
    decreases words.len(),
{
    let i = slot(word, dims);
    let at = |w: Seq<char>| slot(w, dims) == i;
    let front = words.drop_last();
    let n = words.len() - 1;
    seqs::lemma_count_true_step(words, at, n);
    assert(words.take(n) =~= front);
    assert(words.take(n + 1) =~= words);
    if words.last() != word {
        let k = choose|k: int| 0 <= k < words.len() && words[k] == word;
        assert(front[k] == word);
        lemma_word_is_counted(front, dims, word);
    }
}

proof fn lemma_common_is_positive(
    a: Seq<Seq<char>>,
    b: Seq<Seq<char>>,
    dims: usize,
    n: nat,
    i: int,
)
    requires
        0 <= i < n,
        words_at(a, dims, i) > 0,
        words_at(b, dims, i) > 0,
    ensures
        common(a, b, dims, n) > 0,
    decreases n,
{
    let x = words_at(a, dims, n - 1);
    let y = words_at(b, dims, n - 1);
    if i == n - 1 {
        assert(x * y > 0) by (nonlinear_arith)
            requires
                x > 0,
                y > 0,
        ;
    } else {
        lemma_common_is_positive(a, b, dims, (n - 1) as nat, i);
    }
}

/// Texts with a word in common have vectors that point in similar directions: their inner
/// product is positive.
pub proof fn law_shared_word_is_similar(
    a: Seq<char>,
    b: Seq<char>,
    dims: usize,
    word: Seq<char>,
)
    requires
        dims > 0,
        text::words(lowercased(a)).contains(word),
        text::words(lowercased(b)).contains(word),
    ensures
        common(text::words(lowercased(a)), text::words(lowercased(b)), dims, dims as nat) > 0,
{
    let i = slot(word, dims);
    lemma_word_is_counted(text::words(lowercased(a)), dims, word);
    lemma_word_is_counted(text::words(lowercased(b)), dims, word);
    assert(0 <= i < dims) by (nonlinear_arith)
        requires
            dims > 0,
            i == DefaultHasher::spec_finish(seq![encode_utf8(word), seq![0xffu8]]) as usize as int
                % dims as int,
    ;
    lemma_common_is_positive(
        text::words(lowercased(a)),
        text::words(lowercased(b)),
        dims,
        dims as nat,
        i,
    );
}

/// Every word counts once, at its own place and at no other.
pub proof fn law_each_word_counts_once(
    words: Seq<Seq<char>>,
    word: Seq<char>,
    dims: usize,
    i: int,
)
    requires
        dims > 0,
    ensures
        0 <= slot(word, dims) < dims,
        words_at(words.push(word), dims, i) == words_at(words, dims, i) + if slot(word, dims)
            == i {
            1nat
        } else {
            0nat
        },
        words_at(Seq::empty(), dims, i) == 0,
{
    let here = |w: Seq<char>| slot(w, dims) == i;
    let n = words.len() as int;
    let all = words.push(word);
    assert(all.take(n) =~= words);
    assert(all.take(n + 1) =~= all);
    seqs::lemma_count_true_step(all, here, n);
    assert(Seq::<Seq<char>>::empty().map_values(here) =~= Seq::empty());
}

/// An embedder's own key is used where it has one, and only else the one to fall back on;
/// without either there is none.
pub proof fn law_own_key_comes_first(
    r: Result<EmbedderPlan, ConfigError>,
    provider: EmbeddingProvider,
    own: Option<Seq<char>>,
    model: Seq<char>,
    fallback: Option<Seq<char>>,
)
    requires
        planned(r, provider, own, model, fallback),
    ensures
        own is None && fallback is None <==> r is Err,
        own is Some || fallback is Some ==> (r matches Ok(EmbedderPlan::Client(c)) && c.key@
            == if own is Some {
            own->0
        } else {
            fallback->0
        } && c.model@ == model && c.provider == provider),
{
}

/// A model's vectors have a length of one or two thousand places, or three for the largest;
/// a model of one provider is none of the other's.
pub proof fn law_models_have_their_lengths(provider: EmbeddingProvider, model: Seq<char>)
    ensures
        vector_len(EmbeddingProvider::Openai, model) == openai_len(model),
        vector_len(EmbeddingProvider::Voyage, model) == voyage_len(model),
        openai_len(model) == Some(3072usize) <==> model == "text-embedding-3-large"@,
        openai_len(model) == Some(1536usize) <==> model == "text-embedding-3-small"@ || model
            == "text-embedding-ada-002"@,
        voyage_len(model) == Some(1536usize) <==> model == "voyage-code-2"@,
        voyage_len(model) == Some(1024usize) <==> model == "voyage-3-large"@ || model
            == "voyage-3.5"@ || model == "voyage-3.5-lite"@ || model == "voyage-code-3"@ || model
            == "voyage-finance-2"@ || model == "voyage-law-2"@,
        (vector_len(provider, model) matches Some(n) ==> n == 1024 || n == 1536 || n == 3072),
{
    reveal_strlit("text-embedding-3-large");
    reveal_strlit("text-embedding-3-small");
    reveal_strlit("text-embedding-ada-002");
    reveal_strlit("voyage-code-2");
    reveal_strlit("voyage-code-3");
    reveal_strlit("voyage-3-large");
    reveal_strlit("voyage-3.5");
    reveal_strlit("voyage-3.5-lite");
    reveal_strlit("voyage-finance-2");
    reveal_strlit("voyage-law-2");
    assert("text-embedding-3-large"@[17] == 'l' && "text-embedding-3-small"@[17] == 's'
        && "text-embedding-ada-002"@[15] == 'a' && "text-embedding-3-large"@[15] == '3');
    assert("voyage-code-2"@[12] == '2' && "voyage-code-3"@[12] == '3');
    assert("voyage-code-2"@.len() == 13 && "voyage-3-large"@.len() == 14 && "voyage-3.5"@.len()
        == 10 && "voyage-3.5-lite"@.len() == 15 && "voyage-finance-2"@.len() == 16
        && "voyage-law-2"@.len() == 12);
}

/// A model that a provider does not have is reported with the provider.
pub proof fn law_unknown_model_is_named(e: ConfigError, provider: Seq<char>, model: Seq<char>)
    requires
        is_unknown_model(e, provider, model),
    ensures
        e matches ConfigError::UnknownModel { model: m, provider: p } && m@ == model && p@
            == provider,
        provider_word(EmbeddingProvider::Openai) == "openai"@,
        provider_word(EmbeddingProvider::Voyage) == "voyage"@,
{
}

} // verus!
