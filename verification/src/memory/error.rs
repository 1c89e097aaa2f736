//! What goes wrong with memory.
use vstd::prelude::*;

use crate::text;

verus! {

/// Why memory could not be set up.
#[derive(Debug)]
pub enum ConfigError {
    ClientInit { message: String, provider: String },
    CreateDir { path: String, source: String },
    Database(String),
    Migrate(String),
    MissingApiKey { provider: String },
    UnknownModel { model: String, provider: String },
}

impl ConfigError {
    /// What the error says.
    pub open spec fn message(&self) -> Seq<char> {
        match self {
            ConfigError::ClientInit { message, provider } => "embedder provider '"@ + provider@
                + "' client init failed: "@ + message@,
            ConfigError::CreateDir { path, source } => "failed to create database directory "@
                + path@ + ": "@ + source@,
            ConfigError::Database(e) => "database error: "@ + e@,
            ConfigError::Migrate(e) => "schema migration failed: "@ + e@,
            ConfigError::MissingApiKey { provider } => "embedder provider '"@ + provider@
                + "' requires an api_key (set memory.embedder.api_key or providers."@ + provider@
                + ".api_key)"@,
            ConfigError::UnknownModel { model, provider } => "embedder provider '"@ + provider@
                + "' does not support model '"@ + model@ + "'"@,
        }
    }

    /// What the error says.
    pub fn to_text(&self) -> (r: String)
        ensures
            r@ == self.message(),
    {
        let mut out = String::new();
        match self {
            ConfigError::ClientInit { message, provider } => {
                out.append("embedder provider '");
                out.append(provider.as_str());
                out.append("' client init failed: ");
                out.append(message.as_str());
            },
            ConfigError::CreateDir { path, source } => {
                out.append("failed to create database directory ");
                out.append(path.as_str());
                out.append(": ");
                out.append(source.as_str());
            },
            ConfigError::Database(e) => {
                out.append("database error: ");
                out.append(e.as_str());
            },
            ConfigError::Migrate(e) => {
                out.append("schema migration failed: ");
                out.append(e.as_str());
            },
            ConfigError::MissingApiKey { provider } => {
                out.append("embedder provider '");
                out.append(provider.as_str());
                out.append("' requires an api_key (set memory.embedder.api_key or providers.");
                out.append(provider.as_str());
                out.append(".api_key)");
            },
            ConfigError::UnknownModel { model, provider } => {
                out.append("embedder provider '");
                out.append(provider.as_str());
                out.append("' does not support model '");
                out.append(model.as_str());
                out.append("'");
            },
        }
        assert(out@ =~= self.message());
        out
    }
}

/// Why a text could not be turned into a vector.
#[derive(Debug)]
pub struct EmbedError {
    pub message: String,
}

impl EmbedError {
    /// The error with a reason.
    pub fn new(message: &str) -> (r: Self)
        ensures
            r.message@ == message@,
    {
        EmbedError { message: String::from_str(message) }
    }

    /// What the error says.
    pub fn to_text(&self) -> (r: String)
        ensures
            r@ == "embedder error: "@ + self.message@,
    {
        let mut out = String::from_str("embedder error: ");
        out.append(self.message.as_str());
        out
    }
}

/// Why memory could not be read or written.
#[derive(Debug)]
pub enum MemoryError {
    Database(String),
    DimensionMismatch { expected: usize, got: usize },
    Embed(EmbedError),
    EmptyConversation,
    RowDecode(String),
}

impl MemoryError {
    /// What the error says.
    pub open spec fn message(&self) -> Seq<char> {
        match self {
            MemoryError::Database(e) => "database error: "@ + e@,
            MemoryError::DimensionMismatch { expected, got } => {
                "vector dimension mismatch: expected "@ + text::decimal(*expected as nat)
                    + ", got "@ + text::decimal(*got as nat)
            },
            MemoryError::Embed(e) => "embedding failed: "@ + ("embedder error: "@ + e.message@),
            MemoryError::EmptyConversation => "no messages in conversation"@,
            MemoryError::RowDecode(e) => "stored data corrupted: "@ + e@,
        }
    }

    /// What the error says.
    pub fn to_text(&self) -> (r: String)
        ensures
            r@ == self.message(),
    {
        let mut out = String::new();
        match self {
            MemoryError::Database(e) => {
                out.append("database error: ");
                out.append(e.as_str());
            },
            MemoryError::DimensionMismatch { expected, got } => {
                out.append("vector dimension mismatch: expected ");
                out.append(text::format_u64(*expected as u64).as_str());
                out.append(", got ");
                out.append(text::format_u64(*got as u64).as_str());
            },
            MemoryError::Embed(e) => {
                out.append("embedding failed: ");
                out.append(e.to_text().as_str());
            },
            MemoryError::EmptyConversation => {
                out.append("no messages in conversation");
            },
            MemoryError::RowDecode(e) => {
                out.append("stored data corrupted: ");
                out.append(e.as_str());
            },
        }
        assert(out@ =~= self.message());
        out
    }
}

/// A message says what the error carries: the provider, model, path or lengths that it is
/// about, and the text of what lies under it.
pub proof fn law_message_says_what_it_is_about(c: ConfigError, m: MemoryError)
    ensures
        match c {
            ConfigError::ClientInit { message, provider } => text::contains_text(
                c.message(),
                provider@,
            ) && text::ends_with_text(c.message(), message@),
            ConfigError::CreateDir { path, source } => text::contains_text(c.message(), path@)
                && text::ends_with_text(c.message(), source@),
            ConfigError::Database(e) | ConfigError::Migrate(e) => text::ends_with_text(
                c.message(),
                e@,
            ),
            ConfigError::MissingApiKey { provider } => text::contains_text(c.message(), provider@),
            ConfigError::UnknownModel { model, provider } => text::contains_text(
                c.message(),
                provider@,
            ) && text::contains_text(c.message(), model@),
        },
        match m {
            MemoryError::Database(e) | MemoryError::RowDecode(e) => text::ends_with_text(
                m.message(),
                e@,
            ),
            MemoryError::DimensionMismatch { expected, got } => text::contains_text(
                m.message(),
                text::decimal(expected as nat),
            ) && text::ends_with_text(m.message(), text::decimal(got as nat)),
            MemoryError::Embed(e) => text::ends_with_text(m.message(), e.message@),
            MemoryError::EmptyConversation => m.message().len() > 0,
        },
{
    let none = Seq::<char>::empty();
    match c {
        ConfigError::ClientInit { message, provider } => {
            text::lemma_says_two(
                "embedder provider '"@,
                provider@,
                "' client init failed: "@,
                message@,
                none,
            );
        },
        ConfigError::CreateDir { path, source } => {
            text::lemma_says_two(
                "failed to create database directory "@,
                path@,
                ": "@,
                source@,
                none,
            );
        },
        ConfigError::Database(e) => {
            text::lemma_says_one("database error: "@, e@, none);
        },
        ConfigError::Migrate(e) => {
            text::lemma_says_one("schema migration failed: "@, e@, none);
        },
        ConfigError::MissingApiKey { provider } => {
            let said = c.message();
            let front = "embedder provider '"@ + provider@;
            text::lemma_says_one(
                "embedder provider '"@,
                provider@,
                said.skip(front.len() as int),
            );
            assert(said =~= front + said.skip(front.len() as int));
        },
        ConfigError::UnknownModel { model, provider } => {
            text::lemma_says_two(
                "embedder provider '"@,
                provider@,
                "' does not support model '"@,
                model@,
                "'"@,
            );
        },
    }
    match m {
        MemoryError::Database(e) => {
            text::lemma_says_one("database error: "@, e@, none);
        },
        MemoryError::RowDecode(e) => {
            text::lemma_says_one("stored data corrupted: "@, e@, none);
        },
        MemoryError::DimensionMismatch { expected, got } => {
            text::lemma_says_two(
                "vector dimension mismatch: expected "@,
                text::decimal(expected as nat),
                ", got "@,
                text::decimal(got as nat),
                none,
            );
        },
        MemoryError::Embed(e) => {
            let said = m.message();
            assert(said.skip(said.len() - e.message@.len()) =~= e.message@);
        },
        MemoryError::EmptyConversation => {
            reveal_strlit("no messages in conversation");
        },
    }
}

} // verus!
