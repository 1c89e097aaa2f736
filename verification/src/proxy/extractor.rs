//! What is needed to extract facts from an exchange.
use vstd::prelude::*;

use crate::floats::Single;
use crate::memory::config::ExtractorConfig;
use crate::providers::kind::{kind_named, ProviderKind};

verus! {

/// An extractor whose provider is known.
#[derive(Debug)]
pub struct Extractor {
    pub dedup_threshold: Single,
    pub max_facts_per_turn: usize,
    pub model: String,
    pub provider: ProviderKind,
}

/// Why an extractor could not be built.
#[derive(Debug)]
pub enum ExtractorBuildError {
    UnknownProvider(String),
}

impl ExtractorBuildError {
    /// What the error says.
    pub open spec fn message(&self) -> Seq<char> {
        match self {
            ExtractorBuildError::UnknownProvider(name) => "memory.extractor.provider '"@ + name@
                + "' is not a supported provider (anthropic, cohere, deepseek, gemini, groq, openai)"@,
        }
    }

    /// What the error says.
    pub fn to_text(&self) -> (r: String)
        ensures
            r@ == self.message(),
    {
        match self {
            ExtractorBuildError::UnknownProvider(name) => {
                let mut out = String::from_str("memory.extractor.provider '");
                out.append(name.as_str());
                out.append(
                    "' is not a supported provider (anthropic, cohere, deepseek, gemini, groq, openai)",
                );
                out
            },
        }
    }
}

impl Extractor {
    /// The extractor that a configuration describes, if its provider is known.
    pub fn from_config(config: &ExtractorConfig) -> (r: Result<Self, ExtractorBuildError>)
        ensures
            match r {
                Ok(x) => {
                    &&& kind_named(config.provider@) == Some(x.provider)
                    &&& x.dedup_threshold == config.dedup_threshold
                    &&& x.max_facts_per_turn == config.max_facts_per_turn
                    &&& x.model@ == config.model@
                },
                Err(ExtractorBuildError::UnknownProvider(name)) => {
                    &&& kind_named(config.provider@) is None
                    &&& name@ == config.provider@
                },
            },
    {
        match ProviderKind::parse(config.provider.as_str()) {
            Some(provider) => Ok(
                Extractor {
                    dedup_threshold: config.dedup_threshold,
                    max_facts_per_turn: config.max_facts_per_turn,
                    model: config.model.clone(),
                    provider,
                },
            ),
            None => Err(ExtractorBuildError::UnknownProvider(config.provider.clone())),
        }
    }
}

} // verus!
