//! The providers that can be asked.
use vstd::prelude::*;

use crate::text;

verus! {

/// A provider of language models.
#[derive(Clone, Copy, Debug, PartialEq, Eq, Structural, Hash)]
pub enum ProviderKind {
    Anthropic,
    Cohere,
    Deepseek,
    Gemini,
    Groq,
    Openai,
}

/// The name that a provider goes by.
pub open spec fn kind_name(kind: ProviderKind) -> Seq<char> {
    match kind {
        ProviderKind::Anthropic => "anthropic"@,
        ProviderKind::Cohere => "cohere"@,
        ProviderKind::Deepseek => "deepseek"@,
        ProviderKind::Gemini => "gemini"@,
        ProviderKind::Groq => "groq"@,
        ProviderKind::Openai => "openai"@,
    }
}

/// The provider that goes by a name.
pub open spec fn kind_named(s: Seq<char>) -> Option<ProviderKind> {
    if s == "anthropic"@ {
        Some(ProviderKind::Anthropic)
    } else if s == "cohere"@ {
        Some(ProviderKind::Cohere)
    } else if s == "deepseek"@ {
        Some(ProviderKind::Deepseek)
    } else if s == "gemini"@ {
        Some(ProviderKind::Gemini)
    } else if s == "groq"@ {
        Some(ProviderKind::Groq)
    } else if s == "openai"@ {
        Some(ProviderKind::Openai)
    } else {
        None
    }
}

impl ProviderKind {
    /// The name that the provider goes by.
    pub fn as_str(self) -> (r: &'static str)
        ensures
            r@ == kind_name(self),
    {
        match self {
            ProviderKind::Anthropic => "anthropic",
            ProviderKind::Cohere => "cohere",
            ProviderKind::Deepseek => "deepseek",
            ProviderKind::Gemini => "gemini",
            ProviderKind::Groq => "groq",
            ProviderKind::Openai => "openai",
        }
    }

    /// The provider that goes by a name.
    pub fn parse(s: &str) -> (r: Option<Self>)
        ensures
            r == kind_named(s@),
    {
        if text::str_eq(s, "anthropic") {
            Some(ProviderKind::Anthropic)
        } else if text::str_eq(s, "cohere") {
            Some(ProviderKind::Cohere)
        } else if text::str_eq(s, "deepseek") {
            Some(ProviderKind::Deepseek)
        } else if text::str_eq(s, "gemini") {
            Some(ProviderKind::Gemini)
        } else if text::str_eq(s, "groq") {
            Some(ProviderKind::Groq)
        } else if text::str_eq(s, "openai") {
            Some(ProviderKind::Openai)
        } else {
            None
        }
    }

    /// Other names of the provider in price lists.
    pub open spec fn is_alternate(self, name: Seq<char>) -> bool {
        self is Gemini && (name == "vertex_ai-language-models"@ || name == "vertex_ai"@)
    }

    /// Other names of the provider in price lists.
    pub fn alternate_pricing_names(self) -> (r: Vec<&'static str>)
        ensures
            forall|name: Seq<char>| #[trigger]
                self.is_alternate(name) <==> exists|i: int|
                    0 <= i < r@.len() && (#[trigger] r@[i])@ == name,
    {
        let mut out: Vec<&'static str> = Vec::new();
        if let ProviderKind::Gemini = self {
            out.push("vertex_ai-language-models");
            out.push("vertex_ai");
            assert(out@[0]@ == "vertex_ai-language-models"@);
            assert(out@[1]@ == "vertex_ai"@);
        }
        out
    }
}

/// A provider's name is read back as the provider, and nothing else is.
pub proof fn law_kind_names_round_trip(kind: ProviderKind, s: Seq<char>)
    ensures
        kind_named(kind_name(kind)) == Some(kind),
        kind_named(s) == Some(kind) ==> s == kind_name(kind),
{
    reveal_strlit("anthropic");
    reveal_strlit("cohere");
    reveal_strlit("deepseek");
    reveal_strlit("gemini");
    reveal_strlit("groq");
    reveal_strlit("openai");
    assert("anthropic"@.len() == 9 && "deepseek"@.len() == 8 && "groq"@.len() == 4);
    assert("cohere"@.len() == 6 && "gemini"@.len() == 6 && "openai"@.len() == 6);
    assert("cohere"@[0] == 'c' && "gemini"@[0] == 'g' && "openai"@[0] == 'o');
}

} // verus!
