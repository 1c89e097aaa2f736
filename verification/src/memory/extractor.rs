//! Facts about a user, taken from an exchange.
use vstd::prelude::*;

use crate::fences;
use crate::floats::Single;
use crate::memory::config::ExtractorConfig;
use crate::memory::types::MemoryKind;
use crate::seqs;
use crate::text;

verus! {

/// What a model is told of extracting facts.
pub open spec fn extraction_preamble() -> Seq<char> {
    "You extract durable facts about a user from a single conversation exchange. You return ONLY a JSON array — no prose, no markdown, no explanations. Each array element is an object with two keys:\n- \"content\": the fact, phrased in the third person as \"user ...\" (e.g. \"user lives in Paris\", \"user prefers dark mode\").\n- \"kind\": either \"fact\" (objective, long-lived info) or \"preference\" (taste, opinion, setting).\n\nReturn [] when nothing durable is stated. DO NOT extract:\n- Information about the assistant.\n- Transient task context (e.g. \"user wants a recipe\").\n- Information the user did not themselves volunteer.\n- Facts already obvious from the assistant's reply alone."@
}

/// What a model is told of extracting facts.
pub fn preamble() -> (r: &'static str)
    ensures
        r@ == extraction_preamble(),
{
    "You extract durable facts about a user from a single conversation exchange. You return ONLY a JSON array — no prose, no markdown, no explanations. Each array element is an object with two keys:\n- \"content\": the fact, phrased in the third person as \"user ...\" (e.g. \"user lives in Paris\", \"user prefers dark mode\").\n- \"kind\": either \"fact\" (objective, long-lived info) or \"preference\" (taste, opinion, setting).\n\nReturn [] when nothing durable is stated. DO NOT extract:\n- Information about the assistant.\n- Transient task context (e.g. \"user wants a recipe\").\n- Information the user did not themselves volunteer.\n- Facts already obvious from the assistant's reply alone."
}

/// What extracts facts.
#[derive(Debug)]
pub struct Extractor {
    dedup_threshold: Single,
    max_facts_per_turn: usize,
    model: String,
    provider: String,
}

/// `Extractor`, with texts as sequences of characters.
pub struct ExtractorView {
    pub dedup_threshold: Single,
    pub max_facts_per_turn: usize,
    pub model: Seq<char>,
    pub provider: Seq<char>,
}

impl View for Extractor {
    type V = ExtractorView;

    closed spec fn view(&self) -> ExtractorView {
        ExtractorView {
            dedup_threshold: self.dedup_threshold,
            max_facts_per_turn: self.max_facts_per_turn,
            model: self.model@,
            provider: self.provider@,
        }
    }
}

impl Extractor {
    /// The extractor that a configuration describes.
    pub fn new(config: ExtractorConfig) -> (r: Self)
        ensures
            r@ == (ExtractorView {
                dedup_threshold: config.dedup_threshold,
                max_facts_per_turn: config.max_facts_per_turn,
                model: config.model@,
                provider: config.provider@,
            }),
    {
        Extractor {
            dedup_threshold: config.dedup_threshold,
            max_facts_per_turn: config.max_facts_per_turn,
            model: config.model,
            provider: config.provider,
        }
    }

    /// The similarity above which a fact is taken for one that is known.
    pub fn dedup_threshold(&self) -> (r: Single)
        ensures
            r == self@.dedup_threshold,
    {
        self.dedup_threshold
    }

    /// How many facts are taken from one exchange.
    pub fn max_facts_per_turn(&self) -> (r: usize)
        ensures
            r == self@.max_facts_per_turn,
    {
        self.max_facts_per_turn
    }

    /// The model that is asked.
    pub fn model(&self) -> (r: &str)
        ensures
            r@ == self@.model,
    {
        self.model.as_str()
    }

    /// The provider that is asked.
    pub fn provider(&self) -> (r: &str)
        ensures
            r@ == self@.provider,
    {
        self.provider.as_str()
    }

    /// The facts that are tried for the store: the first, as many as are taken from one
    /// exchange.
    pub fn run(&self, facts: Vec<ParsedFact>) -> (r: Vec<ParsedFact>)
        ensures
            r@ == facts@.take(
                if facts@.len() < self@.max_facts_per_turn {
                    facts@.len() as int
                } else {
                    self@.max_facts_per_turn as int
                },
            ),
    {
        let mut kept = facts;
        let ghost all = kept@;
        while kept.len() > self.max_facts_per_turn
            invariant
                kept@.len() <= all.len(),
                kept@ == all.take(kept@.len() as int),
                kept@.len() >= self.max_facts_per_turn || kept@.len() == all.len(),
            decreases kept@.len(),
        {
            let ghost n = kept@.len();
            let _ = kept.pop();
            assert(kept@ =~= all.take(n - 1));
        }
        kept
    }
}

/// A user's message and the reply to it.
#[derive(Debug)]
pub struct Exchange {
    pub assistant_message: String,
    pub user_message: String,
}

impl Exchange {
    /// What a model is asked about the exchange.
    pub fn prompt_text(&self) -> (r: String)
        ensures
            r@ == "User: "@ + self.user_message@ + "\n\nAssistant: "@ + self.assistant_message@
                + "\n\nReturn the JSON array now."@,
    {
        let mut out = String::from_str("User: ");
        out.append(self.user_message.as_str());
        out.append("\n\nAssistant: ");
        out.append(self.assistant_message.as_str());
        out.append("\n\nReturn the JSON array now.");
        out
    }
}

/// A kind as a model gives it.
#[derive(Clone, Copy, Debug, PartialEq, Eq, Structural)]
pub enum RawFactKind {
    Fact,
    Preference,
    /// Any other word.
    Unknown,
}

/// The kind that a model's word stands for.
pub open spec fn raw_kind(word: Seq<char>) -> RawFactKind {
    if word == "fact"@ {
        RawFactKind::Fact
    } else if word == "preference"@ {
        RawFactKind::Preference
    } else {
        RawFactKind::Unknown
    }
}

/// The kind of memory that a model's kind stands for.
pub open spec fn memory_kind_of(kind: RawFactKind) -> Option<MemoryKind> {
    match kind {
        RawFactKind::Fact => Some(MemoryKind::Fact),
        RawFactKind::Preference => Some(MemoryKind::Preference),
        RawFactKind::Unknown => None,
    }
}

impl RawFactKind {
    /// The kind that a model's word stands for.
    pub fn parse(word: &str) -> (r: Self)
        ensures
            r == raw_kind(word@),
    {
        if text::str_eq(word, "fact") {
            RawFactKind::Fact
        } else if text::str_eq(word, "preference") {
            RawFactKind::Preference
        } else {
            RawFactKind::Unknown
        }
    }

    /// The kind of memory that it stands for.
    pub fn memory_kind(self) -> (r: Option<MemoryKind>)
        ensures
            r == memory_kind_of(self),
    {
        match self {
            RawFactKind::Fact => Some(MemoryKind::Fact),
            RawFactKind::Preference => Some(MemoryKind::Preference),
            RawFactKind::Unknown => None,
        }
    }
}

/// A fact as a model gives it.
#[derive(Debug)]
pub struct RawFact {
    pub content: String,
    pub kind: RawFactKind,
}

/// A fact.
#[derive(Debug)]
pub struct ParsedFact {
    pub content: String,
    pub kind: MemoryKind,
}

/// `ParsedFact`, with its text as a sequence of characters.
pub struct ParsedFactView {
    pub content: Seq<char>,
    pub kind: MemoryKind,
}

impl View for ParsedFact {
    type V = ParsedFactView;

    open spec fn view(&self) -> ParsedFactView {
        ParsedFactView { content: self.content@, kind: self.kind }
    }
}

/// What is kept of a fact: one of an unknown kind, or that says nothing, is passed over.
pub open spec fn kept_fact(raw: RawFact) -> Option<ParsedFactView> {
    match memory_kind_of(raw.kind) {
        Some(kind) => if text::trim_of(raw.content@).len() == 0 {
            None
        } else {
            Some(ParsedFactView { content: text::trim_of(raw.content@), kind })
        },
        None => None,
    }
}

/// What is kept of the facts that a model gives.
pub fn keep_facts(raw: &Vec<RawFact>) -> (r: Vec<ParsedFact>)
    ensures
        seqs::views(r@) == seqs::somes(raw@.map_values(|f: RawFact| kept_fact(f))),
{
    let ghost all = raw@;
    let ghost keep = |f: RawFact| kept_fact(f);
    let mut out: Vec<ParsedFact> = Vec::new();
    let mut i: usize = 0;
    assert(all.take(0) =~= Seq::empty());
    assert(seqs::views(out@) =~= seqs::somes(all.take(0).map_values(keep)));
    while i < raw.len()
        invariant
            i <= raw@.len(),
            all == raw@,
            keep == (|f: RawFact| kept_fact(f)),
            seqs::views(out@) == seqs::somes(all.take(i as int).map_values(keep)),
        decreases raw@.len() - i,
    {
        let ghost before = seqs::views(out@);
        proof {
            seqs::lemma_somes_step(all, keep, i as int);
        }
        if let Some(kind) = raw[i].kind.memory_kind() {
            let content = text::trim(raw[i].content.as_str());
            if text::chars_of(content.as_str()).len() > 0 {
                let fact = ParsedFact { content, kind };
                out.push(fact);
                assert(seqs::views(out@) =~= before.push(fact@));
            }
        }
        i = i + 1;
    }
    assert(all.take(i as int) =~= all);
    out
}

/// Why nothing was extracted.
#[derive(Debug)]
pub enum ExtractError {
    /// The answer was no JSON array of facts; `source` says why.
    NonJson { output: String, source: String },
    /// The model did not answer.
    Prompt(String),
}

/// The facts in a model's answer; `parsed` is what reading the JSON text in it gave,
/// where there is any.
pub fn parse_facts(answer: &str, parsed: Result<Vec<RawFact>, String>) -> (r: Result<
    Vec<ParsedFact>,
    ExtractError,
>)
    ensures
        fences::answer_body(answer@).len() == 0 ==> r is Ok && r->Ok_0@.len() == 0,
        fences::answer_body(answer@).len() > 0 ==> match parsed {
            Ok(raw) => r is Ok && seqs::views(r->Ok_0@) == seqs::somes(
                raw@.map_values(|f: RawFact| kept_fact(f)),
            ),
            Err(source) => r is Err && r->Err_0 is NonJson && r->Err_0->output@
                == fences::answer_body(answer@) && r->Err_0->source == source,
        },
{
    match fences::json_in(answer) {
        None => Ok(Vec::new()),
        Some(output) => match parsed {
            Ok(raw) => Ok(keep_facts(&raw)),
            Err(source) => Err(ExtractError::NonJson { output, source }),
        },
    }
}

/// One stray entry discards no other: the facts of an answer are those of its parts.
pub proof fn law_stray_entries_are_skipped(a: Seq<RawFact>, stray: RawFact, b: Seq<RawFact>)
    requires
        stray.kind == RawFactKind::Unknown || text::trim_of(stray.content@).len() == 0,
    ensures
        seqs::somes((a.push(stray) + b).map_values(|f: RawFact| kept_fact(f))) == seqs::somes(
            (a + b).map_values(|f: RawFact| kept_fact(f)),
        ),
{
    let keep = |f: RawFact| kept_fact(f);
    assert((a.push(stray) + b).map_values(keep) =~= a.push(stray).map_values(keep)
        + b.map_values(keep));
    assert((a + b).map_values(keep) =~= a.map_values(keep) + b.map_values(keep));
    seqs::lemma_somes_add(a.push(stray).map_values(keep), b.map_values(keep));
    seqs::lemma_somes_add(a.map_values(keep), b.map_values(keep));
    let s = a.push(stray).map_values(keep);
    assert(s.drop_last() =~= a.map_values(keep));
    assert(s.last() is None);
}

/// A fact of a known kind that says anything is kept, as that kind and without white space
/// around it, behind those before it; any other changes nothing.
pub proof fn law_sound_facts_are_kept(facts: Seq<RawFact>, fact: RawFact)
    ensures
        ({
            let before = seqs::somes(facts.map_values(|f: RawFact| kept_fact(f)));
            let after = seqs::somes(facts.push(fact).map_values(|f: RawFact| kept_fact(f)));
            let said = text::trim_of(fact.content@);
            match fact.kind {
                RawFactKind::Unknown => after == before,
                RawFactKind::Fact => after == if said.len() == 0 {
                    before
                } else {
                    before.push(ParsedFactView { content: said, kind: MemoryKind::Fact })
                },
                RawFactKind::Preference => after == if said.len() == 0 {
                    before
                } else {
                    before.push(ParsedFactView { content: said, kind: MemoryKind::Preference })
                },
            }
        }),
        seqs::somes(Seq::<RawFact>::empty().map_values(|f: RawFact| kept_fact(f))) == Seq::<
            ParsedFactView,
        >::empty(),
{
    let keep = |f: RawFact| kept_fact(f);
    let n = facts.len() as int;
    let all = facts.push(fact);
    assert(all.take(n) =~= facts);
    assert(all.take(n + 1) =~= all);
    seqs::lemma_somes_step(all, keep, n);
    assert(Seq::<RawFact>::empty().map_values(keep) =~= Seq::empty());
}

/// The two words that a model is told stand for the two kinds, and no other word does.
pub proof fn law_kinds_have_one_word_each(word: Seq<char>)
    ensures
        memory_kind_of(raw_kind(word)) == Some(MemoryKind::Fact) <==> word == "fact"@,
        memory_kind_of(raw_kind(word)) == Some(MemoryKind::Preference) <==> word == "preference"@,
        memory_kind_of(raw_kind(word)) is None <==> word != "fact"@ && word != "preference"@,
{
    reveal_strlit("fact");
    reveal_strlit("preference");
    assert("fact"@.len() == 4 && "preference"@.len() == 10);
}

} // verus!
