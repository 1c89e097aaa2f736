//! A judge at work.
use std::hash::{DefaultHasher, Hasher};

use vstd::prelude::*;
use vstd::std_specs::hash::DefaultHasherAdditionalSpecFns;
use vstd::utf8::encode_utf8;

use crate::fences;
use crate::floats::{self, single, Single};
use crate::ids::{self, MessageId, UserId};
use crate::judges::config::{rubric_views, JudgeConfig, JudgeConfigView};
use crate::names::{NameMap, OrderedMap};
use crate::seqs;
use crate::text;

verus! {

/// Why no judge could be built.
#[derive(Debug)]
pub enum JudgeBuildError {
    InvalidSamplingRate { judge: String, value: Single },
    NoRubrics { judge: String },
}

/// `JudgeBuildError`, with texts as sequences of characters.
pub enum JudgeBuildErrorView {
    InvalidSamplingRate { judge: Seq<char>, value: Single },
    NoRubrics { judge: Seq<char> },
}

impl View for JudgeBuildError {
    type V = JudgeBuildErrorView;

    open spec fn view(&self) -> JudgeBuildErrorView {
        match self {
            JudgeBuildError::InvalidSamplingRate { judge, value } => {
                JudgeBuildErrorView::InvalidSamplingRate { judge: judge@, value: *value }
            },
            JudgeBuildError::NoRubrics { judge } => JudgeBuildErrorView::NoRubrics {
                judge: judge@,
            },
        }
    }
}

impl JudgeBuildErrorView {
    /// What the error says, where the sampling rate reads `rate`.
    pub open spec fn message(self, rate: Seq<char>) -> Seq<char> {
        match self {
            JudgeBuildErrorView::InvalidSamplingRate { judge, .. } => "judge '"@ + judge
                + "' sampling_rate="@ + rate + " is outside [0.0, 1.0]"@,
            JudgeBuildErrorView::NoRubrics { judge } => "judge '"@ + judge
                + "' must declare at least one rubric"@,
        }
    }
}

impl JudgeBuildError {
    /// What the error says, where the sampling rate reads `rate`.
    pub fn to_text(&self, rate: &str) -> (r: String)
        ensures
            r@ == self@.message(rate@),
    {
        let mut out = String::from_str("judge '");
        match self {
            JudgeBuildError::InvalidSamplingRate { judge, .. } => {
                out.append(judge.as_str());
                out.append("' sampling_rate=");
                out.append(rate);
                out.append(" is outside [0.0, 1.0]");
            },
            JudgeBuildError::NoRubrics { judge } => {
                out.append(judge.as_str());
                out.append("' must declare at least one rubric");
            },
        }
        out
    }
}

/// A judge that is ready to score, with its instructions written out.
#[derive(Debug)]
pub struct Judge {
    pub criteria: Vec<String>,
    pub model: String,
    pub name: String,
    pub preamble: String,
    pub provider: String,
    pub sampling_rate: Single,
}

/// `Judge`, with texts as sequences of characters.
pub struct JudgeView {
    pub criteria: Seq<Seq<char>>,
    pub model: Seq<char>,
    pub name: Seq<char>,
    pub preamble: Seq<char>,
    pub provider: Seq<char>,
    pub sampling_rate: Single,
}

impl View for Judge {
    type V = JudgeView;

    open spec fn view(&self) -> JudgeView {
        JudgeView {
            criteria: text::texts(self.criteria@),
            model: self.model@,
            name: self.name@,
            preamble: self.preamble@,
            provider: self.provider@,
            sampling_rate: self.sampling_rate,
        }
    }
}

/// One line for each criterion.
pub open spec fn rubric_lines(rubrics: Seq<(Seq<char>, Seq<char>)>) -> Seq<char>
    decreases rubrics.len(),
{
    if rubrics.len() == 0 {
        Seq::empty()
    } else {
        rubric_lines(rubrics.drop_last()) + ("- "@ + rubrics.last().0 + ": "@ + rubrics.last().1
            + "\n"@)
    }
}

/// The instructions that a judge is given.
pub open spec fn preamble_of(rubrics: Seq<(Seq<char>, Seq<char>)>) -> Seq<char> {
    "You are an evaluation judge. Score the assistant's reply against each criterion below on an integer scale from 0 (worst) to 10 (best), with a concise one-sentence reasoning.\n\nCriteria:\n"@
        + rubric_lines(rubrics)
        + "\nRespond ONLY with a JSON object whose top-level keys are the exact criterion names listed above. Each value must be an object of the form {\"score\": <integer 0-10>, \"reasoning\": <short string>}. Do not include prose, markdown, or code fences — only the JSON object."@
}

/// The instructions that a judge is given.
pub fn build_preamble(rubrics: &OrderedMap<String>) -> (r: String)
    ensures
        r@ == preamble_of(rubric_views(rubrics@)),
{
    let mut out = String::from_str(
        "You are an evaluation judge. Score the assistant's reply against each criterion below on an integer scale from 0 (worst) to 10 (best), with a concise one-sentence reasoning.\n\nCriteria:\n",
    );
    let ghost head = out@;
    let ghost all = rubric_views(rubrics@);
    let mut i: usize = 0;
    assert(head + rubric_lines(all.take(0)) =~= head);
    while i < rubrics.len()
        invariant
            i <= rubrics@.len(),
            all == rubric_views(rubrics@),
            out@ == head + rubric_lines(all.take(i as int)),
        decreases rubrics@.len() - i,
    {
        out.append("- ");
        out.append(rubrics.name_at(i).as_str());
        out.append(": ");
        out.append(rubrics.value_at(i).as_str());
        out.append("\n");
        proof {
            let next = all.take(i + 1);
            assert(next.drop_last() =~= all.take(i as int));
            assert(next.last() == all[i as int]);
            assert(out@ =~= head + (rubric_lines(all.take(i as int)) + ("- "@ + all[i as int].0
                + ": "@ + all[i as int].1 + "\n"@)));
        }
        i = i + 1;
    }
    assert(all.take(i as int) =~= all);
    out.append(
        "\nRespond ONLY with a JSON object whose top-level keys are the exact criterion names listed above. Each value must be an object of the form {\"score\": <integer 0-10>, \"reasoning\": <short string>}. Do not include prose, markdown, or code fences — only the JSON object.",
    );
    out
}

/// The judge that a configuration describes, or what is wrong with it.
pub open spec fn built(config: JudgeConfigView) -> Result<JudgeView, JudgeBuildErrorView> {
    if config.rubrics.len() == 0 {
        Err(JudgeBuildErrorView::NoRubrics { judge: config.name })
    } else if !(single(floats::ZERO).le(config.sampling_rate) && config.sampling_rate.le(
        single(floats::ONE),
    )) {
        Err(
            JudgeBuildErrorView::InvalidSamplingRate {
                judge: config.name,
                value: config.sampling_rate,
            },
        )
    } else {
        Ok(
            JudgeView {
                criteria: config.rubrics.map_values(|r: (Seq<char>, Seq<char>)| r.0),
                model: config.model,
                name: config.name,
                preamble: preamble_of(config.rubrics),
                provider: config.provider,
                sampling_rate: config.sampling_rate,
            },
        )
    }
}

/// What is hashed to decide whether a turn is scored: the message's bytes, the judge's
/// name, and the byte that ends a hashed text.
pub open spec fn hashed(id: MessageId, name: Seq<char>) -> Seq<Seq<u8>> {
    seq![ids::low_bytes(id.0 as nat, 16), encode_utf8(name), seq![0xffu8]]
}

/// The draw for a turn: 24 bits that depend on the message and the judge alone.
pub open spec fn draw(id: MessageId, name: Seq<char>) -> nat {
    (DefaultHasher::spec_finish(hashed(id, name)) / 0x100_0000_0000) as nat
}

/// A judge scores a turn: always at rate one, never at rate zero, and otherwise when
/// the draw, taken as a fraction of 2^24, is below the rate.
pub open spec fn is_sampled(rate: Single, name: Seq<char>, id: MessageId) -> bool {
    if single(floats::ONE).le(rate) {
        true
    } else if rate.le(single(floats::ZERO)) {
        false
    } else {
        !rate.is_nan() && floats::draw_is_below(draw(id, name), rate)
    }
}

/// What a judge said of one criterion.
#[derive(Debug)]
pub struct RawScore {
    pub reasoning: String,
    pub score: Single,
}

/// A turn to be scored.
#[derive(Debug)]
pub struct ScoredExchange {
    pub agent_name: String,
    pub assistant_message: String,
    pub message_id: MessageId,
    pub user_id: UserId,
    pub user_message: String,
}

/// A score's identifier.
#[derive(Clone, Copy, Debug, PartialEq, Eq, Structural, Hash)]
pub struct ScoreId(pub u128);

impl ScoreId {
    /// A fresh random identifier.
    pub fn new() -> (r: Self)
        ensures
            ids::is_random_uuid(r.0),
    {
        ScoreId(ids::random_uuid())
    }
}

/// What a judge made of one criterion of a turn.
#[derive(Debug)]
pub struct Score {
    pub agent_name: String,
    pub created_at: u64,
    pub criterion: String,
    pub id: ScoreId,
    pub judge_model: String,
    pub judge_name: String,
    pub message_id: MessageId,
    pub reasoning: String,
    pub score: Single,
    pub user_id: UserId,
}

/// `Score` without its identifier, with texts as sequences of characters.
pub struct ScoreView {
    pub agent_name: Seq<char>,
    pub created_at: u64,
    pub criterion: Seq<char>,
    pub judge_model: Seq<char>,
    pub judge_name: Seq<char>,
    pub message_id: MessageId,
    pub reasoning: Seq<char>,
    pub score: Single,
    pub user_id: UserId,
}

impl View for Score {
    type V = ScoreView;

    open spec fn view(&self) -> ScoreView {
        ScoreView {
            agent_name: self.agent_name@,
            created_at: self.created_at,
            criterion: self.criterion@,
            judge_model: self.judge_model@,
            judge_name: self.judge_name@,
            message_id: self.message_id,
            reasoning: self.reasoning@,
            score: self.score,
            user_id: self.user_id,
        }
    }
}

/// A score brought between 0 and 10; what is no number counts as 0.
pub open spec fn clamped_score(value: Single) -> Single {
    if value.is_nan() || value.lt(single(floats::ZERO)) {
        single(floats::ZERO)
    } else if single(floats::TEN).lt(value) {
        single(floats::TEN)
    } else {
        value
    }
}

/// A score brought between 0 and 10.
pub fn clamp_score(value: Single) -> (r: Single)
    ensures
        r == clamped_score(value),
        single(floats::ZERO).le(r),
        r.le(single(floats::TEN)),
{
    let zero = Single::from_bits(floats::ZERO);
    let ten = Single::from_bits(floats::TEN);
    if value.nan() || value.less_than(zero) {
        zero
    } else if ten.less_than(value) {
        ten
    } else {
        value
    }
}

/// What is kept of a judge's answer on one criterion, if it says anything of it.
pub open spec fn score_of(
    judge: JudgeView,
    exchange: ScoredExchange,
    raw: Map<Seq<char>, RawScore>,
    criterion: Seq<char>,
    now: u64,
) -> Option<ScoreView> {
    if raw.contains_key(criterion) {
        Some(
            ScoreView {
                agent_name: exchange.agent_name@,
                created_at: now,
                criterion,
                judge_model: judge.model,
                judge_name: judge.name,
                message_id: exchange.message_id,
                reasoning: raw[criterion].reasoning@,
                score: clamped_score(raw[criterion].score),
                user_id: exchange.user_id,
            },
        )
    } else {
        None
    }
}

/// What a judge is asked about a turn.
pub open spec fn question(exchange: ScoredExchange) -> Seq<char> {
    "User message:\n"@ + exchange.user_message@ + "\n\nAssistant reply:\n"@
        + exchange.assistant_message@ + "\n\nReturn the JSON object now."@
}

impl Judge {
    /// The judge that a configuration describes.
    pub fn from_config(config: &JudgeConfig) -> (r: Result<Self, JudgeBuildError>)
        ensures
            match r {
                Ok(judge) => built(config@) == Ok::<_, JudgeBuildErrorView>(judge@),
                Err(e) => built(config@) == Err::<JudgeView, _>(e@),
            },
    {
        if config.rubrics.len() == 0 {
            return Err(JudgeBuildError::NoRubrics { judge: config.name.clone() });
        }
        let zero = Single::from_bits(floats::ZERO);
        let one = Single::from_bits(floats::ONE);
        if !(zero.at_most(config.sampling_rate) && config.sampling_rate.at_most(one)) {
            return Err(
                JudgeBuildError::InvalidSamplingRate {
                    judge: config.name.clone(),
                    value: config.sampling_rate,
                },
            );
        }
        let ghost all = rubric_views(config.rubrics@);
        let ghost first = |r: (Seq<char>, Seq<char>)| r.0;
        let mut criteria: Vec<String> = Vec::new();
        let mut i: usize = 0;
        assert(text::texts(criteria@) =~= all.take(0).map_values(first));
        while i < config.rubrics.len()
            invariant
                i <= config.rubrics@.len(),
                all == rubric_views(config.rubrics@),
                first == (|r: (Seq<char>, Seq<char>)| r.0),
                text::texts(criteria@) == all.take(i as int).map_values(first),
            decreases config.rubrics@.len() - i,
        {
            let name = config.rubrics.name_at(i).clone();
            proof {
                text::lemma_texts_push(criteria@, name);
            }
            criteria.push(name);
            assert(text::texts(criteria@) =~= all.take(i + 1).map_values(first));
            i = i + 1;
        }
        assert(all.take(i as int) =~= all);
        let judge = Judge {
            criteria,
            model: config.model.clone(),
            name: config.name.clone(),
            preamble: build_preamble(&config.rubrics),
            provider: config.provider.clone(),
            sampling_rate: config.sampling_rate,
        };
        assert(built(config@)->Ok_0.criteria =~= judge@.criteria);
        Ok(judge)
    }

    /// Whether this judge scores the turn that a message belongs to. The answer depends
    /// on the judge and the message alone, so it is the same whenever it is asked.
    pub fn should_sample(&self, message_id: MessageId) -> (r: bool)
        ensures
            r == is_sampled(self.sampling_rate, self.name@, message_id),
    {
        let zero = Single::from_bits(floats::ZERO);
        let one = Single::from_bits(floats::ONE);
        let rate: Single = self.sampling_rate;
        if one.at_most(rate) {
            return true;
        }
        if rate.at_most(zero) || rate.nan() {
            return false;
        }
        let mut hasher = DefaultHasher::new();
        let id_bytes = ids::bytes_of(message_id.0, 16);
        let end: Vec<u8> = vec![0xff];
        hasher.write(id_bytes.as_slice());
        hasher.write(self.name.as_str().as_bytes());
        hasher.write(end.as_slice());
        assert(hasher@ =~= hashed(message_id, self.name@)) by {
            assert(end@ =~= seq![0xffu8]);
        }
        let seed: u64 = hasher.finish();
        floats::draw_below((seed / 0x100_0000_0000) as u32, rate)
    }

    /// What the judge is asked about a turn.
    pub fn user_text(exchange: &ScoredExchange) -> (r: String)
        ensures
            r@ == question(*exchange),
    {
        let mut out = String::from_str("User message:\n");
        out.append(exchange.user_message.as_str());
        out.append("\n\nAssistant reply:\n");
        out.append(exchange.assistant_message.as_str());
        out.append("\n\nReturn the JSON object now.");
        out
    }

    /// The scores of a turn, one for each criterion that the answer speaks of, in the
    /// order of the criteria.
    pub fn score(
        &self,
        exchange: &ScoredExchange,
        raw: &NameMap<RawScore>,
        now: u64,
    ) -> (r: Vec<Score>)
        ensures
            seqs::views(r@) == seqs::somes(
                self@.criteria.map_values(
                    |c: Seq<char>| score_of(self@, *exchange, raw@, c, now),
                ),
            ),
            forall|i: int| 0 <= i < r@.len() ==> ids::is_random_uuid((#[trigger] r@[i]).id.0),
    {
        let ghost all = self@.criteria;
        let ghost of = |c: Seq<char>| score_of(self@, *exchange, raw@, c, now);
        let mut scores: Vec<Score> = Vec::new();
        let mut i: usize = 0;
        assert(seqs::views(scores@) =~= seqs::somes(all.take(0).map_values(of)));
        while i < self.criteria.len()
            invariant
                i <= self.criteria@.len(),
                all == self@.criteria,
                of == (|c: Seq<char>| score_of(self@, *exchange, raw@, c, now)),
                seqs::views(scores@) == seqs::somes(all.take(i as int).map_values(of)),
                forall|j: int|
                    0 <= j < scores@.len() ==> ids::is_random_uuid((#[trigger] scores@[j]).id.0),
            decreases self.criteria@.len() - i,
        {
            let criterion: &String = &self.criteria[i];
            proof {
                assert(all[i as int] == criterion@);
                seqs::lemma_somes_step(all, of, i as int);
            }
            let ghost before = seqs::views(scores@);
            match raw.get(criterion.as_str()) {
                Some(raw_score) => {
                    let score = Score {
                        agent_name: exchange.agent_name.clone(),
                        created_at: now,
                        criterion: criterion.clone(),
                        id: ScoreId::new(),
                        judge_model: self.model.clone(),
                        judge_name: self.name.clone(),
                        message_id: exchange.message_id,
                        reasoning: raw_score.reasoning.clone(),
                        score: clamp_score(raw_score.score),
                        user_id: exchange.user_id,
                    };
                    scores.push(score);
                    assert(seqs::views(scores@) =~= before.push(score@));
                },
                None => {},
            }
            i = i + 1;
        }
        assert(all.take(i as int) =~= all);
        scores
    }
}

/// Why a judge's answer could not be read.
#[derive(Debug)]
pub enum ParseScoresError {
    /// There was nothing to read.
    Empty,
    /// It was no JSON object of scores; `source` says why.
    NonJson { source: String, text: String },
}

/// The scores in a judge's answer; `parsed` is what reading the JSON text in it gave,
/// where there is any.
pub fn parse_scores(answer: &str, parsed: Result<NameMap<RawScore>, String>) -> (r: Result<
    NameMap<RawScore>,
    ParseScoresError,
>)
    ensures
        match r {
            Ok(scores) => fences::answer_body(answer@).len() > 0 && parsed == Ok::<_, String>(
                scores,
            ),
            Err(ParseScoresError::Empty) => fences::answer_body(answer@).len() == 0,
            Err(ParseScoresError::NonJson { source, text }) => fences::answer_body(answer@).len()
                > 0 && parsed == Err::<NameMap<RawScore>, _>(source) && text@
                == fences::answer_body(answer@),
        },
{
    match fences::json_in(answer) {
        None => Err(ParseScoresError::Empty),
        Some(text) => match parsed {
            Ok(scores) => Ok(scores),
            Err(source) => Err(ParseScoresError::NonJson { source, text }),
        },
    }
}

/// A judge that was built samples every turn at rate one and none at rate zero.
pub proof fn law_full_and_zero_rate(rate: Single, name: Seq<char>, id: MessageId)
    ensures
        rate == single(floats::ONE) ==> is_sampled(rate, name, id),
        rate.place() == 0 && !rate.is_nan() ==> !is_sampled(rate, name, id),
{
}

/// The lines of the first criteria stand in front of the others.
proof fn lemma_lines_prefix(rubrics: Seq<(Seq<char>, Seq<char>)>, n: int)
    requires
        0 <= n <= rubrics.len(),
    ensures
        text::starts_with_text(rubric_lines(rubrics), rubric_lines(rubrics.take(n))),
    decreases rubrics.len(),
{
    let all = rubric_lines(rubrics);
    let first = rubric_lines(rubrics.take(n));
    if n == rubrics.len() {
        assert(rubrics.take(n) =~= rubrics);
        assert(all.take(all.len() as int) =~= all);
    } else {
        lemma_lines_prefix(rubrics.drop_last(), n);
        assert(rubrics.drop_last().take(n) =~= rubrics.take(n));
        let front = rubric_lines(rubrics.drop_last());
        assert(all.take(first.len() as int) =~= front.take(first.len() as int));
    }
}

/// A judge's instructions give the criteria in the order of their names, whatever
/// order they were declared in: the line of a criterion comes directly behind those of
/// all criteria with lesser names.
pub proof fn law_criteria_are_listed_by_name(rubrics: OrderedMap<String>, j: int)
    requires
        crate::names::names_ascend(rubrics@),
        0 <= j < rubrics@.len(),
    ensures
        forall|i: int|
            0 <= i < j ==> text::text_lt(
                (#[trigger] rubric_views(rubrics@)[i]).0,
                rubric_views(rubrics@)[j].0,
            ),
        text::starts_with_text(
            rubric_lines(rubric_views(rubrics@)),
            rubric_lines(rubric_views(rubrics@).take(j)) + ("- "@ + rubric_views(rubrics@)[j].0
                + ": "@ + rubric_views(rubrics@)[j].1 + "\n"@),
        ),
{
    let all = rubric_views(rubrics@);
    lemma_lines_prefix(all, j + 1);
    assert(all.take(j + 1).drop_last() =~= all.take(j));
    assert(all.take(j + 1).last() == all[j]);
}

/// A judge is built exactly from a configuration with a criterion and a rate between zero
/// and one, and is as configured: its name, model, provider and rate, and every criterion
/// in order. What it is told names each criterion with what it means.
pub proof fn law_judge_is_as_configured(config: JudgeConfigView, i: int)
    ensures
        built(config) is Ok <==> config.rubrics.len() > 0 && single(floats::ZERO).le(
            config.sampling_rate,
        ) && config.sampling_rate.le(single(floats::ONE)),
        built(config) matches Ok(judge) ==> {
            &&& judge.name == config.name
            &&& judge.model == config.model
            &&& judge.provider == config.provider
            &&& judge.sampling_rate == config.sampling_rate
            &&& judge.criteria.len() == config.rubrics.len()
            &&& 0 <= i < config.rubrics.len() ==> judge.criteria[i] == config.rubrics[i].0
            &&& 0 <= i < config.rubrics.len() ==> text::contains_text(
                judge.preamble,
                "- "@ + config.rubrics[i].0 + ": "@ + config.rubrics[i].1 + "\n"@,
            )
        },
        built(config) matches Err(e) ==> match e {
            JudgeBuildErrorView::NoRubrics { judge } => judge == config.name
                && config.rubrics.len() == 0,
            JudgeBuildErrorView::InvalidSamplingRate { judge, value } => judge == config.name
                && value == config.sampling_rate && config.rubrics.len() > 0,
        },
{
    if built(config) is Ok && 0 <= i < config.rubrics.len() {
        let rubrics = config.rubrics;
        let line = "- "@ + rubrics[i].0 + ": "@ + rubrics[i].1 + "\n"@;
        let lines = rubric_lines(rubrics);
        let front = rubric_lines(rubrics.take(i));
        let upto = rubric_lines(rubrics.take(i + 1));
        lemma_lines_prefix(rubrics, i + 1);
        assert(rubrics.take(i + 1).drop_last() =~= rubrics.take(i));
        assert(rubrics.take(i + 1).last() == rubrics[i]);
        assert(upto == front + line);
        let whole = built(config)->Ok_0.preamble;
        let lead =
            "You are an evaluation judge. Score the assistant's reply against each criterion below on an integer scale from 0 (worst) to 10 (best), with a concise one-sentence reasoning.\n\nCriteria:\n"@;
        let at = lead.len() as int + front.len();
        assert(whole.skip(lead.len() as int).take(lines.len() as int) =~= lines);
        assert(lines.take(upto.len() as int) == upto);
        assert forall|k: int| 0 <= k < line.len() implies whole[at + k] == #[trigger] line[k] by {
            assert(whole.skip(lead.len() as int).take(lines.len() as int)[front.len() + k]
                == lines[front.len() + k]);
            assert(lines.take(upto.len() as int)[front.len() + k] == lines[front.len() + k]);
            assert(upto[front.len() + k] == line[k]);
        }
        assert(whole.subrange(at, at + line.len()) =~= line);
        assert(text::stands_at(whole, line, at));
    }
}

/// What an answer says of a criterion becomes one score of that criterion, under the names
/// of the judge and the agent, for the turn's user and message, with the reasoning as it
/// was given. What it says of anything else becomes none.
pub proof fn law_answers_become_scores(
    judge: JudgeView,
    exchange: ScoredExchange,
    raw: Map<Seq<char>, RawScore>,
    now: u64,
    i: int,
    j: int,
)
    requires
        0 <= i < judge.criteria.len(),
    ensures
        ({
            let scores = seqs::somes(
                judge.criteria.map_values(|c: Seq<char>| score_of(judge, exchange, raw, c, now)),
            );
            let criterion = judge.criteria[i];
            &&& raw.contains_key(criterion) ==> exists|k: int|
                0 <= k < scores.len() && {
                    let s = #[trigger] scores[k];
                    &&& s.criterion == criterion
                    &&& s.reasoning == raw[criterion].reasoning@
                    &&& s.score == clamped_score(raw[criterion].score)
                    &&& s.agent_name == exchange.agent_name@
                    &&& s.message_id == exchange.message_id
                    &&& s.user_id == exchange.user_id
                    &&& s.judge_name == judge.name
                    &&& s.judge_model == judge.model
                    &&& s.created_at == now
                }
            &&& scores.len() <= judge.criteria.len()
            &&& 0 <= j < scores.len() ==> judge.criteria.contains(scores[j].criterion)
                && raw.contains_key(scores[j].criterion)
        }),
{
    let of = |c: Seq<char>| score_of(judge, exchange, raw, c, now);
    let found = judge.criteria.map_values(of);
    let scores = seqs::somes(found);
    let criterion = judge.criteria[i];
    if raw.contains_key(criterion) {
        assert(found[i] is Some);
        seqs::lemma_somes_place(found, i);
        let k = seqs::somes(found.take(i)).len() as int;
        assert(scores[k] == found[i]->0);
    }
    lemma_no_more_scores(found);
    if 0 <= j < scores.len() {
        assert(scores.contains(scores[j]));
        seqs::lemma_somes_contains(found, scores[j]);
        let l = choose|l: int| 0 <= l < found.len() && #[trigger] found[l] == Some(scores[j]);
        assert(judge.criteria[l] == scores[j].criterion);
    }
}

proof fn lemma_no_more_scores(found: Seq<Option<ScoreView>>)
    ensures
        seqs::somes(found).len() <= found.len(),
    decreases found.len(),
{
    if found.len() > 0 {
        lemma_no_more_scores(found.drop_last());
    }
}

/// A score between zero and ten stays as it is; one above is ten, and one below, or none at
/// all, is zero.
pub proof fn law_scores_stay_in_range(value: Single)
    ensures
        single(floats::ZERO).le(value) && value.le(single(floats::TEN)) ==> clamped_score(value)
            == value,
        single(floats::TEN).lt(value) ==> clamped_score(value) == single(floats::TEN),
        value.lt(single(floats::ZERO)) || value.is_nan() ==> clamped_score(value) == single(
            floats::ZERO,
        ),
{
}

/// A judge is asked about what the user said and what was replied, in this order.
pub proof fn law_question_holds_the_turn(exchange: ScoredExchange)
    ensures
        exists|a: int, b: int|
            text::stands_at(question(exchange), exchange.user_message@, a) && text::stands_at(
                question(exchange),
                exchange.assistant_message@,
                b,
            ) && a + exchange.user_message@.len() <= b,
{
    let q = question(exchange);
    let a = "User message:\n"@.len() as int;
    let b = a + exchange.user_message@.len() + "\n\nAssistant reply:\n"@.len();
    assert(q.subrange(a, a + exchange.user_message@.len()) =~= exchange.user_message@);
    assert(q.subrange(b, b + exchange.assistant_message@.len()) =~= exchange.assistant_message@);
    assert(text::stands_at(q, exchange.user_message@, a) && text::stands_at(
        q,
        exchange.assistant_message@,
        b,
    ));
}

/// A turn that is scored at some rate is scored at every higher one.
pub proof fn law_higher_rate_samples_more(low: Single, high: Single, name: Seq<char>, id: MessageId)
    requires
        low.le(high),
        is_sampled(low, name, id),
    ensures
        is_sampled(high, name, id),
{
    if !single(floats::ONE).le(high) {
        floats::lemma_scaled_grows(low, high);
    }
}

/// Whether a turn is scored is drawn for the message and the judge: another message, or
/// another judge, is drawn for by other bytes.
pub proof fn law_each_turn_is_drawn_for_apart(
    a: MessageId,
    b: MessageId,
    name: Seq<char>,
    other: Seq<char>,
)
    requires
        hashed(a, name) == hashed(b, other),
    ensures
        a == b,
        name == other,
{
    let x = hashed(a, name);
    let y = hashed(b, other);
    assert(x[0] == y[0] && x[1] == y[1]);
    assert(vstd::arithmetic::power::pow(256, 16) == 0x1_0000_0000_0000_0000_0000_0000_0000_0000int)
        by {
        reveal_with_fuel(vstd::arithmetic::power::pow, 17);
    }
    ids::law_low_bytes_tell_apart(a.0 as nat, b.0 as nat, 16);
    crate::crypto::lemma_utf8_round_trip(name);
    crate::crypto::lemma_utf8_round_trip(other);
}

/// The draw is the highest 24 bits of what the message and the judge hash to.
pub proof fn law_draw_is_the_highest_bits(id: MessageId, name: Seq<char>)
    ensures
        draw(id, name) < 0x100_0000,
        draw(id, name) * 0x100_0000_0000 <= DefaultHasher::spec_finish(hashed(id, name)),
        DefaultHasher::spec_finish(hashed(id, name)) < (draw(id, name) + 1) * 0x100_0000_0000,
{
}

} // verus!
