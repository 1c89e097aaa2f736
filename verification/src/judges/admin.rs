//! The administrator's pages on judges.
use vstd::prelude::*;

use crate::display;
use crate::floats::{self, single, Single};
use crate::ids::{self, UserId};
use crate::judges::config::{rubric_views, DynamicJudgeRow, JudgeConfig};
use crate::judges::judge::{Score, ScoreView};
use crate::judges::merge::{self, AdminJudge, AdminJudgeView, AdminSource};
use crate::judges::store::{AgentCriterionCell, AgentCriterionCellView, JudgeVolume};
use crate::names;
use crate::order::{self, Named};
use crate::seqs;
use crate::text;

verus! {

/// Why a request was refused.
#[derive(Debug)]
pub enum AdminError {
    BadRequest(String),
    InvalidUserId,
    Judge(String),
    NotFound,
    Render(String),
    Yaml(String),
}

impl AdminError {
    /// What the answer says.
    pub open spec fn message(&self) -> Seq<char> {
        match self {
            AdminError::BadRequest(m) => m@,
            AdminError::InvalidUserId => "user_id must be a valid UUID"@,
            AdminError::Judge(m) => m@,
            AdminError::NotFound => "judge not found"@,
            AdminError::Render(e) => "render failed: "@ + e@,
            AdminError::Yaml(e) => "could not serialize judge config as YAML: "@ + e@,
        }
    }

    /// The status of the answer.
    pub open spec fn status_code(&self) -> u16 {
        match self {
            AdminError::BadRequest(_) | AdminError::InvalidUserId => 400,
            AdminError::Judge(_) | AdminError::Render(_) | AdminError::Yaml(_) => 500,
            AdminError::NotFound => 404,
        }
    }

    /// What the answer says.
    pub fn to_text(&self) -> (r: String)
        ensures
            r@ == self.message(),
    {
        match self {
            AdminError::BadRequest(m) => m.clone(),
            AdminError::InvalidUserId => String::from_str("user_id must be a valid UUID"),
            AdminError::Judge(m) => m.clone(),
            AdminError::NotFound => String::from_str("judge not found"),
            AdminError::Render(e) => {
                let mut out = String::from_str("render failed: ");
                out.append(e.as_str());
                out
            },
            AdminError::Yaml(e) => {
                let mut out = String::from_str("could not serialize judge config as YAML: ");
                out.append(e.as_str());
                out
            },
        }
    }

    /// The status of the answer.
    pub fn status(&self) -> (r: u16)
        ensures
            r == self.status_code(),
    {
        match self {
            AdminError::BadRequest(_) | AdminError::InvalidUserId => 400,
            AdminError::Judge(_) | AdminError::Render(_) | AdminError::Yaml(_) => 500,
            AdminError::NotFound => 404,
        }
    }
}

/// The word that tells where a judge stands.
#[derive(Clone, Copy, Debug, PartialEq, Eq, Structural)]
pub struct SourceLabel {
    pub source: AdminSource,
}

impl SourceLabel {
    /// The word for a source.
    pub open spec fn word(&self) -> Seq<char> {
        match self.source {
            AdminSource::Dynamic => "dynamic"@,
            AdminSource::Override => "override"@,
            AdminSource::Tombstoned => "tombstoned"@,
            AdminSource::Yaml => "yaml"@,
        }
    }

    /// The label of a source.
    pub fn from_admin(source: AdminSource) -> (r: Self)
        ensures
            r.source == source,
    {
        SourceLabel { source }
    }

    /// The word for the source.
    pub fn as_str(&self) -> (r: &'static str)
        ensures
            r@ == self.word(),
    {
        match self.source {
            AdminSource::Dynamic => "dynamic",
            AdminSource::Override => "override",
            AdminSource::Tombstoned => "tombstoned",
            AdminSource::Yaml => "yaml",
        }
    }
}

/// A score as listed.
#[derive(Debug)]
pub struct ScoreRow {
    pub created_at: String,
    pub criterion: String,
    pub judge_name: String,
    pub reasoning: String,
    pub score: Single,
}

/// `ScoreRow`, with texts as sequences of characters.
pub struct ScoreRowView {
    pub created_at: Seq<char>,
    pub criterion: Seq<char>,
    pub judge_name: Seq<char>,
    pub reasoning: Seq<char>,
    pub score: Single,
}

impl View for ScoreRow {
    type V = ScoreRowView;

    open spec fn view(&self) -> ScoreRowView {
        ScoreRowView {
            created_at: self.created_at@,
            criterion: self.criterion@,
            judge_name: self.judge_name@,
            reasoning: self.reasoning@,
            score: self.score,
        }
    }
}

/// How a score is listed at a moment.
pub open spec fn score_row(s: ScoreView, now: u64) -> ScoreRowView {
    ScoreRowView {
        created_at: display::ago(s.created_at, now),
        criterion: s.criterion,
        judge_name: s.judge_name,
        reasoning: s.reasoning,
        score: s.score,
    }
}

impl ScoreRow {
    /// How a score is listed at a moment.
    pub fn from_score(s: &Score, now: u64) -> (r: Self)
        ensures
            r@ == score_row(s@, now),
    {
        ScoreRow {
            created_at: display::relative_time(s.created_at, now),
            criterion: s.criterion.clone(),
            judge_name: s.judge_name.clone(),
            reasoning: s.reasoning.clone(),
            score: s.score,
        }
    }
}

/// The scores that one judge gave on one criterion.
#[derive(Debug)]
pub struct CriterionScores {
    pub criterion: String,
    pub judge_name: String,
    pub scores: Vec<Single>,
}

/// `CriterionScores`, with texts as sequences of characters.
pub struct CriterionScoresView {
    pub criterion: Seq<char>,
    pub judge_name: Seq<char>,
    pub scores: Seq<Single>,
}

impl View for CriterionScores {
    type V = CriterionScoresView;

    open spec fn view(&self) -> CriterionScoresView {
        CriterionScoresView {
            criterion: self.criterion@,
            judge_name: self.judge_name@,
            scores: self.scores@,
        }
    }
}

/// The value of a score, if a judge gave it on a criterion.
pub open spec fn score_on(s: ScoreView, judge: Seq<char>, criterion: Seq<char>) -> Option<Single> {
    if s.judge_name == judge && s.criterion == criterion {
        Some(s.score)
    } else {
        None
    }
}

/// The values that a judge gave on a criterion, in order.
pub open spec fn scores_on(scores: Seq<ScoreView>, judge: Seq<char>, criterion: Seq<char>) -> Seq<
    Single,
> {
    seqs::somes(scores.map_values(|s: ScoreView| score_on(s, judge, criterion)))
}

/// One pair of names comes before another.
pub open spec fn pair_lt(a: (Seq<char>, Seq<char>), b: (Seq<char>, Seq<char>)) -> bool {
    text::text_lt(a.0, b.0) || (a.0 == b.0 && text::text_lt(a.1, b.1))
}

/// There is a group of a judge and a criterion.
pub open spec fn has_group(
    groups: Seq<CriterionScoresView>,
    judge: Seq<char>,
    criterion: Seq<char>,
) -> bool {
    exists|i: int|
        0 <= i < groups.len() && (#[trigger] groups[i]).judge_name == judge && groups[i].criterion
            == criterion
}

/// `groups` hold the scores by judge and criterion, in the order of the judges' and then
/// the criteria's names.
pub open spec fn is_grouping(groups: Seq<CriterionScoresView>, scores: Seq<ScoreView>) -> bool {
    &&& forall|i: int, j: int|
        0 <= i < j < groups.len() ==> pair_lt(
            ((#[trigger] groups[i]).judge_name, groups[i].criterion),
            ((#[trigger] groups[j]).judge_name, groups[j].criterion),
        )
    &&& forall|i: int|
        0 <= i < groups.len() ==> (#[trigger] groups[i]).scores == scores_on(
            scores,
            groups[i].judge_name,
            groups[i].criterion,
        ) && groups[i].scores.len() > 0
    &&& forall|k: int|
        0 <= k < scores.len() ==> has_group(
            groups,
            (#[trigger] scores[k]).judge_name,
            scores[k].criterion,
        )
}

/// The values that a judge gave on a criterion.
fn values_on(scores: &Vec<Score>, judge: &str, criterion: &str) -> (r: Vec<Single>)
    ensures
        r@ == scores_on(seqs::views(scores@), judge@, criterion@),
{
    let ghost all = seqs::views(scores@);
    let ghost on = |s: ScoreView| score_on(s, judge@, criterion@);
    let mut out: Vec<Single> = Vec::new();
    let mut i: usize = 0;
    assert(out@ =~= seqs::somes(all.take(0).map_values(on)));
    while i < scores.len()
        invariant
            i <= scores@.len(),
            all == seqs::views(scores@),
            on == (|s: ScoreView| score_on(s, judge@, criterion@)),
            out@ == seqs::somes(all.take(i as int).map_values(on)),
        decreases scores@.len() - i,
    {
        proof {
            assert(all[i as int] == scores@[i as int]@);
            seqs::lemma_somes_step(all, on, i as int);
        }
        if text::str_eq(scores[i].judge_name.as_str(), judge) && text::str_eq(
            scores[i].criterion.as_str(),
            criterion,
        ) {
            out.push(scores[i].score);
        }
        i = i + 1;
    }
    assert(all.take(i as int) =~= all);
    out
}

/// The names of the judges that gave the scores.
fn judge_names(scores: &Vec<Score>) -> (r: Vec<String>)
    ensures
        text::texts(r@) == seqs::views(scores@).map_values(|s: ScoreView| s.judge_name),
{
    let mut out: Vec<String> = Vec::new();
    let mut i: usize = 0;
    while i < scores.len()
        invariant
            i <= scores@.len(),
            out@.len() == i,
            forall|j: int| 0 <= j < i ==> (#[trigger] out@[j])@ == scores@[j].judge_name@,
        decreases scores@.len() - i,
    {
        out.push(scores[i].judge_name.clone());
        i = i + 1;
    }
    assert(text::texts(out@) =~= seqs::views(scores@).map_values(|s: ScoreView| s.judge_name));
    out
}

/// The criterion of a score, if a judge gave it.
pub open spec fn criterion_by(s: ScoreView, judge: Seq<char>) -> Option<Seq<char>> {
    if s.judge_name == judge {
        Some(s.criterion)
    } else {
        None
    }
}

/// The criteria of the scores that a judge gave.
fn criteria_by(scores: &Vec<Score>, judge: &str) -> (r: Vec<String>)
    ensures
        text::texts(r@) == seqs::somes(
            seqs::views(scores@).map_values(|s: ScoreView| criterion_by(s, judge@)),
        ),
{
    let ghost all = seqs::views(scores@);
    let ghost by = |s: ScoreView| criterion_by(s, judge@);
    let mut out: Vec<String> = Vec::new();
    let mut i: usize = 0;
    assert(text::texts(out@) =~= seqs::somes(all.take(0).map_values(by)));
    while i < scores.len()
        invariant
            i <= scores@.len(),
            all == seqs::views(scores@),
            by == (|s: ScoreView| criterion_by(s, judge@)),
            text::texts(out@) == seqs::somes(all.take(i as int).map_values(by)),
        decreases scores@.len() - i,
    {
        proof {
            assert(all[i as int] == scores@[i as int]@);
            seqs::lemma_somes_step(all, by, i as int);
        }
        if text::str_eq(scores[i].judge_name.as_str(), judge) {
            let name = scores[i].criterion.clone();
            proof {
                text::lemma_texts_push(out@, name);
            }
            out.push(name);
        }
        i = i + 1;
    }
    assert(all.take(i as int) =~= all);
    out
}

/// Some score stands under a judge and a criterion.
spec fn has_score(scores: Seq<ScoreView>, judge: Seq<char>, criterion: Seq<char>) -> bool {
    exists|k: int|
        0 <= k < scores.len() && (#[trigger] scores[k]).judge_name == judge && scores[k].criterion
            == criterion
}

proof fn lemma_has_score(scores: Seq<ScoreView>, judge: Seq<char>, criterion: Seq<char>)
    ensures
        has_score(scores, judge, criterion) <==> scores_on(scores, judge, criterion).len() > 0,
        has_score(scores, judge, criterion) <==> seqs::somes(
            scores.map_values(|s: ScoreView| criterion_by(s, judge)),
        ).contains(criterion),
{
    let on = scores.map_values(|s: ScoreView| score_on(s, judge, criterion));
    let by = scores.map_values(|s: ScoreView| criterion_by(s, judge));
    seqs::lemma_somes_contains(by, criterion);
    if has_score(scores, judge, criterion) {
        let k = choose|k: int|
            0 <= k < scores.len() && (#[trigger] scores[k]).judge_name == judge
                && scores[k].criterion == criterion;
        seqs::lemma_somes_contains(on, scores[k].score);
        assert(on[k] == Some(scores[k].score));
        assert(by[k] == Some(criterion));
    }
    if scores_on(scores, judge, criterion).len() > 0 {
        let first = scores_on(scores, judge, criterion)[0];
        seqs::lemma_somes_contains(on, first);
        let k = choose|k: int| 0 <= k < on.len() && #[trigger] on[k] == Some(first);
        assert(scores[k].judge_name == judge);
    }
    if seqs::somes(by).contains(criterion) {
        let k = choose|k: int| 0 <= k < by.len() && #[trigger] by[k] == Some(criterion);
        assert(scores[k].judge_name == judge);
    }
}

/// `groups` are those of the first `n` judges' criteria, and of the next judge's first
/// `m`.
spec fn grouped_so_far(
    groups: Seq<CriterionScoresView>,
    scores: Seq<ScoreView>,
    judges: Seq<Seq<char>>,
    n: int,
    criteria: Seq<Seq<char>>,
    m: int,
) -> bool {
    &&& forall|i: int, j: int|
        0 <= i < j < groups.len() ==> pair_lt(
            ((#[trigger] groups[i]).judge_name, groups[i].criterion),
            ((#[trigger] groups[j]).judge_name, groups[j].criterion),
        )
    &&& forall|i: int|
        0 <= i < groups.len() ==> (#[trigger] groups[i]).scores == scores_on(
            scores,
            groups[i].judge_name,
            groups[i].criterion,
        ) && groups[i].scores.len() > 0
    &&& forall|i: int|
        0 <= i < groups.len() ==> judges.take(n).contains((#[trigger] groups[i]).judge_name) || (
        m > 0 && groups[i].judge_name == judges[n] && criteria.take(m).contains(
            groups[i].criterion,
        ))
    &&& forall|judge: Seq<char>, criterion: Seq<char>| #[trigger]
        has_score(scores, judge, criterion) && (judges.take(n).contains(judge) || (m > 0 && judge
            == judges[n] && criteria.take(m).contains(criterion))) ==> has_group(
            groups,
            judge,
            criterion,
        )
}

/// The scores by judge and criterion, in the order of the judges' and then the
/// criteria's names.
pub fn group_by_criterion(scores: &Vec<Score>) -> (r: Vec<CriterionScores>)
    ensures
        is_grouping(seqs::views(r@), seqs::views(scores@)),
{
    let ghost all = seqs::views(scores@);
    let judges = names::sorted_set(&judge_names(scores));
    let ghost js = text::texts(judges@);
    let mut groups: Vec<CriterionScores> = Vec::new();
    let mut i: usize = 0;
    assert(js.take(0) =~= Seq::empty());
    while i < judges.len()
        invariant
            i <= judges@.len(),
            all == seqs::views(scores@),
            js == text::texts(judges@),
            names::is_sorted_set(js, all.map_values(|s: ScoreView| s.judge_name)),
            grouped_so_far(seqs::views(groups@), all, js, i as int, Seq::empty(), 0),
        decreases judges@.len() - i,
    {
        let judge: &String = &judges[i];
        let criteria = names::sorted_set(&criteria_by(scores, judge.as_str()));
        let ghost cs = text::texts(criteria@);
        let mut j: usize = 0;
        assert(js[i as int] == judge@);
        while j < criteria.len()
            invariant
                j <= criteria@.len(),
                i < judges@.len(),
                all == seqs::views(scores@),
                js == text::texts(judges@),
                judge@ == js[i as int],
                cs == text::texts(criteria@),
                names::is_sorted_set(js, all.map_values(|s: ScoreView| s.judge_name)),
                names::is_sorted_set(
                    cs,
                    seqs::somes(all.map_values(|s: ScoreView| criterion_by(s, judge@))),
                ),
                grouped_so_far(seqs::views(groups@), all, js, i as int, cs, j as int),
            decreases criteria@.len() - j,
        {
            let criterion: &String = &criteria[j];
            let ghost before = seqs::views(groups@);
            let group = CriterionScores {
                criterion: criterion.clone(),
                judge_name: judge.clone(),
                scores: values_on(scores, judge.as_str(), criterion.as_str()),
            };
            proof {
                assert(cs[j as int] == criterion@);
                lemma_group_step(before, all, js, i as int, cs, j as int, group@);
            }
            groups.push(group);
            assert(seqs::views(groups@) =~= before.push(group@));
            j = j + 1;
        }
        proof {
            lemma_judge_step(seqs::views(groups@), all, js, i as int, cs);
        }
        i = i + 1;
    }
    proof {
        lemma_grouped_all(seqs::views(groups@), all, js);
    }
    groups
}

proof fn lemma_group_step(
    groups: Seq<CriterionScoresView>,
    scores: Seq<ScoreView>,
    judges: Seq<Seq<char>>,
    n: int,
    criteria: Seq<Seq<char>>,
    m: int,
    group: CriterionScoresView,
)
    requires
        0 <= n < judges.len(),
        0 <= m < criteria.len(),
        names::is_sorted_set(judges, scores.map_values(|s: ScoreView| s.judge_name)),
        names::is_sorted_set(
            criteria,
            seqs::somes(scores.map_values(|s: ScoreView| criterion_by(s, judges[n]))),
        ),
        grouped_so_far(groups, scores, judges, n, criteria, m),
        group.judge_name == judges[n],
        group.criterion == criteria[m],
        group.scores == scores_on(scores, judges[n], criteria[m]),
    ensures
        grouped_so_far(groups.push(group), scores, judges, n, criteria, m + 1),
{
    let after = groups.push(group);
    assert(criteria.contains(criteria[m]));
    lemma_has_score(scores, judges[n], criteria[m]);
    assert(criteria.take(m + 1) =~= criteria.take(m).push(criteria[m]));
    assert forall|i: int, j: int| 0 <= i < j < after.len() implies pair_lt(
        ((#[trigger] after[i]).judge_name, after[i].criterion),
        ((#[trigger] after[j]).judge_name, after[j].criterion),
    ) by {
        assert(after[i] == groups[i]);
        if j < groups.len() {
            assert(after[j] == groups[j]);
        } else if judges.take(n).contains(groups[i].judge_name) {
            let k = choose|k: int|
                0 <= k < judges.take(n).len() && judges.take(n)[k] == groups[i].judge_name;
            assert(text::text_lt(judges[k], judges[n]));
        } else {
            let k = choose|k: int|
                0 <= k < criteria.take(m).len() && criteria.take(m)[k] == groups[i].criterion;
            assert(text::text_lt(criteria[k], criteria[m]));
        }
    }
    assert forall|i: int| 0 <= i < after.len() implies judges.take(n).contains(
        (#[trigger] after[i]).judge_name,
    ) || (m + 1 > 0 && after[i].judge_name == judges[n] && criteria.take(m + 1).contains(
        after[i].criterion,
    )) by {
        order::lemma_push_contains(criteria.take(m), criteria[m], after[i].criterion);
        if i < groups.len() {
            assert(after[i] == groups[i]);
        }
    }
    assert forall|judge: Seq<char>, criterion: Seq<char>| #[trigger]
        has_score(scores, judge, criterion) && (judges.take(n).contains(judge) || (m + 1 > 0
            && judge == judges[n] && criteria.take(m + 1).contains(criterion))) implies has_group(
        after,
        judge,
        criterion,
    ) by {
        order::lemma_push_contains(criteria.take(m), criteria[m], criterion);
        if judge == judges[n] && criterion == criteria[m] {
            assert(after[groups.len() as int] == group);
        } else {
            if !judges.take(n).contains(judge) {
                assert(criteria.take(m).contains(criterion));
                let k = choose|k: int|
                    0 <= k < criteria.take(m).len() && criteria.take(m)[k] == criterion;
                assert(m > 0);
            }
            let i = choose|i: int|
                0 <= i < groups.len() && (#[trigger] groups[i]).judge_name == judge
                    && groups[i].criterion == criterion;
            assert(after[i] == groups[i]);
        }
    }
}

proof fn lemma_judge_step(
    groups: Seq<CriterionScoresView>,
    scores: Seq<ScoreView>,
    judges: Seq<Seq<char>>,
    n: int,
    criteria: Seq<Seq<char>>,
)
    requires
        0 <= n < judges.len(),
        names::is_sorted_set(
            criteria,
            seqs::somes(scores.map_values(|s: ScoreView| criterion_by(s, judges[n]))),
        ),
        grouped_so_far(groups, scores, judges, n, criteria, criteria.len() as int),
    ensures
        grouped_so_far(groups, scores, judges, n + 1, Seq::empty(), 0),
{
    assert(judges.take(n + 1) =~= judges.take(n).push(judges[n]));
    assert(criteria.take(criteria.len() as int) =~= criteria);
    assert forall|i: int| 0 <= i < groups.len() implies judges.take(n + 1).contains(
        (#[trigger] groups[i]).judge_name,
    ) by {
        order::lemma_push_contains(judges.take(n), judges[n], groups[i].judge_name);
    }
    assert forall|judge: Seq<char>, criterion: Seq<char>| #[trigger]
        has_score(scores, judge, criterion) && judges.take(n + 1).contains(judge) implies has_group(
        groups,
        judge,
        criterion,
    ) by {
        order::lemma_push_contains(judges.take(n), judges[n], judge);
        if judge == judges[n] {
            lemma_has_score(scores, judge, criterion);
            assert(criteria.contains(criterion));
        }
    }
}

proof fn lemma_grouped_all(
    groups: Seq<CriterionScoresView>,
    scores: Seq<ScoreView>,
    judges: Seq<Seq<char>>,
)
    requires
        names::is_sorted_set(judges, scores.map_values(|s: ScoreView| s.judge_name)),
        grouped_so_far(groups, scores, judges, judges.len() as int, Seq::empty(), 0),
    ensures
        is_grouping(groups, scores),
{
    let by = scores.map_values(|s: ScoreView| s.judge_name);
    assert(judges.take(judges.len() as int) =~= judges);
    assert forall|k: int| 0 <= k < scores.len() implies has_group(
        groups,
        (#[trigger] scores[k]).judge_name,
        scores[k].criterion,
    ) by {
        assert(by[k] == scores[k].judge_name);
        assert(judges.contains(scores[k].judge_name));
        assert(has_score(scores, scores[k].judge_name, scores[k].criterion));
    }
}

/// A conversation's scores: grouped, and the five latest.
#[derive(Debug)]
pub struct ScoresPanel {
    pub averages: Vec<CriterionScores>,
    pub recent: Vec<ScoreRow>,
}

/// The last `n` items, last first.
pub open spec fn latest<T>(s: Seq<T>, n: nat) -> Seq<T> {
    Seq::new(
        if s.len() < n {
            s.len()
        } else {
            n
        },
        |i: int| s[s.len() - 1 - i],
    )
}

impl ScoresPanel {
    /// The panel on some scores, which are listed oldest first.
    pub fn build(scores: &Vec<Score>, now: u64) -> (r: Self)
        ensures
            is_grouping(seqs::views(r.averages@), seqs::views(scores@)),
            seqs::views(r.recent@) == latest(seqs::views(scores@), 5).map_values(
                |s: ScoreView| score_row(s, now),
            ),
    {
        let averages = group_by_criterion(scores);
        let len: usize = scores.len();
        let mut recent: Vec<ScoreRow> = Vec::new();
        let mut i: usize = 0;
        while i < len && i < 5
            invariant
                i <= 5,
                i <= len,
                len == scores@.len(),
                recent@.len() == i,
                forall|j: int|
                    0 <= j < i ==> (#[trigger] recent@[j])@ == score_row(
                        scores@[len - 1 - j]@,
                        now,
                    ),
            decreases len - i,
        {
            recent.push(ScoreRow::from_score(&scores[len - 1 - i], now));
            i = i + 1;
        }
        assert(seqs::views(recent@) =~= latest(seqs::views(scores@), 5).map_values(
            |s: ScoreView| score_row(s, now),
        ));
        ScoresPanel { averages, recent }
    }
}

/// An agent's mean score.
#[derive(Debug)]
pub struct ScoreRowMean {
    pub agent: String,
    pub mean: Single,
    pub samples: u32,
}

impl Named for ScoreRowMean {
    open spec fn sort_name(&self) -> Seq<char> {
        self.agent@
    }

    fn name_str(&self) -> (r: &str) {
        self.agent.as_str()
    }
}

/// Mean scores, sorted by agent.
pub fn scores_means(rows: Vec<ScoreRowMean>) -> (r: Vec<ScoreRowMean>)
    ensures
        order::is_stable_sort(rows@, r@, order::name_key::<ScoreRowMean>()),
{
    order::sort_by_name(rows)
}

/// A criterion and what it means.
#[derive(Debug)]
pub struct RubricRow {
    pub description: String,
    pub name: String,
}

/// The page of one judge.
#[derive(Debug)]
pub struct JudgeDetailRow {
    pub model: String,
    pub name: String,
    pub provider: String,
    pub rubrics: Vec<RubricRow>,
    /// Absent for a judge without a configuration.
    pub sampling_rate: Option<Single>,
    pub source: SourceLabel,
    pub yaml_backed: bool,
}

impl JudgeDetailRow {
    /// The page shows a judge on the administrator's list.
    pub open spec fn shows(&self, row: AdminJudgeView) -> bool {
        &&& self.source.source == row.source
        &&& self.yaml_backed == row.yaml_backed
        &&& match row.config {
            Some(c) => {
                &&& self.model@ == c.model
                &&& self.name@ == c.name
                &&& self.provider@ == c.provider
                &&& self.rubrics@.map_values(|r: RubricRow| (r.name@, r.description@)) == c.rubrics
                &&& self.sampling_rate == Some(c.sampling_rate)
            },
            None => {
                &&& self.model@ == Seq::<char>::empty()
                &&& self.name@ == row.name
                &&& self.provider@ == Seq::<char>::empty()
                &&& self.rubrics@.len() == 0
                &&& self.sampling_rate is None
            },
        }
    }

    /// The page of a judge on the administrator's list.
    pub fn from_admin(row: &AdminJudge) -> (r: Self)
        ensures
            r.shows(row@),
    {
        let source = SourceLabel::from_admin(row.source);
        match &row.config {
            Some(cfg) => {
                let mut rubrics: Vec<RubricRow> = Vec::new();
                let mut i: usize = 0;
                while i < cfg.rubrics.len()
                    invariant
                        i <= cfg.rubrics@.len(),
                        rubrics@.len() == i,
                        forall|j: int|
                            0 <= j < i ==> (#[trigger] rubrics@[j]).name@ == cfg.rubrics@[j].0
                                && rubrics@[j].description@ == cfg.rubrics@[j].1@,
                    decreases cfg.rubrics@.len() - i,
                {
                    rubrics.push(
                        RubricRow {
                            description: cfg.rubrics.value_at(i).clone(),
                            name: cfg.rubrics.name_at(i).clone(),
                        },
                    );
                    i = i + 1;
                }
                assert(rubrics@.map_values(|r: RubricRow| (r.name@, r.description@))
                    =~= rubric_views(cfg.rubrics@));
                JudgeDetailRow {
                    model: cfg.model.clone(),
                    name: cfg.name.clone(),
                    provider: cfg.provider.clone(),
                    rubrics,
                    sampling_rate: Some(cfg.sampling_rate),
                    source,
                    yaml_backed: row.yaml_backed,
                }
            },
            None => JudgeDetailRow {
                model: String::new(),
                name: row.name.clone(),
                provider: String::new(),
                rubrics: Vec::new(),
                sampling_rate: None,
                source,
                yaml_backed: row.yaml_backed,
            },
        }
    }
}

/// A judge in the list of judges.
#[derive(Debug)]
pub struct JudgeListRow {
    pub criteria_count: usize,
    pub model: String,
    pub name: String,
    pub provider: String,
    /// Absent for a judge without a configuration.
    pub sampling_rate: Option<Single>,
    pub score_count_7d: u32,
    pub source: SourceLabel,
    pub tombstoned: bool,
}

/// How many scores a judge gave: the first count under its name, or none.
pub open spec fn volume_of(volumes: Seq<JudgeVolume>, name: Seq<char>) -> u32
    decreases volumes.len(),
{
    if volumes.len() == 0 {
        0
    } else if volumes[0].judge_name@ == name {
        volumes[0].count
    } else {
        volume_of(volumes.drop_first(), name)
    }
}

fn find_volume(volumes: &[JudgeVolume], name: &str) -> (r: u32)
    ensures
        r == volume_of(volumes@, name@),
{
    let mut i: usize = 0;
    assert(volumes@.skip(0) =~= volumes@);
    while i < volumes.len()
        invariant
            i <= volumes@.len(),
            volume_of(volumes@, name@) == volume_of(volumes@.skip(i as int), name@),
        decreases volumes@.len() - i,
    {
        assert(volumes@.skip(i as int).drop_first() =~= volumes@.skip(i + 1));
        if text::str_eq(volumes[i].judge_name.as_str(), name) {
            return volumes[i].count;
        }
        i = i + 1;
    }
    0
}

impl JudgeListRow {
    /// The row shows a judge on the administrator's list.
    pub open spec fn shows(&self, row: AdminJudgeView, volumes: Seq<JudgeVolume>) -> bool {
        &&& self.source.source == row.source
        &&& self.score_count_7d == volume_of(volumes, row.name)
        &&& self.tombstoned == (row.config is None)
        &&& match row.config {
            Some(c) => {
                &&& self.criteria_count == c.rubrics.len()
                &&& self.model@ == c.model
                &&& self.name@ == c.name
                &&& self.provider@ == c.provider
                &&& self.sampling_rate == Some(c.sampling_rate)
            },
            None => {
                &&& self.criteria_count == 0
                &&& self.model@ == Seq::<char>::empty()
                &&& self.name@ == row.name
                &&& self.provider@ == Seq::<char>::empty()
                &&& self.sampling_rate is None
            },
        }
    }

    /// The row of a judge on the administrator's list.
    pub fn from_admin(row: &AdminJudge, volumes: &[JudgeVolume]) -> (r: Self)
        ensures
            r.shows(row@, volumes@),
    {
        let source = SourceLabel::from_admin(row.source);
        let score_count_7d: u32 = find_volume(volumes, row.name.as_str());
        match &row.config {
            Some(cfg) => JudgeListRow {
                criteria_count: cfg.rubrics.len(),
                model: cfg.model.clone(),
                name: cfg.name.clone(),
                provider: cfg.provider.clone(),
                sampling_rate: Some(cfg.sampling_rate),
                score_count_7d,
                source,
                tombstoned: false,
            },
            None => JudgeListRow {
                criteria_count: 0,
                model: String::new(),
                name: row.name.clone(),
                provider: String::new(),
                sampling_rate: None,
                score_count_7d,
                source,
                tombstoned: true,
            },
        }
    }
}

/// A mean score in the table of agents and criteria.
#[derive(Debug)]
pub struct MatrixCell {
    pub color_class: &'static str,
    /// Absent where there are no scores.
    pub mean: Option<Single>,
    pub samples: u32,
}

/// `MatrixCell`, with texts as sequences of characters.
pub struct MatrixCellView {
    pub color_class: Seq<char>,
    pub mean: Option<Single>,
    pub samples: u32,
}

impl View for MatrixCell {
    type V = MatrixCellView;

    open spec fn view(&self) -> MatrixCellView {
        MatrixCellView {
            color_class: self.color_class@,
            mean: self.mean,
            samples: self.samples,
        }
    }
}

/// An agent's row in the table of agents and criteria.
#[derive(Debug)]
pub struct MatrixRow {
    pub agent_name: String,
    pub cells: Vec<MatrixCell>,
}

/// `MatrixRow`, with texts as sequences of characters.
pub struct MatrixRowView {
    pub agent_name: Seq<char>,
    pub cells: Seq<MatrixCellView>,
}

impl View for MatrixRow {
    type V = MatrixRowView;

    open spec fn view(&self) -> MatrixRowView {
        MatrixRowView { agent_name: self.agent_name@, cells: seqs::views(self.cells@) }
    }
}

/// The table of agents and criteria.
#[derive(Debug)]
pub struct AgentCriterionMatrix {
    pub criteria: Vec<String>,
    pub rows: Vec<MatrixRow>,
}

/// The last cell of an agent and a criterion.
pub open spec fn last_cell(
    cells: Seq<AgentCriterionCellView>,
    agent: Seq<char>,
    criterion: Seq<char>,
) -> Option<AgentCriterionCellView>
    decreases cells.len(),
{
    if cells.len() == 0 {
        None
    } else if cells.last().agent_name == agent && cells.last().criterion == criterion {
        Some(cells.last())
    } else {
        last_cell(cells.drop_last(), agent, criterion)
    }
}

/// How a cell is shown: green from 7, amber from 4, red below, grey where it is empty.
pub open spec fn shaded(cell: Option<AgentCriterionCellView>) -> MatrixCellView {
    match cell {
        Some(c) => MatrixCellView {
            color_class: if single(floats::SEVEN).le(c.mean) {
                "text-emerald-300"@
            } else if single(floats::FOUR).le(c.mean) {
                "text-amber-300"@
            } else {
                "text-rose-300"@
            },
            mean: Some(c.mean),
            samples: c.samples,
        },
        None => MatrixCellView { color_class: "text-slate-500"@, mean: None, samples: 0 },
    }
}

/// An agent's row of the table.
pub open spec fn matrix_row(
    cells: Seq<AgentCriterionCellView>,
    criteria: Seq<Seq<char>>,
    agent: Seq<char>,
) -> MatrixRowView {
    MatrixRowView {
        agent_name: agent,
        cells: criteria.map_values(|c: Seq<char>| shaded(last_cell(cells, agent, c))),
    }
}

/// The table has a column for each criterion and a row for each agent, both sorted.
pub open spec fn is_matrix(m: AgentCriterionMatrix, cells: Seq<AgentCriterionCellView>) -> bool {
    let agents = m.rows@.map_values(|r: MatrixRow| r.agent_name@);
    let criteria = text::texts(m.criteria@);
    &&& names::is_sorted_set(
        criteria,
        cells.map_values(|c: AgentCriterionCellView| c.criterion),
    )
    &&& names::is_sorted_set(agents, cells.map_values(|c: AgentCriterionCellView| c.agent_name))
    &&& seqs::views(m.rows@) == agents.map_values(|a: Seq<char>| matrix_row(cells, criteria, a))
}

fn find_cell<'a>(cells: &'a [AgentCriterionCell], agent: &str, criterion: &str) -> (r: Option<
    &'a AgentCriterionCell,
>)
    ensures
        last_cell(seqs::views(cells@), agent@, criterion@) == (match r {
            Some(c) => Some(c@),
            None => None,
        }),
{
    let mut i: usize = cells.len();
    assert(seqs::views(cells@).take(i as int) =~= seqs::views(cells@));
    while i > 0
        invariant
            i <= cells@.len(),
            last_cell(seqs::views(cells@), agent@, criterion@) == last_cell(
                seqs::views(cells@).take(i as int),
                agent@,
                criterion@,
            ),
        decreases i,
    {
        let ghost front = seqs::views(cells@).take(i as int);
        i = i - 1;
        assert(front.drop_last() =~= seqs::views(cells@).take(i as int));
        assert(front.last() == cells@[i as int]@);
        if text::str_eq(cells[i].agent_name.as_str(), agent) && text::str_eq(
            cells[i].criterion.as_str(),
            criterion,
        ) {
            return Some(&cells[i]);
        }
    }
    None
}

fn shade(cell: Option<&AgentCriterionCell>) -> (r: MatrixCell)
    ensures
        r@ == shaded(
            match cell {
                Some(c) => Some(c@),
                None => None,
            },
        ),
{
    match cell {
        Some(c) => {
            let color_class = if Single::from_bits(floats::SEVEN).at_most(c.mean) {
                "text-emerald-300"
            } else if Single::from_bits(floats::FOUR).at_most(c.mean) {
                "text-amber-300"
            } else {
                "text-rose-300"
            };
            MatrixCell { color_class, mean: Some(c.mean), samples: c.samples }
        },
        None => MatrixCell { color_class: "text-slate-500", mean: None, samples: 0 },
    }
}

fn build_row(cells: &[AgentCriterionCell], criteria: &Vec<String>, agent: &String) -> (r: MatrixRow)
    ensures
        r@ == matrix_row(seqs::views(cells@), text::texts(criteria@), agent@),
{
    let mut row: Vec<MatrixCell> = Vec::new();
    let mut i: usize = 0;
    while i < criteria.len()
        invariant
            i <= criteria@.len(),
            row@.len() == i,
            forall|j: int|
                0 <= j < i ==> (#[trigger] row@[j])@ == shaded(
                    last_cell(seqs::views(cells@), agent@, criteria@[j]@),
                ),
        decreases criteria@.len() - i,
    {
        row.push(shade(find_cell(cells, agent.as_str(), criteria[i].as_str())));
        i = i + 1;
    }
    let r = MatrixRow { agent_name: agent.clone(), cells: row };
    assert(r@.cells =~= matrix_row(seqs::views(cells@), text::texts(criteria@), agent@).cells);
    r
}

/// The table of agents and criteria: each criterion is a column and each agent a row,
/// sorted by name, and a cell shows the last mean given for it.
pub fn build_matrix(cells: &[AgentCriterionCell]) -> (r: AgentCriterionMatrix)
    ensures
        is_matrix(r, seqs::views(cells@)),
{
    let ghost all = seqs::views(cells@);
    let mut criterion_names: Vec<String> = Vec::new();
    let mut agent_names: Vec<String> = Vec::new();
    let mut i: usize = 0;
    while i < cells.len()
        invariant
            i <= cells@.len(),
            criterion_names@.len() == i,
            agent_names@.len() == i,
            forall|j: int|
                0 <= j < i ==> (#[trigger] criterion_names@[j])@ == cells@[j].criterion@,
            forall|j: int| 0 <= j < i ==> (#[trigger] agent_names@[j])@ == cells@[j].agent_name@,
        decreases cells@.len() - i,
    {
        criterion_names.push(cells[i].criterion.clone());
        agent_names.push(cells[i].agent_name.clone());
        i = i + 1;
    }
    assert(text::texts(criterion_names@) =~= all.map_values(
        |c: AgentCriterionCellView| c.criterion,
    ));
    assert(text::texts(agent_names@) =~= all.map_values(
        |c: AgentCriterionCellView| c.agent_name,
    ));
    let criteria = names::sorted_set(&criterion_names);
    let agents = names::sorted_set(&agent_names);
    let mut rows: Vec<MatrixRow> = Vec::new();
    let mut k: usize = 0;
    while k < agents.len()
        invariant
            k <= agents@.len(),
            all == seqs::views(cells@),
            rows@.len() == k,
            forall|j: int|
                0 <= j < k ==> (#[trigger] rows@[j])@ == matrix_row(
                    all,
                    text::texts(criteria@),
                    agents@[j]@,
                ),
        decreases agents@.len() - k,
    {
        rows.push(build_row(cells, &criteria, &agents[k]));
        k = k + 1;
    }
    let r = AgentCriterionMatrix { criteria, rows };
    proof {
        let shown = r.rows@.map_values(|r: MatrixRow| r.agent_name@);
        assert forall|j: int| 0 <= j < shown.len() implies shown[j] == text::texts(
            agents@,
        )[j] by {
            assert(r.rows@[j]@.agent_name == agents@[j]@);
        }
        assert(shown =~= text::texts(agents@));
        assert(seqs::views(r.rows@) =~= shown.map_values(
            |a: Seq<char>| matrix_row(all, text::texts(r.criteria@), a),
        ));
    }
    r
}

/// How a judge is taken away.
#[derive(Clone, Copy, Debug, PartialEq, Eq, Structural)]
pub enum Removal {
    /// Its row is deleted.
    Delete,
    /// Its row is written as disabled, for its declaration would come back otherwise.
    Tombstone,
}

/// How the judge of a name is taken away: a declared one by a disabled row, another by
/// deleting its row.
pub fn remove_judge(yaml: &[JudgeConfig], db: &[DynamicJudgeRow], name: &str) -> (r: Result<
    Removal,
    AdminError,
>)
    ensures
        match r {
            Ok(Removal::Tombstone) => merge::declared(seqs::views(yaml@), name@),
            Ok(Removal::Delete) => !merge::declared(seqs::views(yaml@), name@) && merge::last_row(
                seqs::views(db@),
                name@,
            ) is Some,
            Err(e) => e is NotFound && !merge::declared(seqs::views(yaml@), name@)
                && merge::last_row(seqs::views(db@), name@) is None,
        },
{
    if merge::is_declared(yaml, name) {
        return Ok(Removal::Tombstone);
    }
    match merge::find_row(db, name) {
        Some(_) => Ok(Removal::Delete),
        None => Err(AdminError::NotFound),
    }
}

/// What is said when a judge is written under another's name.
pub open spec fn name_mismatch(url: Seq<char>, body: Seq<char>) -> Seq<char> {
    "URL judge name '"@ + url + "' does not match body name '"@ + body + "'"@
}

/// Whether a configuration may be written under a name.
pub fn update_judge(name: &str, config: &JudgeConfig) -> (r: Result<(), AdminError>)
    ensures
        match r {
            Ok(()) => config.name@ == name@,
            Err(AdminError::BadRequest(m)) => config.name@ != name@ && m@ == name_mismatch(
                name@,
                config.name@,
            ),
            Err(_) => false,
        },
{
    if text::str_eq(config.name.as_str(), name) {
        return Ok(());
    }
    let mut out = String::from_str("URL judge name '");
    out.append(name);
    out.append("' does not match body name '");
    out.append(config.name.as_str());
    out.append("'");
    Err(AdminError::BadRequest(out))
}

/// What comes of a reset, which deletes a judge's row.
pub fn reset_judge(removed: bool) -> (r: Result<(), AdminError>)
    ensures
        removed ==> r is Ok,
        !removed ==> r is Err && r->Err_0 is NotFound,
{
    if removed {
        Ok(())
    } else {
        Err(AdminError::NotFound)
    }
}

/// The first judge of a name on the administrator's list.
pub open spec fn first_named(rows: Seq<AdminJudgeView>, name: Seq<char>) -> Option<AdminJudgeView>
    decreases rows.len(),
{
    if rows.len() == 0 {
        None
    } else if rows[0].name == name {
        Some(rows[0])
    } else {
        first_named(rows.drop_first(), name)
    }
}

/// The judge of a name on the administrator's list.
pub fn judge_row<'a>(rows: &'a [AdminJudge], name: &str) -> (r: Result<&'a AdminJudge, AdminError>)
    ensures
        match r {
            Ok(row) => first_named(seqs::views(rows@), name@) == Some(row@),
            Err(e) => e is NotFound && first_named(seqs::views(rows@), name@) is None,
        },
{
    let ghost all = seqs::views(rows@);
    let mut i: usize = 0;
    assert(all.skip(0) =~= all);
    while i < rows.len()
        invariant
            i <= rows@.len(),
            all == seqs::views(rows@),
            first_named(all, name@) == first_named(all.skip(i as int), name@),
        decreases rows@.len() - i,
    {
        assert(all.skip(i as int).drop_first() =~= all.skip(i + 1));
        assert(all.skip(i as int)[0] == rows@[i as int]@);
        if text::str_eq(rows[i].name.as_str(), name) {
            return Ok(&rows[i]);
        }
        i = i + 1;
    }
    Err(AdminError::NotFound)
}

/// The configuration that is given to a program that asks for a judge.
pub fn judge_json<'a>(rows: &'a [AdminJudge], name: &str) -> (r: Result<
    &'a JudgeConfig,
    AdminError,
>)
    ensures
        match (r, first_named(seqs::views(rows@), name@)) {
            (Ok(config), Some(row)) => row.config == Some(config@),
            (Ok(_), None) => false,
            (Err(e), Some(row)) => e is NotFound && row.config is None,
            (Err(e), None) => e is NotFound,
        },
{
    match judge_row(rows, name) {
        Ok(row) => match &row.config {
            Some(config) => Ok(config),
            None => Err(AdminError::NotFound),
        },
        Err(e) => Err(e),
    }
}

/// The configuration that is offered for editing.
pub fn edit_form<'a>(rows: &'a [AdminJudge], name: &str) -> (r: Result<&'a JudgeConfig, AdminError>)
    ensures
        match (r, first_named(seqs::views(rows@), name@)) {
            (Ok(config), Some(row)) => row.config == Some(config@),
            (Ok(_), None) => false,
            (Err(AdminError::BadRequest(m)), Some(row)) => row.config is None && m@
                == "cannot edit a tombstoned judge — re-enable it first"@,
            (Err(AdminError::NotFound), None) => true,
            (Err(_), _) => false,
        },
{
    match judge_row(rows, name) {
        Ok(row) => match &row.config {
            Some(config) => Ok(config),
            None => Err(
                AdminError::BadRequest(
                    String::from_str("cannot edit a tombstoned judge — re-enable it first"),
                ),
            ),
        },
        Err(e) => Err(e),
    }
}

/// The configurations that are given to a program that asks for all judges.
pub fn listed_configs(rows: &[AdminJudge]) -> (r: Vec<JudgeConfig>)
    ensures
        seqs::views(r@) == merge::configs_of(seqs::views(rows@)),
{
    let ghost all = seqs::views(rows@);
    let ghost config_of = |a: AdminJudgeView| a.config;
    let mut out: Vec<JudgeConfig> = Vec::new();
    let mut i: usize = 0;
    assert(seqs::views(out@) =~= seqs::somes(all.take(0).map_values(config_of)));
    while i < rows.len()
        invariant
            i <= rows@.len(),
            all == seqs::views(rows@),
            config_of == (|a: AdminJudgeView| a.config),
            seqs::views(out@) == seqs::somes(all.take(i as int).map_values(config_of)),
        decreases rows@.len() - i,
    {
        let ghost before = seqs::views(out@);
        proof {
            assert(all[i as int] == rows@[i as int]@);
            seqs::lemma_somes_step(all, config_of, i as int);
        }
        if let Some(config) = &rows[i].config {
            let copy = config.clone();
            out.push(copy);
            assert(seqs::views(out@) =~= before.push(copy@));
        }
        i = i + 1;
    }
    assert(all.take(i as int) =~= all);
    out
}

/// The page of a judge.
pub fn judge_path(name: &str) -> (r: String)
    ensures
        r@ == "/admin/judges/"@ + name@,
{
    let mut out = String::from_str("/admin/judges/");
    out.append(name);
    out
}

/// The moment seven days earlier.
pub fn week_before(now: u64) -> (r: u64)
    ensures
        r == display::since(now, 604_800),
{
    if now > 604_800 {
        now - 604_800
    } else {
        0
    }
}

/// What an empty form holds.
pub fn new_form() -> (r: &'static str)
    ensures
        r@ == "name: \nprovider: openai\nmodel: \nsampling_rate: 1.0\nrubrics: {}\n"@,
{
    "name: \nprovider: openai\nmodel: \nsampling_rate: 1.0\nrubrics: {}\n"
}

/// The user that a path names.
pub fn parse_user_id(raw: &str) -> (r: Result<UserId, AdminError>)
    ensures
        match r {
            Ok(id) => ids::uuid_of(raw@) == Some(id.0),
            Err(e) => e is InvalidUserId && ids::uuid_of(raw@) is None,
        },
{
    match UserId::parse(raw) {
        Some(id) => Ok(id),
        None => Err(AdminError::InvalidUserId),
    }
}

/// A score is listed as it was given, with how long ago that was.
pub proof fn law_listed_score_is_as_given(s: ScoreView, now: u64)
    ensures
        score_row(s, now).criterion == s.criterion,
        score_row(s, now).judge_name == s.judge_name,
        score_row(s, now).reasoning == s.reasoning,
        score_row(s, now).score == s.score,
        score_row(s, now).created_at == display::ago(s.created_at, now),
{
}

/// One more score is one more value in its own group, and in no other.
pub proof fn law_score_joins_its_group(
    scores: Seq<ScoreView>,
    s: ScoreView,
    judge: Seq<char>,
    criterion: Seq<char>,
)
    ensures
        scores_on(scores.push(s), judge, criterion) == if s.judge_name == judge && s.criterion
            == criterion {
            scores_on(scores, judge, criterion).push(s.score)
        } else {
            scores_on(scores, judge, criterion)
        },
        scores_on(Seq::empty(), judge, criterion) == Seq::<Single>::empty(),
{
    let n = scores.len() as int;
    let all = scores.push(s);
    assert(all.take(n) =~= scores);
    assert(all.take(n + 1) =~= all);
    seqs::lemma_somes_step(all, |x: ScoreView| score_on(x, judge, criterion), n);
}

/// Every score is in the one group of its judge and criterion, and the groups stand in the
/// order of the judges and then of the criteria.
pub proof fn law_every_score_is_grouped(
    groups: Seq<CriterionScoresView>,
    scores: Seq<ScoreView>,
    k: int,
)
    requires
        is_grouping(groups, scores),
        0 <= k < scores.len(),
    ensures
        exists|i: int|
            0 <= i < groups.len() && (#[trigger] groups[i]).judge_name == scores[k].judge_name
                && groups[i].criterion == scores[k].criterion && groups[i].scores.contains(
                scores[k].score,
            ),
        forall|i: int, j: int|
            0 <= i < j < groups.len() ==> {
                let a = #[trigger] groups[i];
                let b = #[trigger] groups[j];
                text::text_lt(a.judge_name, b.judge_name) || (a.judge_name == b.judge_name
                    && text::text_lt(a.criterion, b.criterion))
            },
{
    let s = scores[k];
    assert(has_group(groups, s.judge_name, s.criterion));
    let i = choose|i: int|
        0 <= i < groups.len() && (#[trigger] groups[i]).judge_name == s.judge_name
            && groups[i].criterion == s.criterion;
    let found = scores.map_values(|x: ScoreView| score_on(x, s.judge_name, s.criterion));
    assert(found[k] == Some(s.score));
    seqs::lemma_somes_contains(found, s.score);
    assert(groups[i].scores == scores_on(scores, s.judge_name, s.criterion));
}

/// The newest comes first, and the others follow as they would without it.
pub proof fn law_latest_starts_with_the_newest<T>(s: Seq<T>, newest: T, n: nat)
    ensures
        latest(s, 0) == Seq::<T>::empty(),
        latest(Seq::<T>::empty(), n) == Seq::<T>::empty(),
        latest(s.push(newest), n + 1) == seq![newest] + latest(s, n),
{
    assert(latest(s.push(newest), n + 1) =~= seq![newest] + latest(s, n));
}

/// The page of a judge shows its configuration, criterion by criterion.
pub proof fn law_page_shows_the_judge(page: JudgeDetailRow, row: AdminJudgeView)
    requires
        page.shows(row),
    ensures
        page.source.source == row.source,
        page.yaml_backed == row.yaml_backed,
        row.config matches Some(c) ==> {
            &&& page.name@ == c.name
            &&& page.model@ == c.model
            &&& page.provider@ == c.provider
            &&& page.sampling_rate == Some(c.sampling_rate)
            &&& page.rubrics@.len() == c.rubrics.len()
            &&& forall|i: int|
                0 <= i < c.rubrics.len() ==> (#[trigger] page.rubrics@[i]).name@ == c.rubrics[i].0
                    && page.rubrics@[i].description@ == c.rubrics[i].1
        },
        row.config is None ==> page.name@ == row.name && page.sampling_rate is None
            && page.rubrics@.len() == 0 && page.model@.len() == 0 && page.provider@.len() == 0,
{
    if row.config is Some {
        let c = row.config->0;
        let shown = page.rubrics@.map_values(|r: RubricRow| (r.name@, r.description@));
        assert forall|i: int| 0 <= i < c.rubrics.len() implies (
        #[trigger] page.rubrics@[i]).name@ == c.rubrics[i].0 && page.rubrics@[i].description@
            == c.rubrics[i].1 by {
            assert(shown[i] == c.rubrics[i]);
        }
    }
}

/// A judge in the list stands with its own name, model, provider, rate, number of criteria
/// and source, and with the scores counted under its name; it is struck out exactly where
/// it has no configuration.
pub proof fn law_list_shows_the_judge(
    shown: JudgeListRow,
    row: AdminJudgeView,
    volumes: Seq<JudgeVolume>,
    i: int,
)
    requires
        shown.shows(row, volumes),
    ensures
        shown.source.source == row.source,
        shown.tombstoned <==> row.config is None,
        row.config matches Some(c) ==> shown.name@ == c.name && shown.model@ == c.model
            && shown.provider@ == c.provider && shown.sampling_rate == Some(c.sampling_rate)
            && shown.criteria_count == c.rubrics.len(),
        row.config is None ==> shown.name@ == row.name && shown.sampling_rate is None
            && shown.criteria_count == 0 && shown.model@.len() == 0 && shown.provider@.len() == 0,
        0 <= i < volumes.len() && volumes[i].judge_name@ == row.name && (forall|j: int|
            0 <= j < i ==> (#[trigger] volumes[j]).judge_name@ != row.name)
            ==> shown.score_count_7d == volumes[i].count,
        (forall|j: int| 0 <= j < volumes.len() ==> (#[trigger] volumes[j]).judge_name@ != row.name)
            ==> shown.score_count_7d == 0,
{
    lemma_volume_of(volumes, row.name, i);
}

proof fn lemma_volume_of(volumes: Seq<JudgeVolume>, name: Seq<char>, i: int)
    ensures
        0 <= i < volumes.len() && volumes[i].judge_name@ == name && (forall|j: int|
            0 <= j < i ==> (#[trigger] volumes[j]).judge_name@ != name) ==> volume_of(volumes, name)
            == volumes[i].count,
        (forall|j: int| 0 <= j < volumes.len() ==> (#[trigger] volumes[j]).judge_name@ != name)
            ==> volume_of(volumes, name) == 0,
    decreases volumes.len(),
{
    if volumes.len() > 0 {
        let rest = volumes.drop_first();
        lemma_volume_of(rest, name, i - 1);
        assert forall|j: int| 0 <= j < rest.len() implies #[trigger] rest[j] == volumes[j + 1] by {}
        if 0 <= i < volumes.len() && volumes[i].judge_name@ == name && (forall|j: int|
            0 <= j < i ==> (#[trigger] volumes[j]).judge_name@ != name) {
            if i > 0 {
                assert(volumes[0].judge_name@ != name);
            }
        }
        if forall|j: int| 0 <= j < volumes.len() ==> (#[trigger] volumes[j]).judge_name@ != name {
            assert(volumes[0].judge_name@ != name);
        }
    }
}

/// The last mean that was given for an agent and a criterion stands where the agent's row
/// and the criterion's column meet, with its samples, green from seven, amber from four
/// and red below.
pub proof fn law_matrix_shows_the_last_mean(
    m: AgentCriterionMatrix,
    cells: Seq<AgentCriterionCellView>,
    k: int,
)
    requires
        is_matrix(m, cells),
        0 <= k < cells.len(),
        forall|l: int|
            k < l < cells.len() ==> !((#[trigger] cells[l]).agent_name == cells[k].agent_name
                && cells[l].criterion == cells[k].criterion),
    ensures
        exists|i: int, j: int|
            #![trigger m.rows@[i], m.criteria@[j]]
            0 <= i < m.rows@.len() && 0 <= j < m.criteria@.len() && m.rows@[i].agent_name@
                == cells[k].agent_name && m.criteria@[j]@ == cells[k].criterion
                && m.rows@[i].cells@.len() == m.criteria@.len() && {
                let shown = m.rows@[i].cells@[j];
                &&& shown.mean == Some(cells[k].mean)
                &&& shown.samples == cells[k].samples
                &&& single(floats::SEVEN).le(cells[k].mean) ==> shown.color_class@
                    == "text-emerald-300"@
                &&& single(floats::FOUR).le(cells[k].mean) && cells[k].mean.lt(
                    single(floats::SEVEN),
                ) ==> shown.color_class@ == "text-amber-300"@
                &&& cells[k].mean.lt(single(floats::FOUR)) ==> shown.color_class@
                    == "text-rose-300"@
            },
{
    let agent = cells[k].agent_name;
    let criterion = cells[k].criterion;
    let agents = m.rows@.map_values(|r: MatrixRow| r.agent_name@);
    let criteria = text::texts(m.criteria@);
    let all_agents = cells.map_values(|c: AgentCriterionCellView| c.agent_name);
    let all_criteria = cells.map_values(|c: AgentCriterionCellView| c.criterion);
    assert(all_agents[k] == agent);
    assert(all_agents.contains(agent));
    assert(all_criteria[k] == criterion);
    assert(all_criteria.contains(criterion));
    assert(agents.contains(agent));
    assert(criteria.contains(criterion));
    let i = choose|i: int| 0 <= i < agents.len() && agents[i] == agent;
    let j = choose|j: int| 0 <= j < criteria.len() && criteria[j] == criterion;
    lemma_last_cell(cells, k);
    let views = seqs::views(m.rows@);
    assert(views[i] == m.rows@[i]@);
    assert(views[i] == matrix_row(cells, criteria, agent));
    assert(seqs::views(m.rows@[i].cells@) == matrix_row(cells, criteria, agent).cells);
    assert(seqs::views(m.rows@[i].cells@)[j] == m.rows@[i].cells@[j]@);
    assert(m.rows@[i].cells@[j]@ == shaded(Some(cells[k])));
    assert(m.rows@[i].agent_name@ == agent && m.criteria@[j]@ == criterion);
    assert(seqs::views(m.rows@[i].cells@).len() == m.rows@[i].cells@.len());
}

proof fn lemma_last_cell(cells: Seq<AgentCriterionCellView>, k: int)
    requires
        0 <= k < cells.len(),
        forall|l: int|
            k < l < cells.len() ==> !((#[trigger] cells[l]).agent_name == cells[k].agent_name
                && cells[l].criterion == cells[k].criterion),
    ensures
        last_cell(cells, cells[k].agent_name, cells[k].criterion) == Some(cells[k]),
    decreases cells.len(),
{
    if k < cells.len() - 1 {
        let rest = cells.drop_last();
        assert(!(cells[cells.len() - 1].agent_name == cells[k].agent_name && cells[cells.len()
            - 1].criterion == cells[k].criterion));
        assert forall|l: int| k < l < rest.len() implies !((#[trigger] rest[l]).agent_name
            == rest[k].agent_name && rest[l].criterion == rest[k].criterion) by {
            assert(cells[l] == rest[l]);
        }
        lemma_last_cell(rest, k);
    }
}

/// A pair of which no mean was given is shown empty.
pub proof fn law_unknown_cell_is_empty(
    cells: Seq<AgentCriterionCellView>,
    agent: Seq<char>,
    criterion: Seq<char>,
)
    requires
        forall|l: int|
            0 <= l < cells.len() ==> !((#[trigger] cells[l]).agent_name == agent
                && cells[l].criterion == criterion),
    ensures
        shaded(last_cell(cells, agent, criterion)).mean is None,
        shaded(last_cell(cells, agent, criterion)).samples == 0,
    decreases cells.len(),
{
    if cells.len() > 0 {
        let rest = cells.drop_last();
        assert(!(cells[cells.len() - 1].agent_name == agent && cells[cells.len() - 1].criterion
            == criterion));
        assert forall|l: int| 0 <= l < rest.len() implies !((#[trigger] rest[l]).agent_name
            == agent && rest[l].criterion == criterion) by {
            assert(cells[l] == rest[l]);
        }
        law_unknown_cell_is_empty(rest, agent, criterion);
    }
}

/// The judge of a name is the first on the list that has it, and is found wherever there is
/// one.
pub proof fn law_first_judge_of_a_name_is_found(rows: Seq<AdminJudgeView>, name: Seq<char>)
    ensures
        match first_named(rows, name) {
            Some(row) => exists|i: int|
                0 <= i < rows.len() && #[trigger] rows[i] == row && row.name == name && forall|
                    j: int,
                |
                    0 <= j < i ==> (#[trigger] rows[j]).name != name,
            None => forall|j: int| 0 <= j < rows.len() ==> (#[trigger] rows[j]).name != name,
        },
    decreases rows.len(),
{
    if rows.len() > 0 && rows[0].name != name {
        let rest = rows.drop_first();
        law_first_judge_of_a_name_is_found(rest, name);
        assert forall|j: int| 0 < j < rows.len() implies #[trigger] rows[j] == rest[j - 1] by {}
        if first_named(rows, name) is Some {
            let row = first_named(rows, name)->0;
            let i = choose|i: int|
                0 <= i < rest.len() && #[trigger] rest[i] == row && row.name == name && forall|
                    j: int,
                |
                    0 <= j < i ==> (#[trigger] rest[j]).name != name;
            assert(rows[i + 1] == row);
        }
    } else if rows.len() > 0 {
        assert(rows[0] == rows[0]);
    }
}

/// Each source has a word of its own.
pub proof fn law_sources_are_told_apart(a: SourceLabel, b: SourceLabel)
    ensures
        a.word() == b.word() <==> a.source == b.source,
{
    reveal_strlit("dynamic");
    reveal_strlit("override");
    reveal_strlit("tombstoned");
    reveal_strlit("yaml");
    assert("dynamic"@.len() == 7 && "override"@.len() == 8 && "tombstoned"@.len() == 10
        && "yaml"@.len() == 4);
}

/// A fault of the request is told as one, a missing judge as missing, and any other failure
/// as this program's own.
pub proof fn law_status_tells_whose_fault(e: AdminError)
    ensures
        e is BadRequest || e is InvalidUserId <==> e.status_code() == 400,
        e is NotFound <==> e.status_code() == 404,
        e is Judge || e is Render || e is Yaml <==> e.status_code() == 500,
{
}

/// A judge written under another's name is refused with both names.
pub proof fn law_mismatch_tells_both_names(url: Seq<char>, body: Seq<char>)
    ensures
        text::contains_text(name_mismatch(url, body), url),
        text::contains_text(name_mismatch(url, body), body),
{
    text::lemma_says_two(
        "URL judge name '"@,
        url,
        "' does not match body name '"@,
        body,
        "'"@,
    );
}

/// Mean scores come by agent.
pub proof fn law_means_come_by_agent(rows: Seq<ScoreRowMean>, sorted: Seq<ScoreRowMean>, i: int, j: int)
    requires
        order::is_stable_sort(rows, sorted, order::name_key::<ScoreRowMean>()),
        0 <= i < j < sorted.len(),
    ensures
        !text::text_lt(sorted[j].agent@, sorted[i].agent@),
{
    let key = order::name_key::<ScoreRowMean>();
    assert(!text::text_lt(key(sorted[j]), key(sorted[i])));
}

} // verus!
