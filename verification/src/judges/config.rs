//! What is configured of a judge, and what the database keeps of it.
use vstd::prelude::*;

use crate::floats::Single;
use crate::names::{self, OrderedMap};
use crate::seqs;

verus! {

/// A judge as configured.
#[derive(Debug)]
pub struct JudgeConfig {
    pub model: String,
    pub name: String,
    pub provider: String,
    /// What each criterion means, by the criterion's name.
    pub rubrics: OrderedMap<String>,
    /// The fraction of turns that the judge scores.
    pub sampling_rate: Single,
}

/// `JudgeConfig`, with texts as sequences of characters.
pub struct JudgeConfigView {
    pub model: Seq<char>,
    pub name: Seq<char>,
    pub provider: Seq<char>,
    pub rubrics: Seq<(Seq<char>, Seq<char>)>,
    pub sampling_rate: Single,
}

/// The criteria with what they mean, in the order of their names.
pub open spec fn rubric_views(rubrics: Seq<(Seq<char>, String)>) -> Seq<(Seq<char>, Seq<char>)> {
    rubrics.map_values(|r: (Seq<char>, String)| (r.0, r.1@))
}

impl View for JudgeConfig {
    type V = JudgeConfigView;

    open spec fn view(&self) -> JudgeConfigView {
        JudgeConfigView {
            model: self.model@,
            name: self.name@,
            provider: self.provider@,
            rubrics: rubric_views(self.rubrics@),
            sampling_rate: self.sampling_rate,
        }
    }
}

impl Clone for JudgeConfig {
    fn clone(&self) -> (r: Self)
        ensures
            r@ == self@,
    {
        JudgeConfig {
            model: self.model.clone(),
            name: self.name.clone(),
            provider: self.provider.clone(),
            rubrics: names::clone_texts(&self.rubrics),
            sampling_rate: self.sampling_rate,
        }
    }
}

/// One row of the table of judges that were changed at run time. Active rows hold a
/// configuration; a row that is disabled holds none and hides the judge of its name.
#[derive(Debug)]
pub struct DynamicJudgeRow {
    pub config: Option<JudgeConfig>,
    pub created_at: i64,
    pub disabled: bool,
    pub name: String,
    pub updated_at: i64,
}

/// `DynamicJudgeRow`, with texts as sequences of characters.
pub struct DynamicJudgeRowView {
    pub config: Option<JudgeConfigView>,
    pub created_at: i64,
    pub disabled: bool,
    pub name: Seq<char>,
    pub updated_at: i64,
}

impl View for DynamicJudgeRow {
    type V = DynamicJudgeRowView;

    open spec fn view(&self) -> DynamicJudgeRowView {
        DynamicJudgeRowView {
            config: seqs::opt_view(self.config),
            created_at: self.created_at,
            disabled: self.disabled,
            name: self.name@,
            updated_at: self.updated_at,
        }
    }
}

impl Clone for DynamicJudgeRow {
    fn clone(&self) -> (r: Self)
        ensures
            r@ == self@,
    {
        DynamicJudgeRow {
            config: match &self.config {
                Some(c) => Some(c.clone()),
                None => None,
            },
            created_at: self.created_at,
            disabled: self.disabled,
            name: self.name.clone(),
            updated_at: self.updated_at,
        }
    }
}

} // verus!
