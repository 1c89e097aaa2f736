//! What the judges' tables hold, read and brought up to date.
use vstd::prelude::*;

use crate::floats::Single;
use crate::ids::{self, MessageId, UserId};
use crate::judges::config::{DynamicJudgeRow, DynamicJudgeRowView, JudgeConfig};
use crate::judges::judge::{Score, ScoreId};
use crate::judges::merge::{self, MergeReport, MergedJudgeView};
use crate::names::{self, OrderedMap};
use crate::numbers;
use crate::order;
use crate::seqs;
use crate::text;

verus! {

/// Why the store failed.
#[derive(Debug)]
pub enum JudgeStoreError {
    Database(String),
    Migrate(String),
    RowDecode(String),
}

impl JudgeStoreError {
    /// What the error says.
    pub open spec fn message(&self) -> Seq<char> {
        match self {
            JudgeStoreError::Database(e) => "database error: "@ + e@,
            JudgeStoreError::Migrate(e) => "schema migration failed: "@ + e@,
            JudgeStoreError::RowDecode(e) => "failed to decode row: "@ + e@,
        }
    }

    /// What the error says.
    pub fn to_text(&self) -> (r: String)
        ensures
            r@ == self.message(),
    {
        let (head, tail): (&str, &String) = match self {
            JudgeStoreError::Database(e) => ("database error: ", e),
            JudgeStoreError::Migrate(e) => ("schema migration failed: ", e),
            JudgeStoreError::RowDecode(e) => ("failed to decode row: ", e),
        };
        let mut out = String::from_str(head);
        out.append(tail.as_str());
        out
    }
}

/// Statement that brings the tables from version 0.1.0 to 0.2.0.
pub open spec fn upgrade_0_1_0() -> Seq<char> {
    "CREATE TABLE IF NOT EXISTS dynamic_judges (config_json TEXT,created_at  INTEGER NOT NULL,disabled    INTEGER NOT NULL DEFAULT 0,name        TEXT    NOT NULL PRIMARY KEY,updated_at  INTEGER NOT NULL)"@
}

/// The statement that upgrades the tables from a version.
pub fn upgrade_from(from_version: &str) -> (r: &'static str)
    requires
        from_version@ == "0.1.0"@,
    ensures
        r@ == upgrade_0_1_0(),
{
    "CREATE TABLE IF NOT EXISTS dynamic_judges (config_json TEXT,created_at  INTEGER NOT NULL,disabled    INTEGER NOT NULL DEFAULT 0,name        TEXT    NOT NULL PRIMARY KEY,updated_at  INTEGER NOT NULL)"
}

/// How an agent did on a criterion, on average.
#[derive(Debug)]
pub struct AgentCriterionCell {
    pub agent_name: String,
    pub criterion: String,
    pub mean: Single,
    pub samples: u32,
}

/// `AgentCriterionCell`, with texts as sequences of characters.
pub struct AgentCriterionCellView {
    pub agent_name: Seq<char>,
    pub criterion: Seq<char>,
    pub mean: Single,
    pub samples: u32,
}

impl View for AgentCriterionCell {
    type V = AgentCriterionCellView;

    open spec fn view(&self) -> AgentCriterionCellView {
        AgentCriterionCellView {
            agent_name: self.agent_name@,
            criterion: self.criterion@,
            mean: self.mean,
            samples: self.samples,
        }
    }
}

impl AgentCriterionCell {
    /// A cell with the count as the database gives it.
    pub fn from_row(agent_name: String, criterion: String, mean: Single, samples: i64) -> (r: Self)
        ensures
            r@ == (AgentCriterionCellView {
                agent_name: agent_name@,
                criterion: criterion@,
                mean,
                samples: numbers::within(samples as int, 0, u32::MAX as int) as u32,
            }),
    {
        AgentCriterionCell { agent_name, criterion, mean, samples: numbers::i64_to_u32(samples) }
    }
}

/// How many scores a judge gave.
#[derive(Debug)]
pub struct JudgeVolume {
    pub count: u32,
    pub judge_name: String,
}

impl JudgeVolume {
    /// A volume with the count as the database gives it.
    pub fn from_row(judge_name: String, count: i64) -> (r: Self)
        ensures
            r.judge_name == judge_name,
            r.count == numbers::within(count as int, 0, u32::MAX as int),
    {
        JudgeVolume { count: numbers::i64_to_u32(count), judge_name }
    }
}

/// A score as the database holds it: identifiers are texts, and times may be negative.
#[derive(Debug)]
pub struct ScoreColumns {
    pub agent_name: String,
    pub created_at: i64,
    pub criterion: String,
    pub id: String,
    pub judge_model: String,
    pub judge_name: String,
    pub message_id: String,
    pub reasoning: String,
    pub score: Single,
    pub user_id: String,
}

/// The score that the columns hold.
pub open spec fn is_score_of(score: Score, row: ScoreColumns) -> bool {
    &&& score.agent_name@ == row.agent_name@
    &&& score.created_at == numbers::within(row.created_at as int, 0, u64::MAX as int)
    &&& score.criterion@ == row.criterion@
    &&& ids::uuid_of(row.id@) == Some(score.id.0)
    &&& score.judge_model@ == row.judge_model@
    &&& score.judge_name@ == row.judge_name@
    &&& ids::uuid_of(row.message_id@) == Some(score.message_id.0)
    &&& score.reasoning@ == row.reasoning@
    &&& score.score == row.score
    &&& ids::uuid_of(row.user_id@) == Some(score.user_id.0)
}

/// What is wrong with a column that holds no identifier.
pub open spec fn bad_uuid(label: Seq<char>, column: Seq<char>) -> Seq<char> {
    "invalid "@ + label + ": "@ + ids::uuid_parsed(column)->Err_0
}

/// What is wrong with the columns of a score: the first identifier that is none.
pub open spec fn score_fault(row: ScoreColumns) -> Option<Seq<char>> {
    if ids::uuid_of(row.id@) is None {
        Some(bad_uuid("score id"@, row.id@))
    } else if ids::uuid_of(row.message_id@) is None {
        Some(bad_uuid("message id"@, row.message_id@))
    } else if ids::uuid_of(row.user_id@) is None {
        Some(bad_uuid("user id"@, row.user_id@))
    } else {
        None
    }
}

/// The identifier in a column.
fn parse_uuid(s: &str, label: &str) -> (r: Result<u128, JudgeStoreError>)
    ensures
        match r {
            Ok(n) => ids::uuid_of(s@) == Some(n),
            Err(JudgeStoreError::RowDecode(e)) => ids::uuid_of(s@) is None && e@ == bad_uuid(
                label@,
                s@,
            ),
            Err(_) => false,
        },
{
    match ids::parse_uuid(s) {
        Ok(n) => Ok(n),
        Err(e) => {
            let mut out = String::from_str("invalid ");
            out.append(label);
            out.append(": ");
            out.append(e.as_str());
            Err(JudgeStoreError::RowDecode(out))
        },
    }
}

/// The score in a row.
pub fn row_to_score(row: ScoreColumns) -> (r: Result<Score, JudgeStoreError>)
    ensures
        match r {
            Ok(score) => score_fault(row) is None && is_score_of(score, row),
            Err(JudgeStoreError::RowDecode(e)) => score_fault(row) == Some(e@),
            Err(_) => false,
        },
{
    let id = match parse_uuid(row.id.as_str(), "score id") {
        Ok(n) => ScoreId(n),
        Err(e) => {
            return Err(e);
        },
    };
    let message_id = match parse_uuid(row.message_id.as_str(), "message id") {
        Ok(n) => MessageId(n),
        Err(e) => {
            return Err(e);
        },
    };
    let user_id = match parse_uuid(row.user_id.as_str(), "user id") {
        Ok(n) => UserId(n),
        Err(e) => {
            return Err(e);
        },
    };
    Ok(
        Score {
            agent_name: row.agent_name,
            created_at: numbers::i64_to_u64(row.created_at),
            criterion: row.criterion,
            id,
            judge_model: row.judge_model,
            judge_name: row.judge_name,
            message_id,
            reasoning: row.reasoning,
            score: row.score,
            user_id,
        },
    )
}

/// The columns that a score is stored in.
pub fn score_to_row(score: &Score) -> (r: ScoreColumns)
    ensures
        r.agent_name@ == score.agent_name@,
        r.created_at == numbers::within(score.created_at as int, 0, i64::MAX as int),
        r.criterion@ == score.criterion@,
        r.id@ == ids::uuid_text(score.id.0),
        r.judge_model@ == score.judge_model@,
        r.judge_name@ == score.judge_name@,
        r.message_id@ == ids::uuid_text(score.message_id.0),
        r.reasoning@ == score.reasoning@,
        r.score == score.score,
        r.user_id@ == ids::uuid_text(score.user_id.0),
        score_fault(r) is None,
        score.created_at <= i64::MAX ==> is_score_of(*score, r),
{
    ScoreColumns {
        agent_name: score.agent_name.clone(),
        created_at: numbers::u64_to_i64(score.created_at),
        criterion: score.criterion.clone(),
        id: ids::format_uuid(score.id.0),
        judge_model: score.judge_model.clone(),
        judge_name: score.judge_name.clone(),
        message_id: ids::format_uuid(score.message_id.0),
        reasoning: score.reasoning.clone(),
        score: score.score,
        user_id: ids::format_uuid(score.user_id.0),
    }
}

/// A row of the table of judges, as the database holds it. `config` is what became of
/// reading its JSON column, if that is set.
#[derive(Debug)]
pub struct JudgeColumns {
    pub config: Option<Result<JudgeConfig, String>>,
    pub created_at: i64,
    pub disabled: i64,
    pub name: String,
    pub updated_at: i64,
}

/// The judge in a row.
pub fn row_to_dynamic_judge(row: JudgeColumns) -> (r: Result<DynamicJudgeRow, JudgeStoreError>)
    ensures
        match r {
            Ok(judge) => {
                &&& match row.config {
                    None => judge.config is None,
                    Some(Ok(config)) => judge.config == Some(config),
                    Some(Err(_)) => false,
                }
                &&& judge.created_at == row.created_at
                &&& judge.disabled == (row.disabled != 0)
                &&& judge.name == row.name
                &&& judge.updated_at == row.updated_at
            },
            Err(JudgeStoreError::RowDecode(e)) => row.config is Some && row.config->0 is Err && e@
                == "config_json: "@ + row.config->0->Err_0@,
            Err(_) => false,
        },
{
    let config = match row.config {
        None => None,
        Some(Ok(config)) => Some(config),
        Some(Err(e)) => {
            let mut out = String::from_str("config_json: ");
            out.append(e.as_str());
            return Err(JudgeStoreError::RowDecode(out));
        },
    };
    Ok(
        DynamicJudgeRow {
            config,
            created_at: row.created_at,
            disabled: row.disabled != 0,
            name: row.name,
            updated_at: row.updated_at,
        },
    )
}

/// The configurations in force, and how they came about.
pub fn rebuild_judges(yaml: &[JudgeConfig], db: &[DynamicJudgeRow]) -> (r: (
    Vec<JudgeConfig>,
    MergeReport,
))
    requires
        yaml@.len() + db@.len() <= usize::MAX,
    ensures
        order::is_stable_sort(
            merge::found(seqs::views(yaml@), seqs::views(db@)).map_values(
                |m: MergedJudgeView| m.config,
            ),
            seqs::views(r.0@),
            merge::config_name(),
        ),
        merge::is_report(
            r.1,
            merge::found(seqs::views(yaml@), seqs::views(db@)),
            merge::tombstones(seqs::views(yaml@), seqs::views(db@)),
        ),
{
    let (merged, report) = merge::merge(yaml, db);
    let ghost config_of = |m: MergedJudgeView| m.config;
    let mut configs: Vec<JudgeConfig> = Vec::new();
    let mut i: usize = 0;
    let ghost all = seqs::views(merged@).map_values(config_of);
    assert(seqs::views(configs@) =~= all.take(0));
    while i < merged.len()
        invariant
            i <= merged@.len(),
            config_of == (|m: MergedJudgeView| m.config),
            all == seqs::views(merged@).map_values(config_of),
            seqs::views(configs@) == all.take(i as int),
        decreases merged@.len() - i,
    {
        let ghost before = seqs::views(configs@);
        let config = merged[i].config.clone();
        configs.push(config);
        assert(seqs::views(configs@) =~= before.push(config@));
        assert(all.take(i + 1) =~= before.push(config@));
        i = i + 1;
    }
    assert(seqs::views(configs@) =~= all);
    proof {
        order::lemma_stable_sort_map(
            merge::found(seqs::views(yaml@), seqs::views(db@)),
            seqs::views(merged@),
            config_of,
            merge::merged_name(),
            merge::config_name(),
        );
    }
    (configs, report)
}

/// The table of judges that were changed at run time, one row for each name.
#[derive(Debug)]
pub struct Judges {
    rows: OrderedMap<DynamicJudgeRow>,
}

/// The rows in the order of their names.
pub open spec fn table_of(rows: Seq<(Seq<char>, DynamicJudgeRow)>) -> Seq<DynamicJudgeRowView> {
    rows.map_values(|r: (Seq<char>, DynamicJudgeRow)| r.1@)
}

/// Each row stands under its own name.
pub open spec fn well_named(rows: Seq<(Seq<char>, DynamicJudgeRow)>) -> bool {
    &&& names::names_ascend(rows)
    &&& forall|i: int| 0 <= i < rows.len() ==> (#[trigger] rows[i]).1.name@ == rows[i].0
}

/// The row keeps a configuration of its own name, if any.
pub open spec fn config_named(row: DynamicJudgeRowView) -> bool {
    row.config is Some ==> row.config->0.name == row.name
}

/// Rows that stand under their own names are told apart by them.
proof fn lemma_well_named(rows: Seq<(Seq<char>, DynamicJudgeRow)>)
    requires
        well_named(rows),
    ensures
        merge::rows_distinct(table_of(rows)),
{
    let table = table_of(rows);
    assert forall|i: int, j: int| 0 <= i < j < table.len() implies (#[trigger] table[i]).name != (
    #[trigger] table[j]).name by {
        assert(text::text_lt(rows[i].0, rows[j].0));
        text::lemma_text_lt_total(rows[i].0, rows[j].0);
        assert(table[i].name == rows[i].0 && table[j].name == rows[j].0);
    }
}

/// The row under a name, by its place.
proof fn lemma_row_at(rows: Seq<(Seq<char>, DynamicJudgeRow)>, name: Seq<char>)
    requires
        well_named(rows),
    ensures
        merge::last_row(table_of(rows), name) == if names::has_name(rows, name) {
            Some(rows[names::count_below(rows, name) as int].1@)
        } else {
            None
        },
{
    lemma_well_named(rows);
    let table = table_of(rows);
    merge::lemma_last_row(table, name);
    names::lemma_has_name(rows, name);
    if names::has_name(rows, name) {
        let at = names::count_below(rows, name) as int;
        assert(table[at].name == name);
    } else if merge::last_row(table, name) is Some {
        let row = merge::last_row(table, name)->0;
        let i = choose|i: int| 0 <= i < table.len() && table[i] == row;
        assert(rows[i].0 == name);
    }
}

/// A row that is written stands under its own name.
proof fn lemma_written_well_named(rows: Seq<(Seq<char>, DynamicJudgeRow)>, row: DynamicJudgeRow)
    requires
        well_named(rows),
    ensures
        well_named(names::with_entry(rows, row.name@, row)),
        config_named(row@) && merge::configs_named(table_of(rows)) ==> merge::configs_named(
            table_of(names::with_entry(rows, row.name@, row)),
        ),
{
    let name = row.name@;
    let after = names::with_entry(rows, name, row);
    let at = names::count_below(rows, name) as int;
    names::lemma_with_entry_ascends(rows, name, row);
    names::lemma_count_below_bound(rows, name);
    let table = table_of(rows);
    assert forall|i: int| 0 <= i < after.len() implies (#[trigger] after[i]).1.name@ == after[i].0
        && (config_named(row@) && merge::configs_named(table) ==> config_named(
        table_of(after)[i],
    )) by {
        assert(table_of(after)[i] == after[i].1@);
        if i == at {
            assert(after[i] == (name, row));
        } else {
            let j = if names::has_name(rows, name) || i < at {
                i
            } else {
                i - 1
            };
            assert(after[i] == rows[j]);
            assert(table[j] == rows[j].1@);
        }
    }
    if config_named(row@) && merge::configs_named(table) {
        assert forall|i: int| 0 <= i < table_of(after).len() && (#[trigger] table_of(
            after,
        )[i]).config is Some implies table_of(after)[i].config->0.name == table_of(
            after,
        )[i].name by {
            assert(after[i].1.name@ == after[i].0);
        }
    }
}

/// The row under a name is the one that stands there.
proof fn lemma_row_stands(rows: Seq<(Seq<char>, DynamicJudgeRow)>, i: int)
    requires
        well_named(rows),
        0 <= i < rows.len(),
    ensures
        merge::last_row(table_of(rows), rows[i].0) == Some(rows[i].1@),
{
    lemma_well_named(rows);
    let table = table_of(rows);
    merge::lemma_last_row(table, rows[i].0);
    assert(table[i].name == rows[i].0);
}

/// Where no row stands there is none.
proof fn lemma_no_row(rows: Seq<(Seq<char>, DynamicJudgeRow)>, n: Seq<char>)
    requires
        well_named(rows),
        forall|i: int| 0 <= i < rows.len() ==> (#[trigger] rows[i]).0 != n,
    ensures
        merge::last_row(table_of(rows), n) is None,
{
    let table = table_of(rows);
    merge::lemma_last_row(table, n);
    if merge::last_row(table, n) is Some {
        let row = merge::last_row(table, n)->0;
        let i = choose|i: int| 0 <= i < table.len() && table[i] == row;
        assert(rows[i].0 == n);
    }
}

/// Writing a row changes no other.
proof fn lemma_row_written(
    rows: Seq<(Seq<char>, DynamicJudgeRow)>,
    row: DynamicJudgeRow,
    n: Seq<char>,
)
    requires
        well_named(rows),
    ensures
        well_named(names::with_entry(rows, row.name@, row)),
        config_named(row@) && merge::configs_named(table_of(rows)) ==> merge::configs_named(
            table_of(names::with_entry(rows, row.name@, row)),
        ),
        merge::last_row(table_of(names::with_entry(rows, row.name@, row)), n) == if n
            == row.name@ {
            Some(row@)
        } else {
            merge::last_row(table_of(rows), n)
        },
{
    let name = row.name@;
    let after = names::with_entry(rows, name, row);
    let at = names::count_below(rows, name) as int;
    lemma_written_well_named(rows, row);
    names::lemma_count_below_bound(rows, name);
    assert(after[at] == (name, row));
    if n == name {
        lemma_row_stands(after, at);
    } else if exists|i: int| 0 <= i < rows.len() && (#[trigger] rows[i]).0 == n {
        let i = choose|i: int| 0 <= i < rows.len() && (#[trigger] rows[i]).0 == n;
        let j = if names::has_name(rows, name) || i < at {
            i
        } else {
            i + 1
        };
        assert(after[j] == rows[i]);
        lemma_row_stands(rows, i);
        lemma_row_stands(after, j);
    } else {
        lemma_no_row(rows, n);
        assert forall|j: int| 0 <= j < after.len() implies (#[trigger] after[j]).0 != n by {
            if j != at {
                let i = if names::has_name(rows, name) || j < at {
                    j
                } else {
                    j - 1
                };
                assert(after[j] == rows[i]);
            }
        }
        lemma_no_row(after, n);
    }
}

/// Deleting a row changes no other.
proof fn lemma_row_deleted(
    rows: Seq<(Seq<char>, DynamicJudgeRow)>,
    name: Seq<char>,
    n: Seq<char>,
)
    requires
        well_named(rows),
    ensures
        well_named(names::without_entry(rows, name)),
        merge::configs_named(table_of(rows)) ==> merge::configs_named(
            table_of(names::without_entry(rows, name)),
        ),
        merge::last_row(table_of(names::without_entry(rows, name)), n) == if n == name {
            None
        } else {
            merge::last_row(table_of(rows), n)
        },
{
    let after = names::without_entry(rows, name);
    let at = names::count_below(rows, name) as int;
    names::lemma_without_entry_ascends(rows, name);
    assert forall|i: int| 0 <= i < after.len() implies (#[trigger] after[i]).1.name@ == after[i].0
        && (merge::configs_named(table_of(rows)) ==> config_named(table_of(after)[i])) by {
        let j = if !names::has_name(rows, name) || i < at {
            i
        } else {
            i + 1
        };
        assert(after[i] == rows[j]);
        assert(table_of(after)[i] == table_of(rows)[j]);
    }
    if merge::configs_named(table_of(rows)) {
        assert forall|i: int| 0 <= i < table_of(after).len() && (#[trigger] table_of(
            after,
        )[i]).config is Some implies table_of(after)[i].config->0.name == table_of(
            after,
        )[i].name by {
            assert(after[i].1.name@ == after[i].0);
        }
    }
    if exists|i: int| 0 <= i < after.len() && (#[trigger] after[i]).0 == n {
        let i = choose|i: int| 0 <= i < after.len() && (#[trigger] after[i]).0 == n;
        let j = if !names::has_name(rows, name) || i < at {
            i
        } else {
            i + 1
        };
        assert(after[i] == rows[j]);
        lemma_row_stands(after, i);
        lemma_row_stands(rows, j);
        if n == name {
            names::lemma_has_name(rows, name);
            assert(j != at && rows[at].0 == rows[j].0);
            text::lemma_text_lt_total(rows[at].0, rows[j].0);
            if j < at {
                assert(text::text_lt(rows[j].0, rows[at].0));
            } else {
                assert(text::text_lt(rows[at].0, rows[j].0));
            }
        }
    } else {
        lemma_no_row(after, n);
        if n != name {
            assert forall|j: int| 0 <= j < rows.len() implies (#[trigger] rows[j]).0 != n by {
                if names::has_name(rows, name) {
                    if j != at {
                        let i = if j < at {
                            j
                        } else {
                            j - 1
                        };
                        assert(after[i] == rows[j]);
                    }
                } else {
                    assert(after[j] == rows[j]);
                }
            }
            lemma_no_row(rows, n);
        }
    }
}

/// The row of a configuration under a name. When it was first made stays.
pub fn active_row(name: &str, config: &JudgeConfig, created_at: Option<i64>, now: u64) -> (r:
    DynamicJudgeRow)
    ensures
        r@ == (DynamicJudgeRowView {
            config: Some(config@),
            created_at: first_made(created_at, now),
            disabled: false,
            name: name@,
            updated_at: stamp(now),
        }),
{
    let at: i64 = numbers::u64_to_i64(now);
    DynamicJudgeRow {
        config: Some(config.clone()),
        created_at: match created_at {
            Some(t) => t,
            None => at,
        },
        disabled: false,
        name: String::from_str(name),
        updated_at: at,
    }
}

/// The disabled row of a name. When it was first made stays.
pub fn tombstone_row(name: &str, created_at: Option<i64>, now: u64) -> (r: DynamicJudgeRow)
    ensures
        r@ == (DynamicJudgeRowView {
            config: None,
            created_at: first_made(created_at, now),
            disabled: true,
            name: name@,
            updated_at: stamp(now),
        }),
{
    let at: i64 = numbers::u64_to_i64(now);
    DynamicJudgeRow {
        config: None,
        created_at: match created_at {
            Some(t) => t,
            None => at,
        },
        disabled: true,
        name: String::from_str(name),
        updated_at: at,
    }
}

/// When a row was first made: before, or now.
pub open spec fn first_made(created_at: Option<i64>, now: u64) -> i64 {
    match created_at {
        Some(t) => t,
        None => stamp(now),
    }
}

impl Judges {
    /// The rows in the order of their names.
    pub closed spec fn table(&self) -> Seq<DynamicJudgeRowView> {
        table_of(self.rows@)
    }

    /// The row of a name.
    pub open spec fn row(&self, name: Seq<char>) -> Option<DynamicJudgeRowView> {
        merge::last_row(self.table(), name)
    }

    /// Each row stands under its own name.
    pub closed spec fn wf(&self) -> bool {
        well_named(self.rows@)
    }

    /// An empty table.
    pub fn new() -> (r: Self)
        ensures
            r.wf(),
            r.table() == Seq::<DynamicJudgeRowView>::empty(),
    {
        let judges = Judges { rows: OrderedMap::new() };
        assert(judges.table() =~= Seq::empty());
        judges
    }

    /// The rows in the order of their names.
    pub fn list_dynamic(&self) -> (r: Vec<DynamicJudgeRow>)
        requires
            self.wf(),
        ensures
            seqs::views(r@) == self.table(),
            merge::rows_distinct(self.table()),
    {
        let mut out: Vec<DynamicJudgeRow> = Vec::new();
        let mut i: usize = 0;
        assert(seqs::views(out@) =~= self.table().take(0));
        while i < self.rows.len()
            invariant
                i <= self.rows@.len(),
                seqs::views(out@) == self.table().take(i as int),
            decreases self.rows@.len() - i,
        {
            let ghost before = seqs::views(out@);
            let copy = self.rows.value_at(i).clone();
            out.push(copy);
            assert(seqs::views(out@) =~= before.push(copy@));
            assert(self.table().take(i + 1) =~= before.push(copy@));
            i = i + 1;
        }
        assert(self.table().take(i as int) =~= self.table());
        proof {
            lemma_well_named(self.rows@);
        }
        out
    }

    /// When the row of a name was made, if there is one.
    fn made(&self, name: &str) -> (r: Option<i64>)
        requires
            self.wf(),
        ensures
            r == match self.row(name@) {
                Some(row) => Some(row.created_at),
                None => None,
            },
    {
        proof {
            lemma_row_at(self.rows@, name@);
        }
        match self.rows.get(name) {
            Some(row) => Some(row.created_at),
            None => None,
        }
    }

    /// Writes the row of a configuration under a name. When it was first made stays.
    pub fn put_active_dynamic(&mut self, name: &str, config: &JudgeConfig, now: u64)
        requires
            old(self).wf(),
        ensures
            final(self).wf(),
            final(self).row(name@) == Some(
                (DynamicJudgeRowView {
                    config: Some(config@),
                    created_at: match old(self).row(name@) {
                        Some(row) => row.created_at,
                        None => stamp(now),
                    },
                    disabled: false,
                    name: name@,
                    updated_at: stamp(now),
                }),
            ),
            forall|n: Seq<char>| n != name@ ==> #[trigger] final(self).row(n) == old(self).row(n),
            name@ == config.name@ && merge::configs_named(old(self).table())
                ==> merge::configs_named(final(self).table()),
    {
        let row = active_row(name, config, self.made(name), now);
        self.write(row);
    }

    /// Writes a disabled row under a name. When it was first made stays.
    pub fn put_tombstone_dynamic(&mut self, name: &str, now: u64)
        requires
            old(self).wf(),
        ensures
            final(self).wf(),
            final(self).row(name@) == Some(
                (DynamicJudgeRowView {
                    config: None,
                    created_at: match old(self).row(name@) {
                        Some(row) => row.created_at,
                        None => stamp(now),
                    },
                    disabled: true,
                    name: name@,
                    updated_at: stamp(now),
                }),
            ),
            forall|n: Seq<char>| n != name@ ==> #[trigger] final(self).row(n) == old(self).row(n),
            merge::configs_named(old(self).table()) ==> merge::configs_named(final(self).table()),
    {
        let row = tombstone_row(name, self.made(name), now);
        self.write(row);
    }

    fn write(&mut self, row: DynamicJudgeRow)
        requires
            old(self).wf(),
        ensures
            final(self).wf(),
            final(self).row(row.name@) == Some(row@),
            forall|n: Seq<char>|
                n != row.name@ ==> #[trigger] final(self).row(n) == old(self).row(n),
            config_named(row@) && merge::configs_named(old(self).table()) ==> merge::configs_named(
                final(self).table(),
            ),
    {
        let ghost before = self.rows@;
        let name = row.name.clone();
        let ghost written = row;
        self.rows.insert(name, row);
        proof {
            assert forall|n: Seq<char>| #[trigger]
                merge::last_row(table_of(self.rows@), n) == if n == written.name@ {
                    Some(written@)
                } else {
                    merge::last_row(table_of(before), n)
                } by {
                lemma_row_written(before, written, n);
            }
            lemma_row_written(before, written, written.name@);
            assert forall|n: Seq<char>| n != written.name@ implies #[trigger] self.row(n)
                == merge::last_row(table_of(before), n) by {
                assert(self.row(n) == merge::last_row(table_of(self.rows@), n));
            }
        }
    }

    /// Deletes the row of a name, and tells whether there was one.
    pub fn delete_dynamic(&mut self, name: &str) -> (r: bool)
        requires
            old(self).wf(),
        ensures
            final(self).wf(),
            r == (old(self).row(name@) is Some),
            final(self).row(name@) is None,
            forall|n: Seq<char>| n != name@ ==> #[trigger] final(self).row(n) == old(self).row(n),
            merge::configs_named(old(self).table()) ==> merge::configs_named(final(self).table()),
    {
        let ghost before = self.rows@;
        let removed = self.rows.remove(name);
        proof {
            lemma_row_at(before, name@);
            assert forall|n: Seq<char>| #[trigger]
                merge::last_row(table_of(self.rows@), n) == if n == name@ {
                    None
                } else {
                    merge::last_row(table_of(before), n)
                } by {
                lemma_row_deleted(before, name@, n);
            }
            lemma_row_deleted(before, name@, name@);
            assert forall|n: Seq<char>| n != name@ implies #[trigger] self.row(n)
                == merge::last_row(table_of(before), n) by {
                assert(self.row(n) == merge::last_row(table_of(self.rows@), n));
            }
        }
        removed
    }
}

/// A moment as the table holds it.
pub open spec fn stamp(now: u64) -> i64 {
    numbers::within(now as int, i64::MIN as int, i64::MAX as int) as i64
}

/// A score that is read from a row is the one that the row holds, column by column, and a
/// row is read exactly when its identifiers are some.
pub proof fn law_row_holds_its_score(score: Score, row: ScoreColumns)
    ensures
        score_fault(row) is None <==> ids::uuid_of(row.id@) is Some && ids::uuid_of(
            row.message_id@,
        ) is Some && ids::uuid_of(row.user_id@) is Some,
        is_score_of(score, row) ==> {
            &&& score.agent_name@ == row.agent_name@
            &&& score.criterion@ == row.criterion@
            &&& score.judge_model@ == row.judge_model@
            &&& score.judge_name@ == row.judge_name@
            &&& score.reasoning@ == row.reasoning@
            &&& score.score == row.score
            &&& ids::uuid_of(row.id@) == Some(score.id.0)
            &&& ids::uuid_of(row.message_id@) == Some(score.message_id.0)
            &&& ids::uuid_of(row.user_id@) == Some(score.user_id.0)
            &&& row.created_at >= 0 ==> score.created_at == row.created_at
        },
{
}

/// A row keeps the moment at which it was first made; a new one is made now.
pub proof fn law_rows_keep_when_they_were_made(made: i64, now: u64)
    ensures
        first_made(Some(made), now) == made,
        now <= i64::MAX ==> first_made(None, now) == now && stamp(now) == now,
{
}

} // verus!
