//! Which judges are in force: those of the configuration file, as the database changes
//! them.
use vstd::prelude::*;

use crate::judges::config::{DynamicJudgeRow, DynamicJudgeRowView, JudgeConfig, JudgeConfigView};
use crate::order::{self, Named};
use crate::seqs;
use crate::text;

verus! {

/// Where a judge in force came from.
#[derive(Clone, Copy, Debug, PartialEq, Eq, Structural)]
pub enum Source {
    Dynamic,
    Override,
    Yaml,
}

/// A judge in force.
#[derive(Debug)]
pub struct MergedJudge {
    pub config: JudgeConfig,
    pub source: Source,
}

/// `MergedJudge`, with texts as sequences of characters.
pub struct MergedJudgeView {
    pub config: JudgeConfigView,
    pub source: Source,
}

impl View for MergedJudge {
    type V = MergedJudgeView;

    open spec fn view(&self) -> MergedJudgeView {
        MergedJudgeView { config: self.config@, source: self.source }
    }
}

impl Named for MergedJudge {
    open spec fn sort_name(&self) -> Seq<char> {
        self.config.name@
    }

    fn name_str(&self) -> (r: &str) {
        self.config.name.as_str()
    }
}

/// How many judges came from where, and how many were hidden.
#[derive(Clone, Copy, Debug, PartialEq, Eq, Structural)]
pub struct MergeReport {
    pub dynamic_count: usize,
    pub override_count: usize,
    pub tombstone_count: usize,
    pub yaml_count: usize,
}

impl Default for MergeReport {
    fn default() -> (r: Self)
        ensures
            r == (MergeReport {
                dynamic_count: 0,
                override_count: 0,
                tombstone_count: 0,
                yaml_count: 0,
            }),
    {
        MergeReport { dynamic_count: 0, override_count: 0, tombstone_count: 0, yaml_count: 0 }
    }
}

/// The database's row for a name. Should there be several, the last one.
pub open spec fn last_row(db: Seq<DynamicJudgeRowView>, name: Seq<char>) -> Option<
    DynamicJudgeRowView,
>
    decreases db.len(),
{
    if db.len() == 0 {
        None
    } else if db.last().name == name {
        Some(db.last())
    } else {
        last_row(db.drop_last(), name)
    }
}

/// The configuration file declares a judge of that name.
pub open spec fn declared(yaml: Seq<JudgeConfigView>, name: Seq<char>) -> bool {
    exists|i: int| 0 <= i < yaml.len() && (#[trigger] yaml[i]).name == name
}

/// What is in force of a declared judge: its row's configuration if it has a row, and
/// its own otherwise. A disabled row hides it.
pub open spec fn resolved(cfg: JudgeConfigView, db: Seq<DynamicJudgeRowView>) -> Option<
    MergedJudgeView,
> {
    match last_row(db, cfg.name) {
        None => Some(MergedJudgeView { config: cfg, source: Source::Yaml }),
        Some(row) => if row.disabled {
            None
        } else {
            match row.config {
                Some(config) => Some(MergedJudgeView { config, source: Source::Override }),
                None => None,
            }
        },
    }
}

/// What is in force of a row: its configuration, unless it is disabled or its name is
/// declared.
pub open spec fn added(yaml: Seq<JudgeConfigView>, row: DynamicJudgeRowView) -> Option<
    MergedJudgeView,
> {
    if declared(yaml, row.name) || row.disabled {
        None
    } else {
        match row.config {
            Some(config) => Some(MergedJudgeView { config, source: Source::Dynamic }),
            None => None,
        }
    }
}

/// A declared judge that a disabled row hides.
pub open spec fn hidden(cfg: JudgeConfigView, db: Seq<DynamicJudgeRowView>) -> bool {
    last_row(db, cfg.name) is Some && last_row(db, cfg.name)->0.disabled
}

/// A disabled row whose name is not declared.
pub open spec fn idle(yaml: Seq<JudgeConfigView>, row: DynamicJudgeRowView) -> bool {
    !declared(yaml, row.name) && row.disabled
}

/// The judges in force, in the order in which they are found.
pub open spec fn found(yaml: Seq<JudgeConfigView>, db: Seq<DynamicJudgeRowView>) -> Seq<
    MergedJudgeView,
> {
    seqs::somes(yaml.map_values(|c: JudgeConfigView| resolved(c, db))) + seqs::somes(
        db.map_values(|r: DynamicJudgeRowView| added(yaml, r)),
    )
}

/// How many of the judges came from a source.
pub open spec fn count_from(judges: Seq<MergedJudgeView>, source: Source) -> nat {
    seqs::count_true(judges.map_values(|m: MergedJudgeView| m.source == source))
}

/// How many disabled rows took effect.
pub open spec fn tombstones(yaml: Seq<JudgeConfigView>, db: Seq<DynamicJudgeRowView>) -> nat {
    seqs::count_true(yaml.map_values(|c: JudgeConfigView| hidden(c, db))) + seqs::count_true(
        db.map_values(|r: DynamicJudgeRowView| idle(yaml, r)),
    )
}

/// The name that judges in force are sorted by.
pub open spec fn merged_name() -> spec_fn(MergedJudgeView) -> Seq<char> {
    |m: MergedJudgeView| m.config.name
}

/// The report on the judges found.
pub open spec fn is_report(
    report: MergeReport,
    judges: Seq<MergedJudgeView>,
    tombstones: nat,
) -> bool {
    &&& report.dynamic_count == count_from(judges, Source::Dynamic)
    &&& report.override_count == count_from(judges, Source::Override)
    &&& report.tombstone_count == tombstones
    &&& report.yaml_count == count_from(judges, Source::Yaml)
}

/// The last row of a name.
pub(crate) fn find_row<'a>(db: &'a [DynamicJudgeRow], name: &str) -> (r: Option<&'a DynamicJudgeRow>)
    ensures
        match r {
            Some(row) => last_row(seqs::views(db@), name@) == Some(row@),
            None => last_row(seqs::views(db@), name@) is None,
        },
{
    let mut i: usize = db.len();
    assert(seqs::views(db@).take(i as int) =~= seqs::views(db@));
    while i > 0
        invariant
            i <= db@.len(),
            last_row(seqs::views(db@), name@) == last_row(
                seqs::views(db@).take(i as int),
                name@,
            ),
        decreases i,
    {
        let ghost front = seqs::views(db@).take(i as int);
        i = i - 1;
        assert(front.drop_last() =~= seqs::views(db@).take(i as int));
        assert(front.last() == db@[i as int]@);
        if text::str_eq(db[i].name.as_str(), name) {
            return Some(&db[i]);
        }
    }
    None
}

/// Whether a name is declared.
pub(crate) fn is_declared(yaml: &[JudgeConfig], name: &str) -> (r: bool)
    ensures
        r == declared(seqs::views(yaml@), name@),
{
    let mut i: usize = 0;
    while i < yaml.len()
        invariant
            i <= yaml@.len(),
            forall|j: int| 0 <= j < i ==> (#[trigger] seqs::views(yaml@)[j]).name != name@,
        decreases yaml@.len() - i,
    {
        if text::str_eq(yaml[i].name.as_str(), name) {
            assert(seqs::views(yaml@)[i as int].name == name@);
            return true;
        }
        i = i + 1;
    }
    false
}

/// Counting one more judge.
proof fn lemma_count_from_push(judges: Seq<MergedJudgeView>, judge: MergedJudgeView)
    ensures
        forall|s: Source|
            #[trigger] count_from(judges.push(judge), s) == count_from(judges, s)
                + if judge.source == s {
                1nat
            } else {
                0nat
            },
{
    assert forall|s: Source|
        #[trigger] count_from(judges.push(judge), s) == count_from(judges, s)
            + if judge.source == s {
            1nat
        } else {
            0nat
        } by {
        let f = |m: MergedJudgeView| m.source == s;
        let all = judges.push(judge);
        seqs::lemma_count_true_step(all, f, judges.len() as int);
        assert(all.take(judges.len() as int) =~= judges);
        assert(all.take(judges.len() as int + 1) =~= all);
    }
}

/// Judges of one kind are no more than all judges.
proof fn lemma_count_from_bound(judges: Seq<MergedJudgeView>)
    ensures
        forall|s: Source| #[trigger] count_from(judges, s) <= judges.len(),
{
    assert forall|s: Source| #[trigger] count_from(judges, s) <= judges.len() by {
        seqs::lemma_count_true_bound(
            judges.map_values(|m: MergedJudgeView| m.source == s),
        );
    }
}

/// Every judge comes from one source.
proof fn lemma_counts_add_up(judges: Seq<MergedJudgeView>)
    ensures
        count_from(judges, Source::Dynamic) + count_from(judges, Source::Override) + count_from(
            judges,
            Source::Yaml,
        ) == judges.len(),
    decreases judges.len(),
{
    if judges.len() > 0 {
        lemma_counts_add_up(judges.drop_last());
        lemma_count_from_push(judges.drop_last(), judges.last());
        assert(judges.drop_last().push(judges.last()) =~= judges);
        let judge = judges.last();
        assert(judge.source == Source::Dynamic || judge.source == Source::Override || judge.source
            == Source::Yaml);
    } else {
        lemma_count_from_bound(judges);
    }
}

/// The judges in force, sorted by name, and how they came about. The database's row
/// wins over the declaration, and a disabled row drops it.
pub fn merge(yaml: &[JudgeConfig], db: &[DynamicJudgeRow]) -> (r: (Vec<MergedJudge>, MergeReport))
    requires
        yaml@.len() + db@.len() <= usize::MAX,
    ensures
        order::is_stable_sort(
            found(seqs::views(yaml@), seqs::views(db@)),
            seqs::views(r.0@),
            merged_name(),
        ),
        is_report(
            r.1,
            found(seqs::views(yaml@), seqs::views(db@)),
            tombstones(seqs::views(yaml@), seqs::views(db@)),
        ),
        r.1.dynamic_count + r.1.override_count + r.1.yaml_count == r.0@.len(),
{
    let ghost ys = seqs::views(yaml@);
    let ghost ds = seqs::views(db@);
    let ghost resolve = |c: JudgeConfigView| resolved(c, ds);
    let ghost hide = |c: JudgeConfigView| hidden(c, ds);
    let ghost add = |r: DynamicJudgeRowView| added(ys, r);
    let ghost rest = |r: DynamicJudgeRowView| idle(ys, r);
    let mut merged: Vec<MergedJudge> = Vec::new();
    let mut report = MergeReport::default();
    let mut i: usize = 0;
    assert(seqs::views(merged@) =~= Seq::empty());
    assert(ys.take(0) =~= Seq::empty());
    assert(seqs::somes(ys.take(0).map_values(resolve)) =~= Seq::empty());
    while i < yaml.len()
        invariant
            i <= yaml@.len(),
            yaml@.len() + db@.len() <= usize::MAX,
            ys == seqs::views(yaml@),
            ds == seqs::views(db@),
            resolve == (|c: JudgeConfigView| resolved(c, ds)),
            hide == (|c: JudgeConfigView| hidden(c, ds)),
            seqs::views(merged@) == seqs::somes(ys.take(i as int).map_values(resolve)),
            merged@.len() <= i,
            is_report(
                report,
                seqs::views(merged@),
                seqs::count_true(ys.take(i as int).map_values(hide)),
            ),
        decreases yaml@.len() - i,
    {
        let ghost before = seqs::views(merged@);
        proof {
            assert(ys[i as int] == yaml@[i as int]@);
            seqs::lemma_somes_step(ys, resolve, i as int);
            seqs::lemma_count_true_step(ys, hide, i as int);
            seqs::lemma_count_true_bound(ys.take(i as int).map_values(hide));
            lemma_count_from_bound(before);
        }
        match find_row(db, yaml[i].name.as_str()) {
            None => {
                let judge = MergedJudge { config: yaml[i].clone(), source: Source::Yaml };
                proof {
                    lemma_count_from_push(before, judge@);
                }
                merged.push(judge);
                assert(seqs::views(merged@) =~= before.push(judge@));
                report.yaml_count = report.yaml_count + 1;
            },
            Some(row) => {
                if row.disabled {
                    report.tombstone_count = report.tombstone_count + 1;
                } else if let Some(config) = &row.config {
                    let judge = MergedJudge { config: config.clone(), source: Source::Override };
                    proof {
                        lemma_count_from_push(before, judge@);
                    }
                    merged.push(judge);
                    assert(seqs::views(merged@) =~= before.push(judge@));
                    report.override_count = report.override_count + 1;
                }
            },
        }
        i = i + 1;
    }
    let ghost first = seqs::somes(ys.map_values(resolve));
    let ghost hid = seqs::count_true(ys.map_values(hide));
    proof {
        assert(ys.take(i as int) =~= ys);
        assert(ds.take(0) =~= Seq::empty());
        assert(seqs::somes(ds.take(0).map_values(add)) =~= Seq::empty());
        assert(first + seqs::somes(ds.take(0).map_values(add)) =~= first);
        seqs::lemma_count_true_bound(ys.map_values(hide));
    }
    let mut j: usize = 0;
    while j < db.len()
        invariant
            j <= db@.len(),
            yaml@.len() + db@.len() <= usize::MAX,
            ys == seqs::views(yaml@),
            ds == seqs::views(db@),
            add == (|r: DynamicJudgeRowView| added(ys, r)),
            rest == (|r: DynamicJudgeRowView| idle(ys, r)),
            hid <= yaml@.len(),
            seqs::views(merged@) == first + seqs::somes(ds.take(j as int).map_values(add)),
            merged@.len() <= yaml@.len() + j,
            is_report(
                report,
                seqs::views(merged@),
                hid + seqs::count_true(ds.take(j as int).map_values(rest)),
            ),
        decreases db@.len() - j,
    {
        let ghost before = seqs::views(merged@);
        proof {
            assert(ds[j as int] == db@[j as int]@);
            seqs::lemma_somes_step(ds, add, j as int);
            seqs::lemma_count_true_step(ds, rest, j as int);
            seqs::lemma_count_true_bound(ds.take(j as int).map_values(rest));
            lemma_count_from_bound(before);
        }
        let row: &DynamicJudgeRow = &db[j];
        if !is_declared(yaml, row.name.as_str()) {
            if row.disabled {
                report.tombstone_count = report.tombstone_count + 1;
            } else if let Some(config) = &row.config {
                let judge = MergedJudge { config: config.clone(), source: Source::Dynamic };
                proof {
                    lemma_count_from_push(before, judge@);
                }
                merged.push(judge);
                assert(seqs::views(merged@) =~= before.push(judge@));
                assert(first + seqs::somes(ds.take(j + 1).map_values(add)) =~= before.push(
                    judge@,
                ));
                report.dynamic_count = report.dynamic_count + 1;
            }
        }
        j = j + 1;
    }
    proof {
        assert(ds.take(j as int) =~= ds);
        lemma_counts_add_up(seqs::views(merged@));
    }
    let ghost unsorted = merged@;
    let sorted = order::sort_by_name(merged);
    proof {
        order::lemma_stable_sort_map(
            unsorted,
            sorted@,
            |m: MergedJudge| m@,
            order::name_key::<MergedJudge>(),
            merged_name(),
        );
    }
    (sorted, report)
}

/// Where a judge on the administrator's list stands.
#[derive(Clone, Copy, Debug, PartialEq, Eq, Structural)]
pub enum AdminSource {
    Dynamic,
    Override,
    Tombstoned,
    Yaml,
}

/// A judge on the administrator's list, which shows hidden judges too.
#[derive(Debug)]
pub struct AdminJudge {
    pub config: Option<JudgeConfig>,
    pub name: String,
    pub source: AdminSource,
    /// The configuration file declares it.
    pub yaml_backed: bool,
}

/// `AdminJudge`, with texts as sequences of characters.
pub struct AdminJudgeView {
    pub config: Option<JudgeConfigView>,
    pub name: Seq<char>,
    pub source: AdminSource,
    pub yaml_backed: bool,
}

impl View for AdminJudge {
    type V = AdminJudgeView;

    open spec fn view(&self) -> AdminJudgeView {
        AdminJudgeView {
            config: seqs::opt_view(self.config),
            name: self.name@,
            source: self.source,
            yaml_backed: self.yaml_backed,
        }
    }
}

impl Named for AdminJudge {
    open spec fn sort_name(&self) -> Seq<char> {
        self.name@
    }

    fn name_str(&self) -> (r: &str) {
        self.name.as_str()
    }
}

/// How a declared judge is listed.
pub open spec fn shown(cfg: JudgeConfigView, db: Seq<DynamicJudgeRowView>) -> AdminJudgeView {
    match last_row(db, cfg.name) {
        None => AdminJudgeView {
            config: Some(cfg),
            name: cfg.name,
            source: AdminSource::Yaml,
            yaml_backed: true,
        },
        Some(row) => AdminJudgeView {
            config: if row.disabled {
                None
            } else {
                row.config
            },
            name: cfg.name,
            source: if row.disabled {
                AdminSource::Tombstoned
            } else {
                AdminSource::Override
            },
            yaml_backed: true,
        },
    }
}

/// How a row whose name is not declared is listed.
pub open spec fn shown_row(yaml: Seq<JudgeConfigView>, row: DynamicJudgeRowView) -> Option<
    AdminJudgeView,
> {
    if declared(yaml, row.name) {
        None
    } else if row.disabled {
        Some(
            AdminJudgeView {
                config: None,
                name: row.name,
                source: AdminSource::Tombstoned,
                yaml_backed: false,
            },
        )
    } else if row.config is Some {
        Some(
            AdminJudgeView {
                config: row.config,
                name: row.name,
                source: AdminSource::Dynamic,
                yaml_backed: false,
            },
        )
    } else {
        None
    }
}

/// The administrator's list, in the order in which the judges are found.
pub open spec fn listed(yaml: Seq<JudgeConfigView>, db: Seq<DynamicJudgeRowView>) -> Seq<
    AdminJudgeView,
> {
    yaml.map_values(|c: JudgeConfigView| shown(c, db)) + seqs::somes(
        db.map_values(|r: DynamicJudgeRowView| shown_row(yaml, r)),
    )
}

/// The name that the administrator's list is sorted by.
pub open spec fn admin_name() -> spec_fn(AdminJudgeView) -> Seq<char> {
    |a: AdminJudgeView| a.name
}

/// A copy of an optional configuration.
fn clone_config(config: &Option<JudgeConfig>) -> (r: Option<JudgeConfig>)
    ensures
        seqs::opt_view(r) == seqs::opt_view(*config),
{
    match config {
        Some(c) => Some(c.clone()),
        None => None,
    }
}

/// The administrator's list of judges, hidden ones too, sorted by name.
pub fn admin_view(yaml: &[JudgeConfig], db: &[DynamicJudgeRow]) -> (r: Vec<AdminJudge>)
    ensures
        order::is_stable_sort(
            listed(seqs::views(yaml@), seqs::views(db@)),
            seqs::views(r@),
            admin_name(),
        ),
{
    let ghost ys = seqs::views(yaml@);
    let ghost ds = seqs::views(db@);
    let ghost show = |c: JudgeConfigView| shown(c, ds);
    let ghost show_row = |r: DynamicJudgeRowView| shown_row(ys, r);
    let mut out: Vec<AdminJudge> = Vec::new();
    let mut i: usize = 0;
    assert(seqs::views(out@) =~= ys.take(0).map_values(show));
    while i < yaml.len()
        invariant
            i <= yaml@.len(),
            ys == seqs::views(yaml@),
            ds == seqs::views(db@),
            show == (|c: JudgeConfigView| shown(c, ds)),
            seqs::views(out@) == ys.take(i as int).map_values(show),
        decreases yaml@.len() - i,
    {
        let ghost before = seqs::views(out@);
        assert(ys[i as int] == yaml@[i as int]@);
        let judge = match find_row(db, yaml[i].name.as_str()) {
            None => AdminJudge {
                config: Some(yaml[i].clone()),
                name: yaml[i].name.clone(),
                source: AdminSource::Yaml,
                yaml_backed: true,
            },
            Some(row) => if row.disabled {
                AdminJudge {
                    config: None,
                    name: yaml[i].name.clone(),
                    source: AdminSource::Tombstoned,
                    yaml_backed: true,
                }
            } else {
                AdminJudge {
                    config: clone_config(&row.config),
                    name: yaml[i].name.clone(),
                    source: AdminSource::Override,
                    yaml_backed: true,
                }
            },
        };
        assert(judge@ == show(ys[i as int]));
        out.push(judge);
        assert(seqs::views(out@) =~= before.push(judge@));
        assert(ys.take(i + 1).map_values(show) =~= before.push(judge@));
        i = i + 1;
    }
    let ghost first = ys.map_values(show);
    proof {
        assert(ys.take(i as int) =~= ys);
        assert(ds.take(0) =~= Seq::empty());
        assert(first + seqs::somes(ds.take(0).map_values(show_row)) =~= first);
    }
    let mut j: usize = 0;
    while j < db.len()
        invariant
            j <= db@.len(),
            ys == seqs::views(yaml@),
            ds == seqs::views(db@),
            show_row == (|r: DynamicJudgeRowView| shown_row(ys, r)),
            seqs::views(out@) == first + seqs::somes(ds.take(j as int).map_values(show_row)),
        decreases db@.len() - j,
    {
        let ghost before = seqs::views(out@);
        proof {
            assert(ds[j as int] == db@[j as int]@);
            seqs::lemma_somes_step(ds, show_row, j as int);
        }
        let row: &DynamicJudgeRow = &db[j];
        if !is_declared(yaml, row.name.as_str()) {
            if row.disabled {
                let judge = AdminJudge {
                    config: None,
                    name: row.name.clone(),
                    source: AdminSource::Tombstoned,
                    yaml_backed: false,
                };
                out.push(judge);
                assert(seqs::views(out@) =~= before.push(judge@));
                assert(first + seqs::somes(ds.take(j + 1).map_values(show_row)) =~= before.push(
                    judge@,
                ));
            } else if let Some(config) = &row.config {
                let judge = AdminJudge {
                    config: Some(config.clone()),
                    name: row.name.clone(),
                    source: AdminSource::Dynamic,
                    yaml_backed: false,
                };
                out.push(judge);
                assert(seqs::views(out@) =~= before.push(judge@));
                assert(first + seqs::somes(ds.take(j + 1).map_values(show_row)) =~= before.push(
                    judge@,
                ));
            }
        }
        j = j + 1;
    }
    proof {
        assert(ds.take(j as int) =~= ds);
    }
    let ghost unsorted = out@;
    let sorted = order::sort_by_name(out);
    proof {
        order::lemma_stable_sort_map(
            unsorted,
            sorted@,
            |a: AdminJudge| a@,
            order::name_key::<AdminJudge>(),
            admin_name(),
        );
    }
    sorted
}

/// No two rows have the same name, as in the table.
pub open spec fn rows_distinct(db: Seq<DynamicJudgeRowView>) -> bool {
    forall|i: int, j: int|
        0 <= i < j < db.len() ==> (#[trigger] db[i]).name != (#[trigger] db[j]).name
}

/// Each row keeps a configuration of its own name.
pub open spec fn configs_named(db: Seq<DynamicJudgeRowView>) -> bool {
    forall|i: int|
        0 <= i < db.len() && (#[trigger] db[i]).config is Some ==> db[i].config->0.name
            == db[i].name
}

/// No two rows have the same name, and each keeps a configuration of its own name.
pub open spec fn rows_consistent(db: Seq<DynamicJudgeRowView>) -> bool {
    rows_distinct(db) && configs_named(db)
}

/// The last row of a name is a row of that name, and the only one if names are told
/// apart.
pub proof fn lemma_last_row(db: Seq<DynamicJudgeRowView>, name: Seq<char>)
    ensures
        match last_row(db, name) {
            Some(row) => row.name == name && db.contains(row),
            None => forall|i: int| 0 <= i < db.len() ==> (#[trigger] db[i]).name != name,
        },
        rows_distinct(db) ==> forall|i: int|
            0 <= i < db.len() && (#[trigger] db[i]).name == name ==> last_row(db, name) == Some(
                db[i],
            ),
    decreases db.len(),
{
    if db.len() > 0 {
        let front = db.drop_last();
        lemma_last_row(front, name);
        if db.last().name == name {
            assert(db[db.len() - 1] == db.last());
        } else {
            if last_row(front, name) is Some {
                let row = last_row(front, name)->0;
                let i = choose|i: int| 0 <= i < front.len() && front[i] == row;
                assert(db[i] == row);
            }
            assert forall|i: int| 0 <= i < db.len() && (#[trigger] db[i]).name == name implies i
                < front.len() && db[i] == front[i] by {};
        }
        if rows_distinct(db) {
            assert(rows_distinct(front)) by {
                assert forall|i: int, j: int| 0 <= i < j < front.len() implies (
                #[trigger] front[i]).name != (#[trigger] front[j]).name by {
                    assert(db[i] == front[i] && db[j] == front[j]);
                }
            }
            assert forall|i: int| 0 <= i < db.len() && (#[trigger] db[i]).name == name implies
                last_row(db, name) == Some(db[i]) by {
                if i < front.len() {
                    assert(front[i].name == name);
                    assert(db[i].name != db[db.len() - 1].name);
                }
            }
        }
    }
}

/// Where a judge that is found comes from.
proof fn lemma_found(yaml: Seq<JudgeConfigView>, db: Seq<DynamicJudgeRowView>, m: MergedJudgeView)
    ensures
        found(yaml, db).contains(m) <==> {
            ||| exists|i: int| 0 <= i < yaml.len() && resolved(#[trigger] yaml[i], db) == Some(m)
            ||| exists|i: int| 0 <= i < db.len() && added(yaml, #[trigger] db[i]) == Some(m)
        },
{
    let a = yaml.map_values(|c: JudgeConfigView| resolved(c, db));
    let b = db.map_values(|r: DynamicJudgeRowView| added(yaml, r));
    seqs::lemma_somes_contains(a, m);
    seqs::lemma_somes_contains(b, m);
    let first = seqs::somes(a);
    let second = seqs::somes(b);
    let all = first + second;
    if all.contains(m) {
        let i = choose|i: int| 0 <= i < all.len() && all[i] == m;
        if i < first.len() {
            assert(first[i] == m);
            let j = choose|j: int| 0 <= j < a.len() && #[trigger] a[j] == Some(m);
            assert(resolved(yaml[j], db) == Some(m));
        } else {
            assert(second[i - first.len()] == m);
            let j = choose|j: int| 0 <= j < b.len() && #[trigger] b[j] == Some(m);
            assert(added(yaml, db[j]) == Some(m));
        }
    }
    if exists|i: int| 0 <= i < yaml.len() && resolved(#[trigger] yaml[i], db) == Some(m) {
        let i = choose|i: int| 0 <= i < yaml.len() && resolved(#[trigger] yaml[i], db) == Some(m);
        assert(a[i] == Some(m));
        let j = choose|j: int| 0 <= j < first.len() && first[j] == m;
        assert(all[j] == m);
    }
    if exists|i: int| 0 <= i < db.len() && added(yaml, #[trigger] db[i]) == Some(m) {
        let i = choose|i: int| 0 <= i < db.len() && added(yaml, #[trigger] db[i]) == Some(m);
        assert(b[i] == Some(m));
        let j = choose|j: int| 0 <= j < second.len() && second[j] == m;
        assert(all[first.len() + j] == m);
    }
}

/// A disabled row hides the judge of its name: none in force has it.
pub proof fn law_tombstone_hides(
    yaml: Seq<JudgeConfigView>,
    db: Seq<DynamicJudgeRowView>,
    merged: Seq<MergedJudgeView>,
    name: Seq<char>,
)
    requires
        order::is_stable_sort(found(yaml, db), merged, merged_name()),
        rows_consistent(db),
        last_row(db, name) is Some,
        last_row(db, name)->0.disabled,
    ensures
        forall|i: int| 0 <= i < merged.len() ==> (#[trigger] merged[i]).config.name != name,
{
    assert forall|i: int| 0 <= i < merged.len() implies (#[trigger] merged[i]).config.name
        != name by {
        let m = merged[i];
        if m.config.name == name {
            lemma_in_force(yaml, db, merged, m);
        }
    }
}

/// What a judge in force goes back to.
proof fn lemma_in_force(
    yaml: Seq<JudgeConfigView>,
    db: Seq<DynamicJudgeRowView>,
    merged: Seq<MergedJudgeView>,
    m: MergedJudgeView,
)
    requires
        order::is_stable_sort(found(yaml, db), merged, merged_name()),
        rows_consistent(db),
        merged.contains(m),
    ensures
        match last_row(db, m.config.name) {
            None => m.source == Source::Yaml && yaml.contains(m.config),
            Some(row) => !row.disabled && row.config == Some(m.config) && m.source == if declared(
                yaml,
                m.config.name,
            ) {
                Source::Override
            } else {
                Source::Dynamic
            },
        },
{
    order::lemma_stable_sort_contains(found(yaml, db), merged, merged_name(), m);
    lemma_found(yaml, db, m);
    lemma_last_row(db, m.config.name);
    if exists|i: int| 0 <= i < yaml.len() && resolved(#[trigger] yaml[i], db) == Some(m) {
        let i = choose|i: int| 0 <= i < yaml.len() && resolved(#[trigger] yaml[i], db) == Some(m);
        lemma_last_row(db, yaml[i].name);
        if last_row(db, yaml[i].name) is Some {
            let row = last_row(db, yaml[i].name)->0;
            let j = choose|j: int| 0 <= j < db.len() && db[j] == row;
            assert(db[j].config is Some);
            assert(declared(yaml, m.config.name));
        }
    } else {
        let i = choose|i: int| 0 <= i < db.len() && added(yaml, #[trigger] db[i]) == Some(m);
        assert(db[i].config is Some);
    }
}

/// The database wins: where a row with a configuration stands for a name, that
/// configuration is in force, and no other of its name.
pub proof fn law_row_wins(
    yaml: Seq<JudgeConfigView>,
    db: Seq<DynamicJudgeRowView>,
    merged: Seq<MergedJudgeView>,
    row: DynamicJudgeRowView,
    config: JudgeConfigView,
)
    requires
        order::is_stable_sort(found(yaml, db), merged, merged_name()),
        rows_consistent(db),
        db.contains(row),
        !row.disabled,
        row.config == Some(config),
    ensures
        exists|i: int| 0 <= i < merged.len() && (#[trigger] merged[i]).config == config,
        forall|i: int|
            0 <= i < merged.len() && (#[trigger] merged[i]).config.name == row.name
                ==> merged[i].config == config && merged[i].source == if declared(yaml, row.name) {
                Source::Override
            } else {
                Source::Dynamic
            },
{
    let at = choose|i: int| 0 <= i < db.len() && db[i] == row;
    lemma_last_row(db, row.name);
    assert(db[at].config is Some);
    assert(last_row(db, row.name) == Some(row));
    let source = if declared(yaml, row.name) {
        Source::Override
    } else {
        Source::Dynamic
    };
    let m = MergedJudgeView { config, source };
    lemma_found(yaml, db, m);
    if declared(yaml, row.name) {
        let i = choose|i: int| 0 <= i < yaml.len() && (#[trigger] yaml[i]).name == row.name;
        assert(resolved(yaml[i], db) == Some(m));
    } else {
        assert(added(yaml, db[at]) == Some(m));
    }
    order::lemma_stable_sort_contains(found(yaml, db), merged, merged_name(), m);
    let j = choose|j: int| 0 <= j < merged.len() && merged[j] == m;
    assert(merged[j].config == config);
    assert forall|i: int| 0 <= i < merged.len() && (#[trigger] merged[i]).config.name
        == row.name implies merged[i].config == config && merged[i].source == source by {
        lemma_in_force(yaml, db, merged, merged[i]);
    }
}

/// A declared judge without a row stands as declared.
pub proof fn law_declaration_stands(
    yaml: Seq<JudgeConfigView>,
    db: Seq<DynamicJudgeRowView>,
    merged: Seq<MergedJudgeView>,
    cfg: JudgeConfigView,
)
    requires
        order::is_stable_sort(found(yaml, db), merged, merged_name()),
        yaml.contains(cfg),
        last_row(db, cfg.name) is None,
    ensures
        merged.contains(MergedJudgeView { config: cfg, source: Source::Yaml }),
{
    let m = MergedJudgeView { config: cfg, source: Source::Yaml };
    let i = choose|i: int| 0 <= i < yaml.len() && yaml[i] == cfg;
    assert(resolved(yaml[i], db) == Some(m));
    lemma_found(yaml, db, m);
    order::lemma_stable_sort_contains(found(yaml, db), merged, merged_name(), m);
}

/// The configurations that the administrator's list shows.
pub open spec fn configs_of(rows: Seq<AdminJudgeView>) -> Seq<JudgeConfigView> {
    seqs::somes(rows.map_values(|a: AdminJudgeView| a.config))
}

/// The name of a configuration.
pub open spec fn config_name() -> spec_fn(JudgeConfigView) -> Seq<char> {
    |c: JudgeConfigView| c.name
}

/// The judge in force that an entry of the administrator's list shows; `None` for one that
/// is hidden or has no configuration.
pub open spec fn in_force(row: AdminJudgeView) -> Option<MergedJudgeView> {
    match (row.config, row.source) {
        (Some(config), AdminSource::Dynamic) => Some(
            MergedJudgeView { config, source: Source::Dynamic },
        ),
        (Some(config), AdminSource::Override) => Some(
            MergedJudgeView { config, source: Source::Override },
        ),
        (Some(config), AdminSource::Yaml) => Some(MergedJudgeView { config, source: Source::Yaml }),
        _ => None,
    }
}

/// The judges in force that the administrator's list shows.
pub open spec fn judges_of(rows: Seq<AdminJudgeView>) -> Seq<MergedJudgeView> {
    seqs::somes(rows.map_values(|a: AdminJudgeView| in_force(a)))
}

/// Each listed judge shows a configuration of its own name.
spec fn names_match(rows: Seq<AdminJudgeView>) -> bool {
    forall|i: int|
        0 <= i < rows.len() && (#[trigger] rows[i]).config is Some ==> rows[i].config->0.name
            == rows[i].name
}

proof fn lemma_judges_of_push(rows: Seq<AdminJudgeView>, row: AdminJudgeView)
    ensures
        judges_of(rows.push(row)) == match in_force(row) {
            Some(m) => judges_of(rows).push(m),
            None => judges_of(rows),
        },
{
    let f = |a: AdminJudgeView| in_force(a);
    assert(rows.push(row).map_values(f).drop_last() =~= rows.map_values(f));
    assert(rows.push(row).map_values(f).last() == in_force(row));
}

/// The judges on a sorted list are sorted, and those of one name are those of the
/// entries of that name.
proof fn lemma_judges_of_sorted(rows: Seq<AdminJudgeView>)
    requires
        names_match(rows),
    ensures
        order::sorted_by_key(rows, admin_name()) ==> order::sorted_by_key(
            judges_of(rows),
            merged_name(),
        ),
        forall|k: Seq<char>| #[trigger]
            order::with_key(judges_of(rows), merged_name(), k) == judges_of(
                order::with_key(rows, admin_name(), k),
            ),
        forall|i: int|
            0 <= i < judges_of(rows).len() ==> exists|j: int|
                0 <= j < rows.len() && in_force(#[trigger] rows[j]) == Some(
                    #[trigger] judges_of(rows)[i],
                ),
    decreases rows.len(),
{
    if rows.len() == 0 {
        assert(judges_of(rows) =~= Seq::empty());
    } else {
        let front = rows.drop_last();
        let row = rows.last();
        assert(rows =~= front.push(row));
        assert(names_match(front)) by {
            assert forall|i: int| 0 <= i < front.len() && (#[trigger] front[i]).config
                is Some implies front[i].config->0.name == front[i].name by {
                assert(rows[i] == front[i]);
            }
        }
        lemma_judges_of_sorted(front);
        lemma_judges_of_push(front, row);
        let all = judges_of(rows);
        let before = judges_of(front);
        assert(rows[rows.len() - 1] == row);
        assert forall|i: int| 0 <= i < all.len() implies exists|j: int|
            0 <= j < rows.len() && in_force(#[trigger] rows[j]) == Some(#[trigger] all[i]) by {
            if i < before.len() {
                assert(all[i] == before[i]);
                let j = choose|j: int|
                    0 <= j < front.len() && in_force(#[trigger] front[j]) == Some(before[i]);
                assert(rows[j] == front[j]);
            } else {
                assert(in_force(rows[rows.len() - 1]) == Some(all[i]));
            }
        }
        assert forall|k: Seq<char>| #[trigger]
            order::with_key(judges_of(rows), merged_name(), k) == judges_of(
            order::with_key(rows, admin_name(), k),
        ) by {
            let those = order::with_key(front, admin_name(), k);
            assert(order::with_key(before, merged_name(), k) == judges_of(those));
            lemma_judges_of_push(those, row);
            match in_force(row) {
                Some(m) => {
                    assert(all.drop_last() =~= before);
                    assert(all.last() == m);
                    assert(m.config.name == row.name);
                },
                None => {},
            }
        }
        if order::sorted_by_key(rows, admin_name()) {
            assert(order::sorted_by_key(front, admin_name())) by {
                assert forall|i: int, j: int| 0 <= i < j < front.len() implies !text::text_lt(
                    admin_name()(#[trigger] front[j]),
                    admin_name()(#[trigger] front[i]),
                ) by {
                    assert(rows[i] == front[i] && rows[j] == front[j]);
                }
            }
            assert forall|i: int, j: int| 0 <= i < j < all.len() implies !text::text_lt(
                merged_name()(#[trigger] all[j]),
                merged_name()(#[trigger] all[i]),
            ) by {
                assert(all[i] == before[i]);
                if j < before.len() {
                    assert(all[j] == before[j]);
                } else {
                    let at = choose|at: int|
                        0 <= at < front.len() && in_force(#[trigger] front[at]) == Some(before[i]);
                    assert(rows[at] == front[at]);
                    assert(!text::text_lt(
                        admin_name()(rows[rows.len() - 1]),
                        admin_name()(rows[at]),
                    ));
                }
            }
        }
    }
}

/// Each judge is listed under the name of its configuration.
proof fn lemma_listed_names(yaml: Seq<JudgeConfigView>, db: Seq<DynamicJudgeRowView>)
    requires
        rows_consistent(db),
    ensures
        names_match(listed(yaml, db)),
{
    let b = db.map_values(|r: DynamicJudgeRowView| shown_row(yaml, r));
    let all = listed(yaml, db);
    assert forall|i: int| 0 <= i < all.len() && (#[trigger] all[i]).config
        is Some implies all[i].config->0.name == all[i].name by {
        if i < yaml.len() {
            assert(all[i] == shown(yaml[i], db));
            lemma_last_row(db, yaml[i].name);
            if last_row(db, yaml[i].name) is Some {
                let row = last_row(db, yaml[i].name)->0;
                let j = choose|j: int| 0 <= j < db.len() && db[j] == row;
                assert(db[j].config is Some);
            }
        } else {
            let rest = seqs::somes(b);
            let a = rest[i - yaml.len()];
            assert(all[i] == a);
            assert(rest.contains(a));
            seqs::lemma_somes_contains(b, a);
            let j = choose|j: int| 0 <= j < b.len() && #[trigger] b[j] == Some(a);
            assert(shown_row(yaml, db[j]) == Some(a));
            assert(db[j].config is Some);
        }
    }
}

/// The list shows the judges that are found.
proof fn lemma_listed_judges(yaml: Seq<JudgeConfigView>, db: Seq<DynamicJudgeRowView>)
    ensures
        judges_of(listed(yaml, db)) == found(yaml, db),
{
    let f = |a: AdminJudgeView| in_force(a);
    let p = yaml.map_values(|c: JudgeConfigView| shown(c, db));
    let r = seqs::somes(db.map_values(|r: DynamicJudgeRowView| shown_row(yaml, r)));
    assert(p.map_values(f) =~= yaml.map_values(|c: JudgeConfigView| resolved(c, db)));
    lemma_rest_judges(yaml, db, db.len() as int);
    assert(db.take(db.len() as int) =~= db);
    assert((p + r).map_values(f) =~= p.map_values(f) + r.map_values(f));
    seqs::lemma_somes_add(p.map_values(f), r.map_values(f));
}

proof fn lemma_rest_judges(yaml: Seq<JudgeConfigView>, db: Seq<DynamicJudgeRowView>, n: int)
    requires
        0 <= n <= db.len(),
    ensures
        judges_of(
            seqs::somes(db.take(n).map_values(|r: DynamicJudgeRowView| shown_row(yaml, r))),
        ) == seqs::somes(db.take(n).map_values(|r: DynamicJudgeRowView| added(yaml, r))),
    decreases n,
{
    let f = |r: DynamicJudgeRowView| shown_row(yaml, r);
    let g = |r: DynamicJudgeRowView| added(yaml, r);
    if n == 0 {
        let rows = seqs::somes(db.take(0).map_values(f));
        assert(rows =~= Seq::empty());
        assert(judges_of(rows) =~= Seq::empty());
        assert(seqs::somes(db.take(0).map_values(g)) =~= Seq::empty());
    } else {
        lemma_rest_judges(yaml, db, n - 1);
        seqs::lemma_somes_step(db, f, n - 1);
        seqs::lemma_somes_step(db, g, n - 1);
        let row = db[n - 1];
        if f(row) is Some {
            lemma_judges_of_push(seqs::somes(db.take(n - 1).map_values(f)), f(row)->0);
        }
    }
}

/// The judges on the administrator's list are those in force, with their sources and in
/// the same order, and no other entry shows a configuration.
pub proof fn law_admin_lists_judges_in_force(
    yaml: Seq<JudgeConfigView>,
    db: Seq<DynamicJudgeRowView>,
    merged: Seq<MergedJudgeView>,
    rows: Seq<AdminJudgeView>,
)
    requires
        order::is_stable_sort(found(yaml, db), merged, merged_name()),
        order::is_stable_sort(listed(yaml, db), rows, admin_name()),
        rows_consistent(db),
    ensures
        judges_of(rows) == merged,
        configs_of(rows) == merged.map_values(|m: MergedJudgeView| m.config),
{
    let all = listed(yaml, db);
    lemma_listed_names(yaml, db);
    lemma_listed_judges(yaml, db);
    assert forall|i: int| 0 <= i < rows.len() implies all.contains(#[trigger] rows[i]) by {
        assert(rows.contains(rows[i]));
        order::lemma_stable_sort_contains(all, rows, admin_name(), rows[i]);
    }
    assert(names_match(rows)) by {
        assert forall|i: int| 0 <= i < rows.len() && (#[trigger] rows[i]).config
            is Some implies rows[i].config->0.name == rows[i].name by {
            assert(all.contains(rows[i]));
            let j = choose|j: int| 0 <= j < all.len() && all[j] == rows[i];
            assert(all[j].config is Some);
        }
    }
    lemma_judges_of_sorted(all);
    lemma_judges_of_sorted(rows);
    assert(order::is_stable_sort(judges_of(all), judges_of(rows), merged_name())) by {
        assert forall|k: Seq<char>| #[trigger]
            order::with_key(judges_of(rows), merged_name(), k) == order::with_key(
            judges_of(all),
            merged_name(),
            k,
        ) by {
            assert(order::with_key(rows, admin_name(), k) == order::with_key(
                all,
                admin_name(),
                k,
            ));
        }
    }
    order::law_stable_sort_is_unique(judges_of(all), judges_of(rows), merged, merged_name());
    let config_of = |m: MergedJudgeView| m.config;
    let lift = |o: Option<MergedJudgeView>| seqs::opt_map(o, config_of);
    let judges = rows.map_values(|a: AdminJudgeView| in_force(a));
    assert(rows.map_values(|a: AdminJudgeView| a.config) =~= judges.map_values(lift)) by {
        assert forall|i: int| 0 <= i < rows.len() implies (#[trigger] rows[i]).config == lift(
            judges[i],
        ) by {
            assert(all.contains(rows[i]));
            lemma_listed_sources(yaml, db, rows[i]);
        }
    }
    seqs::lemma_somes_map(judges, config_of);
}

/// A hidden judge is listed without a configuration.
proof fn lemma_listed_sources(
    yaml: Seq<JudgeConfigView>,
    db: Seq<DynamicJudgeRowView>,
    a: AdminJudgeView,
)
    requires
        listed(yaml, db).contains(a),
    ensures
        a.source is Tombstoned ==> a.config is None,
{
    let b = db.map_values(|r: DynamicJudgeRowView| shown_row(yaml, r));
    let all = listed(yaml, db);
    let i = choose|i: int| 0 <= i < all.len() && all[i] == a;
    if i < yaml.len() {
        assert(all[i] == shown(yaml[i], db));
    } else {
        let rest = seqs::somes(b);
        assert(all[i] == rest[i - yaml.len()]);
        assert(rest.contains(a));
        seqs::lemma_somes_contains(b, a);
        let j = choose|j: int| 0 <= j < b.len() && #[trigger] b[j] == Some(a);
        assert(shown_row(yaml, db[j]) == Some(a));
    }
}

/// How many rows are of names that are not declared.
pub open spec fn undeclared(yaml: Seq<JudgeConfigView>, db: Seq<DynamicJudgeRowView>) -> nat
    decreases db.len(),
{
    if db.len() == 0 {
        0
    } else {
        undeclared(yaml, db.drop_last()) + if declared(yaml, db.last().name) {
            0nat
        } else {
            1nat
        }
    }
}

/// Every row that is not disabled keeps a configuration.
pub open spec fn active_rows_configured(db: Seq<DynamicJudgeRowView>) -> bool {
    forall|i: int|
        0 <= i < db.len() && !(#[trigger] db[i]).disabled ==> db[i].config is Some
}

proof fn lemma_declared_accounted(
    yaml: Seq<JudgeConfigView>,
    db: Seq<DynamicJudgeRowView>,
    n: int,
)
    requires
        0 <= n <= yaml.len(),
        active_rows_configured(db),
    ensures
        seqs::somes(yaml.take(n).map_values(|c: JudgeConfigView| resolved(c, db))).len()
            + seqs::count_true(yaml.take(n).map_values(|c: JudgeConfigView| hidden(c, db))) == n,
    decreases n,
{
    let of = |c: JudgeConfigView| resolved(c, db);
    let hides = |c: JudgeConfigView| hidden(c, db);
    if n > 0 {
        lemma_declared_accounted(yaml, db, n - 1);
        seqs::lemma_somes_step(yaml, of, n - 1);
        seqs::lemma_count_true_step(yaml, hides, n - 1);
        lemma_last_row(db, yaml[n - 1].name);
        if last_row(db, yaml[n - 1].name) is Some {
            let row = last_row(db, yaml[n - 1].name)->0;
            let i = choose|i: int| 0 <= i < db.len() && db[i] == row;
            assert(db[i].disabled || db[i].config is Some);
        }
    }
}

proof fn lemma_rows_accounted(yaml: Seq<JudgeConfigView>, db: Seq<DynamicJudgeRowView>, n: int)
    requires
        0 <= n <= db.len(),
        active_rows_configured(db),
    ensures
        seqs::somes(db.take(n).map_values(|r: DynamicJudgeRowView| added(yaml, r))).len()
            + seqs::count_true(db.take(n).map_values(|r: DynamicJudgeRowView| idle(yaml, r)))
            == undeclared(yaml, db.take(n)),
    decreases n,
{
    let of = |r: DynamicJudgeRowView| added(yaml, r);
    let idles = |r: DynamicJudgeRowView| idle(yaml, r);
    if n > 0 {
        lemma_rows_accounted(yaml, db, n - 1);
        seqs::lemma_somes_step(db, of, n - 1);
        seqs::lemma_count_true_step(db, idles, n - 1);
        assert(db.take(n).drop_last() =~= db.take(n - 1));
        assert(db.take(n).last() == db[n - 1]);
        assert(db[n - 1].disabled || db[n - 1].config is Some);
    }
}

/// Every judge is accounted for: each that is declared, and each row of a name that is not,
/// is in force or counted as hidden, and none is both.
pub proof fn law_every_judge_is_counted(yaml: Seq<JudgeConfigView>, db: Seq<DynamicJudgeRowView>)
    requires
        active_rows_configured(db),
    ensures
        found(yaml, db).len() + tombstones(yaml, db) == yaml.len() + undeclared(yaml, db),
{
    lemma_declared_accounted(yaml, db, yaml.len() as int);
    lemma_rows_accounted(yaml, db, db.len() as int);
    assert(yaml.take(yaml.len() as int) =~= yaml);
    assert(db.take(db.len() as int) =~= db);
}

/// The report counts each judge in force once, under the source that it has.
pub proof fn law_report_counts_sources(
    report: MergeReport,
    judges: Seq<MergedJudgeView>,
    more: MergedJudgeView,
    hidden: nat,
    after: MergeReport,
)
    requires
        is_report(report, judges, hidden),
        is_report(after, judges.push(more), hidden),
    ensures
        after.tombstone_count == report.tombstone_count == hidden,
        after.yaml_count == report.yaml_count + if more.source == Source::Yaml {
            1int
        } else {
            0
        },
        after.override_count == report.override_count + if more.source == Source::Override {
            1int
        } else {
            0
        },
        after.dynamic_count == report.dynamic_count + if more.source == Source::Dynamic {
            1int
        } else {
            0
        },
{
    lemma_count_from_push(judges, more);
}

/// The administrator sees where each judge stands: a declared one as declared, as its row
/// has it, or hidden, and one that only the table has as its row has it, or hidden.
pub proof fn law_admin_shows_every_judge(
    yaml: Seq<JudgeConfigView>,
    db: Seq<DynamicJudgeRowView>,
    cfg: JudgeConfigView,
    row: DynamicJudgeRowView,
)
    requires
        rows_distinct(db),
    ensures
        yaml.contains(cfg) && (forall|i: int|
            0 <= i < db.len() ==> (#[trigger] db[i]).name != cfg.name) ==> listed(
            yaml,
            db,
        ).contains(
            AdminJudgeView {
                config: Some(cfg),
                name: cfg.name,
                source: AdminSource::Yaml,
                yaml_backed: true,
            },
        ),
        yaml.contains(cfg) && db.contains(row) && row.name == cfg.name && !row.disabled ==> listed(
            yaml,
            db,
        ).contains(
            AdminJudgeView {
                config: row.config,
                name: cfg.name,
                source: AdminSource::Override,
                yaml_backed: true,
            },
        ),
        yaml.contains(cfg) && db.contains(row) && row.name == cfg.name && row.disabled ==> listed(
            yaml,
            db,
        ).contains(
            AdminJudgeView {
                config: None,
                name: cfg.name,
                source: AdminSource::Tombstoned,
                yaml_backed: true,
            },
        ),
        db.contains(row) && !declared(yaml, row.name) && !row.disabled && row.config is Some
            ==> listed(yaml, db).contains(
            AdminJudgeView {
                config: row.config,
                name: row.name,
                source: AdminSource::Dynamic,
                yaml_backed: false,
            },
        ),
        db.contains(row) && !declared(yaml, row.name) && row.disabled ==> listed(
            yaml,
            db,
        ).contains(
            AdminJudgeView {
                config: None,
                name: row.name,
                source: AdminSource::Tombstoned,
                yaml_backed: false,
            },
        ),
{
    let front = yaml.map_values(|c: JudgeConfigView| shown(c, db));
    let rest = db.map_values(|r: DynamicJudgeRowView| shown_row(yaml, r));
    let all = listed(yaml, db);
    if yaml.contains(cfg) {
        let i = choose|i: int| 0 <= i < yaml.len() && yaml[i] == cfg;
        lemma_last_row(db, cfg.name);
        if last_row(db, cfg.name) is Some {
            let found = last_row(db, cfg.name)->0;
            let k = choose|k: int| 0 <= k < db.len() && db[k] == found;
            assert(db[k].name == cfg.name);
        }
        if db.contains(row) && row.name == cfg.name {
            let k = choose|k: int| 0 <= k < db.len() && db[k] == row;
            assert(last_row(db, cfg.name) == Some(db[k]));
        }
        assert(front[i] == shown(cfg, db));
        assert(all[i] == shown(cfg, db));
    }
    if db.contains(row) && shown_row(yaml, row) is Some {
        let i = choose|i: int| 0 <= i < db.len() && db[i] == row;
        assert(rest[i] is Some);
        seqs::lemma_somes_place(rest, i);
        let k = seqs::somes(rest.take(i)).len() as int;
        assert(all[front.len() + k] == shown_row(yaml, row)->0);
    }
}

/// The judges in force come in the order of their names, and so does the administrator's
/// list.
pub proof fn law_judges_come_by_name(
    found: Seq<MergedJudgeView>,
    merged: Seq<MergedJudgeView>,
    listed: Seq<AdminJudgeView>,
    rows: Seq<AdminJudgeView>,
    i: int,
    j: int,
)
    requires
        order::is_stable_sort(found, merged, merged_name()),
        order::is_stable_sort(listed, rows, admin_name()),
        0 <= i < j,
    ensures
        j < merged.len() ==> !crate::text::text_lt(merged[j].config.name, merged[i].config.name),
        j < rows.len() ==> !crate::text::text_lt(rows[j].name, rows[i].name),
{
    if j < merged.len() {
        assert(!crate::text::text_lt(merged_name()(merged[j]), merged_name()(merged[i])));
    }
    if j < rows.len() {
        assert(!crate::text::text_lt(admin_name()(rows[j]), admin_name()(rows[i])));
    }
}

/// The configurations in force come by name.
pub proof fn law_configs_come_by_name(
    found: Seq<JudgeConfigView>,
    sorted: Seq<JudgeConfigView>,
    i: int,
    j: int,
)
    requires
        order::is_stable_sort(found, sorted, config_name()),
        0 <= i < j < sorted.len(),
    ensures
        !crate::text::text_lt(sorted[j].name, sorted[i].name),
        found.contains(sorted[i]),
{
    assert(!crate::text::text_lt(config_name()(sorted[j]), config_name()(sorted[i])));
    order::lemma_stable_sort_contains(found, sorted, config_name(), sorted[i]);
}

} // verus!
