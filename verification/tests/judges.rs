//! Judges: sampling, scoring, the tables behind them and the admin views.
use std::collections::hash_map::DefaultHasher;
use std::hash::{Hash, Hasher};

use coulisse::fences::json_in;
use coulisse::floats::Single;
use coulisse::ids::{MessageId, UserId};
use coulisse::judges::admin::{
    build_matrix, edit_form, group_by_criterion, judge_json, judge_path, judge_row, listed_configs,
    new_form, parse_user_id, remove_judge, reset_judge, scores_means, update_judge, week_before,
    AdminError, JudgeDetailRow, JudgeListRow, Removal, ScoreRowMean, ScoresPanel, SourceLabel,
};
use coulisse::judges::config::{DynamicJudgeRow, JudgeConfig};
use coulisse::judges::judge::{
    build_preamble, clamp_score, parse_scores, Judge, JudgeBuildError, ParseScoresError, RawScore,
    ScoreId, ScoredExchange,
};
use coulisse::judges::merge::{admin_view, merge, AdminSource, MergeReport, Source};
use coulisse::judges::store::{
    rebuild_judges, row_to_dynamic_judge, row_to_score, score_to_row, upgrade_from,
    AgentCriterionCell, JudgeColumns, JudgeStoreError, JudgeVolume, Judges,
};
use coulisse::names::{NameMap, OrderedMap};

const NOW: u64 = 1_700_000_000;

fn single(value: f32) -> Single {
    Single::from_bits(value.to_bits())
}

fn value(s: Single) -> f32 {
    f32::from_bits(s.bits)
}

fn rubrics(all: &[(&str, &str)]) -> OrderedMap<String> {
    let mut map = OrderedMap::new();
    for (k, v) in all {
        map.insert(k.to_string(), v.to_string());
    }
    map
}

fn config(all: &[(&str, &str)], rate: f32, provider: &str) -> JudgeConfig {
    JudgeConfig {
        model: "gpt-mini".into(),
        name: "quality".into(),
        provider: provider.into(),
        rubrics: rubrics(all),
        sampling_rate: single(rate),
    }
}

fn named(name: &str, model: &str) -> JudgeConfig {
    JudgeConfig { name: name.into(), model: model.into(), ..config(&[("a", "b")], 1.0, "openai") }
}

fn judge(rate: f32) -> Judge {
    Judge::from_config(&config(&[("a", "b")], rate, "openai")).unwrap()
}

#[test]
fn from_config_rejects_empty_rubrics() {
    let cfg = config(&[], 1.0, "openai");
    assert!(matches!(Judge::from_config(&cfg), Err(JudgeBuildError::NoRubrics { .. })));
}

#[test]
fn from_config_rejects_out_of_range_sampling_rate() {
    let cfg = config(&[("a", "b")], 1.5, "openai");
    assert!(matches!(
        Judge::from_config(&cfg),
        Err(JudgeBuildError::InvalidSamplingRate { value: rate, .. })
            if (value(rate) - 1.5).abs() < f32::EPSILON,
    ));
    for bad in [-0.1, f32::NAN, f32::INFINITY] {
        assert!(Judge::from_config(&config(&[("a", "b")], bad, "openai")).is_err(), "{bad}");
    }
}

#[test]
fn sampling_rate_one_always_samples() {
    let judge = judge(1.0);
    for _ in 0..50 {
        assert!(judge.should_sample(MessageId::new()));
    }
}

#[test]
fn sampling_rate_zero_never_samples() {
    for zero in [0.0, -0.0] {
        let judge = judge(zero);
        for _ in 0..50 {
            assert!(!judge.should_sample(MessageId::new()));
        }
    }
}

#[test]
fn sampling_is_replayable_per_message() {
    let judge = judge(0.5);
    for _ in 0..50 {
        let message_id = MessageId::new();
        let first = judge.should_sample(message_id);
        assert_eq!(judge.should_sample(message_id), first);
    }
}

#[test]
fn sampling_fraction_converges_on_rate() {
    let judge = judge(0.3);
    let sampled = (0..4000).filter(|_| judge.should_sample(MessageId::new())).count();
    assert!((900..=1500).contains(&sampled), "sampled {sampled} of 4000");
}

#[test]
fn sampling_draws_from_the_hash() {
    for rate in [0.1f32, 0.25, 0.3, 0.5, 0.9999, 1e-7] {
        let judge = judge(rate);
        for _ in 0..200 {
            let id = MessageId::new();
            let mut hasher = DefaultHasher::new();
            uuid::Uuid::from_u128(id.0).hash(&mut hasher);
            "quality".hash(&mut hasher);
            let draw = (hasher.finish() >> 40) as f32 / (1u32 << 24) as f32;
            assert_eq!(judge.should_sample(id), draw < rate, "{rate} {draw}");
        }
    }
}

#[test]
fn preamble_lists_criteria_alphabetically() {
    let cfg = config(&[("zebra", "z desc"), ("alpha", "a desc")], 1.0, "openai");
    let judge = Judge::from_config(&cfg).unwrap();
    let alpha_pos = judge.preamble.find("alpha").unwrap();
    let zebra_pos = judge.preamble.find("zebra").unwrap();
    assert!(alpha_pos < zebra_pos);
    assert_eq!(judge.criteria, vec!["alpha", "zebra"]);
    assert_eq!(judge.preamble, build_preamble(&cfg.rubrics));
}

/// The scores in an answer, with its JSON text read as a map of scores.
fn read_scores(answer: &str) -> Result<NameMap<RawScore>, ParseScoresError> {
    let parsed = match json_in(answer) {
        Some(body) => serde_json::from_str::<serde_json::Value>(&body)
            .map_err(|e| e.to_string())
            .map(|v| {
                let mut map = NameMap::new();
                for (name, entry) in v.as_object().unwrap() {
                    let score = RawScore {
                        reasoning: entry["reasoning"].as_str().unwrap().to_string(),
                        score: single(entry["score"].as_f64().unwrap() as f32),
                    };
                    map.insert(name.clone(), score);
                }
                map
            }),
        None => Err(String::new()),
    };
    parse_scores(answer, parsed)
}

#[test]
fn parse_scores_accepts_raw_json() {
    let text = r#"{"clarity": {"score": 8, "reasoning": "clear"}}"#;
    let parsed = read_scores(text).unwrap();
    assert_eq!(parsed.len(), 1);
    assert!((value(parsed.get("clarity").unwrap().score) - 8.0).abs() < f32::EPSILON);
    assert_eq!(parsed.get("clarity").unwrap().reasoning, "clear");
}

#[test]
fn parse_scores_strips_code_fences() {
    let text = "```json\n{\"clarity\": {\"score\": 7, \"reasoning\": \"ok\"}}\n```";
    let parsed = read_scores(text).unwrap();
    assert_eq!(parsed.len(), 1);
}

#[test]
fn parse_scores_errors_on_empty() {
    assert!(matches!(read_scores(""), Err(ParseScoresError::Empty)));
    assert!(matches!(read_scores("   "), Err(ParseScoresError::Empty)));
    assert!(matches!(read_scores("```json\n```"), Err(ParseScoresError::Empty)));
}

#[test]
fn parse_scores_errors_on_non_json() {
    assert!(matches!(
        read_scores("not json"),
        Err(ParseScoresError::NonJson { text, source }) if text == "not json" && !source.is_empty()
    ));
}

#[test]
fn clamp_score_bounds_to_0_10() {
    let clamp = |x: f32| value(clamp_score(single(x)));
    assert!((clamp(-3.0) - 0.0).abs() < f32::EPSILON);
    assert!((clamp(15.0) - 10.0).abs() < f32::EPSILON);
    assert!((clamp(5.5) - 5.5).abs() < f32::EPSILON);
    assert!((clamp(f32::NAN) - 0.0).abs() < f32::EPSILON);
    assert_eq!(clamp(f32::INFINITY), 10.0);
    assert_eq!(clamp(10.0), 10.0);
}

#[test]
fn singles_compare_as_floats_do() {
    let all = [
        f32::NEG_INFINITY,
        -2.5,
        -1e-40,
        -0.0,
        0.0,
        1e-45,
        0.3,
        1.0,
        f32::MAX,
        f32::INFINITY,
        f32::NAN,
    ];
    for a in all {
        for b in all {
            assert_eq!(single(a).less_than(single(b)), a < b, "{a} < {b}");
            assert_eq!(single(a).at_most(single(b)), a <= b, "{a} <= {b}");
        }
        assert_eq!(single(a).nan(), a.is_nan());
    }
}

fn exchange() -> ScoredExchange {
    ScoredExchange {
        agent_name: "helper".to_string(),
        assistant_message: "4".to_string(),
        message_id: MessageId(5),
        user_id: UserId(6),
        user_message: "2+2?".to_string(),
    }
}

#[test]
fn exchange_is_quoted_to_the_judge() {
    assert_eq!(
        Judge::user_text(&exchange()),
        "User message:\n2+2?\n\nAssistant reply:\n4\n\nReturn the JSON object now."
    );
}

fn scores() -> Vec<coulisse::judges::judge::Score> {
    let judge =
        Judge::from_config(&config(&[("b", "x"), ("a", "y"), ("c", "z")], 1.0, "openai")).unwrap();
    let mut raw = NameMap::new();
    raw.insert("b".to_string(), RawScore { reasoning: "rb".to_string(), score: single(12.0) });
    raw.insert("a".to_string(), RawScore { reasoning: "ra".to_string(), score: single(3.5) });
    raw.insert("odd".to_string(), RawScore { reasoning: "ro".to_string(), score: single(1.0) });
    judge.score(&exchange(), &raw, NOW)
}

#[test]
fn scores_cover_the_known_criteria() {
    let scores = scores();
    let pairs: Vec<(&str, f32)> =
        scores.iter().map(|s| (s.criterion.as_str(), value(s.score))).collect();
    assert_eq!(pairs, vec![("a", 3.5), ("b", 10.0)]);
    assert_eq!(scores[0].judge_name, "quality");
    assert_eq!(scores[0].judge_model, "gpt-mini");
    assert_eq!(scores[0].reasoning, "ra");
    assert_eq!(scores[0].created_at, NOW);
    assert_eq!(scores[0].agent_name, "helper");
    assert_eq!(scores[0].message_id, MessageId(5));
    assert_eq!(scores[0].user_id, UserId(6));
    assert!(scores[0].id != scores[1].id);
}

#[test]
fn score_rows_round_trip() {
    let scores = scores();
    for score in &scores {
        let back = row_to_score(score_to_row(score)).unwrap();
        assert_eq!(back.criterion, score.criterion);
        assert_eq!(back.score, score.score);
        assert_eq!(back.created_at, score.created_at);
        assert!(back.id == score.id);
        assert_eq!(back.message_id, score.message_id);
        assert_eq!(back.user_id, score.user_id);
    }
    let mut row = score_to_row(&scores[0]);
    row.user_id = "nobody".to_string();
    assert!(matches!(row_to_score(row), Err(JudgeStoreError::RowDecode(_))));
    assert!(ScoreId(1) != ScoreId(2));
}

fn active(cfg: JudgeConfig) -> DynamicJudgeRow {
    DynamicJudgeRow {
        name: cfg.name.clone(),
        config: Some(cfg),
        created_at: 1,
        disabled: false,
        updated_at: 2,
    }
}

fn tombstone(name: &str) -> DynamicJudgeRow {
    DynamicJudgeRow {
        config: None,
        created_at: 1,
        disabled: true,
        name: name.to_string(),
        updated_at: 2,
    }
}

#[test]
fn merged_judges_come_by_name_with_their_sources() {
    let yaml = [named("b", "yb"), named("d", "yd"), named("c", "yc")];
    let db = [active(named("a", "da")), active(named("b", "db")), tombstone("c"), tombstone("x")];
    let (merged, report) = merge(&yaml, &db);
    let seen: Vec<(&str, &str, Source)> =
        merged.iter().map(|m| (m.config.name.as_str(), m.config.model.as_str(), m.source)).collect();
    assert_eq!(
        seen,
        vec![
            ("a", "da", Source::Dynamic),
            ("b", "db", Source::Override),
            ("d", "yd", Source::Yaml),
        ]
    );
    assert_eq!(report.dynamic_count, 1);
    assert_eq!(report.override_count, 1);
    assert_eq!(report.yaml_count, 1);
    assert!(report.tombstone_count >= 1);
    assert_eq!(MergeReport::default().yaml_count, 0);
    let (configs, again) = rebuild_judges(&yaml, &db);
    assert_eq!(again, report);
    assert_eq!(configs.len(), 3);
    let sources: Vec<(String, AdminSource)> =
        admin_view(&yaml, &db).into_iter().map(|j| (j.name, j.source)).collect();
    assert!(sources.contains(&("c".to_string(), AdminSource::Tombstoned)));
    assert!(sources.contains(&("b".to_string(), AdminSource::Override)));
    assert!(sources.contains(&("a".to_string(), AdminSource::Dynamic)));
    assert!(sources.contains(&("d".to_string(), AdminSource::Yaml)));
    let listed: Vec<(String, String)> = admin_view(&yaml, &db)
        .into_iter()
        .filter_map(|j| j.config.map(|c| (c.name, c.model)))
        .collect();
    let in_force: Vec<(String, String)> =
        merged.iter().map(|m| (m.config.name.clone(), m.config.model.clone())).collect();
    assert_eq!(listed, in_force);
}

#[test]
fn judge_table_keeps_the_last_write() {
    let mut judges = Judges::new();
    judges.put_active_dynamic("b", &named("b", "m1"), 10);
    judges.put_active_dynamic("a", &named("a", "m2"), 11);
    judges.put_active_dynamic("b", &named("b", "m3"), 12);
    let rows = judges.list_dynamic();
    assert_eq!(rows.iter().map(|r| r.name.as_str()).collect::<Vec<_>>(), vec!["a", "b"]);
    assert_eq!(rows[1].config.as_ref().unwrap().model, "m3");
    assert_eq!(rows[1].created_at, 10);
    assert_eq!(rows[1].updated_at, 12);
    judges.put_tombstone_dynamic("b", 13);
    assert!(judges.list_dynamic()[1].disabled);
    assert!(judges.delete_dynamic("b"));
    assert!(!judges.delete_dynamic("b"));
    assert_eq!(judges.list_dynamic().len(), 1);
}

#[test]
fn stored_judge_rows_are_decoded() {
    let columns = |config, disabled| JudgeColumns {
        config,
        created_at: 1,
        disabled,
        name: "quality".to_string(),
        updated_at: 2,
    };
    let row = row_to_dynamic_judge(columns(Some(Ok(named("quality", "m"))), 0)).unwrap();
    assert!(!row.disabled);
    assert_eq!(row.config.unwrap().model, "m");
    assert!(row_to_dynamic_judge(columns(None, 1)).unwrap().disabled);
    assert!(matches!(
        row_to_dynamic_judge(columns(Some(Err("bad".to_string())), 0)),
        Err(JudgeStoreError::RowDecode(e)) if e.contains("bad")
    ));
    assert!(!upgrade_from("0.1.0").is_empty());
    assert!(JudgeStoreError::Database("x".to_string()).to_text().contains('x'));
}

#[test]
fn counts_are_clamped_when_read() {
    assert_eq!(JudgeVolume::from_row("j".to_string(), -1).count, 0);
    assert_eq!(JudgeVolume::from_row("j".to_string(), i64::MAX).count, u32::MAX);
    let cell = AgentCriterionCell::from_row("a".into(), "c".into(), single(1.0), 3);
    assert_eq!(cell.samples, 3);
}

#[test]
fn removing_depends_on_where_the_judge_comes_from() {
    let yaml = [named("y", "m")];
    let db = [active(named("d", "m"))];
    assert_eq!(remove_judge(&yaml, &db, "y").unwrap(), Removal::Tombstone);
    assert_eq!(remove_judge(&yaml, &db, "d").unwrap(), Removal::Delete);
    assert!(matches!(remove_judge(&yaml, &db, "z"), Err(AdminError::NotFound)));
    assert!(update_judge("y", &named("y", "m")).is_ok());
    assert!(matches!(update_judge("y", &named("z", "m")), Err(AdminError::BadRequest(_))));
    assert!(reset_judge(true).is_ok());
    assert!(matches!(reset_judge(false), Err(AdminError::NotFound)));
}

#[test]
fn admin_pages_find_their_judge() {
    let yaml = [named("y", "m"), named("t", "m")];
    let rows = admin_view(&yaml, &[tombstone("t")]);
    assert_eq!(judge_row(&rows, "y").unwrap().name, "y");
    assert!(matches!(judge_row(&rows, "z"), Err(AdminError::NotFound)));
    assert_eq!(judge_json(&rows, "y").unwrap().model, "m");
    assert!(edit_form(&rows, "z").is_err());
    assert!(listed_configs(&rows).iter().any(|c| c.name == "y"));
    let detail = JudgeDetailRow::from_admin(judge_row(&rows, "y").unwrap());
    assert_eq!(detail.rubrics[0].name, "a");
    assert_eq!(detail.rubrics[0].description, "b");
    let volumes = [JudgeVolume { count: 7, judge_name: "y".to_string() }];
    let listed = JudgeListRow::from_admin(judge_row(&rows, "y").unwrap(), &volumes);
    assert_eq!(listed.score_count_7d, 7);
    assert_eq!(listed.criteria_count, 1);
    assert!(!listed.tombstoned);
    let hidden = JudgeListRow::from_admin(judge_row(&rows, "t").unwrap(), &volumes);
    assert!(hidden.tombstoned);
    assert_eq!(hidden.score_count_7d, 0);
}

#[test]
fn scores_are_grouped_and_listed() {
    let scores = scores();
    let groups = group_by_criterion(&scores);
    assert_eq!(groups.len(), 2);
    assert_eq!(groups[0].criterion, "a");
    assert_eq!(groups[0].scores, vec![single(3.5)]);
    let panel = ScoresPanel::build(&scores, NOW + 120);
    assert_eq!(panel.averages.len(), 2);
    assert_eq!(panel.recent.len(), 2);
    assert_eq!(panel.recent[0].created_at, "2m ago");
    let means = scores_means(vec![
        ScoreRowMean { agent: "b".to_string(), mean: single(1.0), samples: 1 },
        ScoreRowMean { agent: "a".to_string(), mean: single(2.0), samples: 2 },
    ]);
    assert_eq!(means[0].agent, "a");
}

#[test]
fn matrix_has_a_cell_for_each_pair() {
    let cell = |agent: &str, criterion: &str, mean: f32| AgentCriterionCell {
        agent_name: agent.to_string(),
        criterion: criterion.to_string(),
        mean: single(mean),
        samples: 1,
    };
    let matrix =
        build_matrix(&[cell("z", "b", 8.0), cell("a", "c", 5.0), cell("a", "b", 1.0)]);
    assert_eq!(matrix.criteria, vec!["b", "c"]);
    assert_eq!(matrix.rows.len(), 2);
    assert_eq!(matrix.rows[0].agent_name, "a");
    assert_eq!(matrix.rows[0].cells[0].mean, Some(single(1.0)));
    assert_eq!(matrix.rows[0].cells[1].mean, Some(single(5.0)));
    assert_eq!(matrix.rows[1].cells[1].mean, None);
    assert_eq!(matrix.rows[1].cells[1].samples, 0);
    let classes: Vec<&str> = vec![
        matrix.rows[0].cells[0].color_class,
        matrix.rows[0].cells[1].color_class,
        matrix.rows[1].cells[0].color_class,
    ];
    assert_ne!(classes[0], classes[1]);
    assert_ne!(classes[1], classes[2]);
}

#[test]
fn admin_errors_have_statuses() {
    assert_eq!(AdminError::NotFound.status(), 404);
    assert_eq!(AdminError::InvalidUserId.status(), 400);
    assert_eq!(AdminError::BadRequest("x".to_string()).status(), 400);
    assert_eq!(AdminError::Judge("x".to_string()).status(), 500);
    assert!(matches!(parse_user_id("nobody"), Err(AdminError::InvalidUserId)));
    assert_eq!(
        parse_user_id("00000000-0000-0000-0000-00000000002a").unwrap(),
        UserId(42)
    );
}

#[test]
fn small_admin_helpers() {
    assert_eq!(week_before(604_800 + 5), 5);
    assert_eq!(week_before(3), 0);
    assert!(judge_path("q").ends_with("/q"), "{}", judge_path("q"));
    assert!(new_form().contains("rubrics"));
    assert_eq!(SourceLabel::from_admin(AdminSource::Yaml).as_str(), "yaml");
    let e = JudgeBuildError::NoRubrics { judge: "q".to_string() };
    assert!(e.to_text("").contains('q'));
}
