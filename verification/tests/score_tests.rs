use cookbook_qualify::score::{grade_min_char, ForjarOutcome};
use cookbook_qualify::{
    DimensionScores, ForjarScore, Grade, IdempotencyClass, RecipeStatus, RuntimeData,
    ScoringInput, SCORE_VERSION,
};

fn sample_yaml() -> &'static str {
    "\
# Recipe: Test Recipe
# Tier: 2+3
# Idempotency: Strong
version: '1.0'
name: test-recipe
description: A test recipe
resources:
  my-file:
    type: file
    path: /tmp/test
    mode: '0644'
    owner: root
    content: hello
"
}

fn outcome(static_grade: char, runtime_grade: Option<char>) -> ForjarOutcome {
    let codes = ["COR", "IDM", "PRF", "SAF", "OBS", "DOC", "RES", "CMP"];
    ForjarOutcome {
        dimensions: codes
            .iter()
            .enumerate()
            .map(|(i, c)| (c.to_string(), 10 * (u32::try_from(i).unwrap_or(0) + 1)))
            .collect(),
        composite: 77,
        static_grade,
        runtime_grade,
    }
}

#[test]
fn grade_from_csv_all_variants() {
    assert_eq!(Grade::from_csv("A").unwrap(), Grade::A);
    assert_eq!(Grade::from_csv("b").unwrap(), Grade::B);
    assert_eq!(Grade::from_csv(" C ").unwrap(), Grade::C);
    assert_eq!(Grade::from_csv("d").unwrap(), Grade::D);
    assert_eq!(Grade::from_csv("F").unwrap(), Grade::F);
    assert_eq!(Grade::from_csv("").unwrap(), Grade::F);
    assert!(Grade::from_csv("X").is_err());
}

#[test]
fn grade_from_csv_error_text() {
    assert_eq!(Grade::from_csv(" x "), Err("unknown grade: X".to_string()));
    assert_eq!(Grade::from_csv("   "), Ok(Grade::F));
}

#[test]
fn grade_as_str() {
    assert_eq!(Grade::A.as_str(), "A");
    assert_eq!(Grade::F.as_str(), "F");
}

#[test]
fn grade_as_str_roundtrip() {
    for g in [Grade::A, Grade::B, Grade::C, Grade::D, Grade::F] {
        assert_eq!(Grade::from_csv(g.as_str()), Ok(g));
        assert_eq!(Grade::from_char(g.as_str().chars().next().unwrap_or('?')), g);
    }
}

#[test]
fn grade_badge() {
    assert!(Grade::A.badge().contains("brightgreen"));
    assert!(Grade::F.badge().contains("red"));
}

#[test]
fn grade_badge_exact() {
    assert_eq!(Grade::B.badge(), "![B](https://img.shields.io/badge/B-blue)");
    assert_eq!(Grade::C.badge(), "![C](https://img.shields.io/badge/C-yellow)");
    assert_eq!(Grade::D.badge(), "![D](https://img.shields.io/badge/D-orange)");
}

#[test]
fn grade_from_char() {
    assert_eq!(Grade::from_char('A'), Grade::A);
    assert_eq!(Grade::from_char('B'), Grade::B);
    assert_eq!(Grade::from_char('C'), Grade::C);
    assert_eq!(Grade::from_char('D'), Grade::D);
    assert_eq!(Grade::from_char('F'), Grade::F);
    assert_eq!(Grade::from_char('Z'), Grade::F);
}

#[test]
fn dimension_scores_min() {
    let d = DimensionScores { cor: 100, idm: 90, prf: 80, saf: 70, obs: 60, doc: 50, res: 40, cmp: 30 };
    assert_eq!(d.min_score(), 30);
}

#[test]
fn dimension_scores_min_in_the_middle() {
    let d = DimensionScores { cor: 100, idm: 90, prf: 80, saf: 7, obs: 60, doc: 50, res: 40, cmp: 30 };
    assert_eq!(d.min_score(), 7);
}

#[test]
fn compute_invalid_yaml() {
    let input = ScoringInput {
        status: &RecipeStatus::Qualified,
        idempotency_class: &IdempotencyClass::Strong,
        raw_yaml: "{{invalid yaml!!",
        budget_ms: 0,
        runtime: None,
    };
    let score = ForjarScore::compute(&input);
    assert_eq!(score.grade, Grade::F);
    assert_eq!(score.composite, 0);
    assert!(!score.penalties.is_empty());
    assert_eq!(score.penalties[0].dimension, "ALL");
    assert_eq!(score.penalties[0].points, 100);
    assert_eq!(score.penalties[0].reason, "YAML parse failure");
    assert_eq!(score.version, "2.0");
}

#[test]
fn compute_qualified_recipe() {
    let input = ScoringInput {
        status: &RecipeStatus::Qualified,
        idempotency_class: &IdempotencyClass::Strong,
        raw_yaml: sample_yaml(),
        budget_ms: 0,
        runtime: None,
    };
    let score = ForjarScore::compute(&input);
    assert!(score.dimensions.saf > 0, "SAF should be > 0");
    assert!(score.dimensions.obs > 0, "OBS should be > 0");
}

#[test]
fn compute_pending_gets_real_grade() {
    let input = ScoringInput {
        status: &RecipeStatus::Pending,
        idempotency_class: &IdempotencyClass::Strong,
        raw_yaml: sample_yaml(),
        budget_ms: 0,
        runtime: None,
    };
    let score = ForjarScore::compute(&input);
    assert!(score.dimensions.saf > 0);
    assert!(score.dimensions.doc > 0);
}

#[test]
fn compute_blocked_gets_real_dimensions() {
    let input = ScoringInput {
        status: &RecipeStatus::Blocked,
        idempotency_class: &IdempotencyClass::Strong,
        raw_yaml: sample_yaml(),
        budget_ms: 0,
        runtime: None,
    };
    let score = ForjarScore::compute(&input);
    assert!(score.dimensions.saf > 0, "blocked should still compute static dims");
}

#[test]
fn compute_with_runtime_data() {
    let rt = RuntimeData {
        validate_pass: true,
        plan_pass: true,
        first_apply_pass: true,
        second_apply_pass: true,
        zero_changes: true,
        hash_stable: true,
        changed_on_reapply: 0,
        warning_count: 0,
        first_apply_ms: 5000,
        idempotent_apply_ms: 200,
        state_lock_written: true,
        all_resources_converged: true,
    };
    let input = ScoringInput {
        status: &RecipeStatus::Qualified,
        idempotency_class: &IdempotencyClass::Strong,
        raw_yaml: sample_yaml(),
        budget_ms: 60000,
        runtime: Some(&rt),
    };
    let score = ForjarScore::compute(&input);
    assert!(score.dimensions.cor > 0, "COR should score with runtime");
    assert!(score.dimensions.idm > 0, "IDM should score with runtime");
    assert!(score.dimensions.prf > 0, "PRF should score with budget+runtime");
    assert!(score.runtime_grade.is_some());
    assert!(score.grade.as_str() >= score.static_grade.as_str());
}

#[test]
fn compute_without_runtime_has_no_runtime_grade() {
    let input = ScoringInput {
        status: &RecipeStatus::Qualified,
        idempotency_class: &IdempotencyClass::Strong,
        raw_yaml: sample_yaml(),
        budget_ms: 0,
        runtime: None,
    };
    let score = ForjarScore::compute(&input);
    assert!(score.runtime_grade.is_none());
    assert_eq!(score.grade, score.static_grade);
    assert_eq!(score.dimensions.cor, 0);
    assert_eq!(score.dimensions.prf, 0);
    assert!(score.penalties.is_empty());
    assert_eq!(score.version, SCORE_VERSION);
}

#[test]
fn from_outcome_takes_lower_grade_and_looks_up_codes() {
    let score = ForjarScore::from_outcome(&outcome('B', Some('D')));
    assert_eq!(score.grade, Grade::D);
    assert_eq!(score.static_grade, Grade::B);
    assert_eq!(score.runtime_grade, Some(Grade::D));
    assert_eq!(score.composite, 77);
    assert_eq!(
        score.dimensions,
        DimensionScores { cor: 10, idm: 20, prf: 30, saf: 40, obs: 50, doc: 60, res: 70, cmp: 80 }
    );
    assert_eq!(score.version, "2.0");

    let score = ForjarScore::from_outcome(&outcome('C', None));
    assert_eq!(score.grade, Grade::C);
    assert_eq!(score.runtime_grade, None);

    let score = ForjarScore::from_outcome(&outcome('A', Some('A')));
    assert_eq!(score.grade, Grade::A);
}

#[test]
fn from_forjar_missing_codes_are_zero() {
    let dims = vec![("DOC".to_string(), 42), ("XYZ".to_string(), 9), ("DOC".to_string(), 1)];
    let d = DimensionScores::from_forjar(&dims);
    assert_eq!(d, DimensionScores { cor: 0, idm: 0, prf: 0, saf: 0, obs: 0, doc: 42, res: 0, cmp: 0 });
}

#[test]
fn score_version_is_v2() {
    assert_eq!(SCORE_VERSION, "2.0");
}

#[test]
fn score_version_is_set() {
    assert!(!SCORE_VERSION.is_empty());
}

#[test]
fn grade_boundaries() {
    assert_eq!(Grade::from_csv("A"), Ok(Grade::A));
    assert_eq!(Grade::from_csv("B"), Ok(Grade::B));
    assert_eq!(Grade::from_csv("C"), Ok(Grade::C));
    assert_eq!(Grade::from_csv("D"), Ok(Grade::D));
    assert_eq!(Grade::from_csv("F"), Ok(Grade::F));
    assert!(Grade::from_csv("X").is_err());
}

#[test]
fn grade_min_char_tests() {
    assert_eq!(grade_min_char('A', 'A'), 'A');
    assert_eq!(grade_min_char('A', 'B'), 'B');
    assert_eq!(grade_min_char('B', 'A'), 'B');
    assert_eq!(grade_min_char('A', 'F'), 'F');
    assert_eq!(grade_min_char('C', 'D'), 'D');
}

#[test]
fn grade_min_char_is_symmetric_and_idempotent() {
    let letters = ['A', 'B', 'C', 'D', 'F', 'Q'];
    for a in letters {
        for b in letters {
            assert_eq!(grade_min_char(a, b), grade_min_char(b, a));
        }
        assert_eq!(grade_min_char(a, a), if a == 'Q' { 'F' } else { a });
    }
}

#[test]
fn runtime_data_default_is_all_failed() {
    let rt = RuntimeData::default();
    assert!(!rt.validate_pass && !rt.plan_pass && !rt.first_apply_pass);
    assert_eq!(rt.first_apply_ms, 0);
    assert_eq!(rt.warning_count, 0);
}
