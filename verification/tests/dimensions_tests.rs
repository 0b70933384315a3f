use cookbook_qualify::qualify::{IdempotencyClass, RecipeStatus};
use cookbook_qualify::recipe_score::config::{
    NamedValue, PolicyConfig, RecipeConfig, YamlEntry, YamlTagged, YamlValue,
};
use cookbook_qualify::recipe_score::dimensions::{
    score_cmp, score_cor, score_doc, score_idm, score_obs, score_prf, score_res, score_saf,
};
use cookbook_qualify::recipe_score::{ForjarScore, ScoringInput, SAFETY_CRITICAL_CAP};
use cookbook_qualify::{Grade, RuntimeData};

fn minimal_config() -> RecipeConfig {
    RecipeConfig {
        name: "test-recipe".to_string(),
        version: "1.0".to_string(),
        description: None,
        machines: Vec::new(),
        resources: Vec::new(),
        params: None,
        failure: None,
        outputs: None,
        tripwire: None,
        includes: None,
        pre_apply: None,
        post_apply: None,
        notify: None,
        ssh_retries: None,
        lock_file: None,
        policy: None,
    }
}

fn full_runtime() -> RuntimeData {
    RuntimeData {
        validate_pass: true,
        plan_pass: true,
        first_apply_pass: true,
        second_apply_pass: true,
        zero_changes: true,
        hash_stable: true,
        changed_on_reapply: 0,
        warning_count: 0,
        first_apply_ms: 30000,
        idempotent_apply_ms: 1200,
        state_lock_written: true,
        all_resources_converged: true,
    }
}

fn yaml_value(v: &serde_yaml_ng::Value) -> YamlValue {
    match v {
        serde_yaml_ng::Value::Null => YamlValue::Null,
        serde_yaml_ng::Value::Bool(b) => YamlValue::Bool(*b),
        serde_yaml_ng::Value::Number(n) => YamlValue::Number(n.to_string()),
        serde_yaml_ng::Value::String(s) => YamlValue::String(s.clone()),
        serde_yaml_ng::Value::Sequence(s) => YamlValue::Sequence(s.iter().map(yaml_value).collect()),
        serde_yaml_ng::Value::Mapping(m) => YamlValue::Mapping(
            m.iter().map(|(k, v)| YamlEntry { key: yaml_value(k), value: yaml_value(v) }).collect(),
        ),
        serde_yaml_ng::Value::Tagged(t) => YamlValue::Tagged(Box::new(YamlTagged {
            tag: t.tag.to_string().trim_start_matches('!').to_string(),
            value: yaml_value(&t.value),
        })),
    }
}

fn text(m: &serde_yaml_ng::Mapping, key: &str) -> Option<String> {
    m.get(key).and_then(|v| v.as_str()).map(str::to_string)
}

fn value(m: &serde_yaml_ng::Mapping, key: &str) -> Option<YamlValue> {
    m.get(key).map(yaml_value)
}

fn retries(m: &serde_yaml_ng::Mapping) -> Option<u32> {
    m.get("ssh_retries").and_then(serde_yaml_ng::Value::as_u64).and_then(|n| u32::try_from(n).ok())
}

fn named(m: &serde_yaml_ng::Mapping, key: &str) -> Vec<NamedValue> {
    match m.get(key).and_then(serde_yaml_ng::Value::as_mapping) {
        Some(entries) => entries
            .iter()
            .map(|(k, v)| NamedValue {
                name: k.as_str().unwrap_or_default().to_string(),
                value: yaml_value(v),
            })
            .collect(),
        None => Vec::new(),
    }
}

/// The recipe configuration that a YAML document describes.
fn config_from_yaml(yaml: &str) -> Result<RecipeConfig, String> {
    let doc: serde_yaml_ng::Value =
        serde_yaml_ng::from_str(yaml).map_err(|e| format!("YAML parse error: {e}"))?;
    let m = doc.as_mapping().ok_or_else(|| "not a mapping".to_string())?;
    let policy = m.get("policy").and_then(serde_yaml_ng::Value::as_mapping).map(|p| PolicyConfig {
        failure: text(p, "failure"),
        tripwire: value(p, "tripwire"),
        lock_file: value(p, "lock_file"),
        pre_apply: text(p, "pre_apply"),
        post_apply: text(p, "post_apply"),
        notify: value(p, "notify"),
        ssh_retries: retries(p),
    });
    let includes = m.get("includes").and_then(serde_yaml_ng::Value::as_sequence).map(|s| {
        s.iter().filter_map(|v| v.as_str().map(str::to_string)).collect()
    });
    Ok(RecipeConfig {
        name: text(m, "name").unwrap_or_default(),
        version: text(m, "version").unwrap_or_default(),
        description: text(m, "description"),
        machines: named(m, "machines"),
        resources: named(m, "resources"),
        params: value(m, "params"),
        outputs: value(m, "outputs"),
        includes,
        policy,
        failure: text(m, "failure"),
        tripwire: value(m, "tripwire"),
        lock_file: text(m, "lock_file"),
        pre_apply: text(m, "pre_apply"),
        post_apply: text(m, "post_apply"),
        notify: value(m, "notify"),
        ssh_retries: retries(m),
    })
}

const SAMPLE_YAML: &str = "\
# Recipe #1: Test Recipe
# Tier: 2+3 — container + bare-metal
# Idempotency: Strong
version: \"1.0\"
name: test-recipe
description: A test recipe for scoring
machines:
  target:
    hostname: target
    addr: localhost
resources:
  my-file:
    type: file
    machine: target
    dest: /tmp/test
    mode: \"0644\"
    owner: root
";

#[test]
fn cor_perfect_runtime() {
    let config = minimal_config();
    let rt = full_runtime();
    let mut penalties = Vec::new();
    let input = ScoringInput {
        status: &RecipeStatus::Qualified,
        idempotency_class: &IdempotencyClass::Strong,
        config: &config,
        raw_yaml: "",
        budget_ms: 0,
        runtime: Some(&rt),
    };
    let score = score_cor(&input, &mut penalties);
    assert_eq!(score, 100);
    assert!(penalties.is_empty());
}

#[test]
fn cor_with_warnings() {
    let config = minimal_config();
    let mut rt = full_runtime();
    rt.warning_count = 3;
    let mut penalties = Vec::new();
    let input = ScoringInput {
        status: &RecipeStatus::Qualified,
        idempotency_class: &IdempotencyClass::Strong,
        config: &config,
        raw_yaml: "",
        budget_ms: 0,
        runtime: Some(&rt),
    };
    let score = score_cor(&input, &mut penalties);
    // 100 - 6 = 94
    assert_eq!(score, 94);
    assert_eq!(penalties.len(), 1);
}

#[test]
fn cor_no_runtime_returns_zero() {
    let config = minimal_config();
    let mut penalties = Vec::new();
    let input = ScoringInput {
        status: &RecipeStatus::Qualified,
        idempotency_class: &IdempotencyClass::Strong,
        config: &config,
        raw_yaml: "",
        budget_ms: 0,
        runtime: None,
    };
    assert_eq!(score_cor(&input, &mut penalties), 0);
}

#[test]
fn idm_perfect_strong() {
    let config = minimal_config();
    let rt = full_runtime();
    let mut penalties = Vec::new();
    let input = ScoringInput {
        status: &RecipeStatus::Qualified,
        idempotency_class: &IdempotencyClass::Strong,
        config: &config,
        raw_yaml: "",
        budget_ms: 0,
        runtime: Some(&rt),
    };
    assert_eq!(score_idm(&input, &mut penalties), 100);
}

#[test]
fn idm_weak_class_gets_less() {
    let config = minimal_config();
    let rt = full_runtime();
    let mut penalties = Vec::new();
    let input = ScoringInput {
        status: &RecipeStatus::Qualified,
        idempotency_class: &IdempotencyClass::Weak,
        config: &config,
        raw_yaml: "",
        budget_ms: 0,
        runtime: Some(&rt),
    };
    // 30 + 30 + 20 + 10 = 90
    assert_eq!(score_idm(&input, &mut penalties), 90);
}

#[test]
fn idm_changed_resources_penalized() {
    let config = minimal_config();
    let mut rt = full_runtime();
    rt.changed_on_reapply = 2;
    rt.zero_changes = false;
    let mut penalties = Vec::new();
    let input = ScoringInput {
        status: &RecipeStatus::Qualified,
        idempotency_class: &IdempotencyClass::Strong,
        config: &config,
        raw_yaml: "",
        budget_ms: 0,
        runtime: Some(&rt),
    };
    // 30 + 0 (no zero_changes) + 20 + 20 - 20 (2 changed) = 50
    assert_eq!(score_idm(&input, &mut penalties), 50);
}

#[test]
fn prf_fast_first_apply() {
    let config = minimal_config();
    let mut rt = full_runtime();
    rt.first_apply_ms = 25000; // 25s vs 60s budget = 42%
    rt.idempotent_apply_ms = 1000;
    let input = ScoringInput {
        status: &RecipeStatus::Qualified,
        idempotency_class: &IdempotencyClass::Strong,
        config: &config,
        raw_yaml: "",
        budget_ms: 60000,
        runtime: Some(&rt),
    };
    let score = score_prf(&input);
    // <=50%: 50pts + <=2s: 30pts + ratio 4%: 20pts = 100
    assert_eq!(score, 100);
}

#[test]
fn prf_slow_first_apply() {
    let config = minimal_config();
    let mut rt = full_runtime();
    rt.first_apply_ms = 80000; // 80s vs 60s budget = 133%
    rt.idempotent_apply_ms = 8000;
    let input = ScoringInput {
        status: &RecipeStatus::Qualified,
        idempotency_class: &IdempotencyClass::Strong,
        config: &config,
        raw_yaml: "",
        budget_ms: 60000,
        runtime: Some(&rt),
    };
    let score = score_prf(&input);
    // <=150%: 15pts + <=10s: 15pts + ratio 10%: 15pts = 45
    assert_eq!(score, 45);
}

#[test]
fn saf_no_resources_is_perfect() {
    let config = minimal_config();
    let mut penalties = Vec::new();
    let input = ScoringInput {
        status: &RecipeStatus::Qualified,
        idempotency_class: &IdempotencyClass::Strong,
        config: &config,
        raw_yaml: "",
        budget_ms: 0,
        runtime: None,
    };
    assert_eq!(score_saf(&input, &mut penalties), 100);
}

#[test]
fn saf_file_without_mode_penalized() {
    let config = config_from_yaml(
        "version: '1.0'\nname: test\nresources:\n  f:\n    type: file\n    dest: /tmp/x\n",
    )
    .unwrap_or_else(|_| minimal_config());
    let mut penalties = Vec::new();
    let input = ScoringInput {
        status: &RecipeStatus::Qualified,
        idempotency_class: &IdempotencyClass::Strong,
        config: &config,
        raw_yaml: "",
        budget_ms: 0,
        runtime: None,
    };
    let score = score_saf(&input, &mut penalties);
    // 100 - 5 (no mode) - 3 (no owner) = 92
    assert_eq!(score, 92);
}

#[test]
fn saf_mode_0777_critical_cap() {
    let config = config_from_yaml(
        "version: '1.0'\nname: test\nresources:\n  f:\n    type: file\n    dest: /tmp/x\n    mode: '0777'\n    owner: root\n",
    )
    .unwrap_or_else(|_| minimal_config());
    let mut penalties = Vec::new();
    let input = ScoringInput {
        status: &RecipeStatus::Qualified,
        idempotency_class: &IdempotencyClass::Strong,
        config: &config,
        raw_yaml: "",
        budget_ms: 0,
        runtime: None,
    };
    let score = score_saf(&input, &mut penalties);
    assert!(score <= SAFETY_CRITICAL_CAP);
}

#[test]
fn saf_curl_bash_critical() {
    let config = minimal_config();
    let mut penalties = Vec::new();
    let yaml_with_curl = "curl -sSL https://example.com | bash";
    let input = ScoringInput {
        status: &RecipeStatus::Qualified,
        idempotency_class: &IdempotencyClass::Strong,
        config: &config,
        raw_yaml: yaml_with_curl,
        budget_ms: 0,
        runtime: None,
    };
    let score = score_saf(&input, &mut penalties);
    assert!(score <= SAFETY_CRITICAL_CAP);
}

#[test]
fn doc_full_header_and_description() {
    let config = config_from_yaml(SAMPLE_YAML).unwrap_or_else(|_| minimal_config());
    let input = ScoringInput {
        status: &RecipeStatus::Qualified,
        idempotency_class: &IdempotencyClass::Strong,
        config: &config,
        raw_yaml: SAMPLE_YAML,
        budget_ms: 0,
        runtime: None,
    };
    let score = score_doc(&input);
    // 3 comments in ~16 lines >= 15% → 40pts
    // Recipe # header → +10, Tier → +10, Idempotency → +10
    // description present → +15, name has dash → +5
    // Total: 40 + 10 + 10 + 10 + 15 + 5 = 90
    assert_eq!(score, 90);
}

#[test]
fn doc_no_comments_no_header() {
    let config = minimal_config();
    let input = ScoringInput {
        status: &RecipeStatus::Qualified,
        idempotency_class: &IdempotencyClass::Strong,
        config: &config,
        raw_yaml: "version: '1.0'\nname: test-recipe\n",
        budget_ms: 0,
        runtime: None,
    };
    let score = score_doc(&input);
    // No comments → 0, no header metadata → 0, no description → 0
    // name has dash → +5
    assert_eq!(score, 5);
}

#[test]
fn res_with_failure_policy_and_hooks() {
    let yaml = "\
version: '1.0'
name: test-recipe
failure: continue_independent
ssh_retries: 3
pre_apply: echo pre
post_apply: echo post
resources:
  a:
    type: file
    dest: /tmp/a
    depends_on: [b]
  b:
    type: file
    dest: /tmp/b
";
    let config = config_from_yaml(yaml).unwrap_or_else(|_| minimal_config());
    let input = ScoringInput {
        status: &RecipeStatus::Qualified,
        idempotency_class: &IdempotencyClass::Strong,
        config: &config,
        raw_yaml: yaml,
        budget_ms: 0,
        runtime: None,
    };
    let score = score_res(&input);
    // failure_policy: +20, ssh_retries: +10, DAG 50%: +30, pre: +10, post: +10 = 80
    assert_eq!(score, 80);
}

#[test]
fn cmp_with_params_and_tags() {
    let yaml = "\
version: '1.0'
name: test-recipe
params:
  env: production
resources:
  a:
    type: file
    dest: /tmp/a
    tags: [web]
";
    let config = config_from_yaml(yaml).unwrap_or_else(|_| minimal_config());
    let input = ScoringInput {
        status: &RecipeStatus::Qualified,
        idempotency_class: &IdempotencyClass::Strong,
        config: &config,
        raw_yaml: yaml,
        budget_ms: 0,
        runtime: None,
    };
    let score = score_cmp(&input);
    // params: +20, tags: +15 = 35
    assert_eq!(score, 35);
}

#[test]
fn cmp_with_params_tags_and_template_interpolation() {
    let yaml = "\
version: '1.0'
name: test-recipe
params:
  base_dir: /tmp/test
resources:
  a:
    type: file
    path: \"{{params.base_dir}}/file.txt\"
    tags: [web]
    resource_group: app
";
    let config = config_from_yaml(yaml).unwrap_or_else(|_| minimal_config());
    let input = ScoringInput {
        status: &RecipeStatus::Qualified,
        idempotency_class: &IdempotencyClass::Strong,
        config: &config,
        raw_yaml: yaml,
        budget_ms: 0,
        runtime: None,
    };
    let score = score_cmp(&input);
    // params: +20, templates ({{...}}): +10, tags: +15, resource_group: +15 = 60
    assert_eq!(score, 60);
}

#[test]
fn cmp_empty_config_is_zero() {
    let config = minimal_config();
    let input = ScoringInput {
        status: &RecipeStatus::Qualified,
        idempotency_class: &IdempotencyClass::Strong,
        config: &config,
        raw_yaml: "",
        budget_ms: 0,
        runtime: None,
    };
    assert_eq!(score_cmp(&input), 0);
}

#[test]
fn prf_no_runtime_returns_zero() {
    let config = minimal_config();
    let input = ScoringInput {
        status: &RecipeStatus::Qualified,
        idempotency_class: &IdempotencyClass::Strong,
        config: &config,
        raw_yaml: "",
        budget_ms: 60000,
        runtime: None,
    };
    assert_eq!(score_prf(&input), 0);
}

#[test]
fn prf_no_budget_assumes_on_budget() {
    let config = minimal_config();
    let mut rt = full_runtime();
    rt.first_apply_ms = 45000;
    rt.idempotent_apply_ms = 1500;
    let input = ScoringInput {
        status: &RecipeStatus::Qualified,
        idempotency_class: &IdempotencyClass::Strong,
        config: &config,
        raw_yaml: "",
        budget_ms: 0, // no budget
        runtime: Some(&rt),
    };
    let score = score_prf(&input);
    // no budget: 30pts + <=2s: 30pts + ratio 3.3%: 20pts = 80
    assert_eq!(score, 80);
}

#[test]
fn prf_medium_budget_ratio_75() {
    let config = minimal_config();
    let mut rt = full_runtime();
    rt.first_apply_ms = 42000; // 70% of budget
    rt.idempotent_apply_ms = 3500; // between 2s and 5s
    let input = ScoringInput {
        status: &RecipeStatus::Qualified,
        idempotency_class: &IdempotencyClass::Strong,
        config: &config,
        raw_yaml: "",
        budget_ms: 60000,
        runtime: Some(&rt),
    };
    let score = score_prf(&input);
    // <=75%: 40pts + <=5s: 25pts + ratio 8.3%: 15pts = 80
    assert_eq!(score, 80);
}

#[test]
fn prf_on_budget_ratio_100() {
    let config = minimal_config();
    let mut rt = full_runtime();
    rt.first_apply_ms = 55000; // 91.7% of budget
    rt.idempotent_apply_ms = 7000; // between 5s and 10s
    let input = ScoringInput {
        status: &RecipeStatus::Qualified,
        idempotency_class: &IdempotencyClass::Strong,
        config: &config,
        raw_yaml: "",
        budget_ms: 60000,
        runtime: Some(&rt),
    };
    let score = score_prf(&input);
    // <=100%: 30pts + <=10s: 15pts + ratio 12.7%: 10pts = 55
    assert_eq!(score, 55);
}

#[test]
fn prf_over_budget_no_points() {
    let config = minimal_config();
    let mut rt = full_runtime();
    rt.first_apply_ms = 100_000; // 167% of budget
    rt.idempotent_apply_ms = 12000; // over 10s
    let input = ScoringInput {
        status: &RecipeStatus::Qualified,
        idempotency_class: &IdempotencyClass::Strong,
        config: &config,
        raw_yaml: "",
        budget_ms: 60000,
        runtime: Some(&rt),
    };
    let score = score_prf(&input);
    // >150%: 0pts + >10s: 0pts + ratio 12%: 10pts = 10
    assert_eq!(score, 10);
}

#[test]
fn idm_eventual_class_no_bonus() {
    let config = minimal_config();
    let rt = full_runtime();
    let mut penalties = Vec::new();
    let input = ScoringInput {
        status: &RecipeStatus::Qualified,
        idempotency_class: &IdempotencyClass::Eventual,
        config: &config,
        raw_yaml: "",
        budget_ms: 0,
        runtime: Some(&rt),
    };
    // 30 + 30 + 20 + 0 (eventual) = 80
    assert_eq!(score_idm(&input, &mut penalties), 80);
}

#[test]
fn idm_no_runtime_returns_zero() {
    let config = minimal_config();
    let mut penalties = Vec::new();
    let input = ScoringInput {
        status: &RecipeStatus::Qualified,
        idempotency_class: &IdempotencyClass::Strong,
        config: &config,
        raw_yaml: "",
        budget_ms: 0,
        runtime: None,
    };
    assert_eq!(score_idm(&input, &mut penalties), 0);
}

#[test]
fn obs_empty_config_is_zero() {
    let config = minimal_config();
    let input = ScoringInput {
        status: &RecipeStatus::Qualified,
        idempotency_class: &IdempotencyClass::Strong,
        config: &config,
        raw_yaml: "",
        budget_ms: 0,
        runtime: None,
    };
    assert_eq!(score_obs(&input), 0);
}

#[test]
fn obs_with_tripwire_and_lock() {
    let yaml = "\
version: '1.0'
name: test-recipe
tripwire:
  policy: warn
lock_file: state.lock.yaml
outputs:
  db_host: test.example.com
resources:
  f:
    type: file
    dest: /tmp/x
    mode: '0644'
    owner: root
";
    let config = config_from_yaml(yaml).unwrap_or_else(|_| minimal_config());
    let input = ScoringInput {
        status: &RecipeStatus::Qualified,
        idempotency_class: &IdempotencyClass::Strong,
        config: &config,
        raw_yaml: yaml,
        budget_ms: 0,
        runtime: None,
    };
    let score = score_obs(&input);
    // tripwire: +15, lock_file: +15, outputs: +10, mode coverage 100%: +15, owner 100%: +15 = 70
    assert_eq!(score, 70);
}

#[test]
fn obs_with_notify_hooks() {
    let yaml = "\
version: '1.0'
name: test-recipe
notify:
  on_success: slack://channel
  on_failure: email://admin
  on_drift: webhook://url
resources: {}
";
    let config = config_from_yaml(yaml).unwrap_or_else(|_| minimal_config());
    let input = ScoringInput {
        status: &RecipeStatus::Qualified,
        idempotency_class: &IdempotencyClass::Strong,
        config: &config,
        raw_yaml: yaml,
        budget_ms: 0,
        runtime: None,
    };
    let score = score_obs(&input);
    // No tripwire/lock/outputs, no files → 0 + notify 3/3: 20pts = 20
    assert_eq!(score, 20);
}

#[test]
fn obs_partial_file_coverage() {
    let yaml = "\
version: '1.0'
name: test-recipe
resources:
  a:
    type: file
    dest: /tmp/a
    mode: '0644'
  b:
    type: file
    dest: /tmp/b
";
    let config = config_from_yaml(yaml).unwrap_or_else(|_| minimal_config());
    let input = ScoringInput {
        status: &RecipeStatus::Qualified,
        idempotency_class: &IdempotencyClass::Strong,
        config: &config,
        raw_yaml: yaml,
        budget_ms: 0,
        runtime: None,
    };
    let score = score_obs(&input);
    // mode coverage 50% → 7pts, owner coverage 0% → 0pts = 7
    assert_eq!(score, 7);
}

#[test]
fn doc_moderate_comments_10_percent() {
    // 2 comments in 10 lines = 20% → 40pts threshold
    let yaml = "\
# Recipe config
# Managed by forjar
version: '1.0'
name: test-recipe
machines:
  target:
    hostname: target
    addr: localhost
resources:
  f:
    type: file
";
    let config = config_from_yaml(yaml).unwrap_or_else(|_| minimal_config());
    let input = ScoringInput {
        status: &RecipeStatus::Qualified,
        idempotency_class: &IdempotencyClass::Strong,
        config: &config,
        raw_yaml: yaml,
        budget_ms: 0,
        runtime: None,
    };
    let score = score_doc(&input);
    // 2/12 lines = 16.7% → 40pts (>= 15%), name has dash: +5 = 45
    assert_eq!(score, 45);
}

#[test]
fn doc_name_without_dash() {
    let mut config = minimal_config();
    config.name = "simple".to_string();
    let input = ScoringInput {
        status: &RecipeStatus::Qualified,
        idempotency_class: &IdempotencyClass::Strong,
        config: &config,
        raw_yaml: "version: '1.0'\nname: simple\n",
        budget_ms: 0,
        runtime: None,
    };
    let score = score_doc(&input);
    // No comments, no header, no description, no dash in name = 0
    assert_eq!(score, 0);
}

#[test]
fn res_empty_config_is_zero() {
    let config = minimal_config();
    let input = ScoringInput {
        status: &RecipeStatus::Qualified,
        idempotency_class: &IdempotencyClass::Strong,
        config: &config,
        raw_yaml: "",
        budget_ms: 0,
        runtime: None,
    };
    assert_eq!(score_res(&input), 0);
}

#[test]
fn res_low_dag_ratio() {
    let yaml = "\
version: '1.0'
name: test-recipe
resources:
  a:
    type: file
    dest: /tmp/a
    depends_on: [b]
  b:
    type: file
    dest: /tmp/b
  c:
    type: file
    dest: /tmp/c
";
    let config = config_from_yaml(yaml).unwrap_or_else(|_| minimal_config());
    let input = ScoringInput {
        status: &RecipeStatus::Qualified,
        idempotency_class: &IdempotencyClass::Strong,
        config: &config,
        raw_yaml: yaml,
        budget_ms: 0,
        runtime: None,
    };
    let score = score_res(&input);
    // DAG 33% (1/3): +20 = 20
    assert_eq!(score, 20);
}

#[test]
fn cmp_multi_machine() {
    let yaml = "\
version: '1.0'
name: test-recipe
machines:
  web:
    hostname: web
    addr: 10.0.0.1
  db:
    hostname: db
    addr: 10.0.0.2
resources:
  f:
    type: file
    dest: /tmp/f
    template: true
    resource_group: core
";
    let config = config_from_yaml(yaml).unwrap_or_else(|_| minimal_config());
    let input = ScoringInput {
        status: &RecipeStatus::Qualified,
        idempotency_class: &IdempotencyClass::Strong,
        config: &config,
        raw_yaml: yaml,
        budget_ms: 0,
        runtime: None,
    };
    let score = score_cmp(&input);
    // template: +10, resource_group: +15, multi-machine: +10 = 35
    assert_eq!(score, 35);
}

#[test]
fn cmp_with_includes() {
    let yaml = "\
version: '1.0'
name: test-recipe
includes:
  - base.yaml
  - security.yaml
resources: {}
";
    let config = config_from_yaml(yaml).unwrap_or_else(|_| minimal_config());
    let input = ScoringInput {
        status: &RecipeStatus::Qualified,
        idempotency_class: &IdempotencyClass::Strong,
        config: &config,
        raw_yaml: yaml,
        budget_ms: 0,
        runtime: None,
    };
    let score = score_cmp(&input);
    // includes: +10, recipe nesting (>1): +15 = 25
    assert_eq!(score, 25);
}

#[test]
fn tests_dimensions_ext_saf_package_without_version_pin() {
    let yaml = "\
version: '1.0'
name: test-recipe
resources:
  pkg:
    type: package
    name: nginx
";
    let config = config_from_yaml(yaml).unwrap_or_else(|_| minimal_config());
    let mut penalties = Vec::new();
    let input = ScoringInput {
        status: &RecipeStatus::Qualified,
        idempotency_class: &IdempotencyClass::Strong,
        config: &config,
        raw_yaml: yaml,
        budget_ms: 0,
        runtime: None,
    };
    let score = score_saf(&input, &mut penalties);
    // 100 - 3 (no version pin) = 97
    assert_eq!(score, 97);
    assert_eq!(penalties.len(), 1);
    assert!(penalties[0].reason.contains("version pin"));
}

#[test]
fn tests_dimensions_ext_saf_multiple_files_all_penalized() {
    let yaml = "\
version: '1.0'
name: test-recipe
resources:
  a:
    type: file
    dest: /tmp/a
  b:
    type: file
    dest: /tmp/b
";
    let config = config_from_yaml(yaml).unwrap_or_else(|_| minimal_config());
    let mut penalties = Vec::new();
    let input = ScoringInput {
        status: &RecipeStatus::Qualified,
        idempotency_class: &IdempotencyClass::Strong,
        config: &config,
        raw_yaml: yaml,
        budget_ms: 0,
        runtime: None,
    };
    let score = score_saf(&input, &mut penalties);
    // 100 - 5×2 (no mode) - 3×2 (no owner) = 84
    assert_eq!(score, 84);
    assert_eq!(penalties.len(), 4);
}

#[test]
fn tests_saf_obs_saf_package_without_version_pin() {
    let yaml = "\
version: '1.0'
name: test-recipe
resources:
  pkg:
    type: package
    name: nginx
";
    let config = config_from_yaml(yaml).unwrap_or_else(|_| minimal_config());
    let mut penalties = Vec::new();
    let input = ScoringInput {
        status: &RecipeStatus::Qualified,
        idempotency_class: &IdempotencyClass::Strong,
        config: &config,
        raw_yaml: yaml,
        budget_ms: 0,
        runtime: None,
    };
    let score = score_saf(&input, &mut penalties);
    // 100 - 3 (no version pin) = 97
    assert_eq!(score, 97);
    assert_eq!(penalties.len(), 1);
    assert!(penalties[0].reason.contains("version pin"));
}

#[test]
fn tests_saf_obs_saf_multiple_files_all_penalized() {
    let yaml = "\
version: '1.0'
name: test-recipe
resources:
  a:
    type: file
    dest: /tmp/a
  b:
    type: file
    dest: /tmp/b
";
    let config = config_from_yaml(yaml).unwrap_or_else(|_| minimal_config());
    let mut penalties = Vec::new();
    let input = ScoringInput {
        status: &RecipeStatus::Qualified,
        idempotency_class: &IdempotencyClass::Strong,
        config: &config,
        raw_yaml: yaml,
        budget_ms: 0,
        runtime: None,
    };
    let score = score_saf(&input, &mut penalties);
    // 100 - 5×2 (no mode) - 3×2 (no owner) = 84
    assert_eq!(score, 84);
    assert_eq!(penalties.len(), 4);
}

#[test]
fn obs_full_policy_with_notify() {
    let yaml = "\
version: '1.0'
name: test-recipe
resources:
  f:
    type: file
    dest: /tmp/x
    mode: '0644'
    owner: root
policy:
  tripwire: true
  lock_file: true
  notify:
    on_success: echo ok
    on_failure: echo fail
    on_drift: echo drift
outputs:
  test:
    value: ok
";
    let config = config_from_yaml(yaml).unwrap_or_else(|_| minimal_config());
    let input = ScoringInput {
        status: &RecipeStatus::Qualified,
        idempotency_class: &IdempotencyClass::Strong,
        config: &config,
        raw_yaml: yaml,
        budget_ms: 0,
        runtime: None,
    };
    let score = score_obs(&input);
    // tripwire: +15, lock_file: +15, outputs: +10, mode 100%: +15, owner 100%: +15, notify 3/3: +20 = 90
    assert_eq!(score, 90);
}

#[test]
fn obs_full_policy_without_notify() {
    let yaml = "\
version: '1.0'
name: test-recipe
resources:
  f:
    type: file
    dest: /tmp/x
    mode: '0644'
    owner: root
policy:
  tripwire: true
  lock_file: true
outputs:
  test:
    value: ok
";
    let config = config_from_yaml(yaml).unwrap_or_else(|_| minimal_config());
    let input = ScoringInput {
        status: &RecipeStatus::Qualified,
        idempotency_class: &IdempotencyClass::Strong,
        config: &config,
        raw_yaml: yaml,
        budget_ms: 0,
        runtime: None,
    };
    let score = score_obs(&input);
    // tripwire: +15, lock_file: +15, outputs: +10, mode 100%: +15, owner 100%: +15 = 70
    assert_eq!(score, 70);
}

#[test]
fn obs_no_file_resources_full_mode_owner_credit() {
    let yaml = "\
version: '1.0'
name: test-recipe
resources:
  gpu:
    type: gpu
    backend: rocm
policy:
  tripwire: true
  lock_file: true
  notify:
    on_success: echo ok
    on_failure: echo fail
    on_drift: echo drift
outputs:
  backend:
    value: rocm
";
    let config = config_from_yaml(yaml).unwrap_or_else(|_| minimal_config());
    let input = ScoringInput {
        status: &RecipeStatus::Qualified,
        idempotency_class: &IdempotencyClass::Strong,
        config: &config,
        raw_yaml: yaml,
        budget_ms: 0,
        runtime: None,
    };
    let score = score_obs(&input);
    // tripwire(15) + lock(15) + outputs(10) + no-files bonus(30) + notify(20) = 90
    assert_eq!(score, 90);
}

// ── Scores of whole recipes ──────────────────────────────────────

fn scoring_input<'a>(
    status: &'a RecipeStatus,
    config: &'a RecipeConfig,
    raw_yaml: &'a str,
    runtime: Option<&'a RuntimeData>,
) -> ScoringInput<'a> {
    ScoringInput {
        status,
        idempotency_class: &IdempotencyClass::Strong,
        config,
        raw_yaml,
        budget_ms: 60000,
        runtime,
    }
}

#[test]
fn cor_warning_penalty_text_and_cap() {
    let config = minimal_config();
    let mut rt = full_runtime();
    rt.warning_count = 9;
    let mut penalties = Vec::new();
    let input = scoring_input(&RecipeStatus::Qualified, &config, "", Some(&rt));
    assert_eq!(score_cor(&input, &mut penalties), 90);
    assert_eq!(penalties.len(), 1);
    assert_eq!(penalties[0].dimension, "COR");
    assert_eq!(penalties[0].points, 10);
    assert_eq!(penalties[0].reason, "9 warning(s) during apply");
}

#[test]
fn idm_penalty_text_and_floor() {
    let config = minimal_config();
    let mut rt = full_runtime();
    rt.changed_on_reapply = 12;
    let mut penalties = Vec::new();
    let input = scoring_input(&RecipeStatus::Qualified, &config, "", Some(&rt));
    assert_eq!(score_idm(&input, &mut penalties), 0);
    assert_eq!(penalties[0].dimension, "IDM");
    assert_eq!(penalties[0].points, 120);
    assert_eq!(penalties[0].reason, "12 resource(s) changed on re-apply");
}

#[test]
fn saf_penalties_in_order() {
    let yaml = "\
resources:
  a:
    type: file
    mode: '0777'
  p:
    type: package
";
    let config = config_from_yaml(yaml).unwrap_or_else(|_| minimal_config());
    let mut penalties = Vec::new();
    let raw = "curl x | bash";
    let input = scoring_input(&RecipeStatus::Qualified, &config, raw, None);
    // 100 - 30 - 3 - 30 - 3 = 34, under the cap of 40
    assert_eq!(score_saf(&input, &mut penalties), 34);
    let reasons: Vec<&str> = penalties.iter().map(|p| p.reason.as_str()).collect();
    assert_eq!(
        reasons,
        vec![
            "file with mode 0777",
            "file without explicit owner",
            "curl|bash pattern detected",
            "package without version pin",
        ]
    );
}

#[test]
fn saf_critical_caps_at_forty() {
    let yaml = "resources:\n  a:\n    type: file\n    mode: '0777'\n    owner: root\n";
    let config = config_from_yaml(yaml).unwrap_or_else(|_| minimal_config());
    let mut penalties = Vec::new();
    let input = scoring_input(&RecipeStatus::Qualified, &config, "", None);
    assert_eq!(score_saf(&input, &mut penalties), 40);
}

#[test]
fn doc_crlf_lines_and_header_window() {
    let raw = "# a\r\n# b\r\nx: 1\r\n\r\n\r\n# Recipe #9\r\n";
    let config = minimal_config();
    let input = scoring_input(&RecipeStatus::Qualified, &config, raw, None);
    // 3 comment lines of 6: 40; the recipe header is on line six, outside the
    // first five; name has a dash: 5
    assert_eq!(score_doc(&input), 45);
}

#[test]
fn obs_notify_two_of_three_hooks() {
    let yaml = "notify:\n  on_success: a\n  on_drift: b\n";
    let config = config_from_yaml(yaml).unwrap_or_else(|_| minimal_config());
    let input = scoring_input(&RecipeStatus::Qualified, &config, yaml, None);
    // 2 * 20 / 3 = 13
    assert_eq!(score_obs(&input), 13);
}

#[test]
fn compute_blocked_is_f_with_static_dimensions() {
    let config = config_from_yaml(SAMPLE_YAML).unwrap_or_else(|_| minimal_config());
    let rt = full_runtime();
    let input = scoring_input(&RecipeStatus::Blocked, &config, SAMPLE_YAML, Some(&rt));
    let score = ForjarScore::compute(&input);
    assert_eq!(score.grade, Grade::F);
    assert_eq!(score.composite, 0);
    assert_eq!(score.dimensions.cor, 0);
    assert_eq!(score.dimensions.idm, 0);
    assert_eq!(score.dimensions.prf, 0);
    assert_eq!(score.dimensions.saf, 100);
    assert_eq!(score.dimensions.doc, 90);
    assert_eq!(score.version, "1.0");
}

#[test]
fn compute_failed_apply_is_f() {
    let config = config_from_yaml(SAMPLE_YAML).unwrap_or_else(|_| minimal_config());
    let mut rt = full_runtime();
    rt.first_apply_pass = false;
    let input = scoring_input(&RecipeStatus::Qualified, &config, SAMPLE_YAML, Some(&rt));
    let score = ForjarScore::compute(&input);
    assert_eq!(score.grade, Grade::F);
    assert_eq!(score.composite, 0);
    // COR lost its 40 first-apply points, but keeps the others
    assert_eq!(score.dimensions.cor, 60);
}

#[test]
fn compute_qualified_weighted_composite() {
    let config = config_from_yaml(SAMPLE_YAML).unwrap_or_else(|_| minimal_config());
    let rt = full_runtime();
    let input = scoring_input(&RecipeStatus::Qualified, &config, SAMPLE_YAML, Some(&rt));
    let score = ForjarScore::compute(&input);
    let d = score.dimensions;
    assert_eq!(d.cor, 100);
    assert_eq!(d.idm, 100);
    assert_eq!(d.saf, 100);
    assert_eq!(d.doc, 90);
    let weighted = d.cor * 20 + d.idm * 20 + d.prf * 15 + d.saf * 15 + d.obs * 10 + d.doc * 8
        + d.res * 7 + d.cmp * 5;
    assert_eq!(score.composite, weighted / 100);
    assert!(score.penalties.is_empty());
    // RES and CMP are 0, so no A or B despite strong runtime results
    assert_ne!(score.grade, Grade::A);
    assert_ne!(score.grade, Grade::B);
}

fn prf_reference(first: u64, idem: u64, budget: u64) -> u32 {
    let mut pts = 0u32;
    if budget > 0 && first > 0 {
        #[allow(clippy::cast_precision_loss)]
        let ratio = first as f64 / budget as f64;
        if ratio <= 0.50 {
            pts += 50;
        } else if ratio <= 0.75 {
            pts += 40;
        } else if ratio <= 1.00 {
            pts += 30;
        } else if ratio <= 1.50 {
            pts += 15;
        }
    } else if first > 0 {
        pts += 30;
    }
    if idem > 0 {
        if idem <= 2000 {
            pts += 30;
        } else if idem <= 5000 {
            pts += 25;
        } else if idem <= 10000 {
            pts += 15;
        }
    }
    if first > 0 && idem > 0 {
        #[allow(clippy::cast_precision_loss)]
        let ratio = idem as f64 / first as f64;
        if ratio <= 0.05 {
            pts += 20;
        } else if ratio <= 0.10 {
            pts += 15;
        } else if ratio <= 0.25 {
            pts += 10;
        }
    }
    pts.min(100)
}

#[test]
fn prf_ratios_follow_binary64_division() {
    let config = minimal_config();
    let big: Vec<(u64, u64, u64)> = vec![
        ((1 << 60) + 1, 1, (1 << 61) + 1),
        (3 * (1 << 58) + 7, 1, 1 << 60),
        ((1 << 62) + 3, (1 << 58) + 1, (1 << 62) + 1),
        (u64::MAX, u64::MAX / 20, u64::MAX),
        (u64::MAX, u64::MAX / 10 + 1, u64::MAX / 2),
        (9_007_199_254_740_993, 450_359_962_737_050, 18_014_398_509_481_985),
        (60_000, 3_000, 40_000),
        (60_001, 6_001, 40_000),
        (45_000, 11_250, 60_000),
    ];
    for (first, idem, budget) in big {
        let mut rt = full_runtime();
        rt.first_apply_ms = first;
        rt.idempotent_apply_ms = idem;
        let mut input = scoring_input(&RecipeStatus::Qualified, &config, "", Some(&rt));
        input.budget_ms = budget;
        assert_eq!(score_prf(&input), prf_reference(first, idem, budget), "{first} {idem} {budget}");
    }
    let mut state: u64 = 0x9e37_79b9_7f4a_7c15;
    for _ in 0..20000 {
        state ^= state << 13;
        state ^= state >> 7;
        state ^= state << 17;
        let first = (state >> (state % 40)) | 1;
        let budget = first / 3 + (state % 97) * (first / 64 + 1);
        let idem = first / (1 + state % 30) + (state % 5);
        let mut rt = full_runtime();
        rt.first_apply_ms = first;
        rt.idempotent_apply_ms = idem;
        let mut input = scoring_input(&RecipeStatus::Qualified, &config, "", Some(&rt));
        input.budget_ms = budget;
        assert_eq!(score_prf(&input), prf_reference(first, idem, budget), "{first} {idem} {budget}");
    }
}
