use cookbook_qualify::duration::format_duration;
use cookbook_qualify::table::parse_csv_records;
use cookbook_qualify::{
    generate_summary, generate_table, parse_csv, update_readme, write_csv, IdempotencyClass,
    RecipeQualification, RecipeStatus, END_MARKER, START_MARKER,
};

const SAMPLE_CSV: &str = "\
recipe_num,name,category,status,tier,idempotency_class,first_apply_ms,idempotent_apply_ms,blocker_ticket,blocker_description,last_qualified,qualified_by
1,developer-workstation,infra,qualified,2+3,strong,45000,1200,,,2026-03-01,cookbook-runner
2,web-server,infra,qualified,2+3,strong,62000,1800,,,2026-03-01,cookbook-runner
7,rocm-gpu,gpu,blocked,3,strong,,,FJ-1126,ROCm userspace not installed,,
40,scheduled-tasks,linux,pending,2+3,strong,,,,,,
";

const HEADER: &str = "recipe_num,name,category,status,tier,idempotency_class,first_apply_ms,idempotent_apply_ms,blocker_ticket,blocker_description,last_qualified,qualified_by";

fn record(num: u32, name: &str, status: RecipeStatus) -> RecipeQualification {
    RecipeQualification {
        recipe_num: num,
        name: name.to_string(),
        category: "infra".to_string(),
        status,
        tier: "2+3".to_string(),
        idempotency_class: IdempotencyClass::Weak,
        first_apply_ms: 0,
        idempotent_apply_ms: 0,
        blocker_ticket: String::new(),
        blocker_description: String::new(),
        last_qualified: String::new(),
        qualified_by: String::new(),
    }
}

#[test]
fn parse_csv_valid() {
    let recipes = parse_csv(SAMPLE_CSV).unwrap_or_default();
    assert_eq!(recipes.len(), 4);
    assert_eq!(recipes[0].recipe_num, 1);
    assert_eq!(recipes[0].name, "developer-workstation");
    assert_eq!(recipes[0].status, RecipeStatus::Qualified);
    assert_eq!(recipes[0].first_apply_ms, 45000);
}

#[test]
fn parse_csv_blocked_recipe() {
    let recipes = parse_csv(SAMPLE_CSV).unwrap_or_default();
    let rocm = &recipes[2];
    assert_eq!(rocm.recipe_num, 7);
    assert_eq!(rocm.status, RecipeStatus::Blocked);
    assert_eq!(rocm.blocker_ticket, "FJ-1126");
    assert_eq!(rocm.first_apply_ms, 0);
}

#[test]
fn parse_csv_pending_recipe() {
    let recipes = parse_csv(SAMPLE_CSV).unwrap_or_default();
    let cron = &recipes[3];
    assert_eq!(cron.recipe_num, 40);
    assert_eq!(cron.status, RecipeStatus::Pending);
    assert!(cron.last_qualified.is_empty());
}

#[test]
fn parse_csv_empty() {
    let csv = "recipe_num,name,category,status,tier,idempotency_class,\
               first_apply_ms,idempotent_apply_ms,blocker_ticket,\
               blocker_description,last_qualified,qualified_by\n";
    let recipes = parse_csv(csv).unwrap_or_default();
    assert!(recipes.is_empty());
}

#[test]
fn parse_csv_invalid_status() {
    let csv = "recipe_num,name,category,status,tier,idempotency_class,\
               first_apply_ms,idempotent_apply_ms,blocker_ticket,\
               blocker_description,last_qualified,qualified_by\n\
               1,test,infra,invalid,2,strong,,,,,,\n";
    let result = parse_csv(csv);
    assert!(result.is_err());
}

#[test]
fn parse_csv_invalid_recipe_num() {
    let csv = "recipe_num,name,category,status,tier,idempotency_class,\
               first_apply_ms,idempotent_apply_ms,blocker_ticket,\
               blocker_description,last_qualified,qualified_by\n\
               abc,test,infra,pending,2,strong,,,,,,\n";
    let result = parse_csv(csv);
    assert!(result.is_err());
}

#[test]
fn parse_csv_error_messages_name_the_line() {
    let bad_status = format!("{HEADER}\n1,test,infra,invalid,2,strong,,,,,,\n");
    assert_eq!(
        parse_csv(&bad_status),
        Err("CSV line 2: unknown status: invalid".to_string())
    );
    let bad_num = format!("{HEADER}\n1,a,infra,pending,2,strong,,,,,,\nabc,test,infra,pending,2,strong,,,,,,\n");
    assert_eq!(
        parse_csv(&bad_num),
        Err("CSV line 3: recipe_num: invalid digit found in string".to_string())
    );
    let bad_class = format!("{HEADER}\n1,a,infra,pending,2,solid,,,,,,\n");
    assert_eq!(
        parse_csv(&bad_class),
        Err("CSV line 2: unknown idempotency class: solid".to_string())
    );
    let bad_ms = format!("{HEADER}\n1,a,infra,pending,2,strong,-5,,,,,\n");
    assert_eq!(
        parse_csv(&bad_ms),
        Err("CSV line 2: first_apply_ms: invalid digit found in string".to_string())
    );
    let big_ms = format!("{HEADER}\n1,a,infra,pending,2,strong,,18446744073709551616,,,,\n");
    assert_eq!(
        parse_csv(&big_ms),
        Err("CSV line 2: idempotent_apply_ms: number too large to fit in target type".to_string())
    );
    let big_num = format!("{HEADER}\n4294967296,a,infra,pending,2,strong,,,,,,\n");
    assert_eq!(
        parse_csv(&big_num),
        Err("CSV line 2: recipe_num: number too large to fit in target type".to_string())
    );
}

#[test]
fn parse_csv_trims_fields() {
    let csv = format!("{HEADER}\n 5 , spaced ,infra, Qualified ,2, STRONG , 10 ,,,,,\n");
    let recipes = parse_csv(&csv).unwrap_or_default();
    assert_eq!(recipes.len(), 1);
    assert_eq!(recipes[0].recipe_num, 5);
    assert_eq!(recipes[0].name, "spaced");
    assert_eq!(recipes[0].status, RecipeStatus::Qualified);
    assert_eq!(recipes[0].idempotency_class, IdempotencyClass::Strong);
    assert_eq!(recipes[0].first_apply_ms, 10);
}

#[test]
fn parse_csv_records_exact() {
    let ok_row: Vec<String> = [
        "3", "name", "cat", "pending", "1", "eventual", "", "7", "T", "D", "L", "Q",
    ]
    .iter()
    .map(|s| s.to_string())
    .collect();
    let rows = vec![Ok(ok_row.clone())];
    let recipes = parse_csv_records(&rows).unwrap_or_default();
    assert_eq!(recipes.len(), 1);
    assert_eq!(recipes[0].recipe_num, 3);
    assert_eq!(recipes[0].idempotency_class, IdempotencyClass::Eventual);
    assert_eq!(recipes[0].first_apply_ms, 0);
    assert_eq!(recipes[0].idempotent_apply_ms, 7);
    assert_eq!(recipes[0].qualified_by, "Q");

    let short: Vec<String> = vec!["1".to_string(), "x".to_string()];
    let rows = vec![Ok(ok_row.clone()), Ok(short)];
    assert_eq!(
        parse_csv_records(&rows),
        Err("CSV line 3: expected 12 fields, got 2".to_string())
    );

    let rows = vec![Ok(ok_row), Err("bad record".to_string())];
    assert_eq!(parse_csv_records(&rows), Err("CSV line 3: bad record".to_string()));
    assert_eq!(parse_csv_records(&Vec::new()), Ok(Vec::new()));
}

#[test]
fn generate_summary_counts() {
    let recipes = parse_csv(SAMPLE_CSV).unwrap_or_default();
    let summary = generate_summary(&recipes, "2026-03-01 12:00 UTC");
    assert!(summary.contains("Qualified | 2"));
    assert!(summary.contains("Blocked   | 1"));
    assert!(summary.contains("Pending   | 1"));
    assert!(summary.contains("2026-03-01 12:00 UTC"));
}

#[test]
fn generate_summary_empty() {
    let summary = generate_summary(&[], "2026-03-01 12:00 UTC");
    assert!(summary.contains("Qualified | 0"));
    assert!(summary.contains("Blocked   | 0"));
    assert!(summary.contains("Pending   | 0"));
}

#[test]
fn generate_summary_exact_and_counts_add_up() {
    let recipes = parse_csv(SAMPLE_CSV).unwrap_or_default();
    let summary = generate_summary(&recipes, "ts");
    assert_eq!(
        summary,
        "**Qualification Summary** (updated: ts)\n\n| Status | Count |\n|--------|-------|\n| Qualified | 2 |\n| Blocked   | 1 |\n| Pending   | 1 |"
    );
    assert_eq!(2 + 1 + 1, recipes.len());
}

#[test]
fn generate_table_has_header() {
    let recipes = parse_csv(SAMPLE_CSV).unwrap_or_default();
    let table = generate_table(&recipes);
    assert!(table.contains("| # | Recipe |"));
    assert!(table.contains("|---|"));
}

#[test]
fn generate_table_sorted_by_number() {
    let recipes = parse_csv(SAMPLE_CSV).unwrap_or_default();
    let table = generate_table(&recipes);
    let lines: Vec<&str> = table.lines().collect();
    assert!(lines[2].starts_with("| 1 |"));
    assert!(lines[3].starts_with("| 2 |"));
    assert!(lines[4].starts_with("| 7 |"));
    assert!(lines[5].starts_with("| 40 |"));
}

#[test]
fn generate_table_sorts_unsorted_input_stably() {
    let recipes = vec![
        record(9, "nine", RecipeStatus::Pending),
        record(3, "three-a", RecipeStatus::Pending),
        record(5, "five", RecipeStatus::Blocked),
        record(3, "three-b", RecipeStatus::Qualified),
    ];
    let table = generate_table(&recipes);
    let lines: Vec<&str> = table.lines().collect();
    assert_eq!(lines.len(), 6);
    assert!(lines[2].starts_with("| 3 | three-a |"));
    assert!(lines[3].starts_with("| 3 | three-b |"));
    assert!(lines[4].starts_with("| 5 | five |"));
    assert!(lines[5].starts_with("| 9 | nine |"));
}

#[test]
fn generate_table_badges() {
    let recipes = parse_csv(SAMPLE_CSV).unwrap_or_default();
    let table = generate_table(&recipes);
    assert!(table.contains("QUALIFIED-brightgreen"));
    assert!(table.contains("BLOCKED-red"));
    assert!(table.contains("PENDING-lightgray"));
}

#[test]
fn generate_table_timing() {
    let recipes = parse_csv(SAMPLE_CSV).unwrap_or_default();
    let table = generate_table(&recipes);
    assert!(table.contains("45.0s"));
    assert!(table.contains("1.2s"));
    assert!(table.contains('\u{2014}'));
}

#[test]
fn generate_table_blocker() {
    let recipes = parse_csv(SAMPLE_CSV).unwrap_or_default();
    let table = generate_table(&recipes);
    assert!(table.contains("FJ-1126: ROCm userspace not installed"));
}

#[test]
fn generate_table_row_exact() {
    let recipes = parse_csv(SAMPLE_CSV).unwrap_or_default();
    let table = generate_table(&recipes);
    let lines: Vec<&str> = table.lines().collect();
    assert_eq!(
        lines[2],
        "| 1 | developer-workstation | infra | ![qualified](https://img.shields.io/badge/QUALIFIED-brightgreen) | 2+3 | Strong | 45.0s | 1.2s | \u{2014} |"
    );
    assert_eq!(
        lines[4],
        "| 7 | rocm-gpu | gpu | ![blocked](https://img.shields.io/badge/BLOCKED-red) | 3 | Strong | \u{2014} | \u{2014} | FJ-1126: ROCm userspace not installed |"
    );
}

#[test]
fn format_duration_zero() {
    assert_eq!(format_duration(0), "\u{2014}");
}

#[test]
fn format_duration_millis() {
    assert_eq!(format_duration(500), "500ms");
}

#[test]
fn format_duration_seconds() {
    assert_eq!(format_duration(1200), "1.2s");
    assert_eq!(format_duration(45000), "45.0s");
}

#[test]
fn format_duration_matches_float_rendering() {
    let mut samples: Vec<u64> = vec![
        1000, 1049, 1050, 1051, 1149, 1150, 1250, 1350, 2250, 9950, 9999, 10050, 12345,
        99_950, 123_456_789, 4_503_599_627_370_496, 9_007_199_254_740_993, u64::MAX,
    ];
    let mut x: u64 = 1000;
    while x < 2_000_000 {
        samples.push(x);
        x += 37;
    }
    for ms in samples {
        #[allow(clippy::cast_precision_loss)]
        let expected = format!("{:.1}s", ms as f64 / 1000.0);
        assert_eq!(format_duration(ms), expected, "ms = {ms}");
    }
    for ms in 1..1000u64 {
        assert_eq!(format_duration(ms), format!("{ms}ms"));
    }
}

#[test]
fn write_csv_roundtrip() {
    let recipes = parse_csv(SAMPLE_CSV).unwrap_or_default();
    let output = write_csv(&recipes);
    let reparsed = parse_csv(&output).unwrap_or_default();
    assert_eq!(recipes.len(), reparsed.len());
    for (orig, re) in recipes.iter().zip(reparsed.iter()) {
        assert_eq!(orig.recipe_num, re.recipe_num);
        assert_eq!(orig.name, re.name);
        assert_eq!(orig.status, re.status);
    }
}

#[test]
fn write_csv_then_parse_gives_sorted_records() {
    let recipes = vec![
        record(9, "nine", RecipeStatus::Pending),
        record(3, "three", RecipeStatus::Qualified),
    ];
    let reparsed = parse_csv(&write_csv(&recipes)).unwrap_or_default();
    assert_eq!(reparsed, vec![recipes[1].clone(), recipes[0].clone()]);
}

#[test]
fn write_csv_has_header() {
    let recipes = parse_csv(SAMPLE_CSV).unwrap_or_default();
    let output = write_csv(&recipes);
    assert!(output.starts_with("recipe_num,name,category,status,"));
}

#[test]
fn write_csv_sorted() {
    let recipes = parse_csv(SAMPLE_CSV).unwrap_or_default();
    let output = write_csv(&recipes);
    let lines: Vec<&str> = output.lines().collect();
    assert!(lines[1].starts_with("1,"));
    assert!(lines[2].starts_with("2,"));
    assert!(lines[3].starts_with("7,"));
    assert!(lines[4].starts_with("40,"));
}

#[test]
fn write_csv_reproduces_sample() {
    let recipes = parse_csv(SAMPLE_CSV).unwrap_or_default();
    assert_eq!(write_csv(&recipes), SAMPLE_CSV);
}

#[test]
fn update_readme_success() {
    let readme =
        format!("# Title\n\nSome text.\n\n{START_MARKER}\nold content\n{END_MARKER}\n\nFooter.");
    let result = update_readme(&readme, "new table content");
    assert!(result.is_ok());
    let updated = result.unwrap_or_default();
    assert!(updated.contains("new table content"));
    assert!(!updated.contains("old content"));
    assert!(updated.contains("# Title"));
    assert!(updated.contains("Footer."));
}

#[test]
fn update_readme_missing_start_marker() {
    let readme = format!("# Title\n\n{END_MARKER}\n");
    let result = update_readme(&readme, "content");
    assert!(result.is_err());
    let Err(err) = result else { return };
    assert!(err.contains("start marker"));
}

#[test]
fn update_readme_missing_end_marker() {
    let readme = format!("# Title\n\n{START_MARKER}\n");
    let result = update_readme(&readme, "content");
    assert!(result.is_err());
    let Err(err) = result else { return };
    assert!(err.contains("end marker"));
}

#[test]
fn update_readme_preserves_surrounding_text() {
    let readme = format!("BEFORE\n{START_MARKER}\nstuff\n{END_MARKER}\nAFTER");
    let result = update_readme(&readme, "TABLE").unwrap_or_default();
    assert!(result.starts_with("BEFORE"));
    assert!(result.ends_with("AFTER"));
    assert!(result.contains("TABLE"));
}

#[test]
fn update_readme_reversed_markers() {
    let readme = format!("{END_MARKER}\nstuff\n{START_MARKER}\n");
    let result = update_readme(&readme, "content");
    assert!(result.is_err());
    let Err(err) = result else { return };
    assert!(err.contains("end marker appears before start marker"));
}

#[test]
fn update_readme_exact_output_and_errors() {
    let readme = format!("A{START_MARKER}old{END_MARKER}B");
    assert_eq!(
        update_readme(&readme, "new"),
        Ok(format!("A{START_MARKER}\nnew\n{END_MARKER}B"))
    );
    assert_eq!(
        update_readme("plain", "x"),
        Err(format!("missing start marker: {START_MARKER}"))
    );
    assert_eq!(
        update_readme(START_MARKER, "x"),
        Err(format!("missing end marker: {END_MARKER}"))
    );
}

#[test]
fn update_readme_twice_equals_once() {
    let readme = format!("# T\n{START_MARKER}\nold\n{END_MARKER}\nfoot\n{END_MARKER}\n");
    let once = update_readme(&readme, "second").unwrap_or_default();
    let first = update_readme(&readme, "first").unwrap_or_default();
    let twice = update_readme(&first, "second").unwrap_or_default();
    assert_eq!(once, twice);
}

#[test]
fn parse_csv_too_few_fields() {
    let csv = "recipe_num,name,category,status,tier,idempotency_class,\
               first_apply_ms,idempotent_apply_ms,blocker_ticket,\
               blocker_description,last_qualified,qualified_by\n\
               1,test,infra\n";
    let result = parse_csv(csv);
    assert!(result.is_err());
}

#[test]
fn generate_table_empty() {
    let table = generate_table(&[]);
    let lines: Vec<&str> = table.lines().collect();
    assert_eq!(lines.len(), 2);
    assert!(lines[0].contains("# | Recipe"));
}

#[test]
fn write_csv_empty() {
    let output = write_csv(&[]);
    assert!(output.starts_with("recipe_num,name,"));
    assert_eq!(output.trim().lines().count(), 1);
}
