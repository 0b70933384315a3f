use cookbook_qualify::{
    generate_summary, generate_table, parse_csv, sync_contents, sync_records, update_readme,
    IdempotencyClass, RecipeStatus, SyncResult, END_MARKER, START_MARKER,
};

fn sample_csv() -> String {
    "\
recipe_num,name,category,status,tier,idempotency_class,first_apply_ms,idempotent_apply_ms,blocker_ticket,blocker_description,last_qualified,qualified_by
1,developer-workstation,infra,qualified,2+3,strong,45000,1200,,,2026-03-01,cookbook-runner
2,web-server,infra,pending,2+3,strong,,,,,,
"
    .to_string()
}

fn sample_readme() -> String {
    format!("# Cookbook\n\nIntro text.\n\n{START_MARKER}\nold table\n{END_MARKER}\n\nFooter.\n")
}

#[test]
fn sync_contents_success() {
    let result = sync_contents(&sample_csv(), &sample_readme(), "2026-03-01 12:00 UTC");
    assert!(result.is_ok());
    let (updated, sr) = result.unwrap_or((String::new(), SyncResult { total: 0, qualified: 0 }));
    assert_eq!(sr.total, 2);
    assert_eq!(sr.qualified, 1);
    assert!(updated.contains("developer-workstation"));
    assert!(updated.contains("Qualified | 1"));
    assert!(!updated.contains("old table"));
    assert!(updated.contains("Footer."));
}

#[test]
fn sync_contents_is_summary_then_table_between_markers() {
    let csv = sample_csv();
    let recipes = parse_csv(&csv).unwrap_or_default();
    let block = format!("{}\n\n{}", generate_summary(&recipes, "ts"), generate_table(&recipes));
    let expected = update_readme(&sample_readme(), &block);
    let got = sync_contents(&csv, &sample_readme(), "ts").map(|(t, _)| t);
    assert_eq!(got, expected);
}

#[test]
fn sync_contents_twice_is_once() {
    let once = sync_contents(&sample_csv(), &sample_readme(), "ts").map(|(t, _)| t);
    let first = once.clone().unwrap_or_default();
    let twice = sync_contents(&sample_csv(), &first, "ts").map(|(t, _)| t);
    assert_eq!(once, twice);
}

#[test]
fn sync_contents_missing_markers() {
    let result = sync_contents(&sample_csv(), "# No markers here\n", "ts");
    assert!(result.is_err());
    let Err(err) = result else { return };
    assert!(err.contains("marker"));
}

#[test]
fn sync_contents_bad_csv() {
    let csv = "recipe_num,name,category,status,tier,idempotency_class,first_apply_ms,idempotent_apply_ms,blocker_ticket,blocker_description,last_qualified,qualified_by\n1,x,infra,nope,1,strong,,,,,,\n";
    let result = sync_contents(csv, &sample_readme(), "ts");
    assert_eq!(result.map(|(t, _)| t), Err("CSV line 2: unknown status: nope".to_string()));
}

#[test]
fn sync_records_counts() {
    let recipes = parse_csv(&sample_csv()).unwrap_or_default();
    assert_eq!(recipes[1].idempotency_class, IdempotencyClass::Strong);
    assert_eq!(recipes[1].status, RecipeStatus::Pending);
    let (_, sr) = sync_records(&recipes, &sample_readme(), "ts")
        .unwrap_or((String::new(), SyncResult { total: 0, qualified: 0 }));
    assert_eq!(sr.total, 2);
    assert_eq!(sr.qualified, 1);
    let empty = sync_records(&Vec::new(), &sample_readme(), "ts");
    let (text, sr) = empty.unwrap_or((String::new(), SyncResult { total: 9, qualified: 9 }));
    assert_eq!(sr.total, 0);
    assert_eq!(sr.qualified, 0);
    assert!(text.contains("Qualified | 0"));
}

#[test]
fn sync_result_debug() {
    let sr = SyncResult { total: 10, qualified: 7 };
    let debug = format!("{sr:?}");
    assert!(debug.contains("10"));
    assert!(debug.contains('7'));
}

#[test]
fn tests_find_project_root_error_message() {
    let err_msg = "could not find project root (Cargo.toml + docs/certifications/)";
    assert!(err_msg.contains("project root"));
}

#[test]
fn readme_update_cycle() {
    let csv_input = "\
recipe_num,name,category,status,tier,idempotency_class,\
first_apply_ms,idempotent_apply_ms,blocker_ticket,\
blocker_description,last_qualified,qualified_by
1,test-recipe,infra,qualified,2,strong,45000,1200,,,2026-03-01,runner
";
    let recipes = parse_csv(csv_input).expect("parse CSV");
    let summary = generate_summary(&recipes, "2026-03-01 12:00 UTC");
    let table = generate_table(&recipes);
    assert!(summary.contains("Qualified | 1"));
    assert!(summary.contains("Pending   | 0"));
    assert!(table.contains("test-recipe"));
    assert!(table.contains("infra"));
    let readme = "# Forjar Cookbook\n\n\
         <!-- QUALIFICATION_TABLE_START -->\n\
         old content\n\
         <!-- QUALIFICATION_TABLE_END -->\n\n\
         ## Footer"
        .to_string();
    let table_content = format!("{summary}\n\n{table}");
    let updated = update_readme(&readme, &table_content).expect("update README");
    assert!(updated.contains("test-recipe"));
    assert!(updated.contains("Qualified | 1"));
    assert!(updated.contains("## Footer"));
    assert!(!updated.contains("old content"));
}

#[test]
fn csv_parse_invalid_status_returns_error() {
    let csv = "\
recipe_num,name,category,status,tier,idempotency_class,\
first_apply_ms,idempotent_apply_ms,blocker_ticket,\
blocker_description,last_qualified,qualified_by
1,test,infra,invalid_status,1,strong,,,,,,
";
    let result = parse_csv(csv);
    assert!(result.is_err());
}
