use signal_hive::models::RepoListItem;
use signal_hive::repo_lists::{
    list_repo_lists, normalize_repo_list_type, normalize_repo_name, repo_allowed, repo_list_sets,
};
use signal_hive::schema::{migration_columns, migration_for, MigrationColumn};

fn item(repo: &str, list_type: &str) -> RepoListItem {
    RepoListItem { repo: repo.into(), list_type: list_type.into(), added_at: "t".into() }
}

#[test]
fn list_types_are_normalised() {
    assert_eq!(normalize_repo_list_type(" Allowlist "), Some("allowlist"));
    assert_eq!(normalize_repo_list_type("blocklist"), Some("denylist"));
    assert_eq!(normalize_repo_list_type("OPT-OUT"), Some("opt_out"));
    assert_eq!(normalize_repo_list_type("optout"), Some("opt_out"));
    assert_eq!(normalize_repo_list_type("maybe"), None);
    for canonical in ["allowlist", "denylist", "opt_out"] {
        assert_eq!(normalize_repo_list_type(canonical), Some(canonical));
    }
}

#[test]
fn repo_names_are_normalised() {
    assert_eq!(normalize_repo_name(" PatchHive/SignalHive "), Some("patchhive/signalhive".into()));
    assert_eq!(normalize_repo_name("owner//repo/"), Some("owner/repo".into()));
    assert_eq!(normalize_repo_name("owner / repo"), Some("owner/repo".into()));
    assert_eq!(normalize_repo_name("a/b/c"), None);
    assert_eq!(normalize_repo_name("single"), None);
    let once = normalize_repo_name(" A/B ").unwrap();
    assert_eq!(normalize_repo_name(&once), Some(once.clone()));
}

#[test]
fn stored_rows_get_canonical_types() {
    let items = list_repo_lists(vec![item("a/b", "Blocklist"), item("c/d", "weird"), item("e/f", "allowlist")]);
    let types: Vec<&str> = items.iter().map(|i| i.list_type.as_str()).collect();
    assert_eq!(types, vec!["denylist", "denylist", "allowlist"]);
    assert_eq!(items[0].repo, "a/b");
}

#[test]
fn list_sets_split_by_type_without_repeats() {
    let rows = vec![
        item("a/b", "allowlist"),
        item("a/b", "allowlist"),
        item("c/d", "denylist"),
        item("e/f", "opt_out"),
    ];
    let (allow, deny, opt_out) = repo_list_sets(&rows);
    assert_eq!(allow, vec!["a/b".to_string()]);
    assert_eq!(deny, vec!["c/d".to_string()]);
    assert_eq!(opt_out, vec!["e/f".to_string()]);
}

#[test]
fn denied_and_opted_out_repos_are_never_allowed() {
    let allow = vec!["a/b".to_string(), "c/d".to_string()];
    let deny = vec!["c/d".to_string()];
    let opt = vec!["e/f".to_string()];
    assert!(repo_allowed("A/B", &allow, &deny, &opt));
    assert!(!repo_allowed("c/d", &allow, &deny, &opt));
    assert!(!repo_allowed("x/y", &allow, &deny, &opt));
    assert!(repo_allowed("x/y", &Vec::new(), &deny, &opt));
    assert!(!repo_allowed("E/F", &Vec::new(), &deny, &opt));
}

#[test]
fn migrations_add_only_missing_columns() {
    assert_eq!(migration_columns().len(), 13);
    let existing = vec!["id".to_string(), "params_signature".to_string()];
    assert_eq!(migration_for(&existing, MigrationColumn::ScansParamsSignature), None);
    assert_eq!(
        migration_for(&existing, MigrationColumn::ScansTriggerType),
        Some("ALTER TABLE scans ADD COLUMN trigger_type TEXT NOT NULL DEFAULT 'manual';")
    );
}

#[test]
fn list_counts_follow_list_types() {
    let rows = vec![item("a/b", "allowlist"), item("c/d", "denylist"), item("e/f", "denylist"), item("g/h", "opt_out")];
    assert_eq!(signal_hive::repo_lists::list_counts(&rows), (1, 2, 1));
}

#[test]
fn migration_statements_name_their_table_column_and_declaration() {
    assert_eq!(
        MigrationColumn::RepoSignalsTodoAvailable.add_column_sql(),
        "ALTER TABLE repo_signals ADD COLUMN todo_available INTEGER NOT NULL DEFAULT 1;"
    );
    assert_eq!(MigrationColumn::RepoSignalsTodoAvailable.table_info_sql(), "PRAGMA table_info(repo_signals)");
    assert_eq!(
        MigrationColumn::ScansTriggerType.add_column_sql(),
        format!("ALTER TABLE scans ADD COLUMN {} TEXT NOT NULL DEFAULT 'manual';", MigrationColumn::ScansTriggerType.column_name())
    );
    assert_eq!(MigrationColumn::ScansTriggerType.table_info_sql(), "PRAGMA table_info(scans)");
}
