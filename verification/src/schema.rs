//! Columns added to older databases, and the decision to add them.
use crate::text::{chars_eq, chars_of};
use vstd::prelude::*;

verus! {

/// A column that later versions added to an existing table.
#[derive(Clone, Copy, PartialEq, Eq, Structural, Debug)]
pub enum MigrationColumn {
    ScansParamsSignature,
    ScansWarningsJson,
    ScansTriggerType,
    ScansScheduleName,
    RepoSignalsSampledIssues,
    RepoSignalsUnlabeledIssues,
    RepoSignalsStaleBugIssues,
    RepoSignalsStaleHighCommentIssues,
    RepoSignalsScoreBreakdownJson,
    RepoSignalsRecurringBugClustersJson,
    RepoSignalsTodoAvailable,
    RepoSignalsFixmeAvailable,
    RepoSignalsWarningsJson,
}

pub open spec fn column_name_spec(c: MigrationColumn) -> Seq<char> {
    match c {
        MigrationColumn::ScansParamsSignature => "params_signature"@,
        MigrationColumn::ScansWarningsJson => "warnings_json"@,
        MigrationColumn::RepoSignalsWarningsJson => "warnings_json"@,
        MigrationColumn::ScansTriggerType => "trigger_type"@,
        MigrationColumn::ScansScheduleName => "schedule_name"@,
        MigrationColumn::RepoSignalsSampledIssues => "sampled_issues"@,
        MigrationColumn::RepoSignalsUnlabeledIssues => "unlabeled_issues"@,
        MigrationColumn::RepoSignalsStaleBugIssues => "stale_bug_issues"@,
        MigrationColumn::RepoSignalsStaleHighCommentIssues => "stale_high_comment_issues"@,
        MigrationColumn::RepoSignalsScoreBreakdownJson => "score_breakdown_json"@,
        MigrationColumn::RepoSignalsRecurringBugClustersJson => "recurring_bug_clusters_json"@,
        MigrationColumn::RepoSignalsTodoAvailable => "todo_available"@,
        MigrationColumn::RepoSignalsFixmeAvailable => "fixme_available"@,
    }
}

/// Whether the column belongs to the `scans` table (otherwise to
/// `repo_signals`).
pub open spec fn on_scans_table(c: MigrationColumn) -> bool {
    match c {
        MigrationColumn::ScansParamsSignature | MigrationColumn::ScansWarningsJson
        | MigrationColumn::ScansTriggerType | MigrationColumn::ScansScheduleName => true,
        _ => false,
    }
}

pub open spec fn table_info_sql_spec(c: MigrationColumn) -> Seq<char> {
    if on_scans_table(c) {
        "PRAGMA table_info(scans)"@
    } else {
        "PRAGMA table_info(repo_signals)"@
    }
}

pub open spec fn add_column_sql_spec(c: MigrationColumn) -> Seq<char> {
    match c {
        MigrationColumn::ScansParamsSignature =>
            "ALTER TABLE scans ADD COLUMN params_signature TEXT NOT NULL DEFAULT '';"@,
        MigrationColumn::ScansWarningsJson =>
            "ALTER TABLE scans ADD COLUMN warnings_json TEXT NOT NULL DEFAULT '[]';"@,
        MigrationColumn::ScansTriggerType =>
            "ALTER TABLE scans ADD COLUMN trigger_type TEXT NOT NULL DEFAULT 'manual';"@,
        MigrationColumn::ScansScheduleName => "ALTER TABLE scans ADD COLUMN schedule_name TEXT;"@,
        MigrationColumn::RepoSignalsSampledIssues =>
            "ALTER TABLE repo_signals ADD COLUMN sampled_issues INTEGER NOT NULL DEFAULT 0;"@,
        MigrationColumn::RepoSignalsUnlabeledIssues =>
            "ALTER TABLE repo_signals ADD COLUMN unlabeled_issues INTEGER NOT NULL DEFAULT 0;"@,
        MigrationColumn::RepoSignalsStaleBugIssues =>
            "ALTER TABLE repo_signals ADD COLUMN stale_bug_issues INTEGER NOT NULL DEFAULT 0;"@,
        MigrationColumn::RepoSignalsStaleHighCommentIssues =>
            "ALTER TABLE repo_signals ADD COLUMN stale_high_comment_issues INTEGER NOT NULL DEFAULT 0;"@,
        MigrationColumn::RepoSignalsScoreBreakdownJson =>
            "ALTER TABLE repo_signals ADD COLUMN score_breakdown_json TEXT NOT NULL DEFAULT '[]';"@,
        MigrationColumn::RepoSignalsRecurringBugClustersJson =>
            "ALTER TABLE repo_signals ADD COLUMN recurring_bug_clusters_json TEXT NOT NULL DEFAULT '[]';"@,
        MigrationColumn::RepoSignalsTodoAvailable =>
            "ALTER TABLE repo_signals ADD COLUMN todo_available INTEGER NOT NULL DEFAULT 1;"@,
        MigrationColumn::RepoSignalsFixmeAvailable =>
            "ALTER TABLE repo_signals ADD COLUMN fixme_available INTEGER NOT NULL DEFAULT 1;"@,
        MigrationColumn::RepoSignalsWarningsJson =>
            "ALTER TABLE repo_signals ADD COLUMN warnings_json TEXT NOT NULL DEFAULT '[]';"@,
    }
}

/// The table a migration column belongs to.
pub open spec fn table_name(c: MigrationColumn) -> Seq<char> {
    if on_scans_table(c) {
        "scans"@
    } else {
        "repo_signals"@
    }
}

/// The column's type and default, as the table's `CREATE TABLE` declares it.
pub open spec fn column_declaration(c: MigrationColumn) -> Seq<char> {
    match c {
        MigrationColumn::ScansParamsSignature => "TEXT NOT NULL DEFAULT ''"@,
        MigrationColumn::ScansWarningsJson => "TEXT NOT NULL DEFAULT '[]'"@,
        MigrationColumn::ScansTriggerType => "TEXT NOT NULL DEFAULT 'manual'"@,
        MigrationColumn::ScansScheduleName => "TEXT"@,
        MigrationColumn::RepoSignalsSampledIssues => "INTEGER NOT NULL DEFAULT 0"@,
        MigrationColumn::RepoSignalsUnlabeledIssues => "INTEGER NOT NULL DEFAULT 0"@,
        MigrationColumn::RepoSignalsStaleBugIssues => "INTEGER NOT NULL DEFAULT 0"@,
        MigrationColumn::RepoSignalsStaleHighCommentIssues => "INTEGER NOT NULL DEFAULT 0"@,
        MigrationColumn::RepoSignalsScoreBreakdownJson => "TEXT NOT NULL DEFAULT '[]'"@,
        MigrationColumn::RepoSignalsRecurringBugClustersJson => "TEXT NOT NULL DEFAULT '[]'"@,
        MigrationColumn::RepoSignalsTodoAvailable => "INTEGER NOT NULL DEFAULT 1"@,
        MigrationColumn::RepoSignalsFixmeAvailable => "INTEGER NOT NULL DEFAULT 1"@,
        MigrationColumn::RepoSignalsWarningsJson => "TEXT NOT NULL DEFAULT '[]'"@,
    }
}

/// Each migration statement names the column's own table, the column's
/// name and the declaration the table's `CREATE TABLE` gives it: adding a
/// missing column makes an old table like a new one.
pub proof fn law_migration_statements_match_their_column(c: MigrationColumn)
    ensures
        add_column_sql_spec(c) == "ALTER TABLE "@ + table_name(c) + " ADD COLUMN "@ + column_name_spec(c) + " "@
            + column_declaration(c) + ";"@,
        table_info_sql_spec(c) == "PRAGMA table_info("@ + table_name(c) + ")"@,
{
    reveal_strlit("ALTER TABLE ");
    reveal_strlit(" ADD COLUMN ");
    reveal_strlit(" ");
    reveal_strlit(";");
    reveal_strlit("PRAGMA table_info(");
    reveal_strlit(")");
    match c {
        MigrationColumn::ScansParamsSignature => {
            reveal_strlit("scans");
            reveal_strlit("params_signature");
            reveal_strlit("TEXT NOT NULL DEFAULT ''");
            reveal_strlit("ALTER TABLE scans ADD COLUMN params_signature TEXT NOT NULL DEFAULT '';");
            reveal_strlit("PRAGMA table_info(scans)");
        },
        MigrationColumn::ScansWarningsJson => {
            reveal_strlit("scans");
            reveal_strlit("warnings_json");
            reveal_strlit("TEXT NOT NULL DEFAULT '[]'");
            reveal_strlit("ALTER TABLE scans ADD COLUMN warnings_json TEXT NOT NULL DEFAULT '[]';");
            reveal_strlit("PRAGMA table_info(scans)");
        },
        MigrationColumn::ScansTriggerType => {
            reveal_strlit("scans");
            reveal_strlit("trigger_type");
            reveal_strlit("TEXT NOT NULL DEFAULT 'manual'");
            reveal_strlit("ALTER TABLE scans ADD COLUMN trigger_type TEXT NOT NULL DEFAULT 'manual';");
            reveal_strlit("PRAGMA table_info(scans)");
        },
        MigrationColumn::ScansScheduleName => {
            reveal_strlit("scans");
            reveal_strlit("schedule_name");
            reveal_strlit("TEXT");
            reveal_strlit("ALTER TABLE scans ADD COLUMN schedule_name TEXT;");
            reveal_strlit("PRAGMA table_info(scans)");
        },
        MigrationColumn::RepoSignalsSampledIssues => {
            reveal_strlit("repo_signals");
            reveal_strlit("sampled_issues");
            reveal_strlit("INTEGER NOT NULL DEFAULT 0");
            reveal_strlit("ALTER TABLE repo_signals ADD COLUMN sampled_issues INTEGER NOT NULL DEFAULT 0;");
            reveal_strlit("PRAGMA table_info(repo_signals)");
        },
        MigrationColumn::RepoSignalsUnlabeledIssues => {
            reveal_strlit("repo_signals");
            reveal_strlit("unlabeled_issues");
            reveal_strlit("INTEGER NOT NULL DEFAULT 0");
            reveal_strlit("ALTER TABLE repo_signals ADD COLUMN unlabeled_issues INTEGER NOT NULL DEFAULT 0;");
            reveal_strlit("PRAGMA table_info(repo_signals)");
        },
        MigrationColumn::RepoSignalsStaleBugIssues => {
            reveal_strlit("repo_signals");
            reveal_strlit("stale_bug_issues");
            reveal_strlit("INTEGER NOT NULL DEFAULT 0");
            reveal_strlit("ALTER TABLE repo_signals ADD COLUMN stale_bug_issues INTEGER NOT NULL DEFAULT 0;");
            reveal_strlit("PRAGMA table_info(repo_signals)");
        },
        MigrationColumn::RepoSignalsStaleHighCommentIssues => {
            reveal_strlit("repo_signals");
            reveal_strlit("stale_high_comment_issues");
            reveal_strlit("INTEGER NOT NULL DEFAULT 0");
            reveal_strlit("ALTER TABLE repo_signals ADD COLUMN stale_high_comment_issues INTEGER NOT NULL DEFAULT 0;");
            reveal_strlit("PRAGMA table_info(repo_signals)");
        },
        MigrationColumn::RepoSignalsScoreBreakdownJson => {
            reveal_strlit("repo_signals");
            reveal_strlit("score_breakdown_json");
            reveal_strlit("TEXT NOT NULL DEFAULT '[]'");
            reveal_strlit("ALTER TABLE repo_signals ADD COLUMN score_breakdown_json TEXT NOT NULL DEFAULT '[]';");
            reveal_strlit("PRAGMA table_info(repo_signals)");
        },
        MigrationColumn::RepoSignalsRecurringBugClustersJson => {
            reveal_strlit("repo_signals");
            reveal_strlit("recurring_bug_clusters_json");
            reveal_strlit("TEXT NOT NULL DEFAULT '[]'");
            reveal_strlit("ALTER TABLE repo_signals ADD COLUMN recurring_bug_clusters_json TEXT NOT NULL DEFAULT '[]';");
            reveal_strlit("PRAGMA table_info(repo_signals)");
        },
        MigrationColumn::RepoSignalsTodoAvailable => {
            reveal_strlit("repo_signals");
            reveal_strlit("todo_available");
            reveal_strlit("INTEGER NOT NULL DEFAULT 1");
            reveal_strlit("ALTER TABLE repo_signals ADD COLUMN todo_available INTEGER NOT NULL DEFAULT 1;");
            reveal_strlit("PRAGMA table_info(repo_signals)");
        },
        MigrationColumn::RepoSignalsFixmeAvailable => {
            reveal_strlit("repo_signals");
            reveal_strlit("fixme_available");
            reveal_strlit("INTEGER NOT NULL DEFAULT 1");
            reveal_strlit("ALTER TABLE repo_signals ADD COLUMN fixme_available INTEGER NOT NULL DEFAULT 1;");
            reveal_strlit("PRAGMA table_info(repo_signals)");
        },
        MigrationColumn::RepoSignalsWarningsJson => {
            reveal_strlit("repo_signals");
            reveal_strlit("warnings_json");
            reveal_strlit("TEXT NOT NULL DEFAULT '[]'");
            reveal_strlit("ALTER TABLE repo_signals ADD COLUMN warnings_json TEXT NOT NULL DEFAULT '[]';");
            reveal_strlit("PRAGMA table_info(repo_signals)");
        },
    }
    assert(add_column_sql_spec(c) =~= "ALTER TABLE "@ + table_name(c) + " ADD COLUMN "@ + column_name_spec(c) + " "@
        + column_declaration(c) + ";"@);
    assert(table_info_sql_spec(c) =~= "PRAGMA table_info("@ + table_name(c) + ")"@);
}

impl MigrationColumn {
    /// The column's name in its table.
    pub fn column_name(self) -> (name: &'static str)
        ensures
            name@ == column_name_spec(self),
    {
        match self {
            Self::ScansParamsSignature => "params_signature",
            Self::ScansWarningsJson | Self::RepoSignalsWarningsJson => "warnings_json",
            Self::ScansTriggerType => "trigger_type",
            Self::ScansScheduleName => "schedule_name",
            Self::RepoSignalsSampledIssues => "sampled_issues",
            Self::RepoSignalsUnlabeledIssues => "unlabeled_issues",
            Self::RepoSignalsStaleBugIssues => "stale_bug_issues",
            Self::RepoSignalsStaleHighCommentIssues => "stale_high_comment_issues",
            Self::RepoSignalsScoreBreakdownJson => "score_breakdown_json",
            Self::RepoSignalsRecurringBugClustersJson => "recurring_bug_clusters_json",
            Self::RepoSignalsTodoAvailable => "todo_available",
            Self::RepoSignalsFixmeAvailable => "fixme_available",
        }
    }

    /// The statement that lists the columns of the column's table.
    pub fn table_info_sql(self) -> (sql: &'static str)
        ensures
            sql@ == table_info_sql_spec(self),
    {
        match self {
            Self::ScansParamsSignature
            | Self::ScansWarningsJson
            | Self::ScansTriggerType
            | Self::ScansScheduleName => "PRAGMA table_info(scans)",
            Self::RepoSignalsSampledIssues
            | Self::RepoSignalsUnlabeledIssues
            | Self::RepoSignalsStaleBugIssues
            | Self::RepoSignalsStaleHighCommentIssues
            | Self::RepoSignalsScoreBreakdownJson
            | Self::RepoSignalsRecurringBugClustersJson
            | Self::RepoSignalsTodoAvailable
            | Self::RepoSignalsFixmeAvailable
            | Self::RepoSignalsWarningsJson => "PRAGMA table_info(repo_signals)",
        }
    }

    /// The statement that adds the column with its default.
    pub fn add_column_sql(self) -> (sql: &'static str)
        ensures
            sql@ == add_column_sql_spec(self),
    {
        match self {
            Self::ScansParamsSignature => {
                "ALTER TABLE scans ADD COLUMN params_signature TEXT NOT NULL DEFAULT '';"
            },
            Self::ScansWarningsJson => {
                "ALTER TABLE scans ADD COLUMN warnings_json TEXT NOT NULL DEFAULT '[]';"
            },
            Self::ScansTriggerType => {
                "ALTER TABLE scans ADD COLUMN trigger_type TEXT NOT NULL DEFAULT 'manual';"
            },
            Self::ScansScheduleName => "ALTER TABLE scans ADD COLUMN schedule_name TEXT;",
            Self::RepoSignalsSampledIssues => {
                "ALTER TABLE repo_signals ADD COLUMN sampled_issues INTEGER NOT NULL DEFAULT 0;"
            },
            Self::RepoSignalsUnlabeledIssues => {
                "ALTER TABLE repo_signals ADD COLUMN unlabeled_issues INTEGER NOT NULL DEFAULT 0;"
            },
            Self::RepoSignalsStaleBugIssues => {
                "ALTER TABLE repo_signals ADD COLUMN stale_bug_issues INTEGER NOT NULL DEFAULT 0;"
            },
            Self::RepoSignalsStaleHighCommentIssues => {
                "ALTER TABLE repo_signals ADD COLUMN stale_high_comment_issues INTEGER NOT NULL DEFAULT 0;"
            },
            Self::RepoSignalsScoreBreakdownJson => {
                "ALTER TABLE repo_signals ADD COLUMN score_breakdown_json TEXT NOT NULL DEFAULT '[]';"
            },
            Self::RepoSignalsRecurringBugClustersJson => {
                "ALTER TABLE repo_signals ADD COLUMN recurring_bug_clusters_json TEXT NOT NULL DEFAULT '[]';"
            },
            Self::RepoSignalsTodoAvailable => {
                "ALTER TABLE repo_signals ADD COLUMN todo_available INTEGER NOT NULL DEFAULT 1;"
            },
            Self::RepoSignalsFixmeAvailable => {
                "ALTER TABLE repo_signals ADD COLUMN fixme_available INTEGER NOT NULL DEFAULT 1;"
            },
            Self::RepoSignalsWarningsJson => {
                "ALTER TABLE repo_signals ADD COLUMN warnings_json TEXT NOT NULL DEFAULT '[]';"
            },
        }
    }
}

/// The columns in the order the schema check visits them.
pub open spec fn migration_order() -> Seq<MigrationColumn> {
    seq![
        MigrationColumn::ScansParamsSignature,
        MigrationColumn::ScansWarningsJson,
        MigrationColumn::ScansTriggerType,
        MigrationColumn::ScansScheduleName,
        MigrationColumn::RepoSignalsSampledIssues,
        MigrationColumn::RepoSignalsUnlabeledIssues,
        MigrationColumn::RepoSignalsStaleBugIssues,
        MigrationColumn::RepoSignalsStaleHighCommentIssues,
        MigrationColumn::RepoSignalsScoreBreakdownJson,
        MigrationColumn::RepoSignalsRecurringBugClustersJson,
        MigrationColumn::RepoSignalsTodoAvailable,
        MigrationColumn::RepoSignalsFixmeAvailable,
        MigrationColumn::RepoSignalsWarningsJson,
    ]
}

pub fn migration_columns() -> (cols: Vec<MigrationColumn>)
    ensures
        cols@ == migration_order(),
{
    let cols = vec![
        MigrationColumn::ScansParamsSignature,
        MigrationColumn::ScansWarningsJson,
        MigrationColumn::ScansTriggerType,
        MigrationColumn::ScansScheduleName,
        MigrationColumn::RepoSignalsSampledIssues,
        MigrationColumn::RepoSignalsUnlabeledIssues,
        MigrationColumn::RepoSignalsStaleBugIssues,
        MigrationColumn::RepoSignalsStaleHighCommentIssues,
        MigrationColumn::RepoSignalsScoreBreakdownJson,
        MigrationColumn::RepoSignalsRecurringBugClustersJson,
        MigrationColumn::RepoSignalsTodoAvailable,
        MigrationColumn::RepoSignalsFixmeAvailable,
        MigrationColumn::RepoSignalsWarningsJson,
    ];
    assert(cols@ =~= migration_order());
    cols
}

/// Whether the table already has the column, given the names that
/// `table_info_sql` lists for it.
pub fn column_exists(existing_names: &Vec<String>, column: MigrationColumn) -> (exists: bool)
    ensures
        exists == existing_names.deep_view().contains(column_name_spec(column)),
{
    let target = chars_of(column.column_name());
    let mut i: usize = 0;
    while i < existing_names.len()
        invariant
            target@ == column_name_spec(column),
            i <= existing_names@.len(),
            forall|k: int| 0 <= k < i ==> existing_names.deep_view()[k] != target@,
        decreases existing_names@.len() - i,
    {
        let name = chars_of(existing_names[i].as_str());
        assert(existing_names.deep_view()[i as int] == name@);
        if chars_eq(&name, &target) {
            return true;
        }
        i += 1;
    }
    false
}

/// The statement to run for a column: its `ALTER TABLE` when the table lacks
/// it, nothing when it is already there.
pub fn migration_for(existing_names: &Vec<String>, column: MigrationColumn) -> (sql: Option<
    &'static str,
>)
    ensures
        match sql {
            Some(s) => !existing_names.deep_view().contains(column_name_spec(column)) && s@
                == add_column_sql_spec(column),
            None => existing_names.deep_view().contains(column_name_spec(column)),
        },
{
    if column_exists(existing_names, column) {
        None
    } else {
        Some(column.add_column_sql())
    }
}

} // verus!
