//! Stored scans read back: a history line and a scan header from their
//! table rows, the JSON list columns parsed with an empty list in place of
//! text that does not parse.
use crate::models::{ScanHistoryItem, ScanParams, ScanRecord, ScanSummary};
use vstd::prelude::*;

verus! {

/// The list of strings that `serde_json::from_str::<Vec<String>>` reads
/// from a text, or `None` where the text is not a JSON array of strings.
pub uninterp spec fn string_list_json(text: Seq<char>) -> Option<Seq<Seq<char>>>;

pub open spec fn opt_list_view(o: Option<Vec<String>>) -> Option<Seq<Seq<char>>> {
    match o {
        Some(v) => Some(v.deep_view()),
        None => None,
    }
}

/// Calls `serde_json::from_str::<Vec<String>>` and keeps the list when the
/// text parses. The contract names the outcome `string_list_json` of the
/// text.
#[verifier::external_body]
fn parse_string_list(text: &str) -> (list: Option<Vec<String>>)
    ensures
        opt_list_view(list) == string_list_json(text@),
{
    serde_json::from_str::<Vec<String>>(text).ok()
}

/// A JSON list column read back: the list it holds, or an empty list.
pub open spec fn list_or_empty(text: Seq<char>) -> Seq<Seq<char>> {
    match string_list_json(text) {
        Some(l) => l,
        None => Seq::empty(),
    }
}

pub fn string_list_or_empty(text: &str) -> (list: Vec<String>)
    ensures
        list.deep_view() == list_or_empty(text@),
{
    match parse_string_list(text) {
        Some(l) => l,
        None => {
            let l: Vec<String> = Vec::new();
            assert(l.deep_view() =~= Seq::<Seq<char>>::empty());
            l
        },
    }
}

/// The columns of the `scans` table that the history shows.
pub struct HistoryRow {
    pub id: String,
    pub created_at: String,
    pub search_query: String,
    pub topics_json: String,
    pub languages_json: String,
    pub max_repos: u32,
    pub total_repos: u32,
    pub total_signals: u32,
    pub top_repo: String,
    pub warnings_json: String,
    pub trigger_type: String,
    pub schedule_name: Option<String>,
}

/// One line of the history from its row; the warnings are counted.
pub fn history_item_from_row(row: HistoryRow) -> (item: ScanHistoryItem)
    ensures
        item.id == row.id,
        item.created_at == row.created_at,
        item.search_query == row.search_query,
        item.topics.deep_view() == list_or_empty(row.topics_json@),
        item.languages.deep_view() == list_or_empty(row.languages_json@),
        item.max_repos == row.max_repos,
        item.total_repos == row.total_repos,
        item.total_signals == row.total_signals,
        item.top_repo == row.top_repo,
        item.warning_count == list_or_empty(row.warnings_json@).len() as u32,
        item.trigger_type == row.trigger_type,
        item.schedule_name == row.schedule_name,
{
    let topics = string_list_or_empty(row.topics_json.as_str());
    let languages = string_list_or_empty(row.languages_json.as_str());
    let warnings = string_list_or_empty(row.warnings_json.as_str());
    ScanHistoryItem {
        id: row.id,
        created_at: row.created_at,
        search_query: row.search_query,
        topics,
        languages,
        max_repos: row.max_repos,
        total_repos: row.total_repos,
        total_signals: row.total_signals,
        top_repo: row.top_repo,
        warning_count: warnings.len() as u32,
        trigger_type: row.trigger_type,
        schedule_name: row.schedule_name,
    }
}

/// The columns of the `scans` table that a scan record is read from.
pub struct ScanRow {
    pub created_at: String,
    pub search_query: String,
    pub topics_json: String,
    pub languages_json: String,
    pub min_stars: u32,
    pub max_repos: u32,
    pub issues_per_repo: u32,
    pub stale_days: u32,
    pub total_repos: u32,
    pub total_signals: u32,
    pub top_repo: String,
    pub warnings_json: String,
    pub trigger_type: String,
    pub schedule_name: Option<String>,
}

/// A stored scan from its row, before its repositories are read: no
/// repositories and no trend yet.
pub fn scan_record_from_row(id: String, row: ScanRow) -> (record: ScanRecord)
    ensures
        record.id == id,
        record.created_at == row.created_at,
        record.params.search_query == row.search_query,
        record.params.topics.deep_view() == list_or_empty(row.topics_json@),
        record.params.languages.deep_view() == list_or_empty(row.languages_json@),
        record.params.min_stars == row.min_stars,
        record.params.max_repos == row.max_repos,
        record.params.issues_per_repo == row.issues_per_repo,
        record.params.stale_days == row.stale_days,
        record.summary.total_repos == row.total_repos,
        record.summary.total_signals == row.total_signals,
        record.summary.top_repo == row.top_repo,
        record.warnings.deep_view() == list_or_empty(row.warnings_json@),
        record.repos@.len() == 0,
        record.trigger_type == row.trigger_type,
        record.schedule_name == row.schedule_name,
        record.trend is None,
{
    let topics = string_list_or_empty(row.topics_json.as_str());
    let languages = string_list_or_empty(row.languages_json.as_str());
    let warnings = string_list_or_empty(row.warnings_json.as_str());
    ScanRecord {
        id,
        created_at: row.created_at,
        params: ScanParams {
            search_query: row.search_query,
            topics,
            languages,
            min_stars: row.min_stars,
            max_repos: row.max_repos,
            issues_per_repo: row.issues_per_repo,
            stale_days: row.stale_days,
        },
        summary: ScanSummary {
            total_repos: row.total_repos,
            total_signals: row.total_signals,
            top_repo: row.top_repo,
        },
        repos: Vec::new(),
        warnings,
        trigger_type: row.trigger_type,
        schedule_name: row.schedule_name,
        trend: None,
    }
}

} // verus!
