//! Scheduled scans: the cadence rule, the row written when a schedule is
//! saved, and schedules read back from storage.
use crate::clock::{hours_from_now_rfc3339, now_rfc3339, utc_rfc3339_shape};
use crate::models::{ScanParams, ScanSchedule};
use crate::text::{chars_of, lex_lt, lex_lt_chars, string_from, trim, trim_str};
use vstd::prelude::*;

verus! {

/// Schedules run at least every hour: a cadence of 0 counts as 1.
pub open spec fn cadence_spec(cadence_hours: u32) -> u32 {
    if cadence_hours < 1 {
        1
    } else {
        cadence_hours
    }
}

pub fn effective_cadence(cadence_hours: u32) -> (c: u32)
    ensures
        c == cadence_spec(cadence_hours),
        c >= 1,
{
    if cadence_hours < 1 {
        1
    } else {
        cadence_hours
    }
}

/// The name under which a preset or schedule is saved, run or deleted: the
/// given name with surrounding whitespace removed; `None` when nothing is
/// left, which the caller refuses as a bad request.
pub fn entry_name(name: &str) -> (r: Option<String>)
    ensures
        r is Some <==> trim(name@).len() > 0,
        r matches Some(n) ==> n@ == trim(name@),
{
    let t = trim_str(name);
    if t.len() == 0 {
        None
    } else {
        Some(string_from(&t))
    }
}

/// The next run time: now plus the effective cadence, as RFC 3339 text in
/// UTC. Which instant that is depends on the clock.
pub fn next_run_at(cadence_hours: u32) -> (text: String)
    requires
        cadence_hours <= 2_000_000_000,
    ensures
        utc_rfc3339_shape(text@),
{
    hours_from_now_rfc3339(effective_cadence(cadence_hours))
}

/// Saving keeps the stored next run when the schedule already exists with
/// the same enabled flag and the same effective cadence.
pub open spec fn keeps_next_run(
    existing: Option<ScanSchedule>,
    cadence_hours: u32,
    enabled: bool,
) -> bool {
    match existing {
        Some(s) => s.enabled == enabled && s.cadence_hours == cadence_spec(cadence_hours),
        None => false,
    }
}

/// What a save writes, given the current time and a freshly computed next
/// run: the name, parameters, effective cadence and flag given; the
/// creation time, run history and status of an existing schedule (the
/// current time and `idle` for a new one); the stored next run when
/// `keeps_next_run`, else the fresh one; updated now.
pub fn schedule_to_save(
    existing: Option<ScanSchedule>,
    name: &str,
    params: ScanParams,
    cadence_hours: u32,
    enabled: bool,
    now: String,
    fresh_next_run: String,
) -> (saved: ScanSchedule)
    ensures
        saved.name@ == name@,
        saved.params == params,
        saved.cadence_hours == cadence_spec(cadence_hours),
        saved.enabled == enabled,
        saved.updated_at == now,
        saved.next_run_at == if keeps_next_run(existing, cadence_hours, enabled) {
            existing.unwrap().next_run_at
        } else {
            fresh_next_run
        },
        match existing {
            Some(e) => {
                &&& saved.created_at == e.created_at
                &&& saved.last_run_at == e.last_run_at
                &&& saved.last_scan_id == e.last_scan_id
                &&& saved.last_status == e.last_status
                &&& saved.last_error == e.last_error
            },
            None => {
                &&& saved.created_at == now
                &&& saved.last_run_at is None
                &&& saved.last_scan_id is None
                &&& saved.last_status@ == "idle"@
                &&& saved.last_error is None
            },
        },
{
    let cadence = effective_cadence(cadence_hours);
    match existing {
        Some(e) => {
            let keep = e.enabled == enabled && e.cadence_hours == cadence;
            let next_run_at = if keep {
                e.next_run_at
            } else {
                fresh_next_run
            };
            ScanSchedule {
                name: String::from_str(name),
                params,
                cadence_hours: cadence,
                enabled,
                created_at: e.created_at,
                updated_at: now,
                next_run_at,
                last_run_at: e.last_run_at,
                last_scan_id: e.last_scan_id,
                last_status: e.last_status,
                last_error: e.last_error,
            }
        },
        None => {
            let created_at = now.clone();
            ScanSchedule {
                name: String::from_str(name),
                params,
                cadence_hours: cadence,
                enabled,
                created_at,
                updated_at: now,
                next_run_at: fresh_next_run,
                last_run_at: None,
                last_scan_id: None,
                last_status: String::from_str("idle"),
                last_error: None,
            }
        },
    }
}

/// The row a save writes, with the current time read from the clock and a
/// next run computed only when the stored one is not kept. The update time
/// is the current time; a new schedule is created at that same time; the
/// fresh next run is the effective cadence from now (see `next_run_at`).
pub fn save_scan_schedule(
    existing: Option<ScanSchedule>,
    name: &str,
    params: ScanParams,
    cadence_hours: u32,
    enabled: bool,
) -> (saved: ScanSchedule)
    requires
        cadence_hours <= 2_000_000_000,
    ensures
        saved.name@ == name@,
        saved.params == params,
        saved.cadence_hours == cadence_spec(cadence_hours),
        saved.enabled == enabled,
        utc_rfc3339_shape(saved.updated_at@),
        if keeps_next_run(existing, cadence_hours, enabled) {
            saved.next_run_at == existing.unwrap().next_run_at
        } else {
            utc_rfc3339_shape(saved.next_run_at@)
        },
        match existing {
            Some(e) => {
                &&& saved.created_at == e.created_at
                &&& saved.last_run_at == e.last_run_at
                &&& saved.last_scan_id == e.last_scan_id
                &&& saved.last_status == e.last_status
                &&& saved.last_error == e.last_error
            },
            None => {
                &&& saved.created_at == saved.updated_at
                &&& saved.last_run_at is None
                &&& saved.last_scan_id is None
                &&& saved.last_status@ == "idle"@
                &&& saved.last_error is None
            },
        },
{
    let now = now_rfc3339();
    let keep = match &existing {
        Some(e) => e.enabled == enabled && e.cadence_hours == effective_cadence(cadence_hours),
        None => false,
    };
    let fresh = if keep {
        String::new()
    } else {
        next_run_at(cadence_hours)
    };
    schedule_to_save(existing, name, params, cadence_hours, enabled, now, fresh)
}

/// A schedule row as stored: `enabled` is an integer column.
pub struct StoredSchedule {
    pub name: String,
    pub params: ScanParams,
    pub cadence_hours: u32,
    pub enabled: i64,
    pub created_at: String,
    pub updated_at: String,
    pub next_run_at: String,
    pub last_run_at: Option<String>,
    pub last_scan_id: Option<String>,
    pub last_status: String,
    pub last_error: Option<String>,
}

pub open spec fn from_row(row: StoredSchedule, s: ScanSchedule) -> bool {
    &&& s.name == row.name
    &&& s.params == row.params
    &&& s.cadence_hours == row.cadence_hours
    &&& s.enabled == (row.enabled != 0)
    &&& s.created_at == row.created_at
    &&& s.updated_at == row.updated_at
    &&& s.next_run_at == row.next_run_at
    &&& s.last_run_at == row.last_run_at
    &&& s.last_scan_id == row.last_scan_id
    &&& s.last_status == row.last_status
    &&& s.last_error == row.last_error
}

fn scan_schedule_from_row(row: StoredSchedule) -> (s: ScanSchedule)
    ensures
        from_row(row, s),
{
    ScanSchedule {
        name: row.name,
        params: row.params,
        cadence_hours: row.cadence_hours,
        enabled: row.enabled != 0,
        created_at: row.created_at,
        updated_at: row.updated_at,
        next_run_at: row.next_run_at,
        last_run_at: row.last_run_at,
        last_scan_id: row.last_scan_id,
        last_status: row.last_status,
        last_error: row.last_error,
    }
}

/// The stored schedule rows as schedules, in the same order.
pub fn list_scan_schedules(rows: Vec<StoredSchedule>) -> (schedules: Vec<ScanSchedule>)
    ensures
        schedules@.len() == rows@.len(),
        forall|i: int| 0 <= i < rows@.len() ==> from_row(rows@[i], #[trigger] schedules@[i]),
{
    let ghost given = rows@;
    let mut rest = rows;
    let mut reversed: Vec<ScanSchedule> = Vec::new();
    while rest.len() > 0
        invariant
            rest@.len() + reversed@.len() == given.len(),
            forall|i: int| 0 <= i < rest@.len() ==> #[trigger] rest@[i] == given[i],
            forall|k: int|
                0 <= k < reversed@.len() ==> from_row(
                    given[given.len() - 1 - k],
                    #[trigger] reversed@[k],
                ),
        decreases rest@.len(),
    {
        let row = rest.pop().unwrap();
        reversed.push(scan_schedule_from_row(row));
    }
    let mut schedules: Vec<ScanSchedule> = Vec::new();
    while reversed.len() > 0
        invariant
            schedules@.len() + reversed@.len() == given.len(),
            forall|k: int|
                0 <= k < reversed@.len() ==> from_row(
                    given[given.len() - 1 - k],
                    #[trigger] reversed@[k],
                ),
            forall|i: int| 0 <= i < schedules@.len() ==> from_row(given[i], #[trigger] schedules@[i]),
        decreases reversed@.len(),
    {
        let s = reversed.pop().unwrap();
        schedules.push(s);
    }
    schedules
}

/// The stored row of one schedule, if there is one, as a schedule.
pub fn get_scan_schedule(row: Option<StoredSchedule>) -> (schedule: Option<ScanSchedule>)
    ensures
        match (row, schedule) {
            (Some(r), Some(s)) => from_row(r, s),
            (None, None) => true,
            _ => false,
        },
{
    match row {
        Some(r) => Some(scan_schedule_from_row(r)),
        None => None,
    }
}

/// Re-saving a schedule with its own enabled flag and cadence keeps its
/// next run, its creation time and its status.
pub proof fn law_resave_keeps_next_run(existing: ScanSchedule)
    requires
        existing.cadence_hours >= 1,
    ensures
        keeps_next_run(Some(existing), existing.cadence_hours, existing.enabled),
{
}

/// The number of enabled schedules among the first `n`.
pub open spec fn enabled_count(schedules: Seq<ScanSchedule>, n: int) -> nat
    decreases n,
{
    if n <= 0 {
        0
    } else {
        enabled_count(schedules, n - 1) + if schedules[n - 1].enabled {
            1nat
        } else {
            0nat
        }
    }
}

/// The earliest next run among the enabled schedules, by string order.
pub open spec fn earliest_enabled_run(schedules: Seq<ScanSchedule>, n: int) -> Option<Seq<char>>
    decreases n,
{
    if n <= 0 {
        None
    } else {
        let rest = earliest_enabled_run(schedules, n - 1);
        let s = schedules[n - 1];
        if !s.enabled {
            rest
        } else {
            match rest {
                Some(r) => if lex_lt(s.next_run_at@, r) {
                    Some(s.next_run_at@)
                } else {
                    Some(r)
                },
                None => Some(s.next_run_at@),
            }
        }
    }
}

/// Totals for the health report: all schedules, the enabled ones, and the
/// earliest next run among those enabled.
pub fn schedule_overview(schedules: &Vec<ScanSchedule>) -> (overview: (usize, usize, Option<String>))
    ensures
        overview.0 == schedules@.len(),
        overview.1 == enabled_count(schedules@, schedules@.len() as int),
        match overview.2 {
            Some(s) => earliest_enabled_run(schedules@, schedules@.len() as int) == Some(s@),
            None => earliest_enabled_run(schedules@, schedules@.len() as int) is None,
        },
{
    let mut enabled: usize = 0;
    let mut earliest: Option<Vec<char>> = None;
    let mut i: usize = 0;
    while i < schedules.len()
        invariant
            i <= schedules@.len(),
            enabled == enabled_count(schedules@, i as int),
            enabled <= i,
            match earliest {
                Some(e) => earliest_enabled_run(schedules@, i as int) == Some(e@),
                None => earliest_enabled_run(schedules@, i as int) is None,
            },
        decreases schedules@.len() - i,
    {
        if schedules[i].enabled {
            enabled += 1;
            let next = chars_of(schedules[i].next_run_at.as_str());
            earliest = match earliest {
                Some(e) => if lex_lt_chars(&next, &e) {
                    Some(next)
                } else {
                    Some(e)
                },
                None => Some(next),
            };
        }
        i += 1;
    }
    let earliest_text = match earliest {
        Some(e) => Some(string_from(&e)),
        None => None,
    };
    (schedules.len(), enabled, earliest_text)
}

} // verus!
