# SignalHive

SignalHive scans GitHub repositories for maintenance pressure: stale
backlog, stale bug reports, stalled discussions, recurring bug patterns,
likely duplicate issues, unlabeled issues and TODO/FIXME markers. It ranks
the repositories into a queue with the factors behind each score, compares
each scan with the previous scan of the same parameters, and renders
Markdown reports.

## Layout

- `src/` is the verified library (Verus). Its functions carry contracts
  that Verus proves, except the small `external_body` wrappers around
  sha2, hex, uuid, chrono, serde_json and a few std calls, whose contracts
  are trusted. It covers list normalisation and repository controls
  (`repo_lists`), API-key checks (`auth`), the parameter signature that
  groups similar scans (`scans`), title terms and bug-report detection
  (`terms`), issue counts and examples (`issues`),
  recurring-bug clustering (`clusters`), title overlaps and likely
  duplicate pairs (`duplicates`), factor selection, ordering and
  summaries (`scoring`, `analysis`), search queries and result intake
  (`discovery`), scan-run decisions (`scanning`), trends (`trend`), reports
  (`report`), schedules (`schedules`), schema migrations (`schema`) and
  stored rows read back (`stored`). Public proof functions named `law_*`
  state properties that hold across calls.
- `app/` is the HTTP service around it: routes, SQLite, GitHub calls, the
  floating-point impact and similarity formulas.
- `tests/` runs the library on concrete scans.

Scores are carried in tenths and similarities in hundredths inside the
library; the service converts them to decimals at its edge.
