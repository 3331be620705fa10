//! The wall clock: the current instant as RFC 3339 text, and whole days
//! elapsed since an RFC 3339 instant.
use vstd::prelude::*;

verus! {

/// The shape of what `to_rfc3339` writes for a UTC instant: a year of at
/// least four characters, `-MM-DDTHH:MM:SS` (fifteen), perhaps a fraction of
/// a second, and the offset `+00:00`; so at least 25 characters, ending in
/// `+00:00`.
pub open spec fn utc_rfc3339_shape(s: Seq<char>) -> bool {
    s.len() >= 25 && s.subrange(s.len() - 6, s.len() as int) == "+00:00"@
}

/// Calls `chrono::Utc::now` and renders the instant with `to_rfc3339`. The
/// instant depends on the clock, so the contract states only the shape of
/// the text (see `utc_rfc3339_shape`).
#[verifier::external_body]
pub(crate) fn now_rfc3339() -> (text: String)
    ensures
        utc_rfc3339_shape(text@),
{
    chrono::Utc::now().to_rfc3339()
}

/// Calls `chrono::Utc::now`, adds `chrono::Duration::hours(hours)` and renders
/// the instant with `to_rfc3339`. The addition panics once the instant passes
/// chrono's last representable year (262143); `requires` keeps the offset
/// below 2,000,000,000 hours (about 228,000 years). The instant depends on
/// the clock, so the contract states only the shape of the text, as chrono's
/// `write_rfc3339` produces it for the zero offset of `Utc` (written
/// `+00:00`, since `to_rfc3339` does not use `Z`).
#[verifier::external_body]
pub(crate) fn hours_from_now_rfc3339(hours: u32) -> (text: String)
    requires
        hours <= 2_000_000_000,
    ensures
        utc_rfc3339_shape(text@),
{
    (chrono::Utc::now() + chrono::Duration::hours(hours as i64)).to_rfc3339()
}

/// Whether `chrono::DateTime::parse_from_rfc3339` accepts a text.
pub uninterp spec fn rfc3339_parses(text: Seq<char>) -> bool;

/// Parses `text` with `chrono::DateTime::parse_from_rfc3339` and, when it
/// parses, gives the whole days from that instant to `chrono::Utc::now`
/// (the difference of the two instants, `num_days`, which rounds toward
/// zero); `None` when it does not parse. Whether it parses depends on the
/// text alone and is named `rfc3339_parses`; the number of days depends on
/// the clock, so the contract says nothing of it.
#[verifier::external_body]
pub(crate) fn days_since_rfc3339(text: &str) -> (days: Option<i64>)
    ensures
        days is Some <==> rfc3339_parses(text@),
{
    chrono::DateTime::parse_from_rfc3339(text)
        .ok()
        .map(|time| (chrono::Utc::now() - time.with_timezone(&chrono::Utc)).num_days())
}

} // verus!
