use vstd::prelude::*;

verus! {

/// The current UTC time: its date as `YYYYMMDD`, and the instant in
/// RFC 3339.
pub struct UtcNow {
    pub date: String,
    pub rfc3339: String,
}

/// Relies on `chrono::Utc::now`, `DateTime::format` and
/// `DateTime::to_rfc3339`: the current time in two notations. Nothing is
/// promised of the values, which depend on the clock.
#[verifier::external_body]
pub(crate) fn utc_now() -> (r: UtcNow) {
    let now = chrono::Utc::now();
    UtcNow { date: now.format("%Y%m%d").to_string(), rfc3339: now.to_rfc3339() }
}

} // verus!
