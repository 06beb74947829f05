//! Due dates are accepted as RFC 3339 strings, validated and canonicalized by
//! chrono; timestamps come from the system clock rendered at offset zero.

use vstd::prelude::*;
use crate::model::opt_view;

verus! {

pub uninterp spec fn rfc3339_parse(s: Seq<char>) -> Option<Seq<char>>;

/// Relies on `chrono::DateTime::parse_from_rfc3339` and on the `Display`
/// rendering of the parsed `DateTime<FixedOffset>`: both depend on the
/// characters of the input alone, so their composite result is named
/// `rfc3339_parse`, `None` standing for a malformed input.
#[verifier::external_body]
pub fn parse_rfc3339(s: &str) -> (r: Option<String>)
    ensures
        opt_view(r) == rfc3339_parse(s@),
{
    match chrono::DateTime::parse_from_rfc3339(s) {
        Ok(d) => Some(d.to_string()),
        Err(_) => None,
    }
}

/// Relies on `chrono::Utc::now`, shifted to offset zero and rendered as text.
/// The result depends on the clock, so nothing is promised of it.
#[verifier::external_body]
pub fn current_timestamp() -> String {
    let now = chrono::Utc::now();
    now.with_timezone(&chrono::FixedOffset::east_opt(0).unwrap()).to_string()
}

} // verus!
