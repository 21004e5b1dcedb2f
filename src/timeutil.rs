use vstd::prelude::*;

verus! {

/// The Unix time of an RFC 3339 timestamp, as the `time` crate reads it; `None`
/// when the text is not a valid RFC 3339 timestamp.
pub uninterp spec fn rfc3339_seconds_of(s: Seq<char>) -> Option<i64>;

/// Relies on `time::OffsetDateTime::parse` with the `Rfc3339` description and
/// on `OffsetDateTime::unix_timestamp`: a parse error gives `None`.
#[verifier::external_body]
fn rfc3339_unix_seconds(s: &str) -> (r: Option<i64>)
    ensures
        r == rfc3339_seconds_of(s@),
{
    match time::OffsetDateTime::parse(s, &time::format_description::well_known::Rfc3339) {
        Ok(t) => Some(t.unix_timestamp()),
        Err(_) => None,
    }
}

/// Seconds since the epoch of a parsed Unix time; times before 1970 count as 0.
pub open spec fn epoch_seconds_spec(t: Option<i64>) -> Option<u64> {
    match t {
        Some(x) => Some(if x < 0 {
            0u64
        } else {
            x as u64
        }),
        None => None,
    }
}

/// Clamps a parsed Unix time to seconds since the epoch.
pub fn clamp_epoch_seconds(t: Option<i64>) -> (r: Option<u64>)
    ensures
        r == epoch_seconds_spec(t),
{
    match t {
        Some(x) => Some(if x < 0 {
            0
        } else {
            x as u64
        }),
        None => None,
    }
}

/// Seconds since the epoch of an RFC 3339 timestamp (0 before 1970), or `None`
/// when it does not parse.
pub fn parse_rfc3339_to_epoch_seconds(s: &str) -> (r: Option<u64>)
    ensures
        r == epoch_seconds_spec(rfc3339_seconds_of(s@)),
{
    clamp_epoch_seconds(rfc3339_unix_seconds(s))
}

} // verus!
