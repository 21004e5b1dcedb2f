use crate::commands::{contains_str, contains_sub};
use crate::run_state::str_eq;
use vstd::prelude::*;

verus! {

/// The uppercase form of a string, as `str::to_uppercase` gives it.
pub uninterp spec fn upper_of(s: Seq<char>) -> Seq<char>;

/// Relies on `str::to_uppercase`: its result depends on the characters alone.
#[verifier::external_body]
fn uppercase(s: &str) -> (r: String)
    ensures
        r@ == upper_of(s@),
{
    s.to_uppercase()
}

/// An uppercased status text that reads as finished.
pub open spec fn done_text(u: Seq<char>) -> bool {
    contains_sub(u, "SUCCESS"@) || contains_sub(u, "SUCCEEDED"@) || contains_sub(u, "DONE"@) || u
        == "OK"@
}

/// An uppercased status text that reads as not started.
pub open spec fn pending_text(u: Seq<char>) -> bool {
    contains_sub(u, "PENDING"@) || contains_sub(u, "UNKNOWN"@)
}

/// Whether an already uppercased status text reads as finished.
pub fn is_done_upper(u: &str) -> (r: bool)
    ensures
        r == done_text(u@),
{
    contains_str(u, "SUCCESS") || contains_str(u, "SUCCEEDED") || contains_str(u, "DONE") || str_eq(
        u,
        "OK",
    )
}

/// Whether an already uppercased status text reads as not started.
pub fn is_pending_upper(u: &str) -> (r: bool)
    ensures
        r == pending_text(u@),
{
    contains_str(u, "PENDING") || contains_str(u, "UNKNOWN")
}

/// Whether a free-form stage status (any case) reads as finished.
pub fn is_done(status: &str) -> (r: bool)
    ensures
        r == done_text(upper_of(status@)),
{
    let u = uppercase(status);
    is_done_upper(u.as_str())
}

/// Whether a free-form stage status (any case) reads as not started.
pub fn is_pending(status: &str) -> (r: bool)
    ensures
        r == pending_text(upper_of(status@)),
{
    let u = uppercase(status);
    is_pending_upper(u.as_str())
}

} // verus!
