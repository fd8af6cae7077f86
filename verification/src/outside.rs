//! What the library takes from outside itself without proof: the clocks and
//! the identifiers. Each item says what is believed of it.

use vstd::prelude::*;
use std::time::{Duration, Instant};
use uuid::Uuid;

verus! {

/// `std::time::Instant`, a point on the monotonic clock; nothing is known of
/// what it holds.
#[verifier::external_type_specification]
#[verifier::external_body]
pub struct ExInstant(Instant);

/// `uuid::Uuid`, an identifier; nothing is known of what it holds.
#[verifier::external_type_specification]
#[verifier::external_body]
pub struct ExUuid(Uuid);

/// `Uuid::clone`: the copy is the identifier itself (`Uuid` is `Copy`, and its
/// `Clone` is derived).
pub assume_specification[ <Uuid as Clone>::clone ](id: &Uuid) -> (copy: Uuid)
    ensures
        copy == *id,
;

/// `Instant::now`: the monotonic clock's present reading. Nothing is claimed
/// of it.
#[verifier::external_body]
pub(crate) fn monotonic_now() -> Instant {
    Instant::now()
}

/// `Instant::elapsed`: the time gone by since `start`. Nothing is claimed of
/// it.
#[verifier::external_body]
pub(crate) fn monotonic_elapsed(start: &Instant) -> Duration {
    start.elapsed()
}

/// `Duration::as_secs`: the whole seconds of a duration. Nothing is claimed of
/// the number.
pub assume_specification[ std::time::Duration::as_secs ](d: &std::time::Duration) -> u64;

/// `Duration::as_millis`: the whole milliseconds of a duration. Nothing is
/// claimed of the number.
pub assume_specification[ std::time::Duration::as_millis ](d: &std::time::Duration) -> u128;

/// `chrono::Utc::now` followed by `DateTime::timestamp_millis`: the wall
/// clock's present reading in milliseconds since the Unix epoch. Nothing is
/// claimed of it.
#[verifier::external_body]
pub(crate) fn wall_clock_millis() -> i64 {
    chrono::Utc::now().timestamp_millis()
}

/// `Uuid::new_v4`: a random identifier. Nothing is claimed of it.
#[verifier::external_body]
pub(crate) fn fresh_id() -> Uuid {
    Uuid::new_v4()
}


/// An identifier as its `Display` writes it.
pub uninterp spec fn uuid_text(id: Uuid) -> Seq<char>;

/// `Uuid`'s `Display`: the identifier in its hyphenated form, which depends
/// on the identifier alone.
#[verifier::external_body]
pub(crate) fn uuid_to_string(id: &Uuid) -> (text: String)
    ensures
        text@ == uuid_text(*id),
{
    id.to_string()
}

} // verus!
