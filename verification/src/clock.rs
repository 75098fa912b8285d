//! Where identifiers and timestamps come from.
//!
//! The decisions elsewhere take ids and times as arguments; this trait is how
//! a caller obtains them, with real random UUIDs and the local wall clock in
//! production.
use crate::timing::rfc3339_parse_error;
use vstd::prelude::*;

verus! {

/// A source of fresh identifiers and of the current time.
pub trait IdClock {
    /// A fresh identifier.
    fn new_id(&self) -> String;

    /// The current time as an RFC 3339 text.
    fn now_iso(&self) -> String;
}

/// A lower-case hexadecimal digit.
pub open spec fn is_lower_hex(c: char) -> bool {
    ('0' <= c && c <= '9') || ('a' <= c && c <= 'f')
}

/// The hyphenated lower-case text of a version-4 UUID: 32 hex digits in
/// groups of 8-4-4-4-12, the version digit `4`, and the RFC 4122 variant
/// (`8`, `9`, `a` or `b`) opening the fourth group.
pub open spec fn is_v4_uuid_text(s: Seq<char>) -> bool {
    &&& s.len() == 36
    &&& forall|i: int|
        0 <= i < 36 ==> if i == 8 || i == 13 || i == 18 || i == 23 {
            #[trigger] s[i] == '-'
        } else {
            is_lower_hex(s[i])
        }
    &&& s[14] == '4'
    &&& (s[19] == '8' || s[19] == '9' || s[19] == 'a' || s[19] == 'b')
}

/// Calls `uuid::Uuid::new_v4`, which sets the version and variant bits of
/// random bytes, and renders the id with `to_string`, which writes the
/// hyphenated lower-case form. Which id comes back is random, so only its
/// shape is claimed; `new_v4` panics only if the operating system cannot
/// supply random bytes.
#[verifier::external_body]
fn random_uuid() -> (r: String)
    ensures
        is_v4_uuid_text(r@),
{
    uuid::Uuid::new_v4().to_string()
}

/// A time text as `DateTime::to_rfc3339` writes it: one that
/// `DateTime::parse_from_rfc3339` reads back, or, for a year past 9999,
/// one that opens with the year's explicit `+` sign.
pub open spec fn rfc3339_time_text(s: Seq<char>) -> bool {
    rfc3339_parse_error(s) is None || (s.len() > 0 && s[0] == '+')
}

/// Calls `chrono::Local::now` and renders it with `to_rfc3339`. Which time
/// comes back depends on the clock; what holds of every outcome is the
/// shape `to_rfc3339` writes: four-digit years (0 to 9999) with two-digit
/// month, day, hour, minute and second, optional fraction and a `+hh:mm`
/// offset, all of which `parse_from_rfc3339` reads; any other year is
/// written with an explicit sign. `Local::now` panics only when the
/// machine's clock is before 1970.
#[verifier::external_body]
fn local_now() -> (r: String)
    ensures
        rfc3339_time_text(r@),
{
    chrono::Local::now().to_rfc3339()
}

/// Production ids and time: random version-4 UUIDs and the local clock.
#[derive(Debug)]
pub struct RealIdClock;

impl IdClock for RealIdClock {
    fn new_id(&self) -> (r: String)
        ensures
            is_v4_uuid_text(r@),
    {
        random_uuid()
    }

    fn now_iso(&self) -> (r: String)
        ensures
            rfc3339_time_text(r@),
    {
        local_now()
    }
}

} // verus!
