//! What the machine supplies: the time, and identifiers that nobody chose before.

use vstd::prelude::*;

verus! {

/// The second at which the year 0 starts.
pub const FIRST_SECOND: i64 = -62_167_219_200;

/// The last second that a calendar with four-digit years knows: the end of the year 9999.
pub const LAST_SECOND: i64 = 253_402_300_799;

/// Seconds in a day.
pub const DAY_SECONDS: i64 = 86_400;

/// No clock reads outside plus or minus this many seconds.
pub const CLOCK_REACH: i64 = 40_000_000_000_000;

/// A clock may show the second `seconds`.
pub open spec fn is_reading(seconds: int) -> bool {
    -CLOCK_REACH <= seconds <= CLOCK_REACH
}

/// The seconds since 1970 that the system's clock shows.
///
/// Calls `time::OffsetDateTime::now_utc` and takes its `unix_timestamp`. A date of that
/// crate lies within a million years of our era, whichever of its features are on, so the
/// number is bounded; nothing else is claimed of it. A clock set beyond those dates makes
/// the call panic.
#[verifier::external_body]
pub(crate) fn unix_now() -> (seconds: i64)
    ensures
        is_reading(seconds as int),
{
    time::OffsetDateTime::now_utc().unix_timestamp()
}

/// `s` is a random UUID as text: 36 characters, four of them hyphens, the version digit 4
/// and the variant that of RFC 4122.
pub open spec fn is_uuid_text(s: Seq<char>) -> bool {
    &&& s.len() == 36
    &&& forall|i: int|
        0 <= i < 36 ==> (if i == 8 || i == 13 || i == 18 || i == 23 {
            #[trigger] s[i] == '-'
        } else {
            '0' <= s[i] <= '9' || 'a' <= s[i] <= 'f'
        })
    &&& s[14] == '4'
    &&& s[19] == '8' || s[19] == '9' || s[19] == 'a' || s[19] == 'b'
}

/// A fresh identifier.
///
/// Calls `uuid::Uuid::new_v4` and its `to_string`, the hyphenated lower-case form. Which
/// one comes is left to chance; that two differ is not claimed.
#[verifier::external_body]
pub(crate) fn new_uuid() -> (id: String)
    ensures
        is_uuid_text(id@),
{
    uuid::Uuid::new_v4().to_string()
}

} // verus!
