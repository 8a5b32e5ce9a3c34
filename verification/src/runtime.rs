//! Values the library takes from its surroundings: the current time and
//! fresh random identifiers.

use vstd::prelude::*;

verus! {

/// Reads the clock through `chrono::Utc::now`: the whole seconds since the
/// Unix epoch (`DateTime::timestamp`) and the nanoseconds past them
/// (`DateTime::timestamp_subsec_nanos`). The reading depends on the time
/// of the call; what holds of every reading is that the seconds are not
/// negative (`Utc::now` takes the time elapsed since the epoch, and panics
/// on a clock set before it) and the nanoseconds are below a second (they
/// are the sub-second part of that elapsed time).
#[verifier::external_body]
fn read_clock() -> (r: (i64, u32))
    ensures
        r.0 >= 0,
        r.1 < 1_000_000_000,
{
    let now = chrono::Utc::now();
    (now.timestamp(), now.timestamp_subsec_nanos())
}

/// The current time, in nanoseconds since the Unix epoch.
pub fn now_nanos() -> (t: i128)
    ensures
        t >= 0,
{
    let (seconds, nanos) = read_clock();
    (seconds as i128) * 1_000_000_000 + (nanos as i128)
}

/// Draws a random version-4 UUID through `uuid::Uuid::new_v4` and returns
/// its 128 bits (`Uuid::as_u128`). The value is random; what holds of every
/// outcome is that the version nibble is 4 and the variant bits are `10`,
/// which `new_v4` sets by masking.
#[verifier::external_body]
pub fn new_uuid() -> (id: u128)
    ensures
        (id >> 76u128) & 0xfu128 == 4,
        (id >> 62u128) & 0x3u128 == 2,
{
    uuid::Uuid::new_v4().as_u128()
}

} // verus!
