//! The wall clock. What it reads depends on the moment of the call, so
//! nothing is stated of its value; the functions that need a time take it as
//! an argument and are exact for every value of it.
use vstd::prelude::*;

verus! {

/// `SystemTime::now()`, as nanoseconds since the Unix epoch (`0` for a clock
/// set before the epoch, saturated at `u64::MAX` past the year 2554).
#[verifier::external_body]
pub(crate) fn now_nanos() -> u64 {
    match std::time::SystemTime::now().duration_since(std::time::UNIX_EPOCH) {
        Ok(d) => u64::try_from(d.as_nanos()).unwrap_or(u64::MAX),
        Err(_) => 0,
    }
}

/// What chrono writes with `%Y%m%d_%H%M%S_%3f` for the UTC moment `secs`
/// seconds and `nsecs` nanoseconds after the Unix epoch.
pub uninterp spec fn utc_format(secs: u64, nsecs: u32) -> Seq<char>;

/// The UTC moment `secs` seconds and `nsecs` nanoseconds after the epoch
/// (`DateTime::<Utc>::from_timestamp`), formatted with
/// `%Y%m%d_%H%M%S_%3f`. Stated: the result is `utc_format` of the
/// arguments, and before the year 10000 it has 19 characters (a four-digit
/// year). The bound on `secs` keeps the moment within chrono's range, where
/// `from_timestamp` gives a value.
#[verifier::external_body]
fn format_utc(secs: u64, nsecs: u32) -> (r: String)
    requires
        secs <= 18_446_744_073,
        nsecs < 1_000_000_000,
    ensures
        r@ == utc_format(secs, nsecs),
        secs < 253_402_300_800 ==> r@.len() == 19,
{
    match chrono::DateTime::<chrono::Utc>::from_timestamp(secs as i64, nsecs) {
        Some(d) => d.format("%Y%m%d_%H%M%S_%3f").to_string(),
        None => String::new(),
    }
}

/// The current UTC time as `YYYYmmdd_HHMMSS_mmm`, the stamp of log entries
/// and of the event history (the epoch itself for a clock set before it).
pub(crate) fn utc_stamp() -> (r: String)
    ensures
        exists|secs: u64, nsecs: u32| nsecs < 1_000_000_000 && r@ == #[trigger] utc_format(secs, nsecs),
        r@.len() == 19,
{
    let n = now_nanos();
    let secs = n / 1_000_000_000;
    let nsecs = (n % 1_000_000_000) as u32;
    format_utc(secs, nsecs)
}

} // verus!
