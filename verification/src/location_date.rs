//! Points in time as the sheets write them, and locations.
use vstd::prelude::*;

verus! {

/// Seconds since 1970-01-01 00:00:00 of the earliest date-time that the
/// date-time library can represent (1 January of year -262143).
pub const MIN_TIMESTAMP_SECS: i64 = -8334601228800i64;

/// Seconds since 1970-01-01 00:00:00 of the last whole second that the
/// date-time library can represent (31 December of year 262142, 23:59:59).
pub const MAX_TIMESTAMP_SECS: i64 = 8210266876799i64;

/// Nanoseconds in one second.
pub const NANOS_PER_SEC: u32 = 1_000_000_000u32;

/// The layout of a time stamp in the sheets: "19-10-2025 14:12:22".
pub const TIJDSTEMPEL_FORMAT: &'static str = "%d-%m-%Y %H:%M:%S";

/// A naive (zone-less) date and time: whole seconds since 1970-01-01 00:00:00
/// and the nanoseconds past that second (at or above one second only within a
/// leap second).
#[derive(Clone, Copy, Debug, PartialEq, Eq, Structural)]
pub struct Timestamp {
    pub secs: i64,
    pub nanos: u32,
}

/// `a` is not later than `b`.
pub open spec fn ts_le(a: Timestamp, b: Timestamp) -> bool {
    a.secs < b.secs || (a.secs == b.secs && a.nanos <= b.nanos)
}

impl Timestamp {
    /// Whether `self` is not later than `other`.
    pub fn not_after(&self, other: &Timestamp) -> (r: bool)
        ensures
            r == ts_le(*self, *other),
    {
        self.secs < other.secs || (self.secs == other.secs && self.nanos <= other.nanos)
    }
}

/// A reading of the wall clock as the date-time library gives it: within
/// its range and not inside a leap second.
pub open spec fn is_clock_reading(t: Timestamp) -> bool {
    &&& t.nanos < NANOS_PER_SEC
    &&& MIN_TIMESTAMP_SECS <= t.secs <= MAX_TIMESTAMP_SECS
}

/// What `chrono::NaiveDateTime::parse_from_str(text, format)` gives back,
/// as seconds and nanoseconds since 1970-01-01 00:00:00; `None` where it fails.
pub uninterp spec fn parsed_datetime(text: Seq<char>, format: Seq<char>) -> Option<Timestamp>;

/// Calls `chrono::NaiveDateTime::parse_from_str`. Trusted: the result is what
/// `parsed_datetime` names for the two arguments; the parse itself is chrono's.
#[verifier::external_body]
fn chrono_parse(text: &str, format: &str) -> (r: Option<Timestamp>)
    ensures
        r == parsed_datetime(text@, format@),
{
    match chrono::NaiveDateTime::parse_from_str(text, format) {
        Ok(dt) => Some(Timestamp {
            secs: dt.and_utc().timestamp(),
            nanos: dt.and_utc().timestamp_subsec_nanos(),
        }),
        Err(_) => None,
    }
}

/// Calls `web_time::SystemTime::now` and its `duration_since` the Unix
/// epoch: std's clock natively, the browser's (`Date.now`) on the web
/// (wasm32-unknown-unknown), where std has none. Trusted: where the clock
/// reads at or after the epoch, the result is the whole seconds and the
/// nanoseconds past them (`Duration::as_secs`, `Duration::subsec_nanos`, the
/// latter always below one billion); `None` where it reads before the epoch.
/// Which reading it is, is not stated. On the web, web-time's `now` does not
/// return where the browser's clock reads before 1970 (it panics on a
/// negative `Date.now`).
#[verifier::external_body]
fn system_clock() -> (r: Option<(u64, u32)>)
    ensures
        r matches Some(d) ==> d.1 < NANOS_PER_SEC,
{
    match web_time::SystemTime::now().duration_since(web_time::UNIX_EPOCH) {
        Ok(d) => Some((d.as_secs(), d.subsec_nanos())),
        Err(_) => None,
    }
}

/// Calls `chrono::DateTime::from_timestamp`. Trusted: a result is the date-time
/// at `secs` seconds and `nanos` nanoseconds past 1970-01-01 00:00:00, which
/// lies in chrono's range; and there is one wherever `secs` is in that range
/// and `nanos` is below one second (chrono refuses only dates out of range
/// and invalid nanoseconds).
#[verifier::external_body]
fn datetime_from_parts(secs: i64, nanos: u32) -> (r: Option<Timestamp>)
    ensures
        r matches Some(t) ==> t == (Timestamp { secs, nanos }) && MIN_TIMESTAMP_SECS <= secs
            <= MAX_TIMESTAMP_SECS,
        (MIN_TIMESTAMP_SECS <= secs <= MAX_TIMESTAMP_SECS && nanos < NANOS_PER_SEC) ==> r is Some,
{
    match chrono::DateTime::from_timestamp(secs, nanos) {
        Some(dt) => Some(Timestamp { secs: dt.timestamp(), nanos: dt.timestamp_subsec_nanos() }),
        None => None,
    }
}

/// A reading of the clock at or after 1970-01-01 00:00:00 and within the
/// representable date-times.
pub open spec fn is_post_epoch_reading(t: Timestamp) -> bool {
    &&& is_clock_reading(t)
    &&& 0 <= t.secs
}

/// A reading of the wall clock as a date-time. Where the clock reads before
/// 1970 the epoch (1970-01-01 00:00:00) is taken, and where it reads beyond
/// the last representable date-time, that one; so there is always a reading.
/// The functions that take a reading instead (`config_from_csv_at`,
/// `parse_game_data_at`, `Config::add_cutoff_at`) let a caller supply its own.
pub fn clock_now() -> (r: Option<Timestamp>)
    ensures
        r matches Some(t) && is_post_epoch_reading(t),
{
    match system_clock() {
        Some((secs, nanos)) => {
            if secs <= 8210266876799u64 {
                datetime_from_parts(secs as i64, nanos)
            } else {
                Some(Timestamp { secs: MAX_TIMESTAMP_SECS, nanos: 0 })
            }
        },
        None => Some(Timestamp { secs: 0, nanos: 0 }),
    }
}

/// The time stamp that a sheet cell holds, read in the layout
/// `DD-MM-YYYY HH:MM:SS`; `None` where the text is no such time stamp.
pub open spec fn tijdstempel_of(text: Seq<char>) -> Option<Timestamp> {
    parsed_datetime(text, TIJDSTEMPEL_FORMAT@)
}

/// Reads a time stamp in the sheets' layout, `DD-MM-YYYY HH:MM:SS`.
pub fn parse_tijdstempel(tijdstempel: &str) -> (r: Option<Timestamp>)
    ensures
        r == tijdstempel_of(tijdstempel@),
{
    chrono_parse(tijdstempel, TIJDSTEMPEL_FORMAT)
}

/// A location at a moment. Latitude and longitude are kept as the bit
/// patterns of their IEEE-754 double values.
#[derive(Clone, Copy, Debug, PartialEq, Eq, Structural)]
pub struct Locatie {
    pub latitude_bits: u64,
    pub longitude_bits: u64,
    pub date: Timestamp,
}

impl Locatie {
    /// A location from its coordinates and moment.
    pub fn new(latitude_bits: u64, longitude_bits: u64, date: Timestamp) -> (r: Self)
        ensures
            r == (Locatie { latitude_bits, longitude_bits, date }),
    {
        Locatie { latitude_bits, longitude_bits, date }
    }
}

} // verus!
