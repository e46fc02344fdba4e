//! The wall clock: std's `SystemTime` for the reading, chrono for the
//! rendering. Nothing is promised of what the clock reads; a reading earlier
//! than the Unix epoch gives `None`, and the functions that use the clock
//! either take its reading as an argument or say what holds whatever it was.

use vstd::prelude::*;

verus! {

/// The formats the daemon renders the current time with.
pub open spec fn is_known_format(fmt: Seq<char>) -> bool {
    fmt == "%Y%m%d-%H%M%S"@ || fmt == "%Y-%m-%d %H:%M:%S UTC"@
}

/// The first second past the year 9999, as seconds since the Unix epoch.
pub open spec fn year_ten_thousand() -> int {
    253_402_300_800
}

#[verifier::external_type_specification]
#[verifier::external_body]
pub struct ExSystemTime(std::time::SystemTime);

/// `std::time::SystemTime::now()`. Nothing is stated of the value: it is
/// whatever the system clock reads.
#[verifier::external_body]
fn system_now() -> std::time::SystemTime {
    std::time::SystemTime::now()
}

/// `t.duration_since(UNIX_EPOCH)`, with the error (a time earlier than the
/// epoch) turned into `None`. Nothing is stated of when that happens: a
/// `SystemTime` is opaque here.
#[verifier::external_body]
fn since_unix_epoch(t: &std::time::SystemTime) -> Option<core::time::Duration> {
    t.duration_since(std::time::UNIX_EPOCH).ok()
}

/// `Duration::as_secs`: the whole seconds of a duration. Nothing is stated
/// of the value: a `Duration` is opaque here.
pub assume_specification[ core::time::Duration::as_secs ](d: &core::time::Duration) -> u64;

/// `Duration::subsec_nanos`: std documents it as the fractional part of a
/// second in nanoseconds, always less than one billion.
pub assume_specification[ core::time::Duration::subsec_nanos ](d: &core::time::Duration) -> (n:
    u32)
    ensures
        n < 1_000_000_000,
;

/// The current time as seconds and nanoseconds since the Unix epoch, the
/// reading chrono's `Utc::now` takes. `None` when the clock reads earlier
/// than the epoch, or later than `i64::MAX` seconds after it.
pub fn epoch_reading() -> (r: Option<(i64, u32)>)
    ensures
        r matches Some((s, n)) ==> 0 <= s && n < 1_000_000_000,
{
    let now = system_now();
    match since_unix_epoch(&now) {
        Some(d) => {
            let secs = d.as_secs();
            let nanos = d.subsec_nanos();
            if secs <= 9_223_372_036_854_775_807u64 {
                Some((secs as i64, nanos))
            } else {
                None
            }
        },
        None => None,
    }
}

/// Seconds since the Unix epoch, or `None` when the clock cannot be read as
/// such (see `epoch_reading`).
pub(crate) fn unix_now() -> (t: Option<i64>)
    ensures
        t matches Some(s) ==> 0 <= s,
{
    match epoch_reading() {
        Some((s, _)) => Some(s),
        None => None,
    }
}

/// `c` is an ASCII digit.
pub open spec fn is_digit(c: char) -> bool {
    '0' <= c && c <= '9'
}

/// Positions `lo..hi` of `s` hold digits.
pub open spec fn digits_at(s: Seq<char>, lo: int, hi: int) -> bool {
    forall|i: int| lo <= i < hi ==> #[trigger] is_digit(s[i])
}

/// A year as chrono writes it: four digits for years 0 to 9999, otherwise
/// a sign and at least four digits.
pub open spec fn is_year_text(y: Seq<char>) -> bool {
    ||| y.len() == 4 && digits_at(y, 0, 4)
    ||| y.len() >= 5 && (y[0] == '+' || y[0] == '-') && digits_at(y, 1, y.len() as int)
}

/// `s` is `%Y%m%d-%H%M%S` with a year of `y` characters: the year, four
/// digits of month and day, `-`, six digits of hour, minute and second.
pub open spec fn stamp_layout(s: Seq<char>, y: int) -> bool {
    &&& 4 <= y
    &&& s.len() == y + 11
    &&& is_year_text(s.take(y))
    &&& digits_at(s, y, y + 4)
    &&& s[y + 4] == '-'
    &&& digits_at(s, y + 5, y + 11)
}

/// A timestamp in the compact `%Y%m%d-%H%M%S` form.
pub open spec fn is_compact_stamp(s: Seq<char>) -> bool {
    exists|y: int| #[trigger] stamp_layout(s, y)
}

/// `s` is `%Y-%m-%d %H:%M:%S UTC` with a year of `y` characters: the year,
/// `-`, two digits, `-`, two digits, a space, two digits, `:`, two digits,
/// `:`, two digits, then ` UTC`.
pub open spec fn utc_stamp_layout(s: Seq<char>, y: int) -> bool {
    &&& 4 <= y
    &&& s.len() == y + 19
    &&& is_year_text(s.take(y))
    &&& s[y] == '-'
    &&& digits_at(s, y + 1, y + 3)
    &&& s[y + 3] == '-'
    &&& digits_at(s, y + 4, y + 6)
    &&& s[y + 6] == ' '
    &&& digits_at(s, y + 7, y + 9)
    &&& s[y + 9] == ':'
    &&& digits_at(s, y + 10, y + 12)
    &&& s[y + 12] == ':'
    &&& digits_at(s, y + 13, y + 15)
    &&& s.skip(y + 15) == seq![' ', 'U', 'T', 'C']
}

/// A timestamp in the `%Y-%m-%d %H:%M:%S UTC` form.
pub open spec fn is_utc_stamp(s: Seq<char>) -> bool {
    exists|y: int| #[trigger] utc_stamp_layout(s, y)
}

/// `s` is an RFC 3339 UTC time as `to_rfc3339` writes it, with a year of
/// `y` characters and a fraction of `f` characters: `YYYY-MM-DDTHH:MM:SS`,
/// then nothing or `.` and 3, 6 or 9 digits, then `+00:00`.
pub open spec fn rfc3339_layout(s: Seq<char>, y: int, f: int) -> bool {
    &&& 4 <= y
    &&& s.len() == y + 15 + f + 6
    &&& is_year_text(s.take(y))
    &&& s[y] == '-'
    &&& digits_at(s, y + 1, y + 3)
    &&& s[y + 3] == '-'
    &&& digits_at(s, y + 4, y + 6)
    &&& s[y + 6] == 'T'
    &&& digits_at(s, y + 7, y + 9)
    &&& s[y + 9] == ':'
    &&& digits_at(s, y + 10, y + 12)
    &&& s[y + 12] == ':'
    &&& digits_at(s, y + 13, y + 15)
    &&& (f == 0 || ((f == 4 || f == 7 || f == 10) && s[y + 15] == '.' && digits_at(
        s,
        y + 16,
        y + 15 + f,
    )))
    &&& s.skip(y + 15 + f) == seq!['+', '0', '0', ':', '0', '0']
}

/// An RFC 3339 UTC time as chrono's `to_rfc3339` writes it.
pub open spec fn is_utc_rfc3339(s: Seq<char>) -> bool {
    exists|y: int, f: int| #[trigger] rfc3339_layout(s, y, f)
}

/// The characters of an optional text.
pub open spec fn opt_text(r: Option<String>) -> Option<Seq<char>> {
    match r {
        Some(s) => Some(s@),
        None => None,
    }
}

/// The text chrono renders for the time `secs` seconds and `nanos`
/// nanoseconds after the Unix epoch, in UTC, with the strftime format
/// `fmt`: `DateTime::from_timestamp(secs, nanos)` followed by
/// `.format(fmt).to_string()`; `None` where `from_timestamp` gives `None`.
pub uninterp spec fn chrono_utc_format(secs: i64, nanos: u32, fmt: Seq<char>) -> Option<Seq<char>>;

/// The RFC 3339 text chrono renders for the same time:
/// `DateTime::from_timestamp(secs, nanos)` followed by `.to_rfc3339()`;
/// `None` where `from_timestamp` gives `None`.
pub uninterp spec fn chrono_utc_rfc3339(secs: i64, nanos: u32) -> Option<Seq<char>>;

/// `DateTime::from_timestamp(secs, nanos)` rendered with
/// `.format(fmt).to_string()`, for one of the daemon's fixed, valid
/// strftime formats (an invalid one would make chrono's `Display` fail and
/// `to_string` panic). The text is chrono's, named `chrono_utc_format`.
/// `from_timestamp` gives `None` only for a time outside chrono's range of
/// years or a nanosecond count it does not accept, so any time from the
/// epoch up to the year 9999 renders. Stated besides is the shape chrono's
/// formatting code gives each of the two formats (`%Y` zero-padded to four
/// digits, with a sign outside 0..=9999; the other fields two digits each;
/// the rest copied as written).
#[verifier::external_body]
pub(crate) fn utc_formatted(secs: i64, nanos: u32, fmt: &str) -> (r: Option<String>)
    requires
        is_known_format(fmt@),
    ensures
        opt_text(r) == chrono_utc_format(secs, nanos, fmt@),
        0 <= secs < year_ten_thousand() && nanos < 1_000_000_000 ==> r is Some,
        r matches Some(s) ==> (fmt@ == "%Y%m%d-%H%M%S"@ ==> is_compact_stamp(s@)),
        r matches Some(s) ==> (fmt@ == "%Y-%m-%d %H:%M:%S UTC"@ ==> is_utc_stamp(s@)),
{
    match chrono::DateTime::from_timestamp(secs, nanos) {
        Some(t) => Some(t.format(fmt).to_string()),
        None => None,
    }
}

/// `DateTime::from_timestamp(secs, nanos)` rendered with `.to_rfc3339()`;
/// the text is chrono's, named `chrono_utc_rfc3339`. The same range renders
/// as for `utc_formatted`; stated besides is the shape chrono's
/// `write_rfc3339` gives a UTC time (seconds in the `AutoSi` form, offset
/// `+00:00`).
#[verifier::external_body]
pub(crate) fn utc_rfc3339(secs: i64, nanos: u32) -> (r: Option<String>)
    ensures
        opt_text(r) == chrono_utc_rfc3339(secs, nanos),
        0 <= secs < year_ten_thousand() && nanos < 1_000_000_000 ==> r is Some,
        r matches Some(s) ==> is_utc_rfc3339(s@),
{
    match chrono::DateTime::from_timestamp(secs, nanos) {
        Some(t) => Some(t.to_rfc3339()),
        None => None,
    }
}

} // verus!
