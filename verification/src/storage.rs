//! File names used by atomic writes and by quarantining corrupt files.
use vstd::prelude::*;
use crate::text::owned;

verus! {

/// The temporary file an atomic write goes through: the target's name with
/// ".tmp" appended, in the same directory.
pub fn temp_path_for(file_name: &str) -> (r: String)
    ensures
        r@ == file_name@ + ".tmp"@,
{
    owned(file_name).concat(".tmp")
}

/// The name a corrupt file is moved aside to: its name, ".corrupt-" and the
/// time stamp of the move.
pub fn quarantine_name(file_name: &str, stamp: &str) -> (r: String)
    ensures
        r@ == file_name@ + ".corrupt-"@ + stamp@,
{
    owned(file_name).concat(".corrupt-").concat(stamp)
}

/// The first second chrono represents: January 1 of the year -262143, UTC,
/// as a Unix time.
pub const FIRST_UTC_SECOND: i64 = -8_334_601_228_800;

/// The last second chrono represents: December 31 of the year 262142,
/// 23:59:59 UTC, as a Unix time.
pub const LAST_UTC_SECOND: i64 = 8_210_266_876_799;

/// The last second of the year 9999 UTC, as a Unix time.
pub const LAST_FOUR_DIGIT_YEAR_SECOND: i64 = 253_402_300_799;

/// What chrono's strftime-style formatting makes of the UTC time `secs`
/// seconds after the Unix epoch with the format `fmt`.
pub uninterp spec fn utc_formatted(secs: i64, fmt: Seq<char>) -> Seq<char>;

/// The format of quarantine time stamps: year, month, day, a dash, hours,
/// minutes, seconds.
pub open spec fn stamp_format() -> Seq<char> {
    "%Y%m%d-%H%M%S"@
}

/// Eight digits, a dash, six digits.
pub open spec fn is_stamp_shape(s: Seq<char>) -> bool {
    &&& s.len() == 15
    &&& s[8] == '-'
    &&& forall|i: int| 0 <= i < 15 && i != 8 ==> '0' <= #[trigger] s[i] <= '9'
}

/// chrono's `DateTime::<Utc>::from_timestamp(secs, 0)` (`None` exactly when
/// `secs` falls outside the years -262143 to 262142, chrono's `MIN_YEAR` and
/// `MAX_YEAR`), then `format(fmt)` written to a string.
/// Only the stamp format is admitted: a format chrono cannot parse makes the
/// conversion to a string panic. Claimed: the text is a function of `secs`
/// and `fmt` alone, and for a time in the years 1970 to 9999 there is a
/// result of eight digits, a dash and six digits (chrono documents `%Y` as
/// the year zero-padded to four digits, the other fields as two digits).
/// Nothing is claimed of which digits they are.
#[verifier::external_body]
fn format_utc(secs: i64, fmt: &str) -> (r: Option<String>)
    requires
        fmt@ == stamp_format(),
    ensures
        r matches Some(s) ==> s@ == utc_formatted(secs, fmt@),
        r is Some <==> FIRST_UTC_SECOND <= secs <= LAST_UTC_SECOND,
        r matches Some(s) ==> (0 <= secs <= LAST_FOUR_DIGIT_YEAR_SECOND ==> is_stamp_shape(s@)),
{
    match chrono::DateTime::from_timestamp(secs, 0) {
        Some(t) => Some(t.format(fmt).to_string()),
        None => None,
    }
}

/// The name a corrupt file is moved aside to when it is moved at Unix time
/// `unix_secs`: its name, ".corrupt-" and the UTC time stamp of the move.
/// Available for every time chrono represents (the years -262143 to
/// 262142); the stamp has its fixed width in the years 1970 to 9999.
pub fn quarantine_name_at(file_name: &str, unix_secs: i64) -> (r: Option<String>)
    ensures
        r matches Some(n) ==> n@ == file_name@ + ".corrupt-"@ + utc_formatted(
            unix_secs,
            stamp_format(),
        ),
        r is Some <==> FIRST_UTC_SECOND <= unix_secs <= LAST_UTC_SECOND,
        0 <= unix_secs <= LAST_FOUR_DIGIT_YEAR_SECOND ==> (r matches Some(n) && n@.len()
            == file_name@.len() + 24),
{
    proof {
        reveal_strlit("%Y%m%d-%H%M%S");
    }
    let fmt = "%Y%m%d-%H%M%S";
    assert(fmt@ == stamp_format());
    match format_utc(unix_secs, fmt) {
        Some(stamp) => {
            proof {
                reveal_strlit(".corrupt-");
            }
            Some(quarantine_name(file_name, stamp.as_str()))
        },
        None => None,
    }
}

} // verus!
