use vstd::prelude::*;

verus! {

/// Whether the calendar of the `time` crate reaches a timestamp: it runs
/// from the first second of the year -9999 to the last one of the year
/// 9999, both in UTC. `OffsetDateTime::from_unix_timestamp` has a moment
/// for these timestamps and for no others.
pub open spec fn calendar_reaches(timestamp: i64) -> bool {
    -377_705_116_800 <= timestamp <= 253_402_300_799
}

/// What `OffsetDateTime::format` of the `time` crate writes for the moment
/// that lies `timestamp` seconds after the Unix epoch, seen at
/// `offset_seconds` east of UTC, under the description that `pattern`
/// spells out; nothing where there is no such moment, offset or
/// description, or where the moment cannot be written so.
pub uninterp spec fn written_at(timestamp: i64, offset_seconds: i32, pattern: Seq<char>) -> Option<
    Seq<char>,
>;

/// `OffsetDateTime::format`, on the moment that
/// `OffsetDateTime::from_unix_timestamp` and `checked_to_offset` make of
/// `timestamp` and of the offset that `UtcOffset::from_whole_seconds` makes
/// of `offset_seconds`, with the description that
/// `format_description::parse` reads from `pattern`.
///
/// The contract names what is written, which depends on these three values
/// alone, and says that nothing is written for a timestamp the calendar
/// does not reach. It does not say what the text is.
#[verifier::external_body]
pub(crate) fn write_at(timestamp: i64, offset_seconds: i32, pattern: &str) -> (out: Option<String>)
    ensures
        match out {
            Some(text) => written_at(timestamp, offset_seconds, pattern@) == Some(text@),
            None => written_at(timestamp, offset_seconds, pattern@) is None,
        },
        !calendar_reaches(timestamp) ==> out is None,
{
    let utc = time::OffsetDateTime::from_unix_timestamp(timestamp).ok()?;
    let offset = time::UtcOffset::from_whole_seconds(offset_seconds).ok()?;
    let description = time::format_description::parse(pattern).ok()?;
    utc.checked_to_offset(offset)?.format(&description).ok()
}

/// `UtcOffset::current_local_offset`, as `whole_seconds` east of UTC: the
/// offset of the machine's time zone now, where it can be found out. It
/// differs from machine to machine and from call to call, so nothing is
/// claimed of the result.
#[verifier::external_body]
pub(crate) fn local_offset_seconds() -> Option<i32> {
    match time::UtcOffset::current_local_offset() {
        Ok(offset) => Some(offset.whole_seconds()),
        Err(_) => None,
    }
}

} // verus!
