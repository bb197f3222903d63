//! Resolution of Arrow time zone strings into time zones.

use jiff::tz::{Offset, TimeZone};
use vstd::prelude::*;
use vstd::utf8::encode_utf8;

verus! {

/// A time zone of the time zone database, `jiff::tz::TimeZone`. Nothing is known of what is
/// inside.
#[verifier::external_type_specification]
#[verifier::external_body]
pub struct ExTimeZone(jiff::tz::TimeZone);

/// A time zone that a string resolves to.
#[derive(Debug)]
pub enum ResolvedZone {
    /// A zone that the time zone database has.
    Named(TimeZone),
    /// A fixed offset from UTC in seconds.
    Fixed(i32),
}

/// Why a string resolves to no time zone.
#[derive(Clone, Copy, Debug, PartialEq, Eq, Structural)]
pub enum ZoneError {
    /// It is neither the name of a zone nor an offset.
    Unknown,
    /// It is an offset of more than 25:59:59.
    OffsetOutOfRange,
}

/// Whether the byte is a decimal digit.
pub open spec fn is_digit(b: u8) -> bool {
    48 <= b <= 57
}

/// The seconds of an offset with a sign and four digits, two for the hours and two for the
/// minutes.
pub open spec fn offset_of_digits(sign: u8, h1: u8, h2: u8, m1: u8, m2: u8) -> Option<int> {
    let minutes = (m1 - 48) * 10 + (m2 - 48);
    let seconds = ((h1 - 48) * 10 + (h2 - 48)) * 3600 + minutes * 60;
    if !(is_digit(h1) && is_digit(h2) && is_digit(m1) && is_digit(m2)) || minutes > 59 {
        None
    } else if sign == 43 {
        Some(seconds)
    } else if sign == 45 {
        Some(-seconds)
    } else {
        None
    }
}

/// The seconds that the forms `±HH:MM`, `±HHMM` and `±HH` stand for, and nothing for any other
/// text.
pub open spec fn offset_seconds(bytes: Seq<u8>) -> Option<int> {
    if bytes.len() == 6 && bytes[3] == 58 {
        offset_of_digits(bytes[0], bytes[1], bytes[2], bytes[4], bytes[5])
    } else if bytes.len() == 5 {
        offset_of_digits(bytes[0], bytes[1], bytes[2], bytes[3], bytes[4])
    } else if bytes.len() == 3 {
        offset_of_digits(bytes[0], bytes[1], bytes[2], 48, 48)
    } else {
        None
    }
}

/// Whether an offset is no more than 25:59:59 either way.
pub open spec fn offset_fits(seconds: int) -> bool {
    -93_599 <= seconds <= 93_599
}

fn digits_to_seconds(sign: u8, h1: u8, h2: u8, m1: u8, m2: u8) -> (r: Option<i32>)
    ensures
        r == match offset_of_digits(sign, h1, h2, m1, m2) {
            Some(s) => Some(s as i32),
            None => None,
        },
        r matches Some(s) ==> s as int == offset_of_digits(sign, h1, h2, m1, m2).unwrap(),
{
    let all_digits = 48 <= h1 && h1 <= 57 && 48 <= h2 && h2 <= 57 && 48 <= m1 && m1 <= 57 && 48
        <= m2 && m2 <= 57;
    if !all_digits {
        return None;
    }
    let minutes: i32 = (m1 - 48) as i32 * 10 + (m2 - 48) as i32;
    if minutes > 59 {
        return None;
    }
    // Hours are not bounded here: an offset that is too large is rejected as such.
    let seconds: i32 = ((h1 - 48) as i32 * 10 + (h2 - 48) as i32) * 3600 + minutes * 60;
    if sign == 43 {
        Some(seconds)
    } else if sign == 45 {
        Some(-seconds)
    } else {
        None
    }
}

/// Parses the fixed UTC offset forms that Arrow allows, `±HH:MM`, `±HHMM` and `±HH`, into a
/// signed number of seconds. Returns nothing for anything else, among it offsets whose minutes
/// are no minutes.
pub fn parse_utc_offset_seconds(timezone: &str) -> (r: Option<i32>)
    ensures
        r is Some == offset_seconds(encode_utf8(timezone@)) is Some,
        r matches Some(s) ==> offset_seconds(encode_utf8(timezone@)) == Some(s as int),
{
    let bytes = timezone.as_bytes();
    let n: usize = bytes.len();
    if n == 6 && bytes[3] == 58 {
        digits_to_seconds(bytes[0], bytes[1], bytes[2], bytes[4], bytes[5])
    } else if n == 5 {
        digits_to_seconds(bytes[0], bytes[1], bytes[2], bytes[3], bytes[4])
    } else if n == 3 {
        digits_to_seconds(bytes[0], bytes[1], bytes[2], 48, 48)
    } else {
        None
    }
}

/// Looks a name up in the time zone database, with `jiff::tz::TimeZone::get`. What it finds
/// depends on the database of the machine, so nothing is claimed of it.
#[verifier::external_body]
fn lookup_zone(name: &str) -> (r: Option<TimeZone>) {
    TimeZone::get(name).ok()
}

/// Tells whether `jiff::tz::Offset::from_seconds` accepts the seconds: it documents that it does
/// from -93,599 to 93,599.
#[verifier::external_body]
fn offset_is_valid(seconds: i32) -> (r: bool)
    ensures
        r == offset_fits(seconds as int),
{
    Offset::from_seconds(seconds).is_ok()
}

/// Whether looking a name up in the time zone database can come back with `found`.
pub closed spec fn database_gives(name: &str, found: Option<TimeZone>) -> bool {
    call_ensures(lookup_zone, (name,), found)
}

/// What a time zone string resolves to, given what the time zone database has under that name. A
/// name takes precedence over an offset.
pub open spec fn resolution(timezone: Seq<char>, found: Option<TimeZone>) -> Result<
    ResolvedZone,
    ZoneError,
> {
    match found {
        Some(zone) => Ok(ResolvedZone::Named(zone)),
        None => match offset_seconds(encode_utf8(timezone)) {
            None => Err(ZoneError::Unknown),
            Some(s) => if offset_fits(s) {
                Ok(ResolvedZone::Fixed(s as i32))
            } else {
                Err(ZoneError::OffsetOutOfRange)
            },
        },
    }
}

/// Whether resolving a time zone string can come out so: it is the resolution of the string with
/// something that the time zone database can give for that very name.
pub open spec fn resolves_to(timezone: Seq<char>, outcome: Result<ResolvedZone, ZoneError>) -> bool {
    exists|name: &str, found: Option<TimeZone>| #[trigger]
        database_gives(name, found) && name@ == timezone && outcome == resolution(timezone, found)
}

/// Why a resolution failed, if it did.
pub open spec fn failure(outcome: Result<ResolvedZone, ZoneError>) -> Option<ZoneError> {
    match outcome {
        Ok(_) => None,
        Err(e) => Some(e),
    }
}

/// Whether a time zone can turn out to be faulty for this reason, or for none.
pub open spec fn zone_fault(timezone: Seq<char>, error: Option<ZoneError>) -> bool {
    exists|outcome: Result<ResolvedZone, ZoneError>| #[trigger]
        resolves_to(timezone, outcome) && error == failure(outcome)
}

/// Whether an optional time zone can turn out to be faulty for this reason, or for none. No time
/// zone is never faulty.
pub open spec fn zone_verdict(timezone: Option<Seq<char>>, error: Option<ZoneError>) -> bool {
    match timezone {
        None => error is None,
        Some(tz) => zone_fault(tz, error),
    }
}

/// Resolves a time zone string, given what the time zone database has under that name. A name
/// takes precedence over an offset.
pub fn resolve_found(timezone: &str, found: Option<TimeZone>) -> (r: Result<
    ResolvedZone,
    ZoneError,
>)
    ensures
        r == resolution(timezone@, found),
{
    match found {
        Some(zone) => Ok(ResolvedZone::Named(zone)),
        None => match parse_utc_offset_seconds(timezone) {
            None => Err(ZoneError::Unknown),
            Some(seconds) => if offset_is_valid(seconds) {
                Ok(ResolvedZone::Fixed(seconds))
            } else {
                Err(ZoneError::OffsetOutOfRange)
            },
        },
    }
}

/// Resolves an Arrow time zone string.
///
/// Arrow permits the time zone of a timestamp to be either an IANA time zone name
/// (`America/New_York`) or a fixed offset from UTC (`+00:00`). The time zone database only has
/// the former, so fixed offsets are parsed here. Which names the database has depends on the
/// machine; a valid offset resolves on every machine.
pub fn resolve_timezone(timezone: &str) -> (r: Result<ResolvedZone, ZoneError>)
    ensures
        exists|found: Option<TimeZone>| #[trigger]
            database_gives(timezone, found) && r == resolution(timezone@, found),
        resolves_to(timezone@, r),
        offset_seconds(encode_utf8(timezone@)) matches Some(s) ==> (offset_fits(s) ==> r is Ok),
        r matches Ok(ResolvedZone::Fixed(s)) ==> offset_seconds(encode_utf8(timezone@)) == Some(
            s as int,
        ) && offset_fits(s as int),
        r matches Err(ZoneError::Unknown) ==> offset_seconds(encode_utf8(timezone@)) is None,
        r matches Err(ZoneError::OffsetOutOfRange) ==> (offset_seconds(
            encode_utf8(timezone@),
        ) matches Some(s) && !offset_fits(s)),
{
    let found = lookup_zone(timezone);
    assert(database_gives(timezone, found));
    resolve_found(timezone, found)
}

/// Returns the one offset that a zone always has, with `jiff::tz::TimeZone::to_fixed_offset`, or
/// nothing for a zone with rules. It depends on the time zone database.
#[verifier::external_body]
fn fixed_offset(zone: &TimeZone) -> (r: Option<i32>) {
    match zone.to_fixed_offset() {
        Ok(offset) => Some(offset.seconds()),
        Err(_) => None,
    }
}

/// Returns the offset of a zone at the Unix epoch, with `jiff::tz::TimeZone::to_offset`. It
/// depends on the time zone database.
#[verifier::external_body]
fn offset_at_epoch(zone: &TimeZone) -> (r: i32) {
    zone.to_offset(jiff::Timestamp::UNIX_EPOCH).seconds()
}

/// Tells whether a zone changes its offset after the Unix epoch, with
/// `jiff::tz::TimeZone::following`. It depends on the time zone database.
#[verifier::external_body]
fn changes_after_epoch(zone: &TimeZone) -> (r: bool) {
    zone.following(jiff::Timestamp::UNIX_EPOCH).next().is_some()
}

/// Tells whether a zone changed its offset before the Unix epoch, with
/// `jiff::tz::TimeZone::preceding`. It depends on the time zone database.
#[verifier::external_body]
fn changes_before_epoch(zone: &TimeZone) -> (r: bool) {
    zone.preceding(jiff::Timestamp::UNIX_EPOCH).next().is_some()
}

/// Whether a zone denotes UTC, given what is known of it: the one offset that it has is zero; or it
/// has rules, its offset at the epoch is zero, and it never changes.
pub open spec fn utc_by(
    fixed: Option<i32>,
    at_epoch: i32,
    changes_after: bool,
    changes_before: bool,
) -> bool {
    match fixed {
        Some(seconds) => seconds == 0,
        None => at_epoch == 0 && !changes_after && !changes_before,
    }
}

/// Whether asking a zone for its one offset, its offset at the epoch, and its changes after and
/// before the epoch can come back with these answers.
pub closed spec fn zone_answers(
    zone: &TimeZone,
    fixed: Option<i32>,
    at_epoch: i32,
    changes_after: bool,
    changes_before: bool,
) -> bool {
    &&& call_ensures(fixed_offset, (zone,), fixed)
    &&& call_ensures(offset_at_epoch, (zone,), at_epoch)
    &&& call_ensures(changes_after_epoch, (zone,), changes_after)
    &&& call_ensures(changes_before_epoch, (zone,), changes_before)
}

/// Whether `r` tells if a resolved time zone denotes UTC: a fixed offset does exactly when it is
/// zero, and a zone of the database by what it answers.
pub open spec fn tells_utc(zone: ResolvedZone, r: bool) -> bool {
    match zone {
        ResolvedZone::Fixed(seconds) => r == (seconds == 0),
        ResolvedZone::Named(zone) => exists|
            fixed: Option<i32>,
            at_epoch: i32,
            changes_after: bool,
            changes_before: bool,
        | #[trigger]
            zone_answers(&zone, fixed, at_epoch, changes_after, changes_before) && r == utc_by(
                fixed,
                at_epoch,
                changes_after,
                changes_before,
            ),
    }
}

/// Returns whether a zone denotes UTC, given what is known of it: the one offset that it has is
/// zero; or it has rules, its offset at the epoch is zero, and it never changes.
pub fn denotes_utc(
    fixed: Option<i32>,
    at_epoch: i32,
    changes_after: bool,
    changes_before: bool,
) -> (r: bool)
    ensures
        r == utc_by(fixed, at_epoch, changes_after, changes_before),
{
    match fixed {
        Some(seconds) => seconds == 0,
        None => at_epoch == 0 && !changes_after && !changes_before,
    }
}

/// Returns whether a resolved time zone denotes UTC. A fixed offset does exactly when it is zero.
pub fn zone_is_utc(zone: &ResolvedZone) -> (r: bool)
    ensures
        tells_utc(*zone, r),
{
    match zone {
        ResolvedZone::Fixed(seconds) => *seconds == 0,
        ResolvedZone::Named(zone) => {
            let fixed = fixed_offset(zone);
            let at_epoch: i32 = offset_at_epoch(zone);
            let after = changes_after_epoch(zone);
            let before = changes_before_epoch(zone);
            assert(zone_answers(zone, fixed, at_epoch, after, before));
            denotes_utc(fixed, at_epoch, after, before)
        },
    }
}

/// Returns whether an Arrow time zone string denotes UTC.
///
/// UTC has more than one Arrow spelling: any zero fixed offset such as `+00:00`, and the IANA
/// names that are zero-offset for all time, such as `UTC` and `Etc/UTC`. What a name denotes
/// depends on the time zone database of the machine. What does not resolve does not denote UTC.
pub fn is_utc_timezone(timezone: &str) -> (r: bool)
    ensures
        exists|found: Option<TimeZone>| #[trigger]
            database_gives(timezone, found) && match resolution(timezone@, found) {
                Ok(zone) => tells_utc(zone, r),
                Err(_) => !r,
            },
{
    match resolve_timezone(timezone) {
        Ok(zone) => zone_is_utc(&zone),
        Err(_) => false,
    }
}

/// A fixed offset resolves whatever the time zone database has, and a text that is neither a name
/// of the database nor an offset does not.
pub proof fn law_what_resolves(timezone: Seq<char>, outcome: Result<ResolvedZone, ZoneError>)
    requires
        resolves_to(timezone, outcome),
    ensures
        outcome is Ok ==> outcome->Ok_0 is Named || (offset_seconds(
            encode_utf8(timezone),
        ) matches Some(s) && offset_fits(s)),
        offset_seconds(encode_utf8(timezone)) matches Some(s) ==> (offset_fits(s) ==> outcome is Ok),
        outcome is Err ==> outcome->Err_0 == match offset_seconds(encode_utf8(timezone)) {
            None => ZoneError::Unknown,
            Some(_) => ZoneError::OffsetOutOfRange,
        },
{
}

/// An offset and the same offset with the other sign are opposite, and no offset that can be
/// written is a hundred hours or more.
pub proof fn law_offset_sign(h1: u8, h2: u8, m1: u8, m2: u8)
    ensures
        match offset_of_digits(43, h1, h2, m1, m2) {
            Some(s) => offset_of_digits(45, h1, h2, m1, m2) == Some(-s) && 0 <= s < 360_000,
            None => offset_of_digits(45, h1, h2, m1, m2) is None,
        },
{
}

/// The long, the short and the bare form of an offset of whole hours stand for one offset.
pub proof fn law_offset_forms_agree(sign: u8, h1: u8, h2: u8)
    ensures
        offset_seconds(seq![sign, h1, h2, 58u8, 48u8, 48u8]) == offset_seconds(seq![sign, h1, h2]),
        offset_seconds(seq![sign, h1, h2, 48u8, 48u8]) == offset_seconds(seq![sign, h1, h2]),
{
}

/// An offset of so many hours and minutes is so many seconds, east of UTC with a plus and west of it
/// with a minus, with a colon between the hours and the minutes or without.
pub proof fn law_an_offset_is_its_hours_and_minutes(hours: int, minutes: int)
    requires
        0 <= hours <= 99,
        0 <= minutes <= 59,
    ensures
        ({
            let (h1, h2) = ((48 + hours / 10) as u8, (48 + hours % 10) as u8);
            let (m1, m2) = ((48 + minutes / 10) as u8, (48 + minutes % 10) as u8);
            let seconds = (hours * 60 + minutes) * 60;
            &&& offset_seconds(seq![43u8, h1, h2, 58u8, m1, m2]) == Some(seconds)
            &&& offset_seconds(seq![45u8, h1, h2, 58u8, m1, m2]) == Some(-seconds)
            &&& offset_seconds(seq![43u8, h1, h2, m1, m2]) == Some(seconds)
            &&& offset_seconds(seq![45u8, h1, h2, m1, m2]) == Some(-seconds)
            &&& minutes == 0 ==> offset_seconds(seq![43u8, h1, h2]) == Some(seconds)
                && offset_seconds(seq![45u8, h1, h2]) == Some(-seconds)
        }),
{
}

/// What is an offset has a sign, two digits of hours and, but for the bare form, two digits of
/// minutes, which are less than sixty. It is a whole number of minutes.
pub proof fn law_what_is_an_offset(bytes: Seq<u8>)
    requires
        offset_seconds(bytes) is Some,
    ensures
        bytes[0] == 43 || bytes[0] == 45,
        48 <= bytes[1] <= 57,
        48 <= bytes[2] <= 57,
        bytes.len() == 3 || (bytes.len() == 5 && 48 <= bytes[3] <= 53 && 48 <= bytes[4] <= 57) || (
        bytes.len() == 6 && bytes[3] == 58 && 48 <= bytes[4] <= 53 && 48 <= bytes[5] <= 57),
        offset_seconds(bytes)->Some_0 % 60 == 0,
{
}

/// A name of the time zone database is that zone, even where the text could be an offset; another
/// text is the offset that it is written as, if that is no more than 25:59:59.
pub proof fn law_a_name_takes_precedence(timezone: Seq<char>, zone: TimeZone)
    ensures
        resolution(timezone, Some(zone)) == Ok::<ResolvedZone, ZoneError>(ResolvedZone::Named(zone)),
        match resolution(timezone, None) {
            Ok(ResolvedZone::Fixed(s)) => offset_seconds(encode_utf8(timezone)) == Some(s as int)
                && -26 * 3600 < s < 26 * 3600,
            Ok(ResolvedZone::Named(_)) => false,
            Err(ZoneError::Unknown) => offset_seconds(encode_utf8(timezone)) is None,
            Err(ZoneError::OffsetOutOfRange) => (offset_seconds(encode_utf8(timezone)) matches Some(s)
                && (s <= -26 * 3600 || s >= 26 * 3600)),
        },
{
}

/// A zone denotes UTC exactly if its offset is zero at all times, where `offset` tells its offset at
/// each time since the epoch and the answers are true of it.
pub proof fn law_utc_has_no_offset_at_any_time(
    offset: spec_fn(int) -> int,
    fixed: Option<i32>,
    at_epoch: i32,
    changes_after: bool,
    changes_before: bool,
)
    requires
        fixed matches Some(s) ==> forall|t: int| #[trigger] offset(t) == s,
        at_epoch == offset(0),
        changes_after <==> exists|t: int| t > 0 && #[trigger] offset(t) != offset(0),
        changes_before <==> exists|t: int| t < 0 && #[trigger] offset(t) != offset(0),
    ensures
        utc_by(fixed, at_epoch, changes_after, changes_before) <==> forall|t: int| #[trigger]
            offset(t) == 0,
{
    if utc_by(fixed, at_epoch, changes_after, changes_before) {
        assert forall|t: int| #[trigger] offset(t) == 0 by {
            if t != 0 && fixed is None {
                assert(offset(t) == offset(0));
            }
        }
    }
    if forall|t: int| #[trigger] offset(t) == 0 {
        assert(offset(0) == 0);
    }
}

/// A zone of the database tells whether it denotes UTC by what it answers: where all that it can
/// answer says one thing, that is what is told. A fixed offset denotes UTC exactly if it is zero.
pub proof fn law_a_zone_tells_by_its_answers(zone: TimeZone, seconds: i32, r: bool, utc: bool)
    requires
        forall|fixed: Option<i32>, at_epoch: i32, changes_after: bool, changes_before: bool|
            #[trigger]
            zone_answers(&zone, fixed, at_epoch, changes_after, changes_before) ==> utc_by(
                fixed,
                at_epoch,
                changes_after,
                changes_before,
            ) == utc,
    ensures
        tells_utc(ResolvedZone::Named(zone), r) ==> r == utc,
        tells_utc(ResolvedZone::Fixed(seconds), r) ==> r == (seconds == 0),
{
}

/// No time zone is never faulty, and a time zone is faulty only for what its resolution fails for.
pub proof fn law_what_is_faulty(timezone: Seq<char>, error: Option<ZoneError>)
    ensures
        zone_verdict(None, error) <==> error is None,
        zone_verdict(Some(timezone), error) ==> match error {
            Some(ZoneError::Unknown) => offset_seconds(encode_utf8(timezone)) is None,
            Some(ZoneError::OffsetOutOfRange) => (offset_seconds(
                encode_utf8(timezone),
            ) matches Some(s) && !offset_fits(s)),
            None => true,
        },
{
}

} // verus!
