//! Days in the learner's own time zone, fresh ids and the clock.
//!
//! A review is owed on a day boundary, not a number of hours from now. Where one day
//! ends and the next begins is a fact about a zone, and the zone data belongs to
//! `chrono` and `chrono-tz`; what is decided here is which boundary is meant.

use crate::models::{Subject, DEFAULT_TIMEZONE};
use crate::text::{trim, trimmed};
use chrono::{Datelike, Offset, TimeZone};
use vstd::prelude::*;
use vstd::string::*;

verus! {

/// The first day that can be represented, counted with January 1 of year 1 as day 1.
pub const MIN_DAY: i32 = -95746129;

/// The last day that can be represented, counted with January 1 of year 1 as day 1.
pub const MAX_DAY: i32 = 95745399;

/// A time zone, by its IANA name.
#[derive(Clone, Debug)]
pub struct Tz {
    pub name: String,
}

/// Whether `chrono_tz` knows a zone by this name.
pub uninterp spec fn zone_known(name: Seq<char>) -> bool;

/// The local day in a zone at an instant, where both can be represented.
pub uninterp spec fn local_day_at(zone: Seq<char>, at_ms: i64) -> Option<i32>;

/// The earliest instant at which it is `hour` o'clock on a local day in a zone; nothing
/// where the clock of that zone skips the hour.
pub uninterp spec fn instant_of(zone: Seq<char>, day: i32, hour: u32) -> Option<i64>;

/// The day that a `YYYY-MM-DD` text names.
pub uninterp spec fn date_named(text: Seq<char>) -> Option<i32>;

/// `chrono::Utc::now`: the time of the system clock. It does not return where that clock
/// stands before 1970.
#[verifier::external_body]
pub fn now_ms() -> (now: i64)
    ensures
        0 <= now,
{
    chrono::Utc::now().timestamp_millis()
}

/// A lower-case hexadecimal digit.
pub open spec fn is_hex(c: char) -> bool {
    '0' <= c <= '9' || 'a' <= c <= 'f'
}

/// The text of a random UUID without hyphens: 32 lower-case hexadecimal digits, with the
/// version and the variant where they belong.
pub open spec fn is_uuid_text(s: Seq<char>) -> bool {
    &&& s.len() == 32
    &&& forall|i: int| 0 <= i < 32 ==> is_hex(#[trigger] s[i])
    &&& s[12] == '4'
    &&& (s[16] == '8' || s[16] == '9' || s[16] == 'a' || s[16] == 'b')
}

/// `uuid::Uuid::new_v4`, written by its `simple` format: 32 lower-case hexadecimal
/// digits of which the thirteenth is 4 and the seventeenth is 8, 9, a or b. The rest is
/// random, so nothing is said about it, nor that two results differ. It does not return
/// where the system has no randomness to give.
#[verifier::external_body]
fn random_uuid() -> (text: String)
    ensures
        is_uuid_text(text@),
{
    uuid::Uuid::new_v4().simple().to_string()
}

/// `chrono_tz::Tz::from_str`: whether the name is that of a zone in its data, in which
/// `UTC` is one.
#[verifier::external_body]
fn is_zone(name: &str) -> (known: bool)
    ensures
        known == zone_known(name@),
        name@ == "UTC"@ ==> known,
{
    name.parse::<chrono_tz::Tz>().is_ok()
}

/// `chrono_tz::Tz::offset_from_utc_datetime`, with the offset it gives added by
/// `chrono::NaiveDateTime::checked_add_offset`: the local day at an instant, counted
/// with January 1 of year 1 as day 1. Nothing comes back where the zone is unknown or
/// where the instant or its local time is outside the range of `chrono`.
#[verifier::external_body]
fn local_day(zone: &str, at_ms: i64) -> (day: Option<i32>)
    ensures
        day == local_day_at(zone@, at_ms),
        day matches Some(d) ==> MIN_DAY <= d <= MAX_DAY,
{
    let tz: chrono_tz::Tz = zone.parse().ok()?;
    let utc = chrono::DateTime::from_timestamp_millis(at_ms)?.naive_utc();
    let offset = tz.offset_from_utc_datetime(&utc).fix();
    Some(utc.checked_add_offset(offset)?.date().num_days_from_ce())
}

/// `chrono_tz::Tz::from_local_datetime` and the earliest of what it gives: the instant
/// of a full hour on a local day. Nothing comes back where the zone is unknown, the day
/// is out of range or the hour is skipped. An instant that does come back lies on that
/// very local day.
#[verifier::external_body]
fn local_hour(zone: &str, day: i32, hour: u32) -> (at: Option<i64>)
    ensures
        at == instant_of(zone@, day, hour),
        at matches Some(ms) ==> local_day_at(zone@, ms) == Some(day),
{
    let tz: chrono_tz::Tz = zone.parse().ok()?;
    let date = chrono::NaiveDate::from_num_days_from_ce_opt(day)?;
    let local = tz.from_local_datetime(&date.and_hms_opt(hour, 0, 0)?);
    Some(local.earliest()?.timestamp_millis())
}

/// `chrono::NaiveDate::checked_add_days`: the day that many days later, where it can
/// still be represented.
#[verifier::external_body]
fn later_day(day: i32, days: u32) -> (later: Option<i32>)
    requires
        MIN_DAY <= day <= MAX_DAY,
    ensures
        later == (if day + days <= MAX_DAY {
            Some((day + days) as i32)
        } else {
            None
        }),
{
    let date = chrono::NaiveDate::from_num_days_from_ce_opt(day)?;
    let later = date.checked_add_days(chrono::Days::new(u64::from(days)))?;
    Some(later.num_days_from_ce())
}

/// `chrono::NaiveDate::parse_from_str` with the format `%Y-%m-%d`: the day that a text
/// names, counted with January 1 of year 1 as day 1.
#[verifier::external_body]
fn read_date(text: &str) -> (day: Option<i32>)
    ensures
        day == date_named(text@),
        day matches Some(d) ==> MIN_DAY <= d <= MAX_DAY,
{
    Some(chrono::NaiveDate::parse_from_str(text, "%Y-%m-%d").ok()?.num_days_from_ce())
}

/// A fresh id: the prefix and 32 random hexadecimal digits.
pub fn new_id(prefix: &str) -> (id: String)
    ensures
        id@.len() == prefix@.len() + 32,
        id@.take(prefix@.len() as int) == prefix@,
        is_uuid_text(id@.skip(prefix@.len() as int)),
{
    let mut id: String = prefix.to_owned();
    let tail: String = random_uuid();
    id.append(tail.as_str());
    assert(id@.take(prefix@.len() as int) =~= prefix@);
    assert(id@.skip(prefix@.len() as int) =~= tail@);
    id
}

/// The name of the zone that a stored name stands for: itself where it is known, UTC
/// where it is not.
pub open spec fn zone_for(name: Seq<char>) -> Seq<char> {
    if zone_known(trimmed(name)) {
        trimmed(name)
    } else {
        "UTC"@
    }
}

/// Resolves an IANA zone name, falling back to UTC. A subject whose zone was edited to
/// nonsense must still schedule reviews.
pub fn resolve_tz(name: &str) -> (tz: Tz)
    ensures
        tz.name@ == zone_for(name@),
        zone_known(tz.name@),
        zone_known(trimmed(name@)) ==> tz.name@ == trimmed(name@),
        !zone_known(trimmed(name@)) ==> tz.name@ == "UTC"@,
{
    let kept: String = trim(name);
    if is_zone(kept.as_str()) {
        Tz { name: kept }
    } else {
        let fallback: bool = is_zone(DEFAULT_TIMEZONE);
        assert(fallback);
        Tz { name: DEFAULT_TIMEZONE.to_owned() }
    }
}

/// The first full hour of a local day that exists, among the first four.
pub open spec fn first_hour(zone: Seq<char>, day: i32) -> Option<i64> {
    if instant_of(zone, day, 0) is Some {
        instant_of(zone, day, 0)
    } else if instant_of(zone, day, 1) is Some {
        instant_of(zone, day, 1)
    } else if instant_of(zone, day, 2) is Some {
        instant_of(zone, day, 2)
    } else {
        instant_of(zone, day, 3)
    }
}

/// The boundary at which the local day of an instant begins; the instant itself where
/// there is none.
pub open spec fn day_start(zone: Seq<char>, at_ms: i64) -> i64 {
    match local_day_at(zone, at_ms) {
        None => at_ms,
        Some(day) => match first_hour(zone, day) {
            None => at_ms,
            Some(start) => start,
        },
    }
}

/// The boundary `days` whole days after the local day of an instant, found from noon of
/// that day; the instant itself where that day cannot be represented.
pub open spec fn day_start_after(zone: Seq<char>, at_ms: i64, days: u32) -> i64 {
    match local_day_at(zone, at_ms) {
        None => at_ms,
        Some(day) => if day + days > MAX_DAY {
            at_ms
        } else {
            day_start(
                zone,
                match instant_of(zone, (day + days) as i32, 12) {
                    Some(noon) => noon,
                    None => at_ms,
                },
            )
        },
    }
}

/// Midnight of the local day of an instant, or the first hour that exists where a zone
/// springs forward at midnight.
///
/// The boundary lies on the same local day and is its own boundary.
pub fn day_start_ms(tz: &Tz, at_ms: i64) -> (start: i64)
    ensures
        start == day_start(tz.name@, at_ms),
        local_day_at(tz.name@, start) == local_day_at(tz.name@, at_ms),
        day_start(tz.name@, start) == start,
        // Midnight, where there is one; the first of the next three hours where not; and the
        // instant itself where none exists.
        local_day_at(tz.name@, at_ms) is None ==> start == at_ms,
        local_day_at(tz.name@, at_ms) matches Some(day) ==> match instant_of(tz.name@, day, 0) {
            Some(midnight) => start == midnight,
            None => match instant_of(tz.name@, day, 1) {
                Some(one) => start == one,
                None => match instant_of(tz.name@, day, 2) {
                    Some(two) => start == two,
                    None => match instant_of(tz.name@, day, 3) {
                        Some(three) => start == three,
                        None => start == at_ms,
                    },
                },
            },
        },
{
    let day: i32 = match local_day(tz.name.as_str(), at_ms) {
        Some(day) => day,
        None => {
            return at_ms;
        },
    };
    let mut hour: u32 = 0;
    while hour < 4
        invariant
            hour <= 4,
            local_day_at(tz.name@, at_ms) == Some(day),
            forall|h: u32| h < hour ==> instant_of(tz.name@, day, h) is None,
        decreases 4 - hour,
    {
        if let Some(start) = local_hour(tz.name.as_str(), day, hour) {
            return start;
        }
        hour += 1;
    }
    at_ms
}

/// The day boundary `days` whole days after the local day of an instant: what an
/// interval in days turns into.
pub fn day_start_plus_days(tz: &Tz, at_ms: i64, days: u32) -> (due: i64)
    ensures
        due == day_start_after(tz.name@, at_ms, days),
        due == at_ms || day_start(tz.name@, due) == due,
        local_day_at(tz.name@, at_ms) matches Some(day) ==> day + days <= MAX_DAY && instant_of(
            tz.name@,
            (day + days) as i32,
            12,
        ) is Some ==> local_day_at(tz.name@, due) == Some((day + days) as i32) && day_start(
            tz.name@,
            due,
        ) == due,
        // That many days on, at midnight; the instant itself where the calendar ends before.
        local_day_at(tz.name@, at_ms) is None ==> due == at_ms,
        local_day_at(tz.name@, at_ms) matches Some(day) ==> day + days > 95_745_399 ==> due == at_ms,
        local_day_at(tz.name@, at_ms) matches Some(day) ==> day + days <= 95_745_399 && instant_of(
            tz.name@,
            (day + days) as i32,
            12,
        ) is Some ==> (instant_of(tz.name@, (day + days) as i32, 0) matches Some(midnight) ==> due
            == midnight),
{
    let day: i32 = match local_day(tz.name.as_str(), at_ms) {
        Some(day) => day,
        None => {
            return at_ms;
        },
    };
    let target: i32 = match later_day(day, days) {
        Some(target) => target,
        None => {
            return at_ms;
        },
    };
    let anchor: i64 = match local_hour(tz.name.as_str(), target, 12) {
        Some(noon) => noon,
        None => at_ms,
    };
    day_start_ms(tz, anchor)
}

/// The instant an exam day begins in a zone, found from noon of that day: local noon, or
/// noon in UTC where the zone skips the day.
pub open spec fn exam_start(zone: Seq<char>, day: i32) -> Option<i64> {
    match instant_of(zone, day, 12) {
        Some(noon) => Some(day_start(zone, noon)),
        None => match instant_of("UTC"@, day, 12) {
            Some(noon) => Some(day_start(zone, noon)),
            None => None,
        },
    }
}

/// The instant of a subject's exam, if it has a readable exam date.
pub open spec fn exam_instant(subject: Subject) -> Option<i64> {
    match subject.exam_date {
        None => None,
        Some(raw) => match date_named(trimmed(raw@)) {
            None => None,
            Some(day) => exam_start(zone_for(subject.timezone@), day),
        },
    }
}

/// The exam date as an instant: the start of that calendar day in the subject's own
/// zone. The date is stored as typed, so that it cannot drift when a zone changes; this
/// is the one place where it becomes a moment.
pub fn exam_at_ms(subject: &Subject) -> (at: Option<i64>)
    ensures
        at == exam_instant(*subject),
        at matches Some(ms) ==> day_start(zone_for(subject.timezone@), ms) == ms,
        subject.exam_date matches Some(raw) ==> (date_named(trimmed(raw@)) matches Some(day)
            ==> instant_of(zone_for(subject.timezone@), day, 12) is Some ==> (at matches Some(ms)
            && local_day_at(zone_for(subject.timezone@), ms) == Some(day))),
        // The midnight with which the day begins that was typed, in the subject's own zone.
        subject.exam_date is None ==> at is None,
        subject.exam_date matches Some(raw) ==> (date_named(trimmed(raw@)) is None ==> at is None),
        subject.exam_date matches Some(raw) ==> (date_named(trimmed(raw@)) matches Some(day) ==> (
        zone_known(trimmed(subject.timezone@)) && instant_of(
            trimmed(subject.timezone@),
            day,
            12,
        ) is Some ==> (instant_of(trimmed(subject.timezone@), day, 0) matches Some(midnight) ==> at
            == Some(midnight)))),
{
    match &subject.exam_date {
        None => None,
        Some(raw) => {
            let text: String = trim(raw.as_str());
            match read_date(text.as_str()) {
                None => None,
                Some(day) => {
                    let tz: Tz = resolve_tz(subject.timezone.as_str());
                    let noon: Option<i64> = match local_hour(tz.name.as_str(), day, 12) {
                        Some(noon) => Some(noon),
                        None => local_hour(DEFAULT_TIMEZONE, day, 12),
                    };
                    match noon {
                        Some(noon) => Some(day_start_ms(&tz, noon)),
                        None => None,
                    }
                },
            }
        },
    }
}

impl Subject {
    /// The zone that this subject's day boundaries are measured in.
    pub fn tz(&self) -> (tz: Tz)
        ensures
            tz.name@ == zone_for(self.timezone@),
            zone_known(tz.name@),
    {
        resolve_tz(self.timezone.as_str())
    }
}

/// Where a local day begins: at midnight; where the clock skips it, at the first of the next
/// three hours; and at the instant itself where there is no such hour, or no such day.
pub proof fn a_day_begins_at_its_first_hour(zone: Seq<char>, at_ms: i64, day: i32)
    ensures
        local_day_at(zone, at_ms) is None ==> day_start(zone, at_ms) == at_ms,
        local_day_at(zone, at_ms) == Some(day) ==> match instant_of(zone, day, 0) {
            Some(midnight) => day_start(zone, at_ms) == midnight,
            None => match instant_of(zone, day, 1) {
                Some(one) => day_start(zone, at_ms) == one,
                None => match instant_of(zone, day, 2) {
                    Some(two) => day_start(zone, at_ms) == two,
                    None => match instant_of(zone, day, 3) {
                        Some(three) => day_start(zone, at_ms) == three,
                        None => day_start(zone, at_ms) == at_ms,
                    },
                },
            },
        },
{
}

/// So many days on is counted in local days: the boundary is that of noon on the day so many
/// days later, whatever the hour it is counted from.
pub proof fn days_are_counted_by_the_calendar(
    zone: Seq<char>,
    at_ms: i64,
    day: i32,
    days: u32,
    noon: i64,
)
    requires
        local_day_at(zone, at_ms) == Some(day),
    ensures
        day + days <= 95_745_399 && instant_of(zone, (day + days) as i32, 12) == Some(noon)
            ==> day_start_after(zone, at_ms, days) == day_start(zone, noon),
        day + days > 95_745_399 ==> day_start_after(zone, at_ms, days) == at_ms,
{
}

/// An exam begins with the day that was typed, in the subject's own zone: that zone where it is
/// known, and UTC where it is not.
pub proof fn an_exam_begins_with_its_day(subject: Subject, day: i32, noon: i64)
    ensures
        subject.exam_date is None ==> exam_instant(subject) is None,
        subject.exam_date matches Some(raw) ==> (date_named(trimmed(raw@)) is None ==> exam_instant(
            subject,
        ) is None),
        subject.exam_date matches Some(raw) ==> (date_named(trimmed(raw@)) == Some(day)
            && zone_known(trimmed(subject.timezone@)) && instant_of(
            trimmed(subject.timezone@),
            day,
            12,
        ) == Some(noon) ==> exam_instant(subject) == Some(
            day_start(trimmed(subject.timezone@), noon),
        )),
        subject.exam_date matches Some(raw) ==> (date_named(trimmed(raw@)) == Some(day)
            && !zone_known(trimmed(subject.timezone@)) && instant_of("UTC"@, day, 12) == Some(noon)
            ==> exam_instant(subject) == Some(day_start("UTC"@, noon))),
        // A noon that the zone's clock has not is taken to be noon in UTC.
        subject.exam_date matches Some(raw) ==> (date_named(trimmed(raw@)) == Some(day)
            && zone_known(trimmed(subject.timezone@)) && instant_of(
            trimmed(subject.timezone@),
            day,
            12,
        ) is None ==> exam_instant(subject) == match instant_of("UTC"@, day, 12) {
            Some(utc) => Some(day_start(trimmed(subject.timezone@), utc)),
            None => None,
        }),
        zone_known(trimmed(subject.timezone@)) ==> zone_for(subject.timezone@) == trimmed(
            subject.timezone@,
        ),
        !zone_known(trimmed(subject.timezone@)) ==> zone_for(subject.timezone@) == "UTC"@,
{
}

} // verus!
