//! The date of a message, as the Date header spells it.
//!
//! An instant is kept as seconds since 1970 in UTC, with the zone it is to
//! be shown in. The calendar is chrono's: it says which instants exist and
//! what year, month, day and time of day an instant falls on.
use vstd::prelude::*;
use vstd::string::StringExecFns;

verus! {

/// A fixed offset from UTC, or the offset `-0000`, which says that the
/// local zone is not known.
#[derive(Debug, Clone, Copy, PartialEq, Eq)]
pub struct TimeZone {
    offset_minutes: Option<i32>,
}

impl TimeZone {
    /// The offset in minutes, east of UTC: `None` for `-0000`.
    pub closed spec fn minutes(&self) -> Option<i32> {
        self.offset_minutes
    }

    /// The offset in seconds, east of UTC: 0 for `-0000`.
    pub open spec fn seconds(&self) -> int {
        match self.minutes() {
            Some(m) => m * 60,
            None => 0,
        }
    }

    /// No zone is more than twelve hours and fifty-nine minutes from UTC.
    #[verifier::type_invariant]
    spec fn inv(&self) -> bool {
        match self.offset_minutes {
            Some(m) => -779 <= m <= 779,
            None => true,
        }
    }

    /// The zone `hours` and `minutes` east of UTC.
    pub fn plus(hours: u32, minutes: u32) -> (zone: Option<Self>)
        ensures
            zone is Some <==> hours <= 12 && minutes <= 59,
            zone matches Some(z) ==> z.minutes() == Some((hours * 60 + minutes) as i32),
    {
        if hours > 12 || minutes > 59 {
            return None;
        }
        Some(TimeZone { offset_minutes: Some((hours * 60 + minutes) as i32) })
    }

    /// The zone `hours` and `minutes` west of UTC. No hours and no minutes
    /// west is `-0000`.
    pub fn minus(hours: u32, minutes: u32) -> (zone: Option<Self>)
        ensures
            zone is Some <==> hours <= 12 && minutes <= 59,
            zone matches Some(z) ==> z.minutes() == if hours == 0 && minutes == 0 {
                None
            } else {
                Some((-(hours * 60 + minutes)) as i32)
            },
    {
        if hours > 12 || minutes > 59 {
            return None;
        }
        let offset_minutes: i32 = -((hours * 60 + minutes) as i32);
        Some(
            TimeZone {
                offset_minutes: if offset_minutes == 0 {
                    None
                } else {
                    Some(offset_minutes)
                },
            },
        )
    }

    /// UTC, `+0000`.
    pub fn utc() -> (zone: Self)
        ensures
            zone.minutes() == Some(0i32),
    {
        TimeZone { offset_minutes: Some(0) }
    }

    /// The zone that is not known, `-0000`. It counts as UTC.
    pub fn undefined() -> (zone: Self)
        ensures
            zone.minutes() is None,
    {
        TimeZone { offset_minutes: None }
    }

    pub fn offset_seconds(&self) -> (seconds: i32)
        ensures
            seconds == self.seconds(),
            -46740 <= seconds <= 46740,
    {
        proof {
            use_type_invariant(self);
        }
        match self.offset_minutes {
            Some(m) => m * 60,
            None => 0,
        }
    }

    pub fn offset_minutes(&self) -> (minutes: Option<i32>)
        ensures
            minutes == self.minutes(),
    {
        self.offset_minutes
    }
}

/// What an instant falls on in the calendar.
pub struct CivilTime {
    pub year: i32,
    /// 1 to 12.
    pub month: u32,
    /// 1 to 31.
    pub day: u32,
    /// Days since Monday, 0 to 6.
    pub weekday: u32,
    pub hour: u32,
    pub minute: u32,
    pub second: u32,
}

/// What the instant `secs` seconds from 1970 falls on in chrono's calendar:
/// `None` where the calendar does not hold the instant.
pub uninterp spec fn civil(secs: int) -> Option<CivilTime>;

/// Whether chrono's calendar holds the instant `secs` seconds from 1970.
pub open spec fn representable(secs: int) -> bool {
    civil(secs) is Some
}

/// The instant that chrono gives to a date and a time of day at `offset`
/// seconds east of UTC, in seconds from 1970: `None` where the calendar has
/// no such date or time, or not at that offset.
pub uninterp spec fn local_timestamp(
    offset: int,
    year: int,
    month: int,
    day: int,
    hour: int,
    minute: int,
    second: int,
) -> Option<int>;

/// `TimeZone::with_ymd_and_hms` of chrono on the `FixedOffset` that
/// `FixedOffset::east_opt` makes of `offset`, and `DateTime::timestamp` of
/// what it returns: the instant of a date and a time of day at that offset,
/// where chrono has such an offset, date and time.
#[verifier::external_body]
fn instant_of(
    offset: i32,
    year: i32,
    month: u32,
    day: u32,
    hour: u32,
    minute: u32,
    second: u32,
) -> (secs: Option<i64>)
    ensures
        match secs {
            Some(t) => local_timestamp(
                offset as int,
                year as int,
                month as int,
                day as int,
                hour as int,
                minute as int,
                second as int,
            ) == Some(t as int),
            None => local_timestamp(
                offset as int,
                year as int,
                month as int,
                day as int,
                hour as int,
                minute as int,
                second as int,
            ) is None,
        },
{
    let zone = chrono::FixedOffset::east_opt(offset)?;
    let instant =
        chrono::TimeZone::with_ymd_and_hms(&zone, year, month, day, hour, minute, second)
            .single()?;
    Some(instant.timestamp())
}

/// `DateTime::from_timestamp` of chrono, with no nanoseconds, and the
/// accessors of `Datelike` and `Timelike` on what it returns.
///
/// It finds an instant in the calendar or it does not. Where it does, its
/// date and time of day in UTC are each in the range that chrono documents
/// for it.
#[verifier::external_body]
fn civil_of(secs: i64) -> (found: Option<CivilTime>)
    ensures
        found == civil(secs as int),
        found matches Some(c) ==> {
            &&& 1 <= c.month <= 12
            &&& 1 <= c.day <= 31
            &&& c.weekday <= 6
            &&& c.hour <= 23
            &&& c.minute <= 59
            &&& c.second <= 59
        },
{
    let t = chrono::DateTime::from_timestamp(secs, 0)?.naive_utc();
    Some(
        CivilTime {
            year: chrono::Datelike::year(&t),
            month: chrono::Datelike::month(&t),
            day: chrono::Datelike::day(&t),
            weekday: chrono::Datelike::weekday(&t).num_days_from_monday(),
            hour: chrono::Timelike::hour(&t),
            minute: chrono::Timelike::minute(&t),
            second: chrono::Timelike::second(&t),
        },
    )
}

/// `DateTime::from_timestamp_millis` of chrono, and `timestamp` and
/// `timestamp_subsec_nanos` of what it returns: the seconds of the instant,
/// rounded down, and its nanoseconds beyond them, where the calendar holds
/// the second that the millisecond falls in.
#[verifier::external_body]
fn instant_of_millis(millis: i64) -> (parts: Option<(i64, u32)>)
    ensures
        parts == if representable(millis as int / 1000) {
            Some(((millis as int / 1000) as i64, ((millis as int % 1000) * 1_000_000) as u32))
        } else {
            None
        },
{
    let instant = chrono::DateTime::from_timestamp_millis(millis)?;
    Some((instant.timestamp(), instant.timestamp_subsec_nanos()))
}

/// `Utc::now` of chrono, and `timestamp` and `timestamp_subsec_nanos` of
/// what it returns: the seconds and nanoseconds of the instant that the
/// system clock shows. Whatever the clock shows, the calendar holds it.
#[verifier::external_body]
fn current_instant() -> (parts: (i64, u32))
    ensures
        representable(parts.0 as int),
{
    let now = chrono::Utc::now();
    (now.timestamp(), now.timestamp_subsec_nanos())
}

/// The three letters of a day of the week, `weekday` days after Monday.
pub open spec fn weekday_name(weekday: int) -> Seq<char> {
    if weekday == 0 {
        "Mon"@
    } else if weekday == 1 {
        "Tue"@
    } else if weekday == 2 {
        "Wed"@
    } else if weekday == 3 {
        "Thu"@
    } else if weekday == 4 {
        "Fri"@
    } else if weekday == 5 {
        "Sat"@
    } else {
        "Sun"@
    }
}

/// The three letters of the month `month`, January being 1.
pub open spec fn month_name(month: int) -> Seq<char> {
    if month == 1 {
        "Jan"@
    } else if month == 2 {
        "Feb"@
    } else if month == 3 {
        "Mar"@
    } else if month == 4 {
        "Apr"@
    } else if month == 5 {
        "May"@
    } else if month == 6 {
        "Jun"@
    } else if month == 7 {
        "Jul"@
    } else if month == 8 {
        "Aug"@
    } else if month == 9 {
        "Sep"@
    } else if month == 10 {
        "Oct"@
    } else if month == 11 {
        "Nov"@
    } else {
        "Dec"@
    }
}

/// A zone as the Date header spells it: a sign, two digits of hours, two of
/// minutes. The zone that is not known is `-0000`.
pub open spec fn zone_text(minutes: Option<i32>) -> Seq<char> {
    match minutes {
        None => "-0000"@,
        Some(m) => {
            let size = if m < 0 {
                -m
            } else {
                m as int
            };
            (if m >= 0 {
                "+"@
            } else {
                "-"@
            }) + crate::decimal::padded((size / 60) as nat, 2) + crate::decimal::padded(
                (size % 60) as nat,
                2,
            )
        },
    }
}

/// A date and time of day as the Date header spells it, such as
/// `Wed, 01 Jan 2025 12:00:00 +0100`.
pub open spec fn date_text(c: CivilTime, minutes: Option<i32>) -> Seq<char> {
    weekday_name(c.weekday as int) + ", "@ + crate::decimal::padded(c.day as nat, 2) + " "@
        + month_name(c.month as int) + " "@ + crate::decimal::signed_padded(c.year as int, 4)
        + " "@ + crate::decimal::padded(c.hour as nat, 2) + ":"@ + crate::decimal::padded(
        c.minute as nat,
        2,
    ) + ":"@ + crate::decimal::padded(c.second as nat, 2) + " "@ + zone_text(minutes)
}

fn weekday_str(weekday: u32) -> (name: &'static str)
    requires
        weekday <= 6,
    ensures
        name@ == weekday_name(weekday as int),
{
    if weekday == 0 {
        "Mon"
    } else if weekday == 1 {
        "Tue"
    } else if weekday == 2 {
        "Wed"
    } else if weekday == 3 {
        "Thu"
    } else if weekday == 4 {
        "Fri"
    } else if weekday == 5 {
        "Sat"
    } else {
        "Sun"
    }
}

fn month_str(month: u32) -> (name: &'static str)
    requires
        1 <= month <= 12,
    ensures
        name@ == month_name(month as int),
{
    if month == 1 {
        "Jan"
    } else if month == 2 {
        "Feb"
    } else if month == 3 {
        "Mar"
    } else if month == 4 {
        "Apr"
    } else if month == 5 {
        "May"
    } else if month == 6 {
        "Jun"
    } else if month == 7 {
        "Jul"
    } else if month == 8 {
        "Aug"
    } else if month == 9 {
        "Sep"
    } else if month == 10 {
        "Oct"
    } else if month == 11 {
        "Nov"
    } else {
        "Dec"
    }
}

/// Writes a zone behind what `out` holds, as `zone_text` spells it.
fn push_zone(out: &mut String, minutes: Option<i32>)
    requires
        minutes matches Some(m) ==> -779 <= m <= 779,
    ensures
        final(out)@ == old(out)@ + zone_text(minutes),
{
    match minutes {
        None => {
            out.append("-0000");
        },
        Some(m) => {
            let size: u64 = if m < 0 {
                (-m) as u64
            } else {
                m as u64
            };
            out.append(
                if m >= 0 {
                    "+"
                } else {
                    "-"
                },
            );
            let ghost signed = out@;
            crate::decimal::push_padded(out, size / 60, 2);
            let ghost hours = out@;
            crate::decimal::push_padded(out, size % 60, 2);
            proof {
                assert(out@ =~= old(out)@ + zone_text(minutes));
            }
        },
    }
}

/// The date of a message: an instant, and the zone it is shown in.
#[derive(Debug, Clone, Copy, PartialEq, Eq)]
pub struct DateTime {
    secs: i64,
    nanos: u32,
    zone: TimeZone,
}

impl DateTime {
    /// The instant, in seconds from 1970 in UTC.
    pub closed spec fn timestamp(&self) -> int {
        self.secs as int
    }

    /// The nanoseconds of the instant beyond its second.
    pub closed spec fn nanoseconds(&self) -> int {
        self.nanos as int
    }

    pub closed spec fn zone(&self) -> TimeZone {
        self.zone
    }

    /// The seconds from 1970 of the instant's date and time of day in its
    /// zone, taken as if they were in UTC.
    pub open spec fn local(&self) -> int {
        self.timestamp() + self.zone().seconds()
    }

    /// The zone is sound, and the calendar holds the instant's date and time
    /// of day in its zone.
    #[verifier::type_invariant]
    spec fn inv(&self) -> bool {
        &&& self.zone.inv()
        &&& i64::MIN <= self.secs + self.zone.seconds() <= i64::MAX
        &&& representable(self.secs + self.zone.seconds())
    }

    /// The instant `secs` shown in `zone`, where the calendar holds it there.
    fn at(secs: i64, nanos: u32, zone: TimeZone) -> (date: Option<Self>)
        ensures
            date is Some <==> i64::MIN <= secs + zone.seconds() <= i64::MAX && representable(
                secs + zone.seconds(),
            ),
            date matches Some(d) ==> d.timestamp() == secs && d.nanoseconds() == nanos
                && d.zone() == zone,
    {
        match secs.checked_add(zone.offset_seconds() as i64) {
            Some(local) => match civil_of(local) {
                Some(_) => Some(DateTime { secs, nanos, zone }),
                None => None,
            },
            None => None,
        }
    }

    /// The instant of a date and a time of day in UTC. `None` where the
    /// calendar has no such date or time.
    pub fn from_utc(year: i32, month: u32, day: u32, hour: u32, minute: u32, second: u32) -> (date:
        Option<Self>)
        ensures
            date is Some <==> (local_timestamp(
                0,
                year as int,
                month as int,
                day as int,
                hour as int,
                minute as int,
                second as int,
            ) matches Some(t) && representable(t)),
            date matches Some(d) ==> {
                &&& Some(d.timestamp()) == local_timestamp(
                    0,
                    year as int,
                    month as int,
                    day as int,
                    hour as int,
                    minute as int,
                    second as int,
                )
                &&& d.nanoseconds() == 0
                &&& d.zone().minutes() == Some(0i32)
            },
    {
        match instant_of(0, year, month, day, hour, minute, second) {
            Some(secs) => DateTime::at(secs, 0, TimeZone::utc()),
            None => None,
        }
    }

    /// The instant of a date and a time of day in `zone`. `None` where the
    /// calendar has no such date or time, or not in that zone.
    pub fn from_local(
        year: i32,
        month: u32,
        day: u32,
        hour: u32,
        minute: u32,
        second: u32,
        zone: TimeZone,
    ) -> (date: Option<Self>)
        ensures
            date is Some <==> (local_timestamp(
                zone.seconds(),
                year as int,
                month as int,
                day as int,
                hour as int,
                minute as int,
                second as int,
            ) matches Some(t) && i64::MIN <= t + zone.seconds() <= i64::MAX && representable(
                t + zone.seconds(),
            )),
            date matches Some(d) ==> {
                &&& Some(d.timestamp()) == local_timestamp(
                    zone.seconds(),
                    year as int,
                    month as int,
                    day as int,
                    hour as int,
                    minute as int,
                    second as int,
                )
                &&& d.nanoseconds() == 0
                &&& d.zone() == zone
            },
    {
        match instant_of(zone.offset_seconds(), year, month, day, hour, minute, second) {
            Some(secs) => DateTime::at(secs, 0, zone),
            None => None,
        }
    }

    /// The instant `secs` seconds from 1970, in UTC. `None` where the
    /// calendar does not hold it.
    pub fn from_timestamp(secs: i64) -> (date: Option<Self>)
        ensures
            date is Some <==> representable(secs as int),
            date matches Some(d) ==> d.timestamp() == secs && d.nanoseconds() == 0
                && d.zone().minutes() == Some(0i32),
    {
        DateTime::at(secs, 0, TimeZone::utc())
    }

    /// The instant `millis` milliseconds from 1970, in UTC. `None` where the
    /// calendar does not hold it.
    pub fn from_timestamp_millis(millis: i64) -> (date: Option<Self>)
        ensures
            date is Some <==> representable(millis as int / 1000),
            date matches Some(d) ==> {
                &&& d.timestamp() == millis as int / 1000
                &&& d.nanoseconds() == (millis as int % 1000) * 1_000_000
                &&& d.zone().minutes() == Some(0i32)
            },
    {
        match instant_of_millis(millis) {
            Some((secs, nanos)) => DateTime::at(secs, nanos, TimeZone::utc()),
            None => None,
        }
    }

    /// The same instant, shown in `zone`. `None` where the calendar does not
    /// hold the instant's date and time of day there.
    pub fn to_zone(self, zone: TimeZone) -> (date: Option<Self>)
        ensures
            date is Some <==> i64::MIN <= self.timestamp() + zone.seconds() <= i64::MAX
                && representable(self.timestamp() + zone.seconds()),
            date matches Some(d) ==> d.timestamp() == self.timestamp()
                && d.nanoseconds() == self.nanoseconds() && d.zone() == zone,
    {
        DateTime::at(self.secs, self.nanos, zone)
    }

    /// The instant that the system clock shows, in UTC.
    pub fn now_utc() -> (date: Self)
        ensures
            date.zone().minutes() == Some(0i32),
    {
        let (secs, nanos) = current_instant();
        DateTime { secs, nanos, zone: TimeZone::utc() }
    }

    /// The instant that the system clock shows, in `zone`.
    ///
    /// Whatever instant the clock shows, the calendar holds it, and the
    /// result is that instant in `zone` where the calendar holds its date
    /// and time of day there too, and `None` where it does not. In a zone
    /// at no distance from UTC it always does.
    pub fn now_local(zone: TimeZone) -> (date: Option<Self>)
        ensures
            exists|now: int|
                #[trigger] representable(now) && i64::MIN <= now <= i64::MAX && {
                    &&& date is Some <==> i64::MIN <= now + zone.seconds() <= i64::MAX
                        && representable(now + zone.seconds())
                    &&& date matches Some(d) ==> d.timestamp() == now && d.zone() == zone
                },
            zone.seconds() == 0 ==> date is Some,
    {
        let (secs, nanos) = current_instant();
        let date = DateTime::at(secs, nanos, zone);
        assert(representable(secs as int));
        date
    }

    /// The date as the Date header spells it: what the instant falls on in
    /// its zone, and the zone.
    pub open spec fn text(&self) -> Seq<char> {
        date_text(civil(self.local()).unwrap(), self.zone().minutes())
    }

    /// The date as the Date header spells it: the day of the week, the day,
    /// the month, the year, the time of day and the zone, such as
    /// `Wed, 01 Jan 2025 12:00:00 +0100`.
    pub fn to_string(&self) -> (text: String)
        ensures
            text@ == self.text(),
    {
        proof {
            use_type_invariant(self);
            use_type_invariant(&self.zone);
        }
        let c = match civil_of(self.secs + self.zone.offset_seconds() as i64) {
            Some(c) => c,
            None => vstd::pervasive::unreached(),
        };
        let mut out = String::from_str(weekday_str(c.weekday));
        out.append(", ");
        crate::decimal::push_padded(&mut out, c.day as u64, 2);
        out.append(" ");
        out.append(month_str(c.month));
        out.append(" ");
        crate::decimal::push_signed_padded(&mut out, c.year as i64, 4);
        out.append(" ");
        crate::decimal::push_padded(&mut out, c.hour as u64, 2);
        out.append(":");
        crate::decimal::push_padded(&mut out, c.minute as u64, 2);
        out.append(":");
        crate::decimal::push_padded(&mut out, c.second as u64, 2);
        out.append(" ");
        push_zone(&mut out, self.zone.offset_minutes());
        out
    }
}

} // verus!
