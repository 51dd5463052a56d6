//! Times in words: local time, which the machine's time zone decides, and dates that are read and
//! written without one.
use vstd::prelude::*;
use crate::{json, text};

verus! {

broadcast use vstd::string::group_string_axioms;

/// How local times are written.
pub const MINUTE_FORMAT: &'static str = "%Y-%m-%d %H:%M";

/// How days are written.
pub const DAY_FORMAT: &'static str = "%Y-%m-%d";

/// The name for how the time of a timestamp is written by a format where clocks are `offset` seconds
/// ahead of UTC; nothing where there is no such time.
pub uninterp spec fn offset_text(secs: int, offset: int, format: Seq<char>) -> Option<Seq<char>>;

/// How many seconds local clocks are ahead of UTC at a timestamp, through `chrono::Local`: less than
/// a day, as every `chrono::FixedOffset` is. Nothing where there is no such time, and there is one at
/// least from 1970 to the thirty-third century. Which offset it is depends on the time zone of the
/// machine, so no more is said of it.
#[verifier::external_body]
fn local_offset(secs: i64) -> (r: Option<i32>)
    ensures
        in_range(secs as int) ==> r is Some,
        r matches Some(o) ==> -86400 < o < 86400,
{
    chrono::TimeZone::timestamp_opt(&chrono::Local, secs, 0).single().map(|d| d.offset().local_minus_utc())
}

/// Whether a text has the form of a time: a day of ten characters, a space, and a time of day of five.
pub open spec fn is_minute_text(t: Seq<char>) -> bool {
    t.len() == 16 && t[10] == ' ' && forall|i: int| 0 <= i < 10 ==> #[trigger] t[i] != ' '
}

/// What is known of how a time is written from 1970 to the thirty-third century: its form, and that
/// clocks of one offset showed no later day before.
pub open spec fn is_dated(secs: int, offset: int, t: Seq<char>) -> bool {
    in_range(secs) ==> {
        &&& is_minute_text(t)
        &&& forall|s: int|
            in_range(s) && s <= secs ==> (#[trigger] offset_text(s, offset, MINUTE_FORMAT@) matches Some(u)
                ==> !json::before(day_part(t), day_part(u)))
    }
}

/// The time of a timestamp at an offset, through `chrono::DateTime::from_timestamp`, `with_timezone`
/// and `format`. There is such a time at least from 1970 to the thirty-third century. The year has
/// four digits there and all else two, with zeros in front, so that later days are later in order too.
#[verifier::external_body]
fn write_time(secs: i64, offset: i32, format: &str) -> (r: Option<String>)
    requires
        -86400 < offset < 86400,
        format@ == MINUTE_FORMAT@,
    ensures
        text::opt_text(r) == offset_text(secs as int, offset as int, format@),
        in_range(secs as int) ==> r is Some,
        r matches Some(t) ==> is_dated(secs as int, offset as int, t@),
{
    let zone = chrono::FixedOffset::east_opt(offset)?;
    chrono::DateTime::from_timestamp(secs, 0).map(|d| d.with_timezone(&zone).format(format).to_string())
}

/// Whether a text is the time of a timestamp where clocks are `offset` seconds ahead of UTC.
pub open spec fn is_text_at(secs: int, offset: int, t: Seq<char>) -> bool {
    &&& -86400 < offset < 86400
    &&& offset_text(secs, offset, MINUTE_FORMAT@) == Some(t)
    &&& is_dated(secs, offset, t)
}

/// Whether a text is the local time of a timestamp in some time zone.
pub open spec fn is_local_text(secs: int, t: Seq<char>) -> bool {
    exists|offset: int| #[trigger] is_text_at(secs, offset, t)
}

/// Whether two days are those of two timestamps for clocks that are equally far ahead of UTC at both.
pub open spec fn in_one_zone(a: int, day_a: Seq<char>, b: int, day_b: Seq<char>) -> bool {
    exists|offset: int, t: Seq<char>, u: Seq<char>|
        {
            &&& #[trigger] is_text_at(a, offset, t)
            &&& #[trigger] is_text_at(b, offset, u)
            &&& day_a == day_part(t)
            &&& day_b == day_part(u)
        }
}

/// For clocks that are equally far ahead of UTC, a later time has no earlier day.
pub proof fn later_times_have_no_earlier_day(a: int, day_a: Seq<char>, b: int, day_b: Seq<char>)
    requires
        in_range(a),
        in_range(b),
        a <= b,
        in_one_zone(a, day_a, b, day_b),
    ensures
        !json::before(day_b, day_a),
{
}

/// A local time from 1970 to the thirty-third century has a day.
pub proof fn local_times_have_a_day(secs: int, t: Seq<char>)
    requires
        in_range(secs),
        is_local_text(secs, t),
    ensures
        day_part(t) == t.take(10),
        day_part(t).len() == 10,
{
    text::lemma_index_is(t, ' ', 10);
}

/// The local time of a timestamp in seconds, to the minute; nothing where there is no such time.
/// Which of the times that there are in the time zones it is, the machine decides.
pub fn local_minute(secs: i64) -> (r: Option<String>)
    ensures
        in_range(secs as int) ==> r is Some,
        r matches Some(t) ==> is_local_text(secs as int, t@),
{
    match local_offset(secs) {
        Some(offset) => {
            let r = write_time(secs, offset, MINUTE_FORMAT);
            assert(r matches Some(t) ==> is_text_at(secs as int, offset as int, t@));
            r
        },
        None => None,
    }
}

/// Local times that have been asked for: timestamps with what they are in words.
pub struct LocalTimes {
    pub entries: Vec<(i64, String)>,
}

/// What a timestamp is in words; empty where it has not been asked for.
pub open spec fn time_at(entries: Seq<(i64, String)>, secs: int) -> Seq<char>
    decreases entries.len(),
{
    if entries.len() == 0 {
        Seq::empty()
    } else if entries[0].0 == secs {
        entries[0].1@
    } else {
        time_at(entries.skip(1), secs)
    }
}

/// Whether a timestamp has been asked for.
pub open spec fn is_known(entries: Seq<(i64, String)>, secs: int) -> bool {
    exists|i: int| 0 <= i < entries.len() && (#[trigger] entries[i]).0 == secs
}

/// Whether a timestamp is one of a time that there is in every time zone.
pub open spec fn in_range(secs: int) -> bool {
    0 <= secs <= 40_000_000_000
}

/// Whether every text is the local time of its timestamp.
pub open spec fn tells(entries: Seq<(i64, String)>) -> bool {
    forall|i: int| 0 <= i < entries.len() ==> is_local_text((#[trigger] entries[i]).0 as int, entries[i].1@)
}

/// What is told of a timestamp that has been asked for is its local time.
pub proof fn known_times_are_local(entries: Seq<(i64, String)>, secs: int)
    requires
        tells(entries),
        is_known(entries, secs),
    ensures
        is_local_text(secs, time_at(entries, secs)),
    decreases entries.len(),
{
    assert(entries.len() > 0);
    if entries[0].0 != secs {
        let rest = entries.skip(1);
        let k = choose|i: int| 0 <= i < entries.len() && (#[trigger] entries[i]).0 == secs;
        assert(rest[k - 1] == entries[k]);
        assert forall|i: int| 0 <= i < rest.len() implies is_local_text(
            (#[trigger] rest[i]).0 as int,
            rest[i].1@,
        ) by {
            assert(rest[i] == entries[i + 1]);
        }
        known_times_are_local(rest, secs);
    }
}

impl LocalTimes {
    /// Nothing asked for yet.
    pub fn new() -> (r: LocalTimes)
        ensures
            r.entries@ == Seq::<(i64, String)>::empty(),
    {
        LocalTimes { entries: Vec::new() }
    }

    /// What a timestamp is in words.
    pub fn at(&self, secs: i64) -> (r: String)
        ensures
            r@ == time_at(self.entries@, secs as int),
    {
        let mut i: usize = 0;
        assert(self.entries@.skip(0) =~= self.entries@);
        while i < self.entries.len()
            invariant
                i <= self.entries@.len(),
                time_at(self.entries@, secs as int) == time_at(self.entries@.skip(i as int), secs as int),
            decreases self.entries@.len() - i,
        {
            proof {
                assert(self.entries@.skip(i as int)[0] == self.entries@[i as int]);
                assert(self.entries@.skip(i as int).skip(1) =~= self.entries@.skip(i + 1));
            }
            if self.entries[i].0 == secs {
                return self.entries[i].1.clone();
            }
            i += 1;
        }
        let r = String::new();
        assert(r@ =~= Seq::empty());
        r
    }

    /// Asks the machine for local times. Those of a time that there is in every time zone are known
    /// then.
    pub fn ask(stamps: &Vec<i64>) -> (r: LocalTimes)
        ensures
            tells(r.entries@),
            forall|i: int|
                0 <= i < stamps@.len() && in_range(stamps@[i] as int) ==> is_known(r.entries@, #[trigger] stamps@[i] as int),
    {
        let mut entries: Vec<(i64, String)> = Vec::new();
        let mut i: usize = 0;
        while i < stamps.len()
            invariant
                i <= stamps@.len(),
                tells(entries@),
                forall|k: int|
                    0 <= k < i && in_range(stamps@[k] as int) ==> is_known(entries@, #[trigger] stamps@[k] as int),
            decreases stamps@.len() - i,
        {
            let s: i64 = stamps[i];
            let ghost before = entries@;
            if let Some(t) = local_minute(s) {
                entries.push((s, t));
                assert(entries@[before.len() as int].0 == s);
                proof {
                    assert forall|k: int| 0 <= k < i && in_range(stamps@[k] as int) implies is_known(
                        entries@,
                        #[trigger] stamps@[k] as int,
                    ) by {
                        let j = choose|j: int| 0 <= j < before.len() && (#[trigger] before[j]).0 == stamps@[k];
                        assert(entries@[j] == before[j]);
                    }
                }
            }
            i += 1;
        }
        LocalTimes { entries }
    }
}

/// The day of a local time in words: what stands in front of the first space.
pub open spec fn day_part(time: Seq<char>) -> Seq<char> {
    match text::cut_at(time, ' ') {
        Some(p) => p.0,
        None => time,
    }
}

/// The day of a timestamp, where it has been asked for and there is one.
pub open spec fn day_at(entries: Seq<(i64, String)>, secs: int) -> Option<Seq<char>> {
    if is_known(entries, secs) {
        Some(day_part(time_at(entries, secs)))
    } else {
        None
    }
}

impl LocalTimes {
    /// The day of a timestamp.
    pub fn day(&self, secs: i64) -> (r: Option<String>)
        ensures
            text::opt_text(r) == day_at(self.entries@, secs as int),
    {
        let mut i: usize = 0;
        assert(self.entries@.skip(0) =~= self.entries@);
        while i < self.entries.len()
            invariant
                i <= self.entries@.len(),
                time_at(self.entries@, secs as int) == time_at(self.entries@.skip(i as int), secs as int),
                forall|k: int| 0 <= k < i ==> (#[trigger] self.entries@[k]).0 != secs,
            decreases self.entries@.len() - i,
        {
            proof {
                assert(self.entries@.skip(i as int)[0] == self.entries@[i as int]);
                assert(self.entries@.skip(i as int).skip(1) =~= self.entries@.skip(i + 1));
            }
            if self.entries[i].0 == secs {
                return match text::split_once(self.entries[i].1.as_str(), ' ') {
                    Some(p) => Some(p.0),
                    None => Some(self.entries[i].1.clone()),
                };
            }
            i += 1;
        }
        None
    }
}

/// The name for the second at which a day begins in UTC, where `chrono::NaiveDate` reads a day out of
/// a text by a format; nothing where it cannot.
pub uninterp spec fn utc_midnight(date: Seq<char>, format: Seq<char>) -> Option<i64>;

/// `chrono::NaiveDate::parse_from_str`, and the timestamp of the day's midnight taken as UTC.
#[verifier::external_body]
fn read_midnight(date: &str, format: &str) -> (r: Option<i64>)
    ensures
        r == utc_midnight(date@, format@),
{
    chrono::NaiveDate::parse_from_str(date, format).ok().map(
        |d| d.and_time(chrono::NaiveTime::MIN).and_utc().timestamp(),
    )
}

/// The first second at which local clocks show what clocks in UTC show at the second `wall`, through
/// `from_local_datetime` of `chrono::Local` and `earliest`; nothing where clocks were set past it.
/// Local clocks are less than a day away from UTC. Which second it is depends on the time zone of the
/// machine, so no more is said of it.
#[verifier::external_body]
fn local_second(wall: i64) -> (r: Option<i64>)
    ensures
        r matches Some(t) ==> wall - 86400 < t < wall + 86400,
{
    let shown = chrono::DateTime::from_timestamp(wall, 0)?.naive_utc();
    chrono::TimeZone::from_local_datetime(&chrono::Local, &shown).earliest().map(|t| t.timestamp())
}

/// Whether a second is one that a day can begin at in some time zone; where the text is no day, there
/// is none, and on days without a midnight there need not be one.
pub open spec fn is_midnight(date: Seq<char>, second: Option<i64>) -> bool {
    match utc_midnight(date, DAY_FORMAT@) {
        Some(m) => second matches Some(t) ==> m - 86400 < t < m + 86400,
        None => second is None,
    }
}

/// The first second of a local day; the earlier one where clocks were set back over midnight, nothing
/// where the text is no date or there was no midnight.
pub fn local_midnight(date: &str) -> (r: Option<i64>)
    ensures
        is_midnight(date@, r),
{
    match read_midnight(date, DAY_FORMAT) {
        Some(m) => local_second(m),
        None => None,
    }
}

/// The name for what `chrono::NaiveDateTime` reads out of a text by a format, written by another;
/// nothing where it cannot be read.
pub uninterp spec fn datetime_text(text: Seq<char>, format: Seq<char>, out: Seq<char>) -> Option<Seq<char>>;

/// The name for what `chrono::NaiveDate` reads out of a text by a format, written by another;
/// nothing where it cannot be read.
pub uninterp spec fn date_text(text: Seq<char>, format: Seq<char>, out: Seq<char>) -> Option<Seq<char>>;

/// `chrono::NaiveDateTime::parse_from_str`, and `format` with a format that it can write.
#[verifier::external_body]
fn rewrite_datetime(text: &str, format: &str, out: &str) -> (r: Option<String>)
    requires
        out@ == "%Y-%m-%d %H:%M"@,
    ensures
        text::opt_text(r) == datetime_text(text@, format@, out@),
{
    chrono::NaiveDateTime::parse_from_str(text, format).ok().map(|d| d.format(out).to_string())
}

/// `chrono::NaiveDate::parse_from_str`, and `format` with a format that it can write.
#[verifier::external_body]
fn rewrite_date(text: &str, format: &str, out: &str) -> (r: Option<String>)
    requires
        out@ == "%Y-%m-%d 00:00"@,
    ensures
        text::opt_text(r) == date_text(text@, format@, out@),
{
    chrono::NaiveDate::parse_from_str(text, format).ok().map(|d| d.format(out).to_string())
}

/// A date by one format, with a time or without, to the minute.
pub open spec fn by_format(s: Seq<char>, format: Seq<char>) -> Option<Seq<char>> {
    match datetime_text(s, format, "%Y-%m-%d %H:%M"@) {
        Some(t) => Some(t),
        None => date_text(s, format, "%Y-%m-%d 00:00"@),
    }
}

/// A date by the first of the formats that reads it.
pub open spec fn by_formats(s: Seq<char>, formats: Seq<Seq<char>>) -> Option<Seq<char>>
    decreases formats.len(),
{
    if formats.len() == 0 {
        None
    } else {
        match by_format(s, formats[0]) {
            Some(t) => Some(t),
            None => by_formats(s, formats.skip(1)),
        }
    }
}

/// The formats that dates come in.
pub open spec fn date_formats() -> Seq<Seq<char>> {
    seq!["%Y-%m-%d %H:%M:%S"@, "%Y-%m-%d %H:%M"@, "%Y-%m-%d"@, "%Y/%m/%d"@]
}

/// A date in one of the usual formats, to the minute.
pub fn read_date(s: &str) -> (r: Option<String>)
    ensures
        text::opt_text(r) == by_formats(s@, date_formats()),
{
    let formats = vec!["%Y-%m-%d %H:%M:%S", "%Y-%m-%d %H:%M", "%Y-%m-%d", "%Y/%m/%d"];
    let ghost all = text::strs(formats@);
    assert(all =~= date_formats());
    assert(all.skip(0) =~= all);
    let mut i: usize = 0;
    while i < formats.len()
        invariant
            i <= formats@.len(),
            all == text::strs(formats@),
            all == date_formats(),
            by_formats(s@, all) == by_formats(s@, all.skip(i as int)),
        decreases formats@.len() - i,
    {
        proof {
            assert(all.skip(i as int)[0] == formats@[i as int]@);
            assert(all.skip(i as int).skip(1) =~= all.skip(i + 1));
        }
        if let Some(t) = rewrite_datetime(s, formats[i], "%Y-%m-%d %H:%M") {
            return Some(t);
        }
        if let Some(t) = rewrite_date(s, formats[i], "%Y-%m-%d 00:00") {
            return Some(t);
        }
        i += 1;
    }
    None
}

// ---- what holds of times ----

/// A second's time is looked up by the second, and the first that is told counts.
pub proof fn told_times_are_found(a: Seq<(i64, String)>, b: Seq<(i64, String)>, e: (i64, String), secs: int)
    ensures
        is_known(a, secs) ==> time_at(a + b, secs) == time_at(a, secs),
        !is_known(a, secs) ==> time_at(a + b, secs) == time_at(b, secs),
        time_at(seq![e], e.0 as int) == e.1@,
        is_known(seq![e], secs) == (e.0 == secs),
    decreases a.len(),
{
    assert(seq![e][0] == e);
    if a.len() == 0 {
        assert(a + b =~= b);
    } else {
        let rest = a.skip(1);
        told_times_are_found(rest, b, e, secs);
        assert((a + b).skip(1) =~= rest + b);
        assert((a + b)[0] == a[0]);
        if is_known(rest, secs) {
            let i = choose|i: int| 0 <= i < rest.len() && (#[trigger] rest[i]).0 == secs;
            assert(a[i + 1] == rest[i]);
        }
        if is_known(a, secs) && a[0].0 != secs {
            let i = choose|i: int| 0 <= i < a.len() && (#[trigger] a[i]).0 == secs;
            assert(rest[i - 1] == a[i]);
        }
    }
}

/// The day of a time stands before its first blank; a time that is not known has none.
pub proof fn days_stand_before_the_hours(entries: Seq<(i64, String)>, day: Seq<char>, hours: Seq<char>, secs: int)
    requires
        !day.contains(' '),
    ensures
        day_part(day + seq![' '] + hours) == day,
        day_part(day) == day,
        is_known(entries, secs) && time_at(entries, secs) == day + seq![' '] + hours ==> day_at(entries, secs) == Some(
            day,
        ),
        !is_known(entries, secs) ==> day_at(entries, secs) is None,
{
    text::cutting_finds_the_first(day, hours, ' ');
}

/// A written time is read in the first form that fits, to the second before to the minute before to the
/// day, as a time before as a day, whose time is midnight.
pub proof fn written_times_are_read_by_the_first_form(s: Seq<char>, f: Seq<char>, t: Seq<char>)
    ensures
        datetime_text(s, f, "%Y-%m-%d %H:%M"@) == Some(t) ==> by_format(s, f) == Some(t),
        datetime_text(s, f, "%Y-%m-%d %H:%M"@) is None ==> by_format(s, f) == date_text(s, f, "%Y-%m-%d 00:00"@),
        by_formats(s, date_formats()) == (match (
            by_format(s, "%Y-%m-%d %H:%M:%S"@),
            by_format(s, "%Y-%m-%d %H:%M"@),
            by_format(s, "%Y-%m-%d"@),
            by_format(s, "%Y/%m/%d"@),
        ) {
            (Some(x), _, _, _) => Some(x),
            (None, Some(x), _, _) => Some(x),
            (None, None, Some(x), _) => Some(x),
            (None, None, None, x) => x,
        }),
{
    reveal_with_fuel(by_formats, 5);
    let fs = date_formats();
    assert(fs.skip(1)[0] == fs[1] && fs.skip(1).skip(1)[0] == fs[2] && fs.skip(1).skip(1).skip(1)[0] == fs[3]);
    assert(fs.skip(1).skip(1).skip(1).skip(1).len() == 0);
}

} // verus!
