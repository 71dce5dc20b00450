//! Wall-clock time in words.
use vstd::prelude::*;

use crate::lists::seen;
use crate::model::Stamp;
use crate::numbers::dec2;

verus! {

/// The ways in which times are written.
#[derive(Clone, Copy, Debug, PartialEq, Eq, Structural)]
pub enum TimeFormat {
    /// Date and time of day to the millisecond, in a log.
    Row,
    /// Date and time of day.
    Second,
    /// Time of day.
    Clock,
    /// Date and time of day in the name of a file.
    File,
}

pub open spec fn pattern(f: TimeFormat) -> Seq<char> {
    match f {
        TimeFormat::Row => "%Y-%m-%d %H:%M:%S%.3f"@,
        TimeFormat::Second => "%Y-%m-%d %H:%M:%S"@,
        TimeFormat::Clock => "%H:%M:%S"@,
        TimeFormat::File => "%Y%m%d_%H%M%S"@,
    }
}

fn pattern_text(f: TimeFormat) -> (r: &'static str)
    ensures
        r@ == pattern(f),
{
    match f {
        TimeFormat::Row => "%Y-%m-%d %H:%M:%S%.3f",
        TimeFormat::Second => "%Y-%m-%d %H:%M:%S",
        TimeFormat::Clock => "%H:%M:%S",
        TimeFormat::File => "%Y%m%d_%H%M%S",
    }
}

/// A moment in words, by a pattern of the conversion specifiers of strftime.
pub uninterp spec fn time_text(secs: i64, nanos: u32, pattern: Seq<char>) -> Option<Seq<char>>;

/// Whether a moment can be told: the year is in the range of chrono's dates, and
/// the nanoseconds are less than a second, or less than two in the last second
/// of a minute, for a leap second.
pub open spec fn moment(secs: i64, nanos: u32) -> bool {
    &&& -8_334_601_228_800 <= secs <= 8_210_266_876_799
    &&& nanos < 1_000_000_000 || (nanos < 2_000_000_000 && secs as int % 60 == 59)
}

/// The time of day: hours, minutes and seconds in two digits each.
pub open spec fn time_of_day(secs: i64, nanos: u32) -> Seq<char> {
    let s = secs as int % 86400;
    dec2((s / 3600) as nat) + ":"@ + dec2((s / 60 % 60) as nat) + ":"@ + dec2(
        (s % 60 + nanos / 1_000_000_000) as nat,
    )
}

/// Writes a moment (`chrono::DateTime::from_timestamp`, and `format` on its date
/// and time of day): the result is there for every moment that can be told and
/// for no other, it is what `time_text` names, and by the pattern for a time of
/// day alone it is that time of day.
#[verifier::external_body]
fn write_time(secs: i64, nanos: u32, pattern: &str) -> (r: Option<String>)
    requires
        exists|f: TimeFormat| pattern@ == #[trigger] self::pattern(f),
    ensures
        seen(r) == time_text(secs, nanos, pattern@),
        r is Some == moment(secs, nanos),
        r is Some && pattern@ == "%H:%M:%S"@ ==> r->0@ == time_of_day(secs, nanos),
{
    chrono::DateTime::from_timestamp(secs, nanos).map(
        |t| t.naive_utc().format(pattern).to_string(),
    )
}

impl Stamp {
    /// Whether it is a moment that can be told.
    pub open spec fn wf(self) -> bool {
        moment(self.secs, self.nanos)
    }

    /// The moment, if it can be told.
    pub fn new(secs: i64, nanos: u32) -> (r: Option<Stamp>)
        ensures
            match r {
                Some(t) => t == (Stamp { secs, nanos }) && t.wf(),
                None => !moment(secs, nanos),
            },
    {
        if secs < -8_334_601_228_800 || secs > 8_210_266_876_799 || nanos >= 2_000_000_000 {
            return None;
        }
        // the last second of a minute, on either side of zero
        let last = if secs >= 0 {
            secs % 60 == 59
        } else {
            -(secs + 1) % 60 == 0
        };
        if nanos < 1_000_000_000 || last {
            Some(Stamp { secs, nanos })
        } else {
            None
        }
    }

    /// The moment in words.
    pub open spec fn words(self, f: TimeFormat) -> Seq<char> {
        time_text(self.secs, self.nanos, pattern(f))->0
    }

    pub fn write(&self, f: TimeFormat) -> (r: String)
        requires
            self.wf(),
        ensures
            r@ == self.words(f),
            f is Clock ==> r@ == time_of_day(self.secs, self.nanos),
    {
        let p = pattern_text(f);
        assert(p@ == pattern(f));
        match write_time(self.secs, self.nanos, p) {
            Some(s) => s,
            None => String::new(),
        }
    }
}

} // verus!
