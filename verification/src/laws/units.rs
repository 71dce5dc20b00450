//! Units, colors and times: how a value is written, what its color says, and how a
//! time is told.
use vstd::arithmetic::power2::lemma_pow2_pos;
use vstd::prelude::*;

use crate::clock::{moment, pattern, time_of_day, TimeFormat};
use crate::double::{one, Double};
use crate::model::{over, unit_column, unit_decimals, unit_sign, Unit};
use crate::numbers::{dec, dec2};
use crate::screen::{bar, battery_hue, battery_state, half, shortened, uptime_text};
use crate::style::{reading_hue, temp_hue, usage_hue, Color};

verus! {

/// The sign of each unit on the screen, its sign in the name of a column, and how many
/// decimals its values have.
pub proof fn lemma_units()
    ensures
        unit_sign(Unit::TempC) == "°C"@ && unit_column(Unit::TempC) == "C"@ && unit_decimals(
            Unit::TempC,
        ) == 1,
        unit_sign(Unit::Volts) == "V"@ && unit_column(Unit::Volts) == "V"@ && unit_decimals(
            Unit::Volts,
        ) == 2,
        unit_sign(Unit::Amps) == "A"@ && unit_column(Unit::Amps) == "A"@ && unit_decimals(
            Unit::Amps,
        ) == 3,
        unit_sign(Unit::Watts) == "W"@ && unit_column(Unit::Watts) == "W"@ && unit_decimals(
            Unit::Watts,
        ) == 2,
        unit_sign(Unit::Rpm) == "RPM"@ && unit_column(Unit::Rpm) == "RPM"@ && unit_decimals(
            Unit::Rpm,
        ) == 0,
        unit_sign(Unit::Pct) == "%"@ && unit_column(Unit::Pct) == "%"@ && unit_decimals(Unit::Pct)
            == 0,
        unit_sign(Unit::Joules) == "J"@ && unit_column(Unit::Joules) == "J"@ && unit_decimals(
            Unit::Joules,
        ) == 1,
        unit_sign(Unit::Mhz) == "MHz"@ && unit_column(Unit::Mhz) == "MHz"@ && unit_decimals(
            Unit::Mhz,
        ) == 0,
        unit_sign(Unit::RateMBs) == "MiB/s"@ && unit_column(Unit::RateMBs) == "MiBps"@
            && unit_decimals(Unit::RateMBs) == 1,
        unit_sign(Unit::Dbm) == "dBm"@ && unit_column(Unit::Dbm) == "dBm"@ && unit_decimals(
            Unit::Dbm,
        ) == 0,
{
}

/// What one count is over another, and nothing where it is not.
pub proof fn lemma_over(a: u64, b: u64, more: u64)
    ensures
        b + more <= u64::MAX ==> over((b + more) as u64, b) == more,
        a <= b ==> over(a, b) == 0,
{
}

// ---------- colors ----------

/// A share in use is green below 40 percent, yellow below 70, and red from there on.
pub proof fn lemma_usage_color(d: Double)
    ensures
        d.is_nan() ==> usage_hue(d) == Color::Red,
        !d.is_nan() && d.scaled() < 40 * one() ==> usage_hue(d) == Color::Green,
        !d.is_nan() && 40 * one() <= d.scaled() < 70 * one() ==> usage_hue(d) == Color::Yellow,
        !d.is_nan() && 70 * one() <= d.scaled() ==> usage_hue(d) == Color::Red,
{
    lemma_pow2_pos(1074);
}

/// A temperature is green below 60 degrees, yellow below 75, light red below 85, and
/// red from there on.
pub proof fn lemma_temperature_color(d: Double)
    ensures
        d.is_nan() ==> temp_hue(d) == Color::Red,
        !d.is_nan() && d.scaled() < 60 * one() ==> temp_hue(d) == Color::Green,
        !d.is_nan() && 60 * one() <= d.scaled() < 75 * one() ==> temp_hue(d) == Color::Yellow,
        !d.is_nan() && 75 * one() <= d.scaled() < 85 * one() ==> temp_hue(d) == Color::LightRed,
        !d.is_nan() && 85 * one() <= d.scaled() ==> temp_hue(d) == Color::Red,
        reading_hue(Unit::TempC, d) == temp_hue(d),
{
    lemma_pow2_pos(1074);
}

/// Power is yellow from 25 watts on. A signal is green above -60 dBm, yellow above -75,
/// and red from there down. No other reading has a color.
pub proof fn lemma_reading_color(d: Double)
    ensures
        !d.is_nan() && d.scaled() >= 25 * one() ==> reading_hue(Unit::Watts, d) == Color::Yellow,
        d.is_nan() || d.scaled() < 25 * one() ==> reading_hue(Unit::Watts, d) == Color::Reset,
        !d.is_nan() && d.scaled() > -60 * one() ==> reading_hue(Unit::Dbm, d) == Color::Green,
        !d.is_nan() && -75 * one() < d.scaled() <= -60 * one() ==> reading_hue(Unit::Dbm, d)
            == Color::Yellow,
        d.is_nan() || d.scaled() <= -75 * one() ==> reading_hue(Unit::Dbm, d) == Color::Red,
        reading_hue(Unit::Volts, d) == Color::Reset,
        reading_hue(Unit::Amps, d) == Color::Reset,
        reading_hue(Unit::Rpm, d) == Color::Reset,
        reading_hue(Unit::Pct, d) == Color::Reset,
        reading_hue(Unit::Joules, d) == Color::Reset,
        reading_hue(Unit::Mhz, d) == Color::Reset,
        reading_hue(Unit::RateMBs, d) == Color::Reset,
{
    lemma_pow2_pos(1074);
}

/// A battery is green where it is charged or full, red where it is discharged below 20
/// percent, yellow above that, and gray in any other state.
pub proof fn lemma_battery_color(status: Seq<char>, d: Double)
    ensures
        status == "Charging"@ || status == "Full"@ ==> battery_hue(status, d) == Color::Green,
        status == "Discharging"@ && !d.is_nan() && d.scaled() < 20 * one() ==> battery_hue(status, d)
            == Color::Red,
        status == "Discharging"@ && (d.is_nan() || d.scaled() >= 20 * one()) ==> battery_hue(
            status,
            d,
        ) == Color::Yellow,
        status != "Charging"@ && status != "Full"@ && status != "Discharging"@ ==> battery_hue(
            status,
            d,
        ) == Color::DarkGray,
{
    reveal_strlit("Charging");
    reveal_strlit("Full");
    reveal_strlit("Discharging");
    assert("Charging"@.len() == 8 && "Full"@.len() == 4 && "Discharging"@.len() == 11);
}

/// The state of a battery in words.
pub proof fn lemma_battery_state(status: Seq<char>)
    ensures
        battery_state("Discharging"@) == "放电"@,
        battery_state("Charging"@) == "充电"@,
        battery_state("Full"@) == "已满"@,
        battery_state("Not charging"@) == "未充电"@,
        status != "Discharging"@ && status != "Charging"@ && status != "Full"@ && status
            != "Not charging"@ ==> battery_state(status) == "未知"@,
{
    reveal_strlit("Charging");
    reveal_strlit("Full");
    reveal_strlit("Discharging");
    reveal_strlit("Not charging");
    assert("Charging"@.len() == 8 && "Full"@.len() == 4 && "Discharging"@.len() == 11
        && "Not charging"@.len() == 12);
}

// ---------- times ----------

/// A moment of some day, in any year, is told by its hours, minutes and seconds; a
/// second more counts as that.
pub proof fn lemma_time_of_day(day: int, h: int, m: int, s: int, nanos: u32)
    requires
        0 <= h < 24,
        0 <= m < 60,
        0 <= s < 60,
        nanos < 2_000_000_000,
        i64::MIN <= 86400 * day + 3600 * h + 60 * m + s <= i64::MAX,
    ensures
        time_of_day((86400 * day + 3600 * h + 60 * m + s) as i64, nanos) == dec2(h as nat) + ":"@
            + dec2(m as nat) + ":"@ + dec2(
            (s + if nanos < 1_000_000_000 {
                0int
            } else {
                1
            }) as nat,
        ),
{
    let t = 3600 * h + 60 * m + s;
    let secs = (86400 * day + t) as i64;
    assert(secs as int % 86400 == t);
    assert(t / 3600 == h);
    assert(t / 60 % 60 == m);
    assert(t % 60 == s);
    assert(nanos / 1_000_000_000 == if nanos < 1_000_000_000 {
        0int
    } else {
        1
    });
}

/// Moments of 191491529 days can be told, and nanoseconds below a second; in the last
/// second of a minute a second more, for a leap second.
pub proof fn lemma_moments(day: int, s: int, nanos: u32)
    requires
        0 <= s < 86400,
        i64::MIN <= 86400 * day + s <= i64::MAX,
    ensures
        moment((86400 * day + s) as i64, nanos) <==> -96_465_292 <= day < 95_026_237 && (nanos
            < 1_000_000_000 || s % 60 == 59 && nanos < 2_000_000_000),
{
}

/// The patterns by which times are written.
pub proof fn lemma_patterns()
    ensures
        pattern(TimeFormat::Row) == "%Y-%m-%d %H:%M:%S%.3f"@,
        pattern(TimeFormat::Second) == "%Y-%m-%d %H:%M:%S"@,
        pattern(TimeFormat::Clock) == "%H:%M:%S"@,
        pattern(TimeFormat::File) == "%Y%m%d_%H%M%S"@,
{
}

/// A time of so many days, hours and minutes is told in those, without the days or the
/// hours in front where there are none; seconds do not matter.
pub proof fn lemma_uptime(d: nat, h: nat, m: nat, s: nat)
    requires
        h < 24,
        m < 60,
        s < 60,
    ensures
        ({
            let t = uptime_text((86400 * d + 3600 * h + 60 * m + s) as int);
            &&& d > 0 ==> t == dec(d) + "d"@ + dec(h) + "h"@ + dec(m) + "m"@
            &&& d == 0 && h > 0 ==> t == dec(h) + "h"@ + dec(m) + "m"@
            &&& d == 0 && h == 0 ==> t == dec(m) + "m"@
        }),
{
    let t = (86400 * d + 3600 * h + 60 * m + s) as int;
    assert(t / 86400 == d);
    assert(t % 86400 / 3600 == h);
    assert(t % 3600 / 60 == m);
}

// ---------- shapes ----------

/// A bar has a full cell for every eight eighths, one cell for the eighths that are
/// left, and spaces behind that.
pub proof fn lemma_bar(full: nat, part: nat, width: nat, i: int)
    requires
        part < 8,
        0 <= i < width,
    ensures
        ({
            let c = bar(8 * full + part, width)[i];
            &&& i < full ==> c == '█'
            &&& i == full && part == 0 ==> c == ' '
            &&& i == full && part == 1 ==> c == '▏'
            &&& i == full && part == 2 ==> c == '▎'
            &&& i == full && part == 3 ==> c == '▍'
            &&& i == full && part == 4 ==> c == '▌'
            &&& i == full && part == 5 ==> c == '▋'
            &&& i == full && part == 6 ==> c == '▊'
            &&& i == full && part == 7 ==> c == '▉'
            &&& i > full ==> c == ' '
        }),
{
}

/// A text that is too long loses its end, and has a mark there.
pub proof fn lemma_shortened(a: Seq<char>, b: Seq<char>)
    ensures
        shortened(a, a.len()) == a,
        b.len() > 0 ==> shortened(a + b, a.len()) == a + "…"@,
        shortened(a, a.len() + b.len()) == a,
{
    assert((a + b).take(a.len() as int) =~= a);
}

/// The left half of the threads is the larger one.
pub proof fn lemma_halves(n: nat)
    ensures
        half(2 * n as int) == n,
        half(2 * n as int + 1) == n + 1,
{
}

} // verus!
