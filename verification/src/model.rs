//! What a machine reports: readings, chips, and a snapshot of all of it.
use vstd::prelude::*;

use crate::double::Double;
use crate::lists::views;

verus! {

/// What a reading is measured in.
#[derive(Clone, Copy, Debug, PartialEq, Eq, Structural)]
pub enum Unit {
    TempC,
    Volts,
    Amps,
    Watts,
    Rpm,
    Pct,
    Joules,
    Mhz,
    RateMBs,
    Dbm,
}

/// The sign of a unit on the screen.
pub open spec fn unit_sign(u: Unit) -> Seq<char> {
    match u {
        Unit::TempC => "°C"@,
        Unit::Volts => "V"@,
        Unit::Amps => "A"@,
        Unit::Watts => "W"@,
        Unit::Rpm => "RPM"@,
        Unit::Pct => "%"@,
        Unit::Joules => "J"@,
        Unit::Mhz => "MHz"@,
        Unit::RateMBs => "MiB/s"@,
        Unit::Dbm => "dBm"@,
    }
}

/// The sign of a unit in a column's name.
pub open spec fn unit_column(u: Unit) -> Seq<char> {
    match u {
        Unit::TempC => "C"@,
        Unit::RateMBs => "MiBps"@,
        _ => unit_sign(u),
    }
}

/// How many decimals a value of a unit is shown with.
pub open spec fn unit_decimals(u: Unit) -> u8 {
    match u {
        Unit::TempC => 1,
        Unit::Volts => 2,
        Unit::Amps => 3,
        Unit::Watts => 2,
        Unit::Rpm => 0,
        Unit::Pct => 0,
        Unit::Joules => 1,
        Unit::Mhz => 0,
        Unit::RateMBs => 1,
        Unit::Dbm => 0,
    }
}

impl Unit {
    pub fn suffix(self) -> (r: &'static str)
        ensures
            r@ == unit_sign(self),
    {
        match self {
            Unit::TempC => "°C",
            Unit::Volts => "V",
            Unit::Amps => "A",
            Unit::Watts => "W",
            Unit::Rpm => "RPM",
            Unit::Pct => "%",
            Unit::Joules => "J",
            Unit::Mhz => "MHz",
            Unit::RateMBs => "MiB/s",
            Unit::Dbm => "dBm",
        }
    }

    pub fn csv_suffix(self) -> (r: &'static str)
        ensures
            r@ == unit_column(self),
    {
        match self {
            Unit::TempC => "C",
            Unit::RateMBs => "MiBps",
            other => other.suffix(),
        }
    }

    /// The value as it is to be written: with the unit's number of decimals.
    pub fn fmt_value(self, v: Double) -> (r: Fixed)
        ensures
            r == (Fixed { value: Number::Real(v), decimals: unit_decimals(self) }),
    {
        let decimals: u8 = match self {
            Unit::TempC => 1,
            Unit::Volts => 2,
            Unit::Amps => 3,
            Unit::Watts => 2,
            Unit::Rpm => 0,
            Unit::Pct => 0,
            Unit::Joules => 1,
            Unit::Mhz => 0,
            Unit::RateMBs => 1,
            Unit::Dbm => 0,
        };
        Fixed { value: Number::Real(v), decimals }
    }

    /// The value as it is to be written, and the sign that follows it.
    pub fn format(self, v: Double) -> (r: (Fixed, &'static str))
        ensures
            r.0 == (Fixed { value: Number::Real(v), decimals: unit_decimals(self) }),
            r.1@ == unit_sign(self),
    {
        (self.fmt_value(v), self.suffix())
    }
}

/// A number to be written out: one that is at hand, or the result of a division
/// of two counters.
#[derive(Clone, Copy, Debug, PartialEq, Eq, Structural)]
pub enum Number {
    /// The number itself.
    Real(Double),
    /// `n` divided by `d`.
    Quotient { n: u64, d: u64 },
    /// `part` divided by `whole`, times a hundred; zero where `whole` is zero.
    Percent { part: u64, whole: u64 },
}

/// A number that is written with a fixed number of decimals.
#[derive(Clone, Copy, Debug, PartialEq, Eq, Structural)]
pub struct Fixed {
    pub value: Number,
    pub decimals: u8,
}

/// A value as the kernel or the firmware gave it, with the division that is
/// still to be done on it.
#[derive(Clone, Debug)]
pub enum Value {
    /// The number that the decimal fraction `text` writes, divided by `divisor`.
    Decimal { text: String, divisor: u64 },
    /// `n` times one part in `divisor`.
    Count { n: u64, divisor: u64 },
    /// The number in the IEEE 754 binary32 format with the given bits, times
    /// one part in `divisor`.
    Single { bits: u32, divisor: u64 },
    /// `amount` times `times`, per second over `nanos` nanoseconds, divided by
    /// `divisor`.
    Rate { amount: u64, times: u64, nanos: u64, divisor: u64 },
    /// The percentage that `millis` milliseconds are of `nanos` nanoseconds, at
    /// most a hundred.
    Busy { millis: u64, nanos: u64 },
    /// The largest of the numbers that the decimal fractions write.
    Largest { texts: Vec<String> },
}

/// What a `Value` says, with texts as sequences.
#[verifier::ext_equal]
pub enum ValueModel {
    Decimal { text: Seq<char>, divisor: u64 },
    Count { n: u64, divisor: u64 },
    Single { bits: u32, divisor: u64 },
    Rate { amount: u64, times: u64, nanos: u64, divisor: u64 },
    Busy { millis: u64, nanos: u64 },
    Largest { texts: Seq<Seq<char>> },
}

impl View for Value {
    type V = ValueModel;

    open spec fn view(&self) -> ValueModel {
        match self {
            Value::Decimal { text, divisor } => ValueModel::Decimal {
                text: text@,
                divisor: *divisor,
            },
            Value::Count { n, divisor } => ValueModel::Count { n: *n, divisor: *divisor },
            Value::Single { bits, divisor } => ValueModel::Single { bits: *bits, divisor: *divisor },
            Value::Rate { amount, times, nanos, divisor } => ValueModel::Rate {
                amount: *amount,
                times: *times,
                nanos: *nanos,
                divisor: *divisor,
            },
            Value::Busy { millis, nanos } => ValueModel::Busy { millis: *millis, nanos: *nanos },
            Value::Largest { texts } => ValueModel::Largest { texts: views(texts@) },
        }
    }
}

impl View for Double {
    type V = Double;

    open spec fn view(&self) -> Double {
        *self
    }
}

/// One labelled value.
#[derive(Clone, Debug)]
pub struct Reading<V> {
    pub label: String,
    pub value: V,
    pub unit: Unit,
}

/// What a `Reading` says.
#[verifier::ext_equal]
pub struct ReadingModel<M> {
    pub label: Seq<char>,
    pub value: M,
    pub unit: Unit,
}

impl<V: View> View for Reading<V> {
    type V = ReadingModel<V::V>;

    open spec fn view(&self) -> ReadingModel<V::V> {
        ReadingModel { label: self.label@, value: self.value@, unit: self.unit }
    }
}

/// The readings of one source, under its name.
#[derive(Clone, Debug)]
pub struct Chip<V> {
    pub name: String,
    pub readings: Vec<Reading<V>>,
}

/// What a `Chip` says.
#[verifier::ext_equal]
pub struct ChipModel<M> {
    pub name: Seq<char>,
    pub readings: Seq<ReadingModel<M>>,
}

impl<V: View> View for Chip<V> {
    type V = ChipModel<V::V>;

    open spec fn view(&self) -> ChipModel<V::V> {
        ChipModel { name: self.name@, readings: views(self.readings@) }
    }
}

/// A moment of local wall-clock time: seconds since the start of 1970 as the
/// local clock counts them, and nanoseconds.
#[derive(Clone, Copy, Debug, PartialEq, Eq, Structural)]
pub struct Stamp {
    pub secs: i64,
    pub nanos: u32,
}

#[derive(Clone, Debug)]
pub struct CpuSnapshot {
    pub model: String,
    pub total_pct: Double,
    pub per_pct: Vec<Double>,
    pub per_mhz: Vec<Double>,
    pub pkg_w: Option<Double>,
    pub governor: String,
    pub epp: String,
}

/// Main memory and swap space, in KiB.
#[derive(Clone, Copy, Debug, PartialEq, Eq, Structural)]
pub struct MemSnapshot {
    pub total_kib: u64,
    pub avail_kib: u64,
    pub swap_total_kib: u64,
    pub swap_free_kib: u64,
}

/// `a` less `b`, or zero where `b` is larger.
pub open spec fn over(a: u64, b: u64) -> u64 {
    if a >= b {
        (a - b) as u64
    } else {
        0
    }
}

pub fn excess(a: u64, b: u64) -> (r: u64)
    ensures
        r == over(a, b),
{
    if a >= b {
        a - b
    } else {
        0
    }
}

impl Default for MemSnapshot {
    fn default() -> (r: Self)
        ensures
            r == (MemSnapshot {
                total_kib: 0,
                avail_kib: 0,
                swap_total_kib: 0,
                swap_free_kib: 0,
            }),
    {
        MemSnapshot { total_kib: 0, avail_kib: 0, swap_total_kib: 0, swap_free_kib: 0 }
    }
}

impl MemSnapshot {
    /// The memory that is not available.
    pub open spec fn in_use(self) -> u64 {
        over(self.total_kib, self.avail_kib)
    }

    /// The swap space that is not free.
    pub open spec fn swapped(self) -> u64 {
        over(self.swap_total_kib, self.swap_free_kib)
    }

    pub fn used(&self) -> (r: u64)
        ensures
            r == self.in_use(),
    {
        excess(self.total_kib, self.avail_kib)
    }

    pub fn swap_used(&self) -> (r: u64)
        ensures
            r == self.swapped(),
    {
        excess(self.swap_total_kib, self.swap_free_kib)
    }
}

#[derive(Clone, Debug)]
pub struct BatterySnapshot {
    pub status: String,
    pub capacity_pct: Option<Double>,
    pub volts: Option<Double>,
    pub amps: Option<Double>,
    pub watts: Option<Double>,
    pub cycles: Option<u32>,
    pub energy_now_wh: Option<Double>,
    pub energy_full_wh: Option<Double>,
    pub health_pct: Option<Double>,
    pub runtime_min: Option<u64>,
}

#[derive(Clone, Copy, Debug)]
pub struct VramSnapshot {
    pub used_mib: Double,
    pub total_mib: Double,
    pub gtt_used_mib: Option<Double>,
}

/// Everything that was read at one moment.
#[derive(Clone, Debug)]
pub struct Snapshot {
    pub time: Stamp,
    pub hostname: String,
    pub kernel: String,
    pub uptime_s: Double,
    pub load: [Double; 3],
    pub cpu: CpuSnapshot,
    pub mem: MemSnapshot,
    pub battery: Option<BatterySnapshot>,
    pub ac_online: Option<bool>,
    pub vram: Option<VramSnapshot>,
    pub chips: Vec<Chip<Double>>,
}

} // verus!
