//! Batteries and external power.
use vstd::prelude::*;

use crate::double::{one, Double};
use crate::files::{
    borrowed, file_decimal, file_text_or_empty, file_u32, file_value, read_decimal, read_or_empty,
    read_u32, read_value,
};
use crate::lists::{first, lemma_first_at, lemma_first_none, seen};
use crate::model::{BatterySnapshot, Value, ValueModel};
use crate::text::{chars, owned, spells};

verus! {

/// The files of a power supply. Voltages, currents, powers, energies and
/// charges are in millionths of their units.
#[derive(Debug)]
pub struct SupplyFiles {
    pub kind: Option<String>,
    pub status: Option<String>,
    pub capacity: Option<String>,
    pub voltage_now: Option<String>,
    pub current_now: Option<String>,
    pub power_now: Option<String>,
    pub cycle_count: Option<String>,
    pub energy_now: Option<String>,
    pub energy_full: Option<String>,
    pub charge_now: Option<String>,
    pub charge_full: Option<String>,
    pub charge_full_design: Option<String>,
    pub energy_full_design: Option<String>,
    pub online: Option<String>,
}

/// A power: as it was reported, or a current times a voltage.
#[derive(Debug)]
pub enum Power {
    Reported { power: String },
    Product { amps: String, volts: String },
}

#[verifier::ext_equal]
pub enum PowerModel {
    Reported { power: Seq<char> },
    Product { amps: Seq<char>, volts: Seq<char> },
}

impl View for Power {
    type V = PowerModel;

    open spec fn view(&self) -> PowerModel {
        match self {
            Power::Reported { power } => PowerModel::Reported { power: power@ },
            Power::Product { amps, volts } => PowerModel::Product { amps: amps@, volts: volts@ },
        }
    }
}

/// An energy: as it was reported, or a charge times a voltage.
#[derive(Debug)]
pub enum Energy {
    Reported { energy: String },
    Product { charge: String, volts: String },
}

#[verifier::ext_equal]
pub enum EnergyModel {
    Reported { energy: Seq<char> },
    Product { charge: Seq<char>, volts: Seq<char> },
}

impl View for Energy {
    type V = EnergyModel;

    open spec fn view(&self) -> EnergyModel {
        match self {
            Energy::Reported { energy } => EnergyModel::Reported { energy: energy@ },
            Energy::Product { charge, volts } => EnergyModel::Product {
                charge: charge@,
                volts: volts@,
            },
        }
    }
}

/// What a battery holds when it is full, and what it was made to hold.
#[derive(Debug)]
pub struct Wear {
    pub full: String,
    pub design: String,
}

impl View for Wear {
    type V = (Seq<char>, Seq<char>);

    open spec fn view(&self) -> (Seq<char>, Seq<char>) {
        (self.full@, self.design@)
    }
}

/// What is left in a battery, and the current that drains it: a charge, or an
/// energy that is to be divided by a voltage.
#[derive(Debug)]
pub enum Remaining {
    Charge { charge: String, amps: String },
    Energy { energy: String, volts: String, amps: String },
}

#[verifier::ext_equal]
pub enum RemainingModel {
    Charge { charge: Seq<char>, amps: Seq<char> },
    Energy { energy: Seq<char>, volts: Seq<char>, amps: Seq<char> },
}

impl View for Remaining {
    type V = RemainingModel;

    open spec fn view(&self) -> RemainingModel {
        match self {
            Remaining::Charge { charge, amps } => RemainingModel::Charge {
                charge: charge@,
                amps: amps@,
            },
            Remaining::Energy { energy, volts, amps } => RemainingModel::Energy {
                energy: energy@,
                volts: volts@,
                amps: amps@,
            },
        }
    }
}

/// What a battery's files say, with the arithmetic that is still to be done.
#[derive(Debug)]
pub struct BatteryReport {
    pub status: String,
    pub capacity_pct: Option<Value>,
    pub volts: Option<Value>,
    pub amps: Option<Value>,
    pub watts: Option<Power>,
    pub cycles: Option<u32>,
    pub energy_now: Option<Energy>,
    pub energy_full: Option<Energy>,
    pub wear: Option<Wear>,
    pub remaining: Option<Remaining>,
}

#[verifier::ext_equal]
pub struct ReportModel {
    pub status: Seq<char>,
    pub capacity_pct: Option<ValueModel>,
    pub volts: Option<ValueModel>,
    pub amps: Option<ValueModel>,
    pub watts: Option<PowerModel>,
    pub cycles: Option<u32>,
    pub energy_now: Option<EnergyModel>,
    pub energy_full: Option<EnergyModel>,
    pub wear: Option<(Seq<char>, Seq<char>)>,
    pub remaining: Option<RemainingModel>,
}

impl View for BatteryReport {
    type V = ReportModel;

    open spec fn view(&self) -> ReportModel {
        ReportModel {
            status: self.status@,
            capacity_pct: seen(self.capacity_pct),
            volts: seen(self.volts),
            amps: seen(self.amps),
            watts: seen(self.watts),
            cycles: self.cycles,
            energy_now: seen(self.energy_now),
            energy_full: seen(self.energy_full),
            wear: seen(self.wear),
            remaining: seen(self.remaining),
        }
    }
}

/// The reported power, or else the product of current and voltage.
pub open spec fn power_of(
    power: Option<Seq<char>>,
    amps: Option<Seq<char>>,
    volts: Option<Seq<char>>,
) -> Option<PowerModel> {
    match (power, amps, volts) {
        (Some(power), _, _) => Some(PowerModel::Reported { power }),
        (None, Some(amps), Some(volts)) => Some(PowerModel::Product { amps, volts }),
        _ => None,
    }
}

/// The present and the full energy: both as reported, or else both as products
/// of charge and voltage.
pub open spec fn energies_of(
    now: Option<Seq<char>>,
    full: Option<Seq<char>>,
    charge_now: Option<Seq<char>>,
    charge_full: Option<Seq<char>>,
    volts: Option<Seq<char>>,
) -> (Option<EnergyModel>, Option<EnergyModel>) {
    match (now, full) {
        (Some(a), Some(b)) => (
            Some(EnergyModel::Reported { energy: a }),
            Some(EnergyModel::Reported { energy: b }),
        ),
        _ => match (charge_now, charge_full, volts) {
            (Some(a), Some(b), Some(volts)) => (
                Some(EnergyModel::Product { charge: a, volts }),
                Some(EnergyModel::Product { charge: b, volts }),
            ),
            _ => (None, None),
        },
    }
}

pub open spec fn either(a: Option<Seq<char>>, b: Option<Seq<char>>) -> Option<Seq<char>> {
    if a is Some {
        a
    } else {
        b
    }
}

pub open spec fn both(a: Option<Seq<char>>, b: Option<Seq<char>>) -> Option<(Seq<char>, Seq<char>)> {
    match (a, b) {
        (Some(x), Some(y)) => Some((x, y)),
        _ => None,
    }
}

/// What is left, of a battery that is being drained by a known current.
pub open spec fn remaining_of(
    status: Seq<char>,
    charge: Option<Seq<char>>,
    energy: Option<Seq<char>>,
    volts: Option<Seq<char>>,
    amps: Option<Seq<char>>,
) -> Option<RemainingModel> {
    if status != "Discharging"@ {
        None
    } else {
        match (charge, energy, volts, amps) {
            (Some(charge), _, _, Some(amps)) => Some(RemainingModel::Charge { charge, amps }),
            (None, Some(energy), Some(volts), Some(amps)) => Some(
                RemainingModel::Energy { energy, volts, amps },
            ),
            _ => None,
        }
    }
}

/// A number of cycles, if it is not zero.
pub open spec fn cycles_of(n: Option<int>) -> Option<u32> {
    match n {
        Some(c) => if c > 0 {
            Some(c as u32)
        } else {
            None
        },
        None => None,
    }
}

/// What a battery's files say.
pub open spec fn report_of(f: SupplyFiles) -> ReportModel {
    let status = file_text_or_empty(seen(f.status));
    let volts = file_decimal(seen(f.voltage_now));
    let amps = file_decimal(seen(f.current_now));
    let energy_now = file_decimal(seen(f.energy_now));
    let energy_full = file_decimal(seen(f.energy_full));
    let charge_now = file_decimal(seen(f.charge_now));
    let charge_full = file_decimal(seen(f.charge_full));
    let energies = energies_of(energy_now, energy_full, charge_now, charge_full, volts);
    ReportModel {
        status,
        capacity_pct: file_value(seen(f.capacity), 1),
        volts: file_value(seen(f.voltage_now), 1_000_000),
        amps: file_value(seen(f.current_now), 1_000_000),
        watts: power_of(file_decimal(seen(f.power_now)), amps, volts),
        cycles: cycles_of(file_u32(seen(f.cycle_count))),
        energy_now: energies.0,
        energy_full: energies.1,
        wear: both(
            either(charge_full, energy_full),
            either(
                file_decimal(seen(f.charge_full_design)),
                file_decimal(seen(f.energy_full_design)),
            ),
        ),
        remaining: remaining_of(status, charge_now, energy_now, volts, amps),
    }
}

/// The battery that a supply is, if it is one.
pub open spec fn battery_fn() -> spec_fn(SupplyFiles) -> Option<ReportModel> {
    |f: SupplyFiles|
        if file_text_or_empty(seen(f.kind)) == "Battery"@ {
            Some(report_of(f))
        } else {
            None
        }
}

/// Whether a kind of supply brings power from outside.
pub open spec fn is_external(kind: Seq<char>) -> bool {
    kind == "Mains"@ || kind == "USB"@ || kind == "ADP"@ || kind == "UPS"@
}

/// Whether a supply from outside is on, if it is one and says so.
pub open spec fn online_fn() -> spec_fn(SupplyFiles) -> Option<bool> {
    |f: SupplyFiles|
        if is_external(file_text_or_empty(seen(f.kind))) {
            match file_u32(seen(f.online)) {
                Some(n) => Some(n == 1),
                None => None,
            }
        } else {
            None
        }
}

fn read_power(power: Option<String>, amps: &Option<String>, volts: &Option<String>) -> (r: Option<
    Power,
>)
    ensures
        seen(r) == power_of(seen(power), seen(*amps), seen(*volts)),
{
    match power {
        Some(power) => Some(Power::Reported { power }),
        None => match (amps, volts) {
            (Some(a), Some(v)) => Some(
                Power::Product { amps: owned(a.as_str()), volts: owned(v.as_str()) },
            ),
            _ => None,
        },
    }
}

fn read_energies(
    now: &Option<String>,
    full: &Option<String>,
    charge_now: &Option<String>,
    charge_full: &Option<String>,
    volts: &Option<String>,
) -> (r: (Option<Energy>, Option<Energy>))
    ensures
        (seen(r.0), seen(r.1)) == energies_of(
            seen(*now),
            seen(*full),
            seen(*charge_now),
            seen(*charge_full),
            seen(*volts),
        ),
{
    match (now, full) {
        (Some(a), Some(b)) => (
            Some(Energy::Reported { energy: owned(a.as_str()) }),
            Some(Energy::Reported { energy: owned(b.as_str()) }),
        ),
        _ => match (charge_now, charge_full, volts) {
            (Some(a), Some(b), Some(v)) => (
                Some(Energy::Product { charge: owned(a.as_str()), volts: owned(v.as_str()) }),
                Some(Energy::Product { charge: owned(b.as_str()), volts: owned(v.as_str()) }),
            ),
            _ => (None, None),
        },
    }
}

fn read_remaining(
    status: &str,
    charge: &Option<String>,
    energy: &Option<String>,
    volts: &Option<String>,
    amps: &Option<String>,
) -> (r: Option<Remaining>)
    ensures
        seen(r) == remaining_of(status@, seen(*charge), seen(*energy), seen(*volts), seen(*amps)),
{
    if !spells(chars(status).as_slice(), "Discharging") {
        return None;
    }
    match amps {
        Some(a) => match charge {
            Some(c) => Some(
                Remaining::Charge { charge: owned(c.as_str()), amps: owned(a.as_str()) },
            ),
            None => match (energy, volts) {
                (Some(e), Some(v)) => Some(
                    Remaining::Energy {
                        energy: owned(e.as_str()),
                        volts: owned(v.as_str()),
                        amps: owned(a.as_str()),
                    },
                ),
                _ => None,
            },
        },
        None => None,
    }
}

fn read_report(f: &SupplyFiles) -> (r: BatteryReport)
    ensures
        r@ == report_of(*f),
{
    let status = read_or_empty(borrowed(&f.status));
    let volts = read_decimal(borrowed(&f.voltage_now));
    let amps = read_decimal(borrowed(&f.current_now));
    let energy_now = read_decimal(borrowed(&f.energy_now));
    let energy_full = read_decimal(borrowed(&f.energy_full));
    let charge_now = read_decimal(borrowed(&f.charge_now));
    let charge_full = read_decimal(borrowed(&f.charge_full));
    let watts = read_power(read_decimal(borrowed(&f.power_now)), &amps, &volts);
    let cycles = match read_u32(borrowed(&f.cycle_count)) {
        Some(c) => if c > 0 {
            Some(c)
        } else {
            None
        },
        None => None,
    };
    let energies = read_energies(&energy_now, &energy_full, &charge_now, &charge_full, &volts);
    let remaining = read_remaining(status.as_str(), &charge_now, &energy_now, &volts, &amps);
    let full = match charge_full {
        Some(c) => Some(c),
        None => energy_full,
    };
    let design = match read_decimal(borrowed(&f.charge_full_design)) {
        Some(d) => Some(d),
        None => read_decimal(borrowed(&f.energy_full_design)),
    };
    let wear = match (full, design) {
        (Some(full), Some(design)) => Some(Wear { full, design }),
        _ => None,
    };
    BatteryReport {
        status,
        capacity_pct: read_value(borrowed(&f.capacity), 1),
        volts: read_value(borrowed(&f.voltage_now), 1_000_000),
        amps: read_value(borrowed(&f.current_now), 1_000_000),
        watts,
        cycles,
        energy_now: energies.0,
        energy_full: energies.1,
        wear,
        remaining,
    }
}

fn external(kind: &str) -> (r: bool)
    ensures
        r == is_external(kind@),
{
    let k = chars(kind);
    let k = k.as_slice();
    spells(k, "Mains") || spells(k, "USB") || spells(k, "ADP") || spells(k, "UPS")
}

fn read_online(f: &SupplyFiles) -> (r: Option<bool>)
    ensures
        r == online_fn()(*f),
{
    if external(read_or_empty(borrowed(&f.kind)).as_str()) {
        match read_u32(borrowed(&f.online)) {
            Some(n) => Some(n == 1),
            None => None,
        }
    } else {
        None
    }
}

fn find_battery(supplies: &Vec<SupplyFiles>) -> (r: Option<BatteryReport>)
    ensures
        seen(r) == first(supplies@, battery_fn()),
{
    let mut i: usize = 0;
    while i < supplies.len()
        invariant
            i <= supplies.len(),
            forall|j: int| 0 <= j < i ==> battery_fn()(#[trigger] supplies@[j]) is None,
        decreases supplies.len() - i,
    {
        let kind = read_or_empty(borrowed(&supplies[i].kind));
        if spells(chars(kind.as_str()).as_slice(), "Battery") {
            proof {
                lemma_first_at(supplies@, battery_fn(), i as int);
            }
            return Some(read_report(&supplies[i]));
        }
        i = i + 1;
    }
    proof {
        lemma_first_none(supplies@, battery_fn());
    }
    None
}

/// The first battery, and whether the first supply from outside that says so
/// is on.
pub fn read_battery_and_ac(supplies: &Vec<SupplyFiles>) -> (r: (
    Option<BatteryReport>,
    Option<bool>,
))
    ensures
        seen(r.0) == first(supplies@, battery_fn()),
        r.1 == first(supplies@, online_fn()),
{
    let battery = find_battery(supplies);
    let mut i: usize = 0;
    while i < supplies.len()
        invariant
            i <= supplies.len(),
            seen(battery) == first(supplies@, battery_fn()),
            forall|j: int| 0 <= j < i ==> online_fn()(#[trigger] supplies@[j]) is None,
        decreases supplies.len() - i,
    {
        let online = read_online(&supplies[i]);
        if online.is_some() {
            proof {
                lemma_first_at(supplies@, online_fn(), i as int);
            }
            return (battery, online);
        }
        i = i + 1;
    }
    proof {
        lemma_first_none(supplies@, online_fn());
    }
    (battery, None)
}

/// What the arithmetic of a report comes to. `full` is what the battery holds
/// when it is full; `health_pct` the percentage that this is of what it was
/// made to hold; `minutes` what is left divided by the current, in minutes.
#[derive(Clone, Copy)]
pub struct BatteryNumbers {
    pub capacity_pct: Option<Double>,
    pub volts: Option<Double>,
    pub amps: Option<Double>,
    pub watts: Option<Double>,
    pub energy_now_wh: Option<Double>,
    pub energy_full_wh: Option<Double>,
    pub full: Option<Double>,
    pub health_pct: Option<Double>,
    pub minutes: Option<Double>,
}

/// The bit pattern of 0.05.
pub const TWENTIETH: u64 = 0x3FA9_9999_9999_999A;

/// The health, if the battery holds anything and the health is at least 1 %
/// and below 150 %.
pub open spec fn health_of(full: Option<Double>, health: Option<Double>) -> Option<Double> {
    match (full, health) {
        (Some(f), Some(h)) => if f.above(0) && !h.is_nan() && one() <= h.scaled() && h.below(150) {
            Some(h)
        } else {
            None
        },
        _ => None,
    }
}

/// The whole minutes that a battery lasts, at most 6000, if the current is
/// above 0.05 A.
pub open spec fn runtime_of(amps: Option<Double>, minutes: Option<Double>) -> Option<u64> {
    match (amps, minutes) {
        (Some(a), Some(m)) => if (Double { bits: TWENTIETH }).less(a) {
            Some(
                if m.above(6000) {
                    6000
                } else {
                    m.cut_off() as u64
                },
            )
        } else {
            None
        },
        _ => None,
    }
}

/// No battery is said to last longer than 6000 minutes.
pub proof fn lemma_runtime_bounded(amps: Option<Double>, minutes: Option<Double>)
    ensures
        runtime_of(amps, minutes) matches Some(m) ==> m <= 6000,
{
    if let Some(m) = minutes {
        let s = m.scaled();
        vstd::arithmetic::power2::lemma_pow2_pos(1074);
        if !m.is_nan() && 0 < s && s <= 6000 * one() {
            vstd::arithmetic::div_mod::lemma_div_is_ordered(s, 6000 * one(), one());
            vstd::arithmetic::div_mod::lemma_div_by_multiple(6000, one());
        }
    }
}

fn check_health(full: Option<Double>, health: Option<Double>) -> (r: Option<Double>)
    ensures
        r == health_of(full, health),
{
    match (full, health) {
        (Some(f), Some(h)) => {
            if f.gt_whole(0) && Double::whole(1).le(h) && h.lt_whole(150) {
                Some(h)
            } else {
                None
            }
        },
        _ => None,
    }
}

fn whole_minutes(amps: Option<Double>, minutes: Option<Double>) -> (r: Option<u64>)
    ensures
        r == runtime_of(amps, minutes),
{
    match (amps, minutes) {
        (Some(a), Some(m)) => {
            if (Double { bits: TWENTIETH }).lt(a) {
                if m.gt_whole(6000) {
                    Some(6000)
                } else {
                    Some(m.to_u64())
                }
            } else {
                None
            }
        },
        _ => None,
    }
}

/// A number that was computed of a part of a report, where the report has it.
pub open spec fn computed_of<T>(part: Option<T>, number: Option<Double>) -> Option<Double> {
    match part {
        Some(x) => number,
        None => None,
    }
}

fn of_part<T>(part: &Option<T>, number: Option<Double>) -> (r: Option<Double>)
    ensures
        r == computed_of(*part, number),
{
    match part {
        Some(x) => number,
        None => None,
    }
}

/// Whether a snapshot is of the battery that the report and its numbers are of.
pub open spec fn shown_as(r: BatterySnapshot, report: BatteryReport, n: BatteryNumbers) -> bool {
    &&& r.status@ == report.status@
    &&& r.capacity_pct == computed_of(report.capacity_pct, n.capacity_pct)
    &&& r.volts == computed_of(report.volts, n.volts)
    &&& r.amps == computed_of(report.amps, n.amps)
    &&& r.watts == computed_of(report.watts, n.watts)
    &&& r.cycles == report.cycles
    &&& r.energy_now_wh == computed_of(report.energy_now, n.energy_now_wh)
    &&& r.energy_full_wh == computed_of(report.energy_full, n.energy_full_wh)
    &&& r.health_pct == health_of(n.full, computed_of(report.wear, n.health_pct))
    &&& r.runtime_min == runtime_of(
        computed_of(report.amps, n.amps),
        computed_of(report.remaining, n.minutes),
    )
}

/// The battery as it is shown: what the report says, with implausible health
/// and runtime left out. What the report does not have is not shown.
pub fn battery_snapshot(report: &BatteryReport, n: &BatteryNumbers) -> (r: BatterySnapshot)
    ensures
        r.status@ == report.status@,
        r.capacity_pct == computed_of(report.capacity_pct, n.capacity_pct),
        r.volts == computed_of(report.volts, n.volts),
        r.amps == computed_of(report.amps, n.amps),
        r.watts == computed_of(report.watts, n.watts),
        r.cycles == report.cycles,
        r.energy_now_wh == computed_of(report.energy_now, n.energy_now_wh),
        r.energy_full_wh == computed_of(report.energy_full, n.energy_full_wh),
        r.health_pct == health_of(n.full, computed_of(report.wear, n.health_pct)),
        r.runtime_min == runtime_of(
            computed_of(report.amps, n.amps),
            computed_of(report.remaining, n.minutes),
        ),
        report.wear is None ==> r.health_pct is None,
        report.remaining is None ==> r.runtime_min is None,
        shown_as(r, *report, *n),
{
    BatterySnapshot {
        status: owned(report.status.as_str()),
        capacity_pct: of_part(&report.capacity_pct, n.capacity_pct),
        volts: of_part(&report.volts, n.volts),
        amps: of_part(&report.amps, n.amps),
        watts: of_part(&report.watts, n.watts),
        cycles: report.cycles,
        energy_now_wh: of_part(&report.energy_now, n.energy_now_wh),
        energy_full_wh: of_part(&report.energy_full, n.energy_full_wh),
        health_pct: check_health(n.full, of_part(&report.wear, n.health_pct)),
        runtime_min: whole_minutes(
            of_part(&report.amps, n.amps),
            of_part(&report.remaining, n.minutes),
        ),
    }
}

} // verus!
