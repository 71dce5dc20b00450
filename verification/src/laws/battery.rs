//! Batteries and external power.
use vstd::arithmetic::div_mod::{lemma_div_by_multiple, lemma_div_is_ordered};
use vstd::arithmetic::power2::{lemma2_to64_rest, lemma_pow2_pos};
use vstd::prelude::*;

use crate::battery::{
    battery_fn, health_of, online_fn, report_of, runtime_of, shown_as, BatteryNumbers,
    BatteryReport, Energy, EnergyModel, Power, PowerModel, Remaining, RemainingModel, SupplyFiles,
    Wear,
};
use crate::double::{lemma_cut_off_fits, one, Double};
use crate::files::{file_decimal, file_text_or_empty, file_u32};
use crate::laws::double::{lemma_cut_off, lemma_nearest_constant};
use crate::lists::{first, lemma_first_at, lemma_first_none, seen};
use crate::model::{BatterySnapshot, ValueModel};

verus! {

/// Charge, voltage and current are what their own files hold: percent, and
/// millionths of a volt and of an ampere.
pub proof fn lemma_measured(f: SupplyFiles, p: Seq<char>)
    ensures
        file_decimal(seen(f.capacity)) == Some(p) ==> report_of(f).capacity_pct == Some(
            ValueModel::Decimal { text: p, divisor: 1 },
        ),
        file_decimal(seen(f.voltage_now)) == Some(p) ==> report_of(f).volts == Some(
            ValueModel::Decimal { text: p, divisor: 1_000_000 },
        ),
        file_decimal(seen(f.current_now)) == Some(p) ==> report_of(f).amps == Some(
            ValueModel::Decimal { text: p, divisor: 1_000_000 },
        ),
        file_decimal(seen(f.capacity)) is None ==> report_of(f).capacity_pct is None,
        file_decimal(seen(f.voltage_now)) is None ==> report_of(f).volts is None,
        file_decimal(seen(f.current_now)) is None ==> report_of(f).amps is None,
        report_of(f).status == file_text_or_empty(seen(f.status)),
{
}

/// Where a battery reports its power, that is its power, whatever else it reports.
/// Where it does not, its power is its current times its voltage, and it takes both.
pub proof fn lemma_power(f: SupplyFiles, p: Seq<char>, a: Seq<char>, v: Seq<char>)
    ensures
        file_decimal(seen(f.power_now)) == Some(p) ==> report_of(f).watts == Some(
            PowerModel::Reported { power: p },
        ),
        file_decimal(seen(f.power_now)) is None && file_decimal(seen(f.current_now)) == Some(a)
            && file_decimal(seen(f.voltage_now)) == Some(v) ==> report_of(f).watts == Some(
            PowerModel::Product { amps: a, volts: v },
        ),
        file_decimal(seen(f.power_now)) is None && (file_decimal(seen(f.current_now)) is None
            || file_decimal(seen(f.voltage_now)) is None) ==> report_of(f).watts is None,
{
}

/// Where a battery reports its energy now and full, those are its energies. Where
/// one is missing, both are its charges times its voltage; and there is never one
/// without the other.
pub proof fn lemma_energy(
    f: SupplyFiles,
    now: Seq<char>,
    full: Seq<char>,
    charge_now: Seq<char>,
    charge_full: Seq<char>,
    v: Seq<char>,
)
    ensures
        file_decimal(seen(f.energy_now)) == Some(now) && file_decimal(seen(f.energy_full)) == Some(
            full,
        ) ==> report_of(f).energy_now == Some(EnergyModel::Reported { energy: now }) && report_of(
            f,
        ).energy_full == Some(EnergyModel::Reported { energy: full }),
        (file_decimal(seen(f.energy_now)) is None || file_decimal(seen(f.energy_full)) is None)
            && file_decimal(seen(f.charge_now)) == Some(charge_now) && file_decimal(
            seen(f.charge_full),
        ) == Some(charge_full) && file_decimal(seen(f.voltage_now)) == Some(v) ==> report_of(
            f,
        ).energy_now == Some(EnergyModel::Product { charge: charge_now, volts: v }) && report_of(
            f,
        ).energy_full == Some(EnergyModel::Product { charge: charge_full, volts: v }),
        report_of(f).energy_now is Some <==> report_of(f).energy_full is Some,
        file_decimal(seen(f.energy_now)) is None && file_decimal(seen(f.voltage_now)) is None
            ==> report_of(f).energy_now is None,
{
}

/// The wear of a battery is told by what it holds when it is full and by what it
/// was made to hold: as charges where it reports them, and as energies where it does
/// not.
pub proof fn lemma_wear(f: SupplyFiles, full: Seq<char>, design: Seq<char>)
    ensures
        file_decimal(seen(f.charge_full)) == Some(full) && file_decimal(seen(f.charge_full_design))
            == Some(design) ==> report_of(f).wear == Some((full, design)),
        file_decimal(seen(f.charge_full)) is None && file_decimal(seen(f.charge_full_design)) is None
            && file_decimal(seen(f.energy_full)) == Some(full) && file_decimal(
            seen(f.energy_full_design),
        ) == Some(design) ==> report_of(f).wear == Some((full, design)),
        file_decimal(seen(f.charge_full)) is None && file_decimal(seen(f.energy_full)) is None
            ==> report_of(f).wear is None,
        file_decimal(seen(f.charge_full_design)) is None && file_decimal(seen(f.energy_full_design))
            is None ==> report_of(f).wear is None,
{
}

/// A battery lasts for what is left in it divided by the current that drains it: a
/// charge, or an energy that is divided by the voltage first. That is told only of a
/// battery that is being drained by a known current.
pub proof fn lemma_what_is_left(
    f: SupplyFiles,
    c: Seq<char>,
    e: Seq<char>,
    v: Seq<char>,
    a: Seq<char>,
)
    ensures
        file_text_or_empty(seen(f.status)) == "Discharging"@ && file_decimal(seen(f.charge_now)) == Some(
            c,
        ) && file_decimal(seen(f.current_now)) == Some(a) ==> report_of(f).remaining == Some(
            RemainingModel::Charge { charge: c, amps: a },
        ),
        file_text_or_empty(seen(f.status)) == "Discharging"@ && file_decimal(seen(f.charge_now)) is None
            && file_decimal(seen(f.energy_now)) == Some(e) && file_decimal(seen(f.voltage_now))
            == Some(v) && file_decimal(seen(f.current_now)) == Some(a) ==> report_of(f).remaining
            == Some(RemainingModel::Energy { energy: e, volts: v, amps: a }),
        file_text_or_empty(seen(f.status)) != "Discharging"@ ==> report_of(f).remaining is None,
        file_decimal(seen(f.current_now)) is None ==> report_of(f).remaining is None,
        file_decimal(seen(f.charge_now)) is None && file_decimal(seen(f.energy_now)) is None
            ==> report_of(f).remaining is None,
{
}

/// The cycles of a battery are told where there are any.
pub proof fn lemma_cycles(f: SupplyFiles, n: u32)
    ensures
        file_u32(seen(f.cycle_count)) == Some(n as int) && n > 0 ==> report_of(f).cycles == Some(n),
        file_u32(seen(f.cycle_count)) == Some(0int) ==> report_of(f).cycles is None,
        file_u32(seen(f.cycle_count)) is None ==> report_of(f).cycles is None,
{
}

/// The first supply that is a battery is the battery, whatever comes before and
/// behind it.
pub proof fn lemma_first_battery(supplies: Seq<SupplyFiles>, i: int)
    requires
        0 <= i < supplies.len(),
        file_text_or_empty(seen(supplies[i].kind)) == "Battery"@,
        forall|j: int|
            0 <= j < i ==> file_text_or_empty(seen((#[trigger] supplies[j]).kind)) != "Battery"@,
    ensures
        first(supplies, battery_fn()) == Some(report_of(supplies[i])),
{
    lemma_first_at(supplies, battery_fn(), i);
}

/// Where no supply is a battery there is none.
pub proof fn lemma_no_battery(supplies: Seq<SupplyFiles>)
    requires
        forall|j: int|
            0 <= j < supplies.len() ==> file_text_or_empty(seen((#[trigger] supplies[j]).kind))
                != "Battery"@,
    ensures
        first(supplies, battery_fn()) is None,
{
    lemma_first_none(supplies, battery_fn());
}

/// A supply brings power from outside if it is called `Mains`, `USB`, `ADP` or
/// `UPS`. It is on if it says 1, and off if it says another number; a battery says
/// nothing of it.
pub proof fn lemma_outside_power(f: SupplyFiles, n: u32)
    requires
        file_u32(seen(f.online)) == Some(n as int),
    ensures
        ({
            let kind = file_text_or_empty(seen(f.kind));
            &&& kind == "Mains"@ || kind == "USB"@ || kind == "ADP"@ || kind == "UPS"@ ==> online_fn()(f)
                == Some(n == 1)
            &&& kind == "Battery"@ || kind.len() == 0 ==> online_fn()(f) is None
        }),
{
    reveal_strlit("Mains");
    reveal_strlit("USB");
    reveal_strlit("ADP");
    reveal_strlit("UPS");
    reveal_strlit("Battery");
    assert("Mains"@.len() == 5 && "USB"@.len() == 3 && "ADP"@.len() == 3 && "UPS"@.len() == 3
        && "Battery"@.len() == 7);
}

/// The first supply from outside that says whether it is on counts.
pub proof fn lemma_first_outside_power(supplies: Seq<SupplyFiles>, i: int)
    requires
        0 <= i < supplies.len(),
        online_fn()(supplies[i]) is Some,
        forall|j: int| 0 <= j < i ==> online_fn()(#[trigger] supplies[j]) is None,
    ensures
        first(supplies, online_fn()) == online_fn()(supplies[i]),
{
    lemma_first_at(supplies, online_fn(), i);
}

/// A health is shown as it is from one percent on and below 150, of a battery that
/// holds anything.
pub proof fn lemma_health(full: Double, h: Double)
    ensures
        full.scaled() > 0 && !full.is_nan() && !h.is_nan() && one() <= h.scaled() < 150 * one()
            ==> health_of(Some(full), Some(h)) == Some(h),
        !h.is_nan() && (h.scaled() < one() || h.scaled() >= 150 * one()) ==> health_of(
            Some(full),
            Some(h),
        ) is None,
        full.scaled() <= 0 ==> health_of(Some(full), Some(h)) is None,
        h.is_nan() ==> health_of(Some(full), Some(h)) is None,
        health_of(None, Some(h)) is None,
        health_of(Some(full), None) is None,
{
}

/// The minutes that a battery lasts are shown without their fraction, and never as
/// more than 6000, where the current is above a twentieth of an ampere.
pub proof fn lemma_minutes(a: Double, m: Double, least: Double)
    requires
        least.bits == 0x3FA9_9999_9999_999A,
        !m.is_nan(),
    ensures
        least.nearest(one(), 20),
        least.less(a) && m.scaled() > 6000 * one() ==> runtime_of(Some(a), Some(m)) == Some(6000u64),
        least.less(a) && 0 <= m.scaled() <= 6000 * one() ==> (runtime_of(Some(a), Some(m)) matches Some(
            r,
        ) && r * one() <= m.scaled() < (r + 1) * one()),
        least.less(a) && m.scaled() < 0 ==> runtime_of(Some(a), Some(m)) == Some(0u64),
        a.at_most(least) ==> runtime_of(Some(a), Some(m)) is None,
        runtime_of(None, Some(m)) is None,
        runtime_of(Some(a), None) is None,
{
    lemma_cut_off_fits(m);
    lemma_cut_off(m);
    lemma_pow2_pos(1074);
    if 0 <= m.scaled() <= 6000 * one() {
        lemma_div_is_ordered(m.scaled(), 6000 * one(), one());
        lemma_div_by_multiple(6000, one());
    }
    lemma2_to64_rest();
    lemma_nearest_constant(
        0x3FA9_9999_9999_999A,
        1,
        20,
        57,
        0x200_0000_0000_0000,
        20 * 0x19_9999_9999_999A,
    );
}

/// What a battery holds when full and what it was made to hold are each told by the
/// charge where there is one, and else by the energy.
pub proof fn lemma_mixed_wear(f: SupplyFiles, full: Seq<char>, design: Seq<char>)
    ensures
        file_decimal(seen(f.charge_full)) == Some(full) && file_decimal(seen(f.charge_full_design))
            is None && file_decimal(seen(f.energy_full_design)) == Some(design) ==> report_of(f).wear
            == Some((full, design)),
        file_decimal(seen(f.charge_full)) is None && file_decimal(seen(f.energy_full)) == Some(full)
            && file_decimal(seen(f.charge_full_design)) == Some(design) ==> report_of(f).wear == Some(
            (full, design),
        ),
{
}

/// An energy without a voltage does not tell how long a battery lasts.
pub proof fn lemma_nothing_left_to_tell(f: SupplyFiles)
    requires
        file_decimal(seen(f.charge_now)) is None,
        file_decimal(seen(f.voltage_now)) is None,
    ensures
        report_of(f).remaining is None,
{
}

/// No other supply brings power from outside.
pub proof fn lemma_other_supplies(f: SupplyFiles)
    requires
        file_text_or_empty(seen(f.kind)) != "Mains"@,
        file_text_or_empty(seen(f.kind)) != "USB"@,
        file_text_or_empty(seen(f.kind)) != "ADP"@,
        file_text_or_empty(seen(f.kind)) != "UPS"@,
    ensures
        online_fn()(f) is None,
{
}

/// A report says what it holds: each text and each number in its own place.
pub proof fn lemma_report_says(r: BatteryReport, a: String, v: String, e: String)
    ensures
        (Power::Reported { power: a })@ == (PowerModel::Reported { power: a@ }),
        (Power::Product { amps: a, volts: v })@ == (PowerModel::Product { amps: a@, volts: v@ }),
        (Energy::Reported { energy: e })@ == (EnergyModel::Reported { energy: e@ }),
        (Energy::Product { charge: a, volts: v })@ == (EnergyModel::Product {
            charge: a@,
            volts: v@,
        }),
        (Remaining::Charge { charge: e, amps: a })@ == (RemainingModel::Charge {
            charge: e@,
            amps: a@,
        }),
        (Remaining::Energy { energy: e, volts: v, amps: a })@ == (RemainingModel::Energy {
            energy: e@,
            volts: v@,
            amps: a@,
        }),
        (Wear { full: a, design: v })@ == (a@, v@),
        r@.status == r.status@,
        r@.capacity_pct == seen(r.capacity_pct),
        r@.volts == seen(r.volts),
        r@.amps == seen(r.amps),
        r@.watts == seen(r.watts),
        r@.cycles == r.cycles,
        r@.energy_now == seen(r.energy_now),
        r@.energy_full == seen(r.energy_full),
        r@.wear == seen(r.wear),
        r@.remaining == seen(r.remaining),
{
}

/// Each value of a battery is shown by its own number where the report has it, and is
/// not shown where the report has not.
pub proof fn lemma_shown(r: BatterySnapshot, report: BatteryReport, n: BatteryNumbers)
    requires
        shown_as(r, report, n),
    ensures
        r.status@ == report.status@,
        r.cycles == report.cycles,
        report.capacity_pct is Some ==> r.capacity_pct == n.capacity_pct,
        report.volts is Some ==> r.volts == n.volts,
        report.amps is Some ==> r.amps == n.amps,
        report.watts is Some ==> r.watts == n.watts,
        report.energy_now is Some ==> r.energy_now_wh == n.energy_now_wh,
        report.energy_full is Some ==> r.energy_full_wh == n.energy_full_wh,
        report.wear is Some ==> r.health_pct == health_of(n.full, n.health_pct),
        report.amps is Some && report.remaining is Some ==> r.runtime_min == runtime_of(
            n.amps,
            n.minutes,
        ),
        report.capacity_pct is None ==> r.capacity_pct is None,
        report.volts is None ==> r.volts is None,
        report.amps is None ==> r.amps is None && r.runtime_min is None,
        report.watts is None ==> r.watts is None,
        report.energy_now is None ==> r.energy_now_wh is None,
        report.energy_full is None ==> r.energy_full_wh is None,
        report.wear is None ==> r.health_pct is None,
        report.remaining is None ==> r.runtime_min is None,
{
}

} // verus!
