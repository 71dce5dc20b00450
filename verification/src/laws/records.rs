//! Records: what the history keeps of a snapshot, and which column of the log holds
//! which value.
use vstd::prelude::*;

use crate::double::Double;
use crate::history::{charted_power, has_tctl, point, ring, tctl_of, temperature, Scaled};
use crate::laws::double::lemma_cut_off;
use crate::lists::{
    first, joined, lemma_first_at, lemma_first_none, lemma_joined_step, lemma_take_all, views,
};
use crate::logger::{
    battery_columns, chip_columns, columns, log_file, memory_columns, sanitized, thread_columns,
    vram_columns, ColumnModel,
};
use crate::model::{
    unit_column, BatterySnapshot, ChipModel, Fixed, MemSnapshot, Number, Snapshot, Unit,
    VramSnapshot,
};
use crate::numbers::{dec, dec2};
use crate::output::PieceModel;
use crate::text::occurs;

verus! {

// ---------- history ----------

/// The temperature that is charted is the first of the first chip whose name holds
/// `k10temp` or `zenpower`; without such a chip it is the first of the first chip.
pub proof fn lemma_charted_temperature(
    chips: Seq<ChipModel<Double>>,
    k: int,
    t: int,
    c: ChipModel<Double>,
)
    requires
        0 <= t < c.readings.len(),
        c.readings[t].unit == Unit::TempC,
        forall|i: int| 0 <= i < t ==> (#[trigger] c.readings[i]).unit != Unit::TempC,
        0 <= k < chips.len(),
        chips[k] == c,
    ensures
        (occurs(c.name, "k10temp"@) || occurs(c.name, "zenpower"@)) && (forall|i: int|
            0 <= i < k ==> !occurs((#[trigger] chips[i]).name, "k10temp"@) && !occurs(
                chips[i].name,
                "zenpower"@,
            )) ==> tctl_of(chips) == Some(c.readings[t].value),
        k == 0 && (forall|i: int|
            0 <= i < chips.len() ==> !occurs((#[trigger] chips[i]).name, "k10temp"@) && !occurs(
                chips[i].name,
                "zenpower"@,
            )) ==> tctl_of(chips) == Some(c.readings[t].value),
        tctl_of(Seq::empty()) is None,
{
    lemma_first_at(c.readings, temperature(), t);
    if (occurs(c.name, "k10temp"@) || occurs(c.name, "zenpower"@)) && (forall|i: int|
        0 <= i < k ==> !occurs((#[trigger] chips[i]).name, "k10temp"@) && !occurs(
            chips[i].name,
            "zenpower"@,
        )) {
        lemma_first_at(chips, has_tctl(), k);
    }
    if forall|i: int|
        0 <= i < chips.len() ==> !occurs((#[trigger] chips[i]).name, "k10temp"@) && !occurs(
            chips[i].name,
            "zenpower"@,
        ) {
        lemma_first_none(chips, has_tctl());
    }
    lemma_first_none(Seq::<ChipModel<Double>>::empty(), has_tctl());
}

/// A chip that has no temperature gives none.
pub proof fn lemma_no_charted_temperature(chips: Seq<ChipModel<Double>>, k: int)
    requires
        0 <= k < chips.len(),
        occurs(chips[k].name, "k10temp"@) || occurs(chips[k].name, "zenpower"@),
        forall|i: int|
            0 <= i < k ==> !occurs((#[trigger] chips[i]).name, "k10temp"@) && !occurs(
                chips[i].name,
                "zenpower"@,
            ),
        forall|i: int|
            0 <= i < chips[k].readings.len() ==> (#[trigger] chips[k].readings[i]).unit
                != Unit::TempC,
    ensures
        tctl_of(chips) is None,
{
    lemma_first_at(chips, has_tctl(), k);
    lemma_first_none(chips[k].readings, temperature());
}

/// The power that is charted is that of the processor, and without one that of the
/// battery without its sign.
pub proof fn lemma_charted_power(s: Snapshot, w: Double, b: BatterySnapshot)
    ensures
        s.cpu.pkg_w == Some(w) ==> charted_power(s) == Some(w),
        s.cpu.pkg_w is None && s.battery == Some(b) && b.watts == Some(w) ==> charted_power(s)
            == Some(w.unsigned()),
        s.cpu.pkg_w is None && s.battery == Some(b) && b.watts is None ==> charted_power(s) is None,
        s.cpu.pkg_w is None && s.battery is None ==> charted_power(s) is None,
{
}

/// What is charted of a snapshot is cut off to a whole number of what it was scaled to,
/// each value on its own; memory is at most a thousand thousandths, and zero where none
/// is in use.
pub proof fn lemma_charted(s: Snapshot, scaled: Scaled)
    ensures
        ({
            let p = point(s, scaled);
            &&& tctl_of(views(s.chips@)) is Some ==> p.tctl == Some(scaled.tctl.cut_off() as u64)
            &&& tctl_of(views(s.chips@)) is None ==> p.tctl is None
            &&& charted_power(s) is Some ==> p.power == Some(scaled.power.cut_off() as u64)
            &&& charted_power(s) is None ==> p.power is None
            &&& s.mem.total_kib > s.mem.avail_kib && scaled.mem.cut_off() <= 1000 ==> p.mem
                == scaled.mem.cut_off()
            &&& s.mem.total_kib > s.mem.avail_kib && scaled.mem.cut_off() > 1000 ==> p.mem == 1000
            &&& s.mem.total_kib <= s.mem.avail_kib ==> p.mem == 0
        }),
{
    lemma_cut_off(scaled.mem);
}

/// A full ring loses its first value when another comes.
pub proof fn lemma_ring(first: u64, s: Seq<u64>, value: u64, cap: usize)
    ensures
        s.len() + 1 == cap ==> ring(seq![first] + s, value, cap) == s.push(value),
        s.len() < cap ==> ring(s, value, cap) == s.push(value),
{
    assert((seq![first] + s).drop_first() =~= s);
}

// ---------- the log ----------

/// A column with a number of so many decimals.
pub open spec fn column(name: Seq<char>, value: Number, decimals: u8) -> ColumnModel {
    ColumnModel {
        name,
        cell: PieceModel::Number { value: Fixed { value, decimals }, unit: ""@, width: 0 },
    }
}

/// In a name, letters and digits of ASCII stay, and anything else becomes an
/// underscore.
pub proof fn lemma_sanitized(s: Seq<char>, i: int)
    requires
        0 <= i < s.len(),
    ensures
        sanitized(s).len() == s.len(),
        'a' <= s[i] <= 'z' || 'A' <= s[i] <= 'Z' || '0' <= s[i] <= '9' ==> sanitized(s)[i] == s[i],
        !('a' <= s[i] <= 'z' || 'A' <= s[i] <= 'Z' || '0' <= s[i] <= '9') ==> sanitized(s)[i]
            == '_',
{
}

/// The columns in front: the time, the share of the processor, and its power where
/// that is known.
pub proof fn lemma_first_columns(s: Snapshot, ts: Seq<char>, w: Double)
    ensures
        ({
            let c = columns(s, ts);
            &&& c[0] == (ColumnModel { name: "ts"@, cell: PieceModel::Text(ts) })
            &&& c[1] == column("cpu_total_pct"@, Number::Real(s.cpu.total_pct), 2)
            &&& s.cpu.pkg_w == Some(w) ==> c[2] == column("cpu_pkg_w"@, Number::Real(w), 3)
        }),
{
}

/// The columns of the threads: their shares first, and their frequencies behind them.
pub proof fn lemma_thread_columns(s: Snapshot, ts: Seq<char>, i: int, j: int)
    requires
        0 <= i < s.cpu.per_pct@.len(),
        0 <= j < s.cpu.per_mhz@.len(),
    ensures
        ({
            let c = columns(s, ts);
            let front = if s.cpu.pkg_w is Some {
                3int
            } else {
                2
            };
            &&& c[front + i] == column(
                "t"@ + dec2(i as nat) + "_pct"@,
                Number::Real(s.cpu.per_pct@[i]),
                2,
            )
            &&& c[front + s.cpu.per_pct@.len() + j] == column(
                "t"@ + dec2(j as nat) + "_mhz"@,
                Number::Real(s.cpu.per_mhz@[j]),
                0,
            )
        }),
{
    let c = columns(s, ts);
    let front = if s.cpu.pkg_w is Some {
        3int
    } else {
        2
    };
    let n = s.cpu.per_pct@.len();
    let a = thread_columns(s.cpu.per_pct@, "_pct"@, 2);
    let b = thread_columns(s.cpu.per_mhz@, "_mhz"@, 0);
    assert(c[front + i] == a[i]);
    assert(c[front + n + j] == b[j]);
}

/// The columns on memory: what is in use as a share and in MiB, the swap space in use in
/// MiB, and the first load.
pub proof fn lemma_memory_columns(s: Snapshot, used: u64, free: u64, swapped: u64, unswapped: u64)
    requires
        used + free <= u64::MAX,
        swapped + unswapped <= u64::MAX,
        s.mem == (MemSnapshot {
            total_kib: (used + free) as u64,
            avail_kib: free,
            swap_total_kib: (swapped + unswapped) as u64,
            swap_free_kib: unswapped,
        }),
    ensures
        memory_columns(s) == seq![
            column(
                "mem_used_pct"@,
                Number::Percent { part: used, whole: (used + free) as u64 },
                2,
            ),
            column("mem_used_mib"@, Number::Quotient { n: used, d: 1024 }, 1),
            column("swap_used_mib"@, Number::Quotient { n: swapped, d: 1024 }, 1),
            column("load1"@, Number::Real(s.load@[0]), 3),
        ],
{
}

/// The columns on a battery of which all is known, and on one of which nothing is.
pub proof fn lemma_battery_columns(
    b: BatterySnapshot,
    c: Double,
    v: Double,
    a: Double,
    w: Double,
    h: Double,
    m: u64,
)
    requires
        b.capacity_pct == Some(c),
        b.volts == Some(v),
        b.amps == Some(a),
        b.watts == Some(w),
        b.health_pct == Some(h),
        b.runtime_min == Some(m),
    ensures
        battery_columns(None).len() == 0,
        battery_columns(Some(b)) == seq![
            column("batt_pct"@, Number::Real(c), 0),
            column("batt_v"@, Number::Real(v), 3),
            column("batt_a"@, Number::Real(a), 3),
            column("batt_w"@, Number::Real(w), 3),
            column("batt_health_pct"@, Number::Real(h), 1),
            ColumnModel { name: "batt_runtime_min"@, cell: PieceModel::Text(dec(m as nat)) },
        ],
        battery_columns(
            Some(
                BatterySnapshot {
                    capacity_pct: None,
                    volts: None,
                    amps: None,
                    watts: None,
                    health_pct: None,
                    runtime_min: None,
                    ..b
                },
            ),
        ).len() == 0,
        battery_columns(Some(BatterySnapshot { volts: None, ..b })).len() == 5,
        battery_columns(Some(BatterySnapshot { amps: None, ..b })).len() == 5,
        battery_columns(Some(BatterySnapshot { watts: None, ..b })).len() == 5,
{
    assert(battery_columns(Some(b)) =~= seq![
        column("batt_pct"@, Number::Real(c), 0),
        column("batt_v"@, Number::Real(v), 3),
        column("batt_a"@, Number::Real(a), 3),
        column("batt_w"@, Number::Real(w), 3),
        column("batt_health_pct"@, Number::Real(h), 1),
        ColumnModel { name: "batt_runtime_min"@, cell: PieceModel::Text(dec(m as nat)) },
    ]);
}

/// The columns on graphics memory.
pub proof fn lemma_graphics_columns(used: Double, total: Double, other: Option<Double>)
    ensures
        vram_columns(None).len() == 0,
        vram_columns(
            Some(VramSnapshot { used_mib: used, total_mib: total, gtt_used_mib: other }),
        ) == seq![
            column("vram_used_mib"@, Number::Real(used), 0),
            column("vram_total_mib"@, Number::Real(total), 0),
        ],
{
}

/// The columns of a chip: one for each reading in its order, named by the chip, the
/// label and the unit, with three decimals.
pub proof fn lemma_chip_columns(chips: Seq<ChipModel<Double>>, c: ChipModel<Double>, i: int)
    requires
        0 <= i < c.readings.len(),
    ensures
        ({
            let f = chip_columns();
            let before = joined(chips, f);
            let all = joined(chips.push(c), f);
            &&& all.len() == before.len() + c.readings.len()
            &&& all.take(before.len() as int) == before
            &&& all[before.len() + i] == column(
                sanitized(c.name) + "."@ + sanitized(c.readings[i].label) + "_"@ + unit_column(
                    c.readings[i].unit,
                ),
                Number::Real(c.readings[i].value),
                3,
            )
        }),
{
    let f = chip_columns();
    let t = chips.push(c);
    lemma_take_all(t);
    lemma_joined_step(t, f, chips.len() as int);
    assert(t.take(chips.len() as int) =~= chips);
    let (before, all) = (joined(chips, f), joined(t, f));
    assert(all =~= before + f(c));
    assert(all.take(before.len() as int) =~= before);
}

/// Behind the columns of the threads come memory, battery, graphics memory and chips.
pub proof fn lemma_column_order(s: Snapshot, ts: Seq<char>)
    ensures
        ({
            let c = columns(s, ts);
            let front = (if s.cpu.pkg_w is Some {
                3int
            } else {
                2
            }) + s.cpu.per_pct@.len() + s.cpu.per_mhz@.len();
            &&& c.skip(front) == memory_columns(s) + battery_columns(s.battery) + vram_columns(
                s.vram,
            ) + joined(views(s.chips@), chip_columns())
        }),
{
    let c = columns(s, ts);
    let a = thread_columns(s.cpu.per_pct@, "_pct"@, 2);
    let b = thread_columns(s.cpu.per_mhz@, "_mhz"@, 0);
    let front = (if s.cpu.pkg_w is Some {
        3int
    } else {
        2
    }) + s.cpu.per_pct@.len() + s.cpu.per_mhz@.len();
    assert(c.skip(front) =~= memory_columns(s) + battery_columns(s.battery) + vram_columns(s.vram)
        + joined(views(s.chips@), chip_columns()));
}

/// A log is kept in the file that is named, and otherwise in one that is named after
/// the time.
pub proof fn lemma_log_file(p: Seq<char>, stamp: Seq<char>)
    ensures
        log_file(Some(p), stamp) == p,
        log_file(None, stamp) == "rustinfo_"@ + stamp + ".csv"@,
{
}

} // verus!
