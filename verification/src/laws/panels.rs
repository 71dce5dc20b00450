//! Panels: which values stand in which place, with how many decimals, in which color.
use vstd::prelude::*;

use crate::double::{one, Double};
use crate::dump::{
    battery_rows, chip_row, cpu_row, dump_rows, host_row, memory_row, reading_pieces, vram_rows,
};
use crate::history::{chart_title, peak, Chart, History, HistoryModel};
use crate::laws::text::{lemma_cut_at, lemma_written_number};
use crate::lists::{kept, lemma_joined_step, lemma_take_all, views};
use crate::model::{
    unit_decimals, unit_sign, BatterySnapshot, ChipModel, CpuSnapshot, Fixed, MemSnapshot, Number,
    ReadingModel, Snapshot, Unit, VramSnapshot,
};
use crate::numbers::{dec, dec2, left};
use crate::output::PieceModel;
use crate::screen::{
    battery_hue, battery_lines, battery_state, charge_line, charts_of, flow_line, footer,
    governor_lines, header, key_cap, mem_line, power_lines, supply_lines, swap_line, system_lines,
    thread_line, thread_lines, uptime_text, usage_line, vram_lines, wear_line, Computed,
};
use crate::sensors::{
    block, column_count, core_label, core_line, core_part, cores, highest_first,
    lemma_highest_first, lowest, packed, placed_by_height, reading_line,
};
use crate::style::{
    faint, in_color, no_style, on_color, panel_title, reading_hue, usage_hue, Color, Style,
};
use crate::text::{cut, is_digit, lemma_find};

verus! {

/// A number with so many decimals, its unit behind it, in a width.
pub open spec fn shows(value: Number, decimals: u8, unit: Seq<char>, width: usize) -> PieceModel {
    PieceModel::Number { value: Fixed { value, decimals }, unit, width }
}

/// A number of the snapshot with so many decimals and its unit.
pub open spec fn tells(value: Double, decimals: u8, unit: Seq<char>) -> PieceModel {
    shows(Number::Real(value), decimals, unit, 0)
}

pub open spec fn words(s: Seq<char>) -> PieceModel {
    PieceModel::Text(s)
}

/// KiB in GiB, with one decimal.
pub open spec fn in_gib(kib: u64) -> PieceModel {
    shows(Number::Quotient { n: kib, d: 1_048_576 }, 1, ""@, 0)
}

// ---------- the screen ----------

/// The header tells the host, its kernel, the time since its start, the three loads in
/// their order, and the time of day.
pub proof fn lemma_header(s: Snapshot, clock: Seq<char>)
    ensures
        ({
            let h = header(s, clock);
            &&& h.len() == 12
            &&& h[3].pieces == seq![words(s.hostname@)]
            &&& h[5].pieces == seq![words(s.kernel@)]
            &&& h[7].pieces == seq![words(uptime_text(s.uptime_s.cut_off()))]
            &&& h[9].pieces == seq![
                tells(s.load@[0], 2, ""@),
                words(" "@),
                tells(s.load@[1], 2, ""@),
                words(" "@),
                tells(s.load@[2], 2, ""@),
            ]
            &&& h[11].pieces == seq![words(clock)]
            &&& h[2].pieces == seq![words("主机 "@)]
            &&& h[4].pieces == seq![words(" │ 内核 "@)]
            &&& h[6].pieces == seq![words(" │ 运行 "@)]
            &&& h[8].pieces == seq![words(" │ 负载 "@)]
        }),
{
}

/// A thread has its own share, as a bar and in percent, and its own frequency; the
/// share is zero where none is known.
pub proof fn lemma_thread(c: CpuSnapshot, t: int)
    requires
        0 <= t < c.per_mhz@.len(),
    ensures
        ({
            let l = thread_line(c, t);
            let pct = if t < c.per_pct@.len() {
                c.per_pct@[t]
            } else {
                Double { bits: 0 }
            };
            &&& l.len() == 4
            &&& l[0].pieces == seq![words("T"@ + dec2(t as nat) + " "@)]
            &&& l[1].pieces == seq![PieceModel::Bar { percent: Number::Real(pct), width: 8 }]
            &&& l[1].style.fg == Some(usage_hue(pct))
            &&& l[2].pieces == seq![words(" "@), shows(Number::Real(pct), 1, ""@, 5), words("%"@)]
            &&& l[2].style.fg == Some(usage_hue(pct))
            &&& l[3].pieces == seq![
                words(" "@),
                shows(Number::Real(c.per_mhz@[t]), 0, ""@, 4),
                words("MHz"@),
            ]
        }),
{
}

/// A range of threads has a line for each.
pub proof fn lemma_threads(c: CpuSnapshot, from: int, to: int, t: int)
    requires
        0 <= from <= t < to,
    ensures
        thread_lines(c, from, to).len() == to - from,
        thread_lines(c, from, to)[t - from] == thread_line(c, t),
{
}

/// The lines on the processor: its share with one decimal, its mean frequency, and its
/// power where that is known.
pub proof fn lemma_processor_lines(c: CpuSnapshot, mean: Double, w: Double)
    ensures
        usage_line(c, mean).len() == 3,
        usage_line(c, mean)[1].pieces == seq![
            shows(Number::Real(c.total_pct), 1, ""@, 5),
            words("%"@),
        ],
        usage_line(c, mean)[1].style.fg == Some(usage_hue(c.total_pct)),
        usage_line(c, mean)[2].pieces == seq![words("  均 "@), tells(mean, 0, "MHz"@)],
        c.pkg_w is None ==> power_lines(c).len() == 0,
        c.pkg_w == Some(w) ==> power_lines(c).len() == 1 && power_lines(c)[0].len() == 2
            && power_lines(c)[0][1].pieces == seq![tells(w, 2, " W"@)]
            && power_lines(c)[0][1].style.fg == Some(reading_hue(Unit::Watts, w)),
{
}

/// The lines on memory tell what is in use and what there is, of memory and of swap
/// space, each as a share and in GiB.
pub proof fn lemma_memory_lines(used: u64, free: u64, swapped: u64, unswapped: u64, share: Double)
    requires
        used + free <= u64::MAX,
        swapped + unswapped <= u64::MAX,
    ensures
        ({
            let m = MemSnapshot {
                total_kib: (used + free) as u64,
                avail_kib: free,
                swap_total_kib: (swapped + unswapped) as u64,
                swap_free_kib: unswapped,
            };
            let (a, b) = (mem_line(m, share), swap_line(m));
            let part = Number::Percent { part: used, whole: (used + free) as u64 };
            &&& a.len() == 4
            &&& a[1].pieces == seq![PieceModel::Bar { percent: part, width: 12 }]
            &&& a[1].style.fg == Some(usage_hue(share))
            &&& a[2].pieces == seq![words(" "@), shows(part, 0, ""@, 4), words("% "@)]
            &&& a[3].pieces == seq![
                in_gib(used),
                words("/"@),
                in_gib((used + free) as u64),
                words("G"@),
            ]
            &&& b.len() == 3
            &&& b[1].pieces == seq![
                PieceModel::Bar {
                    percent: Number::Percent { part: swapped, whole: (swapped + unswapped) as u64 },
                    width: 12,
                },
            ]
            &&& b[2].pieces == seq![
                words(" "@),
                in_gib(swapped),
                words("/"@),
                in_gib((swapped + unswapped) as u64),
                words("G"@),
            ]
        }),
{
}

/// The line on graphics memory tells what is used, what there is, and what is used of
/// the rest where that is known.
pub proof fn lemma_graphics_line(used: Double, total: Double, other: Double)
    ensures
        ({
            let v = VramSnapshot { used_mib: used, total_mib: total, gtt_used_mib: None };
            let w = VramSnapshot { used_mib: used, total_mib: total, gtt_used_mib: Some(other) };
            let (a, b) = (vram_lines(Some(v)), vram_lines(Some(w)));
            let pair = seq![
                tells(used, 0, ""@),
                words("/"@),
                tells(total, 0, ""@),
                words("M"@),
            ];
            &&& vram_lines(None).len() == 0
            &&& a.len() == 1 && a[0].len() == 2 && a[0][1].pieces == pair
            &&& b.len() == 1 && b[0].len() == 3 && b[0][1].pieces == pair
            &&& b[0][2].pieces == seq![words("  GTT "@), tells(other, 0, "M"@)]
        }),
{
}

/// The first line on a battery tells its charge as a bar and in percent, and its
/// state, in the color of that.
pub proof fn lemma_charge_line(b: BatterySnapshot)
    ensures
        ({
            let l = charge_line(b);
            let cap = match b.capacity_pct {
                Some(c) => c,
                None => Double { bits: 0 },
            };
            let hue = Some(battery_hue(b.status@, cap));
            &&& l.len() == 4
            &&& l[1].pieces == seq![PieceModel::Bar { percent: Number::Real(cap), width: 10 }]
            &&& l[2].pieces == seq![words(" "@), shows(Number::Real(cap), 0, ""@, 2), words("%"@)]
            &&& l[3].pieces == seq![words(" "@ + battery_state(b.status@))]
            &&& l[1].style.fg == hue && l[2].style.fg == hue && l[3].style.fg == hue
        }),
{
}

/// The second line on a battery tells its voltage, current and power, the last without
/// its sign, and its energy with that when full.
pub proof fn lemma_flow_line(
    b: BatterySnapshot,
    v: Double,
    a: Double,
    w: Double,
    now: Double,
    full: Double,
)
    requires
        b.volts == Some(v),
        b.amps == Some(a),
        b.watts == Some(w),
        b.energy_now_wh == Some(now),
        b.energy_full_wh == Some(full),
    ensures
        ({
            let l = flow_line(b);
            &&& l.len() == 5
            &&& l[1].pieces == seq![tells(v, 2, "V "@)]
            &&& l[2].pieces == seq![tells(a, 2, "A "@)]
            &&& l[3].pieces == seq![tells(w.unsigned(), 1, "W "@)]
            &&& l[3].style.fg == Some(reading_hue(Unit::Watts, w.unsigned()))
            &&& l[4].pieces == seq![tells(now, 1, ""@), words("/"@), tells(full, 1, "Wh"@)]
        }),
        ({
            let none = BatterySnapshot { volts: None, amps: None, watts: None, ..b };
            flow_line(none).len() == 2 && flow_line(none)[1] == flow_line(b)[4]
        }),
        flow_line(BatterySnapshot { energy_now_wh: None, ..b }).len() == 4,
        flow_line(BatterySnapshot { energy_full_wh: None, ..b }).len() == 4,
        flow_line(BatterySnapshot { volts: None, ..b }).len() == 4,
        flow_line(BatterySnapshot { amps: None, ..b }).len() == 4,
        flow_line(BatterySnapshot { watts: None, ..b }).len() == 4,
{
}

/// The third line on a battery tells its health, which is yellow below 80 percent, and
/// how long it lasts in hours and minutes. It is there where one of these is known.
pub proof fn lemma_wear_line(b: BatterySnapshot, h: Double, hours: u64, minutes: u64)
    requires
        minutes < 60,
        60 * hours + minutes <= u64::MAX,
        b.health_pct == Some(h),
        b.runtime_min == Some((60 * hours + minutes) as u64),
    ensures
        ({
            let l = wear_line(b);
            &&& l.len() == 4
            &&& l[2].pieces == seq![tells(h, 0, "%"@)]
            &&& !h.is_nan() && h.scaled() < 80 * one() ==> l[2].style.fg == Some(Color::Yellow)
            &&& h.is_nan() || h.scaled() >= 80 * one() ==> l[2].style.fg == Some(Color::Green)
            &&& l[3].pieces == seq![
                words("  续航 ~"@ + dec(hours as nat) + "h"@ + dec2(minutes as nat) + "m"@),
            ]
        }),
        battery_lines(Some(b)) == seq![charge_line(b), flow_line(b), wear_line(b)],
        ({
            let x = BatterySnapshot { health_pct: None, ..b };
            battery_lines(Some(x)).len() == 3 && wear_line(x).len() == 2
        }),
        ({
            let x = BatterySnapshot { runtime_min: None, ..b };
            battery_lines(Some(x)).len() == 3 && wear_line(x).len() == 3
        }),
        ({
            let x = BatterySnapshot { health_pct: None, runtime_min: None, ..b };
            battery_lines(Some(x)) == seq![charge_line(x), flow_line(x)]
        }),
        battery_lines(None).len() == 0,
{
    let m = (60 * hours + minutes) as u64;
    assert(m / 60 == hours && m % 60 == minutes);
}

/// Outside power is told where it is known, and so are the governor and its preference.
pub proof fn lemma_supply_and_governor(c: CpuSnapshot)
    ensures
        supply_lines(None).len() == 0,
        supply_lines(Some(true)).len() == 1 && supply_lines(Some(true))[0][1].pieces == seq![
            words("在线"@),
        ] && supply_lines(Some(true))[0][1].style.fg == Some(Color::Green),
        supply_lines(Some(false)).len() == 1 && supply_lines(Some(false))[0][1].pieces == seq![
            words("离线"@),
        ] && supply_lines(Some(false))[0][1].style.fg == Some(Color::DarkGray),
        c.governor@.len() == 0 ==> governor_lines(c).len() == 0,
        c.governor@.len() > 0 ==> governor_lines(c).len() == 1 && governor_lines(c)[0][1].pieces
            == seq![words(c.governor@)],
        c.governor@.len() > 0 && c.epp@.len() == 0 ==> governor_lines(c)[0].len() == 2,
        c.governor@.len() > 0 && c.epp@.len() > 0 ==> governor_lines(c)[0].len() == 3
            && governor_lines(c)[0][2].pieces == seq![words(" · "@ + c.epp@)],
{
}

/// The panel on the system has its lines in one order.
pub proof fn lemma_system_lines(s: Snapshot, n: Computed)
    ensures
        ({
            let l = system_lines(s, n);
            let p = power_lines(s.cpu).len() as int;
            let v = vram_lines(s.vram).len() as int;
            let b = battery_lines(s.battery).len() as int;
            let a = supply_lines(s.ac_online).len() as int;
            &&& l[0] == usage_line(s.cpu, n.avg_mhz)
            &&& p == 1 ==> l[1] == power_lines(s.cpu)[0]
            &&& l[1 + p] == mem_line(s.mem, n.mem_pct)
            &&& l[2 + p] == swap_line(s.mem)
            &&& v == 1 ==> l[3 + p] == vram_lines(s.vram)[0]
            &&& b >= 2 ==> l[3 + p + v] == battery_lines(s.battery)[0] && l[4 + p + v]
                == battery_lines(s.battery)[1]
            &&& b == 3 ==> l[5 + p + v] == battery_lines(s.battery)[2]
            &&& a == 1 ==> l[3 + p + v + b] == supply_lines(s.ac_online)[0]
            &&& governor_lines(s.cpu).len() == 1 ==> l[3 + p + v + b + a] == governor_lines(
                s.cpu,
            )[0]
            &&& l.len() == 3 + p + v + b + a + governor_lines(s.cpu).len()
        }),
{
}

/// The footer tells the interval with one decimal, whether sampling is held, and where
/// the log is kept.
pub proof fn lemma_footer(interval: Double, path: Seq<char>)
    ensures
        footer(false, interval, None).len() == 9,
        footer(false, interval, None)[8].pieces == seq![words("采样 "@), tells(interval, 1, "s "@)],
        footer(true, interval, None).len() == 10,
        footer(true, interval, None)[9].pieces == seq![words(" ‖ 已暂停 "@)],
        footer(false, interval, Some(path)).len() == 10,
        footer(false, interval, Some(path))[9].pieces == seq![words(" ● "@ + path + " "@)],
        footer(true, interval, Some(path)).len() == 11,
        footer(true, interval, Some(path))[9].pieces == seq![words(" ‖ 已暂停 "@)],
        footer(true, interval, Some(path))[10].pieces == seq![words(" ● "@ + path + " "@)],
{
}

/// The title of a chart tells its last value and its largest, which are kept in tenths.
pub proof fn lemma_chart_title(name: Seq<char>, unit: Seq<char>, s: Seq<u64>, last: u64)
    ensures
        chart_title(name, unit, s.push(last)) == seq![
            words(" "@ + name + "  "@),
            shows(Number::Quotient { n: last, d: 10 }, 1, unit, 0),
            words("  峰值 "@),
            shows(Number::Quotient { n: peak(s.push(last)), d: 10 }, 1, unit, 0),
            words(" "@),
        ],
        chart_title(name, unit, Seq::empty()) == seq![words(" "@ + name + " "@)],
{
    assert(chart_title(name, unit, Seq::empty()) =~= seq![words(" "@ + name + " "@)]);
}

// ---------- sensors ----------

/// A label such as `C03_clk` is for one core; a label without an underscore is not,
/// and one that does not start with a capital C and digits is not either.
pub proof fn lemma_core_label(n: nat, kind: Seq<char>, label: Seq<char>)
    ensures
        core_label("C"@ + dec(n) + "_"@ + kind) == Some(("C"@ + dec(n), kind)),
        core_label("C"@ + dec2(n) + "_"@ + kind) == Some(("C"@ + dec2(n), kind)),
        !label.contains('_') ==> core_label(label) is None,
        label.len() > 0 && label[0] != 'C' ==> core_label(label) is None,
        label.len() > 1 && !is_digit(label[1]) ==> core_label(label) is None,
{
    reveal_strlit("C");
    reveal_strlit("_");
    lemma_written_number(n);
    let (a, b) = ("C"@ + dec(n), "C"@ + dec2(n));
    assert forall|i: int| 1 <= i < a.len() implies is_digit(#[trigger] a[i]) by {
        assert(a[i] == dec(n)[i - 1]);
    }
    assert forall|i: int| 1 <= i < b.len() implies is_digit(#[trigger] b[i]) by {
        assert(b[i] == dec2(n)[i - 1]);
    }
    assert(!a.contains('_'));
    assert(!b.contains('_'));
    lemma_cut_at(a, '_', kind);
    lemma_cut_at(b, '_', kind);
    assert(a + "_"@ + kind =~= a + seq!['_'] + kind);
    assert(b + "_"@ + kind =~= b + seq!['_'] + kind);
    if !label.contains('_') {
        lemma_cut_at(label, '_', kind);
    }
    if let Some((c, k)) = core_label(label) {
        lemma_find(label, '_');
        assert(cut(label, '_') == Some((c, k)));
        assert(c[0] == label[0] && c[1] == label[1]);
    }
}

/// A reading of the whole has a line of its own: the label in 13 places, and the value
/// in 10 with the decimals and the sign of its unit. A zero is gray.
pub proof fn lemma_reading_line(r: ReadingModel<Double>, decimals: u8, sign: Seq<char>)
    requires
        core_label(r.label) is None,
        decimals == unit_decimals(r.unit),
        sign == unit_sign(r.unit),
    ensures
        ({
            let l = reading_line()(r)->0;
            &&& reading_line()(r) is Some
            &&& l.len() == 2
            &&& l[0].pieces == seq![words(" "@ + left(r.label, 13))]
            &&& l[1].pieces == seq![
                shows(Number::Real(r.value), decimals, sign, 10),
                words(" "@),
            ]
            &&& r.value.scaled() == 0 ==> l[1].style.fg == Some(Color::DarkGray)
            &&& r.value.scaled() != 0 ==> l[1].style.fg == Some(reading_hue(r.unit, r.value))
        }),
{
}

/// A reading for a core stands on the line of that core, and on no other, in 9 places.
pub proof fn lemma_core_reading(
    r: ReadingModel<Double>,
    core: Seq<char>,
    other: Seq<char>,
    kind: Seq<char>,
    decimals: u8,
    sign: Seq<char>,
)
    requires
        core_label(r.label) == Some((core, kind)),
        other != core,
        decimals == unit_decimals(r.unit),
        sign == unit_sign(r.unit),
    ensures
        reading_line()(r) is None,
        core_part(other)(r) is None,
        core_part(core)(r) is Some,
        core_part(core)(r)->0.pieces == seq![
            words(" "@),
            shows(Number::Real(r.value), decimals, sign, 9),
        ],
        r.value.scaled() == 0 ==> core_part(core)(r)->0.style.fg == Some(Color::DarkGray),
        r.value.scaled() != 0 ==> core_part(core)(r)->0.style.fg == Some(
            reading_hue(r.unit, r.value),
        ),
{
}

/// The lines of a chip: its name, the readings of the whole, a line for each core, and
/// an empty line.
pub proof fn lemma_block(c: ChipModel<Double>, i: int, j: int)
    requires
        0 <= i < kept(c.readings, reading_line()).len(),
        0 <= j < cores(c.readings).len(),
    ensures
        ({
            let b = block(c);
            let n = kept(c.readings, reading_line()).len();
            &&& b.len() == n + cores(c.readings).len() + 2
            &&& b[0].len() == 1 && b[0][0].pieces == seq![words("▸ "@ + c.name)]
            &&& b[1 + i] == kept(c.readings, reading_line())[i]
            &&& b[1 + n + j] == core_line(c.readings, cores(c.readings)[j])
            &&& b[1 + n + j][0].pieces == seq![words(" "@ + left(cores(c.readings)[j], 6))]
            &&& b.last().len() == 0
        }),
{
}

/// Up to twelve chips stand in three columns, and more in four.
pub proof fn lemma_columns(n: nat)
    ensures
        n <= 12 ==> column_count(n) == 3,
        n > 12 ==> column_count(n) == 4,
{
}

// ---------- one print ----------

/// The row on the host tells its name, its kernel, its time and its three loads.
pub proof fn lemma_host_row(s: Snapshot)
    ensures
        host_row(s) == seq![
            words(
                "主机 "@ + s.hostname@ + "  内核 "@ + s.kernel@ + "  运行 "@ + uptime_text(
                    s.uptime_s.cut_off(),
                ) + "  负载 "@,
            ),
            tells(s.load@[0], 2, " "@),
            tells(s.load@[1], 2, " "@),
            tells(s.load@[2], 2, ""@),
        ],
{
}

/// The row on the processor tells its model, its threads, its share, its mean frequency
/// and its power where that is known.
pub proof fn lemma_cpu_row(s: Snapshot, mean: Double, w: Double)
    ensures
        ({
            let r = cpu_row(s, mean);
            &&& r[0] == words(
                "CPU "@ + s.cpu.model@ + "  "@ + dec(s.cpu.per_mhz@.len()) + "线程  占用 "@,
            )
            &&& r[1] == tells(s.cpu.total_pct, 1, "%  均 "@)
            &&& r[2] == tells(mean, 0, "MHz"@)
            &&& s.cpu.pkg_w is None ==> r.len() == 3
            &&& s.cpu.pkg_w == Some(w) ==> r.len() == 5 && r[3] == words("  Package "@) && r[4]
                == tells(w, 2, "W"@)
        }),
{
}

/// The row on memory tells what is in use and what there is, of memory and of swap.
pub proof fn lemma_memory_row(s: Snapshot, used: u64, free: u64, swapped: u64, unswapped: u64)
    requires
        used + free <= u64::MAX,
        swapped + unswapped <= u64::MAX,
        s.mem == (MemSnapshot {
            total_kib: (used + free) as u64,
            avail_kib: free,
            swap_total_kib: (swapped + unswapped) as u64,
            swap_free_kib: unswapped,
        }),
    ensures
        memory_row(s) == seq![
            words("内存 "@),
            in_gib(used),
            words("/"@),
            in_gib((used + free) as u64),
            words(" GiB  Swap "@),
            in_gib(swapped),
            words("/"@),
            in_gib((swapped + unswapped) as u64),
            words(" GiB"@),
        ],
{
}

/// The row on a battery of which all is known.
pub proof fn lemma_battery_row(
    b: BatterySnapshot,
    c: Double,
    v: Double,
    a: Double,
    w: Double,
    n: u32,
    h: Double,
    hours: u64,
    minutes: u64,
)
    requires
        minutes < 60,
        60 * hours + minutes <= u64::MAX,
        b.capacity_pct == Some(c),
        b.volts == Some(v),
        b.amps == Some(a),
        b.watts == Some(w),
        b.cycles == Some(n),
        b.health_pct == Some(h),
        b.runtime_min == Some((60 * hours + minutes) as u64),
    ensures
        battery_rows(None).len() == 0,
        battery_rows(Some(b)) == seq![
            seq![
                words("电池 "@ + battery_state(b.status@) + " "@),
                tells(c, 0, "%"@),
                words(" "@),
                tells(v, 2, "V"@),
                words(" "@),
                tells(a, 2, "A"@),
                words(" "@),
                tells(w, 1, "W"@),
                words(" (循环 "@ + dec(n as nat) + ")"@),
                words(" 健康"@),
                tells(h, 0, "%"@),
                words(" 续航~"@ + dec(hours as nat) + "h"@ + dec2(minutes as nat) + "m"@),
            ],
        ],
{
    let m = (60 * hours + minutes) as u64;
    assert(m / 60 == hours && m % 60 == minutes);
    let r = battery_rows(Some(b))[0];
    assert(r =~= seq![
        words("电池 "@ + battery_state(b.status@) + " "@),
        tells(c, 0, "%"@),
        words(" "@),
        tells(v, 2, "V"@),
        words(" "@),
        tells(a, 2, "A"@),
        words(" "@),
        tells(w, 1, "W"@),
        words(" (循环 "@ + dec(n as nat) + ")"@),
        words(" 健康"@),
        tells(h, 0, "%"@),
        words(" 续航~"@ + dec(hours as nat) + "h"@ + dec2(minutes as nat) + "m"@),
    ]);
}

/// What is not known of a battery leaves no gap in its row, but for the charge, which
/// counts as zero.
pub proof fn lemma_bare_battery_row(b: BatterySnapshot)
    requires
        b.capacity_pct is None,
        b.volts is None,
        b.amps is None,
        b.watts is None,
        b.cycles is None,
        b.health_pct is None,
        b.runtime_min is None,
    ensures
        battery_rows(Some(b)) == seq![
            seq![
                words("电池 "@ + battery_state(b.status@) + " "@),
                tells(Double { bits: 0 }, 0, "%"@),
            ],
        ],
{
    let r = battery_rows(Some(b))[0];
    assert(r =~= seq![
        words("电池 "@ + battery_state(b.status@) + " "@),
        tells(Double { bits: 0 }, 0, "%"@),
    ]);
}

/// The row on graphics memory; what is not known of the rest counts as zero.
pub proof fn lemma_graphics_row(used: Double, total: Double, other: Double)
    ensures
        ({
            let v = VramSnapshot { used_mib: used, total_mib: total, gtt_used_mib: None };
            let w = VramSnapshot { used_mib: used, total_mib: total, gtt_used_mib: Some(other) };
            let front = seq![words("VRAM "@), tells(used, 0, "/"@), tells(total, 0, " MiB  GTT "@)];
            &&& vram_rows(None).len() == 0
            &&& vram_rows(Some(v)) == seq![front.push(tells(Double { bits: 0 }, 0, " MiB"@))]
            &&& vram_rows(Some(w)) == seq![front.push(tells(other, 0, " MiB"@))]
        }),
{
    let v = VramSnapshot { used_mib: used, total_mib: total, gtt_used_mib: None };
    let w = VramSnapshot { used_mib: used, total_mib: total, gtt_used_mib: Some(other) };
    let front = seq![words("VRAM "@), tells(used, 0, "/"@), tells(total, 0, " MiB  GTT "@)];
    assert(vram_rows(Some(v))[0] =~= front.push(tells(Double { bits: 0 }, 0, " MiB"@)));
    assert(vram_rows(Some(w))[0] =~= front.push(tells(other, 0, " MiB"@)));
}

/// The row of a chip: its name in 24 places, and each reading with its label behind
/// what came before.
pub proof fn lemma_chip_row(name: Seq<char>, rs: Seq<ReadingModel<Double>>, r: ReadingModel<Double>)
    ensures
        ({
            let a = ChipModel { name, readings: rs };
            let b = ChipModel { name, readings: rs.push(r) };
            &&& rs.len() == 0 ==> chip_row(a) == seq![words("  "@ + left(name, 24))]
            &&& chip_row(b) == chip_row(a) + seq![
                words(" "@ + r.label + " "@),
                tells(r.value, unit_decimals(r.unit), unit_sign(r.unit)),
            ]
        }),
{
    let f = reading_pieces();
    let t = rs.push(r);
    lemma_take_all(t);
    lemma_joined_step(t, f, rs.len() as int);
    assert(t.take(rs.len() as int) =~= rs);
    let a = ChipModel { name, readings: rs };
    let b = ChipModel { name, readings: t };
    assert(chip_row(b) =~= chip_row(a) + f(r));
    if rs.len() == 0 {
        assert(chip_row(a) =~= seq![words("  "@ + left(name, 24))]);
    }
}

/// The print has its rows in one order, and a row for each chip at the end.
pub proof fn lemma_dump_rows(s: Snapshot, mean: Double, version: Seq<char>, time: Seq<char>, i: int)
    requires
        0 <= i < s.chips@.len(),
    ensures
        ({
            let r = dump_rows(s, mean, version, time);
            let b = battery_rows(s.battery).len() as int;
            let v = vram_rows(s.vram).len() as int;
            &&& r.len() == 5 + b + v + s.chips@.len()
            &&& r[0] == seq![words("rustinfo v"@ + version + " — "@ + time)]
            &&& r[1] == host_row(s)
            &&& r[2] == cpu_row(s, mean)
            &&& r[3] == memory_row(s)
            &&& b == 1 ==> r[4] == battery_rows(s.battery)[0]
            &&& v == 1 ==> r[4 + b] == vram_rows(s.vram)[0]
            &&& r[4 + b + v] == seq![words("传感器:"@)]
            &&& r[5 + b + v + i] == chip_row(views(s.chips@)[i])
        }),
{
}

/// Blocks of one height stay as they came; one that is higher than all is put in front.
pub proof fn lemma_heights<L>(s: Seq<Seq<L>>, x: Seq<L>)
    ensures
        (forall|i: int| 0 <= i < s.len() ==> (#[trigger] highest_first(s)[i]).len() >= x.len())
            ==> highest_first(s.push(x)) == highest_first(s).push(x),
        (forall|i: int| 0 <= i < s.len() ==> (#[trigger] highest_first(s)[i]).len() < x.len())
            ==> highest_first(s.push(x)) == seq![x] + highest_first(s),
{
    lemma_highest_first(s);
    assert(s.push(x).drop_last() =~= s);
    let t = highest_first(s);
    if t.len() > 0 && (forall|i: int|
        0 <= i < s.len() ==> (#[trigger] highest_first(s)[i]).len() >= x.len()) {
        assert(t[t.len() - 1].len() >= x.len());
    }
    if forall|i: int| 0 <= i < s.len() ==> (#[trigger] highest_first(s)[i]).len() < x.len() {
        lemma_highest_in_front(t, x);
    }
}

proof fn lemma_highest_in_front<L>(t: Seq<Seq<L>>, x: Seq<L>)
    requires
        forall|i: int| 0 <= i < t.len() ==> (#[trigger] t[i]).len() < x.len(),
    ensures
        placed_by_height(t, x) == seq![x] + t,
    decreases t.len(),
{
    if t.len() > 0 {
        assert(t[t.len() - 1].len() < x.len());
        lemma_highest_in_front(t.drop_last(), x);
        assert((seq![x] + t.drop_last()).push(t.last()) =~= seq![x] + t);
    } else {
        assert(placed_by_height(t, x) =~= seq![x] + t);
    }
}

/// A block is put at the foot of the lowest column, the first of these from the left.
pub proof fn lemma_next_block<L>(blocks: Seq<Seq<L>>, b: Seq<L>, n: nat, c: int)
    requires
        0 <= c < n,
        packed(blocks, n).len() == n,
        forall|i: int|
            0 <= i < n ==> packed(blocks, n)[c].len() <= (#[trigger] packed(blocks, n)[i]).len(),
        forall|i: int|
            0 <= i < c ==> packed(blocks, n)[c].len() < (#[trigger] packed(blocks, n)[i]).len(),
    ensures
        packed(blocks.push(b), n) == packed(blocks, n).update(c, packed(blocks, n)[c] + b),
{
    assert(blocks.push(b).drop_last() =~= blocks);
    lemma_lowest(packed(blocks, n), n, c);
}

proof fn lemma_lowest<L>(cols: Seq<Seq<L>>, n: nat, c: int)
    requires
        0 <= c < n <= cols.len(),
        forall|i: int| 0 <= i < n ==> cols[c].len() <= (#[trigger] cols[i]).len(),
        forall|i: int| 0 <= i < c ==> cols[c].len() < (#[trigger] cols[i]).len(),
    ensures
        lowest(cols, n) == c,
    decreases n,
{
    if n > 1 {
        if c < n - 1 {
            lemma_lowest(cols, (n - 1) as nat, c);
            assert(cols[n - 1].len() >= cols[c].len());
        } else {
            lemma_lowest_is_one(cols, (n - 1) as nat);
            let l = lowest(cols, (n - 1) as nat);
            assert(cols[c].len() < cols[l].len());
        }
    }
}

proof fn lemma_lowest_is_one<L>(cols: Seq<Seq<L>>, n: nat)
    requires
        0 < n <= cols.len(),
    ensures
        0 <= lowest(cols, n) < n,
    decreases n,
{
    if n > 1 {
        lemma_lowest_is_one(cols, (n - 1) as nat);
    }
}

/// The styles: a title stands between two spaces in cyan, what is less important is
/// gray, and a key stands between two spaces in black on gray.
pub proof fn lemma_styles(title: PieceModel, s: Seq<char>, c: Color, d: Color)
    ensures
        panel_title(seq![title]).pieces == seq![words(" "@), title, words(" "@)],
        panel_title(seq![title]).style == (Style {
            fg: Some(Color::Cyan),
            bg: None,
            bold: false,
            dim: false,
        }),
        faint(s).style == (Style { fg: Some(Color::DarkGray), bg: None, bold: false, dim: false }),
        faint(s).pieces == seq![words(s)],
        in_color(c) == (Style { fg: Some(c), bg: None, bold: false, dim: false }),
        on_color(c, d) == (Style { fg: Some(c), bg: Some(d), bold: false, dim: false }),
        no_style() == (Style { fg: None, bg: None, bold: false, dim: false }),
        key_cap(s).pieces == seq![words(" "@ + s + " "@)],
        key_cap(s).style == (Style {
            fg: Some(Color::Black),
            bg: Some(Color::DarkGray),
            bold: false,
            dim: false,
        }),
{
    assert(panel_title(seq![title]).pieces =~= seq![words(" "@), title, words(" "@)]);
}

/// What the lines on the system are called.
pub proof fn lemma_line_names(s: Snapshot, n: Computed, b: BatterySnapshot, h: Double)
    requires
        b.health_pct == Some(h),
    ensures
        usage_line(s.cpu, n.avg_mhz)[0].pieces == seq![words("总占用 "@)],
        s.cpu.pkg_w is Some ==> power_lines(s.cpu)[0][0].pieces == seq![words("CPU功耗 "@)],
        mem_line(s.mem, n.mem_pct)[0].pieces == seq![words("内存 "@)],
        swap_line(s.mem)[0].pieces == seq![words("Swap "@)],
        s.vram is Some ==> vram_lines(s.vram)[0][0].pieces == seq![words("VRAM "@)],
        charge_line(b)[0].pieces == seq![words("电池 "@)],
        flow_line(b)[0].pieces == seq![words("      "@)],
        wear_line(b)[0].pieces == seq![words("      "@)],
        wear_line(b)[1].pieces == seq![words("健康 "@)],
        supply_lines(Some(true))[0][0].pieces == seq![words("外接电源 "@)],
        supply_lines(Some(false))[0][0].pieces == seq![words("外接电源 "@)],
        s.cpu.governor@.len() > 0 ==> governor_lines(s.cpu)[0][0].pieces == seq![words("调速 "@)],
{
}

/// The keys that the footer names.
pub proof fn lemma_footer_keys(paused: bool, interval: Double, path: Option<Seq<char>>)
    ensures
        ({
            let f = footer(paused, interval, path);
            &&& f[0] == key_cap("q 退出"@)
            &&& f[2] == key_cap("空格 暂停"@)
            &&& f[4] == key_cap("l CSV"@)
            &&& f[6] == key_cap("+/- 间隔"@)
        }),
{
}

/// The charts show the temperature in red, the power in cyan and memory in green, each
/// under its name.
pub proof fn lemma_charts(a: Chart, b: Chart, c: Chart, h: HistoryModel)
    requires
        charts_of((a, b, c), h),
    ensures
        a.data@ == h.tctl && a.color == Color::Red,
        b.data@ == h.power && b.color == Color::Cyan,
        c.data@ == h.mem && c.color == Color::Green,
        a.title@ == panel_title(chart_title("CPU 温度"@, "°C"@, h.tctl)),
        b.title@ == panel_title(chart_title("功率"@, "W"@, h.power)),
        c.title@ == panel_title(chart_title("内存"@, "%"@, h.mem)),
{
}

/// A history shows its three rows each as its own.
pub proof fn lemma_history_says(h: History)
    ensures
        h@.tctl == h.tctl@,
        h@.power == h.power@,
        h@.mem == h.mem@,
        h@.cap == h.cap,
{
}

/// What is less important on the lines is gray, and what has no color of its own has
/// none.
pub proof fn lemma_gray_parts(
    s: Snapshot,
    n: Computed,
    t: int,
    v: VramSnapshot,
    b: BatterySnapshot,
    other: Double,
    now: Double,
    full: Double,
)
    requires
        0 <= t < s.cpu.per_mhz@.len(),
        v.gtt_used_mib == Some(other),
        b.volts is None && b.amps is None && b.watts is None,
        b.energy_now_wh == Some(now),
        b.energy_full_wh == Some(full),
    ensures
        ({
            let gray = Some(Color::DarkGray);
            &&& thread_line(s.cpu, t)[0].style.fg == gray
            &&& thread_line(s.cpu, t)[3].style.fg == gray
            &&& usage_line(s.cpu, n.avg_mhz)[2].style.fg == gray
            &&& mem_line(s.mem, n.mem_pct)[2].style.fg is None
            &&& mem_line(s.mem, n.mem_pct)[3].style.fg == gray
            &&& swap_line(s.mem)[1].style.fg == gray
            &&& swap_line(s.mem)[2].style.fg == gray
            &&& vram_lines(Some(v))[0][1].style.fg is None
            &&& vram_lines(Some(v))[0][2].style.fg == gray
            &&& flow_line(b)[1].style.fg == gray
        }),
{
}

/// The marks of a held screen and of a log stand in black on yellow and on green.
pub proof fn lemma_mark_colors(interval: Double, path: Seq<char>)
    ensures
        footer(true, interval, Some(path))[8].style.fg == Some(Color::DarkGray),
        footer(true, interval, Some(path))[9].style.fg == Some(Color::Black),
        footer(true, interval, Some(path))[9].style.bg == Some(Color::Yellow),
        footer(true, interval, Some(path))[10].style.fg == Some(Color::Black),
        footer(true, interval, Some(path))[10].style.bg == Some(Color::Green),
{
}

/// The name of a chip stands in bold yellow, and labels are dim.
pub proof fn lemma_sensor_styles(c: ChipModel<Double>, r: ReadingModel<Double>, core: Seq<char>)
    requires
        core_label(r.label) is None,
    ensures
        block(c)[0][0].style == (Style {
            fg: Some(Color::Yellow),
            bg: None,
            bold: true,
            dim: false,
        }),
        (reading_line()(r)->0)[0].style == (Style { fg: None, bg: None, bold: false, dim: true }),
        core_line(c.readings, core)[0].style == (Style {
            fg: None,
            bg: None,
            bold: false,
            dim: true,
        }),
{
}

} // verus!
