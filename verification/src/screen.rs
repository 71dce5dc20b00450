//! The screen: the header, the panels of the processor and the system, the
//! footer, and how they share the space.
use vstd::prelude::*;

use crate::clock::{time_of_day, TimeFormat};
use crate::double::Double;
use crate::history::{chart, chart_title, Chart, History, HistoryModel};
use crate::lists::{put, seen, views};
use crate::model::{BatterySnapshot, CpuSnapshot, Fixed, MemSnapshot, Number, Snapshot, Unit, VramSnapshot};
use crate::numbers::{dec, dec2, dec2_text, dec_text};
use crate::output::{plain, text, Piece, PieceModel};
use crate::sensors::{draw_sensors, sensor_columns, Lines};
use crate::style::{
    colored, colored_on, dim, faint, in_color, no_style, on_color, panel, panel_title, raw, raw_span,
    reading_color, reading_hue, styled, text_span, unstyled, usage_color, usage_hue, Color, Line,
    Span, SpanModel, Style,
};
use crate::text::{chars, owned, spells};

verus! {

// ---------- small parts ----------

/// The block that fills so many eighths of a cell.
pub open spec fn eighths(n: int) -> char {
    if n == 1 {
        '▏'
    } else if n == 2 {
        '▎'
    } else if n == 3 {
        '▍'
    } else if n == 4 {
        '▌'
    } else if n == 5 {
        '▋'
    } else if n == 6 {
        '▊'
    } else {
        '▉'
    }
}

/// A bar of `width` cells, filled from the left by so many eighths of a cell:
/// full blocks, then the block of what is left over, then spaces.
pub open spec fn bar(units: nat, width: nat) -> Seq<char> {
    Seq::new(
        width,
        |i: int|
            if 8 * (i + 1) <= units {
                '█'
            } else if 8 * i < units {
                eighths(units - 8 * i)
            } else {
                ' '
            },
    )
}

/// A bar is as wide as it is asked to be, however much of it is filled, and one
/// that is filled beyond its width is full.
pub proof fn lemma_bar_keeps_its_width(units: nat, width: nat)
    ensures
        bar(units, width).len() == width,
        units >= 8 * width ==> forall|i: int| 0 <= i < width ==> bar(units, width)[i] == '█',
{
}

/// A cell that is full stays full when more of the bar is filled, and one that
/// is blank was blank before.
pub proof fn lemma_bar_grows(units: nat, more: nat, width: nat, i: int)
    requires
        units <= more,
        0 <= i < width,
    ensures
        bar(units, width)[i] == '█' ==> bar(more, width)[i] == '█',
        bar(more, width)[i] == ' ' ==> bar(units, width)[i] == ' ',
{
}

fn eighths_char(n: usize) -> (r: char)
    ensures
        r == eighths(n as int),
{
    if n == 1 {
        '▏'
    } else if n == 2 {
        '▎'
    } else if n == 3 {
        '▍'
    } else if n == 4 {
        '▌'
    } else if n == 5 {
        '▋'
    } else if n == 6 {
        '▊'
    } else {
        '▉'
    }
}

pub fn bar8(units: usize, width: usize) -> (r: String)
    ensures
        r@ == bar(units as nat, width as nat),
        r@.len() == width,
{
    let full: usize = if units / 8 < width {
        units / 8
    } else {
        width
    };
    let frac: usize = units % 8;
    let mut out = String::new();
    let mut i: usize = 0;
    while i < full
        invariant
            i <= full,
            out@ =~= Seq::new(i as nat, |j: int| '█'),
        decreases full - i,
    {
        out.push('█');
        i = i + 1;
    }
    if full < width && frac > 0 {
        out.push(eighths_char(frac));
        i = i + 1;
    }
    while i < width
        invariant
            i <= width,
            8 * i >= units || i == width,
            out@ =~= bar(units as nat, width as nat).take(i as int),
        decreases width - i,
    {
        out.push(' ');
        i = i + 1;
    }
    assert(out@ =~= bar(units as nat, width as nat));
    out
}

/// The first `max` characters, with an ellipsis where that is not all.
pub open spec fn shortened(s: Seq<char>, max: nat) -> Seq<char> {
    if s.len() <= max {
        s
    } else {
        s.take(max as int) + "…"@
    }
}

pub fn truncate(s: &str, max: usize) -> (r: String)
    ensures
        r@ == shortened(s@, max as nat),
{
    let t = chars(s);
    if t.len() <= max {
        return owned(s);
    }
    let mut out = String::new();
    let mut i: usize = 0;
    while i < max
        invariant
            i <= max,
            max < t.len(),
            out@ =~= t@.take(i as int),
        decreases max - i,
    {
        out.push(t[i]);
        i = i + 1;
    }
    out.concat("…")
}

/// A time in days, hours and minutes, from the largest that is not zero on.
pub open spec fn uptime_text(secs: int) -> Seq<char> {
    let d = secs / 86400;
    let h = secs % 86400 / 3600;
    let m = secs % 3600 / 60;
    if d > 0 {
        dec(d as nat) + "d"@ + dec(h as nat) + "h"@ + dec(m as nat) + "m"@
    } else if h > 0 {
        dec(h as nat) + "h"@ + dec(m as nat) + "m"@
    } else {
        dec(m as nat) + "m"@
    }
}

pub fn fmt_uptime(secs: Double) -> (r: String)
    ensures
        r@ == uptime_text(secs.cut_off()),
{
    let s = secs.to_u64();
    let d: u64 = s / 86400;
    let h: u64 = s % 86400 / 3600;
    let m: u64 = s % 3600 / 60;
    if d > 0 {
        dec_text(d).concat("d").concat(dec_text(h).as_str()).concat("h").concat(
            dec_text(m).as_str(),
        ).concat("m")
    } else if h > 0 {
        dec_text(h).concat("h").concat(dec_text(m).as_str()).concat("m")
    } else {
        dec_text(m).concat("m")
    }
}

/// The state of a battery in words.
pub open spec fn battery_state(s: Seq<char>) -> Seq<char> {
    if s == "Discharging"@ {
        "放电"@
    } else if s == "Charging"@ {
        "充电"@
    } else if s == "Full"@ {
        "已满"@
    } else if s == "Not charging"@ {
        "未充电"@
    } else {
        "未知"@
    }
}

pub fn batt_status_zh(s: &str) -> (r: &'static str)
    ensures
        r@ == battery_state(s@),
{
    let t = chars(s);
    if spells(t.as_slice(), "Discharging") {
        "放电"
    } else if spells(t.as_slice(), "Charging") {
        "充电"
    } else if spells(t.as_slice(), "Full") {
        "已满"
    } else if spells(t.as_slice(), "Not charging") {
        "未充电"
    } else {
        "未知"
    }
}

/// A number with decimals, and a unit behind it, within a width.
pub open spec fn figure(value: Number, decimals: u8, unit: Seq<char>, width: usize) -> PieceModel {
    PieceModel::Number { value: Fixed { value, decimals }, unit, width }
}

pub fn write_figure(value: Number, decimals: u8, unit: &'static str, width: usize) -> (r: Piece)
    ensures
        r@ == figure(value, decimals, unit@, width),
{
    Piece::Number { value: Fixed { value, decimals }, unit, width }
}

pub open spec fn parts(pieces: Seq<PieceModel>, style: Style) -> SpanModel {
    SpanModel { pieces, style }
}

fn span(pieces: Vec<Piece>, style: Style) -> (r: Span)
    ensures
        r@ == parts(views(pieces@), style),
{
    Span { pieces, style }
}

/// An amount of KiB in GiB.
pub open spec fn gib(kib: u64) -> PieceModel {
    figure(Number::Quotient { n: kib, d: 1048576 }, 1, ""@, 0)
}

pub fn write_gib(kib: u64) -> (r: Piece)
    ensures
        r@ == gib(kib),
{
    write_figure(Number::Quotient { n: kib, d: 1048576 }, 1, "", 0)
}

// ---------- the header ----------

/// The header, with the time of day as it is written.
pub open spec fn header(s: Snapshot, clock: Seq<char>) -> Seq<SpanModel> {
    seq![
        styled(
            " rustinfo "@,
            Style { fg: Some(Color::Black), bg: Some(Color::Cyan), bold: true, dim: false },
        ),
        raw(" "@),
        faint("主机 "@),
        raw(s.hostname@),
        faint(" │ 内核 "@),
        raw(s.kernel@),
        faint(" │ 运行 "@),
        raw(uptime_text(s.uptime_s.cut_off())),
        faint(" │ 负载 "@),
        parts(
            seq![
                figure(Number::Real(s.load@[0]), 2, ""@, 0),
                PieceModel::Text(" "@),
                figure(Number::Real(s.load@[1]), 2, ""@, 0),
                PieceModel::Text(" "@),
                figure(Number::Real(s.load@[2]), 2, ""@, 0),
            ],
            no_style(),
        ),
        faint(" │ "@),
        raw(clock),
    ]
}

pub fn header_at(s: &Snapshot, clock: &str) -> (r: Line)
    ensures
        r@ == header(*s, clock@),
{
    let l = Line {
        spans: vec![
            text_span(
                owned(" rustinfo "),
                Style { fg: Some(Color::Black), bg: Some(Color::Cyan), bold: true, dim: false },
            ),
            raw_span(" "),
            dim("主机 "),
            raw_span(s.hostname.as_str()),
            dim(" │ 内核 "),
            raw_span(s.kernel.as_str()),
            dim(" │ 运行 "),
            raw_span(fmt_uptime(s.uptime_s).as_str()),
            dim(" │ 负载 "),
            span(
                vec![
                    write_figure(Number::Real(s.load[0]), 2, "", 0),
                    text(" "),
                    write_figure(Number::Real(s.load[1]), 2, "", 0),
                    text(" "),
                    write_figure(Number::Real(s.load[2]), 2, "", 0),
                ],
                unstyled(),
            ),
            dim(" │ "),
            raw_span(clock),
        ],
    };
    assert(l@ =~~= header(*s, clock@));
    l
}

pub fn draw_header(s: &Snapshot) -> (r: Line)
    requires
        s.time.wf(),
    ensures
        r@ == header(*s, time_of_day(s.time.secs, s.time.nanos)),
{
    header_at(s, s.time.write(TimeFormat::Clock).as_str())
}

// ---------- the threads ----------

/// The share of a thread in use, or zero.
pub open spec fn thread_share(c: CpuSnapshot, t: int) -> Double {
    if t < c.per_pct@.len() {
        c.per_pct@[t]
    } else {
        Double { bits: 0 }
    }
}

pub open spec fn thread_line(c: CpuSnapshot, t: int) -> Seq<SpanModel> {
    let pct = thread_share(c, t);
    let style = in_color(usage_hue(pct));
    seq![
        faint("T"@ + dec2(t as nat) + " "@),
        parts(seq![PieceModel::Bar { percent: Number::Real(pct), width: 8 }], style),
        parts(
            seq![
                PieceModel::Text(" "@),
                figure(Number::Real(pct), 1, ""@, 5),
                PieceModel::Text("%"@),
            ],
            style,
        ),
        parts(
            seq![
                PieceModel::Text(" "@),
                figure(Number::Real(c.per_mhz@[t]), 0, ""@, 4),
                PieceModel::Text("MHz"@),
            ],
            in_color(Color::DarkGray),
        ),
    ]
}

/// The lines of the threads from one to before another.
pub open spec fn thread_lines(c: CpuSnapshot, from: int, to: int) -> Seq<Seq<SpanModel>> {
    Seq::new((to - from) as nat, |i: int| thread_line(c, from + i))
}

/// How many threads stand in the first of two columns.
pub open spec fn half(n: int) -> int {
    (n + 1) / 2
}

fn write_thread(c: &CpuSnapshot, t: usize) -> (r: Line)
    requires
        t < c.per_mhz@.len(),
    ensures
        r@ == thread_line(*c, t as int),
{
    let pct = if t < c.per_pct.len() {
        c.per_pct[t]
    } else {
        Double { bits: 0 }
    };
    let style = colored(usage_color(pct));
    let l = Line {
        spans: vec![
            dim(owned("T").concat(dec2_text(t as u64).as_str()).concat(" ").as_str()),
            span(vec![Piece::Bar { percent: Number::Real(pct), width: 8 }], style),
            span(vec![text(" "), write_figure(Number::Real(pct), 1, "", 5), text("%")], style),
            span(
                vec![text(" "), write_figure(Number::Real(c.per_mhz[t]), 0, "", 4), text("MHz")],
                colored(Color::DarkGray),
            ),
        ],
    };
    assert(l@ =~~= thread_line(*c, t as int));
    l
}

fn write_threads(c: &CpuSnapshot, from: usize, to: usize) -> (r: Lines)
    requires
        from <= to <= c.per_mhz@.len(),
    ensures
        r@ == thread_lines(*c, from as int, to as int),
{
    let mut lines: Vec<Line> = Vec::new();
    let mut t: usize = from;
    while t < to
        invariant
            from <= t <= to <= c.per_mhz@.len(),
            views(lines@) =~= thread_lines(*c, from as int, t as int),
        decreases to - t,
    {
        put(&mut lines, write_thread(c, t));
        t = t + 1;
    }
    Lines { lines }
}

/// The panel of the threads: its title and its two columns.
pub fn draw_threads(c: &CpuSnapshot) -> (r: (Span, Lines, Lines))
    ensures
        r.0@ == panel_title(plain("CPU · "@ + shortened(c.model@, 48))),
        r.1@ == thread_lines(*c, 0, half(c.per_mhz@.len() as int)),
        r.2@ == thread_lines(*c, half(c.per_mhz@.len() as int), c.per_mhz@.len() as int),
{
    let title = vec![Piece::Text(owned("CPU · ").concat(truncate(c.model.as_str(), 48).as_str()))];
    assert(views(title@) =~= plain("CPU · "@ + shortened(c.model@, 48)));
    let n: usize = c.per_mhz.len();
    let middle: usize = n / 2 + n % 2;
    (panel(title), write_threads(c, 0, middle), write_threads(c, middle, n))
}

/// The two columns hold every thread once, in their order.
pub proof fn lemma_every_thread_is_shown(c: CpuSnapshot)
    ensures
        ({
            let n = c.per_mhz@.len() as int;
            thread_lines(c, 0, half(n)) + thread_lines(c, half(n), n) == thread_lines(c, 0, n)
        }),
{
    let n = c.per_mhz@.len() as int;
    assert(thread_lines(c, 0, half(n)) + thread_lines(c, half(n), n) =~= thread_lines(c, 0, n));
}

// ---------- the system ----------

/// Numbers that are computed from a snapshot: the mean frequency of the threads
/// in MHz, zero where there is none, and the percentage of the memory in use,
/// zero where there is no memory.
#[derive(Clone, Copy, Debug)]
pub struct Computed {
    pub avg_mhz: Double,
    pub mem_pct: Double,
}

pub open spec fn usage_line(c: CpuSnapshot, avg_mhz: Double) -> Seq<SpanModel> {
    seq![
        faint("总占用 "@),
        parts(
            seq![figure(Number::Real(c.total_pct), 1, ""@, 5), PieceModel::Text("%"@)],
            in_color(usage_hue(c.total_pct)),
        ),
        parts(
            seq![PieceModel::Text("  均 "@), figure(Number::Real(avg_mhz), 0, "MHz"@, 0)],
            in_color(Color::DarkGray),
        ),
    ]
}

pub open spec fn power_lines(c: CpuSnapshot) -> Seq<Seq<SpanModel>> {
    match c.pkg_w {
        Some(w) => seq![
            seq![
                faint("CPU功耗 "@),
                parts(
                    seq![figure(Number::Real(w), 2, " W"@, 0)],
                    in_color(reading_hue(Unit::Watts, w)),
                ),
            ],
        ],
        None => Seq::empty(),
    }
}

pub open spec fn mem_line(m: MemSnapshot, mem_pct: Double) -> Seq<SpanModel> {
    let share = Number::Percent { part: m.in_use(), whole: m.total_kib };
    seq![
        faint("内存 "@),
        parts(
            seq![PieceModel::Bar { percent: share, width: 12 }],
            in_color(usage_hue(mem_pct)),
        ),
        parts(
            seq![PieceModel::Text(" "@), figure(share, 0, ""@, 4), PieceModel::Text("% "@)],
            no_style(),
        ),
        parts(
            seq![gib(m.in_use()), PieceModel::Text("/"@), gib(m.total_kib), PieceModel::Text("G"@)],
            in_color(Color::DarkGray),
        ),
    ]
}

pub open spec fn swap_line(m: MemSnapshot) -> Seq<SpanModel> {
    seq![
        faint("Swap "@),
        parts(
            seq![
                PieceModel::Bar {
                    percent: Number::Percent { part: m.swapped(), whole: m.swap_total_kib },
                    width: 12,
                },
            ],
            in_color(Color::DarkGray),
        ),
        parts(
            seq![
                PieceModel::Text(" "@),
                gib(m.swapped()),
                PieceModel::Text("/"@),
                gib(m.swap_total_kib),
                PieceModel::Text("G"@),
            ],
            in_color(Color::DarkGray),
        ),
    ]
}

pub open spec fn vram_lines(v: Option<VramSnapshot>) -> Seq<Seq<SpanModel>> {
    match v {
        Some(v) => {
            let front = seq![
                faint("VRAM "@),
                parts(
                    seq![
                        figure(Number::Real(v.used_mib), 0, ""@, 0),
                        PieceModel::Text("/"@),
                        figure(Number::Real(v.total_mib), 0, ""@, 0),
                        PieceModel::Text("M"@),
                    ],
                    no_style(),
                ),
            ];
            seq![
                match v.gtt_used_mib {
                    Some(g) => front.push(
                        parts(
                            seq![
                                PieceModel::Text("  GTT "@),
                                figure(Number::Real(g), 0, "M"@, 0),
                            ],
                            in_color(Color::DarkGray),
                        ),
                    ),
                    None => front,
                },
            ]
        },
        None => Seq::empty(),
    }
}

pub open spec fn or_zero(v: Option<Double>) -> Double {
    match v {
        Some(v) => v,
        None => Double { bits: 0 },
    }
}

/// The color of a battery: how full it is matters while it empties.
pub open spec fn battery_hue(status: Seq<char>, cap: Double) -> Color {
    if status == "Charging"@ || status == "Full"@ {
        Color::Green
    } else if status == "Discharging"@ {
        if cap.below(20) {
            Color::Red
        } else {
            Color::Yellow
        }
    } else {
        Color::DarkGray
    }
}

pub open spec fn charge_line(b: BatterySnapshot) -> Seq<SpanModel> {
    let cap = or_zero(b.capacity_pct);
    let style = in_color(battery_hue(b.status@, cap));
    seq![
        faint("电池 "@),
        parts(seq![PieceModel::Bar { percent: Number::Real(cap), width: 10 }], style),
        parts(
            seq![
                PieceModel::Text(" "@),
                figure(Number::Real(cap), 0, ""@, 2),
                PieceModel::Text("%"@),
            ],
            style,
        ),
        styled(" "@ + battery_state(b.status@), style),
    ]
}

pub open spec fn flow_line(b: BatterySnapshot) -> Seq<SpanModel> {
    seq![faint("      "@)] + match b.volts {
        Some(v) => seq![parts(seq![figure(Number::Real(v), 2, "V "@, 0)], no_style())],
        None => Seq::empty(),
    } + match b.amps {
        Some(a) => seq![parts(seq![figure(Number::Real(a), 2, "A "@, 0)], no_style())],
        None => Seq::empty(),
    } + match b.watts {
        Some(w) => seq![
            parts(
                seq![figure(Number::Real(w.unsigned()), 1, "W "@, 0)],
                in_color(reading_hue(Unit::Watts, w.unsigned())),
            ),
        ],
        None => Seq::empty(),
    } + match (b.energy_now_wh, b.energy_full_wh) {
        (Some(now), Some(full)) => seq![
            parts(
                seq![
                    figure(Number::Real(now), 1, ""@, 0),
                    PieceModel::Text("/"@),
                    figure(Number::Real(full), 1, "Wh"@, 0),
                ],
                in_color(Color::DarkGray),
            ),
        ],
        _ => Seq::empty(),
    }
}

pub open spec fn wear_line(b: BatterySnapshot) -> Seq<SpanModel> {
    seq![faint("      "@)] + match b.health_pct {
        Some(h) => seq![
            faint("健康 "@),
            parts(
                seq![figure(Number::Real(h), 0, "%"@, 0)],
                in_color(
                    if h.below(80) {
                        Color::Yellow
                    } else {
                        Color::Green
                    },
                ),
            ),
        ],
        None => Seq::empty(),
    } + match b.runtime_min {
        Some(m) => seq![
            faint("  续航 ~"@ + dec((m / 60) as nat) + "h"@ + dec2((m % 60) as nat) + "m"@),
        ],
        None => Seq::empty(),
    }
}

/// The lines of the battery; the last one only where there is something on it.
pub open spec fn battery_lines(b: Option<BatterySnapshot>) -> Seq<Seq<SpanModel>> {
    match b {
        Some(b) => if b.health_pct is Some || b.runtime_min is Some {
            seq![charge_line(b), flow_line(b), wear_line(b)]
        } else {
            seq![charge_line(b), flow_line(b)]
        },
        None => Seq::empty(),
    }
}

pub open spec fn supply_lines(ac_online: Option<bool>) -> Seq<Seq<SpanModel>> {
    match ac_online {
        Some(true) => seq![seq![faint("外接电源 "@), styled("在线"@, in_color(Color::Green))]],
        Some(false) => seq![seq![faint("外接电源 "@), styled("离线"@, in_color(Color::DarkGray))]],
        None => Seq::empty(),
    }
}

pub open spec fn governor_lines(c: CpuSnapshot) -> Seq<Seq<SpanModel>> {
    if c.governor@.len() == 0 {
        Seq::empty()
    } else if c.epp@.len() == 0 {
        seq![seq![faint("调速 "@), raw(c.governor@)]]
    } else {
        seq![seq![faint("调速 "@), raw(c.governor@), faint(" · "@ + c.epp@)]]
    }
}

/// The lines of the panel of the system.
pub open spec fn system_lines(s: Snapshot, n: Computed) -> Seq<Seq<SpanModel>> {
    seq![usage_line(s.cpu, n.avg_mhz)] + power_lines(s.cpu) + seq![
        mem_line(s.mem, n.mem_pct),
        swap_line(s.mem),
    ] + vram_lines(s.vram) + battery_lines(s.battery) + supply_lines(s.ac_online) + governor_lines(
        s.cpu,
    )
}

fn write_usage(c: &CpuSnapshot, avg_mhz: Double) -> (r: Line)
    ensures
        r@ == usage_line(*c, avg_mhz),
{
    let l = Line {
        spans: vec![
            dim("总占用 "),
            span(
                vec![write_figure(Number::Real(c.total_pct), 1, "", 5), text("%")],
                colored(usage_color(c.total_pct)),
            ),
            span(
                vec![text("  均 "), write_figure(Number::Real(avg_mhz), 0, "MHz", 0)],
                colored(Color::DarkGray),
            ),
        ],
    };
    assert(l@ =~~= usage_line(*c, avg_mhz));
    l
}

fn add_power(out: &mut Vec<Line>, c: &CpuSnapshot)
    ensures
        views(final(out)@) == views(old(out)@) + power_lines(*c),
{
    let ghost start = views(out@);
    if let Some(w) = c.pkg_w {
        let l = Line {
            spans: vec![
                dim("CPU功耗 "),
                span(
                    vec![write_figure(Number::Real(w), 2, " W", 0)],
                    colored(reading_color(Unit::Watts, w)),
                ),
            ],
        };
        assert(l@ =~~= power_lines(*c)[0]);
        put(out, l);
    }
    assert(views(out@) =~= start + power_lines(*c));
}

fn write_mem(m: &MemSnapshot, mem_pct: Double) -> (r: Line)
    ensures
        r@ == mem_line(*m, mem_pct),
{
    let used = m.used();
    let share = Number::Percent { part: used, whole: m.total_kib };
    let l = Line {
        spans: vec![
            dim("内存 "),
            span(vec![Piece::Bar { percent: share, width: 12 }], colored(usage_color(mem_pct))),
            span(vec![text(" "), write_figure(share, 0, "", 4), text("% ")], unstyled()),
            span(
                vec![write_gib(used), text("/"), write_gib(m.total_kib), text("G")],
                colored(Color::DarkGray),
            ),
        ],
    };
    assert(l@ =~~= mem_line(*m, mem_pct));
    l
}

fn write_swap(m: &MemSnapshot) -> (r: Line)
    ensures
        r@ == swap_line(*m),
{
    let used = m.swap_used();
    let l = Line {
        spans: vec![
            dim("Swap "),
            span(
                vec![
                    Piece::Bar {
                        percent: Number::Percent { part: used, whole: m.swap_total_kib },
                        width: 12,
                    },
                ],
                colored(Color::DarkGray),
            ),
            span(
                vec![text(" "), write_gib(used), text("/"), write_gib(m.swap_total_kib), text("G")],
                colored(Color::DarkGray),
            ),
        ],
    };
    assert(l@ =~~= swap_line(*m));
    l
}

fn add_vram(out: &mut Vec<Line>, v: &Option<VramSnapshot>)
    ensures
        views(final(out)@) == views(old(out)@) + vram_lines(*v),
{
    let ghost start = views(out@);
    if let Some(m) = v {
        let mut spans = vec![
            dim("VRAM "),
            span(
                vec![
                    write_figure(Number::Real(m.used_mib), 0, "", 0),
                    text("/"),
                    write_figure(Number::Real(m.total_mib), 0, "", 0),
                    text("M"),
                ],
                unstyled(),
            ),
        ];
        if let Some(g) = m.gtt_used_mib {
            spans.push(
                span(
                    vec![text("  GTT "), write_figure(Number::Real(g), 0, "M", 0)],
                    colored(Color::DarkGray),
                ),
            );
        }
        let l = Line { spans };
        assert(l@ =~~= vram_lines(*v)[0]);
        put(out, l);
    }
    assert(views(out@) =~= start + vram_lines(*v));
}

fn battery_color(status: &str, cap: Double) -> (r: Color)
    ensures
        r == battery_hue(status@, cap),
{
    let t = chars(status);
    if spells(t.as_slice(), "Charging") || spells(t.as_slice(), "Full") {
        Color::Green
    } else if spells(t.as_slice(), "Discharging") {
        if cap.lt_whole(20) {
            Color::Red
        } else {
            Color::Yellow
        }
    } else {
        Color::DarkGray
    }
}

fn write_charge(b: &BatterySnapshot) -> (r: Line)
    ensures
        r@ == charge_line(*b),
{
    let cap = match b.capacity_pct {
        Some(v) => v,
        None => Double { bits: 0 },
    };
    let style = colored(battery_color(b.status.as_str(), cap));
    let l = Line {
        spans: vec![
            dim("电池 "),
            span(vec![Piece::Bar { percent: Number::Real(cap), width: 10 }], style),
            span(vec![text(" "), write_figure(Number::Real(cap), 0, "", 2), text("%")], style),
            text_span(owned(" ").concat(batt_status_zh(b.status.as_str())), style),
        ],
    };
    assert(l@ =~~= charge_line(*b));
    l
}

fn write_flow(b: &BatterySnapshot) -> (r: Line)
    ensures
        r@ == flow_line(*b),
{
    let mut spans = vec![dim("      ")];
    if let Some(v) = b.volts {
        spans.push(span(vec![write_figure(Number::Real(v), 2, "V ", 0)], unstyled()));
    }
    if let Some(a) = b.amps {
        spans.push(span(vec![write_figure(Number::Real(a), 2, "A ", 0)], unstyled()));
    }
    if let Some(w) = b.watts {
        spans.push(
            span(
                vec![write_figure(Number::Real(w.abs()), 1, "W ", 0)],
                colored(reading_color(Unit::Watts, w.abs())),
            ),
        );
    }
    match (b.energy_now_wh, b.energy_full_wh) {
        (Some(now), Some(full)) => {
            spans.push(
                span(
                    vec![
                        write_figure(Number::Real(now), 1, "", 0),
                        text("/"),
                        write_figure(Number::Real(full), 1, "Wh", 0),
                    ],
                    colored(Color::DarkGray),
                ),
            );
        },
        _ => {},
    }
    let l = Line { spans };
    assert(l@ =~~= flow_line(*b));
    l
}

fn write_wear(b: &BatterySnapshot) -> (r: Line)
    ensures
        r@ == wear_line(*b),
{
    let mut spans = vec![dim("      ")];
    if let Some(h) = b.health_pct {
        spans.push(dim("健康 "));
        spans.push(
            span(
                vec![write_figure(Number::Real(h), 0, "%", 0)],
                colored(
                    if h.lt_whole(80) {
                        Color::Yellow
                    } else {
                        Color::Green
                    },
                ),
            ),
        );
    }
    if let Some(m) = b.runtime_min {
        spans.push(
            dim(
                owned("  续航 ~").concat(dec_text(m / 60).as_str()).concat("h").concat(
                    dec2_text(m % 60).as_str(),
                ).concat("m").as_str(),
            ),
        );
    }
    let l = Line { spans };
    assert(l@ =~~= wear_line(*b));
    l
}

fn add_battery(out: &mut Vec<Line>, b: &Option<BatterySnapshot>)
    ensures
        views(final(out)@) == views(old(out)@) + battery_lines(*b),
{
    let ghost start = views(out@);
    if let Some(b) = b {
        put(out, write_charge(b));
        put(out, write_flow(b));
        if b.health_pct.is_some() || b.runtime_min.is_some() {
            put(out, write_wear(b));
        }
    }
    assert(views(out@) =~= start + battery_lines(*b));
}

fn add_supply(out: &mut Vec<Line>, ac_online: Option<bool>)
    ensures
        views(final(out)@) == views(old(out)@) + supply_lines(ac_online),
{
    let ghost start = views(out@);
    if let Some(online) = ac_online {
        let state = if online {
            text_span(owned("在线"), colored(Color::Green))
        } else {
            text_span(owned("离线"), colored(Color::DarkGray))
        };
        let l = Line { spans: vec![dim("外接电源 "), state] };
        assert(l@ =~~= supply_lines(ac_online)[0]);
        put(out, l);
    }
    assert(views(out@) =~= start + supply_lines(ac_online));
}

fn add_governor(out: &mut Vec<Line>, c: &CpuSnapshot)
    ensures
        views(final(out)@) == views(old(out)@) + governor_lines(*c),
{
    let ghost start = views(out@);
    let governor = chars(c.governor.as_str());
    if governor.len() > 0 {
        let mut spans = vec![dim("调速 "), raw_span(c.governor.as_str())];
        if chars(c.epp.as_str()).len() > 0 {
            spans.push(dim(owned(" · ").concat(c.epp.as_str()).as_str()));
        }
        let l = Line { spans };
        assert(l@ =~~= governor_lines(*c)[0]);
        put(out, l);
    }
    assert(views(out@) =~= start + governor_lines(*c));
}

/// The panel of the system: its title and its lines.
pub fn draw_system(s: &Snapshot, n: Computed) -> (r: (Span, Lines))
    ensures
        r.0@ == panel_title(plain("系统"@)),
        r.1@ == system_lines(*s, n),
{
    let title = vec![text("系统")];
    assert(views(title@) =~= plain("系统"@));
    let mut lines: Vec<Line> = Vec::new();
    put(&mut lines, write_usage(&s.cpu, n.avg_mhz));
    assert(views(lines@) =~= seq![usage_line(s.cpu, n.avg_mhz)]);
    add_power(&mut lines, &s.cpu);
    let ghost before = views(lines@);
    put(&mut lines, write_mem(&s.mem, n.mem_pct));
    put(&mut lines, write_swap(&s.mem));
    assert(views(lines@) =~= before + seq![mem_line(s.mem, n.mem_pct), swap_line(s.mem)]);
    add_vram(&mut lines, &s.vram);
    add_battery(&mut lines, &s.battery);
    add_supply(&mut lines, s.ac_online);
    add_governor(&mut lines, &s.cpu);
    (panel(title), Lines { lines })
}

// ---------- the footer ----------

pub open spec fn key_cap(t: Seq<char>) -> SpanModel {
    styled(" "@ + t + " "@, on_color(Color::Black, Color::DarkGray))
}

pub open spec fn footer(paused: bool, interval: Double, log_path: Option<Seq<char>>) -> Seq<SpanModel> {
    seq![
        key_cap("q 退出"@),
        raw(" "@),
        key_cap("空格 暂停"@),
        raw(" "@),
        key_cap("l CSV"@),
        raw(" "@),
        key_cap("+/- 间隔"@),
        raw("  "@),
        parts(
            seq![PieceModel::Text("采样 "@), figure(Number::Real(interval), 1, "s "@, 0)],
            in_color(Color::DarkGray),
        ),
    ] + (if paused {
        seq![styled(" ‖ 已暂停 "@, on_color(Color::Black, Color::Yellow))]
    } else {
        Seq::empty()
    }) + match log_path {
        Some(p) => seq![styled(" ● "@ + p + " "@, on_color(Color::Black, Color::Green))],
        None => Seq::empty(),
    }
}

fn key(t: &str) -> (r: Span)
    ensures
        r@ == key_cap(t@),
{
    text_span(owned(" ").concat(t).concat(" "), colored_on(Color::Black, Color::DarkGray))
}

pub fn draw_footer(paused: bool, interval: Double, log_path: Option<&str>) -> (r: Line)
    ensures
        r@ == footer(paused, interval, seen(log_path)),
{
    let mut spans = vec![
        key("q 退出"),
        raw_span(" "),
        key("空格 暂停"),
        raw_span(" "),
        key("l CSV"),
        raw_span(" "),
        key("+/- 间隔"),
        raw_span("  "),
        span(
            vec![text("采样 "), write_figure(Number::Real(interval), 1, "s ", 0)],
            colored(Color::DarkGray),
        ),
    ];
    if paused {
        spans.push(text_span(owned(" ‖ 已暂停 "), colored_on(Color::Black, Color::Yellow)));
    }
    if let Some(p) = log_path {
        spans.push(
            text_span(
                owned(" ● ").concat(p).concat(" "),
                colored_on(Color::Black, Color::Green),
            ),
        );
    }
    let l = Line { spans };
    assert(l@ =~~= footer(paused, interval, seen(log_path)));
    l
}

// ---------- the whole ----------

/// How much of a space a part of it gets.
#[derive(Clone, Copy, Debug, PartialEq, Eq, Structural)]
pub enum Limit {
    Length(u16),
    Min(u16),
    Percentage(u16),
    Ratio(u32, u32),
}

/// The rows of the screen: the header, the threads and the system, the sensors,
/// the charts, and the footer.
pub fn screen_rows() -> (r: Vec<Limit>)
    ensures
        r@ == seq![
            Limit::Length(1),
            Limit::Length(13),
            Limit::Min(4),
            Limit::Length(5),
            Limit::Length(1),
        ],
{
    let r = vec![
        Limit::Length(1),
        Limit::Length(13),
        Limit::Min(4),
        Limit::Length(5),
        Limit::Length(1),
    ];
    assert(r@ =~= seq![
        Limit::Length(1),
        Limit::Length(13),
        Limit::Min(4),
        Limit::Length(5),
        Limit::Length(1),
    ]);
    r
}

/// The columns of the second row: the threads, and the system.
pub fn top_columns() -> (r: Vec<Limit>)
    ensures
        r@ == seq![Limit::Percentage(58), Limit::Percentage(42)],
{
    let r = vec![Limit::Percentage(58), Limit::Percentage(42)];
    assert(r@ =~= seq![Limit::Percentage(58), Limit::Percentage(42)]);
    r
}

/// The columns of the threads.
pub fn thread_columns() -> (r: Vec<Limit>)
    ensures
        r@ == seq![Limit::Percentage(50), Limit::Percentage(50)],
{
    let r = vec![Limit::Percentage(50), Limit::Percentage(50)];
    assert(r@ =~= seq![Limit::Percentage(50), Limit::Percentage(50)]);
    r
}

/// So many columns of the same width.
pub fn equal_columns(n: u32) -> (r: Vec<Limit>)
    ensures
        r@ == Seq::new(n as nat, |i: int| Limit::Ratio(1, n)),
{
    let mut r: Vec<Limit> = Vec::new();
    let mut i: u32 = 0;
    while i < n
        invariant
            i <= n,
            r@ =~= Seq::new(i as nat, |j: int| Limit::Ratio(1, n)),
        decreases n - i,
    {
        r.push(Limit::Ratio(1, n));
        i = i + 1;
    }
    r
}

/// All that is on the screen.
pub struct Screen {
    pub header: Line,
    pub cpu_title: Span,
    pub threads: (Lines, Lines),
    pub system_title: Span,
    pub system: Lines,
    pub sensors_title: Span,
    pub sensors: Vec<Lines>,
    pub charts: (Chart, Chart, Chart),
    pub footer: Line,
}

/// Whether a chart shows the values.
pub open spec fn charts_as(
    c: Chart,
    data: Seq<u64>,
    color: Color,
    name: Seq<char>,
    unit: Seq<char>,
) -> bool {
    &&& c.data@ == data
    &&& c.color == color
    &&& c.title@ == panel_title(chart_title(name, unit, data))
}

/// The three charts of the history.
pub open spec fn charts_of(c: (Chart, Chart, Chart), h: HistoryModel) -> bool {
    &&& charts_as(c.0, h.tctl, Color::Red, "CPU 温度"@, "°C"@)
    &&& charts_as(c.1, h.power, Color::Cyan, "功率"@, "W"@)
    &&& charts_as(c.2, h.mem, Color::Green, "内存"@, "%"@)
}

pub fn draw(
    s: &Snapshot,
    hist: &History,
    n: Computed,
    paused: bool,
    interval: Double,
    log_path: Option<&str>,
) -> (r: Screen)
    requires
        s.time.wf(),
    ensures
        r.header@ == header(*s, time_of_day(s.time.secs, s.time.nanos)),
        r.cpu_title@ == panel_title(plain("CPU · "@ + shortened(s.cpu.model@, 48))),
        r.threads.0@ == thread_lines(s.cpu, 0, half(s.cpu.per_mhz@.len() as int)),
        r.threads.1@ == thread_lines(
            s.cpu,
            half(s.cpu.per_mhz@.len() as int),
            s.cpu.per_mhz@.len() as int,
        ),
        r.system_title@ == panel_title(plain("系统"@)),
        r.system@ == system_lines(*s, n),
        r.sensors_title@ == panel_title(plain("传感器 · "@ + dec(s.chips@.len()) + " 芯片"@)),
        views(r.sensors@) == sensor_columns(views(s.chips@)),
        charts_as(r.charts.0, hist.tctl@, Color::Red, "CPU 温度"@, "°C"@),
        charts_as(r.charts.1, hist.power@, Color::Cyan, "功率"@, "W"@),
        charts_as(r.charts.2, hist.mem@, Color::Green, "内存"@, "%"@),
        charts_of(r.charts, hist@),
        r.footer@ == footer(paused, interval, seen(log_path)),
{
    let (cpu_title, left, right) = draw_threads(&s.cpu);
    let (system_title, system) = draw_system(s, n);
    let (sensors_title, sensors) = draw_sensors(&s.chips);
    Screen {
        header: draw_header(s),
        cpu_title,
        threads: (left, right),
        system_title,
        system,
        sensors_title,
        sensors,
        charts: (
            chart(&hist.tctl, Color::Red, "CPU 温度", "°C"),
            chart(&hist.power, Color::Cyan, "功率", "W"),
            chart(&hist.mem, Color::Green, "内存", "%"),
        ),
        footer: draw_footer(paused, interval, log_path),
    }
}

} // verus!
