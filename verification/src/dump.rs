//! A snapshot as text, line by line.
use vstd::prelude::*;

use crate::clock::TimeFormat;
use crate::double::Double;
use crate::lists::{joined, lemma_joined_step, lemma_take_all, put, views};
use crate::model::{
    unit_decimals, unit_sign, BatterySnapshot, Chip, ChipModel, Number, ReadingModel, Snapshot,
    VramSnapshot,
};
use crate::numbers::{dec, dec2, dec2_text, dec_text, left, pad_right};
use crate::output::{plain, text, text_row, Piece, PieceModel, Row};
use crate::screen::{
    batt_status_zh, battery_state, figure, fmt_uptime, gib, or_zero, uptime_text, write_figure,
    write_gib,
};
use crate::text::owned;

verus! {

pub open spec fn host_row(s: Snapshot) -> Seq<PieceModel> {
    seq![
        PieceModel::Text(
            "主机 "@ + s.hostname@ + "  内核 "@ + s.kernel@ + "  运行 "@ + uptime_text(
                s.uptime_s.cut_off(),
            ) + "  负载 "@,
        ),
        figure(Number::Real(s.load@[0]), 2, " "@, 0),
        figure(Number::Real(s.load@[1]), 2, " "@, 0),
        figure(Number::Real(s.load@[2]), 2, ""@, 0),
    ]
}

/// A figure that may be missing, with a text in front of it.
pub open spec fn maybe_figure(
    front: Seq<char>,
    v: Option<Double>,
    decimals: u8,
    unit: Seq<char>,
) -> Seq<PieceModel> {
    match v {
        Some(v) => seq![PieceModel::Text(front), figure(Number::Real(v), decimals, unit, 0)],
        None => Seq::empty(),
    }
}

pub open spec fn cpu_row(s: Snapshot, avg_mhz: Double) -> Seq<PieceModel> {
    seq![
        PieceModel::Text(
            "CPU "@ + s.cpu.model@ + "  "@ + dec(s.cpu.per_mhz@.len()) + "线程  占用 "@,
        ),
        figure(Number::Real(s.cpu.total_pct), 1, "%  均 "@, 0),
        figure(Number::Real(avg_mhz), 0, "MHz"@, 0),
    ] + maybe_figure("  Package "@, s.cpu.pkg_w, 2, "W"@)
}

pub open spec fn memory_row(s: Snapshot) -> Seq<PieceModel> {
    seq![
        PieceModel::Text("内存 "@),
        gib(s.mem.in_use()),
        PieceModel::Text("/"@),
        gib(s.mem.total_kib),
        PieceModel::Text(" GiB  Swap "@),
        gib(s.mem.swapped()),
        PieceModel::Text("/"@),
        gib(s.mem.swap_total_kib),
        PieceModel::Text(" GiB"@),
    ]
}

pub open spec fn battery_rows(b: Option<BatterySnapshot>) -> Seq<Seq<PieceModel>> {
    match b {
        Some(b) => seq![
            seq![
                PieceModel::Text("电池 "@ + battery_state(b.status@) + " "@),
                figure(Number::Real(or_zero(b.capacity_pct)), 0, "%"@, 0),
            ] + maybe_figure(" "@, b.volts, 2, "V"@) + maybe_figure(" "@, b.amps, 2, "A"@)
                + maybe_figure(" "@, b.watts, 1, "W"@) + (match b.cycles {
                Some(c) => plain(" (循环 "@ + dec(c as nat) + ")"@),
                None => Seq::empty(),
            }) + maybe_figure(" 健康"@, b.health_pct, 0, "%"@) + match b.runtime_min {
                Some(m) => plain(
                    " 续航~"@ + dec((m / 60) as nat) + "h"@ + dec2((m % 60) as nat) + "m"@,
                ),
                None => Seq::empty(),
            },
        ],
        None => Seq::empty(),
    }
}

pub open spec fn vram_rows(v: Option<VramSnapshot>) -> Seq<Seq<PieceModel>> {
    match v {
        Some(v) => seq![
            seq![
                PieceModel::Text("VRAM "@),
                figure(Number::Real(v.used_mib), 0, "/"@, 0),
                figure(Number::Real(v.total_mib), 0, " MiB  GTT "@, 0),
                figure(Number::Real(or_zero(v.gtt_used_mib)), 0, " MiB"@, 0),
            ],
        ],
        None => Seq::empty(),
    }
}

pub open spec fn reading_pieces() -> spec_fn(ReadingModel<Double>) -> Seq<PieceModel> {
    |r: ReadingModel<Double>|
        seq![
            PieceModel::Text(" "@ + r.label + " "@),
            figure(Number::Real(r.value), unit_decimals(r.unit), unit_sign(r.unit), 0),
        ]
}

pub open spec fn chip_row(c: ChipModel<Double>) -> Seq<PieceModel> {
    plain("  "@ + left(c.name, 24)) + joined(c.readings, reading_pieces())
}

/// The lines of a snapshot, with its time as it is written.
pub open spec fn dump_rows(s: Snapshot, avg_mhz: Double, version: Seq<char>, time: Seq<char>) -> Seq<
    Seq<PieceModel>,
> {
    seq![
        plain("rustinfo v"@ + version + " — "@ + time),
        host_row(s),
        cpu_row(s, avg_mhz),
        memory_row(s),
    ] + battery_rows(s.battery) + vram_rows(s.vram) + seq![plain("传感器:"@)] + Seq::new(
        s.chips@.len(),
        |i: int| chip_row(s.chips@[i]@),
    )
}

fn add_figure(
    out: &mut Vec<Piece>,
    front: &str,
    v: Option<Double>,
    decimals: u8,
    unit: &'static str,
)
    ensures
        views(final(out)@) == views(old(out)@) + maybe_figure(front@, v, decimals, unit@),
{
    let ghost start = views(out@);
    if let Some(v) = v {
        put(out, text(front));
        put(out, write_figure(Number::Real(v), decimals, unit, 0));
    }
    assert(views(out@) =~= start + maybe_figure(front@, v, decimals, unit@));
}

fn zero_or(v: Option<Double>) -> (r: Double)
    ensures
        r == or_zero(v),
{
    match v {
        Some(v) => v,
        None => Double { bits: 0 },
    }
}

fn write_host(s: &Snapshot) -> (r: Row)
    ensures
        r@ == host_row(*s),
{
    let r = Row {
        pieces: vec![
            Piece::Text(
                owned("主机 ").concat(s.hostname.as_str()).concat("  内核 ").concat(
                    s.kernel.as_str(),
                ).concat("  运行 ").concat(fmt_uptime(s.uptime_s).as_str()).concat("  负载 "),
            ),
            write_figure(Number::Real(s.load[0]), 2, " ", 0),
            write_figure(Number::Real(s.load[1]), 2, " ", 0),
            write_figure(Number::Real(s.load[2]), 2, "", 0),
        ],
    };
    assert(r@ =~= host_row(*s));
    r
}

fn write_cpu(s: &Snapshot, avg_mhz: Double) -> (r: Row)
    ensures
        r@ == cpu_row(*s, avg_mhz),
{
    let mut pieces = vec![
        Piece::Text(
            owned("CPU ").concat(s.cpu.model.as_str()).concat("  ").concat(
                dec_text(s.cpu.per_mhz.len() as u64).as_str(),
            ).concat("线程  占用 "),
        ),
        write_figure(Number::Real(s.cpu.total_pct), 1, "%  均 ", 0),
        write_figure(Number::Real(avg_mhz), 0, "MHz", 0),
    ];
    let ghost start = views(pieces@);
    add_figure(&mut pieces, "  Package ", s.cpu.pkg_w, 2, "W");
    let r = Row { pieces };
    assert(start =~= seq![
        PieceModel::Text(
            "CPU "@ + s.cpu.model@ + "  "@ + dec(s.cpu.per_mhz@.len()) + "线程  占用 "@,
        ),
        figure(Number::Real(s.cpu.total_pct), 1, "%  均 "@, 0),
        figure(Number::Real(avg_mhz), 0, "MHz"@, 0),
    ]);
    r
}

fn write_memory(s: &Snapshot) -> (r: Row)
    ensures
        r@ == memory_row(*s),
{
    let r = Row {
        pieces: vec![
            text("内存 "),
            write_gib(s.mem.used()),
            text("/"),
            write_gib(s.mem.total_kib),
            text(" GiB  Swap "),
            write_gib(s.mem.swap_used()),
            text("/"),
            write_gib(s.mem.swap_total_kib),
            text(" GiB"),
        ],
    };
    assert(r@ =~= memory_row(*s));
    r
}

fn write_battery(b: &BatterySnapshot) -> (r: Row)
    ensures
        r@ == battery_rows(Some(*b))[0],
{
    let mut pieces = vec![
        Piece::Text(owned("电池 ").concat(batt_status_zh(b.status.as_str())).concat(" ")),
        write_figure(Number::Real(zero_or(b.capacity_pct)), 0, "%", 0),
    ];
    assert(views(pieces@) =~= seq![
        PieceModel::Text("电池 "@ + battery_state(b.status@) + " "@),
        figure(Number::Real(or_zero(b.capacity_pct)), 0, "%"@, 0),
    ]);
    add_figure(&mut pieces, " ", b.volts, 2, "V");
    add_figure(&mut pieces, " ", b.amps, 2, "A");
    add_figure(&mut pieces, " ", b.watts, 1, "W");
    if let Some(c) = b.cycles {
        put(
            &mut pieces,
            Piece::Text(owned(" (循环 ").concat(dec_text(c as u64).as_str()).concat(")")),
        );
    }
    add_figure(&mut pieces, " 健康", b.health_pct, 0, "%");
    if let Some(m) = b.runtime_min {
        put(
            &mut pieces,
            Piece::Text(
                owned(" 续航~").concat(dec_text(m / 60).as_str()).concat("h").concat(
                    dec2_text(m % 60).as_str(),
                ).concat("m"),
            ),
        );
    }
    let r = Row { pieces };
    assert(r@ =~= battery_rows(Some(*b))[0]);
    r
}

fn write_chip(c: &Chip<Double>) -> (r: Row)
    ensures
        r@ == chip_row(c@),
{
    let mut row = text_row(owned("  ").concat(pad_right(c.name.as_str(), 24).as_str()));
    let ghost head = row@;
    let ghost all = views(c.readings@);
    let mut i: usize = 0;
    while i < c.readings.len()
        invariant
            i <= c.readings.len(),
            all == views(c.readings@),
            row@ =~= head + joined(all.take(i as int), reading_pieces()),
        decreases c.readings.len() - i,
    {
        let r = &c.readings[i];
        assert(all[i as int] == r@);
        proof {
            lemma_joined_step(all, reading_pieces(), i as int);
        }
        let ghost so_far = row@;
        let (value, unit) = r.unit.format(r.value);
        put(
            &mut row.pieces,
            Piece::Text(owned(" ").concat(r.label.as_str()).concat(" ")),
        );
        put(&mut row.pieces, Piece::Number { value, unit, width: 0 });
        assert(row@ =~= so_far + reading_pieces()(r@));
        i = i + 1;
    }
    proof {
        lemma_take_all(all);
    }
    row
}

/// The lines of a snapshot whose time is written as `time`.
pub fn dump_at(s: &Snapshot, avg_mhz: Double, version: &str, time: &str) -> (r: Vec<Row>)
    ensures
        views(r@) == dump_rows(*s, avg_mhz, version@, time@),
{
    let mut out: Vec<Row> = Vec::new();
    put(
        &mut out,
        text_row(owned("rustinfo v").concat(version).concat(" — ").concat(time)),
    );
    put(&mut out, write_host(s));
    put(&mut out, write_cpu(s, avg_mhz));
    put(&mut out, write_memory(s));
    if let Some(b) = &s.battery {
        put(&mut out, write_battery(b));
    }
    if let Some(v) = &s.vram {
        let r = Row {
            pieces: vec![
                text("VRAM "),
                write_figure(Number::Real(v.used_mib), 0, "/", 0),
                write_figure(Number::Real(v.total_mib), 0, " MiB  GTT ", 0),
                write_figure(Number::Real(zero_or(v.gtt_used_mib)), 0, " MiB", 0),
            ],
        };
        assert(r@ =~= vram_rows(s.vram)[0]);
        put(&mut out, r);
    }
    put(&mut out, text_row(owned("传感器:")));
    let ghost head = views(out@);
    assert(head =~= seq![
        plain("rustinfo v"@ + version@ + " — "@ + time@),
        host_row(*s),
        cpu_row(*s, avg_mhz),
        memory_row(*s),
    ] + battery_rows(s.battery) + vram_rows(s.vram) + seq![plain("传感器:"@)]);
    let mut i: usize = 0;
    while i < s.chips.len()
        invariant
            i <= s.chips.len(),
            views(out@) =~= head + Seq::new(i as nat, |j: int| chip_row(s.chips@[j]@)),
        decreases s.chips.len() - i,
    {
        put(&mut out, write_chip(&s.chips[i]));
        i = i + 1;
    }
    out
}

/// The lines of a snapshot.
pub fn dump(s: &Snapshot, avg_mhz: Double, version: &str) -> (r: Vec<Row>)
    requires
        s.time.wf(),
    ensures
        views(r@) == dump_rows(*s, avg_mhz, version@, s.time.words(TimeFormat::Second)),
{
    dump_at(s, avg_mhz, version, s.time.write(TimeFormat::Second).as_str())
}

} // verus!
