use rustinfo::clock::TimeFormat;
use rustinfo::double::Double;
use rustinfo::dump::{dump, dump_at};
use rustinfo::history::{find_power, find_tctl, History, Scaled};
use rustinfo::logger::{flatten, flatten_at, sanitize, Logger};
use rustinfo::model::{
    BatterySnapshot, Chip, CpuSnapshot, MemSnapshot, Number, Reading, Snapshot, Stamp, Unit,
    VramSnapshot,
};
use rustinfo::output::{Piece, Row};
use rustinfo::screen::{
    bar8, batt_status_zh, draw, draw_footer, draw_header, draw_system, draw_threads, equal_columns,
    fmt_uptime, header_at, screen_rows, thread_columns, top_columns, truncate, Computed, Limit,
};
use rustinfo::sensors::{chip_lines, core_triplet, draw_sensors, Lines};
use rustinfo::style::{reading_color, temp_color, usage_color, Color, Line};
use rustinfo::text::chars;

fn d(v: f64) -> Double {
    Double { bits: v.to_bits() }
}

fn number(n: &Number) -> f64 {
    match n {
        Number::Real(v) => f64::from_bits(v.bits),
        Number::Quotient { n, d } => *n as f64 / *d as f64,
        Number::Percent { part, whole } => {
            if *whole > 0 {
                *part as f64 / *whole as f64 * 100.0
            } else {
                0.0
            }
        }
    }
}

fn piece(p: &Piece) -> String {
    match p {
        Piece::Text(s) => s.clone(),
        Piece::Number { value, unit, width } => {
            let s = format!("{:.1$}{unit}", number(&value.value), value.decimals as usize);
            format!("{s:>0$}", *width)
        }
        Piece::Single { bits, .. } => format!("{}", f32::from_bits(*bits)),
        Piece::Bar { percent, width } => {
            bar8((number(percent) / 100.0 * *width as f64 * 8.0).round() as usize, *width)
        }
    }
}

fn row(r: &Row) -> String {
    r.pieces.iter().map(piece).collect()
}

fn line(l: &Line) -> String {
    l.spans.iter().flat_map(|s| s.pieces.iter()).map(piece).collect()
}

fn lines(l: &Lines) -> Vec<String> {
    l.lines.iter().map(line).collect()
}

fn reading(label: &str, value: f64, unit: Unit) -> Reading<Double> {
    Reading { label: label.into(), value: d(value), unit }
}

fn chip(name: &str, readings: Vec<Reading<Double>>) -> Chip<Double> {
    Chip { name: name.into(), readings }
}

fn battery() -> BatterySnapshot {
    BatterySnapshot {
        status: "Discharging".into(),
        capacity_pct: Some(d(87.0)),
        volts: Some(d(12.345)),
        amps: Some(d(1.5)),
        watts: Some(d(-18.51)),
        cycles: Some(42),
        energy_now_wh: Some(d(36.04)),
        energy_full_wh: Some(d(48.0)),
        health_pct: Some(d(79.6)),
        runtime_min: Some(125),
    }
}

fn snapshot() -> Snapshot {
    Snapshot {
        time: Stamp { secs: 1_700_000_000, nanos: 123_456_789 },
        hostname: "box".into(),
        kernel: "7.2.3".into(),
        uptime_s: d(93784.9),
        load: [d(0.5), d(1.25), d(2.0)],
        cpu: CpuSnapshot {
            model: "AMD Ryzen AI 9 365".into(),
            total_pct: d(12.345),
            per_pct: vec![d(50.0), d(100.0)],
            per_mhz: vec![d(1500.4), d(4000.0), d(600.0)],
            pkg_w: Some(d(15.5)),
            governor: "powersave".into(),
            epp: "balance_power".into(),
        },
        mem: MemSnapshot {
            total_kib: 4 * 1048576,
            avail_kib: 3 * 1048576,
            swap_total_kib: 2 * 1048576,
            swap_free_kib: 1048576,
        },
        battery: Some(battery()),
        ac_online: Some(false),
        vram: Some(VramSnapshot {
            used_mib: d(123.4),
            total_mib: d(512.0),
            gtt_used_mib: Some(d(64.0)),
        }),
        chips: vec![
            chip("k10temp", vec![reading("Tctl", 45.25, Unit::TempC)]),
            chip("nvme0n1 IO", vec![reading("read", 1.5, Unit::RateMBs)]),
        ],
    }
}

const COMPUTED: Computed =
    Computed { avg_mhz: Double { bits: 0x409F_C666_6666_6666 }, mem_pct: Double { bits: 0x4039_0000_0000_0000 } };

// ---------- times ----------

#[test]
fn moments_have_their_range() {
    let at = |secs: i64, nanos: u32| Stamp::new(secs, nanos).map(|t| (t.secs, t.nanos));
    assert_eq!(at(5, 999_999_999), Some((5, 999_999_999)));
    assert_eq!(at(5, 1_000_000_000), None);
    assert_eq!(at(59, 1_999_999_999), Some((59, 1_999_999_999)));
    assert_eq!(at(59, 2_000_000_000), None);
    assert_eq!(at(-1, 1_500_000_000), Some((-1, 1_500_000_000)));
    assert_eq!(at(-61, 1_500_000_000), Some((-61, 1_500_000_000)));
    assert_eq!(at(-60, 1_500_000_000), None);
    assert_eq!(at(8_210_266_876_800, 0), None);
    for secs in [-8_334_601_228_800, 8_210_266_876_799] {
        assert_eq!(at(secs, 0), Some((secs, 0)));
        assert!(!Stamp::new(secs, 0).unwrap().write(TimeFormat::Row).is_empty());
    }
    assert_eq!(at(-8_334_601_228_801, 0), None);
}

#[test]
fn moments_are_written_by_their_patterns() {
    let t = Stamp { secs: 1_700_000_000, nanos: 123_456_789 };
    assert_eq!(t.write(TimeFormat::Row), "2023-11-14 22:13:20.123");
    assert_eq!(t.write(TimeFormat::Second), "2023-11-14 22:13:20");
    assert_eq!(t.write(TimeFormat::Clock), "22:13:20");
    assert_eq!(t.write(TimeFormat::File), "20231114_221320");
    let before = Stamp { secs: -1, nanos: 0 };
    assert_eq!(before.write(TimeFormat::Second), "1969-12-31 23:59:59");
    let leap = Stamp { secs: 59, nanos: 1_500_000_000 };
    assert_eq!(leap.write(TimeFormat::Row), "1970-01-01 00:00:60.500");
    assert_eq!(leap.write(TimeFormat::Clock), "00:00:60");
}

#[test]
fn the_first_and_the_last_moment_can_be_told() {
    let first = Stamp { secs: -8_334_601_228_800, nanos: 0 };
    assert_eq!(first.write(TimeFormat::Second), "-262143-01-01 00:00:00");
    let last = Stamp { secs: 8_210_266_876_799, nanos: 999_999_999 };
    assert_eq!(last.write(TimeFormat::Second), "+262142-12-31 23:59:59");
}

// ---------- the log ----------

#[test]
fn names_are_made_plain() {
    assert_eq!(sanitize("nvme0n1 IO"), "nvme0n1_IO");
    assert_eq!(sanitize("a,b\"c\nd.é"), "a_b_c_d__");
    assert_eq!(sanitize(""), "");
}

#[test]
fn a_snapshot_has_its_columns() {
    let columns = flatten_at(&snapshot(), "now".into());
    let shown: Vec<(String, String)> =
        columns.iter().map(|c| (c.name.clone(), piece(&c.cell))).collect();
    let expected = [
        ("ts", "now"),
        ("cpu_total_pct", "12.35"),
        ("cpu_pkg_w", "15.500"),
        ("t00_pct", "50.00"),
        ("t01_pct", "100.00"),
        ("t00_mhz", "1500"),
        ("t01_mhz", "4000"),
        ("t02_mhz", "600"),
        ("mem_used_pct", "25.00"),
        ("mem_used_mib", "1024.0"),
        ("swap_used_mib", "1024.0"),
        ("load1", "0.500"),
        ("batt_pct", "87"),
        ("batt_v", "12.345"),
        ("batt_a", "1.500"),
        ("batt_w", "-18.510"),
        ("batt_health_pct", "79.6"),
        ("batt_runtime_min", "125"),
        ("vram_used_mib", "123"),
        ("vram_total_mib", "512"),
        ("k10temp.Tctl_C", "45.250"),
        ("nvme0n1_IO.read_MiBps", "1.500"),
    ];
    let expected: Vec<(String, String)> = expected
        .iter()
        .map(|(a, b)| (a.to_string(), if *a == "cpu_total_pct" { format!("{:.2}", 12.345) } else { b.to_string() }))
        .collect();
    assert_eq!(shown, expected);
    assert_eq!(piece(&flatten(&snapshot())[0].cell), "2023-11-14 22:13:20.123");
}

#[test]
fn what_is_missing_has_no_column() {
    let mut s = snapshot();
    s.cpu.pkg_w = None;
    s.battery = None;
    s.vram = None;
    s.chips.clear();
    s.mem.total_kib = 0;
    let columns = flatten_at(&s, "now".into());
    let names: Vec<&str> = columns.iter().map(|c| c.name.as_str()).collect();
    assert_eq!(
        names,
        vec![
            "ts", "cpu_total_pct", "t00_pct", "t01_pct", "t00_mhz", "t01_mhz", "t02_mhz",
            "mem_used_pct", "mem_used_mib", "swap_used_mib", "load1",
        ]
    );
    assert_eq!(piece(&columns[7].cell), "0.00");
}

#[test]
fn a_log_keeps_its_columns() {
    let s = snapshot();
    let now = Stamp { secs: 1_700_000_005, nanos: 0 };
    let log = Logger::create(&s, None, now);
    assert_eq!(log.path(), "rustinfo_20231114_221325.csv");
    assert_eq!(Logger::create(&s, Some("soak.csv"), now).path(), "soak.csv");
    let header = log.header_line();
    assert!(header.starts_with("ts,cpu_total_pct,cpu_pkg_w,t00_pct,"));
    assert!(header.ends_with(",k10temp.Tctl_C,nvme0n1_IO.read_MiBps"));
    let first = row(&log.write(&s));
    assert!(first.starts_with("2023-11-14 22:13:20.123,"));
    assert!(first.ends_with(",123,512,45.250,1.500"));
    assert_eq!(first.split(',').count(), header.split(',').count());
    let names: Vec<String> = flatten(&s).into_iter().map(|c| c.name).collect();
    assert_eq!(header.split(',').collect::<Vec<_>>(), names);
    let cells: Vec<String> = flatten(&s).iter().map(|c| piece(&c.cell)).collect();
    assert_eq!(first.split(',').collect::<Vec<_>>(), cells);
    // a chip that is gone leaves its cell empty, and a new one is left out
    let mut later = snapshot();
    later.chips[0].name = "zenpower".into();
    let second = row(&log.write(&later));
    assert!(second.ends_with(",123,512,,1.500"));
    assert_eq!(second.split(',').count(), header.split(',').count());
}

#[test]
fn columns_that_share_a_name_keep_their_values() {
    let mut s = snapshot();
    s.chips = vec![
        chip("nvme", vec![reading("Composite", 40.0, Unit::TempC)]),
        chip("nvme", vec![reading("Composite", 50.0, Unit::TempC)]),
    ];
    let log = Logger::create(&s, Some("p"), s.time);
    assert!(log.header_line().ends_with(",nvme.Composite_C,nvme.Composite_C"));
    assert!(row(&log.write(&s)).ends_with(",40.000,50.000"));
    // one drive is gone, and the second of two columns has nothing to hold
    s.chips.pop();
    assert!(row(&log.write(&s)).ends_with(",40.000,"));
    // a third one has no column
    s.chips = vec![
        chip("nvme", vec![reading("Composite", 1.0, Unit::TempC)]),
        chip("a b", vec![reading("x", 9.0, Unit::Watts)]),
        chip("nvme", vec![
            reading("Composite", 2.0, Unit::TempC),
            reading("Composite", 3.0, Unit::TempC),
        ]),
    ];
    assert!(row(&log.write(&s)).ends_with(",1.000,2.000"));
    // names that are the same once they are written down
    s.chips = vec![
        chip("a b", vec![reading("x", 1.0, Unit::Watts)]),
        chip("a_b", vec![reading("x", 2.0, Unit::Watts)]),
    ];
    let columns = flatten_at(&s, "t".into());
    let log = Logger::create_with(&columns, Some("p"), "");
    assert!(log.header_line().ends_with("a_b.x_W,a_b.x_W"));
    assert!(row(&log.write_columns(&columns)).ends_with(",1.000,2.000"));
}

#[test]
fn snapshots_with_the_same_values_have_the_same_columns() {
    let a = snapshot();
    let mut b = snapshot();
    b.time.secs += 1;
    b.cpu.total_pct = d(99.0);
    b.cpu.pkg_w = Some(d(1.0));
    b.chips[0].readings[0].value = d(50.0);
    let names = |s: &Snapshot| -> Vec<String> { flatten(s).into_iter().map(|c| c.name).collect() };
    assert_eq!(names(&a), names(&b));
    // six, the package, two shares, three frequencies, six of the battery, two of
    // the graphics memory and two readings
    assert_eq!(names(&a).len(), 6 + 1 + 2 + 3 + 6 + 2 + 2);
    let log = Logger::create(&a, None, a.time);
    let cells: Vec<String> = flatten(&b).iter().map(|c| piece(&c.cell)).collect();
    assert_eq!(row(&log.write(&b)).split(',').collect::<Vec<_>>(), cells);
    b.cpu.pkg_w = None;
    b.battery.as_mut().unwrap().volts = None;
    b.vram = None;
    b.cpu.per_pct.push(d(0.0));
    assert_eq!(names(&b).len(), 6 + 3 + 3 + 5 + 2);
}

// ---------- the dump ----------

#[test]
fn a_snapshot_is_dumped_line_by_line() {
    let rows: Vec<String> = dump_at(&snapshot(), d(2033.5), "0.1.0", "T").iter().map(row).collect();
    assert_eq!(
        rows,
        vec![
            "rustinfo v0.1.0 — T".to_string(),
            "主机 box  内核 7.2.3  运行 1d2h3m  负载 0.50 1.25 2.00".to_string(),
            format!("CPU AMD Ryzen AI 9 365  3线程  占用 12.3%  均 {:.0}MHz  Package 15.50W", 2033.5),
            "内存 1.0/4.0 GiB  Swap 1.0/2.0 GiB".to_string(),
            format!("电池 放电 87% {:.2}V 1.50A -18.5W (循环 42) 健康80% 续航~2h05m", 12.345),
            "VRAM 123/512 MiB  GTT 64 MiB".to_string(),
            "传感器:".to_string(),
            format!("  {:<24} Tctl {:.1}°C", "k10temp", 45.25),
            format!("  {:<24} read 1.5MiB/s", "nvme0n1 IO"),
        ]
    );
    let rows = dump(&snapshot(), d(1.0), "9");
    assert_eq!(row(&rows[0]), "rustinfo v9 — 2023-11-14 22:13:20");
}

#[test]
fn a_bare_snapshot_is_dumped_without_what_it_lacks() {
    let mut s = snapshot();
    s.cpu.pkg_w = None;
    s.vram = None;
    s.chips.clear();
    s.battery = Some(BatterySnapshot {
        status: "?".into(),
        capacity_pct: None,
        volts: None,
        amps: None,
        watts: None,
        cycles: None,
        energy_now_wh: None,
        energy_full_wh: None,
        health_pct: None,
        runtime_min: None,
    });
    let rows: Vec<String> = dump_at(&s, d(0.0), "1", "T").iter().map(row).collect();
    assert_eq!(rows[2], "CPU AMD Ryzen AI 9 365  3线程  占用 12.3%  均 0MHz");
    assert_eq!(rows[4], "电池 未知 0%");
    assert_eq!(rows[5], "传感器:");
    assert_eq!(rows.len(), 6);
}

// ---------- small parts of the screen ----------

#[test]
fn bars_are_filled_by_eighths() {
    assert_eq!(bar8(0, 8), "        ");
    assert_eq!(bar8(1, 8), "▏       ");
    assert_eq!(bar8(8, 8), "█       ");
    assert_eq!(bar8(29, 8), "███▋    ");
    assert_eq!(bar8(32, 8), "████    ");
    assert_eq!(bar8(63, 8), "███████▉");
    assert_eq!(bar8(64, 8), "████████");
    assert_eq!(bar8(99, 8), "████████");
    assert_eq!(bar8(5, 0), "");
}

#[test]
fn bars_are_as_wide_as_asked_for() {
    for width in 0..20 {
        for units in 0..200 {
            assert_eq!(bar8(units, width).chars().count(), width);
        }
    }
}

#[test]
fn texts_are_shortened() {
    assert_eq!(truncate("short", 48), "short");
    assert_eq!(truncate("锐龙处理器", 5), "锐龙处理器");
    assert_eq!(truncate("锐龙处理器", 3), "锐龙处…");
}

#[test]
fn times_are_told_from_the_largest_part_on() {
    assert_eq!(fmt_uptime(d(59.9)), "0m");
    assert_eq!(fmt_uptime(d(3599.0)), "59m");
    assert_eq!(fmt_uptime(d(3600.0)), "1h0m");
    assert_eq!(fmt_uptime(d(93784.9)), "1d2h3m");
    assert_eq!(fmt_uptime(d(f64::NAN)), "0m");
}

#[test]
fn battery_states_have_words() {
    for (s, zh) in [
        ("Discharging", "放电"),
        ("Charging", "充电"),
        ("Full", "已满"),
        ("Not charging", "未充电"),
        ("Unknown", "未知"),
        ("", "未知"),
    ] {
        assert_eq!(batt_status_zh(s), zh);
    }
}

#[test]
fn colors_tell_how_high_a_value_is() {
    assert_eq!(usage_color(d(39.9)), Color::Green);
    assert_eq!(usage_color(d(40.0)), Color::Yellow);
    assert_eq!(usage_color(d(70.0)), Color::Red);
    assert_eq!(temp_color(d(59.9)), Color::Green);
    assert_eq!(temp_color(d(60.0)), Color::Yellow);
    assert_eq!(temp_color(d(75.0)), Color::LightRed);
    assert_eq!(temp_color(d(85.0)), Color::Red);
    assert_eq!(reading_color(Unit::Watts, d(25.0)), Color::Yellow);
    assert_eq!(reading_color(Unit::Watts, d(24.9)), Color::Reset);
    assert_eq!(reading_color(Unit::Watts, d(f64::NAN)), Color::Reset);
    assert_eq!(reading_color(Unit::Dbm, d(-59.0)), Color::Green);
    assert_eq!(reading_color(Unit::Dbm, d(-60.0)), Color::Yellow);
    assert_eq!(reading_color(Unit::Dbm, d(-75.0)), Color::Red);
    assert_eq!(reading_color(Unit::TempC, d(80.0)), Color::LightRed);
    assert_eq!(reading_color(Unit::Rpm, d(9000.0)), Color::Reset);
}

// ---------- history ----------

fn scaled(tctl: f64, power: f64, mem: f64) -> Scaled {
    Scaled { tctl: d(tctl), power: d(power), mem: d(mem) }
}

#[test]
fn the_last_values_are_kept() {
    let mut s = snapshot();
    s.cpu.pkg_w = None;
    s.battery = None;
    let mut h = History::new(3);
    for i in 0..5 {
        h.push(&s, scaled(450.9 + i as f64, 7.0, 250.0));
    }
    assert_eq!(h.tctl, vec![452, 453, 454]);
    assert!(h.power.is_empty());
    assert_eq!(h.mem, vec![250, 250, 250]);
    s.chips.clear();
    s.battery = Some(battery());
    h.push(&s, scaled(1.0, 185.19, 1000.0));
    assert_eq!(h.tctl, vec![452, 453, 454]);
    assert_eq!(h.power, vec![185]);
    assert_eq!(h.mem, vec![250, 250, 1000]);
    s.cpu.pkg_w = Some(d(-0.5));
    h.push(&s, scaled(1.0, -5.0, 999.99));
    assert_eq!(h.power, vec![185, 0]);
    assert_eq!(h.mem, vec![250, 1000, 999]);
}

#[test]
fn the_memory_in_use_is_a_share() {
    let mut s = snapshot();
    let mut h = History::new(9);
    h.push(&s, scaled(0.0, 0.0, 1000.5));
    s.mem.avail_kib = s.mem.total_kib + 1;
    h.push(&s, scaled(0.0, 0.0, 3.0));
    s.mem = MemSnapshot { total_kib: 0, avail_kib: 0, swap_total_kib: 0, swap_free_kib: 0 };
    h.push(&s, scaled(0.0, 0.0, f64::NAN));
    assert_eq!(h.mem, vec![1000, 0, 0]);
    assert_eq!(h.tctl.len(), 3);
}

#[test]
fn the_temperature_of_the_processor_is_found() {
    let volts = reading("in0", 1.0, Unit::Volts);
    let t = |v: f64| reading("t", v, Unit::TempC);
    let chips = vec![
        chip("acpitz", vec![t(30.0)]),
        chip("my zenpower x", vec![volts.clone(), t(50.0), t(60.0)]),
        chip("k10temp", vec![t(70.0)]),
    ];
    assert_eq!(find_tctl(&chips), Some(d(50.0)));
    assert_eq!(find_tctl(&vec![chip("acpitz", vec![t(30.0)])]), Some(d(30.0)));
    assert_eq!(find_tctl(&vec![chip("a", vec![volts]), chip("b", vec![t(1.0)])]), None);
    assert_eq!(find_tctl(&vec![]), None);
}

#[test]
fn the_power_of_the_package_comes_before_that_of_the_battery() {
    let mut s = snapshot();
    assert_eq!(find_power(&s), Some(d(15.5)));
    s.cpu.pkg_w = None;
    assert_eq!(find_power(&s), Some(d(18.51)));
    s.battery = None;
    assert_eq!(find_power(&s), None);
}

// ---------- panels ----------

#[test]
fn the_header_is_one_line() {
    let s = snapshot();
    let expected = " rustinfo  主机 box │ 内核 7.2.3 │ 运行 1d2h3m │ 负载 0.50 1.25 2.00 │ ";
    assert_eq!(line(&header_at(&s, "X")), format!("{expected}X"));
    assert_eq!(line(&draw_header(&s)), format!("{expected}22:13:20"));
    assert_eq!(draw_header(&s).spans[0].style.bg, Some(Color::Cyan));
}

#[test]
fn threads_stand_in_two_columns() {
    let (title, left, right) = draw_threads(&snapshot().cpu);
    assert_eq!(title.pieces.iter().map(piece).collect::<String>(), " CPU · AMD Ryzen AI 9 365 ");
    assert_eq!(
        lines(&left),
        vec!["T00 ████      50.0% 1500MHz", "T01 ████████ 100.0% 4000MHz"]
    );
    assert_eq!(lines(&right), vec!["T02            0.0%  600MHz"]);
    assert_eq!(left.lines[0].spans[1].style.fg, Some(Color::Yellow));
    assert_eq!(right.lines[0].spans[1].style.fg, Some(Color::Green));
}

#[test]
fn the_system_is_told_line_by_line() {
    let (_, system) = draw_system(&snapshot(), COMPUTED);
    assert_eq!(
        lines(&system),
        vec![
            "总占用  12.3%  均 2034MHz".to_string(),
            "CPU功耗 15.50 W".to_string(),
            "内存 ███            25% 1.0/4.0G".to_string(),
            "Swap ██████       1.0/2.0G".to_string(),
            "VRAM 123/512M  GTT 64M".to_string(),
            "电池 ████████▊  87% 放电".to_string(),
            format!("      {:.2}V 1.50A 18.5W 36.0/48.0Wh", 12.345),
            "      健康 80%  续航 ~2h05m".to_string(),
            "外接电源 离线".to_string(),
            "调速 powersave · balance_power".to_string(),
        ]
    );
    assert_eq!(system.lines[5].spans[1].style.fg, Some(Color::Yellow));
    assert_eq!(system.lines[7].spans[2].style.fg, Some(Color::Yellow));
}

#[test]
fn a_bare_system_is_short() {
    let mut s = snapshot();
    s.cpu.pkg_w = None;
    s.vram.as_mut().unwrap().gtt_used_mib = None;
    s.ac_online = None;
    s.cpu.epp.clear();
    let mut b = battery();
    b.health_pct = None;
    b.runtime_min = None;
    b.volts = None;
    b.energy_full_wh = None;
    b.capacity_pct = Some(d(19.0));
    s.battery = Some(b);
    let (_, system) = draw_system(&s, COMPUTED);
    let shown = lines(&system);
    assert_eq!(shown.len(), 7);
    assert_eq!(shown[3], "VRAM 123/512M");
    assert_eq!(shown[5], "      1.50A 18.5W ");
    assert_eq!(shown[6], "调速 powersave");
    assert_eq!(system.lines[4].spans[1].style.fg, Some(Color::Red));
    s.battery = None;
    s.vram = None;
    s.ac_online = Some(true);
    s.cpu.governor.clear();
    let (_, system) = draw_system(&s, COMPUTED);
    assert_eq!(lines(&system).len(), 4);
    assert_eq!(lines(&system)[3], "外接电源 在线");
}

#[test]
fn the_footer_tells_the_keys_and_the_state() {
    let bare = " q 退出   空格 暂停   l CSV   +/- 间隔   采样 1.0s ";
    assert_eq!(line(&draw_footer(false, d(1.0), None)), bare);
    assert_eq!(
        line(&draw_footer(true, d(1.0), Some("a.csv"))),
        format!("{bare} ‖ 已暂停  ● a.csv ")
    );
}

// ---------- sensors ----------

#[test]
fn labels_for_one_core_are_known() {
    let split = |s: &str| {
        core_triplet(&chars(s)).map(|(a, b)| (a.iter().collect::<String>(), b.iter().collect::<String>()))
    };
    assert_eq!(split("C00_clk"), Some(("C00".into(), "clk".into())));
    assert_eq!(split("C7_a_b"), Some(("C7".into(), "a_b".into())));
    for s in ["C_clk", "C0x_w", "c00_w", "C00", "Core_0", "C٣_w", "_x"] {
        assert_eq!(split(s), None, "{s}");
    }
}

#[test]
fn readings_of_a_core_share_a_line() {
    let c = chip(
        "smu",
        vec![
            reading("C10_clk", 1505.0, Unit::Mhz),
            reading("stapm", 54.0, Unit::Watts),
            reading("C02_clk", 0.0, Unit::Mhz),
            reading("C10_w", 0.99, Unit::Watts),
            reading("C02_vid", 0.95, Unit::Volts),
        ],
    );
    let shown = chip_lines(&c);
    let text: Vec<String> = shown.iter().map(line).collect();
    assert_eq!(
        text,
        vec![
            "▸ smu".to_string(),
            format!(" {:<13}{:>10} ", "stapm", "54.00W"),
            format!(" {:<6} {:>9} {:>9}", "C02", "0MHz", "0.95V"),
            format!(" {:<6} {:>9} {:>9}", "C10", "1505MHz", "0.99W"),
            String::new(),
        ]
    );
    assert_eq!(shown[1].spans[1].style.fg, Some(Color::Yellow));
    assert_eq!(shown[2].spans[1].style.fg, Some(Color::DarkGray));
    assert_eq!(shown[2].spans[2].style.fg, Some(Color::Reset));
}

fn block(name: &str, n: usize) -> Chip<Double> {
    chip(name, (0..n).map(|i| reading(&format!("r{i}"), 1.0, Unit::Rpm)).collect())
}

#[test]
fn chips_fill_the_lowest_column() {
    let chips = vec![block("a", 1), block("b", 4), block("c", 2), block("d", 4), block("e", 1)];
    let (title, columns) = draw_sensors(&chips);
    assert_eq!(title.pieces.iter().map(piece).collect::<String>(), " 传感器 · 5 芯片 ");
    let heads: Vec<Vec<String>> = columns
        .iter()
        .map(|c| lines(c).into_iter().filter(|l| l.starts_with('▸')).collect())
        .collect();
    // heights 3, 6, 4, 6, 3: first b, d and c, and a and e where it is lowest
    assert_eq!(heads, vec![vec!["▸ b", "▸ e"], vec!["▸ d"], vec!["▸ c", "▸ a"]]);
    let total: usize = columns.iter().map(|c| c.lines.len()).sum();
    assert_eq!(total, 3 + 6 + 4 + 6 + 3);
    let many: Vec<Chip<Double>> = (0..13).map(|i| block(&format!("x{i}"), 1)).collect();
    assert_eq!(draw_sensors(&many).1.len(), 4);
    assert_eq!(draw_sensors(&many[..12].to_vec()).1.len(), 3);
    assert_eq!(draw_sensors(&vec![]).1.len(), 3);
}

// ---------- the whole ----------

#[test]
fn the_screen_has_all_its_parts() {
    let mut h = History::new(150);
    let mut s = snapshot();
    h.push(&s, scaled(452.0, 155.0, 250.0));
    s.cpu.pkg_w = None;
    s.battery = None;
    h.push(&s, scaled(441.0, 0.0, 260.0));
    let screen = draw(&snapshot(), &h, COMPUTED, false, d(1.0), Some("f.csv"));
    let title = |s: &rustinfo::style::Span| s.pieces.iter().map(piece).collect::<String>();
    assert_eq!(title(&screen.charts.0.title), "  CPU 温度  44.1°C  峰值 45.2°C  ");
    assert_eq!(screen.charts.0.data, vec![452, 441]);
    assert_eq!(title(&screen.charts.1.title), "  功率  15.5W  峰值 15.5W  ");
    assert_eq!(screen.charts.2.color, Color::Green);
    assert_eq!(title(&screen.system_title), " 系统 ");
    assert_eq!(screen.sensors.len(), 3);
    assert!(line(&screen.footer).ends_with(" ● f.csv "));
    let empty = draw(&snapshot(), &History::new(1), COMPUTED, false, d(1.0), None);
    assert_eq!(title(&empty.charts.1.title), "  功率  ");
}

#[test]
fn the_space_is_shared_out() {
    assert_eq!(
        screen_rows(),
        vec![
            Limit::Length(1),
            Limit::Length(13),
            Limit::Min(4),
            Limit::Length(5),
            Limit::Length(1),
        ]
    );
    assert_eq!(top_columns(), vec![Limit::Percentage(58), Limit::Percentage(42)]);
    assert_eq!(thread_columns(), vec![Limit::Percentage(50), Limit::Percentage(50)]);
    assert_eq!(equal_columns(3), vec![Limit::Ratio(1, 3); 3]);
}
