use rustinfo::cli::{
    interval_text, parse_args, parse_interval, print_help, warm_up, CliError, Command,
};
use rustinfo::double::Double;
use rustinfo::hwmon::{chip_probe, chip_slots};
use rustinfo::model::{Chip, Reading, Unit};
use rustinfo::msr::{CoreGroup, MsrState};
use rustinfo::probe::{assemble, Prober, Raw, VramFiles};
use rustinfo::rapl::ZoneFiles;
use rustinfo::tui::{Effect, Input, Key, Tui};

const MS: u64 = 1_000_000;

fn d(v: f64) -> Double {
    Double { bits: v.to_bits() }
}

// ---------- the command line ----------

fn parse(args: &[&str]) -> Result<(Command, f64), CliError> {
    let args: Vec<String> = args.iter().map(|s| s.to_string()).collect();
    let numbers: Vec<Option<Double>> =
        args.iter().map(|a| interval_text(a).parse::<f64>().ok().map(d)).collect();
    parse_args(&args, &numbers).map(|(c, i)| (c, f64::from_bits(i.bits)))
}

#[test]
fn intervals_may_be_given_in_seconds() {
    for (arg, text) in
        [("0.5", "0.5"), (" 2s ", "2"), ("3 s", "3"), ("1ss", "1"), ("s", ""), ("1s s", "1s")]
    {
        assert_eq!(interval_text(arg), text);
    }
    assert_eq!(parse_interval("2s", 0, Some(d(2.0))), Ok(d(2.0)));
    assert_eq!(parse_interval("0", 0, Some(d(0.0))), Err(CliError::NotPositive));
    assert_eq!(parse_interval("-1", 0, Some(d(-1.0))), Err(CliError::NotPositive));
    assert_eq!(parse_interval("nan", 0, Some(d(f64::NAN))), Err(CliError::NotPositive));
    assert_eq!(parse_interval("-inf", 0, Some(d(f64::NEG_INFINITY))), Err(CliError::NotPositive));
    assert_eq!(parse_interval("inf", 0, Some(d(f64::INFINITY))), Ok(d(f64::INFINITY)));
    assert_eq!(parse_interval("1e-320", 0, Some(d(1e-320))), Ok(d(1e-320)));
    assert_eq!(parse_interval("x", 4, None), Err(CliError::NotANumber(4)));
    assert_eq!(parse_interval("x", 4, Some(d(1.0))), Err(CliError::NotANumber(4)));
}

#[test]
fn the_interval_is_a_number_within_its_bounds() {
    for (arg, interval) in [("0.001", 0.2), ("1e-320", 0.2), ("61", 60.0), ("inf", 60.0), ("7", 7.0)] {
        assert!(matches!(parse(&["-i", arg]), Ok((Command::Tui, i)) if i == interval), "{arg}");
    }
    for arg in ["nan", "NaN", "-nan", "0", "-0.0", "-3", "-inf"] {
        assert_eq!(parse(&["log", "-i", arg]).err(), Some(CliError::NotPositive), "{arg}");
    }
    // the last one counts, but every one has to be above zero
    assert!(matches!(parse(&["-i", "3", "-i", "4"]), Ok((_, i)) if i == 4.0));
    assert_eq!(parse(&["-i", "nan", "-i", "4"]).err(), Some(CliError::NotPositive));
}

#[test]
fn commands_are_told_by_their_names() {
    assert!(matches!(parse(&[]), Ok((Command::Tui, i)) if i == 1.0));
    assert!(matches!(parse(&["tui", "-i", "0.5"]), Ok((Command::Tui, i)) if i == 0.5));
    assert!(matches!(parse(&["--interval", "5s", "dump"]), Ok((Command::Dump, i)) if i == 5.0));
    assert!(matches!(parse(&["log"]), Ok((Command::Log(None), _))));
    match parse(&["log", "soak.csv", "-i", "2"]) {
        Ok((Command::Log(Some(p)), i)) => assert_eq!((p.as_str(), i), ("soak.csv", 2.0)),
        other => panic!("{other:?}"),
    }
    assert!(matches!(parse(&["smu-probe"]), Ok((Command::SmuProbe, _))));
    assert!(matches!(parse(&["smu-table"]), Ok((Command::SmuTable, _))));
    match parse(&["smuctl", "co", "-27"]) {
        Ok((Command::Smuctl(args), _)) => assert_eq!(args, vec!["co", "-27"]),
        other => panic!("{other:?}"),
    }
    assert!(matches!(parse(&["what"]), Ok((Command::Unknown(n), _)) if n == "what"));
    assert!(matches!(parse(&["dump", "-h", "-i"]), Ok((Command::Help, _))));
    assert!(matches!(parse(&["--help"]), Ok((Command::Help, _))));
}

#[test]
fn intervals_are_held_within_their_bounds() {
    assert!(matches!(parse(&["-i", "0.01"]), Ok((_, i)) if i == 0.2));
    assert!(matches!(parse(&["-i", "1e9"]), Ok((_, i)) if i == 60.0));
    assert!(matches!(parse(&["-i", "5", "-i", "7"]), Ok((_, i)) if i == 7.0));
}

#[test]
fn wrong_arguments_are_told() {
    assert_eq!(parse(&["-i"]).unwrap_err(), CliError::NoInterval);
    assert_eq!(parse(&["-i", "x", "-h"]).unwrap_err(), CliError::NotANumber(1));
    assert_eq!(parse(&["-i", "0"]).unwrap_err(), CliError::NotPositive);
    assert_eq!(CliError::NoInterval.message(""), "-i 需要一个秒数参数");
    assert_eq!(CliError::NotPositive.message(""), "采样间隔必须大于 0");
    assert_eq!(CliError::NotANumber(1).message("why"), "why");
    assert_eq!(print_help().len(), 11);
    assert_eq!(print_help()[2], "用法: rustinfo [子命令] [-i 秒数]");
}

#[test]
fn a_log_waits_before_it_starts() {
    assert_eq!(warm_up(d(0.2)), d(0.5));
    assert_eq!(warm_up(d(2.0)), d(2.0));
}

// ---------- the state of the screen ----------

fn press(t: &mut Tui, c: char) -> Effect {
    t.handle(Input::Pressed(Key::Char(c)))
}

#[test]
fn keys_do_what_they_say() {
    let mut t = Tui::new(d(1.0));
    assert!(t.take_dirty());
    assert!(!t.take_dirty());
    assert_eq!(press(&mut t, ' '), Effect::Nothing);
    assert!(t.paused && t.take_dirty());
    press(&mut t, ' ');
    assert!(!t.paused);
    assert_eq!(press(&mut t, 'l'), Effect::StartLog);
    assert_eq!(press(&mut t, 'l'), Effect::StopLog);
    press(&mut t, '+');
    assert_eq!(t.interval, d(1.5));
    press(&mut t, '_');
    assert_eq!(t.interval, d(1.0));
    t.take_dirty();
    let before = t;
    assert_eq!(press(&mut t, 'q'), Effect::Quit);
    assert_eq!(t.handle(Input::Pressed(Key::Esc)), Effect::Quit);
    assert_eq!(t.handle(Input::Other), Effect::Nothing);
    assert_eq!(t, before);
    t.handle(Input::Resized);
    assert!(t.take_dirty());
    t.handle(Input::Pressed(Key::Other));
    assert!(t.take_dirty());
    t.sampled();
    assert!(t.dirty);
}

#[test]
fn the_interval_stays_within_its_bounds() {
    let mut t = Tui::new(d(1.0));
    for _ in 0..20 {
        press(&mut t, '=');
    }
    assert_eq!(t.interval, d(60.0));
    for _ in 0..40 {
        press(&mut t, '-');
    }
    assert_eq!(t.interval, d(0.2));
}

#[test]
fn the_interval_is_stepped_by_one_and_a_half() {
    for start in [0.2, 0.25, 0.333, 1.0, 7.7, 39.99, 40.0, 59.9, 60.0] {
        for (key, other) in [('+', '-'), ('=', '_')] {
            let mut t = Tui::new(d(start));
            press(&mut t, key);
            assert_eq!(t.interval, d((start * 1.5).min(60.0)));
            let mut t = Tui::new(d(start));
            press(&mut t, other);
            assert_eq!(t.interval, d((start / 1.5).max(0.2)));
            for key in [' ', 'l', 'q', 'x', '*'] {
                let mut t = Tui::new(d(start));
                press(&mut t, key);
                assert_eq!(t.interval, d(start));
            }
        }
    }
}

#[test]
fn switches_follow_the_number_of_presses() {
    let mut t = Tui::new(d(1.0));
    let (mut spaces, mut logs) = (0, 0);
    for key in " l  +l-lll q x l  ".chars() {
        press(&mut t, key);
        spaces += (key == ' ') as u32;
        logs += (key == 'l') as u32;
        assert_eq!(t.paused, spaces % 2 == 1);
        assert_eq!(t.logging, logs % 2 == 1);
    }
}

#[test]
fn samples_are_due_after_the_interval() {
    let mut t = Tui::new(d(1.0));
    assert!(!t.due(d(0.999)));
    assert!(t.due(d(1.0)));
    assert_eq!(t.timeout(d(0.4)), d(0.4));
    assert_eq!(t.timeout(d(-3.0)), d(0.02));
    assert_eq!(t.timeout(d(3.0)), d(1.0));
    press(&mut t, ' ');
    assert!(!t.due(d(5.0)));
    assert_eq!(t.timeout(d(0.4)), d(3600.0));
}

// ---------- samples ----------

fn text(s: &str) -> Option<String> {
    Some(s.to_string())
}

fn raw(now: u64) -> Raw {
    Raw {
        now,
        uptime: text("10.5 3\n"),
        loadavg: text("1 2 3\n"),
        stat: None,
        freqs: vec![text("1500000\n"), None],
        zones: Vec::new(),
        registers: Vec::new(),
        governor: text("powersave\n"),
        epp: None,
        meminfo: text("MemTotal: 8 kB\n"),
        supplies: Vec::new(),
        vram: None,
        hwmon: Vec::new(),
        drm: Vec::new(),
        dpm: None,
        diskstats: None,
        ifaces: Vec::new(),
        wireless: None,
        psi_cpu: None,
        psi_memory: None,
        psi_io: None,
        pm_table: None,
        smu: None,
        core_numbers: Vec::new(),
    }
}

#[test]
fn a_sample_has_what_was_read() {
    let cpuinfo = "processor: 0\nmodel name: X\n\nprocessor: 1\nmodel name: X\n";
    let mut p = Prober::new(Some("box\n"), None, Some(cpuinfo), 9);
    assert_eq!((p.hostname.as_str(), p.kernel.as_str(), p.threads), ("box", "", 2));
    assert_eq!(
        Prober::freq_path(12),
        "/sys/devices/system/cpu/cpu12/cpufreq/scaling_cur_freq"
    );
    let mut r = raw(0);
    r.vram = Some(VramFiles { total: text("1048576"), used: None, gtt_used: None });
    let s = p.snapshot(r);
    assert_eq!(s.hostname, "box");
    assert_eq!(s.cpu.model, "X");
    assert_eq!(s.cpu.governor, "powersave");
    assert_eq!(s.cpu.epp, "");
    assert_eq!(format!("{:?}", s.uptime_s), "Decimal { text: \"10.5\", divisor: 1 }");
    assert_eq!(
        format!("{:?}", s.cpu.per_mhz),
        "[Decimal { text: \"1500000\", divisor: 1000 }, Count { n: 0, divisor: 1000 }]"
    );
    assert_eq!(s.mem.total_kib, 8);
    assert!(s.vram.is_some());
    assert!(s.sensors.is_empty() && s.others.is_empty());
    assert!(s.packages.is_empty() && s.cores.is_empty());
    assert!(s.battery.is_none() && s.ac_online.is_none());
}

#[test]
fn samples_of_one_prober_agree() {
    let mut p = Prober::new(Some("box"), Some("7.2"), Some("model name: X\n"), 3);
    let mut last = raw(1000 * MS);
    last.freqs = vec![text("1"), text("2"), text("3"), text("4")];
    let mut empty = raw(500 * MS);
    empty.freqs.clear();
    for r in [raw(0), empty, last] {
        let s = p.snapshot(r);
        assert_eq!((s.hostname.as_str(), s.kernel.as_str(), s.cpu.model.as_str()), ("box", "7.2", "X"));
        assert_eq!(s.cpu.per_mhz.len(), 3);
        assert!(s.sensors.iter().chain(s.others.iter()).all(|c| !c.readings.is_empty()));
    }
}

fn zone(energy: &str) -> ZoneFiles {
    ZoneFiles { dir: "z".into(), name: text("package-0"), energy: text(energy), range: None }
}

#[test]
fn chips_come_in_the_order_of_their_sources() {
    let mut p = Prober::new(None, None, None, 2);
    let slots = chip_slots(&vec!["temp1_input".to_string()]);
    p.chip_probes.push(chip_probe("d".into(), Some("k10temp"), &slots, &vec![text("Tctl")]).unwrap());
    p.msr = Some(MsrState::init(
        &vec![CoreGroup { label: "C00".into(), cpu: 0 }],
        &vec![true],
        0x1000,
    ));
    let mut fill = |now: u64, energy: &str, register: u64| {
        let mut r = raw(now);
        r.zones = vec![zone(energy)];
        r.registers = vec![Some(register)];
        r.hwmon = vec![vec![text("45000")]];
        r.drm = vec![Some(600)];
        r.diskstats = text("259 0 nvme0n1 1 2 3 4 5 6 7 8 9 10 11\n");
        r.psi_cpu = text("some avg10=0.00\n");
        p.snapshot(r)
    };
    let names = |s: &rustinfo::probe::Sample| -> Vec<String> {
        s.sensors.iter().chain(s.others.iter()).map(|c| c.name.clone()).collect()
    };
    let first = fill(0, "0", 0);
    assert_eq!(names(&first), vec!["k10temp", "amdgpu-sensor", "psi"]);
    assert!(first.packages.is_empty() && first.cores.is_empty());
    let second = fill(1000 * MS, "15000000", 65536);
    assert_eq!(names(&second), vec!["k10temp", "amdgpu-sensor", "nvme0n1 IO", "psi"]);
    assert_eq!(second.cores[0].label, "C00");
    assert_eq!(second.packages[0].label, "Package");
    assert_eq!(
        format!("{:?}", second.packages[0].value),
        "Rate { amount: 15000000, times: 1, nanos: 1000000000, divisor: 1000000 }"
    );
    // too soon for rates
    let third = fill(1040 * MS, "15000001", 65537);
    assert_eq!(names(&third), vec!["k10temp", "amdgpu-sensor", "psi"]);
    assert!(third.packages.is_empty() && third.cores.is_empty());
}

fn watts(label: &str, v: f64) -> Reading<Double> {
    Reading { label: label.into(), value: d(v), unit: Unit::Watts }
}

fn chip(name: &str) -> Chip<Double> {
    Chip { name: name.into(), readings: vec![watts("x", 1.0)] }
}

#[test]
fn power_that_cannot_be_true_is_left_out() {
    let packages = vec![watts("Package", 500.0), watts("Package", 499.9), watts("Package", 20.0)];
    let cores = vec![watts("C00", 200.0), watts("C01", -0.5), watts("C02", f64::NAN), watts("C03", 0.0)];
    let (pkg, chips) = assemble(vec![chip("a")], &packages, &cores, vec![chip("b"), chip("c")]);
    assert_eq!(pkg, Some(d(499.9)));
    let names: Vec<&str> = chips.iter().map(|c| c.name.as_str()).collect();
    assert_eq!(names, vec!["a", "rapl", "b", "c"]);
    let shown: Vec<(&str, Double)> =
        chips[1].readings.iter().map(|r| (r.label.as_str(), r.value)).collect();
    assert_eq!(shown, vec![("Package", d(499.9)), ("Package", d(20.0)), ("C03", d(0.0))]);
    let (pkg, chips) = assemble(vec![chip("a")], &vec![watts("Package", 900.0)], &vec![], vec![]);
    assert_eq!((pkg, chips.len()), (None, 1));
}
