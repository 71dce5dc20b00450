use rustinfo::battery::{
    battery_snapshot, read_battery_and_ac, BatteryNumbers, BatteryReport, SupplyFiles,
};
use rustinfo::cpu::{cpu_model, read_stat, thread_count, CpuCounters, Share, Ticks};
use rustinfo::double::Double;
use rustinfo::firmware::{core_numbers, read_smu, read_smu_pmtable, SmuFiles};
use rustinfo::gpu::{
    amdgpu_card_node, amdgpu_dev_path, drm_sensors, dpm_current_line, dpm_value_of, dpm_values,
    read_amdgpu_dpm, read_drm_sensors, read_vram, DpmFiles,
};
use rustinfo::hwmon::{chip_probe, chip_probes, chip_slots, classify, read_chips, ChipFiles};
use rustinfo::memory::{read_mem, read_uptime_load};
use rustinfo::model::{Chip, MemSnapshot, Reading, Unit, Value};
use rustinfo::msr::{physical_cores, CoreFiles, CoreGroup, MsrState};
use rustinfo::order::sort_by_label;
use rustinfo::psi::read_psi;
use rustinfo::rapl::{rapl_zones, ZoneFiles};
use rustinfo::table::Table;
use rustinfo::text::chars;
use rustinfo::traffic::{read_disk_io, read_net_io, IfaceFiles};

const MS: u64 = 1_000_000;

fn text(s: &str) -> Option<String> {
    Some(s.to_string())
}

fn show(readings: &[Reading<Value>]) -> Vec<String> {
    readings.iter().map(|r| format!("{} {:?} {:?}", r.label, r.value, r.unit)).collect()
}

fn show_chips(chips: &[Chip<Value>]) -> Vec<(String, Vec<String>)> {
    chips.iter().map(|c| (c.name.clone(), show(&c.readings))).collect()
}

// ---------- processors ----------

const STAT: &str = "cpu  100 0 100 700 100 0 0 0\ncpu0 50 0 50 350 50\ncpu1 50 0 50 350 50\n\
                    intr 5\ncpu9 1 1 1 1\n";

#[test]
fn stat_counts_idle_and_waiting_as_idle() {
    let (total, per) = read_stat(Some(STAT)).unwrap();
    assert_eq!(total, Ticks { idle: 800, total: 1000 });
    assert_eq!(per, vec![Ticks { idle: 400, total: 500 }; 2]);
}

#[test]
fn stat_without_a_line_for_all_is_nothing() {
    assert!(read_stat(None).is_none());
    assert!(read_stat(Some("")).is_none());
    assert!(read_stat(Some("cpu0 1 2 3 4\n")).is_none());
    assert!(read_stat(Some("cpu 1 2 3\n")).is_none());
    assert!(read_stat(Some("intr 1\ncpu 1 2 3 4\n")).is_none());
}

#[test]
fn stat_skips_words_that_are_no_numbers() {
    let (total, per) = read_stat(Some("cpu 1 x 2 3 4\ncpux 1 2 3 4\ncpu7\n")).unwrap();
    assert_eq!(total, Ticks { idle: 4, total: 10 });
    assert!(per.is_empty());
}

#[test]
fn usage_is_the_share_since_the_last_call() {
    let mut c = CpuCounters::new();
    let (all, per) = c.cpu_usage(Some(STAT));
    assert_eq!(all, Share { part: 0, whole: 0 });
    assert_eq!(per, vec![Share { part: 0, whole: 0 }; 2]);
    let later = "cpu  150 0 100 750 100\ncpu0 100 0 50 350 50\ncpu1 50 0 50 400 50\ncpu2 1 1 1 1\n";
    let (all, per) = c.cpu_usage(Some(later));
    assert_eq!(all, Share { part: 50, whole: 100 });
    assert_eq!(per[0], Share { part: 50, whole: 50 });
    assert_eq!(per[1], Share { part: 0, whole: 50 });
    assert_eq!(per[2], Share { part: 0, whole: 0 });
    let (all, per) = c.cpu_usage(None);
    assert_eq!(all, Share { part: 0, whole: 0 });
    assert!(per.is_empty());
    assert_eq!(c.total, Some(Ticks { idle: 850, total: 1100 }));
}

#[test]
fn idle_time_beyond_the_total_is_no_use() {
    let mut c = CpuCounters::new();
    c.cpu_usage(Some("cpu 0 0 0 100\n"));
    let (all, _) = c.cpu_usage(Some("cpu 0 0 0 90 20\n"));
    assert_eq!(all, Share { part: 0, whole: 10 });
}

#[test]
fn processors_are_counted_and_named() {
    let info = "processor\t: 0\nmodel name\t: AMD Ryzen AI 9 365: x \nprocessor\t: 1\n";
    assert_eq!(thread_count(Some(info), 7), 2);
    assert_eq!(thread_count(Some("nothing\n"), 7), 7);
    assert_eq!(thread_count(None, 1), 1);
    assert_eq!(cpu_model(Some(info)), "AMD Ryzen AI 9 365: x");
    assert_eq!(cpu_model(Some("model name\n")), "未知 CPU");
    assert_eq!(cpu_model(None), "未知 CPU");
}

// ---------- registers of the cores ----------

fn topology(id: &str, siblings: &str) -> CoreFiles {
    CoreFiles { core_id: text(id), siblings: text(siblings) }
}

#[test]
fn siblings_are_one_core() {
    let groups =
        physical_cores(&vec![topology("0\n", "0,2\n"), topology("8", "1,3"), topology("0", "0,2"), topology("8", "1,3")])
            .unwrap();
    let shown: Vec<(String, usize)> = groups.iter().map(|g| (g.label.clone(), g.cpu)).collect();
    assert_eq!(shown, vec![("C00".to_string(), 0), ("C08".to_string(), 1)]);
}

#[test]
fn cores_without_topology_are_unknown() {
    let missing = CoreFiles { core_id: None, siblings: text("0") };
    assert!(physical_cores(&vec![topology("0", "0"), missing]).is_none());
    let missing = CoreFiles { core_id: text("1"), siblings: None };
    assert!(physical_cores(&vec![missing]).is_none());
    assert!(physical_cores(&vec![]).is_none_or(|g| g.is_empty()));
}

#[test]
fn core_power_is_the_difference_of_the_counters() {
    let groups = vec![
        CoreGroup { label: "C00".into(), cpu: 0 },
        CoreGroup { label: "C01".into(), cpu: 1 },
        CoreGroup { label: "C02".into(), cpu: 2 },
    ];
    let mut m = MsrState::init(&groups, &vec![true, false, true], 0xA1000);
    assert_eq!(m.esu, 16);
    assert_eq!(m.cores.len(), 2);
    assert_eq!(m.cores[1].label, "C02");
    assert!(m.power_watts(&vec![Some(1000), Some(0xFFFF_FFF0)], Some(1000 * MS)).is_empty());
    let r = m.power_watts(&vec![Some(66536), Some(0xF_0000_0010)], Some(1000 * MS));
    assert_eq!(
        show(&r),
        vec![
            "C00 Rate { amount: 65536, times: 1, nanos: 1000000000, divisor: 65536 } Watts",
            "C02 Rate { amount: 32, times: 1, nanos: 1000000000, divisor: 65536 } Watts",
        ]
    );
    // without a time between them, or where a register cannot be read
    assert!(m.power_watts(&vec![Some(70000), None], None).is_empty());
    assert_eq!(m.cores[0].prev, Some(70000));
    assert_eq!(m.cores[1].prev, Some(0x10));
    // a counter that stands still is a reading of zero
    let r = m.power_watts(&vec![Some(70000), None], Some(1000 * MS));
    assert_eq!(
        show(&r),
        vec!["C00 Rate { amount: 0, times: 1, nanos: 1000000000, divisor: 65536 } Watts"]
    );
}

// ---------- energy of the packages ----------

fn zone(dir: &str, name: &str, energy: &str, range: Option<&str>) -> ZoneFiles {
    ZoneFiles {
        dir: dir.into(),
        name: text(name),
        energy: text(energy),
        range: range.map(String::from),
    }
}

#[test]
fn package_power_comes_from_two_readings() {
    let mut t = Table::new();
    let first = vec![zone("b", "package-1", "500", None), zone("a", "package-0\n", "1000000", Some("2000000"))];
    assert!(rapl_zones(&mut t, first, 0).is_empty());
    let second = vec![
        zone("c", "core", "7", None),
        zone("a", "package-0", "16000000", Some("99")),
        zone("b", "package-1", "bad", None),
    ];
    let r = rapl_zones(&mut t, second, 1000 * MS);
    assert_eq!(
        show(&r),
        vec!["Package Rate { amount: 15000000, times: 1, nanos: 1000000000, divisor: 1000000 } Watts"]
    );
}

#[test]
fn a_counter_that_started_over_goes_on_behind_its_range() {
    let mut t = Table::new();
    rapl_zones(&mut t, vec![zone("a", "package-0", "900", Some("1000"))], 0);
    let r = rapl_zones(&mut t, vec![zone("a", "package-0", "50", Some("1000"))], 100 * MS);
    assert_eq!(
        show(&r),
        vec!["Package Rate { amount: 150, times: 1, nanos: 100000000, divisor: 1000000 } Watts"]
    );
}

#[test]
fn readings_too_close_give_no_power() {
    let mut t = Table::new();
    rapl_zones(&mut t, vec![zone("a", "package-0", "0", None)], 0);
    assert!(rapl_zones(&mut t, vec![zone("a", "package-0", "10", None)], 50 * MS - 1).is_empty());
    let at = 50 * MS - 1 + 50 * MS;
    assert_eq!(rapl_zones(&mut t, vec![zone("a", "package-0", "10", None)], at).len(), 1);
}

#[test]
fn labels_come_in_order() {
    let v = vec!["b".to_string(), "a1".to_string(), "a".to_string(), "B".to_string()];
    assert_eq!(sort_by_label(v), vec!["B", "a", "a1", "b"]);
}

// ---------- memory ----------

#[test]
fn memory_is_read_by_key() {
    let s = "MemTotal:  16000 kB\nMemAvailable: 9000 kB\nSwapTotal: 4 kB\nSwapFree:\nMemTotal x\n";
    let m = read_mem(Some(s));
    assert_eq!(m.total_kib, 16000);
    assert_eq!(m.avail_kib, 9000);
    assert_eq!(m.swap_total_kib, 4);
    assert_eq!(m.swap_free_kib, 0);
    assert_eq!(m.used(), 7000);
    assert_eq!(m.swap_used(), 4);
    assert_eq!(read_mem(None), MemSnapshot::default());
    let over = MemSnapshot { total_kib: 5, avail_kib: 9, swap_total_kib: 0, swap_free_kib: 0 };
    assert_eq!(over.used(), 0);
}

#[test]
fn uptime_and_load_are_words() {
    let (up, load) = read_uptime_load(Some("350735.47 234388.90\n"), Some("0.20 x 0.12 1/80 5\n"));
    assert_eq!(format!("{up:?}"), "Decimal { text: \"350735.47\", divisor: 1 }");
    assert_eq!(format!("{:?}", load[0]), "Decimal { text: \"0.20\", divisor: 1 }");
    assert_eq!(format!("{:?}", load[1]), "Count { n: 0, divisor: 1 }");
    assert_eq!(format!("{:?}", load[2]), "Decimal { text: \"0.12\", divisor: 1 }");
    let (up, load) = read_uptime_load(None, None);
    assert_eq!(format!("{up:?}"), "Count { n: 0, divisor: 1 }");
    assert_eq!(format!("{:?}", load[2]), "Count { n: 0, divisor: 1 }");
}

#[test]
fn pressure_is_told_by_its_average() {
    let cpu = "some avg10=1.25 avg60=0.00 total=5\nfull avg10=0.50 avg60=0\n";
    let io = "some avg60=1\nfull avg10=bad\nnospace\nfull x avg10=3 avg10=4\n";
    let r = read_psi(Some(cpu), None, Some(io));
    assert_eq!(
        show(&r),
        vec![
            "cpu Decimal { text: \"1.25\", divisor: 1 } Pct",
            "cpu_full Decimal { text: \"0.50\", divisor: 1 } Pct",
            "io_full Decimal { text: \"3\", divisor: 1 } Pct",
        ]
    );
    let mem = "some avg10=7 \n";
    assert_eq!(show(&read_psi(None, Some(mem), None)), vec!["mem Decimal { text: \"7\", divisor: 1 } Pct"]);
}

// ---------- graphics ----------

#[test]
fn the_first_card_with_memory_counts() {
    let mut present = vec![false; 8];
    assert_eq!(amdgpu_card_node(&present), None);
    assert_eq!(amdgpu_dev_path(&present), None);
    present[1] = true;
    present[3] = true;
    assert_eq!(amdgpu_card_node(&present).unwrap(), "/dev/dri/card1");
    assert_eq!(amdgpu_dev_path(&present).unwrap(), "/sys/class/drm/card1/device");
    let ninth = vec![false, false, false, false, false, false, false, false, true];
    assert_eq!(amdgpu_dev_path(&ninth), None);
}

#[test]
fn sensors_that_answer_give_readings() {
    let codes: Vec<u32> = drm_sensors().iter().map(|s| s.code).collect();
    assert_eq!(codes, vec![1, 2, 4, 5, 0xC, 3]);
    let r = read_drm_sensors(&vec![Some(600), None, Some(3), None, None, Some(45000)]);
    assert_eq!(
        show(&r),
        vec![
            "GfxClk Count { n: 600, divisor: 1 } Mhz",
            "Load Count { n: 3, divisor: 1 } Pct",
            "Temp Count { n: 45000, divisor: 1000 } TempC",
        ]
    );
    assert!(read_drm_sensors(&vec![]).is_empty());
}

#[test]
fn levels_tell_the_present_and_the_largest_clock() {
    let t = chars("0: 600Mhz \n1: 800Mhz *\n2: 2900Mhz\nnoise\n");
    assert_eq!(dpm_value_of(&chars("1: 800Mhz *")).unwrap(), "800");
    assert_eq!(dpm_value_of(&chars("800Mhz")), None);
    assert_eq!(dpm_current_line(&t).unwrap(), "800");
    assert_eq!(dpm_values(&t), vec!["600", "800", "2900"]);
    let files = DpmFiles {
        gpu_busy: text("12\n"),
        vcn_busy: text("n/a"),
        sclk: text("0: 600Mhz\n1: 2900Mhz\n"),
        mclk: text("0: 1000Mhz *\n"),
        socclk: text("  \n"),
        fclk: text("*\n"),
        vclk: None,
        dclk: None,
        dcefclk: None,
    };
    assert_eq!(
        show(&read_amdgpu_dpm(&files)),
        vec![
            "busy Decimal { text: \"12\", divisor: 1 } Pct",
            "sclk Count { n: 0, divisor: 1 } Mhz",
            "sclk_max Largest { texts: [\"600\", \"2900\"] } Mhz",
            "mclk Decimal { text: \"1000\", divisor: 1 } Mhz",
            "mclk_max Largest { texts: [\"1000\"] } Mhz",
            "fclk Count { n: 0, divisor: 1 } Mhz",
        ]
    );
}

#[test]
fn graphics_memory_is_in_mebibytes() {
    let v = read_vram(Some("536870912\n"), None, Some("1048576"));
    assert_eq!(format!("{:?}", v.total_mib), "Decimal { text: \"536870912\", divisor: 1048576 }");
    assert_eq!(format!("{:?}", v.used_mib), "Count { n: 0, divisor: 1048576 }");
    assert_eq!(
        format!("{:?}", v.gtt_used_mib.unwrap()),
        "Decimal { text: \"1048576\", divisor: 1048576 }"
    );
    assert!(read_vram(None, None, None).gtt_used_mib.is_none());
}

// ---------- hwmon ----------

fn names(files: &[&str]) -> Vec<String> {
    files.iter().map(|f| f.to_string()).collect()
}

#[test]
fn files_are_classified_by_name() {
    for (file, shown) in [
        ("temp1_input", Some(("temp", 1))),
        ("in0_input", Some(("in", 0))),
        ("curr12_input", Some(("curr", 12))),
        ("power1_input", Some(("power", 1))),
        ("fan2_input", Some(("fan", 2))),
        ("energy3_input", Some(("energy", 3))),
        ("pwm1", Some(("pwm", 1))),
        ("pwm1_enable", None),
        ("pwm", None),
        ("temp_input", None),
        ("humidity1_input", None),
        ("temp1_label", None),
        ("power1_average", None),
        ("temp99999999999_input", None),
    ] {
        let got = classify(file).map(|s| (s.kind.name(), s.n));
        assert_eq!(got, shown, "{file}");
    }
}

#[test]
fn slots_come_in_order_and_once() {
    let slots = chip_slots(&names(&[
        "temp10_input", "temp2_input", "pwm1", "pwm01", "fan1_input", "temp2_input", "name",
    ]));
    let shown: Vec<(&str, u32)> = slots.iter().map(|s| (s.kind.name(), s.n)).collect();
    assert_eq!(shown, vec![("fan", 1), ("pwm", 1), ("temp", 2), ("temp", 10)]);
}

#[test]
fn chips_are_read_by_their_probes() {
    let slots = chip_slots(&names(&["temp1_input", "temp2_input", "in0_input", "pwm1"]));
    let shown: Vec<String> = slots.iter().map(|s| s.label_file()).collect();
    assert_eq!(shown[0], "in0_label");
    let labels = vec![None, None, text("Tctl\n"), None];
    let p = chip_probe("/sys/class/hwmon/hwmon0".into(), Some("k10temp\n"), &slots, &labels).unwrap();
    assert_eq!(p.name, "k10temp");
    let items: Vec<(String, String)> =
        p.items.iter().map(|i| (i.label.clone(), i.file.clone())).collect();
    assert_eq!(
        items,
        vec![
            ("Tctl".to_string(), "temp1_input".to_string()),
            ("in0".to_string(), "in0_input".to_string()),
            ("pwm1".to_string(), "pwm1".to_string()),
            ("temp2".to_string(), "temp2_input".to_string()),
        ]
    );
    let other = chip_probe("x".into(), Some("idle"), &slots, &labels).unwrap();
    let values = vec![
        vec![text("45250\n"), None, text("128"), text("x")],
        vec![None, None, None, None],
    ];
    let chips = read_chips(&vec![p, other], &values);
    assert_eq!(
        show_chips(&chips),
        vec![(
            "k10temp".to_string(),
            vec![
                "Tctl Decimal { text: \"45250\", divisor: 1000 } TempC".to_string(),
                "pwm1 Decimal { text: \"128\", divisor: 255 } Pct".to_string(),
            ]
        )]
    );
    assert!(chip_probe("x".into(), None, &slots, &labels).is_none());
    assert!(chip_probe("x".into(), Some("n"), &vec![], &vec![]).is_none());
}

fn chip_dir(dir: &str, name: Option<&str>, files: &[&str], labels: &[Option<&str>]) -> ChipFiles {
    ChipFiles {
        dir: dir.into(),
        name: name.map(String::from),
        files: names(files),
        labels: labels.iter().map(|l| l.map(String::from)).collect(),
    }
}

#[test]
fn chips_come_in_the_order_of_their_directories() {
    let probes = chip_probes(vec![
        chip_dir("/h/hwmon3", Some("nvme\n"), &["temp1_input", "name"], &[Some("Composite\n")]),
        chip_dir("/h/hwmon10", Some("k10temp"), &["pwm2", "temp1_input", "temp1_input"], &[]),
        chip_dir("/h/hwmon2", None, &["temp1_input"], &[None]),
        chip_dir("/h/hwmon1", Some("idle"), &["name", "uevent"], &[]),
        chip_dir("/h/hwmon0", Some("gone"), &[], &[]),
        chip_dir("/h/hwmon2x", Some("acpitz"), &["fan1_input", "in0_input"], &[Some("b"), Some("a")]),
    ]);
    let shown: Vec<(&str, &str, Vec<(&str, &str)>)> = probes
        .iter()
        .map(|p| {
            let items = p.items.iter().map(|i| (i.label.as_str(), i.file.as_str())).collect();
            (p.dir.as_str(), p.name.as_str(), items)
        })
        .collect();
    assert_eq!(
        shown,
        vec![
            ("/h/hwmon10", "k10temp", vec![("pwm2", "pwm2"), ("temp1", "temp1_input")]),
            ("/h/hwmon2x", "acpitz", vec![("a", "in0_input"), ("b", "fan1_input")]),
            ("/h/hwmon3", "nvme", vec![("Composite", "temp1_input")]),
        ]
    );
    assert!(chip_probes(vec![]).is_empty());
}

// ---------- disks and networks ----------

fn disk(dev: &str, r: &str, w: &str, t: &str) -> String {
    format!("259 0 {dev} 1 2 {r} 4 5 6 {w} 8 9 {t} 11\n")
}

#[test]
fn disk_rates_come_from_two_readings() {
    let mut t = Table::new();
    let first = disk("nvme0n1", "1000", "2000", "30") + &disk("nvme0n1p1", "1", "1", "1");
    assert!(read_disk_io(&mut t, Some(&first), 0).is_empty());
    let second = disk("nvme0n1", "3048", "1999", "530") + &disk("sda", "1", "1", "1") + "short line\n";
    let chips = read_disk_io(&mut t, Some(&second), 1000 * MS);
    assert_eq!(
        show_chips(&chips),
        vec![(
            "nvme0n1 IO".to_string(),
            vec![
                "read Rate { amount: 2048, times: 512, nanos: 1000000000, divisor: 1048576 } RateMBs"
                    .to_string(),
                "write Rate { amount: 0, times: 512, nanos: 1000000000, divisor: 1048576 } RateMBs"
                    .to_string(),
                "busy Busy { millis: 500, nanos: 1000000000 } Pct".to_string(),
            ]
        )]
    );
    assert!(read_disk_io(&mut t, Some(&second), 1049 * MS).is_empty());
    assert!(read_disk_io(&mut t, None, 2000 * MS).is_empty());
}

fn iface(name: &str, rx: &str, tx: &str) -> IfaceFiles {
    IfaceFiles { name: name.into(), rx: text(rx), tx: text(tx) }
}

#[test]
fn network_rates_and_signal() {
    let mut t = Table::new();
    let wireless = "h1\nh2\n wlan0: 0000   59.  -51.  -256 0\n eth9: 0 1 2 3\n wlan0 0 0 0\n";
    let first = vec![iface("wlan0", "100", "50"), iface("lo", "9", "9"), iface("eth0", "1", "x")];
    let chips = read_net_io(&mut t, first, Some(wireless), 0);
    assert_eq!(
        show_chips(&chips),
        vec![(
            "net".to_string(),
            vec!["wlan0 rssi Decimal { text: \"-51.\", divisor: 1 } Dbm".to_string()]
        )]
    );
    let second = vec![iface("wlan0", "90", "1050"), iface("eth0", "2001", "7")];
    let chips = read_net_io(&mut t, second, None, 500 * MS);
    assert_eq!(
        show_chips(&chips),
        vec![(
            "net".to_string(),
            vec![
                "eth0 down Rate { amount: 2000, times: 1, nanos: 500000000, divisor: 1048576 } RateMBs"
                    .to_string(),
                "eth0 up Rate { amount: 7, times: 1, nanos: 500000000, divisor: 1048576 } RateMBs"
                    .to_string(),
                "wlan0 down Rate { amount: 0, times: 1, nanos: 500000000, divisor: 1048576 } RateMBs"
                    .to_string(),
                "wlan0 up Rate { amount: 1000, times: 1, nanos: 500000000, divisor: 1048576 } RateMBs"
                    .to_string(),
            ]
        )]
    );
    assert!(read_net_io(&mut t, vec![iface("eth0", "9000", "9")], None, 549 * MS).is_empty());
    assert!(read_net_io(&mut t, vec![], Some(wireless), 600 * MS).is_empty());
}

// ---------- firmware ----------

fn put(table: &mut [u8], off: usize, v: f32) {
    table[off..off + 4].copy_from_slice(&v.to_le_bytes());
}

#[test]
fn the_table_gives_its_known_fields() {
    let mut t = vec![0u8; 0xD54];
    put(&mut t, 0x00, 54.0);
    put(&mut t, 0x5C, f32::NAN);
    put(&mut t, 0x5A8, 875.0);
    put(&mut t, 0x0C1C, 6020.0);
    put(&mut t, 0x09DC, -1.0);
    put(&mut t, 0x0C7C + 11 * 4, 0.95);
    let r = read_smu_pmtable(&t);
    assert_eq!(
        show(&r),
        vec![
            format!("stapm_limit Single {{ bits: {}, divisor: 1 }} Watts", 54.0f32.to_bits()),
            format!("gfx_volt Single {{ bits: {}, divisor: 1000 }} Volts", 875.0f32.to_bits()),
            format!("C00_clk Single {{ bits: {}, divisor: 4 }} Mhz", 6020.0f32.to_bits()),
            format!("C13_vid Single {{ bits: {}, divisor: 1 }} Volts", 0.95f32.to_bits()),
        ]
    );
    // a full table has a label for each reading
    let full: Vec<u8> = 1.0f32.to_le_bytes().iter().copied().cycle().take(0xCAC).collect();
    let mut labels: Vec<String> = read_smu_pmtable(&full).into_iter().map(|r| r.label).collect();
    assert_eq!(labels.len(), 13 + 3 * 10);
    labels.sort();
    labels.dedup();
    assert_eq!(labels.len(), 13 + 3 * 10);
    // too short for the cores, and too short for anything
    assert_eq!(read_smu_pmtable(&t[..0xCAB]).len(), 2);
    assert!(read_smu_pmtable(&t[..0x5B7]).is_empty());
}

#[test]
fn another_module_tells_in_text() {
    let files = SmuFiles {
        mclk: text("2800\n"),
        fclk: text("none"),
        power: text("PPT: 15000 mW\nbad line\nTDC : x\n"),
        currents: text("VDD: 900mA\nSOC: 5€\n"),
        cores: text("Core: 3, Tmp: 41.5, VID: 0.9, FID: 1500, x: 1\nTemp: 40\ncore: 300, clk: 5\n"),
    };
    let numbers: Vec<Option<Double>> = core_numbers(files.cores.as_deref())
        .iter()
        .map(|n| n.as_ref().map(|t| Double { bits: t.parse::<f64>().unwrap().to_bits() }))
        .collect();
    let chips = read_smu(&files, &numbers);
    assert_eq!(
        show_chips(&chips),
        vec![
            (
                "smu".to_string(),
                vec![
                    "mclk Decimal { text: \"2800\", divisor: 1 } Mhz".to_string(),
                    "PPT Decimal { text: \"15000\", divisor: 1000 } Watts".to_string(),
                    "VDD Decimal { text: \"900\", divisor: 1000 } Amps".to_string(),
                ]
            ),
            (
                "smu-cores".to_string(),
                vec![
                    "C03_Temp Decimal { text: \"41.5\", divisor: 1 } TempC".to_string(),
                    "C03_VID Decimal { text: \"0.9\", divisor: 1 } Volts".to_string(),
                    "C03_Clock Decimal { text: \"1500\", divisor: 1 } Mhz".to_string(),
                    "C300_Clock Decimal { text: \"5\", divisor: 1 } Mhz".to_string(),
                ]
            ),
        ]
    );
    let none = SmuFiles { mclk: None, fclk: None, power: None, currents: None, cores: None };
    assert!(read_smu(&none, &vec![]).is_empty());
}

// ---------- batteries ----------

fn supply(kind: &str) -> SupplyFiles {
    SupplyFiles {
        kind: text(kind),
        status: None,
        capacity: None,
        voltage_now: None,
        current_now: None,
        power_now: None,
        cycle_count: None,
        energy_now: None,
        energy_full: None,
        charge_now: None,
        charge_full: None,
        charge_full_design: None,
        energy_full_design: None,
        online: None,
    }
}

fn charged() -> BatteryReport {
    let mut b = supply("Battery\n");
    b.status = text("Discharging\n");
    b.capacity = text("87");
    b.voltage_now = text("12000000");
    b.current_now = text("1500000");
    b.cycle_count = text("42");
    b.charge_now = text("3000000");
    b.charge_full = text("4000000");
    b.charge_full_design = text("5000000");
    read_battery_and_ac(&vec![b]).0.unwrap()
}

#[test]
fn the_first_battery_and_the_first_known_supply_count() {
    let mut usb = supply("USB");
    usb.online = text("maybe");
    let mut mains = supply("Mains");
    mains.online = text("1\n");
    let mut ups = supply("UPS");
    ups.online = text("0");
    let mut second = supply("Battery");
    second.status = text("Full");
    let mut first = supply("Battery");
    first.status = text("Charging");
    first.cycle_count = text("0");
    let (b, ac) = read_battery_and_ac(&vec![usb, first, mains, ups, second]);
    let b = b.unwrap();
    assert_eq!(b.status, "Charging");
    assert_eq!(b.cycles, None);
    assert_eq!(ac, Some(true));
    let (b, ac) = read_battery_and_ac(&vec![supply("Wireless")]);
    assert!(b.is_none() && ac.is_none());
}

#[test]
fn a_battery_reports_what_its_numbers_are_made_of() {
    let b = charged();
    assert_eq!(b.status, "Discharging");
    assert_eq!(b.cycles, Some(42));
    assert_eq!(format!("{:?}", b.volts), "Some(Decimal { text: \"12000000\", divisor: 1000000 })");
    assert_eq!(
        format!("{:?}", b.watts),
        "Some(Product { amps: \"1500000\", volts: \"12000000\" })"
    );
    assert_eq!(
        format!("{:?}", b.energy_full),
        "Some(Product { charge: \"4000000\", volts: \"12000000\" })"
    );
    assert_eq!(format!("{:?}", b.wear), "Some(Wear { full: \"4000000\", design: \"5000000\" })");
    assert_eq!(
        format!("{:?}", b.remaining),
        "Some(Charge { charge: \"3000000\", amps: \"1500000\" })"
    );
}

fn d(v: f64) -> Option<Double> {
    Some(Double { bits: v.to_bits() })
}

fn numbers(amps: f64, health: f64, minutes: f64) -> BatteryNumbers {
    BatteryNumbers {
        capacity_pct: d(87.0),
        volts: d(12.0),
        amps: d(amps),
        watts: d(18.0),
        energy_now_wh: d(36.0),
        energy_full_wh: d(48.0),
        full: d(4000000.0),
        health_pct: d(health),
        minutes: d(minutes),
    }
}

#[test]
fn health_and_runtime_are_only_told_where_they_make_sense() {
    let b = charged();
    let s = battery_snapshot(&b, &numbers(1.5, 80.0, 120.9));
    assert_eq!(s.health_pct, d(80.0));
    assert_eq!(s.runtime_min, Some(120));
    assert_eq!(s.status, "Discharging");
    assert_eq!(s.cycles, Some(42));
    assert_eq!(battery_snapshot(&b, &numbers(0.05, 80.0, 120.0)).runtime_min, None);
    assert_eq!(battery_snapshot(&b, &numbers(0.06, 80.0, 1e9)).runtime_min, Some(6000));
    assert_eq!(battery_snapshot(&b, &numbers(1.5, 0.99, 1.0)).health_pct, None);
    assert_eq!(battery_snapshot(&b, &numbers(1.5, 150.0, 1.0)).health_pct, None);
    let mut n = numbers(1.5, 80.0, 1.0);
    n.full = d(0.0);
    assert_eq!(battery_snapshot(&b, &n).health_pct, None);
}

#[test]
fn what_a_report_does_not_have_is_not_shown() {
    let n = numbers(1.5, 80.0, 120.0);
    let mut b = charged();
    b.remaining = None;
    b.wear = None;
    let s = battery_snapshot(&b, &n);
    assert_eq!((s.runtime_min, s.health_pct), (None, None));
    assert_eq!((s.volts, s.amps), (d(12.0), d(1.5)));
    let b = read_battery_and_ac(&vec![supply("Battery")]).0.unwrap();
    let s = battery_snapshot(&b, &n);
    assert_eq!((s.capacity_pct, s.volts, s.amps, s.watts), (None, None, None, None));
    assert_eq!((s.energy_now_wh, s.energy_full_wh, s.cycles), (None, None, None));
}

#[test]
fn units_have_their_signs() {
    assert_eq!(Unit::TempC.suffix(), "°C");
    assert_eq!(Unit::TempC.csv_suffix(), "C");
    assert_eq!(Unit::RateMBs.csv_suffix(), "MiBps");
    assert_eq!(Unit::Watts.csv_suffix(), "W");
    assert_eq!(Unit::Volts.fmt_value(Double::whole(1)).decimals, 2);
    let (f, unit) = Unit::Rpm.format(Double::whole(900));
    assert_eq!((f.decimals, unit), (0, "RPM"));
}
