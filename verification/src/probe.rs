//! One sample of everything: what the files and registers of a machine say at
//! one moment, and what they said before where a reading is a difference.
use vstd::prelude::*;

use crate::battery::{battery_fn, online_fn, read_battery_and_ac, BatteryReport, SupplyFiles};
use crate::cpu::{busy_share, busy_shares, stat_of, CpuCounters, Share};
use crate::cpu::{cpu_model, model_of, processors, thread_count};
use crate::double::{one, Double};
use crate::files::{
    borrowed, decimal_or_zero, file_text_or_empty, file_value, read_or_empty, read_value,
};
use crate::firmware::{
    read_smu, read_smu_pmtable, smu_chips, table_readings, SmuFiles,
};
use crate::gpu::{
    dpm_readings, drm_readings, mebibytes, read_amdgpu_dpm, read_drm_sensors, read_vram, DpmFiles,
    VramSample,
};
use crate::hwmon::{probed_chips, read_chips, text_at, text_of, ChipProbe};
use crate::lists::{
    first, kept, lemma_first_at, lemma_first_none, lemma_kept_step, lemma_take_all, put, seen, views,
};
use crate::memory::{lines_of, mem_of, read_mem, read_uptime_load, word_at};
use crate::model::{excess, over, Chip, ChipModel, MemSnapshot, Reading, ReadingModel};
use crate::model::{Value, ValueModel};
use crate::msr::{
    core_names, core_powers, counter, lemma_no_core_power_without_a_difference, register_at, MsrState,
};
use crate::numbers::{dec, dec_text};
use crate::order::{sorted, Labelled};
use crate::psi::{psi_file, read_psi};
use crate::rapl::{
    after_zones, lemma_no_power_too_soon, rapl_zones, zone_powers, EnergySample, ZoneFiles, SHORTEST,
};
use crate::table::Table;
use crate::text::{chars, owned, spells};
use crate::traffic::{
    after_disks, after_ifaces, as_chip, disk_chips, lemma_no_disk_rates_too_soon,
    lemma_no_network_rates_too_soon, net_rates, net_readings, read_disk_io, read_net_io, DiskSample,
    IfaceFiles, NetSample,
};

verus! {

/// The texts of the files on graphics memory.
pub struct VramFiles {
    pub total: Option<String>,
    pub used: Option<String>,
    pub gtt_used: Option<String>,
}

/// What was read at one moment, `now` in nanoseconds. A text is `None` where
/// its file could not be read; `vram`, `dpm` and `smu` are `None` where the
/// machine has no such directory.
pub struct Raw {
    pub now: u64,
    pub uptime: Option<String>,
    pub loadavg: Option<String>,
    pub stat: Option<String>,
    pub freqs: Vec<Option<String>>,
    pub zones: Vec<ZoneFiles>,
    pub registers: Vec<Option<u64>>,
    pub governor: Option<String>,
    pub epp: Option<String>,
    pub meminfo: Option<String>,
    pub supplies: Vec<SupplyFiles>,
    pub vram: Option<VramFiles>,
    pub hwmon: Vec<Vec<Option<String>>>,
    pub drm: Vec<Option<u32>>,
    pub dpm: Option<DpmFiles>,
    pub diskstats: Option<String>,
    pub ifaces: Vec<IfaceFiles>,
    pub wireless: Option<String>,
    pub psi_cpu: Option<String>,
    pub psi_memory: Option<String>,
    pub psi_io: Option<String>,
    pub pm_table: Option<Vec<u8>>,
    pub smu: Option<SmuFiles>,
    pub core_numbers: Vec<Option<Double>>,
}

pub struct CpuSample {
    pub model: String,
    pub total: Share,
    pub per: Vec<Share>,
    pub per_mhz: Vec<Value>,
    pub governor: String,
    pub epp: String,
}

/// A snapshot whose divisions are still to be done. The power of the packages
/// and of the cores stands between the chips of the sensors and the other chips:
/// see `assemble`.
pub struct Sample {
    pub hostname: String,
    pub kernel: String,
    pub uptime_s: Value,
    pub load: [Value; 3],
    pub cpu: CpuSample,
    pub mem: MemSnapshot,
    pub battery: Option<BatteryReport>,
    pub ac_online: Option<bool>,
    pub vram: Option<VramSample>,
    pub sensors: Vec<Chip<Value>>,
    pub packages: Vec<Reading<Value>>,
    pub cores: Vec<Reading<Value>>,
    pub others: Vec<Chip<Value>>,
}

/// What stays the same, and what was last read.
pub struct Prober {
    pub cpu: CpuCounters,
    pub rapl: Table<EnergySample>,
    pub disk: Table<DiskSample>,
    pub net: Table<NetSample>,
    pub msr: Option<MsrState>,
    pub last_snap: Option<u64>,
    pub hostname: String,
    pub kernel: String,
    pub model: String,
    pub threads: usize,
    pub chip_probes: Vec<ChipProbe>,
}

/// The time since the last sample, if there was one and it is long enough.
pub open spec fn since(last: Option<u64>, now: u64) -> Option<u64> {
    match last {
        Some(t) => if over(now, t) >= SHORTEST {
            Some(over(now, t))
        } else {
            None
        },
        None => None,
    }
}

/// A frequency in MHz from a file in kHz, or zero.
pub open spec fn frequency(text: Option<Seq<char>>) -> ValueModel {
    match file_value(text, 1000) {
        Some(v) => v,
        None => ValueModel::Count { n: 0, divisor: 1000 },
    }
}

/// The frequencies of so many processors, given the texts of their files.
pub open spec fn frequencies(texts: Seq<Option<String>>, threads: nat) -> Seq<ValueModel> {
    Seq::new(threads, |i: int| frequency(text_at(texts, i)))
}

pub fn read_freqs(texts: &Vec<Option<String>>, threads: usize) -> (r: Vec<Value>)
    ensures
        views(r@) == frequencies(texts@, threads as nat),
{
    let mut out: Vec<Value> = Vec::new();
    let mut i: usize = 0;
    while i < threads
        invariant
            i <= threads,
            views(out@) =~= frequencies(texts@, i as nat),
        decreases threads - i,
    {
        let v = match read_value(text_of(texts, i), 1000) {
            Some(v) => v,
            None => Value::Count { n: 0, divisor: 1000 },
        };
        put(&mut out, v);
        i = i + 1;
    }
    out
}

/// What the packages drew since the last sample.
pub open spec fn package_powers(p: Prober, raw: Raw) -> Seq<ReadingModel<ValueModel>> {
    zone_powers(sorted(views(raw.zones@), ZoneFiles::key()), p.rapl@, raw.now)
}

/// What each core drew since the last sample.
pub open spec fn each_core_power(p: Prober, raw: Raw) -> Seq<ReadingModel<ValueModel>> {
    match p.msr {
        Some(m) => core_powers(
            m.cores@,
            raw.registers@,
            m.esu,
            since(p.last_snap, raw.now),
            m.cores@.len() as int,
        ),
        None => Seq::empty(),
    }
}

/// The chips other than those of the sensors, in the order in which their
/// sources are read.
pub open spec fn other_chips(p: Prober, raw: Raw) -> Seq<ChipModel<ValueModel>> {
    as_chip("amdgpu-sensor"@, drm_readings(raw.drm@, 6)) + as_chip(
        "amdgpu-dpm"@,
        match raw.dpm {
            Some(f) => dpm_readings(f),
            None => Seq::empty(),
        },
    ) + disk_chips(lines_of(seen(raw.diskstats)), p.disk@, raw.now) + as_chip(
        "net"@,
        net_readings(
            sorted(views(raw.ifaces@), IfaceFiles::key()),
            seen(raw.wireless),
            p.net@,
            raw.now,
        ),
    ) + as_chip(
        "psi"@,
        psi_file("cpu"@, seen(raw.psi_cpu)) + psi_file("mem"@, seen(raw.psi_memory)) + psi_file(
            "io"@,
            seen(raw.psi_io),
        ),
    ) + as_chip(
        "smu"@,
        match raw.pm_table {
            Some(t) => table_readings(t@),
            None => Seq::empty(),
        },
    ) + match raw.smu {
        Some(f) => smu_chips(f, raw.core_numbers@),
        None => Seq::empty(),
    }
}

/// The graphics memory, where there is any.
pub open spec fn vram_matches(v: Option<VramSample>, f: Option<VramFiles>) -> bool {
    match (v, f) {
        (Some(v), Some(f)) => {
            &&& v.total_mib@ == mebibytes(seen(f.total))
            &&& v.used_mib@ == mebibytes(seen(f.used))
            &&& seen(v.gtt_used_mib) == file_value(seen(f.gtt_used), 1048576)
        },
        (None, None) => true,
        _ => false,
    }
}

/// What is remembered of the cores' counters.
pub open spec fn cores_remembered(a: Option<MsrState>, b: Option<MsrState>, raw: Raw) -> bool {
    match (a, b) {
        (Some(m), Some(n)) => {
            &&& n.esu == m.esu
            &&& core_names(n.cores@) == core_names(m.cores@)
            &&& forall|i: int|
                0 <= i < m.cores@.len() ==> (#[trigger] n.cores@[i]).prev
                    == match register_at(raw.registers@, i) {
                    Some(reg) => Some(counter(reg)),
                    None => m.cores@[i].prev,
                }
        },
        (None, None) => true,
        _ => false,
    }
}

/// Whether a prober makes this sample of what was read, and is left like that.
pub open spec fn sampled(before: Prober, raw: Raw, r: Sample, after: Prober) -> bool {
    &&& r.hostname@ == before.hostname@
    &&& r.kernel@ == before.kernel@
    &&& r.uptime_s@ == decimal_or_zero(word_at(seen(raw.uptime), 0))
    &&& forall|i: int|
        0 <= i < 3 ==> (#[trigger] r.load@[i])@ == decimal_or_zero(
            word_at(seen(raw.loadavg), i),
        )
    &&& r.cpu.model@ == before.model@
    &&& match stat_of(seen(raw.stat)) {
        Some((t, per)) => {
            &&& r.cpu.total == busy_share(before.cpu.total, t)
            &&& r.cpu.per@ == busy_shares(before.cpu.per@, per)
            &&& after.cpu.total == Some(t)
            &&& after.cpu.per@ == per
        },
        None => {
            &&& r.cpu.total == (Share { part: 0, whole: 0 })
            &&& r.cpu.per@ == Seq::<Share>::empty()
            &&& after.cpu.total == before.cpu.total
            &&& after.cpu.per@ == before.cpu.per@
        },
    }
    &&& views(r.cpu.per_mhz@) == frequencies(raw.freqs@, before.threads as nat)
    &&& r.cpu.governor@ == file_text_or_empty(seen(raw.governor))
    &&& r.cpu.epp@ == file_text_or_empty(seen(raw.epp))
    &&& mem_of(r.mem, lines_of(seen(raw.meminfo)))
    &&& seen(r.battery) == first(raw.supplies@, battery_fn())
    &&& r.ac_online == first(raw.supplies@, online_fn())
    &&& vram_matches(r.vram, raw.vram)
    &&& views(r.sensors@) == probed_chips(
        before.chip_probes@,
        raw.hwmon@,
        before.chip_probes@.len() as int,
    )
    &&& views(r.packages@) == package_powers(before, raw)
    &&& views(r.cores@) == each_core_power(before, raw)
    &&& views(r.others@) == other_chips(before, raw)
    &&& after.rapl@ == after_zones(
        sorted(views(raw.zones@), ZoneFiles::key()),
        before.rapl@,
        raw.now,
    )
    &&& after.disk@ == after_disks(
        lines_of(seen(raw.diskstats)),
        before.disk@,
        raw.now,
    )
    &&& after.net@ == after_ifaces(
        sorted(views(raw.ifaces@), IfaceFiles::key()),
        before.net@,
        raw.now,
    )
    &&& cores_remembered(before.msr, after.msr, raw)
    &&& after.last_snap == Some(raw.now)
    &&& after.hostname == before.hostname
    &&& after.kernel == before.kernel
    &&& after.model == before.model
    &&& after.threads == before.threads
    &&& after.chip_probes == before.chip_probes
}

fn add_chip<V: View>(out: &mut Vec<Chip<V>>, name: &str, readings: Vec<Reading<V>>)
    ensures
        views(final(out)@) == views(old(out)@) + as_chip(name@, views(readings@)),
{
    let ghost start = views(out@);
    if readings.len() > 0 {
        put(out, Chip { name: owned(name), readings });
    }
    assert(views(out@) =~= start + as_chip(name@, views(readings@)));
}

fn add_chips<V: View>(out: &mut Vec<Chip<V>>, more: Vec<Chip<V>>)
    ensures
        views(final(out)@) == views(old(out)@) + views(more@),
{
    let mut more = more;
    let ghost (a, b) = (out@, more@);
    out.append(&mut more);
    assert(views(out@) =~= views(a) + views(b));
}

impl Prober {
    pub open spec fn wf(&self) -> bool {
        self.msr matches Some(m) ==> m.wf()
    }

    /// Starts with the names of the machine, its kernel and its processors, and
    /// nothing read so far.
    pub fn new(
        hostname: Option<&str>,
        kernel: Option<&str>,
        cpuinfo: Option<&str>,
        fallback_threads: usize,
    ) -> (r: Prober)
        ensures
            r.wf(),
            r.cpu.total is None,
            r.cpu.per@ == Seq::<crate::cpu::Ticks>::empty(),
            r.rapl@ == Map::<Seq<char>, EnergySample>::empty(),
            r.disk@ == Map::<Seq<char>, DiskSample>::empty(),
            r.net@ == Map::<Seq<char>, NetSample>::empty(),
            r.msr is None,
            r.last_snap is None,
            r.hostname@ == file_text_or_empty(seen(hostname)),
            r.kernel@ == file_text_or_empty(seen(kernel)),
            r.model@ == model_of(seen(cpuinfo)),
            r.threads == (if processors(lines_of(seen(cpuinfo))) > 0 {
                processors(lines_of(seen(cpuinfo))) as int
            } else {
                fallback_threads as int
            }),
            r.chip_probes@ == Seq::<ChipProbe>::empty(),
    {
        Prober {
            cpu: CpuCounters::new(),
            rapl: Table::new(),
            disk: Table::new(),
            net: Table::new(),
            msr: None,
            last_snap: None,
            hostname: read_or_empty(hostname),
            kernel: read_or_empty(kernel),
            model: cpu_model(cpuinfo),
            threads: thread_count(cpuinfo, fallback_threads),
            chip_probes: Vec::new(),
        }
    }

    /// The file with the frequency of the processor at place `i`.
    pub fn freq_path(i: usize) -> (r: String)
        ensures
            r@ == "/sys/devices/system/cpu/cpu"@ + dec(i as nat) + "/cpufreq/scaling_cur_freq"@,
    {
        owned("/sys/devices/system/cpu/cpu").concat(dec_text(i as u64).as_str()).concat(
            "/cpufreq/scaling_cur_freq",
        )
    }

    fn read_power(&mut self, zones: Vec<ZoneFiles>, registers: &Vec<Option<u64>>, now: u64) -> (r: (
        Vec<Reading<Value>>,
        Vec<Reading<Value>>,
    ))
        requires
            old(self).wf(),
        ensures
            final(self).wf(),
            final(self).cpu == old(self).cpu,
            final(self).disk == old(self).disk,
            final(self).net == old(self).net,
            final(self).hostname == old(self).hostname,
            final(self).kernel == old(self).kernel,
            final(self).model == old(self).model,
            final(self).threads == old(self).threads,
            final(self).chip_probes == old(self).chip_probes,
            final(self).last_snap == Some(now),
            final(self).rapl@ == after_zones(
                sorted(views(zones@), ZoneFiles::key()),
                old(self).rapl@,
                now,
            ),
            views(r.0@) == zone_powers(
                sorted(views(zones@), ZoneFiles::key()),
                old(self).rapl@,
                now,
            ),
            views(r.1@) == match old(self).msr {
                Some(m) => core_powers(
                    m.cores@,
                    registers@,
                    m.esu,
                    since(old(self).last_snap, now),
                    m.cores@.len() as int,
                ),
                None => Seq::empty(),
            },
            match (old(self).msr, final(self).msr) {
                (Some(m), Some(n)) => {
                    &&& n.esu == m.esu
                    &&& core_names(n.cores@) == core_names(m.cores@)
                    &&& forall|i: int|
                        0 <= i < m.cores@.len() ==> (#[trigger] n.cores@[i]).prev
                            == match register_at(registers@, i) {
                            Some(reg) => Some(counter(reg)),
                            None => m.cores@[i].prev,
                        }
                },
                (None, None) => true,
                _ => false,
            },
    {
        let nanos = match self.last_snap {
            Some(t) => {
                let d = excess(now, t);
                if d >= SHORTEST {
                    Some(d)
                } else {
                    None
                }
            },
            None => None,
        };
        self.last_snap = Some(now);
        let packages = rapl_zones(&mut self.rapl, zones, now);
        let cores = match self.msr.take() {
            Some(m) => {
                let mut m = m;
                let cores = m.power_watts(registers, nanos);
                self.msr = Some(m);
                cores
            },
            None => {
                let none: Vec<Reading<Value>> = Vec::new();
                assert(views(none@) =~= Seq::<ReadingModel<ValueModel>>::empty());
                none
            },
        };
        (packages, cores)
    }

    /// Takes a sample of what was read, and remembers what the next one is to
    /// be compared with.
    pub fn snapshot(&mut self, raw: Raw) -> (r: Sample)
        requires
            old(self).wf(),
        ensures
            final(self).wf(),
            sampled(*old(self), raw, r, *final(self)),
    {
        let now = raw.now;
        let (uptime_s, load) = read_uptime_load(borrowed(&raw.uptime), borrowed(&raw.loadavg));
        let (total, per) = self.cpu.cpu_usage(borrowed(&raw.stat));
        let per_mhz = read_freqs(&raw.freqs, self.threads);
        let (packages, cores) = self.read_power(raw.zones, &raw.registers, now);
        let cpu = CpuSample {
            model: owned(self.model.as_str()),
            total,
            per,
            per_mhz,
            governor: read_or_empty(borrowed(&raw.governor)),
            epp: read_or_empty(borrowed(&raw.epp)),
        };
        let mem = read_mem(borrowed(&raw.meminfo));
        let (battery, ac_online) = read_battery_and_ac(&raw.supplies);
        let vram = match &raw.vram {
            Some(f) => Some(
                read_vram(borrowed(&f.total), borrowed(&f.used), borrowed(&f.gtt_used)),
            ),
            None => None,
        };
        let sensors = read_chips(&self.chip_probes, &raw.hwmon);
        let mut chips: Vec<Chip<Value>> = Vec::new();
        assert(views(chips@) =~= Seq::<ChipModel<ValueModel>>::empty());
        add_chip(&mut chips, "amdgpu-sensor", read_drm_sensors(&raw.drm));
        let dpm = match &raw.dpm {
            Some(f) => read_amdgpu_dpm(f),
            None => {
                let none: Vec<Reading<Value>> = Vec::new();
                assert(views(none@) =~= Seq::<ReadingModel<ValueModel>>::empty());
                none
            },
        };
        add_chip(&mut chips, "amdgpu-dpm", dpm);
        add_chips(&mut chips, read_disk_io(&mut self.disk, borrowed(&raw.diskstats), now));
        add_chips(
            &mut chips,
            read_net_io(&mut self.net, raw.ifaces, borrowed(&raw.wireless), now),
        );
        let psi = read_psi(
            borrowed(&raw.psi_cpu),
            borrowed(&raw.psi_memory),
            borrowed(&raw.psi_io),
        );
        add_chip(&mut chips, "psi", psi);
        let pm = match &raw.pm_table {
            Some(t) => read_smu_pmtable(t.as_slice()),
            None => {
                let none: Vec<Reading<Value>> = Vec::new();
                assert(views(none@) =~= Seq::<ReadingModel<ValueModel>>::empty());
                none
            },
        };
        add_chip(&mut chips, "smu", pm);
        let smu = match &raw.smu {
            Some(f) => read_smu(f, &raw.core_numbers),
            None => {
                let none: Vec<Chip<Value>> = Vec::new();
                assert(views(none@) =~= Seq::<ChipModel<ValueModel>>::empty());
                none
            },
        };
        add_chips(&mut chips, smu);
        assert(views(chips@) =~= other_chips(*old(self), raw));
        Sample {
            hostname: owned(self.hostname.as_str()),
            kernel: owned(self.kernel.as_str()),
            uptime_s,
            load,
            cpu,
            mem,
            battery,
            ac_online,
            vram,
            sensors,
            packages,
            cores,
            others: chips,
        }
    }
}

// ---------- the power ----------

/// A reading of a power that can be true: not negative, and below the limit.
pub open spec fn plausible(limit: int) -> spec_fn(ReadingModel<Double>) -> Option<
    ReadingModel<Double>,
> {
    |r: ReadingModel<Double>|
        if !r.value.is_nan() && !r.value.below(0) && r.value.below(limit) {
            Some(r)
        } else {
            None
        }
}

/// The power of the packages below 500 W, and that of the cores below 200 W.
pub open spec fn power_readings(
    packages: Seq<ReadingModel<Double>>,
    cores: Seq<ReadingModel<Double>>,
) -> Seq<ReadingModel<Double>> {
    kept(packages, plausible(500)) + kept(cores, plausible(200))
}

pub open spec fn package() -> spec_fn(ReadingModel<Double>) -> Option<Double> {
    |r: ReadingModel<Double>|
        if r.label == "Package"@ {
            Some(r.value)
        } else {
            None
        }
}

fn add_plausible(out: &mut Vec<Reading<Double>>, readings: &Vec<Reading<Double>>, limit: i32)
    ensures
        views(final(out)@) == views(old(out)@) + kept(views(readings@), plausible(limit as int)),
{
    let ghost start = views(out@);
    let ghost all = views(readings@);
    let mut i: usize = 0;
    while i < readings.len()
        invariant
            i <= readings.len(),
            all == views(readings@),
            views(out@) =~= start + kept(all.take(i as int), plausible(limit as int)),
        decreases readings.len() - i,
    {
        let r = &readings[i];
        assert(all[i as int] == r@);
        proof {
            lemma_kept_step(all, plausible(limit as int), i as int);
        }
        if !r.value.nan() && !r.value.lt_whole(0) && r.value.lt_whole(limit) {
            put(
                out,
                Reading { label: owned(r.label.as_str()), value: r.value, unit: r.unit },
            );
        }
        i = i + 1;
    }
    proof {
        lemma_take_all(all);
    }
}

fn find_package(readings: &Vec<Reading<Double>>) -> (r: Option<Double>)
    ensures
        r == first(views(readings@), package()),
{
    let ghost all = views(readings@);
    let mut i: usize = 0;
    while i < readings.len()
        invariant
            i <= readings.len(),
            all == views(readings@),
            forall|j: int| 0 <= j < i ==> package()(#[trigger] all[j]) is None,
        decreases readings.len() - i,
    {
        assert(all[i as int] == readings@[i as int]@);
        if spells(chars(readings[i].label.as_str()).as_slice(), "Package") {
            proof {
                lemma_first_at(all, package(), i as int);
            }
            return Some(readings[i].value);
        }
        i = i + 1;
    }
    proof {
        lemma_first_none(all, package());
    }
    None
}

/// The chips of a snapshot, with the power as a chip between those of the sensors
/// and the others.
pub open spec fn assembled(
    sensors: Seq<ChipModel<Double>>,
    power: Seq<ReadingModel<Double>>,
    others: Seq<ChipModel<Double>>,
) -> Seq<ChipModel<Double>> {
    sensors + as_chip("rapl"@, power) + others
}

/// Puts the chips of a snapshot together, with the power that can be true
/// between those of the sensors and the others; and tells the power of the
/// first package.
pub fn assemble(
    sensors: Vec<Chip<Double>>,
    packages: &Vec<Reading<Double>>,
    cores: &Vec<Reading<Double>>,
    others: Vec<Chip<Double>>,
) -> (r: (Option<Double>, Vec<Chip<Double>>))
    ensures
        r.0 == first(power_readings(views(packages@), views(cores@)), package()),
        views(r.1@) == assembled(
            views(sensors@),
            power_readings(views(packages@), views(cores@)),
            views(others@),
        ),
{
    let mut power: Vec<Reading<Double>> = Vec::new();
    add_plausible(&mut power, packages, 500);
    add_plausible(&mut power, cores, 200);
    assert(views(power@) =~= power_readings(views(packages@), views(cores@)));
    let pkg_w = find_package(&power);
    let mut chips = sensors;
    add_chip(&mut chips, "rapl", power);
    add_chips(&mut chips, others);
    (pkg_w, chips)
}

/// No power that is shown is negative, or as high as what cannot be true.
pub proof fn lemma_power_is_plausible(
    packages: Seq<ReadingModel<Double>>,
    cores: Seq<ReadingModel<Double>>,
)
    ensures
        forall|i: int|
            0 <= i < power_readings(packages, cores).len() ==> {
                let v = (#[trigger] power_readings(packages, cores)[i]).value;
                !v.is_nan() && !v.below(0) && v.below(500)
            },
{
    lemma_kept_is_plausible(packages, 500);
    lemma_kept_is_plausible(cores, 200);
    assert(200 * one() <= 500 * one()) by (nonlinear_arith)
        requires
            one() >= 0,
    ;
}

proof fn lemma_kept_is_plausible(s: Seq<ReadingModel<Double>>, limit: int)
    ensures
        forall|i: int|
            0 <= i < kept(s, plausible(limit)).len() ==> {
                let v = (#[trigger] kept(s, plausible(limit))[i]).value;
                !v.is_nan() && !v.below(0) && v.below(limit)
            },
    decreases s.len(),
{
    if s.len() > 0 {
        lemma_kept_is_plausible(s.drop_last(), limit);
        lemma_take_all(s);
        lemma_kept_step(s, plausible(limit), s.len() - 1);
        assert(s.take(s.len() - 1) =~= s.drop_last());
    }
}

/// The first sample of a prober has no power and no rates: these are
/// differences, and there is nothing yet to differ from.
pub proof fn lemma_first_sample_has_no_rates(p: Prober, raw: Raw)
    requires
        p.last_snap is None,
        p.rapl@ == Map::<Seq<char>, EnergySample>::empty(),
        p.disk@ == Map::<Seq<char>, DiskSample>::empty(),
        p.net@ == Map::<Seq<char>, NetSample>::empty(),
    ensures
        package_powers(p, raw) == Seq::<ReadingModel<ValueModel>>::empty(),
        each_core_power(p, raw) == Seq::<ReadingModel<ValueModel>>::empty(),
        disk_chips(lines_of(seen(raw.diskstats)), p.disk@, raw.now) == Seq::<
            ChipModel<ValueModel>,
        >::empty(),
        net_rates(sorted(views(raw.ifaces@), IfaceFiles::key()), p.net@, raw.now) == Seq::<
            ReadingModel<ValueModel>,
        >::empty(),
{
    lemma_no_power_too_soon(sorted(views(raw.zones@), ZoneFiles::key()), p.rapl@, raw.now);
    if let Some(m) = p.msr {
        lemma_no_core_power_without_a_difference(
            m.cores@,
            raw.registers@,
            m.esu,
            since(p.last_snap, raw.now),
            m.cores@.len() as int,
        );
    }
    lemma_no_disk_rates_too_soon(lines_of(seen(raw.diskstats)), p.disk@, raw.now);
    lemma_no_network_rates_too_soon(
        sorted(views(raw.ifaces@), IfaceFiles::key()),
        p.net@,
        raw.now,
    );
}

/// Whether every chip has a reading.
pub open spec fn none_empty<M>(chips: Seq<ChipModel<M>>) -> bool {
    forall|i: int| 0 <= i < chips.len() ==> (#[trigger] chips[i]).readings.len() > 0
}

proof fn lemma_sensors_have_readings(
    probes: Seq<ChipProbe>,
    values: Seq<Vec<Option<String>>>,
    n: int,
)
    ensures
        none_empty(probed_chips(probes, values, n)),
    decreases n,
{
    if n > 0 {
        lemma_sensors_have_readings(probes, values, n - 1);
    }
}

proof fn lemma_disks_have_readings(ls: Seq<Seq<char>>, m: Map<Seq<char>, DiskSample>, now: u64)
    ensures
        none_empty(disk_chips(ls, m, now)),
    decreases ls.len(),
{
    if ls.len() > 0 {
        lemma_disks_have_readings(ls.drop_last(), m, now);
    }
}

proof fn lemma_none_empty_together<M>(a: Seq<ChipModel<M>>, b: Seq<ChipModel<M>>)
    requires
        none_empty(a),
        none_empty(b),
    ensures
        none_empty(a + b),
{
}

proof fn lemma_others_have_readings(p: Prober, raw: Raw)
    ensures
        none_empty(other_chips(p, raw)),
{
    let a = as_chip("amdgpu-sensor"@, drm_readings(raw.drm@, 6));
    let b = as_chip(
        "amdgpu-dpm"@,
        match raw.dpm {
            Some(f) => dpm_readings(f),
            None => Seq::empty(),
        },
    );
    let c = disk_chips(lines_of(seen(raw.diskstats)), p.disk@, raw.now);
    let d = as_chip(
        "net"@,
        net_readings(
            sorted(views(raw.ifaces@), IfaceFiles::key()),
            seen(raw.wireless),
            p.net@,
            raw.now,
        ),
    );
    let e = as_chip(
        "psi"@,
        psi_file("cpu"@, seen(raw.psi_cpu)) + psi_file("mem"@, seen(raw.psi_memory)) + psi_file(
            "io"@,
            seen(raw.psi_io),
        ),
    );
    let f = as_chip(
        "smu"@,
        match raw.pm_table {
            Some(t) => table_readings(t@),
            None => Seq::empty(),
        },
    );
    let g = match raw.smu {
        Some(f) => smu_chips(f, raw.core_numbers@),
        None => Seq::empty(),
    };
    lemma_disks_have_readings(lines_of(seen(raw.diskstats)), p.disk@, raw.now);
    lemma_none_empty_together(a, b);
    lemma_none_empty_together(a + b, c);
    lemma_none_empty_together(a + b + c, d);
    lemma_none_empty_together(a + b + c + d, e);
    lemma_none_empty_together(a + b + c + d + e, f);
    lemma_none_empty_together(a + b + c + d + e + f, g);
}

/// No chip of a sample is without a reading.
pub proof fn lemma_chips_have_readings(before: Prober, raw: Raw, s: Sample, after: Prober)
    requires
        sampled(before, raw, s, after),
    ensures
        none_empty(views(s.sensors@)),
        none_empty(views(s.others@)),
{
    lemma_sensors_have_readings(
        before.chip_probes@,
        raw.hwmon@,
        before.chip_probes@.len() as int,
    );
    lemma_others_have_readings(before, raw);
}

/// Where no chip is without a reading before the power is added, none is
/// afterwards. The power that is told is that of the first reading called
/// `Package` in the chip of the power; there is none where no reading is called
/// so.
pub proof fn lemma_assembled(
    sensors: Seq<ChipModel<Double>>,
    packages: Seq<ReadingModel<Double>>,
    cores: Seq<ReadingModel<Double>>,
    others: Seq<ChipModel<Double>>,
)
    requires
        none_empty(sensors),
        none_empty(others),
    ensures
        ({
            let power = power_readings(packages, cores);
            let chips = assembled(sensors, power, others);
            &&& none_empty(chips)
            &&& match first(power, package()) {
                Some(w) => {
                    let c = chips[sensors.len() as int];
                    &&& sensors.len() < chips.len()
                    &&& c.name == "rapl"@
                    &&& c.readings == power
                    &&& first(c.readings, package()) == Some(w)
                },
                None => forall|i: int|
                    0 <= i < power.len() ==> (#[trigger] power[i]).label != "Package"@,
            }
        }),
{
    let power = power_readings(packages, cores);
    if first(power, package()) is None {
        lemma_no_package(power);
    }
}

proof fn lemma_no_package(power: Seq<ReadingModel<Double>>)
    requires
        first(power, package()) is None,
    ensures
        forall|i: int| 0 <= i < power.len() ==> (#[trigger] power[i]).label != "Package"@,
    decreases power.len(),
{
    if power.len() > 0 {
        let t = power.drop_first();
        lemma_no_package(t);
        assert forall|i: int| 0 <= i < power.len() implies (#[trigger] power[i]).label
            != "Package"@ by {
            if i > 0 {
                assert(power[i] == t[i - 1]);
            } else {
                assert(package()(power[0]) is None);
            }
        }
    }
}

/// One sample: the prober before it, what was read, the sample, and the prober
/// after it.
pub struct Round {
    pub before: Prober,
    pub raw: Raw,
    pub sample: Sample,
    pub after: Prober,
}

pub open spec fn same_machine(a: Prober, b: Prober) -> bool {
    &&& a.hostname@ == b.hostname@
    &&& a.kernel@ == b.kernel@
    &&& a.model@ == b.model@
    &&& a.threads == b.threads
}

/// Whether the rounds are the samples of one prober, one after another. Between
/// two of them its registers may be opened and its chips be looked for.
pub open spec fn one_prober(rounds: Seq<Round>) -> bool {
    &&& forall|i: int|
        0 <= i < rounds.len() ==> {
            let r = #[trigger] rounds[i];
            sampled(r.before, r.raw, r.sample, r.after)
        }
    &&& forall|i: int, j: int|
        0 <= i && j == i + 1 && j < rounds.len() ==> same_machine(
            (#[trigger] rounds[i]).after,
            (#[trigger] rounds[j]).before,
        )
}

/// Any two samples of a prober, however many lie between them, agree on the names
/// of the machine, its kernel and its processor, and have as many frequencies as
/// there are threads.
pub proof fn lemma_samples_agree(rounds: Seq<Round>, i: int, j: int)
    requires
        one_prober(rounds),
        0 <= i <= j < rounds.len(),
    ensures
        rounds[i].sample.hostname@ == rounds[j].sample.hostname@,
        rounds[i].sample.kernel@ == rounds[j].sample.kernel@,
        rounds[i].sample.cpu.model@ == rounds[j].sample.cpu.model@,
        rounds[i].sample.cpu.per_mhz@.len() == rounds[i].before.threads,
        rounds[j].sample.cpu.per_mhz@.len() == rounds[i].before.threads,
{
    lemma_machine_stays(rounds, i, j);
    let (a, b) = (rounds[i], rounds[j]);
    assert(views(a.sample.cpu.per_mhz@).len() == a.before.threads);
    assert(views(b.sample.cpu.per_mhz@).len() == b.before.threads);
}

proof fn lemma_machine_stays(rounds: Seq<Round>, i: int, j: int)
    requires
        one_prober(rounds),
        0 <= i <= j < rounds.len(),
    ensures
        same_machine(rounds[i].before, rounds[j].before),
    decreases j - i,
{
    if i < j {
        lemma_machine_stays(rounds, i, j - 1);
        let r = rounds[j - 1];
        assert(sampled(r.before, r.raw, r.sample, r.after));
        assert(same_machine(rounds[j - 1].after, rounds[j].before));
    }
}

} // verus!
