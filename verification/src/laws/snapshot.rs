//! Snapshots: which file each value of a sample comes from, and how a sample becomes a
//! snapshot.
use vstd::prelude::*;

use crate::battery::{battery_fn, online_fn};
use crate::cpu::{busy_share, stat_of};
use crate::double::{one, Double};
use crate::files::file_decimal;
use crate::firmware::{smu_chips, table_readings, SmuFiles};
use crate::gpu::{dpm_readings, drm_readings, DpmFiles};
use crate::hwmon::probed_chips;
use crate::laws::text::{all_words, blank, lemma_spaced, lemma_trimmed, spaced};
use crate::lists::{first, kept, lemma_first_at, lemma_kept_both, lemma_kept_one, seen, views};
use crate::memory::{lines_of, mem_of};
use crate::model::{ChipModel, ReadingModel, ValueModel};
use crate::msr::{core_names, core_powers, counter};
use crate::numbers::is_decimal;
use crate::order::{sorted, Labelled};
use crate::probe::{
    assembled, other_chips, package, plausible, power_readings, sampled, since, Prober, Raw, Sample,
};
use crate::psi::psi_file;
use crate::rapl::{after_zones, zone_powers, ZoneFiles};
use crate::text::is_space;
use crate::traffic::{after_disks, after_ifaces, as_chip, disk_chips, net_readings, IfaceFiles};

verus! {

/// A sample tells the host, the kernel and the model that were found at first.
pub proof fn lemma_constant_parts(before: Prober, raw: Raw, r: Sample, after: Prober)
    requires
        sampled(before, raw, r, after),
    ensures
        r.hostname@ == before.hostname@,
        r.kernel@ == before.kernel@,
        r.cpu.model@ == before.model@,
        r.cpu.per_mhz@.len() == before.threads,
{
    assert(r.cpu.per_mhz@.len() == views(r.cpu.per_mhz@).len());
}

/// The time since the start is the first word of its file, in seconds, and the loads are
/// the first three words of theirs.
pub proof fn lemma_times_and_loads(
    before: Prober,
    raw: Raw,
    r: Sample,
    after: Prober,
    us: Seq<Seq<char>>,
    ls: Seq<Seq<char>>,
)
    requires
        sampled(before, raw, r, after),
        all_words(us),
        all_words(ls),
        us.len() > 0,
        ls.len() >= 3,
        seen(raw.uptime) == Some(spaced(us)),
        seen(raw.loadavg) == Some(spaced(ls)),
        is_decimal(us[0]) && is_decimal(ls[0]) && is_decimal(ls[1]) && is_decimal(ls[2]),
    ensures
        r.uptime_s@ == (ValueModel::Decimal { text: us[0], divisor: 1 }),
        r.load@[0]@ == (ValueModel::Decimal { text: ls[0], divisor: 1 }),
        r.load@[1]@ == (ValueModel::Decimal { text: ls[1], divisor: 1 }),
        r.load@[2]@ == (ValueModel::Decimal { text: ls[2], divisor: 1 }),
{
    lemma_spaced(us);
    lemma_spaced(ls);
}

/// What could not be read counts as zero.
pub proof fn lemma_no_times(before: Prober, raw: Raw, r: Sample, after: Prober)
    requires
        sampled(before, raw, r, after),
    ensures
        raw.uptime is None ==> r.uptime_s@ == (ValueModel::Count { n: 0, divisor: 1 }),
        raw.loadavg is None ==> r.load@[0]@ == (ValueModel::Count { n: 0, divisor: 1 })
            && r.load@[1]@ == (ValueModel::Count { n: 0, divisor: 1 }) && r.load@[2]@ == (
        ValueModel::Count { n: 0, divisor: 1 }),
{
}

/// The governor and its preference are what their own files say, without the blanks
/// around it; nothing where a file could not be read.
pub proof fn lemma_governor(
    before: Prober,
    raw: Raw,
    r: Sample,
    after: Prober,
    front: Seq<char>,
    t: Seq<char>,
    back: Seq<char>,
)
    requires
        sampled(before, raw, r, after),
        blank(front),
        blank(back),
        t.len() > 0,
        !is_space(t[0]) && !is_space(t.last()),
    ensures
        seen(raw.governor) == Some(front + t + back) ==> r.cpu.governor@ == t,
        seen(raw.epp) == Some(front + t + back) ==> r.cpu.epp@ == t,
        raw.governor is None ==> r.cpu.governor@.len() == 0,
        raw.epp is None ==> r.cpu.epp@.len() == 0,
{
    lemma_trimmed(front, t, back);
}

/// Frequencies are told in kHz and taken in MHz, each from the file of its thread; a
/// thread whose file could not be read has none.
pub proof fn lemma_frequencies(
    before: Prober,
    raw: Raw,
    r: Sample,
    after: Prober,
    i: int,
    p: Seq<char>,
)
    requires
        sampled(before, raw, r, after),
        0 <= i < before.threads,
    ensures
        i < raw.freqs@.len() && file_decimal(seen(raw.freqs@[i])) == Some(p)
            ==> r.cpu.per_mhz@[i]@ == (ValueModel::Decimal { text: p, divisor: 1000 }),
        i >= raw.freqs@.len() || file_decimal(seen(raw.freqs@[i])) is None
            ==> r.cpu.per_mhz@[i]@ == (ValueModel::Count { n: 0, divisor: 1000 }),
{
    let all = views(r.cpu.per_mhz@);
    assert(all.len() == before.threads);
    assert(r.cpu.per_mhz@.len() == all.len());
    assert(r.cpu.per_mhz@[i]@ == all[i]);
}

/// The shares of the processors are those since the sample before, and the next ones
/// will be those since this sample.
pub proof fn lemma_shares(before: Prober, raw: Raw, r: Sample, after: Prober, i: int)
    requires
        sampled(before, raw, r, after),
    ensures
        stat_of(seen(raw.stat)) matches Some((t, per)) ==> {
            &&& r.cpu.total == busy_share(before.cpu.total, t)
            &&& r.cpu.per@.len() == per.len()
            &&& 0 <= i < per.len() && i < before.cpu.per@.len() ==> r.cpu.per@[i] == busy_share(
                Some(before.cpu.per@[i]),
                per[i],
            )
            &&& after.cpu.total == Some(t)
            &&& after.cpu.per@ == per
        },
        stat_of(seen(raw.stat)) is None ==> r.cpu.total.whole == 0 && r.cpu.total.part == 0
            && r.cpu.per@.len() == 0 && after.cpu.total == before.cpu.total,
{
}

/// Memory, the battery, outside power and the sensors are what their own files say.
pub proof fn lemma_parts_of_a_sample(before: Prober, raw: Raw, r: Sample, after: Prober)
    requires
        sampled(before, raw, r, after),
    ensures
        mem_of(r.mem, lines_of(seen(raw.meminfo))),
        seen(r.battery) == first(raw.supplies@, battery_fn()),
        r.ac_online == first(raw.supplies@, online_fn()),
        views(r.sensors@) == probed_chips(
            before.chip_probes@,
            raw.hwmon@,
            before.chip_probes@.len() as int,
        ),
        views(r.packages@) == zone_powers(
            sorted(views(raw.zones@), ZoneFiles::key()),
            before.rapl@,
            raw.now,
        ),
        after.rapl@ == after_zones(
            sorted(views(raw.zones@), ZoneFiles::key()),
            before.rapl@,
            raw.now,
        ),
        after.disk@ == after_disks(lines_of(seen(raw.diskstats)), before.disk@, raw.now),
        after.net@ == after_ifaces(
            sorted(views(raw.ifaces@), IfaceFiles::key()),
            before.net@,
            raw.now,
        ),
{
}

/// Graphics memory is told in bytes and taken in MiB, each value from its own file.
pub proof fn lemma_graphics_memory_files(
    before: Prober,
    raw: Raw,
    r: Sample,
    after: Prober,
    total: Seq<char>,
    used: Seq<char>,
    other: Seq<char>,
)
    requires
        sampled(before, raw, r, after),
    ensures
        raw.vram is None ==> r.vram is None,
        raw.vram matches Some(f) ==> {
            &&& r.vram matches Some(v)
            &&& file_decimal(seen(f.total)) == Some(total) ==> v.total_mib@ == (
            ValueModel::Decimal { text: total, divisor: 1_048_576 })
            &&& file_decimal(seen(f.used)) == Some(used) ==> v.used_mib@ == (ValueModel::Decimal {
                text: used,
                divisor: 1_048_576,
            })
            &&& file_decimal(seen(f.gtt_used)) == Some(other) ==> seen(v.gtt_used_mib) == Some(
                ValueModel::Decimal { text: other, divisor: 1_048_576 },
            )
            &&& file_decimal(seen(f.gtt_used)) is None ==> v.gtt_used_mib is None
        },
{
}

/// The time of a sample is remembered for the next.
pub proof fn lemma_time_is_remembered(before: Prober, raw: Raw, r: Sample, after: Prober)
    requires
        sampled(before, raw, r, after),
    ensures
        after.last_snap == Some(raw.now),
{
}

/// The chips behind those of the sensors: the graphics processor by its driver and by
/// its files, the disks, the network, the pressure of the processor, of memory and of
/// input and output in this order, the table, and the files of the module.
pub proof fn lemma_other_chips(p: Prober, raw: Raw, d: DpmFiles, t: Vec<u8>, f: SmuFiles)
    requires
        raw.dpm == Some(d),
        raw.pm_table == Some(t),
        raw.smu == Some(f),
    ensures
        other_chips(p, raw) == as_chip("amdgpu-sensor"@, drm_readings(raw.drm@, 6)) + as_chip(
            "amdgpu-dpm"@,
            dpm_readings(d),
        ) + disk_chips(lines_of(seen(raw.diskstats)), p.disk@, raw.now) + as_chip(
            "net"@,
            net_readings(
                sorted(views(raw.ifaces@), IfaceFiles::key()),
                seen(raw.wireless),
                p.net@,
                raw.now,
            ),
        ) + as_chip(
            "psi"@,
            psi_file("cpu"@, seen(raw.psi_cpu)) + psi_file("mem"@, seen(raw.psi_memory)) + psi_file(
                "io"@,
                seen(raw.psi_io),
            ),
        ) + as_chip("smu"@, table_readings(t@)) + smu_chips(f, raw.core_numbers@),
{
}

/// What is missing of these adds nothing, and hides nothing of the rest.
pub proof fn lemma_missing_chips(p: Prober, raw: Raw)
    requires
        raw.drm@.len() == 0,
        raw.dpm is None,
        raw.pm_table is None,
        raw.smu is None,
        raw.psi_cpu is None,
        raw.psi_memory is None,
        raw.psi_io is None,
    ensures
        other_chips(p, raw) == disk_chips(lines_of(seen(raw.diskstats)), p.disk@, raw.now)
            + as_chip(
            "net"@,
            net_readings(
                sorted(views(raw.ifaces@), IfaceFiles::key()),
                seen(raw.wireless),
                p.net@,
                raw.now,
            ),
        ),
{
    reveal_with_fuel(drm_readings, 7);
    let none = Seq::<ChipModel<ValueModel>>::empty();
    let empty = Seq::<ReadingModel<ValueModel>>::empty();
    assert(drm_readings(raw.drm@, 6) =~= empty);
    assert(psi_file("cpu"@, None) + psi_file("mem"@, None) + psi_file("io"@, None) =~= empty);
    let d = disk_chips(lines_of(seen(raw.diskstats)), p.disk@, raw.now);
    assert(none + none + d =~= d);
    assert(other_chips(p, raw) =~= d + as_chip(
        "net"@,
        net_readings(
            sorted(views(raw.ifaces@), IfaceFiles::key()),
            seen(raw.wireless),
            p.net@,
            raw.now,
        ),
    ));
}

// ---------- from a sample to a snapshot ----------

/// The power of a package is believed from zero up to below 500 watts, and that of a
/// core up to below 200; what is no number is not.
pub proof fn lemma_believed_power(
    packages: Seq<ReadingModel<Double>>,
    cores: Seq<ReadingModel<Double>>,
    r: ReadingModel<Double>,
)
    ensures
        ({
            let v = r.value;
            let (a, b) = (kept(packages, plausible(500)), kept(cores, plausible(200)));
            &&& power_readings(packages, cores) == a + b
            &&& !v.is_nan() && 0 <= v.scaled() < 500 * one() ==> power_readings(
                packages.push(r),
                cores,
            ) == a.push(r) + b
            &&& v.is_nan() || v.scaled() < 0 || v.scaled() >= 500 * one() ==> power_readings(
                packages.push(r),
                cores,
            ) == a + b
            &&& !v.is_nan() && 0 <= v.scaled() < 200 * one() ==> power_readings(
                packages,
                cores.push(r),
            ) == a + b.push(r)
            &&& v.is_nan() || v.scaled() < 0 || v.scaled() >= 200 * one() ==> power_readings(
                packages,
                cores.push(r),
            ) == a + b
        }),
{
    let (f, g) = (plausible(500), plausible(200));
    lemma_kept_both(packages, seq![r], f);
    lemma_kept_both(cores, seq![r], g);
    lemma_kept_one(r, f);
    lemma_kept_one(r, g);
    assert(packages + seq![r] =~= packages.push(r));
    assert(cores + seq![r] =~= cores.push(r));
    let (a, b) = (kept(packages, f), kept(cores, g));
    let none = Seq::<ReadingModel<Double>>::empty();
    assert(a + seq![r] =~= a.push(r));
    assert(b + seq![r] =~= b.push(r));
    assert(a + none =~= a);
    assert(b + none =~= b);
}

/// The power of the processor is that of the first package that is called so.
pub proof fn lemma_package_power_is_first(power: Seq<ReadingModel<Double>>, k: int)
    requires
        0 <= k < power.len(),
        power[k].label == "Package"@,
        forall|i: int| 0 <= i < k ==> (#[trigger] power[i]).label != "Package"@,
    ensures
        first(power, package()) == Some(power[k].value),
{
    lemma_first_at(power, package(), k);
}

/// The chips of the sensors come first, then one of all powers, and then the others.
pub proof fn lemma_chips_in_order(
    sensors: Seq<ChipModel<Double>>,
    power: Seq<ReadingModel<Double>>,
    others: Seq<ChipModel<Double>>,
)
    ensures
        power.len() == 0 ==> assembled(sensors, power, others) == sensors + others,
        power.len() > 0 ==> assembled(sensors, power, others) == sensors.push(
            ChipModel { name: "rapl"@, readings: power },
        ) + others,
{
    if power.len() == 0 {
        assert(assembled(sensors, power, others) =~= sensors + others);
    } else {
        assert(assembled(sensors, power, others) =~= sensors.push(
            ChipModel { name: "rapl"@, readings: power },
        ) + others);
    }
}

/// The cores are read since the last sample, and each counter is remembered where its
/// register could be read.
pub proof fn lemma_core_counters(before: Prober, raw: Raw, r: Sample, after: Prober, i: int)
    requires
        sampled(before, raw, r, after),
    ensures
        before.msr is None ==> r.cores@.len() == 0 && after.msr is None,
        before.msr matches Some(m) ==> {
            &&& views(r.cores@) == core_powers(
                m.cores@,
                raw.registers@,
                m.esu,
                since(before.last_snap, raw.now),
                m.cores@.len() as int,
            )
            &&& after.msr matches Some(n)
            &&& n.esu == m.esu
            &&& core_names(n.cores@) == core_names(m.cores@)
            &&& 0 <= i < m.cores@.len() && i < raw.registers@.len() && raw.registers@[i] is Some
                ==> n.cores@[i].prev == Some(counter(raw.registers@[i]->0))
            &&& 0 <= i < m.cores@.len() && (i >= raw.registers@.len() || raw.registers@[i] is None)
                ==> n.cores@[i].prev == m.cores@[i].prev
        },
{
    assert(r.cores@.len() == views(r.cores@).len());
}

} // verus!
