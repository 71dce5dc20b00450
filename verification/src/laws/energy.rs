//! Energy counters: what packages and cores draw.
use vstd::arithmetic::power2::{lemma2_to64, lemma_pow2_unfold, pow2};
use vstd::prelude::*;

use crate::files::{file_text, file_u64};
use crate::laws::text::lemma_occurs_within;
use crate::lists::{listed, seen};
use crate::model::{ReadingModel, Unit, ValueModel};
use crate::msr::{
    all_known, core_label, core_power, core_powers, counter, energy_exponent, groups_of,
    opened_cores, two_to, CoreFiles, CoreModel, MsrCore,
};
use crate::numbers::{dec, written};
use crate::probe::since;
use crate::rapl::{
    after_zones, energy_used, is_package, remembered, zone_power, zone_powers, EnergySample,
    ZoneFiles, ZoneModel,
};
use crate::text::{lemma_find_text, occurs};

verus! {

/// A zone is what its own files say.
pub proof fn lemma_zone_files(z: ZoneFiles)
    ensures
        z@.dir == z.dir@,
        z@.name == file_text(seen(z.name)),
        z@.energy == file_u64(seen(z.energy)),
        z@.range == file_u64(seen(z.range)),
{
}

/// A zone that is called a package is one where its counter could be read; the
/// zone of a core is not.
pub proof fn lemma_packages(z: ZoneModel, a: Seq<char>, b: Seq<char>)
    ensures
        z.name == Some(a + "package"@ + b) ==> (is_package(z) <==> z.energy is Some),
        z.name == Some("core"@) ==> !is_package(z),
        z.name is None ==> !is_package(z),
{
    lemma_occurs_within(a, "package"@, b);
    reveal_strlit("package");
    reveal_strlit("core");
    lemma_find_text("core"@, "package"@);
}

/// What a package draws: the microjoules by which its counter has grown, over the
/// time in between, in watts. It takes two samples at least 50 milliseconds apart.
pub proof fn lemma_package_power(
    dir: Seq<char>,
    name: Option<Seq<char>>,
    range: Option<int>,
    start: u64,
    used: u64,
    at: u64,
    nanos: u64,
)
    requires
        name is Some,
        occurs(name->0, "package"@),
        start + used <= u64::MAX,
        at + nanos <= u64::MAX,
    ensures
        ({
            let a = ZoneModel { dir, name, energy: Some(start as int), range };
            let b = ZoneModel { dir, name, energy: Some(start + used), range };
            let m = after_zones(seq![a], Map::empty(), at);
            let r = zone_powers(seq![b], m, (at + nanos) as u64);
            &&& zone_powers(seq![a], Map::empty(), at).len() == 0
            &&& nanos < 50_000_000 ==> r.len() == 0
            &&& nanos >= 50_000_000 ==> r == seq![
                ReadingModel {
                    label: "Package"@,
                    value: ValueModel::Rate {
                        amount: used,
                        times: 1,
                        nanos,
                        divisor: 1_000_000,
                    },
                    unit: Unit::Watts,
                },
            ]
        }),
{
    let a = ZoneModel { dir, name, energy: Some(start as int), range };
    let b = ZoneModel { dir, name, energy: Some(start + used), range };
    let none = Map::<Seq<char>, EnergySample>::empty();
    let m = after_zones(seq![a], none, at);
    let t = (at + nanos) as u64;
    assert(seq![a].drop_last() =~= Seq::<ZoneModel>::empty());
    assert(seq![b].drop_last() =~= Seq::<ZoneModel>::empty());
    assert(after_zones(Seq::<ZoneModel>::empty(), none, at) == none);
    assert(after_zones(Seq::<ZoneModel>::empty(), m, t) == m);
    assert(zone_powers(Seq::<ZoneModel>::empty(), none, at).len() == 0);
    assert(zone_powers(Seq::<ZoneModel>::empty(), m, t).len() == 0);
    assert(m == remembered(none, a, at));
    assert(zone_powers(seq![b], m, t) =~= listed(zone_power(m, b, t)));
    assert(zone_powers(seq![a], none, at) =~= listed(zone_power(none, a, at)));
}

/// A counter starts over behind the value that its zone names as its range, and
/// behind the largest of all where it names none.
pub proof fn lemma_remembered_range(m: Map<Seq<char>, EnergySample>, z: ZoneModel, now: u64)
    requires
        is_package(z),
        0 <= z.energy->0 <= u64::MAX,
        z.range is Some ==> 0 <= z.range->0 <= u64::MAX,
    ensures
        remembered(m, z, now).dom().contains(z.dir),
        remembered(m, z, now)[z.dir].energy == z.energy->0,
        remembered(m, z, now)[z.dir].at == now,
        z.range is Some ==> remembered(m, z, now)[z.dir].range == z.range->0,
        z.range is None ==> remembered(m, z, now)[z.dir].range == u64::MAX,
        forall|d: Seq<char>|
            d != z.dir ==> (remembered(m, z, now).dom().contains(d) <==> #[trigger] m.dom().contains(
                d,
            )) && (m.dom().contains(d) ==> remembered(m, z, now)[d] == m[d]),
{
}

// ---------- cores ----------

/// The files on a processor's place are those of its core and its threads.
pub proof fn lemma_core_files(f: CoreFiles)
    ensures
        f@.core_id == file_text(seen(f.core_id)),
        f@.siblings == file_text(seen(f.siblings)),
{
}

/// The exponent of the energy unit stands in five bits of its register, from the
/// ninth on.
pub proof fn lemma_energy_unit(high: u64, exponent: u64, low: u64)
    requires
        exponent < 32,
        low < 256,
        high * 8192 + exponent * 256 + low <= u64::MAX,
    ensures
        energy_exponent((high * 8192 + exponent * 256 + low) as u64) == exponent,
{
}

/// A counter is the lower half of its register.
pub proof fn lemma_lower_half(high: u32, low: u32)
    ensures
        counter((high * 0x1_0000_0000 + low) as u64) == low,
{
}

proof fn lemma_two_to(n: u32)
    ensures
        two_to(n) == pow2(n as nat),
    decreases n,
{
    if n > 0 {
        lemma_two_to((n - 1) as u32);
        lemma_pow2_unfold(n as nat);
    } else {
        lemma2_to64();
    }
}

/// What a core draws: the units by which its counter has grown, each a joule
/// divided by a power of two, over the time since the last sample, in watts. The
/// counter may have started over once. Without a counter before, a counter now or
/// a time in between there is no reading.
pub proof fn lemma_core_power(
    label: Seq<char>,
    before: u64,
    used: u32,
    esu: u32,
    nanos: u64,
    register: Option<u64>,
)
    requires
        before + used <= u64::MAX,
        esu < 32,
    ensures
        core_power(
            label,
            Some(counter(before)),
            Some((before + used) as u64),
            esu,
            Some(nanos),
        ) == Some(
            ReadingModel {
                label,
                value: ValueModel::Rate {
                    amount: used as u64,
                    times: 1,
                    nanos,
                    divisor: pow2(esu as nat) as u64,
                },
                unit: Unit::Watts,
            },
        ),
        core_power(label, None, register, esu, Some(nanos)) is None,
        core_power(label, Some(counter(before)), None, esu, Some(nanos)) is None,
        core_power(label, Some(counter(before)), register, esu, None) is None,
{
    lemma_two_to(esu);
    let m = 0x1_0000_0000int;
    let (a, b) = (before as int % m, (before + used) % m);
    assert((b - a) % m == used) by {
        assert(before == m * (before as int / m) + a);
        assert(before + used == m * ((before + used) / m) + b);
        let k = (before + used) / m - before as int / m;
        assert(k == 0 || k == 1);
    }
}

/// The time since the last sample counts if it is at least 50 milliseconds.
pub proof fn lemma_since(last: u64, nanos: u64)
    requires
        last + nanos <= u64::MAX,
    ensures
        since(None, last) is None,
        nanos >= 50_000_000 ==> since(Some(last), (last + nanos) as u64) == Some(nanos),
        nanos < 50_000_000 ==> since(Some(last), (last + nanos) as u64) is None,
{
}

/// Each core has its own register: the one at its place.
pub proof fn lemma_own_register(
    cores: Seq<MsrCore>,
    registers: Seq<Option<u64>>,
    esu: u32,
    nanos: Option<u64>,
)
    requires
        registers.len() == cores.len(),
        forall|i: int|
            0 <= i < cores.len() ==> (#[trigger] cores[i]).prev is Some && registers[i] is Some,
        nanos is Some,
    ensures
        core_powers(cores, registers, esu, nanos, cores.len() as int).len() == cores.len(),
        forall|i: int|
            0 <= i < cores.len() ==> Some(
                #[trigger] core_powers(cores, registers, esu, nanos, cores.len() as int)[i],
            ) == core_power(cores[i].label@, cores[i].prev, registers[i], esu, nanos),
{
    lemma_first_registers(cores, registers, esu, nanos, cores.len() as int);
}

proof fn lemma_first_registers(
    cores: Seq<MsrCore>,
    registers: Seq<Option<u64>>,
    esu: u32,
    nanos: Option<u64>,
    n: int,
)
    requires
        0 <= n <= cores.len(),
        registers.len() == cores.len(),
        forall|i: int|
            0 <= i < cores.len() ==> (#[trigger] cores[i]).prev is Some && registers[i] is Some,
        nanos is Some,
    ensures
        core_powers(cores, registers, esu, nanos, n).len() == n,
        forall|i: int|
            0 <= i < n ==> Some(#[trigger] core_powers(cores, registers, esu, nanos, n)[i])
                == core_power(cores[i].label@, cores[i].prev, registers[i], esu, nanos),
    decreases n,
{
    if n > 0 {
        lemma_first_registers(cores, registers, esu, nanos, n - 1);
        assert(cores[n - 1].prev is Some);
    }
}

/// A core with a number of one digit or two is called `C` and its number in two
/// digits.
pub proof fn lemma_core_name(n: nat)
    ensures
        n < 10 ==> core_label(dec(n)) == "C0"@ + dec(n),
        10 <= n < 100 ==> core_label(dec(n)) == "C"@ + dec(n),
{
    reveal_strlit("C0");
    reveal_strlit("C");
    reveal_with_fuel(written, 2);
    if n < 10 {
        assert(core_label(dec(n)) =~= "C0"@ + dec(n));
    }
}

/// Threads that share a core are one core, under the first of them; any other
/// thread is a core of its own.
pub proof fn lemma_threads_of_a_core(t: Seq<CoreModel>, c: CoreModel)
    ensures
        (exists|j: int| 0 <= j < t.len() && (#[trigger] t[j]).siblings == c.siblings) ==> groups_of(
            t.push(c),
        ) == groups_of(t),
        (forall|j: int| 0 <= j < t.len() ==> (#[trigger] t[j]).siblings != c.siblings) ==> groups_of(
            t.push(c),
        ) == groups_of(t).push((core_label(c.core_id->0), t.len() as int)),
{
    let u = t.push(c);
    assert(u.drop_last() =~= t);
    if exists|j: int| 0 <= j < t.len() && (#[trigger] t[j]).siblings == c.siblings {
        let j = choose|j: int| 0 <= j < t.len() && (#[trigger] t[j]).siblings == c.siblings;
        assert(u[j].siblings == u[t.len() as int].siblings);
    } else {
        assert forall|j: int| 0 <= j < t.len() implies (#[trigger] u[j]).siblings != u[t.len() as int].siblings by {
            assert(u[j] == t[j]);
        }
    }
}

/// The cores that are read are those whose registers could be opened.
pub proof fn lemma_opened(groups: Seq<(Seq<char>, int)>, g: (Seq<char>, int), opened: Seq<bool>)
    requires
        opened.len() > groups.len(),
    ensures
        opened[groups.len() as int] ==> opened_cores(groups.push(g), opened) == opened_cores(
            groups,
            opened,
        ).push(g),
        !opened[groups.len() as int] ==> opened_cores(groups.push(g), opened) == opened_cores(
            groups,
            opened,
        ),
        opened_cores(Seq::empty(), opened).len() == 0,
{
    assert(groups.push(g).drop_last() =~= groups);
}

/// What a counter has grown by where it started over: what was left up to its range,
/// and what it has counted since; where it had passed its range, that alone. A sum
/// that is too large is held at the largest number.
pub proof fn lemma_start_over(before: EnergySample, now: u64)
    ensures
        now >= before.energy ==> energy_used(before, now) == now - before.energy,
        now < before.energy && before.energy <= before.range && before.range - before.energy + now
            <= 18_446_744_073_709_551_615 ==> energy_used(before, now) == before.range
            - before.energy + now,
        now < before.energy && before.energy > before.range ==> energy_used(before, now) == now,
        now < before.energy && before.energy <= before.range && before.range - before.energy + now
            > 18_446_744_073_709_551_615 ==> energy_used(before, now)
            == 18_446_744_073_709_551_615,
{
}

/// A zone is a package where its name says so and its counter could be read, and is
/// otherwise neither read nor remembered.
pub proof fn lemma_other_zones(m: Map<Seq<char>, EnergySample>, z: ZoneModel, now: u64)
    requires
        z.name is None || !occurs(z.name->0, "package"@) || z.energy is None,
    ensures
        !is_package(z),
        remembered(m, z, now) == m,
        zone_power(m, z, now) is None,
{
}

/// Zones are read one after the other, and each is remembered.
pub proof fn lemma_zone_by_zone(
    zs: Seq<ZoneModel>,
    z: ZoneModel,
    m: Map<Seq<char>, EnergySample>,
    now: u64,
)
    requires
        forall|i: int| 0 <= i < zs.len() ==> (#[trigger] zs[i]).dir != z.dir,
    ensures
        zone_powers(zs.push(z), m, now) == zone_powers(zs, m, now) + listed(zone_power(m, z, now)),
        after_zones(zs.push(z), m, now) == remembered(after_zones(zs, m, now), z, now),
        zone_powers(Seq::empty(), m, now).len() == 0,
        after_zones(Seq::empty(), m, now) == m,
{
    assert(zs.push(z).drop_last() =~= zs);
    lemma_other_directories(zs, z.dir, m, now);
}

proof fn lemma_other_directories(
    zs: Seq<ZoneModel>,
    dir: Seq<char>,
    m: Map<Seq<char>, EnergySample>,
    now: u64,
)
    requires
        forall|i: int| 0 <= i < zs.len() ==> (#[trigger] zs[i]).dir != dir,
    ensures
        after_zones(zs, m, now).dom().contains(dir) <==> m.dom().contains(dir),
        m.dom().contains(dir) ==> after_zones(zs, m, now)[dir] == m[dir],
    decreases zs.len(),
{
    if zs.len() > 0 {
        lemma_other_directories(zs.drop_last(), dir, m, now);
        assert(zs[zs.len() - 1].dir != dir);
    }
}

/// A core with a number of three digits or more is called by all of them.
pub proof fn lemma_long_core_name(n: nat)
    requires
        n >= 100,
    ensures
        core_label(dec(n)) == "C"@ + dec(n),
{
    reveal_with_fuel(written, 2);
    assert(dec(n).len() >= 2);
}

/// All cores are known where the files of each could be read.
pub proof fn lemma_all_known(t: Seq<CoreModel>, c: CoreModel)
    ensures
        all_known(Seq::empty()),
        c.core_id is None || c.siblings is None ==> !all_known(t.push(c)),
        c.core_id is Some && c.siblings is Some ==> (all_known(t.push(c)) <==> all_known(t)),
{
    let u = t.push(c);
    assert(u[t.len() as int] == c);
    assert(forall|i: int| 0 <= i < t.len() ==> #[trigger] u[i] == t[i]);
    if all_known(u) {
        assert forall|i: int| 0 <= i < t.len() implies (#[trigger] t[i]).core_id is Some
            && t[i].siblings is Some by {
            assert(u[i].core_id is Some);
        }
    }
}

} // verus!
