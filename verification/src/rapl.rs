//! What the processor package draws, by the energy counters of the kernel's
//! power capping zones.
//!
//! Only the zones of packages count: the zone that is called `core` holds the
//! counter of a single core.
use vstd::prelude::*;

use crate::files::{borrowed, file_text, file_u64, read_trimmed, read_u64};
use crate::lists::{lemma_take_all, listed, put, seen, views};
use crate::model::{excess, over, Reading, ReadingModel, Unit, Value, ValueModel};
use crate::order::{sort_by_label, sorted, Labelled};
use crate::table::Table;
use crate::text::{chars, contains, occurs, owned};

verus! {

/// The files of a zone, and the path of its directory.
pub struct ZoneFiles {
    pub dir: String,
    pub name: Option<String>,
    pub energy: Option<String>,
    pub range: Option<String>,
}

/// What the files of a zone say.
#[verifier::ext_equal]
pub struct ZoneModel {
    pub dir: Seq<char>,
    pub name: Option<Seq<char>>,
    pub energy: Option<int>,
    pub range: Option<int>,
}

impl View for ZoneFiles {
    type V = ZoneModel;

    open spec fn view(&self) -> ZoneModel {
        ZoneModel {
            dir: self.dir@,
            name: file_text(seen(self.name)),
            energy: file_u64(seen(self.energy)),
            range: file_u64(seen(self.range)),
        }
    }
}

impl Labelled for ZoneFiles {
    open spec fn key() -> spec_fn(ZoneModel) -> Seq<char> {
        |z: ZoneModel| z.dir
    }

    fn label(&self) -> (r: &str) {
        self.dir.as_str()
    }
}

/// A counter in microjoules, the value it starts over behind, and the time in
/// nanoseconds at which it was read.
#[derive(Clone, Copy, Debug, PartialEq, Eq, Structural)]
pub struct EnergySample {
    pub energy: u64,
    pub range: u64,
    pub at: u64,
}

/// Readings closer together than this, in nanoseconds, say nothing of a rate.
pub const SHORTEST: u64 = 50_000_000;

/// The sum, or the largest `u64` where it is larger.
pub open spec fn sum_or_max(a: u64, b: u64) -> u64 {
    if a + b > u64::MAX {
        u64::MAX
    } else {
        (a + b) as u64
    }
}

/// How far a counter has moved on: a counter that is smaller than before has
/// started over.
pub open spec fn energy_used(before: EnergySample, now: u64) -> u64 {
    if now >= before.energy {
        (now - before.energy) as u64
    } else {
        sum_or_max(over(before.range, before.energy), now)
    }
}

/// What a package drew since its counter was last read.
pub open spec fn package_power(before: EnergySample, energy: u64, now: u64) -> Option<
    ReadingModel<ValueModel>,
> {
    let nanos = over(now, before.at);
    let amount = energy_used(before, energy);
    if nanos >= SHORTEST {
        Some(
            ReadingModel {
                label: "Package"@,
                value: ValueModel::Rate { amount, times: 1, nanos, divisor: 1_000_000 },
                unit: Unit::Watts,
            },
        )
    } else {
        None
    }
}

/// Whether a zone is that of a package and its counter could be read.
pub open spec fn is_package(z: ZoneModel) -> bool {
    z.name is Some && occurs(z.name->0, "package"@) && z.energy is Some
}

/// What is remembered of the zones behind one more zone.
pub open spec fn remembered(
    m: Map<Seq<char>, EnergySample>,
    z: ZoneModel,
    now: u64,
) -> Map<Seq<char>, EnergySample> {
    if is_package(z) {
        let range = match z.range {
            Some(r) => r as u64,
            None => u64::MAX,
        };
        m.insert(z.dir, EnergySample { energy: z.energy->0 as u64, range, at: now })
    } else {
        m
    }
}

/// What one zone gives, if it was read before.
pub open spec fn zone_power(m: Map<Seq<char>, EnergySample>, z: ZoneModel, now: u64) -> Option<
    ReadingModel<ValueModel>,
> {
    if is_package(z) && m.dom().contains(z.dir) {
        package_power(m[z.dir], z.energy->0 as u64, now)
    } else {
        None
    }
}

/// What is remembered behind the zones, one after another.
pub open spec fn after_zones(
    zs: Seq<ZoneModel>,
    m: Map<Seq<char>, EnergySample>,
    now: u64,
) -> Map<Seq<char>, EnergySample>
    decreases zs.len(),
{
    if zs.len() == 0 {
        m
    } else {
        remembered(after_zones(zs.drop_last(), m, now), zs.last(), now)
    }
}

/// What the zones give, one after another.
pub open spec fn zone_powers(
    zs: Seq<ZoneModel>,
    m: Map<Seq<char>, EnergySample>,
    now: u64,
) -> Seq<ReadingModel<ValueModel>>
    decreases zs.len(),
{
    if zs.len() == 0 {
        Seq::empty()
    } else {
        zone_powers(zs.drop_last(), m, now) + listed(
            zone_power(after_zones(zs.drop_last(), m, now), zs.last(), now),
        )
    }
}

fn used(before: EnergySample, now: u64) -> (r: u64)
    ensures
        r == energy_used(before, now),
{
    if now >= before.energy {
        now - before.energy
    } else {
        let rest = excess(before.range, before.energy);
        if rest > u64::MAX - now {
            u64::MAX
        } else {
            rest + now
        }
    }
}

fn power(before: EnergySample, energy: u64, now: u64) -> (r: Option<Reading<Value>>)
    ensures
        seen(r) == package_power(before, energy, now),
{
    let nanos = excess(now, before.at);
    let amount = used(before, energy);
    if nanos >= SHORTEST {
        Some(
            Reading {
                label: owned("Package"),
                value: Value::Rate { amount, times: 1, nanos, divisor: 1_000_000 },
                unit: Unit::Watts,
            },
        )
    } else {
        None
    }
}

/// The power of each package since its counter was last read, in the order of
/// the zones' directories; remembers the counters.
pub fn rapl_zones(prev: &mut Table<EnergySample>, zones: Vec<ZoneFiles>, now: u64) -> (r: Vec<
    Reading<Value>,
>)
    ensures
        final(prev)@ == after_zones(sorted(views(zones@), ZoneFiles::key()), old(prev)@, now),
        views(r@) == zone_powers(sorted(views(zones@), ZoneFiles::key()), old(prev)@, now),
{
    let zones = sort_by_label(zones);
    let ghost all = views(zones@);
    let ghost start = prev@;
    let mut out: Vec<Reading<Value>> = Vec::new();
    let mut i: usize = 0;
    while i < zones.len()
        invariant
            i <= zones.len(),
            all == views(zones@),
            prev@ == after_zones(all.take(i as int), start, now),
            views(out@) == zone_powers(all.take(i as int), start, now),
        decreases zones.len() - i,
    {
        let z = &zones[i];
        proof {
            assert(all.take(i + 1).drop_last() =~= all.take(i as int));
            assert(all.take(i + 1).last() == z@);
        }
        let ghost m = prev@;
        let ghost so_far = views(out@);
        let package = match read_trimmed(borrowed(&z.name)) {
            Some(name) => contains(chars(name.as_str()).as_slice(), "package"),
            None => false,
        };
        if package {
            if let Some(energy) = read_u64(borrowed(&z.energy)) {
                let range = match read_u64(borrowed(&z.range)) {
                    Some(r) => r,
                    None => u64::MAX,
                };
                assert(is_package(z@));
                if let Some(before) = prev.get(&z.dir) {
                    if let Some(r) = power(before, energy, now) {
                        put(&mut out, r);
                    }
                }
                prev.insert(&z.dir, EnergySample { energy, range, at: now });
            }
        }
        assert(views(out@) =~= so_far + listed(zone_power(m, z@, now)));
        i = i + 1;
    }
    proof {
        lemma_take_all(all);
    }
    out
}

/// Counters that were all read a moment ago, or never, give no power.
pub proof fn lemma_no_power_too_soon(
    zs: Seq<ZoneModel>,
    m: Map<Seq<char>, EnergySample>,
    now: u64,
)
    requires
        forall|d: Seq<char>| #[trigger] m.dom().contains(d) ==> over(now, m[d].at) < SHORTEST,
    ensures
        zone_powers(zs, m, now) == Seq::<ReadingModel<ValueModel>>::empty(),
        forall|d: Seq<char>| #[trigger]
            after_zones(zs, m, now).dom().contains(d) ==> over(now, after_zones(zs, m, now)[d].at)
                < SHORTEST,
    decreases zs.len(),
{
    if zs.len() > 0 {
        lemma_no_power_too_soon(zs.drop_last(), m, now);
    }
    assert(zone_powers(zs, m, now) =~= Seq::<ReadingModel<ValueModel>>::empty());
}

/// A counter that has started over has moved on by what was left of its range
/// and what it shows now.
pub proof fn lemma_counter_starts_over(before: EnergySample, now: u64)
    requires
        now < before.energy <= before.range,
        before.range - before.energy + now <= u64::MAX,
    ensures
        energy_used(before, now) == before.range - before.energy + now,
{
}

} // verus!
