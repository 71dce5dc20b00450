//! What each physical core draws, by the energy counters in its registers.
//!
//! A counter has 32 bits and counts in units of one joule divided by a power
//! of two. The threads of a core share it.
use vstd::prelude::*;

use crate::files::{borrowed, file_text, read_trimmed};
use crate::lists::{put, seen, views};
use crate::model::{Reading, ReadingModel, Unit, Value, ValueModel};
use crate::numbers::{pad_left, right};
use crate::text::owned;

verus! {

/// The files on one processor's place in the machine: the number of its core,
/// and the list of the threads that share it.
pub struct CoreFiles {
    pub core_id: Option<String>,
    pub siblings: Option<String>,
}

/// What the files say.
#[verifier::ext_equal]
pub struct CoreModel {
    pub core_id: Option<Seq<char>>,
    pub siblings: Option<Seq<char>>,
}

impl View for CoreFiles {
    type V = CoreModel;

    open spec fn view(&self) -> CoreModel {
        CoreModel {
            core_id: file_text(seen(self.core_id)),
            siblings: file_text(seen(self.siblings)),
        }
    }
}

/// A physical core: its label, and the first of its processors.
pub struct CoreGroup {
    pub label: String,
    pub cpu: usize,
}

impl View for CoreGroup {
    type V = (Seq<char>, int);

    open spec fn view(&self) -> (Seq<char>, int) {
        (self.label@, self.cpu as int)
    }
}

/// Whether the list of threads at place `i` stands at an earlier place too.
pub open spec fn shares_earlier(t: Seq<CoreModel>, i: int) -> bool {
    exists|j: int| 0 <= j < i && (#[trigger] t[j]).siblings == t[i].siblings
}

/// A core's label: `C` and its number with two digits at least.
pub open spec fn core_label(core_id: Seq<char>) -> Seq<char> {
    "C"@ + right(core_id, '0', 2)
}

/// One core for each list of threads, where the list first occurs.
pub open spec fn groups_of(t: Seq<CoreModel>) -> Seq<(Seq<char>, int)>
    decreases t.len(),
{
    if t.len() == 0 {
        Seq::empty()
    } else {
        let n = t.len() - 1;
        if shares_earlier(t, n) {
            groups_of(t.drop_last())
        } else {
            groups_of(t.drop_last()).push((core_label(t[n].core_id->0), n))
        }
    }
}

/// Whether everything could be read.
pub open spec fn all_known(t: Seq<CoreModel>) -> bool {
    forall|i: int|
        0 <= i < t.len() ==> (#[trigger] t[i]).core_id is Some && t[i].siblings is Some
}

/// Whether the processor at place `i` has its core among the groups: under the
/// first processor with the same threads.
pub open spec fn has_core(t: Seq<CoreModel>, groups: Seq<(Seq<char>, int)>, i: int) -> bool {
    exists|g: int|
        0 <= g < groups.len() && 0 <= (#[trigger] groups[g]).1 <= i && t[groups[g].1].siblings
            == t[i].siblings
}

/// Every group is a processor of the machine, under its core's label.
pub proof fn lemma_groups_are_processors(t: Seq<CoreModel>)
    ensures
        forall|g: int|
            0 <= g < groups_of(t).len() ==> 0 <= (#[trigger] groups_of(t)[g]).1 < t.len()
                && groups_of(t)[g].0 == core_label(t[groups_of(t)[g].1].core_id->0),
    decreases t.len(),
{
    if t.len() > 0 {
        lemma_groups_are_processors(t.drop_last());
    }
}

/// Every processor has its core among the groups.
pub proof fn lemma_every_processor_has_a_core(t: Seq<CoreModel>, i: int)
    requires
        0 <= i < t.len(),
    ensures
        has_core(t, groups_of(t), i),
    decreases t.len(), i,
{
    let n = t.len() - 1;
    let s = t.drop_last();
    let gs = groups_of(s);
    let gt = groups_of(t);
    if i < n {
        lemma_every_processor_has_a_core(s, i);
        let g = choose|g: int|
            0 <= g < gs.len() && 0 <= (#[trigger] gs[g]).1 <= i && s[gs[g].1].siblings
                == s[i].siblings;
        assert(gt[g] == gs[g]);
    } else if shares_earlier(t, n) {
        let j = choose|j: int| 0 <= j < n && (#[trigger] t[j]).siblings == t[n].siblings;
        lemma_every_processor_has_a_core(t, j);
        let g = choose|g: int|
            0 <= g < gt.len() && 0 <= (#[trigger] gt[g]).1 <= j && t[gt[g].1].siblings
                == t[j].siblings;
        assert(t[gt[g].1].siblings == t[i].siblings);
    } else {
        assert(gt[gs.len() as int].1 == n);
    }
}

/// No two groups have the same threads.
pub proof fn lemma_cores_are_distinct(t: Seq<CoreModel>, g: int, h: int)
    requires
        0 <= g < h < groups_of(t).len(),
    ensures
        t[groups_of(t)[g].1].siblings != t[groups_of(t)[h].1].siblings,
    decreases t.len(),
{
    let n = t.len() - 1;
    let s = t.drop_last();
    let gs = groups_of(s);
    let gt = groups_of(t);
    lemma_groups_are_processors(s);
    assert(gt[g] == gs[g]);
    assert(t[gs[g].1] == s[gs[g].1]);
    if h < gs.len() {
        assert(gt[h] == gs[h]);
        assert(t[gs[h].1] == s[gs[h].1]);
        lemma_cores_are_distinct(s, g, h);
    } else {
        assert(gt[h].1 == n);
    }
}

/// The physical cores; `None` where a file is missing or there is no processor.
pub fn physical_cores(topology: &Vec<CoreFiles>) -> (r: Option<Vec<CoreGroup>>)
    ensures
        match r {
            Some(g) => {
                &&& topology@.len() > 0
                &&& all_known(views(topology@))
                &&& views(g@) == groups_of(views(topology@))
            },
            None => topology@.len() == 0 || !all_known(views(topology@)),
        },
{
    let ghost t = views(topology@);
    let mut lists: Vec<String> = Vec::new();
    let mut out: Vec<CoreGroup> = Vec::new();
    let mut i: usize = 0;
    while i < topology.len()
        invariant
            i <= topology.len(),
            t == views(topology@),
            lists@.len() == i,
            forall|j: int| 0 <= j < i ==> (#[trigger] t[j]).siblings == Some(lists@[j]@),
            all_known(t.take(i as int)),
            views(out@) == groups_of(t.take(i as int)),
        decreases topology.len() - i,
    {
        assert(t[i as int] == topology@[i as int]@);
        let ghost s = t.take(i + 1);
        assert(s.drop_last() =~= t.take(i as int));
        let id = match read_trimmed(borrowed(&topology[i].core_id)) {
            Some(id) => id,
            None => {
                return None;
            },
        };
        let sibs = match read_trimmed(borrowed(&topology[i].siblings)) {
            Some(sibs) => sibs,
            None => {
                return None;
            },
        };
        let mut known = false;
        let mut j: usize = 0;
        while j < lists.len()
            invariant
                j <= lists.len(),
                known == exists|k: int| 0 <= k < j && (#[trigger] lists@[k])@ == sibs@,
            decreases lists.len() - j,
        {
            if lists[j] == sibs {
                known = true;
            }
            j = j + 1;
        }
        proof {
            if known {
                let k = choose|k: int| 0 <= k < i && (#[trigger] lists@[k])@ == sibs@;
                assert(s[k] == t[k]);
                assert(shares_earlier(s, i as int));
            } else if shares_earlier(s, i as int) {
                let k = choose|k: int| 0 <= k < i && (#[trigger] s[k]).siblings == s[i as int].siblings;
                assert(s[k] == t[k]);
                assert(lists@[k]@ == sibs@);
            }
            assert forall|k: int| 0 <= k < s.len() implies (#[trigger] s[k]).core_id is Some
                && s[k].siblings is Some by {
                if k < i {
                    assert(s[k] == t.take(i as int)[k]);
                }
            }
        }
        if !known {
            let label = owned("C").concat(pad_left(id.as_str(), '0', 2).as_str());
            put(&mut out, CoreGroup { label, cpu: i });
        }
        lists.push(sibs);
        i = i + 1;
    }
    assert(t.take(t.len() as int) =~= t);
    if topology.len() == 0 {
        None
    } else {
        Some(out)
    }
}

/// A core whose counter can be read, and what it last read.
pub struct MsrCore {
    pub label: String,
    pub cpu: usize,
    pub prev: Option<u32>,
}

/// The cores, and the power of two that a joule is divided by.
pub struct MsrState {
    pub cores: Vec<MsrCore>,
    pub esu: u32,
}

/// The exponent of the energy unit: bits 8 to 12 of the unit register.
pub open spec fn energy_exponent(unit_register: u64) -> u32 {
    ((unit_register / 256) % 32) as u32
}

/// The counter in a register: its low 32 bits.
pub open spec fn counter(register: u64) -> u32 {
    (register % 0x1_0000_0000) as u32
}

/// How far a counter has moved on, given that it starts over behind its
/// largest value.
pub open spec fn moved_on(prev: u32, cur: u32) -> u64 {
    ((cur - prev) % 0x1_0000_0000) as u64
}

/// A power of two.
pub open spec fn two_to(n: u32) -> int
    decreases n,
{
    if n == 0 {
        1
    } else {
        2 * two_to((n - 1) as u32)
    }
}

/// What a core drew since its counter was last read, if it was and the time
/// since then is known.
pub open spec fn core_power(
    label: Seq<char>,
    prev: Option<u32>,
    register: Option<u64>,
    esu: u32,
    nanos: Option<u64>,
) -> Option<ReadingModel<ValueModel>> {
    match (prev, register, nanos) {
        (Some(p), Some(reg), Some(ns)) => Some(
            ReadingModel {
                label,
                value: ValueModel::Rate {
                    amount: moved_on(p, counter(reg)),
                    times: 1,
                    nanos: ns,
                    divisor: two_to(esu) as u64,
                },
                unit: Unit::Watts,
            },
        ),
        _ => None,
    }
}

/// What was read from the register at a place of a list, if anything was.
pub open spec fn register_at(registers: Seq<Option<u64>>, i: int) -> Option<u64> {
    if 0 <= i < registers.len() {
        registers[i]
    } else {
        None
    }
}

/// The readings of the first `n` cores.
pub open spec fn core_powers(
    cores: Seq<MsrCore>,
    registers: Seq<Option<u64>>,
    esu: u32,
    nanos: Option<u64>,
    n: int,
) -> Seq<ReadingModel<ValueModel>>
    decreases n,
{
    if n <= 0 {
        Seq::empty()
    } else {
        core_powers(cores, registers, esu, nanos, n - 1) + crate::lists::listed(
            core_power(
                cores[n - 1].label@,
                cores[n - 1].prev,
                register_at(registers, n - 1),
                esu,
                nanos,
            ),
        )
    }
}

proof fn lemma_two_to(n: u32)
    requires
        n < 32,
    ensures
        0 < two_to(n) <= 0x8000_0000,
{
    reveal_with_fuel(two_to, 33);
}

fn power_of_two(n: u32) -> (r: u64)
    requires
        n < 32,
    ensures
        r == two_to(n),
        0 < r <= 0x8000_0000,
{
    let mut r: u64 = 1;
    let mut i: u32 = 0;
    while i < n
        invariant
            i <= n < 32,
            r == two_to(i),
            0 < r <= 0x8000_0000,
        decreases n - i,
    {
        proof {
            lemma_two_to((i + 1) as u32);
        }
        r = r * 2;
        i = i + 1;
    }
    r
}

/// The cores among the groups whose registers could be opened.
pub open spec fn opened_cores(groups: Seq<(Seq<char>, int)>, opened: Seq<bool>) -> Seq<
    (Seq<char>, int),
>
    decreases groups.len(),
{
    if groups.len() == 0 {
        Seq::empty()
    } else {
        let before = opened_cores(groups.drop_last(), opened);
        if opened[groups.len() - 1] {
            before.push(groups.last())
        } else {
            before
        }
    }
}

/// The cores by label and processor.
pub open spec fn core_names(cores: Seq<MsrCore>) -> Seq<(Seq<char>, int)> {
    Seq::new(cores.len(), |i: int| (cores[i].label@, cores[i].cpu as int))
}

impl MsrState {
    pub open spec fn wf(&self) -> bool {
        self.esu < 32
    }

    /// Starts with the cores whose registers could be opened, none of them read.
    pub fn init(groups: &Vec<CoreGroup>, opened: &Vec<bool>, unit_register: u64) -> (r: MsrState)
        requires
            opened@.len() == groups@.len(),
        ensures
            r.wf(),
            r.esu == energy_exponent(unit_register),
            core_names(r.cores@) == opened_cores(views(groups@), opened@),
            forall|i: int| 0 <= i < r.cores@.len() ==> (#[trigger] r.cores@[i]).prev is None,
    {
        let esu: u32 = ((unit_register / 256) % 32) as u32;
        let mut cores: Vec<MsrCore> = Vec::new();
        let ghost all = views(groups@);
        let mut i: usize = 0;
        while i < groups.len()
            invariant
                i <= groups.len(),
                opened@.len() == groups@.len(),
                all == views(groups@),
                core_names(cores@) == opened_cores(all.take(i as int), opened@),
                forall|j: int| 0 <= j < cores@.len() ==> (#[trigger] cores@[j]).prev is None,
            decreases groups.len() - i,
        {
            assert(all.take(i + 1).drop_last() =~= all.take(i as int));
            assert(all.take(i + 1).last() == groups@[i as int]@);
            if opened[i] {
                let ghost before = core_names(cores@);
                cores.push(
                    MsrCore { label: owned(groups[i].label.as_str()), cpu: groups[i].cpu, prev: None },
                );
                assert(core_names(cores@) =~= before.push(all[i as int]));
            }
            i = i + 1;
        }
        assert(all.take(all.len() as int) =~= all);
        MsrState { cores, esu }
    }

    /// What the cores drew since their counters were last read, given what
    /// their registers hold now; remembers the counters. A core whose register
    /// could not be read gives no reading and stays as it is.
    pub fn power_watts(&mut self, registers: &Vec<Option<u64>>, nanos: Option<u64>) -> (r: Vec<
        Reading<Value>,
    >)
        requires
            old(self).wf(),
        ensures
            final(self).wf(),
            final(self).esu == old(self).esu,
            views(r@) == core_powers(
                old(self).cores@,
                registers@,
                old(self).esu,
                nanos,
                old(self).cores@.len() as int,
            ),
            core_names(final(self).cores@) == core_names(old(self).cores@),
            forall|i: int|
                0 <= i < old(self).cores@.len() ==> (#[trigger] final(self).cores@[i]).prev
                    == match register_at(registers@, i) {
                    Some(reg) => Some(counter(reg)),
                    None => old(self).cores@[i].prev,
                },
    {
        let divisor = power_of_two(self.esu);
        let mut out: Vec<Reading<Value>> = Vec::new();
        let ghost before = self.cores@;
        let mut i: usize = 0;
        while i < self.cores.len()
            invariant
                i <= self.cores@.len(),
                self.wf(),
                divisor == two_to(self.esu),
                0 < divisor <= 0x8000_0000,
                self.esu == old(self).esu,
                before == old(self).cores@,
                self.cores@.len() == before.len(),
                views(out@) == core_powers(before, registers@, self.esu, nanos, i as int),
                forall|j: int| i <= j < before.len() ==> self.cores@[j] == before[j],
                forall|j: int|
                    0 <= j < i ==> {
                        &&& (#[trigger] self.cores@[j]).label@ == before[j].label@
                        &&& self.cores@[j].cpu == before[j].cpu
                        &&& self.cores@[j].prev == match register_at(registers@, j) {
                            Some(reg) => Some(counter(reg)),
                            None => before[j].prev,
                        }
                    },
            decreases self.cores@.len() - i,
        {
            let label = owned(self.cores[i].label.as_str());
            let prev = self.cores[i].prev;
            let ghost core = core_power(
                before[i as int].label@,
                before[i as int].prev,
                register_at(registers@, i as int),
                self.esu,
                nanos,
            );
            let ghost so_far = views(out@);
            let register = if i < registers.len() {
                registers[i]
            } else {
                None
            };
            if let Some(reg) = register {
                let cur: u32 = (reg % 0x1_0000_0000) as u32;
                if let (Some(p), Some(ns)) = (prev, nanos) {
                    let amount: u64 = if cur >= p {
                        (cur - p) as u64
                    } else {
                        0x1_0000_0000 - (p - cur) as u64
                    };
                    assert(amount == moved_on(p, cur));
                    put(
                        &mut out,
                        Reading {
                            label,
                            value: Value::Rate { amount, times: 1, nanos: ns, divisor },
                            unit: Unit::Watts,
                        },
                    );
                }
                let kept_label = owned(self.cores[i].label.as_str());
                let cpu = self.cores[i].cpu;
                self.cores.set(i, MsrCore { label: kept_label, cpu, prev: Some(cur) });
            }
            assert(views(out@) =~= so_far + crate::lists::listed(core));
            i = i + 1;
        }
        assert(core_names(self.cores@) =~= core_names(before));
        out
    }
}

/// Without a time since the last sample, or without a counter read before, the
/// cores give no power.
pub proof fn lemma_no_core_power_without_a_difference(
    cores: Seq<MsrCore>,
    registers: Seq<Option<u64>>,
    esu: u32,
    nanos: Option<u64>,
    n: int,
)
    requires
        n <= cores.len(),
        nanos is None || forall|i: int| 0 <= i < cores.len() ==> (#[trigger] cores[i]).prev is None,
    ensures
        core_powers(cores, registers, esu, nanos, n) == Seq::<ReadingModel<ValueModel>>::empty(),
    decreases n,
{
    if n > 0 {
        lemma_no_core_power_without_a_difference(cores, registers, esu, nanos, n - 1);
    }
    assert(core_powers(cores, registers, esu, nanos, n)
        =~= Seq::<ReadingModel<ValueModel>>::empty());
}

/// A counter and what it has moved on by give the counter as it is now, also
/// where it has started over in between.
pub proof fn lemma_moved_on(prev: u32, cur: u32)
    ensures
        0 <= moved_on(prev, cur) < 0x1_0000_0000,
        (prev + moved_on(prev, cur)) % 0x1_0000_0000 == cur,
{
}

/// A core that sleeps, so that its counter stands still, draws nothing: that is
/// a reading of zero, and not a missing one.
pub proof fn lemma_a_sleeping_core_reads_zero(
    label: Seq<char>,
    register: u64,
    esu: u32,
    nanos: u64,
)
    ensures
        core_power(label, Some(counter(register)), Some(register), esu, Some(nanos)) == Some(
            ReadingModel {
                label,
                value: ValueModel::Rate {
                    amount: 0,
                    times: 1,
                    nanos,
                    divisor: two_to(esu) as u64,
                },
                unit: Unit::Watts,
            },
        ),
{
}

} // verus!
