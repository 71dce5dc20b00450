//! Processors: how many there are, what they are called, and how busy they are.
use vstd::prelude::*;

use crate::lists::{
    first, kept, lemma_first_at, lemma_first_none, lemma_kept_step, lemma_take_all, seen, views,
};
use crate::memory::lines_of;
use crate::model::{excess, over};
use crate::numbers::{decimal_u64, parse_u64};
use crate::text::{
    after_prefix, chars, cut, digit, is_digit, lines, owned, split_lines, split_once, split_words,
    starts, starts_with, string, strip_prefix, trim, trimmed, words,
};

verus! {

// ---------- time spent ----------

/// The time a processor has spent idle and altogether, in ticks.
#[derive(Clone, Copy, Debug, PartialEq, Eq, Structural)]
pub struct Ticks {
    pub idle: u64,
    pub total: u64,
}

/// One more than the largest `u64`.
pub open spec fn wrap() -> int {
    0x1_0000_0000_0000_0000
}

pub open spec fn as_count() -> spec_fn(Seq<char>) -> Option<u64> {
    |w: Seq<char>|
        match decimal_u64(w) {
            Some(n) => Some(n as u64),
            None => None,
        }
}

/// The words that are whole numbers.
pub open spec fn counts(s: Seq<char>) -> Seq<u64> {
    kept(words(s), as_count())
}

pub open spec fn sum(s: Seq<u64>) -> int
    decreases s.len(),
{
    if s.len() == 0 {
        0
    } else {
        sum(s.drop_last()) + s.last()
    }
}

/// The counts as time: the fourth is time spent idle, the fifth time spent
/// waiting for input and output, which counts as idle; all of them together
/// are the total. Counters run over as `u64`s do.
pub open spec fn ticks_of(c: Seq<u64>) -> Option<Ticks> {
    if c.len() < 4 {
        None
    } else {
        let waiting = if c.len() > 4 {
            c[4] as int
        } else {
            0
        };
        Some(
            Ticks {
                idle: ((c[3] + waiting) % wrap()) as u64,
                total: (sum(c) % wrap()) as u64,
            },
        )
    }
}

/// A line of all processors together: `cpu` and a space.
pub open spec fn all_cpus(line: Seq<char>) -> Option<Ticks> {
    match after_prefix(line, "cpu"@) {
        Some(rest) => if rest.len() > 0 && rest[0] == ' ' {
            ticks_of(counts(rest))
        } else {
            None
        },
        None => None,
    }
}

/// A line of one processor: `cpu` and its number, which is no time.
pub open spec fn one_cpu(line: Seq<char>) -> Option<Ticks> {
    match after_prefix(line, "cpu"@) {
        Some(rest) => if rest.len() > 0 && is_digit(rest[0]) && counts(rest).len() > 0 {
            ticks_of(counts(rest).drop_first())
        } else {
            None
        },
        None => None,
    }
}

pub open spec fn one_cpu_fn() -> spec_fn(Seq<char>) -> Option<Ticks> {
    |line: Seq<char>| one_cpu(line)
}

/// The lines at the front that begin with `cpu`.
pub open spec fn cpu_lines(ls: Seq<Seq<char>>) -> Seq<Seq<char>>
    decreases ls.len(),
{
    if ls.len() > 0 && starts(ls[0], "cpu"@) {
        seq![ls[0]] + cpu_lines(ls.drop_first())
    } else {
        Seq::empty()
    }
}

/// What the last line of all processors says.
pub open spec fn last_total(ls: Seq<Seq<char>>) -> Option<Ticks>
    decreases ls.len(),
{
    if ls.len() == 0 {
        None
    } else if all_cpus(ls.last()) is Some {
        all_cpus(ls.last())
    } else {
        last_total(ls.drop_last())
    }
}

/// What `/proc/stat` says of the processors together and of each.
pub open spec fn stat_of(text: Option<Seq<char>>) -> Option<(Ticks, Seq<Ticks>)> {
    let ls = cpu_lines(lines_of(text));
    match last_total(ls) {
        Some(t) => Some((t, kept(ls, one_cpu_fn()))),
        None => None,
    }
}

proof fn lemma_cpu_lines_step(ls: Seq<Seq<char>>, i: int)
    requires
        0 <= i <= ls.len(),
        forall|j: int| 0 <= j < i ==> starts(#[trigger] ls[j], "cpu"@),
    ensures
        cpu_lines(ls) == ls.take(i) + cpu_lines(ls.skip(i)),
    decreases i,
{
    if i == 0 {
        assert(ls.skip(0) =~= ls);
        assert(ls.take(0) + cpu_lines(ls) =~= cpu_lines(ls));
    } else {
        let t = ls.drop_first();
        assert(starts(ls[0], "cpu"@));
        assert forall|j: int| 0 <= j < i - 1 implies starts(#[trigger] t[j], "cpu"@) by {
            assert(t[j] == ls[j + 1]);
        }
        lemma_cpu_lines_step(t, i - 1);
        assert(t.skip(i - 1) =~= ls.skip(i));
        assert(seq![ls[0]] + (t.take(i - 1) + cpu_lines(ls.skip(i))) =~= ls.take(i) + cpu_lines(
            ls.skip(i),
        ));
    }
}

fn read_counts(t: &[char]) -> (r: Vec<u64>)
    ensures
        r@ == counts(t@),
{
    let ws = split_words(t);
    let ghost all = words(t@);
    let mut out: Vec<u64> = Vec::new();
    let mut i: usize = 0;
    while i < ws.len()
        invariant
            i <= ws.len(),
            views(ws@) == all,
            out@ == kept(all.take(i as int), as_count()),
        decreases ws.len() - i,
    {
        assert(all[i as int] == ws@[i as int]@);
        proof {
            lemma_kept_step(all, as_count(), i as int);
        }
        if let Some(n) = parse_u64(ws[i]) {
            out.push(n);
        }
        i = i + 1;
    }
    proof {
        lemma_take_all(all);
    }
    out
}

fn wrapping_sum(a: u64, b: u64) -> (r: u64)
    ensures
        r == (a + b) % wrap(),
{
    let s: u128 = a as u128 + b as u128;
    (s % 0x1_0000_0000_0000_0000) as u64
}

fn ticks(c: &[u64]) -> (r: Option<Ticks>)
    ensures
        r == ticks_of(c@),
{
    if c.len() < 4 {
        return None;
    }
    let waiting: u64 = if c.len() > 4 {
        c[4]
    } else {
        0
    };
    let mut total: u64 = 0;
    let mut i: usize = 0;
    while i < c.len()
        invariant
            i <= c.len(),
            total == sum(c@.take(i as int)) % wrap(),
        decreases c.len() - i,
    {
        assert(c@.take(i + 1).drop_last() =~= c@.take(i as int));
        proof {
            let before = sum(c@.take(i as int));
            vstd::arithmetic::div_mod::lemma_add_mod_noop(before, c@[i as int] as int, wrap());
            vstd::arithmetic::div_mod::lemma_small_mod(c@[i as int] as nat, wrap() as nat);
        }
        total = wrapping_sum(total, c[i]);
        i = i + 1;
    }
    proof {
        lemma_take_all(c@);
    }
    Some(Ticks { idle: wrapping_sum(c[3], waiting), total })
}

/// Reads the text of `/proc/stat`.
pub fn read_stat(stat: Option<&str>) -> (r: Option<(Ticks, Vec<Ticks>)>)
    ensures
        match r {
            Some((t, per)) => stat_of(seen(stat)) == Some((t, per@)),
            None => stat_of(seen(stat)) is None,
        },
{
    let t = match stat {
        Some(s) => chars(s),
        None => Vec::new(),
    };
    assert(stat is None ==> lines(t@) =~= lines_of(seen(stat)));
    let ls = split_lines(t.as_slice());
    let ghost all = lines(t@);
    let ghost block = cpu_lines(all);
    let mut agg: Option<Ticks> = None;
    let mut per: Vec<Ticks> = Vec::new();
    let mut i: usize = 0;
    loop
        invariant_except_break
            block == cpu_lines(all),
        invariant
            i <= ls.len(),
            views(ls@) == all,
            forall|j: int| 0 <= j < i ==> starts(#[trigger] all[j], "cpu"@),
            agg == last_total(all.take(i as int)),
            per@ == kept(all.take(i as int), one_cpu_fn()),
        ensures
            block == all.take(i as int),
        decreases ls.len() - i,
    {
        proof {
            lemma_cpu_lines_step(all, i as int);
            assert(all.take(i as int) + Seq::<Seq<char>>::empty() =~= all.take(i as int));
        }
        if i == ls.len() {
            break;
        }
        let line = ls[i];
        assert(line@ == all[i as int]);
        let rest = match strip_prefix(line, "cpu") {
            Some(rest) => rest,
            None => {
                assert(all.skip(i as int)[0] == line@);
                break;
            },
        };
        proof {
            assert(all.take(i + 1).drop_last() =~= all.take(i as int));
            assert(all.take(i + 1).last() == line@);
            lemma_kept_step(all, one_cpu_fn(), i as int);
        }
        if rest.len() > 0 && rest[0] == ' ' {
            let c = read_counts(rest);
            if let Some(t) = ticks(c.as_slice()) {
                agg = Some(t);
            }
        } else if rest.len() > 0 && digit(rest[0]) {
            let c = read_counts(rest);
            if c.len() > 0 {
                let c = vstd::slice::slice_subrange(c.as_slice(), 1, c.len());
                assert(c@ =~= counts(rest@).drop_first());
                if let Some(t) = ticks(c) {
                    per.push(t);
                }
            }
        }
        i = i + 1;
    }
    match agg {
        Some(t) => Some((t, per)),
        None => None,
    }
}

/// A part of a whole, of which none is more than it: the share is a percentage,
/// and zero where the whole is zero.
#[derive(Clone, Copy, Debug, PartialEq, Eq, Structural)]
pub struct Share {
    pub part: u64,
    pub whole: u64,
}

/// The share of time between two counts that was not idle. Where the idle time
/// grew by more than the total, none was busy.
pub open spec fn busy_share(before: Option<Ticks>, now: Ticks) -> Share {
    match before {
        Some(b) => Share {
            part: over(over(now.total, b.total), over(now.idle, b.idle)),
            whole: over(now.total, b.total),
        },
        None => Share { part: 0, whole: 0 },
    }
}

/// No share is more than the whole.
pub proof fn lemma_share_bounded(before: Option<Ticks>, now: Ticks)
    ensures
        busy_share(before, now).part <= busy_share(before, now).whole,
{
}

fn share(before: Option<Ticks>, now: Ticks) -> (r: Share)
    ensures
        r == busy_share(before, now),
{
    match before {
        Some(b) => {
            let whole = excess(now.total, b.total);
            Share { part: excess(whole, excess(now.idle, b.idle)), whole }
        },
        None => Share { part: 0, whole: 0 },
    }
}

/// What was last counted.
pub struct CpuCounters {
    pub total: Option<Ticks>,
    pub per: Vec<Ticks>,
}

/// The count of the processor at place `i`, if there is one.
pub open spec fn counted(per: Seq<Ticks>, i: int) -> Option<Ticks> {
    if 0 <= i < per.len() {
        Some(per[i])
    } else {
        None
    }
}

/// The shares of each processor's time since it was last counted.
pub open spec fn busy_shares(before: Seq<Ticks>, now: Seq<Ticks>) -> Seq<Share> {
    Seq::new(now.len(), |i: int| busy_share(counted(before, i), now[i]))
}

impl CpuCounters {
    pub fn new() -> (r: Self)
        ensures
            r.total is None,
            r.per@ == Seq::<Ticks>::empty(),
    {
        CpuCounters { total: None, per: Vec::new() }
    }

    /// How busy the processors were since the last call, together and each;
    /// remembers the new counts. Where nothing could be read, nothing was busy
    /// and the old counts stay.
    pub fn cpu_usage(&mut self, stat: Option<&str>) -> (r: (Share, Vec<Share>))
        ensures
            match stat_of(seen(stat)) {
                Some((t, per)) => {
                    &&& r.0 == busy_share(old(self).total, t)
                    &&& r.1@ == busy_shares(old(self).per@, per)
                    &&& final(self).total == Some(t)
                    &&& final(self).per@ == per
                },
                None => {
                    &&& r.0 == (Share { part: 0, whole: 0 })
                    &&& r.1@ == Seq::<Share>::empty()
                    &&& final(self).total == old(self).total
                    &&& final(self).per@ == old(self).per@
                },
            },
    {
        let (total, per) = match read_stat(stat) {
            Some(x) => x,
            None => {
                return (Share { part: 0, whole: 0 }, Vec::new());
            },
        };
        let all = share(self.total, total);
        let mut out: Vec<Share> = Vec::new();
        let mut i: usize = 0;
        while i < per.len()
            invariant
                i <= per.len(),
                out@ =~= busy_shares(self.per@, per@).take(i as int),
            decreases per.len() - i,
        {
            let before = if i < self.per.len() {
                Some(self.per[i])
            } else {
                None
            };
            out.push(share(before, per[i]));
            i = i + 1;
        }
        self.total = Some(total);
        self.per = per;
        (all, out)
    }
}

// ---------- names ----------

/// How many lines begin with `processor`.
pub open spec fn processors(ls: Seq<Seq<char>>) -> nat
    decreases ls.len(),
{
    if ls.len() == 0 {
        0
    } else {
        processors(ls.drop_last()) + if starts(ls.last(), "processor"@) {
            1nat
        } else {
            0
        }
    }
}

/// The number of processors that `/proc/cpuinfo` lists; `fallback` where it
/// lists none.
pub fn thread_count(cpuinfo: Option<&str>, fallback: usize) -> (r: usize)
    ensures
        r == (if processors(lines_of(seen(cpuinfo))) > 0 {
            processors(lines_of(seen(cpuinfo))) as int
        } else {
            fallback as int
        }),
{
    let t = match cpuinfo {
        Some(s) => chars(s),
        None => Vec::new(),
    };
    assert(cpuinfo is None ==> lines(t@) =~= lines_of(seen(cpuinfo)));
    let ls = split_lines(t.as_slice());
    let ghost all = lines(t@);
    let p = chars("processor");
    let mut n: usize = 0;
    let mut i: usize = 0;
    while i < ls.len()
        invariant
            n <= i <= ls.len(),
            views(ls@) == all,
            p@ == "processor"@,
            n == processors(all.take(i as int)),
        decreases ls.len() - i,
    {
        assert(all.take(i + 1).drop_last() =~= all.take(i as int));
        assert(all.take(i + 1).last() == ls@[i as int]@);
        if starts_with(ls[i], p.as_slice()) {
            n = n + 1;
        }
        i = i + 1;
    }
    proof {
        lemma_take_all(all);
    }
    if n > 0 {
        n
    } else {
        fallback
    }
}

pub open spec fn model_line() -> spec_fn(Seq<char>) -> Option<Seq<char>> {
    |l: Seq<char>|
        if starts(l, "model name"@) {
            Some(l)
        } else {
            None
        }
}

/// What follows the colon in the first line that begins with `model name`.
pub open spec fn model_of(text: Option<Seq<char>>) -> Seq<char> {
    match first(lines_of(text), model_line()) {
        Some(l) => match cut(l, ':') {
            Some((_, v)) => trimmed(v),
            None => "未知 CPU"@,
        },
        None => "未知 CPU"@,
    }
}

/// The processor's name, from the text of `/proc/cpuinfo`.
pub fn cpu_model(cpuinfo: Option<&str>) -> (r: String)
    ensures
        r@ == model_of(seen(cpuinfo)),
{
    let t = match cpuinfo {
        Some(s) => chars(s),
        None => Vec::new(),
    };
    assert(cpuinfo is None ==> lines(t@) =~= lines_of(seen(cpuinfo)));
    let ls = split_lines(t.as_slice());
    let ghost all = lines(t@);
    let p = chars("model name");
    let mut i: usize = 0;
    while i < ls.len()
        invariant
            i <= ls.len(),
            views(ls@) == all,
            all == lines_of(seen(cpuinfo)),
            p@ == "model name"@,
            forall|j: int| 0 <= j < i ==> model_line()(#[trigger] all[j]) is None,
        decreases ls.len() - i,
    {
        assert(all[i as int] == ls@[i as int]@);
        if starts_with(ls[i], p.as_slice()) {
            proof {
                lemma_first_at(all, model_line(), i as int);
            }
            return match split_once(ls[i], ':') {
                Some((_, v)) => string(trim(v)),
                None => owned("未知 CPU"),
            };
        }
        i = i + 1;
    }
    proof {
        lemma_first_none(all, model_line());
    }
    owned("未知 CPU")
}

} // verus!
