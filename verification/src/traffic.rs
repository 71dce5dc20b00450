//! Traffic: what disks read and write, what networks carry.
use vstd::prelude::*;

use crate::files::{borrowed, file_u64, read_u64};
use crate::lists::{lemma_take_all, listed, put, seen, views};
use crate::memory::lines_of;
use crate::model::{excess, over, Chip, ChipModel, Reading, ReadingModel, Unit, Value, ValueModel};
use crate::numbers::{decimal, decimal_u64, is_decimal, parse_u64};
use crate::order::{sort_by_label, sorted, Labelled};
use crate::rapl::SHORTEST;
use crate::table::Table;
use crate::text::{
    chars, cut, has_char, lines, owned, spells, split_lines, split_once, split_words, starts,
    starts_with, string, trim, trimmed, words,
};

verus! {

// ---------- disks ----------

/// A disk's counters: sectors read and written, milliseconds of work; and the
/// time in nanoseconds at which they were read.
#[derive(Clone, Copy, Debug, PartialEq, Eq, Structural)]
pub struct DiskSample {
    pub read: u64,
    pub written: u64,
    pub worked: u64,
    pub at: u64,
}

/// Whether a device is a whole NVMe disk: those of its partitions have a `p`.
pub open spec fn is_disk(name: Seq<char>) -> bool {
    starts(name, "nvme"@) && !name.contains('p')
}

/// A line of `/proc/diskstats` on a disk: its name and its counters.
pub open spec fn disk_line(line: Seq<char>, now: u64) -> Option<(Seq<char>, DiskSample)> {
    let w = words(line);
    if w.len() < 14 || !is_disk(w[2]) {
        None
    } else {
        match (decimal_u64(w[5]), decimal_u64(w[9]), decimal_u64(w[12])) {
            (Some(r), Some(x), Some(t)) => Some(
                (
                    w[2],
                    DiskSample { read: r as u64, written: x as u64, worked: t as u64, at: now },
                ),
            ),
            _ => None,
        }
    }
}

pub open spec fn mebibytes_per_second(label: Seq<char>, amount: u64, times: u64, nanos: u64) -> ReadingModel<
    ValueModel,
> {
    ReadingModel {
        label,
        value: ValueModel::Rate { amount, times, nanos, divisor: 1048576 },
        unit: Unit::RateMBs,
    }
}

/// What a disk did between two samples, if they are far enough apart.
pub open spec fn disk_chip(name: Seq<char>, a: DiskSample, b: DiskSample) -> Option<
    ChipModel<ValueModel>,
> {
    let nanos = over(b.at, a.at);
    if nanos < SHORTEST {
        None
    } else {
        Some(
            ChipModel {
                name: name + " IO"@,
                readings: seq![
                    mebibytes_per_second("read"@, over(b.read, a.read), 512, nanos),
                    mebibytes_per_second("write"@, over(b.written, a.written), 512, nanos),
                    ReadingModel {
                        label: "busy"@,
                        value: ValueModel::Busy { millis: over(b.worked, a.worked), nanos },
                        unit: Unit::Pct,
                    },
                ],
            },
        )
    }
}

/// What is remembered of the disks behind the lines.
pub open spec fn after_disks(
    ls: Seq<Seq<char>>,
    m: Map<Seq<char>, DiskSample>,
    now: u64,
) -> Map<Seq<char>, DiskSample>
    decreases ls.len(),
{
    if ls.len() == 0 {
        m
    } else {
        let before = after_disks(ls.drop_last(), m, now);
        match disk_line(ls.last(), now) {
            Some((name, sample)) => before.insert(name, sample),
            None => before,
        }
    }
}

/// What a line gives, if its disk was seen before.
pub open spec fn disk_of(line: Seq<char>, m: Map<Seq<char>, DiskSample>, now: u64) -> Option<
    ChipModel<ValueModel>,
> {
    match disk_line(line, now) {
        Some((name, sample)) => if m.dom().contains(name) {
            disk_chip(name, m[name], sample)
        } else {
            None
        },
        None => None,
    }
}

/// What the lines give, one after another.
pub open spec fn disk_chips(
    ls: Seq<Seq<char>>,
    m: Map<Seq<char>, DiskSample>,
    now: u64,
) -> Seq<ChipModel<ValueModel>>
    decreases ls.len(),
{
    if ls.len() == 0 {
        Seq::empty()
    } else {
        disk_chips(ls.drop_last(), m, now) + listed(
            disk_of(ls.last(), after_disks(ls.drop_last(), m, now), now),
        )
    }
}

fn read_disk_line(line: &[char], now: u64) -> (r: Option<(String, DiskSample)>)
    ensures
        match r {
            Some((name, sample)) => disk_line(line@, now) == Some((name@, sample)),
            None => disk_line(line@, now) is None,
        },
{
    let w = split_words(line);
    proof {
        assert forall|i: int| 0 <= i < w@.len() implies (#[trigger] w@[i])@ == words(line@)[i] by {
            assert(w@[i]@ == views(w@)[i]);
        }
    }
    if w.len() < 14 {
        return None;
    }
    let name = w[2];
    if !starts_with(name, chars("nvme").as_slice()) || has_char(name, 'p') {
        return None;
    }
    match (parse_u64(w[5]), parse_u64(w[9]), parse_u64(w[12])) {
        (Some(read), Some(written), Some(worked)) => Some(
            (string(name), DiskSample { read, written, worked, at: now }),
        ),
        _ => None,
    }
}

fn rate(label: String, amount: u64, times: u64, nanos: u64) -> (r: Reading<Value>)
    ensures
        r@ == mebibytes_per_second(label@, amount, times, nanos),
{
    Reading {
        label,
        value: Value::Rate { amount, times, nanos, divisor: 1048576 },
        unit: Unit::RateMBs,
    }
}

fn chip_of_disk(name: &str, a: DiskSample, b: DiskSample) -> (r: Option<Chip<Value>>)
    ensures
        seen(r) == disk_chip(name@, a, b),
{
    let nanos = excess(b.at, a.at);
    if nanos < SHORTEST {
        return None;
    }
    let mut readings: Vec<Reading<Value>> = Vec::new();
    put(&mut readings, rate(owned("read"), excess(b.read, a.read), 512, nanos));
    put(&mut readings, rate(owned("write"), excess(b.written, a.written), 512, nanos));
    put(
        &mut readings,
        Reading {
            label: owned("busy"),
            value: Value::Busy { millis: excess(b.worked, a.worked), nanos },
            unit: Unit::Pct,
        },
    );
    let c = Chip { name: owned(name).concat(" IO"), readings };
    assert(c@.readings =~= disk_chip(name@, a, b)->0.readings);
    Some(c)
}

/// What each disk did since it was last seen, from the text of
/// `/proc/diskstats`; remembers the counters.
pub fn read_disk_io(prev: &mut Table<DiskSample>, diskstats: Option<&str>, now: u64) -> (r: Vec<
    Chip<Value>,
>)
    ensures
        final(prev)@ == after_disks(lines_of(seen(diskstats)), old(prev)@, now),
        views(r@) == disk_chips(lines_of(seen(diskstats)), old(prev)@, now),
{
    let t = match diskstats {
        Some(s) => chars(s),
        None => Vec::new(),
    };
    assert(diskstats is None ==> lines(t@) =~= lines_of(seen(diskstats)));
    let ls = split_lines(t.as_slice());
    let ghost all = lines(t@);
    let ghost start = prev@;
    let mut out: Vec<Chip<Value>> = Vec::new();
    let mut i: usize = 0;
    while i < ls.len()
        invariant
            i <= ls.len(),
            views(ls@) == all,
            prev@ == after_disks(all.take(i as int), start, now),
            views(out@) == disk_chips(all.take(i as int), start, now),
        decreases ls.len() - i,
    {
        proof {
            assert(all.take(i + 1).drop_last() =~= all.take(i as int));
            assert(all.take(i + 1).last() == ls@[i as int]@);
        }
        let ghost m = prev@;
        let ghost so_far = views(out@);
        if let Some((name, sample)) = read_disk_line(ls[i], now) {
            if let Some(before) = prev.get(&name) {
                if let Some(c) = chip_of_disk(name.as_str(), before, sample) {
                    put(&mut out, c);
                }
            }
            prev.insert(&name, sample);
        }
        assert(views(out@) =~= so_far + listed(disk_of(ls@[i as int]@, m, now)));
        i = i + 1;
    }
    proof {
        lemma_take_all(all);
    }
    out
}

// ---------- networks ----------

/// An interface, and the files with the number of bytes it received and sent.
pub struct IfaceFiles {
    pub name: String,
    pub rx: Option<String>,
    pub tx: Option<String>,
}

/// An interface's name and its counters, which are zero where they could not
/// be read.
#[verifier::ext_equal]
pub struct IfaceModel {
    pub name: Seq<char>,
    pub rx: u64,
    pub tx: u64,
}

/// The whole number that a file holds, or zero.
pub open spec fn count_or_zero(text: Option<Seq<char>>) -> u64 {
    match file_u64(text) {
        Some(n) => n as u64,
        None => 0,
    }
}

impl View for IfaceFiles {
    type V = IfaceModel;

    open spec fn view(&self) -> IfaceModel {
        IfaceModel {
            name: self.name@,
            rx: count_or_zero(seen(self.rx)),
            tx: count_or_zero(seen(self.tx)),
        }
    }
}

impl Labelled for IfaceFiles {
    open spec fn key() -> spec_fn(IfaceModel) -> Seq<char> {
        |f: IfaceModel| f.name
    }

    fn label(&self) -> (r: &str) {
        self.name.as_str()
    }
}

/// An interface's counters, and the time in nanoseconds at which they were read.
#[derive(Clone, Copy, Debug, PartialEq, Eq, Structural)]
pub struct NetSample {
    pub rx: u64,
    pub tx: u64,
    pub at: u64,
}

/// What is remembered of the interfaces: all but the loopback one.
pub open spec fn after_ifaces(
    fs: Seq<IfaceModel>,
    m: Map<Seq<char>, NetSample>,
    now: u64,
) -> Map<Seq<char>, NetSample>
    decreases fs.len(),
{
    if fs.len() == 0 {
        m
    } else {
        let before = after_ifaces(fs.drop_last(), m, now);
        let f = fs.last();
        if f.name == "lo"@ {
            before
        } else {
            before.insert(f.name, NetSample { rx: f.rx, tx: f.tx, at: now })
        }
    }
}

/// What an interface carried since it was last seen.
pub open spec fn iface_rates(f: IfaceModel, m: Map<Seq<char>, NetSample>, now: u64) -> Seq<
    ReadingModel<ValueModel>,
> {
    if f.name == "lo"@ || !m.dom().contains(f.name) {
        Seq::empty()
    } else {
        let a = m[f.name];
        let nanos = over(now, a.at);
        if nanos < SHORTEST {
            Seq::empty()
        } else {
            seq![
                mebibytes_per_second(f.name + " down"@, over(f.rx, a.rx), 1, nanos),
                mebibytes_per_second(f.name + " up"@, over(f.tx, a.tx), 1, nanos),
            ]
        }
    }
}

/// What the interfaces carried, one after another.
pub open spec fn net_rates(
    fs: Seq<IfaceModel>,
    m: Map<Seq<char>, NetSample>,
    now: u64,
) -> Seq<ReadingModel<ValueModel>>
    decreases fs.len(),
{
    if fs.len() == 0 {
        Seq::empty()
    } else {
        net_rates(fs.drop_last(), m, now) + iface_rates(
            fs.last(),
            after_ifaces(fs.drop_last(), m, now),
            now,
        )
    }
}

/// Whether an interface of that name is there, other than the loopback one.
pub open spec fn is_listed(fs: Seq<IfaceModel>, name: Seq<char>) -> bool {
    name != "lo"@ && exists|i: int| 0 <= i < fs.len() && (#[trigger] fs[i]).name == name
}

/// The signal in a line of `/proc/net/wireless`, as in
/// `wlp98s0: 0000 59. -51. -256`: the third word behind the colon, if the
/// interface before it is there.
pub open spec fn signal(fs: Seq<IfaceModel>, line: Seq<char>) -> Option<ReadingModel<ValueModel>> {
    match cut(line, ':') {
        Some((name, rest)) => {
            let name = trimmed(name);
            let w = words(rest);
            if is_listed(fs, name) && w.len() > 2 && is_decimal(w[2]) {
                Some(
                    ReadingModel {
                        label: name + " rssi"@,
                        value: ValueModel::Decimal { text: w[2], divisor: 1 },
                        unit: Unit::Dbm,
                    },
                )
            } else {
                None
            }
        },
        None => None,
    }
}

/// The signals in the lines from the third to the one before place `n`.
pub open spec fn signals(fs: Seq<IfaceModel>, ls: Seq<Seq<char>>, n: int) -> Seq<
    ReadingModel<ValueModel>,
>
    decreases n,
{
    if n <= 2 {
        Seq::empty()
    } else {
        signals(fs, ls, n - 1) + listed(signal(fs, ls[n - 1]))
    }
}

/// All that the interfaces give.
pub open spec fn net_readings(
    fs: Seq<IfaceModel>,
    wireless: Option<Seq<char>>,
    m: Map<Seq<char>, NetSample>,
    now: u64,
) -> Seq<ReadingModel<ValueModel>> {
    net_rates(fs, m, now) + signals(fs, lines_of(wireless), lines_of(wireless).len() as int)
}

/// The readings as one chip, if there are any.
pub open spec fn as_chip<M>(name: Seq<char>, readings: Seq<ReadingModel<M>>) -> Seq<ChipModel<M>> {
    if readings.len() == 0 {
        Seq::empty()
    } else {
        seq![ChipModel { name, readings }]
    }
}

fn known_iface(fs: &Vec<IfaceFiles>, name: &[char]) -> (r: bool)
    ensures
        r == is_listed(views(fs@), name@),
{
    let ghost all = views(fs@);
    if spells(name, "lo") {
        return false;
    }
    let mut i: usize = 0;
    while i < fs.len()
        invariant
            i <= fs.len(),
            name@ != "lo"@,
            all == views(fs@),
            forall|j: int| 0 <= j < i ==> (#[trigger] all[j]).name != name@,
        decreases fs.len() - i,
    {
        assert(all[i as int] == fs@[i as int]@);
        if spells(name, fs[i].name.as_str()) {
            return true;
        }
        i = i + 1;
    }
    false
}

fn read_signal(fs: &Vec<IfaceFiles>, line: &[char]) -> (r: Option<Reading<Value>>)
    ensures
        seen(r) == signal(views(fs@), line@),
{
    match split_once(line, ':') {
        Some((name, rest)) => {
            let name = trim(name);
            if !known_iface(fs, name) {
                return None;
            }
            let w = split_words(rest);
            if w.len() > 2 {
                assert(w@[2]@ == views(w@)[2]);
                if decimal(w[2]) {
                    return Some(
                        Reading {
                            label: string(name).concat(" rssi"),
                            value: Value::Decimal { text: string(w[2]), divisor: 1 },
                            unit: Unit::Dbm,
                        },
                    );
                }
            }
            None
        },
        None => None,
    }
}

fn read_count(text: Option<&str>) -> (r: u64)
    ensures
        r == count_or_zero(seen(text)),
{
    match read_u64(text) {
        Some(n) => n,
        None => 0,
    }
}

fn read_rates(prev: &mut Table<NetSample>, fs: &Vec<IfaceFiles>, now: u64) -> (r: Vec<
    Reading<Value>,
>)
    ensures
        final(prev)@ == after_ifaces(views(fs@), old(prev)@, now),
        views(r@) == net_rates(views(fs@), old(prev)@, now),
{
    let ghost all = views(fs@);
    let ghost start = prev@;
    let mut out: Vec<Reading<Value>> = Vec::new();
    let mut i: usize = 0;
    while i < fs.len()
        invariant
            i <= fs.len(),
            all == views(fs@),
            prev@ == after_ifaces(all.take(i as int), start, now),
            views(out@) == net_rates(all.take(i as int), start, now),
        decreases fs.len() - i,
    {
        let f = &fs[i];
        proof {
            assert(all.take(i + 1).drop_last() =~= all.take(i as int));
            assert(all.take(i + 1).last() == f@);
        }
        let ghost m = prev@;
        let ghost so_far = views(out@);
        if !spells(chars(f.name.as_str()).as_slice(), "lo") {
            let rx = read_count(borrowed(&f.rx));
            let tx = read_count(borrowed(&f.tx));
            if let Some(a) = prev.get(&f.name) {
                let nanos = excess(now, a.at);
                if nanos >= SHORTEST {
                    let down = owned(f.name.as_str()).concat(" down");
                    let up = owned(f.name.as_str()).concat(" up");
                    put(&mut out, rate(down, excess(rx, a.rx), 1, nanos));
                    put(&mut out, rate(up, excess(tx, a.tx), 1, nanos));
                }
            }
            prev.insert(&f.name, NetSample { rx, tx, at: now });
        }
        assert(views(out@) =~= so_far + iface_rates(f@, m, now));
        i = i + 1;
    }
    proof {
        lemma_take_all(all);
    }
    out
}

/// What the interfaces carried since they were last seen, in the order of
/// their names, and the signals of the wireless ones; remembers the counters.
pub fn read_net_io(
    prev: &mut Table<NetSample>,
    ifaces: Vec<IfaceFiles>,
    wireless: Option<&str>,
    now: u64,
) -> (r: Vec<Chip<Value>>)
    ensures
        final(prev)@ == after_ifaces(sorted(views(ifaces@), IfaceFiles::key()), old(prev)@, now),
        views(r@) == as_chip(
            "net"@,
            net_readings(
                sorted(views(ifaces@), IfaceFiles::key()),
                seen(wireless),
                old(prev)@,
                now,
            ),
        ),
{
    let fs = sort_by_label(ifaces);
    let mut readings = read_rates(prev, &fs, now);
    let ghost rates = views(readings@);
    let t = match wireless {
        Some(s) => chars(s),
        None => Vec::new(),
    };
    assert(wireless is None ==> lines(t@) =~= lines_of(seen(wireless)));
    let ls = split_lines(t.as_slice());
    let ghost all = lines(t@);
    let mut i: usize = 2;
    assert(rates + signals(views(fs@), all, 2) =~= rates);
    while i < ls.len()
        invariant
            2 <= i,
            i == 2 || i <= ls.len(),
            views(ls@) == all,
            views(readings@) == rates + signals(views(fs@), all, i as int),
        decreases ls.len() - i,
    {
        assert(all[i as int] == ls@[i as int]@);
        let ghost so_far = views(readings@);
        if let Some(r) = read_signal(&fs, ls[i]) {
            put(&mut readings, r);
        }
        assert(views(readings@) =~= rates + signals(views(fs@), all, i + 1));
        i = i + 1;
    }
    assert(signals(views(fs@), all, i as int) == signals(views(fs@), all, all.len() as int));
    let mut out: Vec<Chip<Value>> = Vec::new();
    if readings.len() > 0 {
        put(&mut out, Chip { name: owned("net"), readings });
    }
    assert(views(out@) =~= as_chip("net"@, rates + signals(views(fs@), all, all.len() as int)));
    out
}

// ---------- laws ----------

/// Disks that were all counted a moment ago, or never, give no rates.
pub proof fn lemma_no_disk_rates_too_soon(
    ls: Seq<Seq<char>>,
    m: Map<Seq<char>, DiskSample>,
    now: u64,
)
    requires
        forall|d: Seq<char>| #[trigger] m.dom().contains(d) ==> over(now, m[d].at) < SHORTEST,
    ensures
        disk_chips(ls, m, now) == Seq::<ChipModel<ValueModel>>::empty(),
        forall|d: Seq<char>| #[trigger]
            after_disks(ls, m, now).dom().contains(d) ==> over(now, after_disks(ls, m, now)[d].at)
                < SHORTEST,
    decreases ls.len(),
{
    if ls.len() > 0 {
        lemma_no_disk_rates_too_soon(ls.drop_last(), m, now);
    }
    assert(disk_chips(ls, m, now) =~= Seq::<ChipModel<ValueModel>>::empty());
}

/// Networks that were all counted a moment ago, or never, give no rates.
pub proof fn lemma_no_network_rates_too_soon(
    fs: Seq<IfaceModel>,
    m: Map<Seq<char>, NetSample>,
    now: u64,
)
    requires
        forall|d: Seq<char>| #[trigger] m.dom().contains(d) ==> over(now, m[d].at) < SHORTEST,
    ensures
        net_rates(fs, m, now) == Seq::<ReadingModel<ValueModel>>::empty(),
        forall|d: Seq<char>| #[trigger]
            after_ifaces(fs, m, now).dom().contains(d) ==> over(
                now,
                after_ifaces(fs, m, now)[d].at,
            ) < SHORTEST,
    decreases fs.len(),
{
    if fs.len() > 0 {
        lemma_no_network_rates_too_soon(fs.drop_last(), m, now);
    }
    assert(net_rates(fs, m, now) =~= Seq::<ReadingModel<ValueModel>>::empty());
}

} // verus!
