//! Traffic: the lines that disks and wireless networks are told on, and what is
//! done between two samples.
use vstd::prelude::*;

use crate::files::file_u64;
use crate::laws::text::{
    all_words, blank, lemma_cut_at, lemma_number_reads_back, lemma_numerals, lemma_spaced,
    lemma_trimmed, lemma_written_number, numerals, spaced, unbroken,
};
use crate::lists::{listed, seen};
use crate::model::{ChipModel, ReadingModel, Unit, ValueModel};
use crate::numbers::{dec, is_decimal};
use crate::text::is_space;
use crate::traffic::{
    after_disks, after_ifaces, as_chip, disk_chip, disk_chips, disk_line, disk_of, iface_rates,
    is_disk, net_rates, net_readings, signal, signals, DiskSample, IfaceFiles, IfaceModel,
    NetSample,
};

verus! {

// ---------- disks ----------

/// A line of `/proc/diskstats`: two numbers of the device, its name, and its
/// counters.
pub open spec fn disk_row(major: u64, minor: u64, name: Seq<char>, s: Seq<u64>) -> Seq<char> {
    spaced(seq![dec(major as nat), dec(minor as nat), name] + numerals(s))
}

/// Of the counters of a disk the third is the sectors read, the seventh the sectors
/// written, and the tenth the milliseconds of work.
pub proof fn lemma_disk_row(major: u64, minor: u64, name: Seq<char>, s: Seq<u64>, now: u64)
    requires
        name.len() > 0,
        unbroken(name),
        s.len() >= 11,
    ensures
        is_disk(name) ==> disk_line(disk_row(major, minor, name, s), now) == Some(
            (name, DiskSample { read: s[2], written: s[6], worked: s[9], at: now }),
        ),
        !is_disk(name) ==> disk_line(disk_row(major, minor, name, s), now) is None,
{
    let ws = seq![dec(major as nat), dec(minor as nat), name] + numerals(s);
    lemma_written_number(major as nat);
    lemma_written_number(minor as nat);
    lemma_numerals(s);
    assert forall|i: int| 0 <= i < ws.len() implies (#[trigger] ws[i]).len() > 0 && unbroken(ws[i]) by {
        if i >= 3 {
            assert(ws[i] == numerals(s)[i - 3]);
        }
    }
    lemma_spaced(ws);
    lemma_number_reads_back(s[2] as nat);
    lemma_number_reads_back(s[6] as nat);
    lemma_number_reads_back(s[9] as nat);
    assert(ws[5] == numerals(s)[2] && ws[9] == numerals(s)[6] && ws[12] == numerals(s)[9]);
}

/// A whole NVMe disk is a disk, and neither its partitions nor other devices are.
pub proof fn lemma_disks(a: nat, b: nat, c: nat, other: Seq<char>)
    requires
        other.len() < 4 || other.take(4) != "nvme"@,
    ensures
        is_disk("nvme"@ + dec(a) + "n"@ + dec(b)),
        !is_disk("nvme"@ + dec(a) + "n"@ + dec(b) + "p"@ + dec(c)),
        !is_disk(other),
{
    reveal_strlit("nvme");
    reveal_strlit("n");
    reveal_strlit("p");
    lemma_written_number(a);
    lemma_written_number(b);
    let s = "nvme"@ + dec(a) + "n"@ + dec(b);
    let t = s + "p"@ + dec(c);
    assert(s.take(4) =~= "nvme"@);
    assert(t[s.len() as int] == 'p');
    assert(!s.contains('p')) by {
        if s.contains('p') {
            let i = choose|i: int| 0 <= i < s.len() && s[i] == 'p';
            if i >= 4 && i < 4 + dec(a).len() {
                assert(s[i] == dec(a)[i - 4]);
            } else if i > 4 + dec(a).len() {
                assert(s[i] == dec(b)[i - 5 - dec(a).len()]);
            }
        }
    }
}

/// A rate in MiB per second: so many times so many bytes over so many nanoseconds.
pub open spec fn mebibytes(label: Seq<char>, amount: u64, bytes: u64, nanos: u64) -> ReadingModel<
    ValueModel,
> {
    ReadingModel {
        label,
        value: ValueModel::Rate { amount, times: bytes, nanos, divisor: 1_048_576 },
        unit: Unit::RateMBs,
    }
}

/// What a disk does between two samples at least 50 milliseconds apart: the sectors
/// of 512 bytes that were read in between, those that were written, and the share of
/// the time in which it worked. Each depends on its own counter alone.
pub proof fn lemma_disk_rates(name: Seq<char>, a: DiskSample, r: u64, w: u64, t: u64, nanos: u64)
    requires
        a.read + r <= u64::MAX,
        a.written + w <= u64::MAX,
        a.worked + t <= u64::MAX,
        a.at + nanos <= u64::MAX,
    ensures
        ({
            let b = DiskSample {
                read: (a.read + r) as u64,
                written: (a.written + w) as u64,
                worked: (a.worked + t) as u64,
                at: (a.at + nanos) as u64,
            };
            &&& nanos < 50_000_000 ==> disk_chip(name, a, b) is None
            &&& nanos >= 50_000_000 ==> disk_chip(name, a, b) == Some(
                ChipModel {
                    name: name + " IO"@,
                    readings: seq![
                        mebibytes("read"@, r, 512, nanos),
                        mebibytes("write"@, w, 512, nanos),
                        ReadingModel {
                            label: "busy"@,
                            value: ValueModel::Busy { millis: t, nanos },
                            unit: Unit::Pct,
                        },
                    ],
                },
            )
        }),
{
}

/// A counter of a disk that has fallen gives a rate of zero, whatever the others do.
pub proof fn lemma_disk_counters_fall(name: Seq<char>, a: DiskSample, b: DiskSample)
    requires
        a.at <= b.at,
        b.at - a.at >= 50_000_000,
    ensures
        disk_chip(name, a, b) is Some,
        disk_chip(name, a, b)->0.readings.len() == 3,
        b.read <= a.read ==> disk_chip(name, a, b)->0.readings[0] == mebibytes(
            "read"@,
            0,
            512,
            (b.at - a.at) as u64,
        ),
        b.written <= a.written ==> disk_chip(name, a, b)->0.readings[1] == mebibytes(
            "write"@,
            0,
            512,
            (b.at - a.at) as u64,
        ),
        b.worked <= a.worked ==> disk_chip(name, a, b)->0.readings[2].value == (ValueModel::Busy {
            millis: 0,
            nanos: (b.at - a.at) as u64,
        }),
{
}

/// From one sample of `/proc/diskstats` to the next: a disk that was seen before
/// gives a chip by its two lines, and one that was not gives none.
pub proof fn lemma_disk_samples(
    name: Seq<char>,
    s: Seq<u64>,
    t: Seq<u64>,
    at: u64,
    then: u64,
)
    requires
        name.len() > 0,
        unbroken(name),
        is_disk(name),
        s.len() >= 11,
        t.len() >= 11,
    ensures
        ({
            let (a, b) = (disk_row(259, 0, name, s), disk_row(259, 0, name, t));
            let none = Map::<Seq<char>, DiskSample>::empty();
            &&& disk_chips(seq![a], none, at).len() == 0
            &&& disk_chips(seq![b], after_disks(seq![a], none, at), then) == listed(
                disk_chip(
                    name,
                    DiskSample { read: s[2], written: s[6], worked: s[9], at },
                    DiskSample { read: t[2], written: t[6], worked: t[9], at: then },
                ),
            )
        }),
{
    let (a, b) = (disk_row(259, 0, name, s), disk_row(259, 0, name, t));
    let none = Map::<Seq<char>, DiskSample>::empty();
    lemma_disk_row(259, 0, name, s, at);
    lemma_disk_row(259, 0, name, t, then);
    let m = after_disks(seq![a], none, at);
    let empty = Seq::<Seq<char>>::empty();
    assert(seq![a].drop_last() =~= empty);
    assert(seq![b].drop_last() =~= empty);
    assert(after_disks(empty, none, at) == none);
    assert(after_disks(empty, m, then) == m);
    assert(disk_chips(empty, none, at).len() == 0);
    assert(disk_chips(empty, m, then).len() == 0);
    assert(disk_chips(seq![a], none, at) =~= listed(disk_of(a, none, at)));
    assert(disk_chips(seq![b], m, then) =~= listed(disk_of(b, m, then)));
}

// ---------- networks ----------

/// An interface is what its own files say: the bytes received, and the bytes sent;
/// none where a file could not be read.
pub proof fn lemma_iface_files(f: IfaceFiles, n: u64)
    ensures
        f@.name == f.name@,
        file_u64(seen(f.rx)) == Some(n as int) ==> f@.rx == n,
        file_u64(seen(f.tx)) == Some(n as int) ==> f@.tx == n,
        file_u64(seen(f.rx)) is None ==> f@.rx == 0,
        file_u64(seen(f.tx)) is None ==> f@.tx == 0,
{
}

/// What an interface carries between two samples at least 50 milliseconds apart: the
/// bytes received in between are what came down, and the bytes sent what went up. The
/// loopback interface carries nothing.
pub proof fn lemma_network_rates(
    name: Seq<char>,
    rx: u64,
    tx: u64,
    down: u64,
    up: u64,
    at: u64,
    nanos: u64,
)
    requires
        rx + down <= u64::MAX,
        tx + up <= u64::MAX,
        at + nanos <= u64::MAX,
    ensures
        ({
            let a = IfaceModel { name, rx, tx };
            let b = IfaceModel { name, rx: (rx + down) as u64, tx: (tx + up) as u64 };
            let none = Map::<Seq<char>, NetSample>::empty();
            let m = after_ifaces(seq![a], none, at);
            let r = net_rates(seq![b], m, (at + nanos) as u64);
            &&& net_rates(seq![a], none, at).len() == 0
            &&& name == "lo"@ || nanos < 50_000_000 ==> r.len() == 0
            &&& name != "lo"@ && nanos >= 50_000_000 ==> r == seq![
                mebibytes(name + " down"@, down, 1, nanos),
                mebibytes(name + " up"@, up, 1, nanos),
            ]
        }),
{
    let a = IfaceModel { name, rx, tx };
    let b = IfaceModel { name, rx: (rx + down) as u64, tx: (tx + up) as u64 };
    let none = Map::<Seq<char>, NetSample>::empty();
    let m = after_ifaces(seq![a], none, at);
    let t = (at + nanos) as u64;
    let empty = Seq::<IfaceModel>::empty();
    assert(seq![a].drop_last() =~= empty);
    assert(seq![b].drop_last() =~= empty);
    assert(after_ifaces(empty, none, at) == none);
    assert(after_ifaces(empty, m, t) == m);
    assert(net_rates(empty, none, at).len() == 0);
    assert(net_rates(empty, m, t).len() == 0);
    assert(net_rates(seq![a], none, at) =~= iface_rates(a, none, at));
    assert(net_rates(seq![b], m, t) =~= iface_rates(b, m, t));
}

/// A counter of an interface that has fallen gives a rate of zero, whatever the
/// other does.
pub proof fn lemma_network_counters_fall(f: IfaceModel, m: Map<Seq<char>, NetSample>, now: u64)
    requires
        f.name != "lo"@,
        m.dom().contains(f.name),
        m[f.name].at <= now,
        now - m[f.name].at >= 50_000_000,
    ensures
        iface_rates(f, m, now).len() == 2,
        f.rx <= m[f.name].rx ==> iface_rates(f, m, now)[0] == mebibytes(
            f.name + " down"@,
            0,
            1,
            (now - m[f.name].at) as u64,
        ),
        f.tx <= m[f.name].tx ==> iface_rates(f, m, now)[1] == mebibytes(
            f.name + " up"@,
            0,
            1,
            (now - m[f.name].at) as u64,
        ),
{
}

/// A line of `/proc/net/wireless`, as in `wlan0: 0000   59.  -51.  -256`, gives the
/// level of the signal in dBm: the third word behind the colon. It is told of an
/// interface that is there, and of no other.
pub proof fn lemma_signal(
    fs: Seq<IfaceModel>,
    gap: Seq<char>,
    name: Seq<char>,
    status: Seq<char>,
    link: Seq<char>,
    level: Seq<char>,
    more: Seq<Seq<char>>,
)
    requires
        blank(gap),
        name.len() > 0,
        unbroken(name),
        !name.contains(':'),
        all_words(seq![status, link, level] + more),
        is_decimal(level),
    ensures
        ({
            let line = gap + name + ":"@ + spaced(seq![status, link, level] + more);
            let there = name != "lo"@ && exists|i: int|
                0 <= i < fs.len() && (#[trigger] fs[i]).name == name;
            &&& there ==> signal(fs, line) == Some(
                ReadingModel {
                    label: name + " rssi"@,
                    value: ValueModel::Decimal { text: level, divisor: 1 },
                    unit: Unit::Dbm,
                },
            )
            &&& !there ==> signal(fs, line) is None
        }),
{
    reveal_strlit(":");
    let ws = seq![status, link, level] + more;
    let front = gap + name;
    let line = front + ":"@ + spaced(ws);
    assert(!front.contains(':')) by {
        if front.contains(':') {
            let i = choose|i: int| 0 <= i < front.len() && front[i] == ':';
            if i < gap.len() {
                assert(gap[i] == ':');
            } else {
                assert(name[i - gap.len()] == ':');
            }
        }
    }
    assert(line =~= front + seq![':'] + spaced(ws));
    lemma_cut_at(front, ':', spaced(ws));
    assert(!is_space(name[0]) && !is_space(name[name.len() - 1]));
    lemma_trimmed(gap, name, Seq::empty());
    assert(gap + name + Seq::<char>::empty() =~= front);
    lemma_spaced(ws);
    assert(ws[2] == level);
}

/// The first two lines of the file on wireless networks are its heading; every line
/// behind them may give a signal.
pub proof fn lemma_signals(fs: Seq<IfaceModel>, ls: Seq<Seq<char>>, l: Seq<char>)
    ensures
        ls.len() < 2 ==> signals(fs, ls.push(l), (ls.len() + 1) as int).len() == 0,
        ls.len() >= 2 && signal(fs, l) is Some ==> signals(fs, ls.push(l), (ls.len() + 1) as int) == signals(
            fs,
            ls.push(l),
            ls.len() as int,
        ).push(signal(fs, l)->0),
        ls.len() >= 2 && signal(fs, l) is None ==> signals(fs, ls.push(l), (ls.len() + 1) as int) == signals(
            fs,
            ls.push(l),
            ls.len() as int,
        ),
{
    let n = ls.len() as int;
    let t = ls.push(l);
    assert(t[n] == l);
    assert(n >= 2 && signal(fs, l) is Some ==> signals(fs, t, n + 1) =~= signals(fs, t, n).push(
        signal(fs, l)->0,
    ));
    assert(n >= 2 && signal(fs, l) is None ==> signals(fs, t, n + 1) =~= signals(fs, t, n));
}

/// The rates come first, and the signals behind them; the readings are one chip under
/// its name, or none where there are no readings.
pub proof fn lemma_readings_as_a_chip(
    fs: Seq<IfaceModel>,
    m: Map<Seq<char>, NetSample>,
    now: u64,
    name: Seq<char>,
    readings: Seq<ReadingModel<ValueModel>>,
)
    ensures
        net_readings(fs, None, m, now) == net_rates(fs, m, now),
        readings.len() == 0 ==> as_chip(name, readings).len() == 0,
        readings.len() > 0 ==> as_chip(name, readings).len() == 1 && as_chip(name, readings)[0].name
            == name && as_chip(name, readings)[0].readings == readings,
{
    assert(net_readings(fs, None, m, now) =~= net_rates(fs, m, now));
}

/// Disks are read line by line, and each is remembered for the next sample; a line that
/// is no disk changes nothing.
pub proof fn lemma_disk_by_disk(
    ls: Seq<Seq<char>>,
    l: Seq<char>,
    m: Map<Seq<char>, DiskSample>,
    now: u64,
    name: Seq<char>,
    b: DiskSample,
)
    ensures
        disk_line(l, now) is None ==> disk_chips(ls.push(l), m, now) == disk_chips(ls, m, now)
            && after_disks(ls.push(l), m, now) == after_disks(ls, m, now),
        disk_line(l, now) == Some((name, b)) ==> after_disks(ls.push(l), m, now) == after_disks(
            ls,
            m,
            now,
        ).insert(name, b),
        disk_line(l, now) == Some((name, b)) && !after_disks(ls, m, now).dom().contains(name)
            ==> disk_chips(ls.push(l), m, now) == disk_chips(ls, m, now),
        disk_line(l, now) == Some((name, b)) && after_disks(ls, m, now).dom().contains(name)
            ==> disk_chips(ls.push(l), m, now) == disk_chips(ls, m, now) + listed(
            disk_chip(name, after_disks(ls, m, now)[name], b),
        ),
{
    assert(ls.push(l).drop_last() =~= ls);
    let none = Seq::<ChipModel<ValueModel>>::empty();
    assert(disk_chips(ls, m, now) + none =~= disk_chips(ls, m, now));
}

/// Interfaces are read one after the other, and each but the loopback is remembered.
pub proof fn lemma_interface_by_interface(
    fs: Seq<IfaceModel>,
    f: IfaceModel,
    m: Map<Seq<char>, NetSample>,
    now: u64,
)
    ensures
        net_rates(fs.push(f), m, now) == net_rates(fs, m, now) + iface_rates(
            f,
            after_ifaces(fs, m, now),
            now,
        ),
        f.name == "lo"@ ==> after_ifaces(fs.push(f), m, now) == after_ifaces(fs, m, now),
        f.name != "lo"@ ==> after_ifaces(fs.push(f), m, now) == after_ifaces(fs, m, now).insert(
            f.name,
            NetSample { rx: f.rx, tx: f.tx, at: now },
        ),
{
    assert(fs.push(f).drop_last() =~= fs);
}

} // verus!
