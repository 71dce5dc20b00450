//! The last values of what the charts show.
use std::collections::VecDeque;

use vstd::prelude::*;

use crate::double::{lemma_cut_off_fits, Double};
use crate::lists::{
    first, kept, lemma_first_at, lemma_first_none, lemma_kept_step, lemma_take_all, views,
};
use crate::model::{Chip, ChipModel, Fixed, MemSnapshot, Number, ReadingModel, Snapshot, Unit};
use crate::output::{plain, Piece, PieceModel};
use crate::style::{panel, panel_title, Color, Span};
use crate::text::{chars, contains, occurs, owned};

verus! {

/// The last values of the temperature, the power and the memory in use, in
/// tenths, as many of each as there is room for.
pub struct History {
    pub tctl: VecDeque<u64>,
    pub power: VecDeque<u64>,
    pub mem: VecDeque<u64>,
    pub cap: usize,
}

/// What a `History` holds.
#[verifier::ext_equal]
pub struct HistoryModel {
    pub tctl: Seq<u64>,
    pub power: Seq<u64>,
    pub mem: Seq<u64>,
    pub cap: usize,
}

impl View for History {
    type V = HistoryModel;

    open spec fn view(&self) -> HistoryModel {
        HistoryModel { tctl: self.tctl@, power: self.power@, mem: self.mem@, cap: self.cap }
    }
}

/// The values after one more, where there is room for `cap`.
pub open spec fn ring(s: Seq<u64>, value: u64, cap: usize) -> Seq<u64> {
    if s.len() == cap && s.len() > 0 {
        s.drop_first().push(value)
    } else {
        s.push(value)
    }
}

/// The same, where there may be no value.
pub open spec fn ring_maybe(s: Seq<u64>, value: Option<u64>, cap: usize) -> Seq<u64> {
    match value {
        Some(v) => ring(s, v, cap),
        None => s,
    }
}

fn push_ring_cap(v: &mut VecDeque<u64>, val: u64, cap: usize)
    ensures
        final(v)@ == ring(old(v)@, val, cap),
{
    let ghost start = v@;
    if v.len() == cap {
        v.pop_front();
        assert(start.len() > 0 ==> v@ =~= start.drop_first());
    }
    v.push_back(val);
}

/// All values of a row pushed one after the other.
pub open spec fn ring_all(values: Seq<u64>, cap: usize) -> Seq<u64>
    decreases values.len(),
{
    if values.len() == 0 {
        Seq::empty()
    } else {
        ring(ring_all(values.drop_last(), cap), values.last(), cap)
    }
}

/// Where there is room for any at all, what is kept of a row of values is the
/// last of them, as many as there is room for.
pub proof fn lemma_the_last_are_kept(values: Seq<u64>, cap: usize)
    requires
        cap > 0,
    ensures
        values.len() <= cap ==> ring_all(values, cap) == values,
        values.len() > cap ==> ring_all(values, cap) == values.skip(values.len() - cap),
    decreases values.len(),
{
    if values.len() > 0 {
        let t = values.drop_last();
        lemma_the_last_are_kept(t, cap);
        if values.len() <= cap {
            assert(ring_all(values, cap) =~= values);
        } else {
            assert(ring_all(values, cap) =~= values.skip(values.len() - cap));
        }
    }
}

// ---------- what is charted ----------

/// Whether the chip is one with the temperature of the processor.
pub open spec fn has_tctl() -> spec_fn(ChipModel<Double>) -> Option<ChipModel<Double>> {
    |c: ChipModel<Double>|
        if occurs(c.name, "k10temp"@) || occurs(c.name, "zenpower"@) {
            Some(c)
        } else {
            None
        }
}

pub open spec fn temperature() -> spec_fn(ReadingModel<Double>) -> Option<Double> {
    |r: ReadingModel<Double>|
        if r.unit == Unit::TempC {
            Some(r.value)
        } else {
            None
        }
}

/// The temperature of the processor: the first one of the chip that has it, or
/// else of the first chip.
pub open spec fn tctl_of(chips: Seq<ChipModel<Double>>) -> Option<Double> {
    match first(chips, has_tctl()) {
        Some(c) => first(c.readings, temperature()),
        None => if chips.len() > 0 {
            first(chips[0].readings, temperature())
        } else {
            None
        },
    }
}

fn first_temperature(chip: &Chip<Double>) -> (r: Option<Double>)
    ensures
        r == first(chip@.readings, temperature()),
{
    let ghost all = chip@.readings;
    let mut i: usize = 0;
    while i < chip.readings.len()
        invariant
            i <= chip.readings.len(),
            all == chip@.readings,
            forall|j: int| 0 <= j < i ==> temperature()(#[trigger] all[j]) is None,
        decreases chip.readings.len() - i,
    {
        assert(all[i as int] == chip.readings@[i as int]@);
        if chip.readings[i].unit == Unit::TempC {
            proof {
                lemma_first_at(all, temperature(), i as int);
            }
            return Some(chip.readings[i].value);
        }
        i = i + 1;
    }
    proof {
        lemma_first_none(all, temperature());
    }
    None
}

pub fn find_tctl(chips: &Vec<Chip<Double>>) -> (r: Option<Double>)
    ensures
        r == tctl_of(views(chips@)),
{
    let ghost all = views(chips@);
    let mut i: usize = 0;
    while i < chips.len()
        invariant
            i <= chips.len(),
            all == views(chips@),
            forall|j: int| 0 <= j < i ==> has_tctl()(#[trigger] all[j]) is None,
        decreases chips.len() - i,
    {
        assert(all[i as int] == chips@[i as int]@);
        let name = chars(chips[i].name.as_str());
        if contains(name.as_slice(), "k10temp") || contains(name.as_slice(), "zenpower") {
            proof {
                lemma_first_at(all, has_tctl(), i as int);
            }
            return first_temperature(&chips[i]);
        }
        i = i + 1;
    }
    proof {
        lemma_first_none(all, has_tctl());
    }
    if chips.len() > 0 {
        assert(all[0] == chips@[0]@);
        first_temperature(&chips[0])
    } else {
        None
    }
}

/// The power that is charted: that of the package, or else what flows in or out
/// of the battery.
pub open spec fn charted_power(s: Snapshot) -> Option<Double> {
    match s.cpu.pkg_w {
        Some(w) => Some(w),
        None => match s.battery {
            Some(b) => match b.watts {
                Some(w) => Some(w.unsigned()),
                None => None,
            },
            None => None,
        },
    }
}

pub fn find_power(s: &Snapshot) -> (r: Option<Double>)
    ensures
        r == charted_power(*s),
{
    match s.cpu.pkg_w {
        Some(w) => Some(w),
        None => match &s.battery {
            Some(b) => match b.watts {
                Some(w) => Some(w.abs()),
                None => None,
            },
            None => None,
        },
    }
}

/// What was computed of a snapshot: ten times its temperature, ten times its
/// power, and a thousand times the share of the memory that is in use. What
/// stands for a value that the snapshot does not have is not looked at.
#[derive(Clone, Copy, Debug, PartialEq, Eq, Structural)]
pub struct Scaled {
    pub tctl: Double,
    pub power: Double,
    pub mem: Double,
}

/// What is charted of one snapshot.
pub struct Point {
    pub tctl: Option<u64>,
    pub power: Option<u64>,
    pub mem: u64,
}

/// The share of the memory that is in use, in thousandths, of which there are no
/// more than a thousand; nothing where there is no memory or none in use.
pub open spec fn thousandths(mem: MemSnapshot, share: Double) -> u64 {
    if mem.in_use() == 0 {
        0
    } else if share.cut_off() > 1000 {
        1000
    } else {
        share.cut_off() as u64
    }
}

/// What a snapshot adds to the charts: the temperature and the power where it has
/// any, and the memory in use. The fractions are cut off.
pub open spec fn point(s: Snapshot, scaled: Scaled) -> Point {
    Point {
        tctl: match tctl_of(views(s.chips@)) {
            Some(t) => Some(scaled.tctl.cut_off() as u64),
            None => None,
        },
        power: match charted_power(s) {
            Some(w) => Some(scaled.power.cut_off() as u64),
            None => None,
        },
        mem: thousandths(s.mem, scaled.mem),
    }
}

pub open spec fn empty_history(cap: usize) -> HistoryModel {
    HistoryModel { tctl: Seq::empty(), power: Seq::empty(), mem: Seq::empty(), cap }
}

impl HistoryModel {
    /// The history with one more of each value that there is.
    pub open spec fn after(self, p: Point) -> HistoryModel {
        HistoryModel {
            tctl: ring_maybe(self.tctl, p.tctl, self.cap),
            power: ring_maybe(self.power, p.power, self.cap),
            mem: ring(self.mem, p.mem, self.cap),
            cap: self.cap,
        }
    }
}

impl History {
    pub fn new(cap: usize) -> (r: History)
        ensures
            r@ == empty_history(cap),
    {
        History { tctl: VecDeque::new(), power: VecDeque::new(), mem: VecDeque::new(), cap }
    }

    /// Keeps one more value of each that the snapshot has.
    pub fn push(&mut self, s: &Snapshot, scaled: Scaled)
        ensures
            final(self)@ == old(self)@.after(point(*s, scaled)),
    {
        let cap = self.cap;
        if find_tctl(&s.chips).is_some() {
            push_ring_cap(&mut self.tctl, scaled.tctl.to_u64(), cap);
        }
        if find_power(s).is_some() {
            push_ring_cap(&mut self.power, scaled.power.to_u64(), cap);
        }
        let share = scaled.mem.to_u64();
        let mem: u64 = if s.mem.used() == 0 {
            0
        } else if share > 1000 {
            1000
        } else {
            share
        };
        push_ring_cap(&mut self.mem, mem, cap);
    }
}

/// The history after some snapshots.
pub open spec fn history_of(points: Seq<Point>, cap: usize) -> HistoryModel
    decreases points.len(),
{
    if points.len() == 0 {
        empty_history(cap)
    } else {
        history_of(points.drop_last(), cap).after(points.last())
    }
}

/// The last of the values, as many as there is room for, the oldest first.
pub open spec fn last_of(values: Seq<u64>, cap: usize) -> Seq<u64> {
    if values.len() <= cap {
        values
    } else {
        values.skip(values.len() - cap)
    }
}

/// The temperatures there were.
pub open spec fn temperatures(points: Seq<Point>) -> Seq<u64> {
    kept(points, |p: Point| p.tctl)
}

/// The powers there were.
pub open spec fn powers(points: Seq<Point>) -> Seq<u64> {
    kept(points, |p: Point| p.power)
}

/// The memory in use at every point.
pub open spec fn memories(points: Seq<Point>) -> Seq<u64> {
    Seq::new(points.len(), |i: int| points[i].mem)
}

/// A snapshot without chips adds no temperature, one with neither the power of
/// the package nor that of the battery adds no power, and the memory in use is at
/// most a thousand thousandths, and none where there is no memory or as much is
/// available as there is.
pub proof fn lemma_point(s: Snapshot, scaled: Scaled)
    ensures
        s.chips@.len() == 0 ==> point(s, scaled).tctl is None,
        s.cpu.pkg_w is None && (s.battery matches Some(b) ==> b.watts is None) ==> point(
            s,
            scaled,
        ).power is None,
        point(s, scaled).mem <= 1000,
        s.mem.total_kib == 0 || s.mem.avail_kib >= s.mem.total_kib ==> point(s, scaled).mem == 0,
{
    lemma_cut_off_fits(scaled.mem);
}

/// After any number of snapshots a history with room for any values holds the
/// last of each kind, oldest first, and never more than there is room for; a
/// snapshot without a temperature or a power leaves what is held of it as it was.
pub proof fn lemma_history_holds_the_last(points: Seq<Point>, cap: usize)
    requires
        cap > 0,
    ensures
        history_of(points, cap).tctl == last_of(temperatures(points), cap),
        history_of(points, cap).power == last_of(powers(points), cap),
        history_of(points, cap).mem == last_of(memories(points), cap),
        history_of(points, cap).cap == cap,
        history_of(points, cap).tctl.len() <= cap,
        history_of(points, cap).power.len() <= cap,
        history_of(points, cap).mem.len() == (if points.len() <= cap {
            points.len()
        } else {
            cap as nat
        }),
{
    lemma_history_in_rings(points, cap);
    lemma_the_last_are_kept(temperatures(points), cap);
    lemma_the_last_are_kept(powers(points), cap);
    lemma_the_last_are_kept(memories(points), cap);
}

proof fn lemma_history_in_rings(points: Seq<Point>, cap: usize)
    ensures
        history_of(points, cap).tctl == ring_all(temperatures(points), cap),
        history_of(points, cap).power == ring_all(powers(points), cap),
        history_of(points, cap).mem == ring_all(memories(points), cap),
        history_of(points, cap).cap == cap,
    decreases points.len(),
{
    if points.len() > 0 {
        let t = points.drop_last();
        let p = points.last();
        lemma_history_in_rings(t, cap);
        lemma_take_all(points);
        assert(points.take(points.len() - 1) =~= t);
        lemma_kept_step(points, |p: Point| p.tctl, points.len() - 1);
        lemma_kept_step(points, |p: Point| p.power, points.len() - 1);
        assert(memories(points).drop_last() =~= memories(t));
        if p.tctl is Some {
            assert(temperatures(points).drop_last() =~= temperatures(t));
        }
        if p.power is Some {
            assert(powers(points).drop_last() =~= powers(t));
        }
    }
}

// ---------- the charts ----------

/// A chart: its title, its color and its values.
#[derive(Clone, Debug)]
pub struct Chart {
    pub title: Span,
    pub color: Color,
    pub data: Vec<u64>,
}

/// The largest value, from the first one on.
pub open spec fn peak(s: Seq<u64>) -> u64
    decreases s.len(),
{
    if s.len() <= 1 {
        s[0]
    } else if peak(s.drop_last()) > s.last() {
        peak(s.drop_last())
    } else {
        s.last()
    }
}

/// The peak is one of the values, and none is larger.
pub proof fn lemma_peak(s: Seq<u64>)
    requires
        s.len() > 0,
    ensures
        s.contains(peak(s)),
        forall|i: int| 0 <= i < s.len() ==> s[i] <= peak(s),
    decreases s.len(),
{
    if s.len() > 1 {
        let t = s.drop_last();
        lemma_peak(t);
        let i = choose|i: int| 0 <= i < t.len() && t[i] == peak(t);
        assert(s[i] == peak(t));
        assert(s[s.len() - 1] == s.last());
        assert forall|k: int| 0 <= k < s.len() implies s[k] <= peak(s) by {
            if k < t.len() {
                assert(t[k] == s[k]);
            }
        }
    } else {
        assert(s[0] == peak(s));
    }
}

pub open spec fn tenth(n: u64, unit: Seq<char>) -> PieceModel {
    PieceModel::Number {
        value: Fixed { value: Number::Quotient { n, d: 10 }, decimals: 1 },
        unit,
        width: 0,
    }
}

/// The title of a chart: its name, and the last value and the peak where there
/// are any.
pub open spec fn chart_title(name: Seq<char>, unit: Seq<char>, s: Seq<u64>) -> Seq<PieceModel> {
    if s.len() > 0 {
        seq![
            PieceModel::Text(" "@ + name + "  "@),
            tenth(s.last(), unit),
            PieceModel::Text("  峰值 "@),
            tenth(peak(s), unit),
            PieceModel::Text(" "@),
        ]
    } else {
        plain(" "@ + name + " "@)
    }
}

fn write_tenth(n: u64, unit: &'static str) -> (r: Piece)
    ensures
        r@ == tenth(n, unit@),
{
    Piece::Number {
        value: Fixed { value: Number::Quotient { n, d: 10 }, decimals: 1 },
        unit,
        width: 0,
    }
}

fn copy_values(data: &VecDeque<u64>) -> (r: Vec<u64>)
    ensures
        r@ == data@,
{
    let mut out: Vec<u64> = Vec::new();
    let mut i: usize = 0;
    while i < data.len()
        invariant
            i <= data.len(),
            out@ =~= data@.take(i as int),
        decreases data.len() - i,
    {
        out.push(data[i]);
        i = i + 1;
    }
    assert(out@ =~= data@);
    out
}

fn find_peak(v: &Vec<u64>) -> (r: u64)
    requires
        v@.len() > 0,
    ensures
        r == peak(v@),
{
    let mut best: u64 = v[0];
    let mut i: usize = 1;
    while i < v.len()
        invariant
            1 <= i <= v.len(),
            best == peak(v@.take(i as int)),
        decreases v.len() - i,
    {
        assert(v@.take(i + 1).drop_last() =~= v@.take(i as int));
        if !(best > v[i]) {
            best = v[i];
        }
        i = i + 1;
    }
    assert(v@.take(i as int) =~= v@);
    best
}

pub fn chart(data: &VecDeque<u64>, color: Color, name: &'static str, unit: &'static str) -> (r:
    Chart)
    ensures
        r.data@ == data@,
        r.color == color,
        r.title@ == panel_title(chart_title(name@, unit@, data@)),
{
    let v = copy_values(data);
    let mut title: Vec<Piece> = Vec::new();
    if v.len() > 0 {
        title.push(Piece::Text(owned(" ").concat(name).concat("  ")));
        title.push(write_tenth(v[v.len() - 1], unit));
        title.push(Piece::Text(owned("  峰值 ")));
        title.push(write_tenth(find_peak(&v), unit));
        title.push(Piece::Text(owned(" ")));
    } else {
        title.push(Piece::Text(owned(" ").concat(name).concat(" ")));
    }
    assert(views(title@) =~= chart_title(name@, unit@, data@));
    Chart { title: panel(title), color, data: v }
}

} // verus!
