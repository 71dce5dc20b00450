//! The kernel's hardware monitoring chips: which of a chip's files hold values,
//! what they are called, and what they hold.
use vstd::prelude::*;

use crate::files::{borrowed, file_text, file_value, read_trimmed, read_value};
use crate::lists::{kept, lemma_kept_step, lemma_take_all, listed, put, seen, views};
use crate::model::{Chip, ChipModel, Reading, ReadingModel, Unit, Value, ValueModel};
use crate::numbers::{dec, dec_text, decimal_u32, lemma_written_reads_back, parse_u32};
use crate::order::{in_order, lemma_sorted, precedes, sort_by_label, sorted, Labelled};
use crate::text::{
    after_prefix, before_digits, before_suffix, chars, owned, spells, strip_prefix, strip_suffix,
    trim_digits,
};

verus! {

/// The kinds of values, in the order of their names.
#[derive(Clone, Copy, Debug, PartialEq, Eq, Structural)]
pub enum Kind {
    Curr,
    Energy,
    Fan,
    In,
    Power,
    Pwm,
    Temp,
}

pub open spec fn kind_name(k: Kind) -> Seq<char> {
    match k {
        Kind::Curr => "curr"@,
        Kind::Energy => "energy"@,
        Kind::Fan => "fan"@,
        Kind::In => "in"@,
        Kind::Power => "power"@,
        Kind::Pwm => "pwm"@,
        Kind::Temp => "temp"@,
    }
}

pub open spec fn kind_rank(k: Kind) -> int {
    match k {
        Kind::Curr => 0,
        Kind::Energy => 1,
        Kind::Fan => 2,
        Kind::In => 3,
        Kind::Power => 4,
        Kind::Pwm => 5,
        Kind::Temp => 6,
    }
}

/// The unit of a kind of values, and what the numbers in the files are
/// multiples of: so many make one.
pub open spec fn kind_scale(k: Kind) -> (Unit, u64) {
    match k {
        Kind::Temp => (Unit::TempC, 1000),
        Kind::In => (Unit::Volts, 1000),
        Kind::Curr => (Unit::Amps, 1000),
        Kind::Power => (Unit::Watts, 1_000_000),
        Kind::Fan => (Unit::Rpm, 1),
        Kind::Energy => (Unit::Joules, 1_000_000),
        Kind::Pwm => (Unit::Pct, 255),
    }
}

/// The order of the ranks is the order of the names.
pub proof fn lemma_kinds_in_order_of_names(a: Kind, b: Kind)
    ensures
        kind_rank(a) < kind_rank(b) <==> precedes(kind_name(a), kind_name(b)),
{
    reveal_strlit("curr");
    reveal_strlit("energy");
    reveal_strlit("fan");
    reveal_strlit("in");
    reveal_strlit("power");
    reveal_strlit("pwm");
    reveal_strlit("temp");
    reveal_with_fuel(precedes, 3);
    let (s, t) = (kind_name(a), kind_name(b));
    assert(s.len() >= 2 && t.len() >= 2);
    assert(a == b ==> !precedes(s, t)) by {
        lemma_irreflexive(s);
    }
    assert(s.drop_first()[0] == s[1] && t.drop_first()[0] == t[1]);
}

proof fn lemma_irreflexive(s: Seq<char>)
    ensures
        !precedes(s, s),
    decreases s.len(),
{
    if s.len() > 0 {
        lemma_irreflexive(s.drop_first());
    }
}

/// A value of a chip: its kind, and its number among those.
#[derive(Clone, Copy, Debug, PartialEq, Eq, Structural)]
pub struct Slot {
    pub kind: Kind,
    pub n: u32,
}

/// The kind that goes by a name, of those whose files end in `_input`.
pub open spec fn input_kind(name: Seq<char>) -> Option<Kind> {
    if name == "temp"@ {
        Some(Kind::Temp)
    } else if name == "in"@ {
        Some(Kind::In)
    } else if name == "curr"@ {
        Some(Kind::Curr)
    } else if name == "power"@ {
        Some(Kind::Power)
    } else if name == "fan"@ {
        Some(Kind::Fan)
    } else if name == "energy"@ {
        Some(Kind::Energy)
    } else {
        None
    }
}

pub open spec fn numbered(kind: Option<Kind>, number: Seq<char>) -> Option<Slot> {
    match (kind, decimal_u32(number)) {
        (Some(kind), Some(n)) => Some(Slot { kind, n: n as u32 }),
        _ => None,
    }
}

/// The value that a file of the given name holds: `pwm` and a number, or a
/// kind, a number and `_input`.
pub open spec fn slot_of(file: Seq<char>) -> Option<Slot> {
    match after_prefix(file, "pwm"@) {
        Some(rest) => numbered(Some(Kind::Pwm), rest),
        None => match before_suffix(file, "_input"@) {
            Some(base) => {
                let kind = before_digits(base);
                numbered(input_kind(kind), base.skip(kind.len() as int))
            },
            None => None,
        },
    }
}

pub open spec fn slot_before(a: Slot, b: Slot) -> bool {
    kind_rank(a.kind) < kind_rank(b.kind) || (a.kind == b.kind && a.n < b.n)
}

/// Whether each slot comes before those behind it.
pub open spec fn ascending(s: Seq<Slot>) -> bool {
    forall|i: int, j: int|
        #![trigger s[i], s[j]]
        0 <= i < j < s.len() ==> slot_before(s[i], s[j])
}

/// Whether some file holds the value.
pub open spec fn held(files: Seq<Seq<char>>, x: Slot) -> bool {
    exists|i: int| 0 <= i < files.len() && slot_of(#[trigger] files[i]) == Some(x)
}

/// Whether the slots are the values that the files hold, each once and in order.
pub open spec fn lists(s: Seq<Slot>, files: Seq<Seq<char>>) -> bool {
    &&& ascending(s)
    &&& forall|x: Slot| #[trigger] s.contains(x) <==> held(files, x)
}

/// The values that the files hold, each once and in order.
pub open spec fn slots_of(files: Seq<Seq<char>>) -> Seq<Slot> {
    choose|s: Seq<Slot>| lists(s, files)
}

/// What one more file adds.
proof fn lemma_held_step(files: Seq<Seq<char>>, file: Seq<char>)
    ensures
        forall|x: Slot| held(files.push(file), x) <==> held(files, x) || slot_of(file) == Some(x),
{
    let t = files.push(file);
    assert forall|x: Slot| held(t, x) <==> held(files, x) || slot_of(file) == Some(x) by {
        if held(files, x) {
            let j = choose|j: int| 0 <= j < files.len() && slot_of(#[trigger] files[j]) == Some(x);
            assert(t[j] == files[j]);
        }
        if slot_of(file) == Some(x) {
            assert(t[files.len() as int] == file);
        }
        if held(t, x) {
            let j = choose|j: int| 0 <= j < t.len() && slot_of(#[trigger] t[j]) == Some(x);
            if j < files.len() {
                assert(files[j] == t[j]);
            }
        }
    }
}

/// One more slot at its place.
proof fn lemma_insert(s: Seq<Slot>, p: int, x: Slot)
    requires
        ascending(s),
        0 <= p <= s.len(),
        forall|j: int| 0 <= j < p ==> slot_before(#[trigger] s[j], x),
        p < s.len() ==> slot_before(x, s[p]),
    ensures
        ascending(s.insert(p, x)),
        forall|y: Slot| #[trigger] s.insert(p, x).contains(y) <==> s.contains(y) || y == x,
{
    let now = s.insert(p, x);
    assert forall|j: int, k: int|
        #![trigger now[j], now[k]]
        0 <= j < k < now.len() implies slot_before(now[j], now[k]) by {
        if k < p {
            assert(now[j] == s[j] && now[k] == s[k]);
        } else if j > p {
            assert(now[j] == s[j - 1] && now[k] == s[k - 1]);
        } else if k == p {
            assert(now[j] == s[j]);
        } else if j == p {
            assert(now[k] == s[k - 1]);
            if k - 1 > p {
                assert(slot_before(s[p], s[k - 1]));
            }
        } else {
            assert(now[j] == s[j] && now[k] == s[k - 1]);
        }
    }
    assert forall|y: Slot| #[trigger] now.contains(y) <==> s.contains(y) || y == x by {
        if s.contains(y) {
            let j = choose|j: int| 0 <= j < s.len() && s[j] == y;
            if j < p {
                assert(now[j] == y);
            } else {
                assert(now[j + 1] == y);
            }
        }
        if y == x {
            assert(now[p] == y);
        }
        if now.contains(y) && y != x {
            let j = choose|j: int| 0 <= j < now.len() && now[j] == y;
            if j < p {
                assert(s[j] == y);
            } else {
                assert(s[j - 1] == y);
            }
        }
    }
}

/// There is a place for every slot that is not among the others.
proof fn lemma_place(s: Seq<Slot>, x: Slot) -> (p: int)
    requires
        ascending(s),
        !s.contains(x),
    ensures
        0 <= p <= s.len(),
        forall|j: int| 0 <= j < p ==> slot_before(#[trigger] s[j], x),
        p < s.len() ==> slot_before(x, s[p]),
    decreases s.len(),
{
    if s.len() == 0 {
        0
    } else if slot_before(s.last(), x) {
        assert forall|j: int| 0 <= j < s.len() implies slot_before(#[trigger] s[j], x) by {
            if j < s.len() - 1 {
                assert(slot_before(s[j], s[s.len() - 1]));
            }
        }
        s.len() as int
    } else {
        let t = s.drop_last();
        let y = s.last();
        assert(s[s.len() - 1] == y);
        assert(slot_before(x, y)) by {
            assert(kind_rank(x.kind) == kind_rank(y.kind) ==> x.kind == y.kind);
        }
        assert forall|i: int, j: int|
            #![trigger t[i], t[j]]
            0 <= i < j < t.len() implies slot_before(t[i], t[j]) by {
            assert(slot_before(s[i], s[j]));
        }
        assert(!t.contains(x)) by {
            if t.contains(x) {
                let j = choose|j: int| 0 <= j < t.len() && t[j] == x;
                assert(s[j] == x);
            }
        }
        let p = lemma_place(t, x);
        assert forall|j: int| 0 <= j < p implies slot_before(#[trigger] s[j], x) by {
            assert(t[j] == s[j]);
        }
        p
    }
}

/// Whatever the files are, their values can be listed.
pub proof fn lemma_slots_are_listed(files: Seq<Seq<char>>)
    ensures
        lists(slots_of(files), files),
    decreases files.len(),
{
    if files.len() == 0 {
        let none = Seq::<Slot>::empty();
        assert forall|x: Slot| #[trigger] none.contains(x) <==> held(files, x) by {}
        assert(lists(none, files));
    } else {
        let (t, file) = (files.drop_last(), files.last());
        lemma_slots_are_listed(t);
        lemma_held_step(t, file);
        assert(files =~= t.push(file));
        let s = slots_of(t);
        match slot_of(file) {
            Some(x) => {
                if s.contains(x) {
                    assert(lists(s, files));
                } else {
                    let p = lemma_place(s, x);
                    lemma_insert(s, p, x);
                    assert(lists(s.insert(p, x), files));
                }
            },
            None => {
                assert(lists(s, files));
            },
        }
    }
}

/// There is but one way to list the same slots in order.
proof fn lemma_one_order(a: Seq<Slot>, b: Seq<Slot>)
    requires
        ascending(a),
        ascending(b),
        forall|x: Slot| #[trigger] a.contains(x) <==> b.contains(x),
    ensures
        a == b,
    decreases a.len(),
{
    if a.len() == 0 {
        if b.len() > 0 {
            assert(b.contains(b[0]));
            assert(a.contains(b[0]));
        }
        assert(a =~= b);
    } else {
        let (x, s) = (a.last(), a.drop_last());
        assert(a.contains(x)) by {
            assert(a[a.len() - 1] == x);
        }
        let j = choose|j: int| 0 <= j < b.len() && b[j] == x;
        let (y, t) = (b.last(), b.drop_last());
        assert(b.contains(y)) by {
            assert(b[b.len() - 1] == y);
        }
        assert(a.contains(y));
        let k = choose|k: int| 0 <= k < a.len() && a[k] == y;
        assert(x == y) by {
            if j < b.len() - 1 {
                assert(slot_before(b[j], b[b.len() - 1]));
                if k < a.len() - 1 {
                    assert(slot_before(a[k], a[a.len() - 1]));
                }
            }
        }
        assert forall|z: Slot| #[trigger] s.contains(z) <==> t.contains(z) by {
            if s.contains(z) {
                let i = choose|i: int| 0 <= i < s.len() && s[i] == z;
                assert(a[i] == z);
                assert(slot_before(a[i], a[a.len() - 1]));
                assert(a.contains(z));
                let m = choose|m: int| 0 <= m < b.len() && b[m] == z;
                assert(t[m] == z);
            }
            if t.contains(z) {
                let i = choose|i: int| 0 <= i < t.len() && t[i] == z;
                assert(b[i] == z);
                assert(slot_before(b[i], b[b.len() - 1]));
                assert(b.contains(z));
                assert(a.contains(z));
                let m = choose|m: int| 0 <= m < a.len() && a[m] == z;
                assert(s[m] == z);
            }
        }
        lemma_one_order(s, t);
        assert(a =~= s.push(x));
        assert(b =~= t.push(y));
    }
}

impl Kind {
    pub fn name(self) -> (r: &'static str)
        ensures
            r@ == kind_name(self),
    {
        match self {
            Kind::Curr => "curr",
            Kind::Energy => "energy",
            Kind::Fan => "fan",
            Kind::In => "in",
            Kind::Power => "power",
            Kind::Pwm => "pwm",
            Kind::Temp => "temp",
        }
    }

    fn rank(self) -> (r: u8)
        ensures
            r == kind_rank(self),
    {
        match self {
            Kind::Curr => 0,
            Kind::Energy => 1,
            Kind::Fan => 2,
            Kind::In => 3,
            Kind::Power => 4,
            Kind::Pwm => 5,
            Kind::Temp => 6,
        }
    }

    pub fn scale(self) -> (r: (Unit, u64))
        ensures
            r == kind_scale(self),
    {
        match self {
            Kind::Temp => (Unit::TempC, 1000),
            Kind::In => (Unit::Volts, 1000),
            Kind::Curr => (Unit::Amps, 1000),
            Kind::Power => (Unit::Watts, 1_000_000),
            Kind::Fan => (Unit::Rpm, 1),
            Kind::Energy => (Unit::Joules, 1_000_000),
            Kind::Pwm => (Unit::Pct, 255),
        }
    }
}

fn kind_of(name: &[char]) -> (r: Option<Kind>)
    ensures
        r == input_kind(name@),
{
    if spells(name, "temp") {
        Some(Kind::Temp)
    } else if spells(name, "in") {
        Some(Kind::In)
    } else if spells(name, "curr") {
        Some(Kind::Curr)
    } else if spells(name, "power") {
        Some(Kind::Power)
    } else if spells(name, "fan") {
        Some(Kind::Fan)
    } else if spells(name, "energy") {
        Some(Kind::Energy)
    } else {
        None
    }
}

/// The value that a file holds, by the file's name.
pub fn classify(file: &str) -> (r: Option<Slot>)
    ensures
        r == slot_of(file@),
{
    let t = chars(file);
    let t = t.as_slice();
    if let Some(rest) = strip_prefix(t, "pwm") {
        return match parse_u32(rest) {
            Some(n) => Some(Slot { kind: Kind::Pwm, n }),
            None => None,
        };
    }
    match strip_suffix(t, "_input") {
        None => None,
        Some(base) => {
            let name = trim_digits(base);
            let number = vstd::slice::slice_subrange(base, name.len(), base.len());
            assert(number@ =~= base@.skip(name@.len() as int));
            match (kind_of(name), parse_u32(number)) {
                (Some(kind), Some(n)) => Some(Slot { kind, n }),
                _ => None,
            }
        },
    }
}

fn comes_before(a: Slot, b: Slot) -> (r: bool)
    ensures
        r == slot_before(a, b),
{
    a.kind.rank() < b.kind.rank() || (a.kind == b.kind && a.n < b.n)
}

/// The values that the files of a chip hold, each once, in the order of their
/// kinds' names and their numbers.
pub fn chip_slots(files: &Vec<String>) -> (r: Vec<Slot>)
    ensures
        lists(r@, views(files@)),
        r@ == slots_of(views(files@)),
{
    let ghost all = views(files@);
    let mut out: Vec<Slot> = Vec::new();
    let mut i: usize = 0;
    while i < files.len()
        invariant
            i <= files.len(),
            all == views(files@),
            lists(out@, all.take(i as int)),
        decreases files.len() - i,
    {
        let ghost before = out@;
        assert(all[i as int] == files@[i as int]@);
        let slot = classify(files[i].as_str());
        proof {
            lemma_held_step(all.take(i as int), all[i as int]);
            assert(all.take(i + 1) =~= all.take(i as int).push(all[i as int]));
        }
        if let Some(x) = slot {
            let mut p: usize = 0;
            while p < out.len() && comes_before(out[p], x)
                invariant
                    p <= out.len(),
                    forall|j: int| 0 <= j < p ==> slot_before(#[trigger] out@[j], x),
                decreases out.len() - p,
            {
                p = p + 1;
            }
            if p < out.len() && out[p] == x {
                assert(before.contains(x));
            } else {
                proof {
                    if p < out.len() {
                        let y = out@[p as int];
                        assert(slot_before(x, y)) by {
                            assert(kind_rank(x.kind) == kind_rank(y.kind) ==> x.kind == y.kind);
                        }
                    }
                    lemma_insert(before, p as int, x);
                }
                out.insert(p, x);
                assert(out@ == before.insert(p as int, x));
            }
        }
        i = i + 1;
    }
    proof {
        lemma_take_all(all);
        assert(lists(out@, all));
        lemma_one_order(out@, slots_of(all));
    }
    out
}

/// A file of a chip to be read again and again: its name, and the label, the
/// unit and the scale of its value.
pub struct ReadingProbe {
    pub file: String,
    pub label: String,
    pub unit: Unit,
    pub scale: u64,
}

#[verifier::ext_equal]
pub struct ProbeModel {
    pub file: Seq<char>,
    pub label: Seq<char>,
    pub unit: Unit,
    pub scale: u64,
}

impl View for ReadingProbe {
    type V = ProbeModel;

    open spec fn view(&self) -> ProbeModel {
        ProbeModel { file: self.file@, label: self.label@, unit: self.unit, scale: self.scale }
    }
}

impl Labelled for ReadingProbe {
    open spec fn key() -> spec_fn(ProbeModel) -> Seq<char> {
        |p: ProbeModel| p.label
    }

    fn label(&self) -> (r: &str) {
        self.label.as_str()
    }
}

/// A kind's name and a number.
pub open spec fn slot_name(x: Slot) -> Seq<char> {
    kind_name(x.kind) + dec(x.n as nat)
}

/// How a value is read, given the text of the file with its label if there is
/// one. A duty cycle goes by its file's name, any other value by its label, or
/// by its kind and number where it has none.
pub open spec fn probe_of(x: Slot, label: Option<Seq<char>>) -> ProbeModel {
    let (unit, scale) = kind_scale(x.kind);
    if x.kind == Kind::Pwm {
        ProbeModel { file: slot_name(x), label: slot_name(x), unit, scale }
    } else {
        ProbeModel {
            file: slot_name(x) + "_input"@,
            label: match file_text(label) {
                Some(t) => t,
                None => slot_name(x),
            },
            unit,
            scale,
        }
    }
}

/// The text at a place of a list, if there is one and it could be read.
pub open spec fn text_at(texts: Seq<Option<String>>, i: int) -> Option<Seq<char>> {
    if 0 <= i < texts.len() {
        seen(texts[i])
    } else {
        None
    }
}

pub fn text_of(texts: &Vec<Option<String>>, i: usize) -> (r: Option<&str>)
    ensures
        seen(r) == text_at(texts@, i as int),
{
    if i < texts.len() {
        borrowed(&texts[i])
    } else {
        None
    }
}

/// What texts say that may not have been read.
pub open spec fn texts_of(texts: Seq<Option<String>>) -> Seq<Option<Seq<char>>> {
    Seq::new(texts.len(), |i: int| seen(texts[i]))
}

/// How the values are read, given the texts of the files with their labels.
pub open spec fn probes_of(slots: Seq<Slot>, labels: Seq<Option<Seq<char>>>) -> Seq<ProbeModel> {
    Seq::new(
        slots.len(),
        |i: int|
            probe_of(
                slots[i],
                if i < labels.len() {
                    labels[i]
                } else {
                    None
                },
            ),
    )
}

impl Slot {
    fn name(self) -> (r: String)
        ensures
            r@ == slot_name(self),
    {
        owned(self.kind.name()).concat(dec_text(self.n as u64).as_str())
    }

    /// The name of the file that may hold the value's label.
    pub fn label_file(self) -> (r: String)
        ensures
            r@ == slot_name(self) + "_label"@,
    {
        self.name().concat("_label")
    }

    fn probe(self, label: Option<&str>) -> (r: ReadingProbe)
        ensures
            r@ == probe_of(self, seen(label)),
    {
        let (unit, scale) = self.kind.scale();
        if self.kind == Kind::Pwm {
            ReadingProbe { file: self.name(), label: self.name(), unit, scale }
        } else {
            let label = match read_trimmed(label) {
                Some(t) => t,
                None => self.name(),
            };
            ReadingProbe { file: self.name().concat("_input"), label, unit, scale }
        }
    }
}

/// A chip to be read: its directory, its name, and its values in the order of
/// their labels.
pub struct ChipProbe {
    pub dir: String,
    pub name: String,
    pub items: Vec<ReadingProbe>,
}

#[verifier::ext_equal]
pub struct ChipProbeModel {
    pub dir: Seq<char>,
    pub name: Seq<char>,
    pub items: Seq<ProbeModel>,
}

impl View for ChipProbe {
    type V = ChipProbeModel;

    open spec fn view(&self) -> ChipProbeModel {
        ChipProbeModel { dir: self.dir@, name: self.name@, items: views(self.items@) }
    }
}

/// The chip in a directory with the given values, if its name could be read and
/// it has any.
pub open spec fn chip_of(
    dir: Seq<char>,
    name: Option<Seq<char>>,
    slots: Seq<Slot>,
    labels: Seq<Option<Seq<char>>>,
) -> Option<ChipProbeModel> {
    match file_text(name) {
        Some(name) => if slots.len() > 0 {
            Some(
                ChipProbeModel {
                    dir,
                    name,
                    items: sorted(probes_of(slots, labels), ReadingProbe::key()),
                },
            )
        } else {
            None
        },
        None => None,
    }
}

/// A chip with the given values, if its name could be read and it has any.
pub fn chip_probe(
    dir: String,
    name: Option<&str>,
    slots: &Vec<Slot>,
    labels: &Vec<Option<String>>,
) -> (r: Option<ChipProbe>)
    ensures
        seen(r) == chip_of(dir@, seen(name), slots@, texts_of(labels@)),
{
    let name = match read_trimmed(name) {
        Some(n) => n,
        None => {
            return None;
        },
    };
    let mut items: Vec<ReadingProbe> = Vec::new();
    let mut i: usize = 0;
    while i < slots.len()
        invariant
            i <= slots.len(),
            views(items@) =~= probes_of(slots@, texts_of(labels@)).take(i as int),
        decreases slots.len() - i,
    {
        put(&mut items, slots[i].probe(text_of(labels, i)));
        i = i + 1;
    }
    proof {
        lemma_take_all(probes_of(slots@, texts_of(labels@)));
    }
    if items.len() == 0 {
        return None;
    }
    Some(ChipProbe { dir, name, items: sort_by_label(items) })
}

/// The directory of a chip: the text of the file with its name, the names of its
/// files, and the texts of the files with the labels of the values that
/// `chip_slots` finds among these, in the same order. There are no files where
/// the directory could not be read.
pub struct ChipFiles {
    pub dir: String,
    pub name: Option<String>,
    pub files: Vec<String>,
    pub labels: Vec<Option<String>>,
}

#[verifier::ext_equal]
pub struct ChipFilesModel {
    pub dir: Seq<char>,
    pub name: Option<Seq<char>>,
    pub files: Seq<Seq<char>>,
    pub labels: Seq<Option<Seq<char>>>,
}

impl View for ChipFiles {
    type V = ChipFilesModel;

    open spec fn view(&self) -> ChipFilesModel {
        ChipFilesModel {
            dir: self.dir@,
            name: seen(self.name),
            files: views(self.files@),
            labels: texts_of(self.labels@),
        }
    }
}

impl Labelled for ChipFiles {
    open spec fn key() -> spec_fn(ChipFilesModel) -> Seq<char> {
        |d: ChipFilesModel| d.dir
    }

    fn label(&self) -> (r: &str) {
        self.dir.as_str()
    }
}

/// The chip that a directory holds, if it holds one.
pub open spec fn chip_fn() -> spec_fn(ChipFilesModel) -> Option<ChipProbeModel> {
    |d: ChipFilesModel| chip_of(d.dir, d.name, slots_of(d.files), d.labels)
}

/// The chips of a machine, in the order of their directories.
pub open spec fn machine_chips(dirs: Seq<ChipFilesModel>) -> Seq<ChipProbeModel> {
    kept(sorted(dirs, ChipFiles::key()), chip_fn())
}

/// The chips that are to be read, in the order of their directories.
pub fn chip_probes(dirs: Vec<ChipFiles>) -> (r: Vec<ChipProbe>)
    ensures
        views(r@) == machine_chips(views(dirs@)),
{
    let dirs = sort_by_label(dirs);
    let ghost all = views(dirs@);
    let mut out: Vec<ChipProbe> = Vec::new();
    assert(views(out@) =~= kept(all.take(0), chip_fn()));
    let mut i: usize = 0;
    while i < dirs.len()
        invariant
            i <= dirs.len(),
            all == views(dirs@),
            views(out@) == kept(all.take(i as int), chip_fn()),
        decreases dirs.len() - i,
    {
        let d = &dirs[i];
        assert(all[i as int] == d@);
        proof {
            lemma_kept_step(all, chip_fn(), i as int);
        }
        let slots = chip_slots(&d.files);
        if let Some(c) = chip_probe(owned(d.dir.as_str()), borrowed(&d.name), &slots, &d.labels) {
            put(&mut out, c);
        }
        i = i + 1;
    }
    proof {
        lemma_take_all(all);
    }
    out
}

/// No two values are read from the same file.
pub open spec fn distinct_files(items: Seq<ProbeModel>) -> bool {
    forall|i: int, j: int|
        0 <= i < j < items.len() ==> (#[trigger] items[i]).file != (#[trigger] items[j]).file
}

/// Different slots are read from different files.
proof fn lemma_own_file(x: Slot, y: Slot, a: Option<Seq<char>>, b: Option<Seq<char>>)
    requires
        probe_of(x, a).file == probe_of(y, b).file,
    ensures
        x == y,
{
    reveal_strlit("curr");
    reveal_strlit("energy");
    reveal_strlit("fan");
    reveal_strlit("in");
    reveal_strlit("power");
    reveal_strlit("pwm");
    reveal_strlit("temp");
    let (s, t) = (probe_of(x, a).file, probe_of(y, b).file);
    let (n, m) = (kind_name(x.kind), kind_name(y.kind));
    assert(s[0] == n[0] && s[1] == n[1]);
    assert(t[0] == m[0] && t[1] == m[1]);
    assert(x.kind == y.kind);
    let (p, q) = (dec(x.n as nat), dec(y.n as nat));
    assert(slot_name(x).len() == slot_name(y).len()) by {
        if x.kind != Kind::Pwm {
            assert(s.len() == slot_name(x).len() + "_input"@.len());
            assert(t.len() == slot_name(y).len() + "_input"@.len());
        }
    }
    assert(p =~= slot_name(x).skip(n.len() as int));
    assert(q =~= slot_name(y).skip(n.len() as int));
    assert(slot_name(x) =~= s.take(slot_name(x).len() as int));
    assert(slot_name(y) =~= t.take(slot_name(y).len() as int));
    lemma_written_reads_back(x.n as u64);
    lemma_written_reads_back(y.n as u64);
}

/// Putting values in another order does not make two of them share a file.
proof fn lemma_sorted_files(items: Seq<ProbeModel>)
    requires
        distinct_files(items),
    ensures
        distinct_files(sorted(items, ReadingProbe::key())),
{
    broadcast use vstd::seq_lib::group_to_multiset_ensures;

    let p = sorted(items, ReadingProbe::key());
    lemma_sorted(items, ReadingProbe::key());
    assert(items.no_duplicates());
    items.lemma_multiset_has_no_duplicates();
    p.lemma_multiset_has_no_duplicates_conv();
    assert forall|i: int, j: int| 0 <= i < j < p.len() implies (#[trigger] p[i]).file != (
    #[trigger] p[j]).file by {
        assert(p.contains(p[i]) && p.contains(p[j]));
        assert(items.to_multiset().count(p[i]) > 0 && items.to_multiset().count(p[j]) > 0);
        let a = choose|a: int| 0 <= a < items.len() && items[a] == p[i];
        let b = choose|b: int| 0 <= b < items.len() && items[b] == p[j];
        assert(a != b);
        assert(items[a].file != items[b].file) by {
            if a < b {
                assert(items[a].file != items[b].file);
            } else {
                assert(items[b].file != items[a].file);
            }
        }
    }
}

/// The directory by which chips are put in order.
pub open spec fn chip_dir() -> spec_fn(ChipProbeModel) -> Seq<char> {
    |c: ChipProbeModel| c.dir
}

/// The chips of a machine stand in the order of their directories. Each has
/// values, in the order of their labels, and each value a file of its own.
pub proof fn lemma_machine_chips(dirs: Seq<ChipFilesModel>)
    ensures
        in_order(machine_chips(dirs), chip_dir()),
        forall|i: int|
            0 <= i < machine_chips(dirs).len() ==> {
                let c = #[trigger] machine_chips(dirs)[i];
                &&& c.items.len() > 0
                &&& in_order(c.items, ReadingProbe::key())
                &&& distinct_files(c.items)
            },
{
    lemma_sorted(dirs, ChipFiles::key());
    lemma_chips_in_order(sorted(dirs, ChipFiles::key()));
}

proof fn lemma_chip(d: ChipFilesModel)
    requires
        lists(slots_of(d.files), d.files),
    ensures
        match chip_fn()(d) {
            Some(c) => {
                &&& c.dir == d.dir
                &&& c.items.len() > 0
                &&& in_order(c.items, ReadingProbe::key())
                &&& distinct_files(c.items)
            },
            None => true,
        },
{
    let slots = slots_of(d.files);
    let items = probes_of(slots, d.labels);
    assert forall|i: int, j: int| 0 <= i < j < items.len() implies (#[trigger] items[i]).file != (
    #[trigger] items[j]).file by {
        assert(slot_before(slots[i], slots[j]));
        if items[i].file == items[j].file {
            lemma_own_file(
                slots[i],
                slots[j],
                if i < d.labels.len() {
                    d.labels[i]
                } else {
                    None
                },
                if j < d.labels.len() {
                    d.labels[j]
                } else {
                    None
                },
            );
        }
    }
    lemma_sorted(items, ReadingProbe::key());
    lemma_sorted_files(items);
}

proof fn lemma_chips_in_order(dirs: Seq<ChipFilesModel>)
    requires
        in_order(dirs, ChipFiles::key()),
    ensures
        in_order(kept(dirs, chip_fn()), chip_dir()),
        forall|i: int|
            0 <= i < kept(dirs, chip_fn()).len() ==> {
                let c = #[trigger] kept(dirs, chip_fn())[i];
                &&& c.items.len() > 0
                &&& in_order(c.items, ReadingProbe::key())
                &&& distinct_files(c.items)
                &&& exists|j: int| 0 <= j < dirs.len() && (#[trigger] dirs[j]).dir == c.dir
            },
    decreases dirs.len(),
{
    if dirs.len() > 0 {
        let t = dirs.drop_last();
        let d = dirs.last();
        lemma_chips_in_order(t);
        lemma_slots_are_listed(d.files);
        lemma_chip(d);
        let (k, m) = (kept(t, chip_fn()), kept(dirs, chip_fn()));
        assert(dirs[dirs.len() - 1] == d);
        assert forall|i: int| 0 <= i < k.len() implies exists|j: int|
            0 <= j < dirs.len() && (#[trigger] dirs[j]).dir == (#[trigger] k[i]).dir by {
            let j = choose|j: int| 0 <= j < t.len() && (#[trigger] t[j]).dir == k[i].dir;
            assert(dirs[j] == t[j]);
        }
        assert forall|i: int, j: int|
            #![trigger m[i], m[j]]
            0 <= i <= j < m.len() implies !precedes(chip_dir()(m[j]), chip_dir()(m[i])) by {
            if j < k.len() {
                assert(m[i] == k[i] && m[j] == k[j]);
            } else if i < k.len() {
                assert(m[i] == k[i]);
                let a = choose|a: int| 0 <= a < t.len() && (#[trigger] t[a]).dir == k[i].dir;
                assert(dirs[a] == t[a]);
                assert(!precedes(
                    ChipFiles::key()(dirs[dirs.len() - 1]),
                    ChipFiles::key()(dirs[a]),
                ));
            } else {
                lemma_irreflexive(m[i].dir);
            }
        }
        assert forall|i: int| 0 <= i < m.len() implies {
            let c = #[trigger] m[i];
            &&& c.items.len() > 0
            &&& in_order(c.items, ReadingProbe::key())
            &&& distinct_files(c.items)
            &&& exists|j: int| 0 <= j < dirs.len() && (#[trigger] dirs[j]).dir == c.dir
        } by {
            if i < k.len() {
                assert(m[i] == k[i]);
            }
        }
    }
}

/// What a file gives for a value.
pub open spec fn probed(p: ProbeModel, text: Option<Seq<char>>) -> Option<
    ReadingModel<ValueModel>,
> {
    match file_value(text, p.scale) {
        Some(value) => Some(ReadingModel { label: p.label, value, unit: p.unit }),
        None => None,
    }
}

/// What the files give for the first `n` values.
pub open spec fn probed_all(
    items: Seq<ProbeModel>,
    texts: Seq<Option<String>>,
    n: int,
) -> Seq<ReadingModel<ValueModel>>
    decreases n,
{
    if n <= 0 {
        Seq::empty()
    } else {
        probed_all(items, texts, n - 1) + listed(probed(items[n - 1], text_at(texts, n - 1)))
    }
}

/// A chip, unless none of its files gives a value.
pub open spec fn probed_chip(p: ChipProbe, texts: Seq<Option<String>>) -> Option<
    ChipModel<ValueModel>,
> {
    let readings = probed_all(views(p.items@), texts, p.items@.len() as int);
    if readings.len() == 0 {
        None
    } else {
        Some(ChipModel { name: p.name@, readings })
    }
}

/// The texts of the files of the chip at a place of a list.
pub open spec fn texts_at(values: Seq<Vec<Option<String>>>, i: int) -> Seq<Option<String>> {
    if 0 <= i < values.len() {
        values[i]@
    } else {
        Seq::empty()
    }
}

/// The first `n` chips, of those whose files give values.
pub open spec fn probed_chips(
    probes: Seq<ChipProbe>,
    values: Seq<Vec<Option<String>>>,
    n: int,
) -> Seq<ChipModel<ValueModel>>
    decreases n,
{
    if n <= 0 {
        Seq::empty()
    } else {
        probed_chips(probes, values, n - 1) + listed(
            probed_chip(probes[n - 1], texts_at(values, n - 1)),
        )
    }
}

fn read_chip(p: &ChipProbe, texts: &Vec<Option<String>>) -> (r: Option<Chip<Value>>)
    ensures
        seen(r) == probed_chip(*p, texts@),
{
    let mut readings: Vec<Reading<Value>> = Vec::new();
    let ghost items = views(p.items@);
    let mut i: usize = 0;
    while i < p.items.len()
        invariant
            i <= p.items.len(),
            items == views(p.items@),
            views(readings@) == probed_all(items, texts@, i as int),
        decreases p.items.len() - i,
    {
        let item = &p.items[i];
        assert(item@ == items[i as int]);
        let ghost so_far = views(readings@);
        if let Some(value) = read_value(text_of(texts, i), item.scale) {
            put(
                &mut readings,
                Reading { label: owned(item.label.as_str()), value, unit: item.unit },
            );
        }
        assert(views(readings@) =~= so_far + listed(
            probed(items[i as int], text_at(texts@, i as int)),
        ));
        i = i + 1;
    }
    if readings.len() == 0 {
        None
    } else {
        Some(Chip { name: owned(p.name.as_str()), readings })
    }
}

/// The chips as their files read now: `values` holds the texts of the files,
/// in the order of the chips and of each chip's items.
pub fn read_chips(probes: &Vec<ChipProbe>, values: &Vec<Vec<Option<String>>>) -> (r: Vec<
    Chip<Value>,
>)
    ensures
        views(r@) == probed_chips(probes@, values@, probes@.len() as int),
{
    let mut out: Vec<Chip<Value>> = Vec::new();
    let none: Vec<Option<String>> = Vec::new();
    let mut i: usize = 0;
    while i < probes.len()
        invariant
            i <= probes.len(),
            none@ == Seq::<Option<String>>::empty(),
            views(out@) == probed_chips(probes@, values@, i as int),
        decreases probes.len() - i,
    {
        let texts = if i < values.len() {
            &values[i]
        } else {
            &none
        };
        let ghost so_far = views(out@);
        if let Some(c) = read_chip(&probes[i], texts) {
            put(&mut out, c);
        }
        assert(views(out@) =~= so_far + listed(
            probed_chip(probes@[i as int], texts_at(values@, i as int)),
        ));
        i = i + 1;
    }
    out
}

} // verus!
