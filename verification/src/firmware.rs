//! What the power management firmware reports: the table that the kernel
//! module of this project exposes, and the text files of another module.
use vstd::prelude::*;

use crate::double::Double;
use crate::files::{borrowed, file_value, read_value};
use crate::lists::{
    joined, kept, lemma_joined_step, lemma_kept_step, lemma_take_all, put, seen, views,
};
use crate::memory::lines_of;
use crate::model::{Chip, ChipModel, Reading, ReadingModel, Unit, Value, ValueModel};
use crate::numbers::{dec2, dec2_text, decimal_text, digit_char, take_decimal, written};
use crate::text::{
    before_any_letters, chars, cut, lines, lower, lowered, owned, pieces, spells, split,
    split_lines, split_once, string, trim, trim_any_letters, trimmed,
};
use crate::traffic::as_chip;

verus! {

// ---------- the table ----------

/// The four bytes at an offset, least significant first.
pub open spec fn word_at_offset(raw: Seq<u8>, off: int) -> u32 {
    (raw[off] + 0x100 * raw[off + 1] + 0x1_0000 * raw[off + 2] + 0x100_0000 * raw[off + 3]) as u32
}

/// Whether the bits of an IEEE 754 binary32 number are those of a finite one.
pub open spec fn single_finite(bits: u32) -> bool {
    bits % 0x8000_0000 < 0x7F80_0000
}

/// Whether they are those of a zero.
pub open spec fn single_zero(bits: u32) -> bool {
    bits % 0x8000_0000 == 0
}

/// Whether they are those of a finite number above zero.
pub open spec fn single_positive(bits: u32) -> bool {
    single_finite(bits) && !single_zero(bits) && bits < 0x8000_0000
}

/// A field of the table.
#[derive(Clone, Copy)]
pub struct TableField {
    pub label: &'static str,
    pub off: usize,
    pub unit: Unit,
    pub divisor: u64,
}

#[verifier::ext_equal]
pub struct FieldModel {
    pub label: Seq<char>,
    pub off: usize,
    pub unit: Unit,
    pub divisor: u64,
}

impl View for TableField {
    type V = FieldModel;

    open spec fn view(&self) -> FieldModel {
        FieldModel { label: self.label@, off: self.off, unit: self.unit, divisor: self.divisor }
    }
}

/// The fields of the table that are known for certain.
pub open spec fn field_list() -> Seq<FieldModel> {
    seq![
        FieldModel { label: "stapm_limit"@, off: 0x00, unit: Unit::Watts, divisor: 1 },
        FieldModel { label: "stapm"@, off: 0x04, unit: Unit::Watts, divisor: 1 },
        FieldModel { label: "fast_limit"@, off: 0x08, unit: Unit::Watts, divisor: 1 },
        FieldModel { label: "fast"@, off: 0x0C, unit: Unit::Watts, divisor: 1 },
        FieldModel { label: "slow_limit"@, off: 0x10, unit: Unit::Watts, divisor: 1 },
        FieldModel { label: "slow"@, off: 0x14, unit: Unit::Watts, divisor: 1 },
        FieldModel { label: "apu_slow_limit"@, off: 0x18, unit: Unit::Watts, divisor: 1 },
        FieldModel { label: "tctl_limit"@, off: 0x58, unit: Unit::TempC, divisor: 1 },
        FieldModel { label: "tctl"@, off: 0x5C, unit: Unit::TempC, divisor: 1 },
        FieldModel { label: "psi0_limit"@, off: 0x40, unit: Unit::Amps, divisor: 1 },
        FieldModel { label: "psi0soc_limit"@, off: 0x48, unit: Unit::Amps, divisor: 1 },
        FieldModel { label: "gfx_clk"@, off: 0x5B4, unit: Unit::Mhz, divisor: 1 },
        FieldModel { label: "gfx_volt"@, off: 0x5A8, unit: Unit::Volts, divisor: 1000 },
    ]
}

/// The length of the shortest table that holds those fields.
pub const FIELDS_END: usize = 0x5B8;

/// The length of the shortest table that holds those of the cores too.
pub const CORES_END: usize = 0xCAC;

/// Every field lies within the shortest table.
pub proof fn lemma_fields_within(i: int)
    requires
        0 <= i < field_list().len(),
    ensures
        field_list()[i].off + 4 <= FIELDS_END,
{
    let l = field_list();
    assert(l.len() == 13);
    assert(l[0].off <= 0x5B4 && l[1].off <= 0x5B4 && l[2].off <= 0x5B4 && l[3].off <= 0x5B4
        && l[4].off <= 0x5B4 && l[5].off <= 0x5B4 && l[6].off <= 0x5B4 && l[7].off <= 0x5B4
        && l[8].off <= 0x5B4 && l[9].off <= 0x5B4 && l[10].off <= 0x5B4 && l[11].off <= 0x5B4
        && l[12].off <= 0x5B4);
}

fn field(label: &'static str, off: usize, unit: Unit, divisor: u64) -> (r: TableField)
    ensures
        r@ == (FieldModel { label: label@, off, unit, divisor }),
{
    TableField { label, off, unit, divisor }
}

fn table_fields() -> (r: Vec<TableField>)
    ensures
        views(r@) == field_list(),
{
    let mut v: Vec<TableField> = Vec::new();
    put(&mut v, field("stapm_limit", 0x00, Unit::Watts, 1));
    put(&mut v, field("stapm", 0x04, Unit::Watts, 1));
    put(&mut v, field("fast_limit", 0x08, Unit::Watts, 1));
    put(&mut v, field("fast", 0x0C, Unit::Watts, 1));
    put(&mut v, field("slow_limit", 0x10, Unit::Watts, 1));
    put(&mut v, field("slow", 0x14, Unit::Watts, 1));
    put(&mut v, field("apu_slow_limit", 0x18, Unit::Watts, 1));
    put(&mut v, field("tctl_limit", 0x58, Unit::TempC, 1));
    put(&mut v, field("tctl", 0x5C, Unit::TempC, 1));
    put(&mut v, field("psi0_limit", 0x40, Unit::Amps, 1));
    put(&mut v, field("psi0soc_limit", 0x48, Unit::Amps, 1));
    put(&mut v, field("gfx_clk", 0x5B4, Unit::Mhz, 1));
    put(&mut v, field("gfx_volt", 0x5A8, Unit::Volts, 1000));
    assert(views(v@) =~= field_list());
    v
}

/// What a field gives: nothing where it is zero or no finite number.
pub open spec fn field_reading(raw: Seq<u8>, f: FieldModel) -> Option<ReadingModel<ValueModel>> {
    let bits = word_at_offset(raw, f.off as int);
    if single_finite(bits) && !single_zero(bits) {
        Some(
            ReadingModel {
                label: f.label,
                value: ValueModel::Single { bits, divisor: f.divisor },
                unit: f.unit,
            },
        )
    } else {
        None
    }
}

pub open spec fn field_fn(raw: Seq<u8>) -> spec_fn(FieldModel) -> Option<ReadingModel<ValueModel>> {
    |f: FieldModel| field_reading(raw, f)
}

/// A core's number, and its place in the arrays of the table.
pub type CoreSlot = (u32, usize);

/// The cores in the table: the places 5 and 8 belong to cores that are off.
pub open spec fn core_slots() -> Seq<CoreSlot> {
    seq![
        (0u32, 0usize),
        (1u32, 1usize),
        (2u32, 2usize),
        (3u32, 3usize),
        (8u32, 4usize),
        (9u32, 6usize),
        (10u32, 7usize),
        (11u32, 9usize),
        (12u32, 10usize),
        (13u32, 11usize),
    ]
}

/// One value of a core, if it is above zero.
pub open spec fn core_value(
    raw: Seq<u8>,
    c: CoreSlot,
    base: int,
    tail: Seq<char>,
    unit: Unit,
    divisor: u64,
) -> Seq<ReadingModel<ValueModel>> {
    let bits = word_at_offset(raw, base + 4 * c.1);
    if single_positive(bits) {
        seq![
            ReadingModel {
                label: "C"@ + dec2(c.0 as nat) + tail,
                value: ValueModel::Single { bits, divisor },
                unit,
            },
        ]
    } else {
        Seq::empty()
    }
}

/// A core's clock, power and voltage.
pub open spec fn core_values(raw: Seq<u8>, c: CoreSlot) -> Seq<ReadingModel<ValueModel>> {
    core_value(raw, c, 0x0C1C, "_clk"@, Unit::Mhz, 4) + core_value(
        raw,
        c,
        0x09DC,
        "_w"@,
        Unit::Watts,
        1,
    ) + core_value(raw, c, 0x0C7C, "_vid"@, Unit::Volts, 1)
}

pub open spec fn core_fn(raw: Seq<u8>) -> spec_fn(CoreSlot) -> Seq<ReadingModel<ValueModel>> {
    |c: CoreSlot| core_values(raw, c)
}

/// All that a table gives: nothing where it is too short.
pub open spec fn table_readings(raw: Seq<u8>) -> Seq<ReadingModel<ValueModel>> {
    if raw.len() < FIELDS_END {
        Seq::empty()
    } else if raw.len() < CORES_END {
        kept(field_list(), field_fn(raw))
    } else {
        kept(field_list(), field_fn(raw)) + joined(core_slots(), core_fn(raw))
    }
}

// ---------- labels ----------

/// Whether no two readings share a label.
pub open spec fn distinct_labels(s: Seq<ReadingModel<ValueModel>>) -> bool {
    forall|i: int, j: int| 0 <= i < j < s.len() ==> (#[trigger] s[i]).label != (#[trigger] s[j]).label
}

/// Whether a label is that of a value of the core with the given number.
spec fn of_core(label: Seq<char>, number: u32) -> bool {
    label.len() >= 3 && label.take(3) == "C"@ + dec2(number as nat)
}

spec fn of_cores(label: Seq<char>, cores: Seq<CoreSlot>) -> bool {
    exists|i: int| 0 <= i < cores.len() && of_core(label, (#[trigger] cores[i]).0)
}

/// The length of a field's label and the character it starts with.
spec fn mark(i: int) -> (nat, char) {
    if i == 0 {
        (11, 's')
    } else if i == 1 {
        (5, 's')
    } else if i == 2 {
        (10, 'f')
    } else if i == 3 {
        (4, 'f')
    } else if i == 4 {
        (10, 's')
    } else if i == 5 {
        (4, 's')
    } else if i == 6 {
        (14, 'a')
    } else if i == 7 {
        (10, 't')
    } else if i == 8 {
        (4, 't')
    } else if i == 9 {
        (10, 'p')
    } else if i == 10 {
        (13, 'p')
    } else if i == 11 {
        (7, 'g')
    } else {
        (8, 'g')
    }
}

proof fn lemma_marks(i: int)
    requires
        0 <= i < field_list().len(),
    ensures
        field_list()[i].label.len() == mark(i).0,
        field_list()[i].label[0] == mark(i).1,
{
    reveal_strlit("stapm_limit");
    reveal_strlit("stapm");
    reveal_strlit("fast_limit");
    reveal_strlit("fast");
    reveal_strlit("slow_limit");
    reveal_strlit("slow");
    reveal_strlit("apu_slow_limit");
    reveal_strlit("tctl_limit");
    reveal_strlit("tctl");
    reveal_strlit("psi0_limit");
    reveal_strlit("psi0soc_limit");
    reveal_strlit("gfx_clk");
    reveal_strlit("gfx_volt");
}

proof fn lemma_field_labels(raw: Seq<u8>, n: int)
    requires
        0 <= n <= field_list().len(),
    ensures
        distinct_labels(kept(field_list().take(n), field_fn(raw))),
        forall|i: int|
            0 <= i < kept(field_list().take(n), field_fn(raw)).len() ==> exists|j: int|
                0 <= j < n && (#[trigger] field_list()[j]).label == (#[trigger] kept(
                    field_list().take(n),
                    field_fn(raw),
                )[i]).label,
    decreases n,
{
    if n > 0 {
        lemma_field_labels(raw, n - 1);
        let all = field_list();
        lemma_kept_step(all, field_fn(raw), n - 1);
        let (s, t) = (kept(all.take(n - 1), field_fn(raw)), kept(all.take(n), field_fn(raw)));
        lemma_marks(n - 1);
        assert forall|i: int| 0 <= i < s.len() implies (#[trigger] s[i]).label != all[n - 1].label by {
            let j = choose|j: int| 0 <= j < n - 1 && (#[trigger] all[j]).label == s[i].label;
            lemma_marks(j);
        }
        assert forall|i: int| 0 <= i < t.len() implies exists|j: int|
            0 <= j < n && (#[trigger] all[j]).label == (#[trigger] t[i]).label by {
            if i < s.len() {
                let j = choose|j: int| 0 <= j < n - 1 && (#[trigger] all[j]).label == s[i].label;
                assert(all[j].label == t[i].label);
            } else {
                assert(all[n - 1].label == t[i].label);
            }
        }
    }
}

/// Two digits write every number below a hundred in its own way.
proof fn lemma_two_digits(n: nat)
    requires
        n < 100,
    ensures
        dec2(n) == seq![digit_char(n / 10), digit_char(n % 10)],
{
    reveal_with_fuel(written, 2);
    assert(dec2(n) =~= seq![digit_char(n / 10), digit_char(n % 10)]);
}

/// The values of a core have labels of that core, and no two the same.
proof fn lemma_core_value_labels(raw: Seq<u8>, c: CoreSlot)
    requires
        c.0 < 100,
    ensures
        distinct_labels(core_values(raw, c)),
        forall|i: int|
            0 <= i < core_values(raw, c).len() ==> of_core(
                (#[trigger] core_values(raw, c)[i]).label,
                c.0,
            ),
{
    reveal_strlit("C");
    reveal_strlit("_clk");
    reveal_strlit("_w");
    reveal_strlit("_vid");
    lemma_two_digits(c.0 as nat);
    let head = "C"@ + dec2(c.0 as nat);
    assert(head.len() == 3);
    let (x, y, z) = (head + "_clk"@, head + "_w"@, head + "_vid"@);
    assert(x.take(3) =~= head && y.take(3) =~= head && z.take(3) =~= head);
    assert(x[4] == 'c' && y[4] == 'w' && z[4] == 'v');
    let a = core_value(raw, c, 0x0C1C, "_clk"@, Unit::Mhz, 4);
    let b = core_value(raw, c, 0x09DC, "_w"@, Unit::Watts, 1);
    let d = core_value(raw, c, 0x0C7C, "_vid"@, Unit::Volts, 1);
    assert(forall|i: int| 0 <= i < a.len() ==> i == 0 && (#[trigger] a[i]).label == x);
    assert(forall|i: int| 0 <= i < b.len() ==> i == 0 && (#[trigger] b[i]).label == y);
    assert(forall|i: int| 0 <= i < d.len() ==> i == 0 && (#[trigger] d[i]).label == z);
}

/// A label belongs to one core at most.
proof fn lemma_one_core(label: Seq<char>, a: u32, b: u32)
    requires
        a < 100,
        b < 100,
        of_core(label, a),
        of_core(label, b),
    ensures
        a == b,
{
    reveal_strlit("C");
    lemma_two_digits(a as nat);
    lemma_two_digits(b as nat);
    let t = label.take(3);
    assert(t[1] == digit_char(a as nat / 10) && t[1] == digit_char(b as nat / 10));
    assert(t[2] == digit_char(a as nat % 10) && t[2] == digit_char(b as nat % 10));
}

proof fn lemma_core_labels(raw: Seq<u8>, n: int)
    requires
        0 <= n <= core_slots().len(),
    ensures
        distinct_labels(joined(core_slots().take(n), core_fn(raw))),
        forall|i: int|
            0 <= i < joined(core_slots().take(n), core_fn(raw)).len() ==> of_cores(
                (#[trigger] joined(core_slots().take(n), core_fn(raw))[i]).label,
                core_slots().take(n),
            ),
    decreases n,
{
    if n > 0 {
        lemma_core_labels(raw, n - 1);
        let all = core_slots();
        lemma_joined_step(all, core_fn(raw), n - 1);
        let c = all[n - 1];
        lemma_core_value_labels(raw, c);
        let (s, t) = (all.take(n - 1), all.take(n));
        let (u, v, w) = (joined(s, core_fn(raw)), core_values(raw, c), joined(t, core_fn(raw)));
        assert forall|i: int| 0 <= i < w.len() implies of_cores((#[trigger] w[i]).label, t) by {
            if i < u.len() {
                assert(w[i] == u[i]);
                let j = choose|j: int| 0 <= j < s.len() && of_core(u[i].label, (#[trigger] s[j]).0);
                assert(t[j] == s[j]);
            } else {
                assert(w[i] == v[i - u.len()]);
                assert(t[n - 1] == c);
            }
        }
        assert forall|i: int, j: int| 0 <= i < j < w.len() implies (#[trigger] w[i]).label != (
        #[trigger] w[j]).label by {
            if j < u.len() {
                assert(w[i] == u[i] && w[j] == u[j]);
            } else if i >= u.len() {
                assert(w[i] == v[i - u.len()] && w[j] == v[j - u.len()]);
            } else {
                assert(w[i] == u[i] && w[j] == v[j - u.len()]);
                let k = choose|k: int| 0 <= k < s.len() && of_core(u[i].label, (#[trigger] s[k]).0);
                assert(s[k] == all[k]);
                if w[i].label == w[j].label {
                    lemma_one_core(w[i].label, all[k].0, c.0);
                }
            }
        }
    }
}

/// No two readings of a table share a label.
pub proof fn lemma_table_labels_are_distinct(raw: Seq<u8>)
    ensures
        distinct_labels(table_readings(raw)),
{
    let (fields, cores) = (field_list(), core_slots());
    lemma_take_all(fields);
    lemma_take_all(cores);
    lemma_field_labels(raw, fields.len() as int);
    lemma_core_labels(raw, cores.len() as int);
    let (a, b) = (kept(fields, field_fn(raw)), joined(cores, core_fn(raw)));
    reveal_strlit("C");
    assert forall|i: int, j: int| 0 <= i < a.len() && 0 <= j < b.len() implies (#[trigger] a[i]).label
        != (#[trigger] b[j]).label by {
        let k = choose|k: int| 0 <= k < fields.len() && (#[trigger] fields[k]).label == a[i].label;
        lemma_marks(k);
        let l = choose|l: int| 0 <= l < cores.len() && of_core(b[j].label, (#[trigger] cores[l]).0);
        assert(b[j].label.take(3)[0] == 'C');
    }
    assert(distinct_labels(a + b)) by {
        let c = a + b;
        assert forall|i: int, j: int| 0 <= i < j < c.len() implies (#[trigger] c[i]).label != (
        #[trigger] c[j]).label by {
            if j < a.len() {
                assert(c[i] == a[i] && c[j] == a[j]);
            } else if i >= a.len() {
                assert(c[i] == b[i - a.len()] && c[j] == b[j - a.len()]);
            } else {
                assert(c[i] == a[i] && c[j] == b[j - a.len()]);
            }
        }
    }
}

// ---------- reading the table ----------

pub fn word(raw: &[u8], off: usize) -> (r: u32)
    requires
        off + 4 <= raw@.len(),
    ensures
        r == word_at_offset(raw@, off as int),
{
    let b0: u32 = raw[off] as u32;
    let b1: u32 = raw[off + 1] as u32;
    let b2: u32 = raw[off + 2] as u32;
    let b3: u32 = raw[off + 3] as u32;
    b0 + 0x100 * b1 + 0x1_0000 * b2 + 0x100_0000 * b3
}

fn add_core_value(
    out: &mut Vec<Reading<Value>>,
    raw: &[u8],
    c: CoreSlot,
    base: usize,
    tail: &str,
    unit: Unit,
    divisor: u64,
)
    requires
        c.1 <= 11,
        base <= 0x1000,
        base + 4 * c.1 + 4 <= raw@.len(),
    ensures
        views(final(out)@) == views(old(out)@) + core_value(
            raw@,
            c,
            base as int,
            tail@,
            unit,
            divisor,
        ),
{
    let ghost start = views(out@);
    let bits = word(raw, base + 4 * c.1);
    let low: u32 = bits % 0x8000_0000;
    if low < 0x7F80_0000 && low != 0 && bits < 0x8000_0000 {
        let label = owned("C").concat(dec2_text(c.0 as u64).as_str()).concat(tail);
        put(out, Reading { label, value: Value::Single { bits, divisor }, unit });
    }
    assert(views(out@) =~= start + core_value(raw@, c, base as int, tail@, unit, divisor));
}

/// The readings in the firmware's table.
pub fn read_smu_pmtable(table: &[u8]) -> (r: Vec<Reading<Value>>)
    ensures
        views(r@) == table_readings(table@),
{
    let mut out: Vec<Reading<Value>> = Vec::new();
    if table.len() < FIELDS_END {
        assert(views(out@) =~= Seq::<ReadingModel<ValueModel>>::empty());
        return out;
    }
    let fields = table_fields();
    let ghost all = field_list();
    let mut i: usize = 0;
    while i < fields.len()
        invariant
            i <= fields.len(),
            all == field_list(),
            views(fields@) == all,
            table@.len() >= FIELDS_END,
            views(out@) == kept(all.take(i as int), field_fn(table@)),
        decreases fields.len() - i,
    {
        let f = fields[i];
        assert(f@ == all[i as int]);
        proof {
            lemma_kept_step(all, field_fn(table@), i as int);
            lemma_fields_within(i as int);
        }
        let bits = word(table, f.off);
        let low: u32 = bits % 0x8000_0000;
        if low < 0x7F80_0000 && low != 0 {
            put(
                &mut out,
                Reading {
                    label: owned(f.label),
                    value: Value::Single { bits, divisor: f.divisor },
                    unit: f.unit,
                },
            );
        }
        i = i + 1;
    }
    proof {
        lemma_take_all(all);
    }
    if table.len() >= CORES_END {
        let slots: [CoreSlot; 10] = [
            (0, 0),
            (1, 1),
            (2, 2),
            (3, 3),
            (8, 4),
            (9, 6),
            (10, 7),
            (11, 9),
            (12, 10),
            (13, 11),
        ];
        let ghost cs = core_slots();
        assert(slots@ =~= cs);
        let ghost base = views(out@);
        let mut i: usize = 0;
        assert(base + joined(cs.take(0), core_fn(table@)) =~= base);
        while i < 10
            invariant
                i <= 10,
                cs == core_slots(),
                slots@ == cs,
                table@.len() >= CORES_END,
                views(out@) == base + joined(cs.take(i as int), core_fn(table@)),
            decreases 10 - i,
        {
            let c = slots[i];
            assert(c == cs[i as int]);
            assert(c.1 <= 11);
            proof {
                lemma_joined_step(cs, core_fn(table@), i as int);
            }
            add_core_value(&mut out, table, c, 0x0C1C, "_clk", Unit::Mhz, 4);
            add_core_value(&mut out, table, c, 0x09DC, "_w", Unit::Watts, 1);
            add_core_value(&mut out, table, c, 0x0C7C, "_vid", Unit::Volts, 1);
            assert(views(out@) =~= base + (joined(cs.take(i as int), core_fn(table@))
                + core_values(table@, c)));
            i = i + 1;
        }
        proof {
            lemma_take_all(cs);
        }
    }
    out
}

// ---------- text files ----------

/// The files of the module; the one on the cores has a line for each.
pub struct SmuFiles {
    pub mclk: Option<String>,
    pub fclk: Option<String>,
    pub power: Option<String>,
    pub currents: Option<String>,
    pub cores: Option<String>,
}

pub open spec fn clock_reading(label: Seq<char>, text: Option<Seq<char>>) -> Seq<
    ReadingModel<ValueModel>,
> {
    match file_value(text, 1) {
        Some(value) => seq![ReadingModel { label, value, unit: Unit::Mhz }],
        None => Seq::empty(),
    }
}

/// A line with a label, a colon and a number in thousandths, which a unit may
/// follow.
pub open spec fn scalar_line(line: Seq<char>, unit: Unit) -> Option<ReadingModel<ValueModel>> {
    match cut(line, ':') {
        Some((k, v)) => match decimal_text(trimmed(before_any_letters(trimmed(v)))) {
            Some(text) => Some(
                ReadingModel {
                    label: trimmed(k),
                    value: ValueModel::Decimal { text, divisor: 1000 },
                    unit,
                },
            ),
            None => None,
        },
        None => None,
    }
}

pub open spec fn scalar_fn(unit: Unit) -> spec_fn(Seq<char>) -> Option<ReadingModel<ValueModel>> {
    |line: Seq<char>| scalar_line(line, unit)
}

pub open spec fn scalar_readings(f: SmuFiles) -> Seq<ReadingModel<ValueModel>> {
    clock_reading("mclk"@, seen(f.mclk)) + clock_reading("fclk"@, seen(f.fclk)) + kept(
        lines_of(seen(f.power)),
        scalar_fn(Unit::Watts),
    ) + kept(lines_of(seen(f.currents)), scalar_fn(Unit::Amps))
}

/// What a part of a core's line says: a key in either case of letters, a colon
/// and a number.
pub open spec fn core_part(part: Seq<char>) -> Option<(Seq<char>, Seq<char>)> {
    match cut(part, ':') {
        Some((k, v)) => match decimal_text(trimmed(v)) {
            Some(text) => Some((lower(trimmed(k)), text)),
            None => None,
        },
        None => None,
    }
}

/// What a key stands for: the end of a label, and a unit.
pub open spec fn core_key(key: Seq<char>) -> Option<(Seq<char>, Unit)> {
    if key == "tmp"@ || key == "temp"@ {
        Some(("Temp"@, Unit::TempC))
    } else if key == "vid"@ || key == "voltage"@ {
        Some(("VID"@, Unit::Volts))
    } else if key == "clock"@ || key == "clk"@ || key == "fid"@ {
        Some(("Clock"@, Unit::Mhz))
    } else {
        None
    }
}

/// The number of the core that the parts name last.
pub open spec fn core_number(parts: Seq<Seq<char>>) -> Option<Seq<char>>
    decreases parts.len(),
{
    if parts.len() == 0 {
        None
    } else {
        match core_part(parts.last()) {
            Some((key, text)) => if key == "core"@ {
                Some(text)
            } else {
                core_number(parts.drop_last())
            },
            None => core_number(parts.drop_last()),
        }
    }
}

/// What a number with a fraction is as an `u32`: the fraction is cut off.
pub open spec fn as_u32(d: Double) -> nat {
    if d.cut_off() > u32::MAX {
        u32::MAX as nat
    } else {
        d.cut_off() as nat
    }
}

pub open spec fn core_reading(number: Double, part: Seq<char>) -> Option<ReadingModel<ValueModel>> {
    match core_part(part) {
        Some((key, text)) => match core_key(key) {
            Some((tail, unit)) => Some(
                ReadingModel {
                    label: "C"@ + dec2(as_u32(number)) + "_"@ + tail,
                    value: ValueModel::Decimal { text, divisor: 1 },
                    unit,
                },
            ),
            None => None,
        },
        None => None,
    }
}

pub open spec fn core_reading_fn(number: Double) -> spec_fn(Seq<char>) -> Option<
    ReadingModel<ValueModel>,
> {
    |part: Seq<char>| core_reading(number, part)
}

/// What a core's line gives, if it names its core; `number` is what the
/// decimal fraction in that name comes to.
pub open spec fn core_line(line: Seq<char>, number: Option<Double>) -> Seq<
    ReadingModel<ValueModel>,
> {
    let parts = pieces(line, ',');
    if core_number(parts) is Some && number is Some {
        kept(parts, core_reading_fn(number->0))
    } else {
        Seq::empty()
    }
}

pub open spec fn number_at(numbers: Seq<Option<Double>>, i: int) -> Option<Double> {
    if 0 <= i < numbers.len() {
        numbers[i]
    } else {
        None
    }
}

/// What the first `n` lines on cores give.
pub open spec fn core_lines(ls: Seq<Seq<char>>, numbers: Seq<Option<Double>>, n: int) -> Seq<
    ReadingModel<ValueModel>,
>
    decreases n,
{
    if n <= 0 {
        Seq::empty()
    } else {
        core_lines(ls, numbers, n - 1) + core_line(ls[n - 1], number_at(numbers, n - 1))
    }
}

/// All that the files give: one chip of values for the whole processor, and
/// one for its cores.
pub open spec fn smu_chips(f: SmuFiles, numbers: Seq<Option<Double>>) -> Seq<
    ChipModel<ValueModel>,
> {
    let ls = lines_of(seen(f.cores));
    as_chip("smu"@, scalar_readings(f)) + as_chip(
        "smu-cores"@,
        core_lines(ls, numbers, ls.len() as int),
    )
}

fn add_clock(out: &mut Vec<Reading<Value>>, label: &str, text: Option<&str>)
    ensures
        views(final(out)@) == views(old(out)@) + clock_reading(label@, seen(text)),
{
    let ghost start = views(out@);
    if let Some(value) = read_value(text, 1) {
        put(out, Reading { label: owned(label), value, unit: Unit::Mhz });
    }
    assert(views(out@) =~= start + clock_reading(label@, seen(text)));
}

fn read_scalar(line: &[char], unit: Unit) -> (r: Option<Reading<Value>>)
    ensures
        seen(r) == scalar_line(line@, unit),
{
    match split_once(line, ':') {
        Some((k, v)) => match take_decimal(trim(trim_any_letters(trim(v)))) {
            Some(text) => Some(
                Reading {
                    label: string(trim(k)),
                    value: Value::Decimal { text, divisor: 1000 },
                    unit,
                },
            ),
            None => None,
        },
        None => None,
    }
}

fn add_scalars(out: &mut Vec<Reading<Value>>, text: Option<&str>, unit: Unit)
    ensures
        views(final(out)@) == views(old(out)@) + kept(lines_of(seen(text)), scalar_fn(unit)),
{
    let t = match text {
        Some(s) => chars(s),
        None => Vec::new(),
    };
    assert(text is None ==> lines(t@) =~= lines_of(seen(text)));
    let ls = split_lines(t.as_slice());
    let ghost all = lines(t@);
    let ghost start = views(out@);
    let mut i: usize = 0;
    assert(start + kept(all.take(0), scalar_fn(unit)) =~= start);
    while i < ls.len()
        invariant
            i <= ls.len(),
            views(ls@) == all,
            views(out@) == start + kept(all.take(i as int), scalar_fn(unit)),
        decreases ls.len() - i,
    {
        assert(all[i as int] == ls@[i as int]@);
        proof {
            lemma_kept_step(all, scalar_fn(unit), i as int);
        }
        if let Some(r) = read_scalar(ls[i], unit) {
            put(out, r);
        }
        i = i + 1;
    }
    proof {
        lemma_take_all(all);
    }
}

fn read_core_part(part: &[char]) -> (r: Option<(Vec<char>, String)>)
    ensures
        match r {
            Some((k, v)) => core_part(part@) == Some((k@, v@)),
            None => core_part(part@) is None,
        },
{
    match split_once(part, ':') {
        Some((k, v)) => match take_decimal(trim(v)) {
            Some(text) => Some((lowered(trim(k)), text)),
            None => None,
        },
        None => None,
    }
}

fn find_core_number(parts: &Vec<&[char]>) -> (r: Option<String>)
    ensures
        seen(r) == core_number(views(parts@)),
{
    let ghost all = views(parts@);
    let mut found: Option<String> = None;
    let mut i: usize = 0;
    while i < parts.len()
        invariant
            i <= parts.len(),
            all == views(parts@),
            seen(found) == core_number(all.take(i as int)),
        decreases parts.len() - i,
    {
        proof {
            assert(all.take(i + 1).drop_last() =~= all.take(i as int));
            assert(all.take(i + 1).last() == parts@[i as int]@);
        }
        if let Some((key, text)) = read_core_part(parts[i]) {
            if spells(key.as_slice(), "core") {
                found = Some(text);
            }
        }
        i = i + 1;
    }
    proof {
        lemma_take_all(all);
    }
    found
}

/// The decimal fraction by which each line of the file on the cores names its
/// core, where it does.
pub fn core_numbers(cores: Option<&str>) -> (r: Vec<Option<String>>)
    ensures
        r@.len() == lines_of(seen(cores)).len(),
        forall|i: int|
            0 <= i < r@.len() ==> seen(#[trigger] r@[i]) == core_number(
                pieces(lines_of(seen(cores))[i], ','),
            ),
{
    let t = match cores {
        Some(s) => chars(s),
        None => Vec::new(),
    };
    assert(cores is None ==> lines(t@) =~= lines_of(seen(cores)));
    let ls = split_lines(t.as_slice());
    let ghost all = lines(t@);
    let mut out: Vec<Option<String>> = Vec::new();
    let mut i: usize = 0;
    while i < ls.len()
        invariant
            i <= ls.len(),
            out@.len() == i,
            views(ls@) == all,
            forall|j: int|
                0 <= j < i ==> seen(#[trigger] out@[j]) == core_number(pieces(all[j], ',')),
        decreases ls.len() - i,
    {
        assert(all[i as int] == ls@[i as int]@);
        let parts = split(ls[i], ',');
        out.push(find_core_number(&parts));
        i = i + 1;
    }
    out
}

fn core_key_of(key: &[char]) -> (r: Option<(&'static str, Unit)>)
    ensures
        match r {
            Some((tail, unit)) => core_key(key@) == Some((tail@, unit)),
            None => core_key(key@) is None,
        },
{
    if spells(key, "tmp") || spells(key, "temp") {
        Some(("Temp", Unit::TempC))
    } else if spells(key, "vid") || spells(key, "voltage") {
        Some(("VID", Unit::Volts))
    } else if spells(key, "clock") || spells(key, "clk") || spells(key, "fid") {
        Some(("Clock", Unit::Mhz))
    } else {
        None
    }
}

fn to_u32(d: Double) -> (r: u64)
    ensures
        r == as_u32(d),
{
    let n = d.to_u64();
    if n > u32::MAX as u64 {
        u32::MAX as u64
    } else {
        n
    }
}

fn read_core_value(number: Double, part: &[char]) -> (r: Option<Reading<Value>>)
    ensures
        seen(r) == core_reading(number, part@),
{
    match read_core_part(part) {
        Some((key, text)) => match core_key_of(key.as_slice()) {
            Some((tail, unit)) => {
                let label = owned("C").concat(dec2_text(to_u32(number)).as_str()).concat("_").concat(
                    tail,
                );
                Some(Reading { label, value: Value::Decimal { text, divisor: 1 }, unit })
            },
            None => None,
        },
        None => None,
    }
}

fn add_core_line(out: &mut Vec<Reading<Value>>, line: &[char], number: Option<Double>)
    ensures
        views(final(out)@) == views(old(out)@) + core_line(line@, number),
{
    let ghost start = views(out@);
    let parts = split(line, ',');
    let ghost all = pieces(line@, ',');
    if let Some(n) = number {
        if find_core_number(&parts).is_some() {
            let mut i: usize = 0;
            assert(start + kept(all.take(0), core_reading_fn(n)) =~= start);
            while i < parts.len()
                invariant
                    i <= parts.len(),
                    views(parts@) == all,
                    views(out@) == start + kept(all.take(i as int), core_reading_fn(n)),
                decreases parts.len() - i,
            {
                assert(all[i as int] == parts@[i as int]@);
                proof {
                    lemma_kept_step(all, core_reading_fn(n), i as int);
                }
                if let Some(r) = read_core_value(n, parts[i]) {
                    put(out, r);
                }
                i = i + 1;
            }
            proof {
                lemma_take_all(all);
            }
            return;
        }
    }
    assert(start + core_line(line@, number) =~= start);
}

/// The readings in the module's text files. `numbers` holds what the fractions
/// that name the cores come to, line by line.
pub fn read_smu(f: &SmuFiles, numbers: &Vec<Option<Double>>) -> (r: Vec<Chip<Value>>)
    ensures
        views(r@) == smu_chips(*f, numbers@),
{
    let mut scalars: Vec<Reading<Value>> = Vec::new();
    add_clock(&mut scalars, "mclk", borrowed(&f.mclk));
    assert(views(scalars@) =~= clock_reading("mclk"@, seen(f.mclk)));
    add_clock(&mut scalars, "fclk", borrowed(&f.fclk));
    add_scalars(&mut scalars, borrowed(&f.power), Unit::Watts);
    add_scalars(&mut scalars, borrowed(&f.currents), Unit::Amps);
    let mut out: Vec<Chip<Value>> = Vec::new();
    if scalars.len() > 0 {
        put(&mut out, Chip { name: owned("smu"), readings: scalars });
    }
    assert(views(out@) =~= as_chip("smu"@, scalar_readings(*f)));
    let t = match borrowed(&f.cores) {
        Some(s) => chars(s),
        None => Vec::new(),
    };
    assert(f.cores is None ==> lines(t@) =~= lines_of(seen(f.cores)));
    let ls = split_lines(t.as_slice());
    let ghost all = lines(t@);
    let mut cores: Vec<Reading<Value>> = Vec::new();
    let mut i: usize = 0;
    while i < ls.len()
        invariant
            i <= ls.len(),
            views(ls@) == all,
            views(cores@) == core_lines(all, numbers@, i as int),
        decreases ls.len() - i,
    {
        assert(all[i as int] == ls@[i as int]@);
        let number = if i < numbers.len() {
            numbers[i]
        } else {
            None
        };
        add_core_line(&mut cores, ls[i], number);
        i = i + 1;
    }
    let ghost start = views(out@);
    let ghost readings = core_lines(all, numbers@, all.len() as int);
    if cores.len() > 0 {
        put(&mut out, Chip { name: owned("smu-cores"), readings: cores });
    }
    assert(views(out@) =~= start + as_chip("smu-cores"@, readings));
    out
}

} // verus!
