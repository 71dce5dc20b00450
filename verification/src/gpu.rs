//! Graphics processors of the amdgpu driver: clocks, load, memory.
use vstd::prelude::*;

use crate::files::{
    borrowed, file_text, file_value, read_trimmed, read_value,
};
use crate::lists::{
    first, kept, lemma_first_at, lemma_first_none, lemma_kept_step, lemma_take_all, listed, put,
    seen, views,
};
use crate::model::{Reading, ReadingModel, Unit, Value, ValueModel};
use crate::numbers::{dec, dec_text, decimal_text, take_decimal};
use crate::text::{
    before_letters, before_trailing, chars, cut, has_char, lines, owned, split_lines, split_once,
    trim, trim_letters, trim_trailing, trimmed,
};

verus! {

// ---------- which card ----------

/// The first card from `c` on, of the first eight, that is present.
pub open spec fn first_card(present: Seq<bool>, c: int) -> Option<int>
    decreases 8 - c,
{
    if c >= 8 || c >= present.len() || c < 0 {
        None
    } else if present[c] {
        Some(c)
    } else {
        first_card(present, c + 1)
    }
}

fn find_card(present: &Vec<bool>) -> (r: Option<u64>)
    ensures
        match r {
            Some(c) => first_card(present@, 0) == Some(c as int),
            None => first_card(present@, 0) is None,
        },
{
    let mut c: usize = 0;
    while c < 8 && c < present.len()
        invariant
            c <= 8,
            c <= present.len(),
            first_card(present@, 0) == first_card(present@, c as int),
        decreases 8 - c,
    {
        if present[c] {
            return Some(c as u64);
        }
        c = c + 1;
    }
    None
}

/// The device node of the first of eight cards that has memory of its own to
/// report, given which have.
pub fn amdgpu_card_node(present: &Vec<bool>) -> (r: Option<String>)
    ensures
        seen(r) == match first_card(present@, 0) {
            Some(c) => Some("/dev/dri/card"@ + dec(c as nat)),
            None => None,
        },
{
    match find_card(present) {
        Some(c) => Some(owned("/dev/dri/card").concat(dec_text(c).as_str())),
        None => None,
    }
}

/// The directory of the first of eight cards that has memory of its own to
/// report, given which have.
pub fn amdgpu_dev_path(present: &Vec<bool>) -> (r: Option<String>)
    ensures
        seen(r) == match first_card(present@, 0) {
            Some(c) => Some("/sys/class/drm/card"@ + dec(c as nat) + "/device"@),
            None => None,
        },
{
    match find_card(present) {
        Some(c) => Some(
            owned("/sys/class/drm/card").concat(dec_text(c).as_str()).concat("/device"),
        ),
        None => None,
    }
}

// ---------- sensors behind the driver's control call ----------

/// A sensor: the number the driver knows it by, its label, its unit, and what
/// its values are multiples of.
#[derive(Clone, Copy)]
pub struct DrmSensor {
    pub code: u32,
    pub label: &'static str,
    pub unit: Unit,
    pub divisor: u64,
}

#[verifier::ext_equal]
pub struct DrmModel {
    pub code: u32,
    pub label: Seq<char>,
    pub unit: Unit,
    pub divisor: u64,
}

impl View for DrmSensor {
    type V = DrmModel;

    open spec fn view(&self) -> DrmModel {
        DrmModel { code: self.code, label: self.label@, unit: self.unit, divisor: self.divisor }
    }
}

/// The sensors that are asked, in this order.
pub open spec fn drm_list() -> Seq<DrmModel> {
    seq![
        DrmModel { code: 1, label: "GfxClk"@, unit: Unit::Mhz, divisor: 1 },
        DrmModel { code: 2, label: "MemClk"@, unit: Unit::Mhz, divisor: 1 },
        DrmModel { code: 4, label: "Load"@, unit: Unit::Pct, divisor: 1 },
        DrmModel { code: 5, label: "Power"@, unit: Unit::Watts, divisor: 1 },
        DrmModel { code: 0xC, label: "InputPower"@, unit: Unit::Watts, divisor: 1 },
        DrmModel { code: 3, label: "Temp"@, unit: Unit::TempC, divisor: 1000 },
    ]
}

pub fn drm_sensors() -> (r: Vec<DrmSensor>)
    ensures
        views(r@) == drm_list(),
{
    let mut v: Vec<DrmSensor> = Vec::new();
    put(&mut v, DrmSensor { code: 1, label: "GfxClk", unit: Unit::Mhz, divisor: 1 });
    put(&mut v, DrmSensor { code: 2, label: "MemClk", unit: Unit::Mhz, divisor: 1 });
    put(&mut v, DrmSensor { code: 4, label: "Load", unit: Unit::Pct, divisor: 1 });
    put(&mut v, DrmSensor { code: 5, label: "Power", unit: Unit::Watts, divisor: 1 });
    put(&mut v, DrmSensor { code: 0xC, label: "InputPower", unit: Unit::Watts, divisor: 1 });
    put(&mut v, DrmSensor { code: 3, label: "Temp", unit: Unit::TempC, divisor: 1000 });
    assert(views(v@) =~= drm_list());
    v
}

/// The answer of the sensor at place `i`, if it gave one.
pub open spec fn answer_at(answers: Seq<Option<u32>>, i: int) -> Option<u32> {
    if 0 <= i < answers.len() {
        answers[i]
    } else {
        None
    }
}

pub open spec fn drm_reading(s: DrmModel, answer: Option<u32>) -> Option<
    ReadingModel<ValueModel>,
> {
    match answer {
        Some(n) => Some(
            ReadingModel {
                label: s.label,
                value: ValueModel::Count { n: n as u64, divisor: s.divisor },
                unit: s.unit,
            },
        ),
        None => None,
    }
}

/// The readings of the first `n` sensors.
pub open spec fn drm_readings(answers: Seq<Option<u32>>, n: int) -> Seq<ReadingModel<ValueModel>>
    decreases n,
{
    if n <= 0 {
        Seq::empty()
    } else {
        drm_readings(answers, n - 1) + listed(
            drm_reading(drm_list()[n - 1], answer_at(answers, n - 1)),
        )
    }
}

/// The readings of the sensors that gave an answer.
pub fn read_drm_sensors(answers: &Vec<Option<u32>>) -> (r: Vec<Reading<Value>>)
    ensures
        views(r@) == drm_readings(answers@, 6),
{
    let sensors = drm_sensors();
    let mut out: Vec<Reading<Value>> = Vec::new();
    let mut i: usize = 0;
    while i < sensors.len()
        invariant
            i <= sensors.len(),
            views(sensors@) == drm_list(),
            views(out@) == drm_readings(answers@, i as int),
        decreases sensors.len() - i,
    {
        let s = sensors[i];
        assert(s@ == drm_list()[i as int]);
        let answer = if i < answers.len() {
            answers[i]
        } else {
            None
        };
        let ghost so_far = views(out@);
        if let Some(n) = answer {
            put(
                &mut out,
                Reading {
                    label: owned(s.label),
                    value: Value::Count { n: n as u64, divisor: s.divisor },
                    unit: s.unit,
                },
            );
        }
        assert(views(out@) =~= so_far + listed(drm_reading(s@, answer)));
        i = i + 1;
    }
    assert(views(sensors@).len() == 6);
    out
}

// ---------- performance levels ----------

/// The clock in a line of performance levels, as in `1: 800Mhz *`.
pub open spec fn dpm_value(line: Seq<char>) -> Option<Seq<char>> {
    match cut(line, ':') {
        Some((_, v)) => decimal_text(
            trimmed(before_letters(trimmed(before_trailing(trimmed(v), '*')))),
        ),
        None => None,
    }
}

pub open spec fn dpm_value_fn() -> spec_fn(Seq<char>) -> Option<Seq<char>> {
    |line: Seq<char>| dpm_value(line)
}

pub open spec fn starred() -> spec_fn(Seq<char>) -> Option<Seq<char>> {
    |line: Seq<char>|
        if line.contains('*') {
            Some(line)
        } else {
            None
        }
}

/// The clock in the first line with a star, if that line has one.
pub open spec fn dpm_current(text: Seq<char>) -> Option<Seq<char>> {
    match first(lines(text), starred()) {
        Some(line) => dpm_value(line),
        None => None,
    }
}

/// The clocks of all lines that have one.
pub open spec fn dpm_all(text: Seq<char>) -> Seq<Seq<char>> {
    kept(lines(text), dpm_value_fn())
}

/// What a file of performance levels gives: the present clock, which is zero
/// where no level is marked, and the largest clock there is.
pub open spec fn clock_readings(label: Seq<char>, text: Option<Seq<char>>) -> Seq<
    ReadingModel<ValueModel>,
> {
    match file_text(text) {
        Some(t) => if t.len() == 0 {
            Seq::empty()
        } else {
            seq![
                ReadingModel {
                    label,
                    value: match dpm_current(t) {
                        Some(c) => ValueModel::Decimal { text: c, divisor: 1 },
                        None => ValueModel::Count { n: 0, divisor: 1 },
                    },
                    unit: Unit::Mhz,
                },
            ] + (if dpm_all(t).len() > 0 {
                seq![
                    ReadingModel {
                        label: label + "_max"@,
                        value: ValueModel::Largest { texts: dpm_all(t) },
                        unit: Unit::Mhz,
                    },
                ]
            } else {
                Seq::empty()
            })
        },
        None => Seq::empty(),
    }
}

/// What a file with a percentage gives.
pub open spec fn load_reading(label: Seq<char>, text: Option<Seq<char>>) -> Seq<
    ReadingModel<ValueModel>,
> {
    match file_value(text, 1) {
        Some(value) => seq![ReadingModel { label, value, unit: Unit::Pct }],
        None => Seq::empty(),
    }
}

pub fn dpm_value_of(line: &[char]) -> (r: Option<String>)
    ensures
        seen(r) == dpm_value(line@),
{
    match split_once(line, ':') {
        Some((_, v)) => take_decimal(trim(trim_letters(trim(trim_trailing(trim(v), '*'))))),
        None => None,
    }
}

pub fn dpm_current_line(text: &[char]) -> (r: Option<String>)
    ensures
        seen(r) == dpm_current(text@),
{
    let ls = split_lines(text);
    let ghost all = lines(text@);
    let mut i: usize = 0;
    while i < ls.len()
        invariant
            i <= ls.len(),
            views(ls@) == all,
            all == lines(text@),
            forall|j: int| 0 <= j < i ==> starred()(#[trigger] all[j]) is None,
        decreases ls.len() - i,
    {
        assert(all[i as int] == ls@[i as int]@);
        if has_char(ls[i], '*') {
            proof {
                lemma_first_at(all, starred(), i as int);
            }
            return dpm_value_of(ls[i]);
        }
        i = i + 1;
    }
    proof {
        lemma_first_none(all, starred());
    }
    None
}

pub fn dpm_values(text: &[char]) -> (r: Vec<String>)
    ensures
        views(r@) == dpm_all(text@),
{
    let ls = split_lines(text);
    let ghost all = lines(text@);
    let mut out: Vec<String> = Vec::new();
    let mut i: usize = 0;
    while i < ls.len()
        invariant
            i <= ls.len(),
            views(ls@) == all,
            views(out@) == kept(all.take(i as int), dpm_value_fn()),
        decreases ls.len() - i,
    {
        assert(all[i as int] == ls@[i as int]@);
        proof {
            lemma_kept_step(all, dpm_value_fn(), i as int);
        }
        if let Some(v) = dpm_value_of(ls[i]) {
            put(&mut out, v);
        }
        i = i + 1;
    }
    proof {
        lemma_take_all(all);
    }
    out
}

fn add_clock(out: &mut Vec<Reading<Value>>, label: &str, text: Option<&str>)
    ensures
        views(final(out)@) == views(old(out)@) + clock_readings(label@, seen(text)),
{
    let ghost start = views(out@);
    if let Some(t) = read_trimmed(text) {
        let t = chars(t.as_str());
        if t.len() > 0 {
            let value = match dpm_current_line(t.as_slice()) {
                Some(text) => Value::Decimal { text, divisor: 1 },
                None => Value::Count { n: 0, divisor: 1 },
            };
            put(out, Reading { label: owned(label), value, unit: Unit::Mhz });
            let texts = dpm_values(t.as_slice());
            if texts.len() > 0 {
                put(
                    out,
                    Reading {
                        label: owned(label).concat("_max"),
                        value: Value::Largest { texts },
                        unit: Unit::Mhz,
                    },
                );
            }
        }
    }
    assert(views(out@) =~= start + clock_readings(label@, seen(text)));
}

fn add_load(out: &mut Vec<Reading<Value>>, label: &str, text: Option<&str>)
    ensures
        views(final(out)@) == views(old(out)@) + load_reading(label@, seen(text)),
{
    let ghost start = views(out@);
    if let Some(value) = read_value(text, 1) {
        put(out, Reading { label: owned(label), value, unit: Unit::Pct });
    }
    assert(views(out@) =~= start + load_reading(label@, seen(text)));
}

/// The files of the driver: two loads, and the performance levels of seven clocks.
pub struct DpmFiles {
    pub gpu_busy: Option<String>,
    pub vcn_busy: Option<String>,
    pub sclk: Option<String>,
    pub mclk: Option<String>,
    pub socclk: Option<String>,
    pub fclk: Option<String>,
    pub vclk: Option<String>,
    pub dclk: Option<String>,
    pub dcefclk: Option<String>,
}

/// What the driver's files give.
pub open spec fn dpm_readings(f: DpmFiles) -> Seq<ReadingModel<ValueModel>> {
    load_reading("busy"@, seen(f.gpu_busy)) + load_reading("vcn_busy"@, seen(f.vcn_busy))
        + clock_readings("sclk"@, seen(f.sclk)) + clock_readings("mclk"@, seen(f.mclk))
        + clock_readings("socclk"@, seen(f.socclk)) + clock_readings("fclk"@, seen(f.fclk))
        + clock_readings("vclk"@, seen(f.vclk)) + clock_readings("dclk"@, seen(f.dclk))
        + clock_readings("dcefclk"@, seen(f.dcefclk))
}

pub fn read_amdgpu_dpm(f: &DpmFiles) -> (r: Vec<Reading<Value>>)
    ensures
        views(r@) == dpm_readings(*f),
{
    let mut out: Vec<Reading<Value>> = Vec::new();
    add_load(&mut out, "busy", borrowed(&f.gpu_busy));
    assert(views(out@) =~= load_reading("busy"@, seen(f.gpu_busy)));
    add_load(&mut out, "vcn_busy", borrowed(&f.vcn_busy));
    add_clock(&mut out, "sclk", borrowed(&f.sclk));
    add_clock(&mut out, "mclk", borrowed(&f.mclk));
    add_clock(&mut out, "socclk", borrowed(&f.socclk));
    add_clock(&mut out, "fclk", borrowed(&f.fclk));
    add_clock(&mut out, "vclk", borrowed(&f.vclk));
    add_clock(&mut out, "dclk", borrowed(&f.dclk));
    add_clock(&mut out, "dcefclk", borrowed(&f.dcefclk));
    out
}

// ---------- memory ----------

/// The graphics memory, in MiB.
pub struct VramSample {
    pub used_mib: Value,
    pub total_mib: Value,
    pub gtt_used_mib: Option<Value>,
}

/// The number of bytes that a file holds in MiB, or zero.
pub open spec fn mebibytes(text: Option<Seq<char>>) -> ValueModel {
    match file_value(text, 1048576) {
        Some(v) => v,
        None => ValueModel::Count { n: 0, divisor: 1048576 },
    }
}

fn read_mebibytes(text: Option<&str>) -> (r: Value)
    ensures
        r@ == mebibytes(seen(text)),
{
    match read_value(text, 1048576) {
        Some(v) => v,
        None => Value::Count { n: 0, divisor: 1048576 },
    }
}

pub fn read_vram(total: Option<&str>, used: Option<&str>, gtt_used: Option<&str>) -> (r: VramSample)
    ensures
        r.total_mib@ == mebibytes(seen(total)),
        r.used_mib@ == mebibytes(seen(used)),
        seen(r.gtt_used_mib) == file_value(seen(gtt_used), 1048576),
{
    VramSample {
        used_mib: read_mebibytes(used),
        total_mib: read_mebibytes(total),
        gtt_used_mib: read_value(gtt_used, 1048576),
    }
}

// ---------- laws ----------

/// The labels of a clock do not depend on what its file says: where there is
/// any text in it, the present clock comes first, under the clock's name, and
/// only the largest one may follow, under that name and `_max`.
pub proof fn lemma_clock_labels_are_stable(label: Seq<char>, text: Option<Seq<char>>)
    requires
        file_text(text) is Some,
        file_text(text)->0.len() > 0,
    ensures
        1 <= clock_readings(label, text).len() <= 2,
        clock_readings(label, text)[0].label == label,
        clock_readings(label, text).len() == 2 ==> clock_readings(label, text)[1].label == label
            + "_max"@,
{
}

} // verus!
