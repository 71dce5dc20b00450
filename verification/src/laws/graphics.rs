//! Graphics processors: sensors, performance levels and memory.
use vstd::prelude::*;

use crate::files::{file_decimal, file_text};
use crate::gpu::{
    clock_readings, dpm_all, dpm_current, dpm_readings, dpm_value, dpm_value_fn, drm_list,
    drm_readings, first_card, load_reading, mebibytes, starred, DpmFiles,
};
use crate::laws::text::{
    lemma_cut_at, lemma_numbers_are_decimal, lemma_tails, lemma_trimmed, lemma_written_number,
};
use crate::lists::{lemma_first_at, lemma_first_none, lemma_kept_all, seen};
use crate::model::{ReadingModel, Unit, ValueModel};
use crate::numbers::dec;
use crate::text::{before_letters, before_trailing, is_digit, is_letter, lines};

verus! {

/// The card is the first of the first eight that is there.
pub proof fn lemma_card(present: Seq<bool>, c: int)
    ensures
        0 <= c < 8 && c < present.len() && present[c] && (forall|i: int|
            0 <= i < c ==> !#[trigger] present[i]) ==> first_card(present, 0) == Some(c),
        (forall|i: int| 0 <= i < present.len() && i < 8 ==> !#[trigger] present[i]) ==> first_card(
            present,
            0,
        ) is None,
{
    if 0 <= c < 8 && c < present.len() && present[c] && forall|i: int|
        0 <= i < c ==> !#[trigger] present[i] {
        lemma_card_from(present, 0, c);
    }
    if forall|i: int| 0 <= i < present.len() && i < 8 ==> !#[trigger] present[i] {
        lemma_no_card(present, 0);
    }
}

proof fn lemma_card_from(present: Seq<bool>, k: int, c: int)
    requires
        0 <= k <= c < 8,
        c < present.len(),
        present[c],
        forall|i: int| k <= i < c ==> !#[trigger] present[i],
    ensures
        first_card(present, k) == Some(c),
    decreases c - k,
{
    if k < c {
        lemma_card_from(present, k + 1, c);
    }
}

proof fn lemma_no_card(present: Seq<bool>, k: int)
    requires
        0 <= k <= 8,
        forall|i: int| 0 <= i < present.len() && i < 8 ==> !#[trigger] present[i],
    ensures
        first_card(present, k) is None,
    decreases 8 - k,
{
    if k < 8 && k < present.len() {
        lemma_no_card(present, k + 1);
    }
}

pub open spec fn count(label: Seq<char>, n: u32, divisor: u64, unit: Unit) -> ReadingModel<
    ValueModel,
> {
    ReadingModel { label, value: ValueModel::Count { n: n as u64, divisor }, unit }
}

/// Six sensors are asked, by the numbers that the driver knows them by, and their
/// answers are the clocks of the processor and its memory in MHz, the load in
/// percent, two powers in watts, and the temperature in thousandths of a degree.
pub proof fn lemma_sensors(a: u32, b: u32, c: u32, d: u32, e: u32, f: u32)
    ensures
        drm_list().len() == 6,
        drm_list()[0].code == 1,
        drm_list()[1].code == 2,
        drm_list()[2].code == 4,
        drm_list()[3].code == 5,
        drm_list()[4].code == 12,
        drm_list()[5].code == 3,
        drm_readings(seq![Some(a), Some(b), Some(c), Some(d), Some(e), Some(f)], 6) == seq![
            count("GfxClk"@, a, 1, Unit::Mhz),
            count("MemClk"@, b, 1, Unit::Mhz),
            count("Load"@, c, 1, Unit::Pct),
            count("Power"@, d, 1, Unit::Watts),
            count("InputPower"@, e, 1, Unit::Watts),
            count("Temp"@, f, 1000, Unit::TempC),
        ],
{
    let s = seq![Some(a), Some(b), Some(c), Some(d), Some(e), Some(f)];
    reveal_with_fuel(drm_readings, 7);
    assert(drm_readings(s, 6) =~= seq![
        count("GfxClk"@, a, 1, Unit::Mhz),
        count("MemClk"@, b, 1, Unit::Mhz),
        count("Load"@, c, 1, Unit::Pct),
        count("Power"@, d, 1, Unit::Watts),
        count("InputPower"@, e, 1, Unit::Watts),
        count("Temp"@, f, 1000, Unit::TempC),
    ]);
}

/// A sensor that gives no answer is left out, and the others stay as they are.
pub proof fn lemma_missing_answer(answers: Seq<Option<u32>>, n: int)
    requires
        0 < n <= 6,
    ensures
        n > answers.len() || answers[n - 1] is None ==> drm_readings(answers, n) == drm_readings(
            answers,
            n - 1,
        ),
        n <= answers.len() && answers[n - 1] is Some ==> drm_readings(answers, n).len()
            == drm_readings(answers, n - 1).len() + 1,
{
    if n > answers.len() || answers[n - 1] is None {
        assert(drm_readings(answers, n) =~= drm_readings(answers, n - 1));
    }
}

/// A level of performance, as in `1: 800Mhz *`, has its clock behind the colon,
/// whether it is marked or not.
pub proof fn lemma_level(i: nat, n: nat)
    ensures
        dpm_value(dec(i) + ": "@ + dec(n) + "Mhz"@) == Some(dec(n)),
        dpm_value(dec(i) + ": "@ + dec(n) + "Mhz *"@) == Some(dec(n)),
        starred()(dec(i) + ": "@ + dec(n) + "Mhz *"@) is Some,
        starred()(dec(i) + ": "@ + dec(n) + "Mhz"@) is None,
{
    reveal_strlit(": ");
    reveal_strlit("Mhz");
    reveal_strlit("Mhz *");
    let (x, d) = (dec(i), dec(n));
    lemma_written_number(i);
    lemma_written_number(n);
    lemma_numbers_are_decimal(n, 0);
    assert(is_digit(d[0]) && is_digit(d[d.len() - 1]));
    assert(!x.contains(':')) by {
        if x.contains(':') {
            let k = choose|k: int| 0 <= k < x.len() && x[k] == ':';
            assert(is_digit(x[k]));
        }
    }
    let none = Seq::<char>::empty();
    let gap = seq![' '];
    let body = d + "Mhz"@;
    let a = x + ": "@ + d + "Mhz"@;
    let b = x + ": "@ + d + "Mhz *"@;
    assert(a =~= x + seq![':'] + (gap + body));
    lemma_cut_at(x, ':', gap + body);
    assert(body[0] == d[0] && body.last() == 'z');
    lemma_trimmed(gap, body, none);
    assert(gap + body + none =~= gap + body);
    lemma_tails(body, none, '*');
    assert(body + none =~= body);
    lemma_tails(d, "Mhz"@, 'x');
    assert(forall|k: int| 0 <= k < "Mhz"@.len() ==> is_letter(#[trigger] "Mhz"@[k]));
    assert(before_letters(body) == d);
    lemma_trimmed(none, d, none);
    lemma_trimmed(none, body, none);
    let marked = d + "Mhz *"@;
    assert(b =~= x + seq![':'] + (gap + marked));
    lemma_cut_at(x, ':', gap + marked);
    assert(marked[0] == d[0] && marked.last() == '*');
    lemma_trimmed(gap, marked, none);
    assert(gap + marked + none =~= gap + marked);
    let spaced = body + gap;
    assert(marked =~= spaced + seq!['*']);
    lemma_tails(spaced, seq!['*'], '*');
    assert(before_trailing(marked, '*') == spaced);
    lemma_trimmed(none, body, gap);
    assert(none + body + gap =~= spaced);
    assert(b[b.len() - 1] == '*');
    if a.contains('*') {
        let k = choose|k: int| 0 <= k < a.len() && a[k] == '*';
        if k < x.len() {
            assert(is_digit(x[k]));
        } else if k >= x.len() + 2 && k < x.len() + 2 + d.len() {
            assert(a[k] == d[k - x.len() - 2]);
        }
    }
}

/// The present clock is that of the first level with a mark, and there is none where
/// no level has one; the clocks of all levels are taken in their order.
pub proof fn lemma_levels(text: Seq<char>, ls: Seq<Seq<char>>, k: int, clocks: Seq<Seq<char>>)
    requires
        lines(text) == ls,
        clocks.len() == ls.len(),
        forall|i: int| 0 <= i < ls.len() ==> dpm_value(#[trigger] ls[i]) == Some(clocks[i]),
    ensures
        0 <= k < ls.len() && ls[k].contains('*') && (forall|i: int|
            0 <= i < k ==> !(#[trigger] ls[i]).contains('*')) ==> dpm_current(text) == Some(clocks[k]),
        (forall|i: int| 0 <= i < ls.len() ==> !(#[trigger] ls[i]).contains('*')) ==> dpm_current(text)
            is None,
        dpm_all(text) == clocks,
{
    lemma_kept_all(ls, dpm_value_fn(), clocks);
    if 0 <= k < ls.len() && ls[k].contains('*') && forall|i: int|
        0 <= i < k ==> !(#[trigger] ls[i]).contains('*') {
        lemma_first_at(ls, starred(), k);
    }
    if forall|i: int| 0 <= i < ls.len() ==> !(#[trigger] ls[i]).contains('*') {
        lemma_first_none(ls, starred());
    }
}

/// A clock gives two readings in MHz: the present one, which is zero where no level
/// is marked, and the largest of all levels.
pub proof fn lemma_clock(label: Seq<char>, text: Option<Seq<char>>, t: Seq<char>, c: Seq<char>)
    requires
        file_text(text) == Some(t),
        t.len() > 0,
        dpm_all(t).len() > 0,
    ensures
        clock_readings(label, text).len() == 2,
        dpm_current(t) == Some(c) ==> clock_readings(label, text)[0] == (ReadingModel {
            label,
            value: ValueModel::Decimal { text: c, divisor: 1 },
            unit: Unit::Mhz,
        }),
        dpm_current(t) is None ==> clock_readings(label, text)[0] == (ReadingModel {
            label,
            value: ValueModel::Count { n: 0, divisor: 1 },
            unit: Unit::Mhz,
        }),
        clock_readings(label, text)[1] == (ReadingModel {
            label: label + "_max"@,
            value: ValueModel::Largest { texts: dpm_all(t) },
            unit: Unit::Mhz,
        }),
        clock_readings(label, None).len() == 0,
{
}

/// A load is a share in percent; there is none where its file could not be read.
pub proof fn lemma_load(label: Seq<char>, text: Option<Seq<char>>, p: Seq<char>)
    ensures
        file_decimal(text) == Some(p) ==> load_reading(label, text) == seq![
            ReadingModel {
                label,
                value: ValueModel::Decimal { text: p, divisor: 1 },
                unit: Unit::Pct,
            },
        ],
        file_decimal(text) is None ==> load_reading(label, text).len() == 0,
{
}

/// Every file of the driver is read under its own label, in one order; a file that
/// could not be read adds nothing.
pub proof fn lemma_driver_files(f: DpmFiles)
    ensures
        dpm_readings(f) == load_reading("busy"@, seen(f.gpu_busy)) + load_reading(
            "vcn_busy"@,
            seen(f.vcn_busy),
        ) + clock_readings("sclk"@, seen(f.sclk)) + clock_readings("mclk"@, seen(f.mclk))
            + clock_readings("socclk"@, seen(f.socclk)) + clock_readings("fclk"@, seen(f.fclk))
            + clock_readings("vclk"@, seen(f.vclk)) + clock_readings("dclk"@, seen(f.dclk))
            + clock_readings("dcefclk"@, seen(f.dcefclk)),
{
}

/// Graphics memory is told in bytes and taken in MiB; it is none where its file could
/// not be read.
pub proof fn lemma_graphics_memory(text: Option<Seq<char>>, p: Seq<char>)
    ensures
        file_decimal(text) == Some(p) ==> mebibytes(text) == (ValueModel::Decimal {
            text: p,
            divisor: 1_048_576,
        }),
        file_decimal(text) is None ==> mebibytes(text) == (ValueModel::Count {
            n: 0,
            divisor: 1_048_576,
        }),
{
}

} // verus!
