//! Files that hold one value, memory, load and pressure.
use vstd::prelude::*;

use crate::files::{
    decimal_or_zero, file_decimal, file_text, file_text_or_empty, file_u32, file_u64, file_value,
};
use crate::laws::text::{
    all_words, blank, lemma_cut_at, lemma_first_word, lemma_number_reads_back,
    lemma_prefix_and_suffix, lemma_spaced, lemma_trimmed, lemma_word_behind, lemma_written_number,
    spaced, unbroken,
};
use crate::lists::{first, lemma_first_at, lemma_kept_all};
use crate::memory::{mem_entry, mem_of, word_at};
use crate::model::{MemSnapshot, ReadingModel, Unit, ValueModel};
use crate::numbers::{dec, is_decimal};
use crate::psi::{psi_file, psi_line, psi_of, ten_second_average};
use crate::text::{cut, is_digit, is_space, lemma_find_is, lines, words};

verus! {

/// A file that could be read holds its text without the white space round it, and
/// a decimal fraction in it is taken as it is written, to be divided by the given
/// number. A file that could not be read holds nothing.
pub proof fn lemma_file(front: Seq<char>, t: Seq<char>, back: Seq<char>, divisor: u64)
    requires
        blank(front),
        blank(back),
        t.len() > 0,
        !is_space(t[0]),
        !is_space(t.last()),
    ensures
        file_text(Some(front + t + back)) == Some(t),
        file_text_or_empty(Some(front + t + back)) == t,
        is_decimal(t) ==> file_decimal(Some(front + t + back)) == Some(t),
        is_decimal(t) ==> file_value(Some(front + t + back), divisor) == Some(
            ValueModel::Decimal { text: t, divisor },
        ),
        !is_decimal(t) ==> file_value(Some(front + t + back), divisor) is None,
        file_text(None) is None,
        file_text_or_empty(None).len() == 0,
        file_decimal(None) is None,
        file_value(None, divisor) is None,
        file_u64(None) is None,
        file_u32(None) is None,
{
    lemma_trimmed(front, t, back);
}

/// A whole number in a file is read as what it is, if it fits.
pub proof fn lemma_file_number(front: Seq<char>, n: nat, back: Seq<char>)
    requires
        blank(front),
        blank(back),
    ensures
        n <= u64::MAX ==> file_u64(Some(front + dec(n) + back)) == Some(n as int),
        n <= u32::MAX ==> file_u32(Some(front + dec(n) + back)) == Some(n as int),
        n > u32::MAX ==> file_u32(Some(front + dec(n) + back)) is None,
{
    lemma_written_number(n);
    lemma_number_reads_back(n);
    assert(is_digit(dec(n)[0]) && is_digit(dec(n)[dec(n).len() - 1]));
    lemma_trimmed(front, dec(n), back);
}

// ---------- memory ----------

/// A line of `/proc/meminfo`, as in `MemTotal:       32768 kB`.
pub open spec fn mem_row(key: Seq<char>, gap: Seq<char>, n: u64, tail: Seq<char>) -> Seq<char> {
    key + ":"@ + gap + dec(n as nat) + tail
}

/// A line of memory gives its number under its key, and nothing under any other.
pub proof fn lemma_mem_row(
    key: Seq<char>,
    gap: Seq<char>,
    n: u64,
    tail: Seq<char>,
    other: Seq<char>,
)
    requires
        key.len() > 0,
        unbroken(key),
        !key.contains(':'),
        gap.len() > 0,
        blank(gap),
        tail.len() == 0 || is_space(tail[0]),
        other != key,
    ensures
        mem_entry(mem_row(key, gap, n, tail), key) == Some(n as int),
        mem_entry(mem_row(key, gap, n, tail), other) is None,
{
    reveal_strlit(":");
    let d = dec(n as nat);
    let line = mem_row(key, gap, n, tail);
    lemma_written_number(n as nat);
    lemma_number_reads_back(n as nat);
    assert forall|i: int| 0 <= i < key.len() implies key[i] != ':' by {
        assert(key.contains(key[i]));
    }
    lemma_find_is(line, ':', key.len());
    assert(line.take(key.len() as int) =~= key);
    let w = key + ":"@;
    assert forall|i: int| 0 <= i < w.len() implies !is_space(#[trigger] w[i]) by {
        if i < key.len() {
            assert(w[i] == key[i]);
        }
    }
    assert(line =~= w + gap + (d + tail));
    lemma_first_word(w, gap, d + tail);
    lemma_word_behind(d, tail);
    assert(words(line)[1] == d);
}

/// Total and available memory and swap space are what their own lines say, in
/// whatever order they come and whatever other lines there are.
pub proof fn lemma_memory(
    before: Seq<Seq<char>>,
    m: MemSnapshot,
    after: MemSnapshot,
    gap: Seq<char>,
    n: u64,
    tail: Seq<char>,
)
    requires
        gap.len() > 0,
        blank(gap),
        tail.len() == 0 || is_space(tail[0]),
        mem_of(m, before),
    ensures
        mem_of(after, before.push(mem_row("MemTotal"@, gap, n, tail))) ==> after == (MemSnapshot {
            total_kib: n,
            ..m
        }),
        mem_of(after, before.push(mem_row("MemAvailable"@, gap, n, tail))) ==> after == (
        MemSnapshot { avail_kib: n, ..m }),
        mem_of(after, before.push(mem_row("SwapTotal"@, gap, n, tail))) ==> after == (MemSnapshot {
            swap_total_kib: n,
            ..m
        }),
        mem_of(after, before.push(mem_row("SwapFree"@, gap, n, tail))) ==> after == (MemSnapshot {
            swap_free_kib: n,
            ..m
        }),
        mem_of(after, before.push(mem_row("MemFree"@, gap, n, tail))) ==> after == m,
        mem_of(after, Seq::empty()) ==> after == (MemSnapshot {
            total_kib: 0,
            avail_kib: 0,
            swap_total_kib: 0,
            swap_free_kib: 0,
        }),
{
    reveal_strlit("MemTotal");
    reveal_strlit("MemAvailable");
    reveal_strlit("SwapTotal");
    reveal_strlit("SwapFree");
    reveal_strlit("MemFree");
    lemma_keys("MemTotal"@, gap, n, tail);
    lemma_keys("MemAvailable"@, gap, n, tail);
    lemma_keys("SwapTotal"@, gap, n, tail);
    lemma_keys("SwapFree"@, gap, n, tail);
    lemma_keys("MemFree"@, gap, n, tail);
    let f = |k: Seq<char>| before.push(mem_row(k, gap, n, tail));
    assert(f("MemTotal"@).drop_last() =~= before);
    assert(f("MemAvailable"@).drop_last() =~= before);
    assert(f("SwapTotal"@).drop_last() =~= before);
    assert(f("SwapFree"@).drop_last() =~= before);
    assert(f("MemFree"@).drop_last() =~= before);
    assert("MemTotal"@.len() == 8 && "MemAvailable"@.len() == 12 && "SwapTotal"@.len() == 9
        && "SwapFree"@.len() == 8 && "MemFree"@.len() == 7);
    assert("MemTotal"@[0] == 'M' && "SwapFree"@[0] == 'S');
}

proof fn lemma_keys(key: Seq<char>, gap: Seq<char>, n: u64, tail: Seq<char>)
    requires
        key.len() > 0,
        forall|i: int| 0 <= i < key.len() ==> 'A' <= #[trigger] key[i] <= 'z',
        gap.len() > 0,
        blank(gap),
        tail.len() == 0 || is_space(tail[0]),
    ensures
        mem_entry(mem_row(key, gap, n, tail), key) == Some(n as int),
        forall|other: Seq<char>|
            other != key ==> (#[trigger] mem_entry(mem_row(key, gap, n, tail), other)) is None,
{
    assert(unbroken(key)) by {
        assert forall|i: int| 0 <= i < key.len() implies !is_space(#[trigger] key[i]) by {
            assert('A' <= key[i] <= 'z');
        }
    }
    assert(!key.contains(':')) by {
        if key.contains(':') {
            let i = choose|i: int| 0 <= i < key.len() && key[i] == ':';
            assert('A' <= key[i] <= 'z');
        }
    }
    assert forall|other: Seq<char>| other != key implies (#[trigger] mem_entry(
        mem_row(key, gap, n, tail),
        other,
    )) is None by {
        lemma_mem_row(key, gap, n, tail, other);
    }
    lemma_mem_row(key, gap, n, tail, Seq::empty());
}

/// Memory is in use as far as it is not available, and swap space as far as it is
/// not free; none is where more is available than there is.
pub proof fn lemma_memory_in_use(m: MemSnapshot, used: u64, swapped: u64)
    ensures
        m.total_kib == m.avail_kib + used ==> m.in_use() == used,
        m.swap_total_kib == m.swap_free_kib + swapped ==> m.swapped() == swapped,
        m.avail_kib > m.total_kib ==> m.in_use() == 0,
        m.swap_free_kib > m.swap_total_kib ==> m.swapped() == 0,
{
}

// ---------- uptime and load ----------

/// The words of a text stand at their places, and a decimal fraction among them is
/// taken as it is; what is missing or no number is zero.
pub proof fn lemma_word_of_text(ws: Seq<Seq<char>>, i: int)
    requires
        all_words(ws),
    ensures
        0 <= i < ws.len() ==> word_at(Some(spaced(ws)), i) == Some(ws[i]),
        0 <= i < ws.len() && is_decimal(ws[i]) ==> decimal_or_zero(word_at(Some(spaced(ws)), i)) == (
        ValueModel::Decimal { text: ws[i], divisor: 1 }),
        0 <= i < ws.len() && !is_decimal(ws[i]) ==> decimal_or_zero(word_at(Some(spaced(ws)), i))
            == (ValueModel::Count { n: 0, divisor: 1 }),
        i >= ws.len() ==> decimal_or_zero(word_at(Some(spaced(ws)), i)) == (ValueModel::Count {
            n: 0,
            divisor: 1,
        }),
        decimal_or_zero(word_at(None, i)) == (ValueModel::Count { n: 0, divisor: 1 }),
{
    lemma_spaced(ws);
}

// ---------- pressure ----------

/// A line of pressure, as in `some avg10=0.12 avg60=0.00 avg300=0.00 total=5`.
pub open spec fn pressure_row(kind: Seq<char>, average: Seq<char>, tail: Seq<char>) -> Seq<char> {
    kind + " avg10="@ + average + tail
}

/// A line of pressure gives its average over ten seconds in percent: under the name
/// of the resource where some tasks waited, and with `_full` behind that name where
/// all of them did.
pub proof fn lemma_pressure(name: Seq<char>, average: Seq<char>, tail: Seq<char>)
    requires
        average.len() > 0,
        unbroken(average),
        is_decimal(average),
        tail.len() == 0 || is_space(tail[0]),
    ensures
        psi_line(name, pressure_row("some"@, average, tail)) == Some(
            ReadingModel {
                label: name,
                value: ValueModel::Decimal { text: average, divisor: 1 },
                unit: Unit::Pct,
            },
        ),
        psi_line(name, pressure_row("full"@, average, tail)) == Some(
            ReadingModel {
                label: name + "_full"@,
                value: ValueModel::Decimal { text: average, divisor: 1 },
                unit: Unit::Pct,
            },
        ),
{
    reveal_strlit("some");
    reveal_strlit("full");
    reveal_strlit(" avg10=");
    reveal_strlit("avg10=");
    lemma_pressure_row("some"@, average, tail);
    lemma_pressure_row("full"@, average, tail);
    assert("some"@[0] == 's' && "full"@[0] == 'f');
}

proof fn lemma_pressure_row(kind: Seq<char>, average: Seq<char>, tail: Seq<char>)
    requires
        !kind.contains(' '),
        average.len() > 0,
        unbroken(average),
        tail.len() == 0 || is_space(tail[0]),
    ensures
        cut(pressure_row(kind, average, tail), ' ') == Some(
            (kind, "avg10="@ + average + tail),
        ),
        first(words("avg10="@ + average + tail), ten_second_average()) == Some(average),
{
    reveal_strlit(" avg10=");
    reveal_strlit("avg10=");
    let w = "avg10="@ + average;
    assert(pressure_row(kind, average, tail) =~= kind + seq![' '] + (w + tail));
    lemma_cut_at(kind, ' ', w + tail);
    assert forall|i: int| 0 <= i < w.len() implies !is_space(#[trigger] w[i]) by {
        if i >= 6 {
            assert(w[i] == average[i - 6]);
        }
    }
    lemma_word_behind(w, tail);
    lemma_prefix_and_suffix("avg10="@, average);
    let all = words(w + tail);
    assert(all[0] == w);
    lemma_first_at(all, ten_second_average(), 0);
}

/// Every line of pressure is read, in the order of the lines; a file that could not
/// be read gives nothing.
pub proof fn lemma_pressure_file(name: Seq<char>, some: Seq<char>, full: Seq<char>)
    ensures
        psi_file(name, None).len() == 0,
        forall|t: Seq<char>|
            lines(t) == seq![some, full] && psi_line(name, some) is Some && psi_line(name, full)
                is Some ==> #[trigger] psi_file(name, Some(t)) == seq![
                psi_line(name, some)->0,
                psi_line(name, full)->0,
            ],
{
    assert forall|t: Seq<char>|
        lines(t) == seq![some, full] && psi_line(name, some) is Some && psi_line(name, full)
            is Some implies #[trigger] psi_file(name, Some(t)) == seq![
        psi_line(name, some)->0,
        psi_line(name, full)->0,
    ] by {
        lemma_kept_all(
            seq![some, full],
            psi_of(name),
            seq![psi_line(name, some)->0, psi_line(name, full)->0],
        );
    }
}

} // verus!
