//! Firmware: where the values stand in its table, and how its text files are read.
use vstd::prelude::*;

use crate::double::Double;
use crate::files::file_decimal;
use crate::firmware::{
    as_u32, clock_reading, core_fn, core_key, core_line, core_lines, core_number, core_part,
    core_reading_fn, core_slots, core_values, field_fn, field_list, scalar_fn, scalar_line,
    scalar_readings, single_finite, single_positive, single_zero, smu_chips, table_readings,
    word_at_offset, SmuFiles,
};
use crate::laws::double::lemma_cut_off;
use crate::laws::text::{blank, lemma_cut_at, lemma_trimmed, lemma_white_space, unbroken};
use crate::lists::{
    joined, kept, lemma_joined_step, lemma_kept_all, lemma_kept_both, lemma_kept_one,
    lemma_take_all, seen,
};
use crate::memory::lines_of;
use crate::model::{ReadingModel, Unit, ValueModel};
use crate::numbers::{dec2, is_decimal};
use crate::text::{before_any_letters, is_letter, is_space, lower, pieces};
use crate::traffic::as_chip;

verus! {

/// A value in the table.
pub open spec fn single(label: Seq<char>, bits: u32, divisor: u64, unit: Unit) -> ReadingModel<
    ValueModel,
> {
    ReadingModel { label, value: ValueModel::Single { bits, divisor }, unit }
}

/// The word at an offset is its four bytes, the least significant first.
pub proof fn lemma_word_in_the_table(raw: Seq<u8>, off: int, a: u8, b: u8, c: u8, d: u8)
    requires
        0 <= off,
        off + 4 <= raw.len(),
        raw.subrange(off, off + 4) == seq![a, b, c, d],
    ensures
        word_at_offset(raw, off) == a + 256 * b + 65_536 * c + 16_777_216 * d,
{
    let s = raw.subrange(off, off + 4);
    assert(s[0] == raw[off] && s[1] == raw[off + 1] && s[2] == raw[off + 2] && s[3] == raw[off + 3]);
}

/// A single with an exponent of all ones is not finite; one without any bit but the
/// sign is a zero.
pub proof fn lemma_single(minus: bool, exponent: u32, fraction: u32)
    requires
        exponent < 256,
        fraction < 8_388_608,
    ensures
        ({
            let bits = ((if minus {
                2_147_483_648int
            } else {
                0
            }) + 8_388_608 * exponent + fraction) as u32;
            &&& single_finite(bits) <==> exponent != 255
            &&& single_zero(bits) <==> exponent == 0 && fraction == 0
            &&& single_positive(bits) <==> !minus && exponent != 255 && !(exponent == 0 && fraction
                == 0)
        }),
{
}

/// Whether the word at the offset is a finite number other than zero.
pub open spec fn told(raw: Seq<u8>, off: int) -> bool {
    single_finite(word_at_offset(raw, off)) && !single_zero(word_at_offset(raw, off))
}

/// Where the fields stand in the table, what they are called, and what they count.
pub open spec fn thirteen(raw: Seq<u8>) -> Seq<ReadingModel<ValueModel>> {
    seq![
        single("stapm_limit"@, word_at_offset(raw, 0), 1, Unit::Watts),
        single("stapm"@, word_at_offset(raw, 4), 1, Unit::Watts),
        single("fast_limit"@, word_at_offset(raw, 8), 1, Unit::Watts),
        single("fast"@, word_at_offset(raw, 12), 1, Unit::Watts),
        single("slow_limit"@, word_at_offset(raw, 16), 1, Unit::Watts),
        single("slow"@, word_at_offset(raw, 20), 1, Unit::Watts),
        single("apu_slow_limit"@, word_at_offset(raw, 24), 1, Unit::Watts),
        single("tctl_limit"@, word_at_offset(raw, 88), 1, Unit::TempC),
        single("tctl"@, word_at_offset(raw, 92), 1, Unit::TempC),
        single("psi0_limit"@, word_at_offset(raw, 64), 1, Unit::Amps),
        single("psi0soc_limit"@, word_at_offset(raw, 72), 1, Unit::Amps),
        single("gfx_clk"@, word_at_offset(raw, 1460), 1, Unit::Mhz),
        single("gfx_volt"@, word_at_offset(raw, 1448), 1000, Unit::Volts),
    ]
}

/// Each field gives its value, or nothing where that is a zero or not finite.
pub proof fn lemma_field(raw: Seq<u8>, i: int)
    requires
        0 <= i < 13,
    ensures
        field_list().len() == 13,
        ({
            let bits = thirteen(raw)[i].value->Single_bits;
            single_finite(bits) && !single_zero(bits)
        }) ==> field_fn(raw)(field_list()[i]) == Some(thirteen(raw)[i]),
        !({
            let bits = thirteen(raw)[i].value->Single_bits;
            single_finite(bits) && !single_zero(bits)
        }) ==> field_fn(raw)(field_list()[i]) is None,
{
}

/// A table of at least 1464 bytes that is full gives thirteen values, in their order;
/// a shorter one gives none.
pub proof fn lemma_fields(raw: Seq<u8>)
    ensures
        raw.len() < 1464 ==> table_readings(raw).len() == 0,
        1464 <= raw.len() < 3244 && told(raw, 0) && told(raw, 4) && told(raw, 8) && told(raw, 12)
            && told(raw, 16) && told(raw, 20) && told(raw, 24) && told(raw, 88) && told(raw, 92)
            && told(raw, 64) && told(raw, 72) && told(raw, 1460) && told(raw, 1448)
            ==> table_readings(raw) == thirteen(raw),
        raw.len() >= 3244 ==> table_readings(raw) == kept(field_list(), field_fn(raw)) + joined(
            core_slots(),
            core_fn(raw),
        ),
{
    if told(raw, 0) && told(raw, 4) && told(raw, 8) && told(raw, 12) && told(raw, 16) && told(
        raw,
        20,
    ) && told(raw, 24) && told(raw, 88) && told(raw, 92) && told(raw, 64) && told(raw, 72) && told(
        raw,
        1460,
    ) && told(raw, 1448) {
        let r = thirteen(raw);
        assert forall|i: int| 0 <= i < 13 implies field_fn(raw)(#[trigger] field_list()[i]) == Some(
            r[i],
        ) by {
            lemma_field(raw, i);
        }
        lemma_kept_all(field_list(), field_fn(raw), r);
    }
}

/// The ten cores of the table: their numbers, and their places in its arrays.
pub proof fn lemma_cores(raw: Seq<u8>)
    ensures
        joined(core_slots(), core_fn(raw)) == core_values(raw, (0, 0)) + core_values(raw, (1, 1))
            + core_values(raw, (2, 2)) + core_values(raw, (3, 3)) + core_values(raw, (8, 4))
            + core_values(raw, (9, 6)) + core_values(raw, (10, 7)) + core_values(raw, (11, 9))
            + core_values(raw, (12, 10)) + core_values(raw, (13, 11)),
{
    let (all, f) = (core_slots(), core_fn(raw));
    assert(all.len() == 10);
    lemma_take_all(all);
    let none = Seq::<ReadingModel<ValueModel>>::empty();
    assert(joined(all.take(0), f) =~= none);
    lemma_joined_step(all, f, 0);
    lemma_joined_step(all, f, 1);
    lemma_joined_step(all, f, 2);
    lemma_joined_step(all, f, 3);
    lemma_joined_step(all, f, 4);
    lemma_joined_step(all, f, 5);
    lemma_joined_step(all, f, 6);
    lemma_joined_step(all, f, 7);
    lemma_joined_step(all, f, 8);
    lemma_joined_step(all, f, 9);
    assert(none + core_values(raw, (0, 0)) =~= core_values(raw, (0, 0)));
}

/// What a core gives: its clock in quarters of a MHz, its power and its voltage, each
/// from an array of its own with four bytes for a core; nothing where a value is not
/// above zero.
pub proof fn lemma_core(raw: Seq<u8>, number: u32, place: usize)
    ensures
        ({
            let name = "C"@ + dec2(number as nat);
            let clock = word_at_offset(raw, 3100 + 4 * place);
            let power = word_at_offset(raw, 2524 + 4 * place);
            let voltage = word_at_offset(raw, 3196 + 4 * place);
            let r = core_values(raw, (number, place));
            &&& single_positive(clock) && single_positive(power) && single_positive(voltage)
                ==> r == seq![
                single(name + "_clk"@, clock, 4, Unit::Mhz),
                single(name + "_w"@, power, 1, Unit::Watts),
                single(name + "_vid"@, voltage, 1, Unit::Volts),
            ]
            &&& !single_positive(clock) && single_positive(power) && single_positive(voltage)
                ==> r == seq![
                single(name + "_w"@, power, 1, Unit::Watts),
                single(name + "_vid"@, voltage, 1, Unit::Volts),
            ]
            &&& single_positive(clock) && !single_positive(power) && single_positive(voltage)
                ==> r == seq![
                single(name + "_clk"@, clock, 4, Unit::Mhz),
                single(name + "_vid"@, voltage, 1, Unit::Volts),
            ]
            &&& single_positive(clock) && single_positive(power) && !single_positive(voltage)
                ==> r == seq![
                single(name + "_clk"@, clock, 4, Unit::Mhz),
                single(name + "_w"@, power, 1, Unit::Watts),
            ]
            &&& !single_positive(clock) && !single_positive(power) && !single_positive(voltage)
                ==> r.len() == 0
        }),
{
    let name = "C"@ + dec2(number as nat);
    let clock = word_at_offset(raw, 3100 + 4 * place);
    let power = word_at_offset(raw, 2524 + 4 * place);
    let voltage = word_at_offset(raw, 3196 + 4 * place);
    let r = core_values(raw, (number, place));
    assert(single_positive(clock) && single_positive(power) && single_positive(voltage) ==> r =~= seq![
        single(name + "_clk"@, clock, 4, Unit::Mhz),
        single(name + "_w"@, power, 1, Unit::Watts),
        single(name + "_vid"@, voltage, 1, Unit::Volts),
    ]);
    assert(!single_positive(clock) && single_positive(power) && single_positive(voltage) ==> r
        =~= seq![
        single(name + "_w"@, power, 1, Unit::Watts),
        single(name + "_vid"@, voltage, 1, Unit::Volts),
    ]);
    assert(single_positive(clock) && !single_positive(power) && single_positive(voltage) ==> r
        =~= seq![
        single(name + "_clk"@, clock, 4, Unit::Mhz),
        single(name + "_vid"@, voltage, 1, Unit::Volts),
    ]);
    assert(single_positive(clock) && single_positive(power) && !single_positive(voltage) ==> r
        =~= seq![
        single(name + "_clk"@, clock, 4, Unit::Mhz),
        single(name + "_w"@, power, 1, Unit::Watts),
    ]);
}

// ---------- text files ----------

/// A value that is told in a text.
pub open spec fn decimal(label: Seq<char>, text: Seq<char>, divisor: u64, unit: Unit) -> ReadingModel<
    ValueModel,
> {
    ReadingModel { label, value: ValueModel::Decimal { text, divisor }, unit }
}

/// A line on power or on a current, as in `PPT: 45000 mW`, is a label and a value in
/// thousandths; the letters behind the number do not matter.
pub proof fn lemma_scalar_line(
    front: Seq<char>,
    label: Seq<char>,
    gap: Seq<char>,
    number: Seq<char>,
    space: Seq<char>,
    letters: Seq<char>,
    unit: Unit,
)
    requires
        blank(front),
        label.len() > 0,
        !label.contains(':'),
        !is_space(label[0]) && !is_space(label.last()),
        blank(gap),
        is_decimal(number),
        number.len() > 0,
        !is_space(number[0]) && !is_space(number.last()),
        !is_letter(number.last()),
        (number.last() as u32) < 128,
        blank(space),
        forall|i: int| 0 <= i < letters.len() ==> is_letter(#[trigger] letters[i]),
    ensures
        scalar_line(front + label + ":"@ + gap + number + space + letters, unit) == Some(
            decimal(label, number, 1000, unit),
        ),
{
    reveal_strlit(":");
    let none = Seq::<char>::empty();
    let head = front + label;
    let value = number + space + letters;
    let line = front + label + ":"@ + gap + number + space + letters;
    assert(line =~= head + seq![':'] + (gap + value));
    assert(!head.contains(':')) by {
        if head.contains(':') {
            let i = choose|i: int| 0 <= i < head.len() && head[i] == ':';
            if i < front.len() {
                assert(front[i] == ':');
            } else {
                assert(label[i - front.len()] == ':');
            }
        }
    }
    lemma_cut_at(head, ':', gap + value);
    lemma_trimmed(front, label, none);
    assert(front + label + none =~= head);
    if letters.len() > 0 {
        lemma_white_space(letters.last());
        assert(value.last() == letters.last());
        lemma_trimmed(gap, value, none);
        assert(gap + value + none =~= gap + value);
        if space.len() > 0 {
            lemma_white_space(space.last());
        }
        lemma_letters_off(number + space, letters);
        assert(number + space + letters =~= value);
        lemma_trimmed(none, number, space);
        assert(none + number + space =~= number + space);
    } else {
        assert(gap + number + space =~= gap + value);
        lemma_trimmed(gap, number, space);
        lemma_letters_off(number, none);
        assert(number + none =~= number);
        lemma_trimmed(none, number, none);
    }
}

proof fn lemma_letters_off(t: Seq<char>, letters: Seq<char>)
    requires
        t.len() > 0,
        !is_letter(t.last()),
        (t.last() as u32) < 128,
        forall|i: int| 0 <= i < letters.len() ==> is_letter(#[trigger] letters[i]),
    ensures
        before_any_letters(t + letters) == t,
    decreases letters.len(),
{
    if letters.len() > 0 {
        lemma_letters_off(t, letters.drop_last());
        assert((t + letters).drop_last() =~= t + letters.drop_last());
        assert((t + letters).last() == letters[letters.len() - 1]);
    } else {
        assert(t + letters =~= t);
    }
}

/// What a part of a line on a core says: a key and a number, with a colon between
/// them. Keys are in whatever case.
pub proof fn lemma_core_part(front: Seq<char>, key: Seq<char>, gap: Seq<char>, number: Seq<char>)
    requires
        blank(front),
        key.len() > 0,
        unbroken(key),
        !key.contains(':'),
        blank(gap),
        is_decimal(number),
        number.len() > 0,
        unbroken(number),
    ensures
        core_part(front + key + ":"@ + gap + number) == Some((lower(key), number)),
{
    reveal_strlit(":");
    let none = Seq::<char>::empty();
    let part = front + key + ":"@ + gap + number;
    assert(part =~= (front + key) + seq![':'] + (gap + number));
    assert(!(front + key).contains(':')) by {
        if (front + key).contains(':') {
            let i = choose|i: int| 0 <= i < (front + key).len() && (front + key)[i] == ':';
            if i < front.len() {
                assert(front[i] == ':');
            } else {
                assert(key[i - front.len()] == ':');
            }
        }
    }
    lemma_cut_at(front + key, ':', gap + number);
    assert(!is_space(key[0]) && !is_space(key[key.len() - 1]));
    assert(!is_space(number[0]) && !is_space(number[number.len() - 1]));
    lemma_trimmed(front, key, none);
    assert(front + key + none =~= front + key);
    lemma_trimmed(gap, number, none);
    assert(gap + number + none =~= gap + number);
}

/// The seven keys that are known, and what they count.
pub proof fn lemma_core_keys(key: Seq<char>)
    ensures
        key == "tmp"@ || key == "temp"@ ==> core_key(key) == Some(("Temp"@, Unit::TempC)),
        key == "vid"@ || key == "voltage"@ ==> core_key(key) == Some(("VID"@, Unit::Volts)),
        key == "clock"@ || key == "clk"@ || key == "fid"@ ==> core_key(key) == Some(
            ("Clock"@, Unit::Mhz),
        ),
        key != "tmp"@ && key != "temp"@ && key != "vid"@ && key != "voltage"@ && key != "clock"@
            && key != "clk"@ && key != "fid"@ ==> core_key(key) is None,
{
    reveal_strlit("tmp");
    reveal_strlit("temp");
    reveal_strlit("vid");
    reveal_strlit("voltage");
    reveal_strlit("clock");
    reveal_strlit("clk");
    reveal_strlit("fid");
    assert("tmp"@.len() == 3 && "temp"@.len() == 4 && "vid"@.len() == 3 && "voltage"@.len() == 7
        && "clock"@.len() == 5 && "clk"@.len() == 3 && "fid"@.len() == 3);
    assert("tmp"@[0] == 't' && "vid"@[0] == 'v' && "clk"@[0] == 'c' && "fid"@[0] == 'f');
}

/// Of the parts of a line the last that has the key `core` names it; the other parts
/// do not matter to that.
pub proof fn lemma_core_is_named(
    parts: Seq<Seq<char>>,
    part: Seq<char>,
    key: Seq<char>,
    text: Seq<char>,
)
    requires
        core_part(part) == Some((key, text)),
    ensures
        core_number(Seq::empty()) is None,
        key == "core"@ ==> core_number(parts.push(part)) == Some(text),
        key != "core"@ ==> core_number(parts.push(part)) == core_number(parts),
{
    assert(parts.push(part).drop_last() =~= parts);
}

/// A line on a core gives a reading for each part with a known key, under the number
/// of the core in two digits; without that number it gives none.
pub proof fn lemma_core_line(
    line: Seq<char>,
    parts: Seq<Seq<char>>,
    part: Seq<char>,
    number: Double,
    key: Seq<char>,
    text: Seq<char>,
    tail: Seq<char>,
    unit: Unit,
)
    requires
        pieces(line, ',') == parts.push(part),
        core_number(parts) is Some,
        core_part(part) == Some((key, text)),
        core_key(key) == Some((tail, unit)),
    ensures
        core_line(line, Some(number)) == kept(parts, core_reading_fn(number)).push(
            decimal("C"@ + dec2(as_u32(number)) + "_"@ + tail, text, 1, unit),
        ),
        core_line(line, None).len() == 0,
{
    reveal_strlit("core");
    lemma_core_keys(key);
    reveal_strlit("temp");
    assert("core"@.len() == 4 && "core"@[0] == 'c');
    assert("temp"@.len() == 4 && "temp"@[0] == 't');
    reveal_strlit("tmp");
    reveal_strlit("vid");
    reveal_strlit("voltage");
    reveal_strlit("clock");
    reveal_strlit("clk");
    reveal_strlit("fid");
    assert("tmp"@.len() == 3 && "vid"@.len() == 3 && "voltage"@.len() == 7 && "clock"@.len() == 5
        && "clk"@.len() == 3 && "fid"@.len() == 3);
    lemma_core_is_named(parts, part, key, text);
    let f = core_reading_fn(number);
    lemma_kept_both(parts, seq![part], f);
    lemma_kept_one(part, f);
    assert(parts + seq![part] =~= parts.push(part));
    assert(core_line(line, Some(number)) =~= kept(parts, f).push(
        decimal("C"@ + dec2(as_u32(number)) + "_"@ + tail, text, 1, unit),
    ));
}

/// The number of a core is what stands before the point, and at most the largest
/// word.
pub proof fn lemma_core_number(d: Double)
    ensures
        d.cut_off() <= 4_294_967_295 ==> as_u32(d) == d.cut_off(),
        d.cut_off() > 4_294_967_295 ==> as_u32(d) == 4_294_967_295,
{
    lemma_cut_off(d);
}

/// Each line on a core goes with the number at its place.
pub proof fn lemma_core_lines(
    ls: Seq<Seq<char>>,
    numbers: Seq<Option<Double>>,
    line: Seq<char>,
    number: Option<Double>,
)
    requires
        ls.len() == numbers.len(),
    ensures
        core_lines(ls.push(line), numbers.push(number), ls.len() as int + 1) == core_lines(
            ls,
            numbers,
            ls.len() as int,
        ) + core_line(line, number),
{
    lemma_core_lines_before(ls, numbers, line, number, ls.len() as int);
}

proof fn lemma_core_lines_before(
    ls: Seq<Seq<char>>,
    numbers: Seq<Option<Double>>,
    line: Seq<char>,
    number: Option<Double>,
    n: int,
)
    requires
        ls.len() == numbers.len(),
        0 <= n <= ls.len(),
    ensures
        core_lines(ls.push(line), numbers.push(number), n) == core_lines(ls, numbers, n),
    decreases n,
{
    if n > 0 {
        lemma_core_lines_before(ls, numbers, line, number, n - 1);
    }
}

/// The files of the module: two clocks in MHz, the lines on power in watts, and those
/// on currents in amperes are one chip, and the lines on cores another.
pub proof fn lemma_module_files(f: SmuFiles, numbers: Seq<Option<Double>>, a: Seq<char>, b: Seq<char>)
    ensures
        scalar_readings(f) == clock_reading("mclk"@, seen(f.mclk)) + clock_reading(
            "fclk"@,
            seen(f.fclk),
        ) + kept(lines_of(seen(f.power)), scalar_fn(Unit::Watts)) + kept(
            lines_of(seen(f.currents)),
            scalar_fn(Unit::Amps),
        ),
        file_decimal(seen(f.mclk)) == Some(a) ==> clock_reading("mclk"@, seen(f.mclk)) == seq![
            decimal("mclk"@, a, 1, Unit::Mhz),
        ],
        file_decimal(seen(f.fclk)) == Some(b) ==> clock_reading("fclk"@, seen(f.fclk)) == seq![
            decimal("fclk"@, b, 1, Unit::Mhz),
        ],
        file_decimal(seen(f.mclk)) is None ==> clock_reading("mclk"@, seen(f.mclk)).len() == 0,
        smu_chips(f, numbers) == as_chip("smu"@, scalar_readings(f)) + as_chip(
            "smu-cores"@,
            core_lines(lines_of(seen(f.cores)), numbers, lines_of(seen(f.cores)).len() as int),
        ),
{
}

} // verus!
