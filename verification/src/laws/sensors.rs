//! The chips of hwmon: which files are read, and in what unit they tell.
use vstd::prelude::*;

use crate::files::{file_decimal, file_text};
use crate::hwmon::{
    chip_fn, chip_of, held, kind_name, lemma_kinds_in_order_of_names, lists, machine_chips,
    probe_of, probed, probed_all, probed_chip, probed_chips, probes_of, slot_name, slot_of,
    slots_of, ChipFiles, ChipFilesModel, ChipProbe, Kind, ProbeModel, ReadingProbe, Slot,
};
use crate::laws::text::{
    lemma_number_reads_back, lemma_prefix_and_suffix, lemma_tails, lemma_written_number,
};
use crate::lists::{lemma_kept_one, listed, seen, views};
use crate::model::{ReadingModel, Unit, ValueModel};
use crate::numbers::dec;
use crate::order::{lemma_sorted, placed, precedes, sorted, Labelled};
use crate::text::{before_digits, starts};

verus! {

/// What a file of a chip gives: `label` is the text of the file with its label,
/// and `text` what the file itself holds.
pub open spec fn told(file: Seq<char>, label: Option<Seq<char>>, text: Option<Seq<char>>) -> Option<
    ReadingModel<ValueModel>,
> {
    match slot_of(file) {
        Some(x) => probed(probe_of(x, label), text),
        None => None,
    }
}

/// A reading of so much, in a unit of which the file counts parts.
pub open spec fn parts_of(label: Seq<char>, number: Seq<char>, divisor: u64, unit: Unit) -> Option<
    ReadingModel<ValueModel>,
> {
    Some(ReadingModel { label, value: ValueModel::Decimal { text: number, divisor }, unit })
}

proof fn lemma_input_file(name: Seq<char>, kind: Kind, n: u32)
    requires
        name == kind_name(kind),
        kind != Kind::Pwm,
    ensures
        slot_of(name + dec(n as nat) + "_input"@) == Some(Slot { kind, n }),
        slot_name(Slot { kind, n }) == name + dec(n as nat),
{
    reveal_strlit("curr");
    reveal_strlit("energy");
    reveal_strlit("fan");
    reveal_strlit("in");
    reveal_strlit("power");
    reveal_strlit("pwm");
    reveal_strlit("temp");
    reveal_strlit("_input");
    let d = dec(n as nat);
    let base = name + d;
    let file = base + "_input"@;
    lemma_written_number(n as nat);
    lemma_number_reads_back(n as nat);
    assert(file[0] == name[0] && file[1] == name[1]);
    assert(file.take(3)[1] == file[1] && file.take(3)[0] == file[0]);
    assert("pwm"@[0] == 'p' && "pwm"@[1] == 'w');
    assert(!starts(file, "pwm"@));
    lemma_prefix_and_suffix("_input"@, base);
    lemma_tails(name, d, 'x');
    assert(before_digits(base) == name);
    assert(base.skip(name.len() as int) =~= d);
    assert("temp"@.len() == 4 && "in"@.len() == 2 && "curr"@.len() == 4 && "power"@.len() == 5
        && "fan"@.len() == 3 && "energy"@.len() == 6);
    assert("temp"@[0] == 't' && "curr"@[0] == 'c');
}

/// The files of a chip tell in the parts that the kernel counts in: temperatures in
/// thousandths of a degree, voltages in thousandths of a volt, currents in
/// thousandths of an ampere, powers in millionths of a watt, energies in millionths
/// of a joule, fans in turns per minute. A reading is called by its label, or by its
/// kind and number where it has none.
pub proof fn lemma_parts(
    n: u32,
    label: Option<Seq<char>>,
    name: Seq<char>,
    text: Option<Seq<char>>,
    number: Seq<char>,
)
    requires
        file_text(label) == Some(name),
        file_decimal(text) == Some(number),
    ensures
        ({
            let d = dec(n as nat);
            &&& told("temp"@ + d + "_input"@, label, text) == parts_of(name, number, 1000, Unit::TempC)
            &&& told("in"@ + d + "_input"@, label, text) == parts_of(name, number, 1000, Unit::Volts)
            &&& told("curr"@ + d + "_input"@, label, text) == parts_of(name, number, 1000, Unit::Amps)
            &&& told("power"@ + d + "_input"@, label, text) == parts_of(
                name,
                number,
                1_000_000,
                Unit::Watts,
            )
            &&& told("energy"@ + d + "_input"@, label, text) == parts_of(
                name,
                number,
                1_000_000,
                Unit::Joules,
            )
            &&& told("fan"@ + d + "_input"@, label, text) == parts_of(name, number, 1, Unit::Rpm)
            &&& told("temp"@ + d + "_input"@, None, text) == parts_of(
                "temp"@ + d,
                number,
                1000,
                Unit::TempC,
            )
            &&& told("in"@ + d + "_input"@, None, text) == parts_of("in"@ + d, number, 1000, Unit::Volts)
            &&& told("curr"@ + d + "_input"@, None, text) == parts_of(
                "curr"@ + d,
                number,
                1000,
                Unit::Amps,
            )
            &&& told("power"@ + d + "_input"@, None, text) == parts_of(
                "power"@ + d,
                number,
                1_000_000,
                Unit::Watts,
            )
            &&& told("energy"@ + d + "_input"@, None, text) == parts_of(
                "energy"@ + d,
                number,
                1_000_000,
                Unit::Joules,
            )
            &&& told("fan"@ + d + "_input"@, None, text) == parts_of("fan"@ + d, number, 1, Unit::Rpm)
        }),
{
    lemma_input_file("temp"@, Kind::Temp, n);
    lemma_input_file("in"@, Kind::In, n);
    lemma_input_file("curr"@, Kind::Curr, n);
    lemma_input_file("power"@, Kind::Power, n);
    lemma_input_file("energy"@, Kind::Energy, n);
    lemma_input_file("fan"@, Kind::Fan, n);
}

/// A duty cycle is told in 255ths under the name of its own file, whatever label
/// there is.
pub proof fn lemma_duty_cycle(
    n: u32,
    label: Option<Seq<char>>,
    text: Option<Seq<char>>,
    number: Seq<char>,
)
    requires
        file_decimal(text) == Some(number),
    ensures
        told("pwm"@ + dec(n as nat), label, text) == parts_of(
            "pwm"@ + dec(n as nat),
            number,
            255,
            Unit::Pct,
        ),
        slot_of("pwm"@ + dec(n as nat)) == Some(Slot { kind: Kind::Pwm, n }),
{
    lemma_prefix_and_suffix("pwm"@, dec(n as nat));
    lemma_number_reads_back(n as nat);
}

/// The file that is read is the one that was found, and a file that holds no number
/// gives no reading.
pub proof fn lemma_file_is_read(n: u32, label: Option<Seq<char>>, file: Seq<char>)
    ensures
        ({
            let d = dec(n as nat);
            &&& file == "temp"@ + d + "_input"@ || file == "in"@ + d + "_input"@ || file == "curr"@ + d
                + "_input"@ || file == "power"@ + d + "_input"@ || file == "energy"@ + d + "_input"@
                || file == "fan"@ + d + "_input"@ || file == "pwm"@ + d ==> slot_of(file) is Some
                && probe_of(slot_of(file)->0, label).file == file
            &&& told(file, label, None) is None
        }),
{
    lemma_input_file("temp"@, Kind::Temp, n);
    lemma_input_file("in"@, Kind::In, n);
    lemma_input_file("curr"@, Kind::Curr, n);
    lemma_input_file("power"@, Kind::Power, n);
    lemma_input_file("energy"@, Kind::Energy, n);
    lemma_input_file("fan"@, Kind::Fan, n);
    lemma_prefix_and_suffix("pwm"@, dec(n as nat));
    lemma_number_reads_back(n as nat);
}

/// A file that neither ends in `_input` nor begins with `pwm` holds no value.
pub proof fn lemma_other_files(file: Seq<char>)
    requires
        file.len() < 3 || file.take(3) != "pwm"@,
        file.len() < 6 || file.skip(file.len() - 6) != "_input"@,
    ensures
        slot_of(file) is None,
{
    reveal_strlit("pwm");
    reveal_strlit("_input");
}

/// The directory of a chip is what its own files say.
pub proof fn lemma_chip_files(d: ChipFiles, i: int)
    requires
        0 <= i < d.labels@.len(),
    ensures
        d@.dir == d.dir@,
        d@.name == seen(d.name),
        d@.files == views(d.files@),
        d@.labels.len() == d.labels@.len(),
        d@.labels[i] == seen(d.labels@[i]),
{
}

/// A chip is in its directory, under the name that its file holds.
pub proof fn lemma_chip_name(
    dir: Seq<char>,
    name: Option<Seq<char>>,
    slots: Seq<Slot>,
    labels: Seq<Option<Seq<char>>>,
)
    ensures
        file_text(name) is None || slots.len() == 0 <==> chip_of(dir, name, slots, labels) is None,
        chip_of(dir, name, slots, labels) matches Some(c) ==> c.dir == dir && Some(c.name)
            == file_text(name) && c.items.len() == slots.len(),
{
    lemma_sorted(
        probes_of(slots, labels),
        ReadingProbe::key(),
    );
}

/// Every value of a chip is read from the text at its own place.
pub proof fn lemma_values_stand_at_their_places(
    items: Seq<ProbeModel>,
    texts: Seq<Option<String>>,
    n: int,
)
    requires
        0 <= n <= items.len(),
        texts.len() == items.len(),
        forall|i: int| 0 <= i < items.len() ==> probed(#[trigger] items[i], seen(texts[i])) is Some,
    ensures
        probed_all(items, texts, n).len() == n,
        forall|i: int|
            0 <= i < n ==> Some(#[trigger] probed_all(items, texts, n)[i]) == probed(
                items[i],
                seen(texts[i]),
            ),
    decreases n,
{
    if n > 0 {
        lemma_values_stand_at_their_places(items, texts, n - 1);
        assert(probed(items[n - 1], seen(texts[n - 1])) is Some);
    }
}

/// Every chip is read from its own texts, under its own name; one that gives no
/// value is left out.
pub proof fn lemma_chips_stand_at_their_places(
    probes: Seq<ChipProbe>,
    p: ChipProbe,
    values: Seq<Vec<Option<String>>>,
)
    requires
        values.len() > probes.len(),
    ensures
        ({
            let n = probes.len() as int;
            let readings = probed_all(views(p.items@), values[n]@, p.items@.len() as int);
            let before = probed_chips(probes.push(p), values, n);
            let r = probed_chips(probes.push(p), values, n + 1);
            &&& readings.len() == 0 ==> r == before
            &&& readings.len() > 0 ==> r.len() == before.len() + 1 && r.drop_last() == before
                && r.last().name == p.name@ && r.last().readings == readings
        }),
{
    let n = probes.len() as int;
    let before = probed_chips(probes.push(p), values, n);
    let r = probed_chips(probes.push(p), values, n + 1);
    assert(probes.push(p)[n] == p);
    if probed_chip(p, values[n]@) is Some {
        assert(r.drop_last() =~= before);
    } else {
        assert(r =~= before);
    }
}

/// The files of a chip are listed by the names of their kinds, and those of one kind by
/// their numbers; every file that is read is listed, and no other.
pub proof fn lemma_listed(s: Seq<Slot>, files: Seq<Seq<char>>, i: int, j: int)
    requires
        lists(s, files),
        0 <= i < j < s.len(),
    ensures
        precedes(kind_name(s[i].kind), kind_name(s[j].kind)) || s[i].kind == s[j].kind && s[i].n
            < s[j].n,
        exists|k: int| 0 <= k < files.len() && slot_of(#[trigger] files[k]) == Some(s[i]),
        forall|k: int, x: Slot|
            0 <= k < files.len() && slot_of(#[trigger] files[k]) == Some(x) ==> #[trigger] s.contains(
                x,
            ),
{
    lemma_kinds_in_order_of_names(s[i].kind, s[j].kind);
    assert(s.contains(s[i]));
    assert(held(files, s[i]));
    assert forall|k: int, x: Slot|
        0 <= k < files.len() && slot_of(#[trigger] files[k]) == Some(x) implies #[trigger] s.contains(
        x,
    ) by {
        assert(held(files, x));
    }
}

/// The values of a chip are by their labels in order, each with the label at the place
/// of its file.
pub proof fn lemma_labels_stand_at_their_places(
    slots: Seq<Slot>,
    labels: Seq<Option<Seq<char>>>,
    i: int,
)
    requires
        0 <= i < slots.len(),
    ensures
        probes_of(slots, labels).len() == slots.len(),
        i < labels.len() ==> probes_of(slots, labels)[i] == probe_of(slots[i], labels[i]),
        i >= labels.len() ==> probes_of(slots, labels)[i] == probe_of(slots[i], None),
{
}

/// One directory is one chip, or none.
pub proof fn lemma_one_directory(d: ChipFilesModel)
    ensures
        machine_chips(seq![d]) == listed(chip_of(d.dir, d.name, slots_of(d.files), d.labels)),
{
    reveal_with_fuel(sorted, 2);
    reveal_with_fuel(placed, 2);
    let key = ChipFiles::key();
    assert(seq![d].drop_last() =~= Seq::<ChipFilesModel>::empty());
    assert(sorted(seq![d], key) =~= seq![d]);
    lemma_kept_one(d, chip_fn());
}

/// A value whose text is missing, or is no number, is left out.
pub proof fn lemma_missing_value(items: Seq<ProbeModel>, texts: Seq<Option<String>>, n: int)
    requires
        0 <= n < items.len(),
        n >= texts.len() || probed(items[n], seen(texts[n])) is None,
    ensures
        probed_all(items, texts, n + 1) == probed_all(items, texts, n),
{
    assert(probed_all(items, texts, n + 1) =~= probed_all(items, texts, n));
}

} // verus!
