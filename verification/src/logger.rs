//! The log: one line per snapshot, with the same columns in every line.
use vstd::prelude::*;

use crate::clock::TimeFormat;
use crate::double::Double;
use crate::lists::{joined, lemma_joined_step, lemma_take_all, put, seen, views};
use crate::model::{
    unit_column, BatterySnapshot, Chip, ChipModel, Fixed, Number, ReadingModel, Snapshot, Stamp,
    Unit, VramSnapshot,
};
use crate::numbers::{dec, dec2, dec2_text, dec_text, digit_char, right, written};
use crate::output::{Piece, PieceModel, Row};
use crate::text::{
    chars, digit, is_digit, is_letter, lemma_separated_comes_apart, letter, owned, pieces, same,
    separated,
};

verus! {

// ---------- columns ----------

/// A value of a snapshot, under the name of its column.
#[derive(Clone, Debug)]
pub struct Column {
    pub name: String,
    pub cell: Piece,
}

/// What a `Column` says.
#[verifier::ext_equal]
pub struct ColumnModel {
    pub name: Seq<char>,
    pub cell: PieceModel,
}

impl View for Column {
    type V = ColumnModel;

    open spec fn view(&self) -> ColumnModel {
        ColumnModel { name: self.name@, cell: self.cell@ }
    }
}

pub open spec fn number(name: Seq<char>, value: Number, decimals: u8) -> ColumnModel {
    ColumnModel {
        name,
        cell: PieceModel::Number { value: Fixed { value, decimals }, unit: ""@, width: 0 },
    }
}

pub open spec fn words(name: Seq<char>, s: Seq<char>) -> ColumnModel {
    ColumnModel { name, cell: PieceModel::Text(s) }
}

/// The column of a value that may be missing.
pub open spec fn maybe(name: Seq<char>, value: Option<Double>, decimals: u8) -> Seq<ColumnModel> {
    match value {
        Some(v) => seq![number(name, Number::Real(v), decimals)],
        None => Seq::empty(),
    }
}

/// The character, or an underscore in place of what is no ASCII letter or digit.
pub open spec fn sane(c: char) -> char {
    if is_letter(c) || is_digit(c) {
        c
    } else {
        '_'
    }
}

pub open spec fn sanitized(s: Seq<char>) -> Seq<char> {
    s.map_values(|c: char| sane(c))
}

pub fn sanitize(s: &str) -> (r: String)
    ensures
        r@ == sanitized(s@),
{
    let t = chars(s);
    let mut out = String::new();
    let mut i: usize = 0;
    while i < t.len()
        invariant
            i <= t.len(),
            t@ == s@,
            out@ =~= sanitized(t@.take(i as int)),
        decreases t.len() - i,
    {
        let c = t[i];
        if letter(c) || digit(c) {
            out.push(c);
        } else {
            out.push('_');
        }
        i = i + 1;
    }
    assert(t@.take(t@.len() as int) =~= t@);
    out
}

pub open spec fn reading_column(chip: Seq<char>, r: ReadingModel<Double>) -> ColumnModel {
    number(
        sanitized(chip) + "."@ + sanitized(r.label) + "_"@ + unit_column(r.unit),
        Number::Real(r.value),
        3,
    )
}

/// The columns of a chip: its readings.
pub open spec fn chip_columns() -> spec_fn(ChipModel<Double>) -> Seq<ColumnModel> {
    |c: ChipModel<Double>|
        Seq::new(c.readings.len(), |i: int| reading_column(c.name, c.readings[i]))
}

pub open spec fn runtime_column(minutes: Option<u64>) -> Seq<ColumnModel> {
    match minutes {
        Some(m) => seq![words("batt_runtime_min"@, dec(m as nat))],
        None => Seq::empty(),
    }
}

pub open spec fn battery_columns(b: Option<BatterySnapshot>) -> Seq<ColumnModel> {
    match b {
        Some(b) => maybe("batt_pct"@, b.capacity_pct, 0) + maybe("batt_v"@, b.volts, 3) + maybe(
            "batt_a"@,
            b.amps,
            3,
        ) + maybe("batt_w"@, b.watts, 3) + maybe("batt_health_pct"@, b.health_pct, 1)
            + runtime_column(b.runtime_min),
        None => Seq::empty(),
    }
}

pub open spec fn vram_columns(v: Option<VramSnapshot>) -> Seq<ColumnModel> {
    match v {
        Some(v) => seq![
            number("vram_used_mib"@, Number::Real(v.used_mib), 0),
            number("vram_total_mib"@, Number::Real(v.total_mib), 0),
        ],
        None => Seq::empty(),
    }
}

/// The columns of one value of each thread.
pub open spec fn thread_columns(values: Seq<Double>, tail: Seq<char>, decimals: u8) -> Seq<
    ColumnModel,
> {
    Seq::new(
        values.len(),
        |i: int| number("t"@ + dec2(i as nat) + tail, Number::Real(values[i]), decimals),
    )
}

pub open spec fn memory_columns(s: Snapshot) -> Seq<ColumnModel> {
    seq![
        number(
            "mem_used_pct"@,
            Number::Percent { part: s.mem.in_use(), whole: s.mem.total_kib },
            2,
        ),
        number("mem_used_mib"@, Number::Quotient { n: s.mem.in_use(), d: 1024 }, 1),
        number("swap_used_mib"@, Number::Quotient { n: s.mem.swapped(), d: 1024 }, 1),
        number("load1"@, Number::Real(s.load@[0]), 3),
    ]
}

/// The columns of a snapshot, with its time as it is written.
pub open spec fn columns(s: Snapshot, ts: Seq<char>) -> Seq<ColumnModel> {
    seq![words("ts"@, ts), number("cpu_total_pct"@, Number::Real(s.cpu.total_pct), 2)] + maybe(
        "cpu_pkg_w"@,
        s.cpu.pkg_w,
        3,
    ) + thread_columns(s.cpu.per_pct@, "_pct"@, 2) + thread_columns(s.cpu.per_mhz@, "_mhz"@, 0)
        + memory_columns(s) + battery_columns(s.battery) + vram_columns(s.vram) + joined(
        views(s.chips@),
        chip_columns(),
    )
}

fn add_number(out: &mut Vec<Column>, name: String, value: Number, decimals: u8)
    ensures
        views(final(out)@) == views(old(out)@).push(number(name@, value, decimals)),
{
    put(
        out,
        Column { name, cell: Piece::Number { value: Fixed { value, decimals }, unit: "", width: 0 } },
    );
}

fn add_words(out: &mut Vec<Column>, name: &str, s: String)
    ensures
        views(final(out)@) == views(old(out)@).push(words(name@, s@)),
{
    put(out, Column { name: owned(name), cell: Piece::Text(s) });
}

fn add_maybe(out: &mut Vec<Column>, name: &str, value: Option<Double>, decimals: u8)
    ensures
        views(final(out)@) == views(old(out)@) + maybe(name@, value, decimals),
{
    let ghost start = views(out@);
    if let Some(v) = value {
        add_number(out, owned(name), Number::Real(v), decimals);
    }
    assert(views(out@) =~= start + maybe(name@, value, decimals));
}

fn add_threads(out: &mut Vec<Column>, values: &Vec<Double>, tail: &str, decimals: u8)
    ensures
        views(final(out)@) == views(old(out)@) + thread_columns(values@, tail@, decimals),
{
    let ghost start = views(out@);
    let mut i: usize = 0;
    while i < values.len()
        invariant
            i <= values.len(),
            views(out@) =~= start + thread_columns(values@.take(i as int), tail@, decimals),
        decreases values.len() - i,
    {
        add_number(
            out,
            owned("t").concat(dec2_text(i as u64).as_str()).concat(tail),
            Number::Real(values[i]),
            decimals,
        );
        i = i + 1;
    }
    proof {
        lemma_take_all(values@);
    }
}

fn add_battery(out: &mut Vec<Column>, b: &Option<BatterySnapshot>)
    ensures
        views(final(out)@) == views(old(out)@) + battery_columns(*b),
{
    let ghost start = views(out@);
    if let Some(b) = b {
        add_maybe(out, "batt_pct", b.capacity_pct, 0);
        add_maybe(out, "batt_v", b.volts, 3);
        add_maybe(out, "batt_a", b.amps, 3);
        add_maybe(out, "batt_w", b.watts, 3);
        add_maybe(out, "batt_health_pct", b.health_pct, 1);
        if let Some(m) = b.runtime_min {
            add_words(out, "batt_runtime_min", dec_text(m));
        }
    }
    assert(views(out@) =~= start + battery_columns(*b));
}

fn add_chips(out: &mut Vec<Column>, chips: &Vec<Chip<Double>>)
    ensures
        views(final(out)@) == views(old(out)@) + joined(views(chips@), chip_columns()),
{
    let ghost start = views(out@);
    let ghost all = views(chips@);
    let mut i: usize = 0;
    while i < chips.len()
        invariant
            i <= chips.len(),
            all == views(chips@),
            views(out@) =~= start + joined(all.take(i as int), chip_columns()),
        decreases chips.len() - i,
    {
        let chip = &chips[i];
        let ghost so_far = views(out@);
        let ghost model = chip@;
        assert(all[i as int] == model);
        let mut j: usize = 0;
        while j < chip.readings.len()
            invariant
                j <= chip.readings.len(),
                model == chip@,
                views(out@) =~= so_far + Seq::new(
                    j as nat,
                    |k: int| reading_column(model.name, model.readings[k]),
                ),
            decreases chip.readings.len() - j,
        {
            let r = &chip.readings[j];
            assert(model.readings[j as int] == r@);
            add_number(
                out,
                sanitize(chip.name.as_str()).concat(".").concat(
                    sanitize(r.label.as_str()).as_str(),
                ).concat("_").concat(r.unit.csv_suffix()),
                Number::Real(r.value),
                3,
            );
            j = j + 1;
        }
        proof {
            lemma_joined_step(all, chip_columns(), i as int);
        }
        assert(views(out@) =~= so_far + chip_columns()(model));
        i = i + 1;
    }
    proof {
        lemma_take_all(all);
    }
}

/// The columns of a snapshot whose time is written as `ts`.
pub fn flatten_at(s: &Snapshot, ts: String) -> (r: Vec<Column>)
    ensures
        views(r@) == columns(*s, ts@),
{
    let mut out: Vec<Column> = Vec::new();
    let ghost start = ts@;
    add_words(&mut out, "ts", ts);
    add_number(&mut out, owned("cpu_total_pct"), Number::Real(s.cpu.total_pct), 2);
    assert(views(out@) =~= seq![
        words("ts"@, start),
        number("cpu_total_pct"@, Number::Real(s.cpu.total_pct), 2),
    ]);
    add_maybe(&mut out, "cpu_pkg_w", s.cpu.pkg_w, 3);
    add_threads(&mut out, &s.cpu.per_pct, "_pct", 2);
    add_threads(&mut out, &s.cpu.per_mhz, "_mhz", 0);
    let used = s.mem.used();
    let ghost before = views(out@);
    add_number(
        &mut out,
        owned("mem_used_pct"),
        Number::Percent { part: used, whole: s.mem.total_kib },
        2,
    );
    add_number(&mut out, owned("mem_used_mib"), Number::Quotient { n: used, d: 1024 }, 1);
    add_number(
        &mut out,
        owned("swap_used_mib"),
        Number::Quotient { n: s.mem.swap_used(), d: 1024 },
        1,
    );
    add_number(&mut out, owned("load1"), Number::Real(s.load[0]), 3);
    assert(views(out@) =~= before + memory_columns(*s));
    add_battery(&mut out, &s.battery);
    let ghost before = views(out@);
    if let Some(v) = &s.vram {
        add_number(&mut out, owned("vram_used_mib"), Number::Real(v.used_mib), 0);
        add_number(&mut out, owned("vram_total_mib"), Number::Real(v.total_mib), 0);
    }
    assert(views(out@) =~= before + vram_columns(s.vram));
    add_chips(&mut out, &s.chips);
    out
}

/// The columns of a snapshot.
pub fn flatten(s: &Snapshot) -> (r: Vec<Column>)
    requires
        s.time.wf(),
    ensures
        views(r@) == columns(*s, s.time.words(TimeFormat::Row)),
{
    flatten_at(s, s.time.write(TimeFormat::Row))
}

// ---------- the log ----------

/// A log: the names of its columns, and the file it goes to.
#[derive(Clone, Debug)]
pub struct Logger {
    pub header: Vec<String>,
    pub path: String,
}

pub open spec fn names(c: Seq<ColumnModel>) -> Seq<Seq<char>> {
    Seq::new(c.len(), |i: int| c[i].name)
}

/// How many of the names are the one given.
pub open spec fn occurrences(names: Seq<Seq<char>>, name: Seq<char>) -> nat
    decreases names.len(),
{
    if names.len() == 0 {
        0
    } else {
        occurrences(names.drop_last(), name) + if names.last() == name {
            1nat
        } else {
            0nat
        }
    }
}

/// The value in the column of that name that has `k` others of the name before
/// it.
pub open spec fn looked_up(c: Seq<ColumnModel>, name: Seq<char>, k: nat) -> Option<PieceModel>
    decreases c.len(),
{
    if c.len() == 0 {
        None
    } else if c.last().name == name && occurrences(names(c.drop_last()), name) == k {
        Some(c.last().cell)
    } else {
        looked_up(c.drop_last(), name, k)
    }
}

/// The cell of a row under the header's column at `i`: where that is the first
/// column of its name, the snapshot's first column of that name, where it is the
/// second, the second, and so on. It is empty where the snapshot has no such
/// column.
pub open spec fn cell(header: Seq<Seq<char>>, c: Seq<ColumnModel>, i: int) -> PieceModel {
    match looked_up(c, header[i], occurrences(header.take(i), header[i])) {
        Some(p) => p,
        None => PieceModel::Text(""@),
    }
}

/// The cells of a row, in the order of the header.
pub open spec fn cells(header: Seq<Seq<char>>, c: Seq<ColumnModel>) -> Seq<PieceModel> {
    Seq::new(header.len(), |i: int| cell(header, c, i))
}

/// The cells with commas between them.
pub open spec fn with_commas(cells: Seq<PieceModel>) -> Seq<PieceModel>
    decreases cells.len(),
{
    if cells.len() <= 1 {
        cells
    } else {
        with_commas(cells.drop_last()).push(PieceModel::Text(","@)).push(cells.last())
    }
}

fn copy_piece(p: &Piece) -> (r: Piece)
    ensures
        r@ == p@,
{
    match p {
        Piece::Text(s) => Piece::Text(owned(s.as_str())),
        Piece::Number { value, unit, width } => Piece::Number {
            value: *value,
            unit: *unit,
            width: *width,
        },
        Piece::Single { bits, decimals } => Piece::Single { bits: *bits, decimals: *decimals },
        Piece::Bar { percent, width } => Piece::Bar { percent: *percent, width: *width },
    }
}

/// How many of the names before the one at `at` are the same.
fn count_before(header: &Vec<String>, at: usize) -> (r: usize)
    requires
        at < header@.len(),
    ensures
        r == occurrences(views(header@).take(at as int), header@[at as int]@),
        r <= at,
{
    let wanted = chars(header[at].as_str());
    let ghost all = views(header@);
    let mut n: usize = 0;
    let mut i: usize = 0;
    while i < at
        invariant
            i <= at < header@.len(),
            n <= i,
            wanted@ == header@[at as int]@,
            all == views(header@),
            n == occurrences(all.take(i as int), wanted@),
        decreases at - i,
    {
        assert(all.take(i + 1).drop_last() =~= all.take(i as int));
        assert(all.take(i + 1).last() == header@[i as int]@);
        if same(chars(header[i].as_str()).as_slice(), wanted.as_slice()) {
            n = n + 1;
        }
        i = i + 1;
    }
    n
}

fn look_up(columns: &Vec<Column>, name: &String, k: usize) -> (r: Option<Piece>)
    ensures
        seen(r) == looked_up(views(columns@), name@, k as nat),
{
    let wanted = chars(name.as_str());
    let ghost all = views(columns@);
    let mut n: usize = 0;
    let mut i: usize = 0;
    while i < columns.len()
        invariant
            i <= columns.len(),
            n <= i,
            n <= k,
            wanted@ == name@,
            all == views(columns@),
            n == occurrences(names(all.take(i as int)), name@),
            looked_up(all.take(i as int), name@, k as nat) is None,
        decreases columns.len() - i,
    {
        let ghost t = all.take(i + 1);
        assert(t.drop_last() =~= all.take(i as int));
        assert(names(t).drop_last() =~= names(all.take(i as int)));
        assert(t.last() == columns@[i as int]@);
        if same(chars(columns[i].name.as_str()).as_slice(), wanted.as_slice()) {
            if n == k {
                proof {
                    lemma_found_stays(all, name@, k as nat, i + 1);
                }
                return Some(copy_piece(&columns[i].cell));
            }
            n = n + 1;
        }
        i = i + 1;
    }
    assert(all.take(i as int) =~= all);
    None
}

fn join_names(names: &Vec<String>) -> (r: String)
    ensures
        r@ == separated(views(names@), ","@),
{
    if names.len() == 0 {
        let r = owned("");
        proof {
            reveal_strlit("");
        }
        assert(r@ =~= Seq::<char>::empty());
        return r;
    }
    let ghost all = views(names@);
    let mut out = owned(names[0].as_str());
    let mut i: usize = 1;
    assert(all.take(1)[0] == names@[0]@);
    while i < names.len()
        invariant
            1 <= i <= names.len(),
            all == views(names@),
            out@ == separated(all.take(i as int), ","@),
        decreases names.len() - i,
    {
        assert(all.take(i + 1).drop_last() =~= all.take(i as int));
        assert(all.take(i + 1).last() == names@[i as int]@);
        out = out.concat(",").concat(names[i].as_str());
        i = i + 1;
    }
    assert(all.take(i as int) =~= all);
    out
}

/// The file that is named, or one named after the time.
pub open spec fn log_file(path: Option<Seq<char>>, stamp: Seq<char>) -> Seq<char> {
    match path {
        Some(p) => p,
        None => "rustinfo_"@ + stamp + ".csv"@,
    }
}

impl Logger {
    /// Starts a log with the columns of a snapshot that has them as `columns`,
    /// in the file named, or in one named after the time as `stamp` writes it.
    pub fn create_with(columns: &Vec<Column>, path: Option<&str>, stamp: &str) -> (r: Logger)
        ensures
            views(r.header@) == names(views(columns@)),
            r.path@ == (match path {
                Some(p) => p@,
                None => "rustinfo_"@ + stamp@ + ".csv"@,
            }),
            r.path@ == log_file(seen(path), stamp@),
    {
        let mut header: Vec<String> = Vec::new();
        let ghost all = views(columns@);
        let mut i: usize = 0;
        while i < columns.len()
            invariant
                i <= columns.len(),
                all == views(columns@),
                views(header@) =~= names(all).take(i as int),
            decreases columns.len() - i,
        {
            assert(all[i as int] == columns@[i as int]@);
            put(&mut header, owned(columns[i].name.as_str()));
            i = i + 1;
        }
        assert(views(header@) =~= names(all));
        let path = match path {
            Some(p) => owned(p),
            None => owned("rustinfo_").concat(stamp).concat(".csv"),
        };
        Logger { header, path }
    }

    /// Starts a log with the columns of a snapshot.
    pub fn create(snap: &Snapshot, path: Option<&str>, now: Stamp) -> (r: Logger)
        requires
            snap.time.wf(),
            now.wf(),
        ensures
            views(r.header@) == names(columns(*snap, snap.time.words(TimeFormat::Row))),
            r.path@ == (match path {
                Some(p) => p@,
                None => "rustinfo_"@ + now.words(TimeFormat::File) + ".csv"@,
            }),
    {
        Logger::create_with(&flatten(snap), path, now.write(TimeFormat::File).as_str())
    }

    /// The first line of the file.
    pub fn header_line(&self) -> (r: String)
        ensures
            r@ == separated(views(self.header@), ","@),
    {
        join_names(&self.header)
    }

    /// The line for a snapshot that has these columns.
    pub fn write_columns(&self, columns: &Vec<Column>) -> (r: Row)
        ensures
            r@ == with_commas(cells(views(self.header@), views(columns@))),
    {
        let mut out: Vec<Piece> = Vec::new();
        let ghost all = cells(views(self.header@), views(columns@));
        let mut i: usize = 0;
        while i < self.header.len()
            invariant
                i <= self.header.len(),
                all == cells(views(self.header@), views(columns@)),
                views(out@) =~= with_commas(all.take(i as int)),
            decreases self.header.len() - i,
        {
            assert(all.take(i + 1).drop_last() =~= all.take(i as int));
            assert(views(self.header@)[i as int] == self.header@[i as int]@);
            if i > 0 {
                put(&mut out, Piece::Text(owned(",")));
            }
            let p = match look_up(columns, &self.header[i], count_before(&self.header, i)) {
                Some(p) => p,
                None => Piece::Text(owned("")),
            };
            put(&mut out, p);
            i = i + 1;
        }
        assert(all.take(i as int) =~= all);
        Row { pieces: out }
    }

    /// The line for a snapshot.
    pub fn write(&self, snap: &Snapshot) -> (r: Row)
        requires
            snap.time.wf(),
        ensures
            r@ == with_commas(
                cells(views(self.header@), columns(*snap, snap.time.words(TimeFormat::Row))),
            ),
    {
        self.write_columns(&flatten(snap))
    }

    pub fn path(&self) -> (r: &str)
        ensures
            r@ == self.path@,
    {
        self.path.as_str()
    }
}

// ---------- laws ----------

/// A row has one cell for each column of the header, in the header's order, with
/// commas between them.
pub proof fn lemma_row_fits_the_header(header: Seq<Seq<char>>, c: Seq<ColumnModel>)
    requires
        header.len() > 0,
    ensures
        ({
            let row = with_commas(cells(header, c));
            &&& row.len() == 2 * header.len() - 1
            &&& forall|i: int| 0 <= i < header.len() ==> row[2 * i] == #[trigger] cell(header, c, i)
            &&& forall|i: int|
                0 <= i < row.len() && i % 2 == 1 ==> #[trigger] row[i] == PieceModel::Text(","@)
        }),
{
    let all = cells(header, c);
    lemma_commas(all);
    assert forall|i: int| 0 <= i < header.len() implies with_commas(all)[2 * i] == #[trigger] cell(
        header,
        c,
        i,
    ) by {
        assert(all[i] == cell(header, c, i));
    }
}

proof fn lemma_commas(cells: Seq<PieceModel>)
    requires
        cells.len() > 0,
    ensures
        with_commas(cells).len() == 2 * cells.len() - 1,
        forall|i: int| 0 <= i < cells.len() ==> with_commas(cells)[2 * i] == #[trigger] cells[i],
        forall|i: int|
            0 <= i < with_commas(cells).len() && i % 2 == 1 ==> #[trigger] with_commas(cells)[i]
                == PieceModel::Text(","@),
    decreases cells.len(),
{
    if cells.len() > 1 {
        let t = cells.drop_last();
        lemma_commas(t);
        assert forall|i: int| 0 <= i < cells.len() implies with_commas(cells)[2 * i]
            == #[trigger] cells[i] by {
            if i < t.len() {
                assert(t[i] == cells[i]);
            }
        }
    }
}

/// A row of a snapshot with the columns that a log was started with holds all
/// its values in their order, also where several columns share a name.
pub proof fn lemma_first_row(c: Seq<ColumnModel>)
    ensures
        cells(names(c), c) == Seq::new(c.len(), |i: int| c[i].cell),
{
    assert forall|i: int| 0 <= i < c.len() implies cell(names(c), c, i) == (#[trigger] c[i]).cell by {
        let (n, k) = (c[i].name, occurrences(names(c).take(i), c[i].name));
        let t = c.take(i + 1);
        assert(names(t.drop_last()) =~= names(c).take(i));
        assert(looked_up(t, n, k) == Some(c[i].cell));
        lemma_found_stays(c, n, k, i + 1);
    }
    assert(cells(names(c), c) =~= Seq::new(c.len(), |i: int| c[i].cell));
}

/// A row never mixes columns up: a cell that holds a value holds that of a
/// column with the name in the header.
pub proof fn lemma_cell_has_its_name(header: Seq<Seq<char>>, c: Seq<ColumnModel>, i: int)
    requires
        0 <= i < header.len(),
    ensures
        cell(header, c, i) == PieceModel::Text(""@) || exists|j: int|
            0 <= j < c.len() && (#[trigger] c[j]).name == header[i] && c[j].cell == cell(header, c, i),
{
    lemma_found_at(c, header[i], occurrences(header.take(i), header[i]));
}

proof fn lemma_found_at(c: Seq<ColumnModel>, name: Seq<char>, k: nat)
    ensures
        match looked_up(c, name, k) {
            Some(p) => exists|j: int|
                0 <= j < c.len() && (#[trigger] c[j]).name == name && c[j].cell == p,
            None => true,
        },
    decreases c.len(),
{
    if c.len() > 0 {
        let t = c.drop_last();
        lemma_found_at(t, name, k);
        assert(c[c.len() - 1] == c.last());
        if let Some(p) = looked_up(t, name, k) {
            let j = choose|j: int| 0 <= j < t.len() && (#[trigger] t[j]).name == name && t[j].cell == p;
            assert(c[j] == t[j]);
        }
    }
}

/// What is found among the first columns is found among all of them.
proof fn lemma_found_stays(c: Seq<ColumnModel>, name: Seq<char>, k: nat, n: int)
    requires
        0 <= n <= c.len(),
        looked_up(c.take(n), name, k) is Some,
    ensures
        looked_up(c, name, k) == looked_up(c.take(n), name, k),
        occurrences(names(c), name) > k,
    decreases c.len(),
{
    let t = c.drop_last();
    if n < c.len() {
        assert(t.take(n) =~= c.take(n));
        lemma_found_stays(t, name, k, n);
        assert(names(c).drop_last() =~= names(t));
    } else {
        assert(c.take(n) =~= c);
        assert(names(c).drop_last() =~= names(t));
        if !(c.last().name == name && occurrences(names(t), name) == k) {
            assert(t.take(t.len() as int) =~= t);
            lemma_found_stays(t, name, k, t.len() as int);
        }
    }
}

// ---------- columns that stay ----------

pub open spec fn same_battery(a: Option<BatterySnapshot>, b: Option<BatterySnapshot>) -> bool {
    match (a, b) {
        (Some(a), Some(b)) => {
            &&& a.capacity_pct is Some == b.capacity_pct is Some
            &&& a.volts is Some == b.volts is Some
            &&& a.amps is Some == b.amps is Some
            &&& a.watts is Some == b.watts is Some
            &&& a.health_pct is Some == b.health_pct is Some
            &&& a.runtime_min is Some == b.runtime_min is Some
        },
        (None, None) => true,
        _ => false,
    }
}

pub open spec fn same_readings(a: ChipModel<Double>, b: ChipModel<Double>) -> bool {
    &&& a.name == b.name
    &&& a.readings.len() == b.readings.len()
    &&& forall|i: int|
        0 <= i < a.readings.len() ==> (#[trigger] a.readings[i]).label == b.readings[i].label
            && a.readings[i].unit == b.readings[i].unit
}

pub open spec fn same_chips(a: Seq<ChipModel<Double>>, b: Seq<ChipModel<Double>>) -> bool {
    &&& a.len() == b.len()
    &&& forall|i: int| 0 <= i < a.len() ==> same_readings(#[trigger] a[i], b[i])
}

/// Whether two snapshots are of the same machine with the same sources: they
/// have the same values, though the values may differ.
pub open spec fn same_shape(a: Snapshot, b: Snapshot) -> bool {
    &&& a.cpu.pkg_w is Some == b.cpu.pkg_w is Some
    &&& a.cpu.per_pct@.len() == b.cpu.per_pct@.len()
    &&& a.cpu.per_mhz@.len() == b.cpu.per_mhz@.len()
    &&& same_battery(a.battery, b.battery)
    &&& a.vram is Some == b.vram is Some
    &&& same_chips(views(a.chips@), views(b.chips@))
}

pub open spec fn counted(b: bool) -> nat {
    if b {
        1
    } else {
        0
    }
}

/// How many values of a battery there are.
pub open spec fn battery_values(b: Option<BatterySnapshot>) -> nat {
    match b {
        Some(b) => counted(b.capacity_pct is Some) + counted(b.volts is Some) + counted(
            b.amps is Some,
        ) + counted(b.watts is Some) + counted(b.health_pct is Some) + counted(
            b.runtime_min is Some,
        ),
        None => 0,
    }
}

/// How many readings the chips have together.
pub open spec fn reading_count(chips: Seq<ChipModel<Double>>) -> nat
    decreases chips.len(),
{
    if chips.len() == 0 {
        0
    } else {
        reading_count(chips.drop_last()) + chips.last().readings.len()
    }
}

/// There is one column for each value of a snapshot, and no other.
pub proof fn lemma_column_count(s: Snapshot, ts: Seq<char>)
    ensures
        columns(s, ts).len() == 6 + counted(s.cpu.pkg_w is Some) + s.cpu.per_pct@.len()
            + s.cpu.per_mhz@.len() + battery_values(s.battery) + 2 * counted(s.vram is Some)
            + reading_count(views(s.chips@)),
{
    lemma_chip_column_count(views(s.chips@));
    lemma_battery_column_count(s.battery);
}

proof fn lemma_battery_column_count(b: Option<BatterySnapshot>)
    ensures
        battery_columns(b).len() == battery_values(b),
{
    if let Some(b) = b {
        assert(maybe("batt_pct"@, b.capacity_pct, 0).len() == counted(b.capacity_pct is Some));
        assert(maybe("batt_v"@, b.volts, 3).len() == counted(b.volts is Some));
        assert(maybe("batt_a"@, b.amps, 3).len() == counted(b.amps is Some));
        assert(maybe("batt_w"@, b.watts, 3).len() == counted(b.watts is Some));
        assert(maybe("batt_health_pct"@, b.health_pct, 1).len() == counted(b.health_pct is Some));
        assert(runtime_column(b.runtime_min).len() == counted(b.runtime_min is Some));
    }
}

proof fn lemma_chip_column_count(chips: Seq<ChipModel<Double>>)
    ensures
        joined(chips, chip_columns()).len() == reading_count(chips),
    decreases chips.len(),
{
    if chips.len() > 0 {
        lemma_chip_column_count(chips.drop_last());
    }
}

/// Two snapshots with the same values have the same columns, whatever the values
/// and the times are.
pub proof fn lemma_columns_stay(a: Snapshot, b: Snapshot, at: Seq<char>, bt: Seq<char>)
    requires
        same_shape(a, b),
    ensures
        names(columns(a, at)) == names(columns(b, bt)),
{
    lemma_chip_names_stay(views(a.chips@), views(b.chips@));
    lemma_column_names(a, at);
    lemma_column_names(b, bt);
    lemma_name_stays("cpu_pkg_w"@, a.cpu.pkg_w, b.cpu.pkg_w, 3);
    assert(names(thread_columns(a.cpu.per_pct@, "_pct"@, 2)) =~= names(
        thread_columns(b.cpu.per_pct@, "_pct"@, 2),
    ));
    assert(names(thread_columns(a.cpu.per_mhz@, "_mhz"@, 0)) =~= names(
        thread_columns(b.cpu.per_mhz@, "_mhz"@, 0),
    ));
    assert(names(memory_columns(a)) =~= names(memory_columns(b)));
    lemma_battery_names_stay(a.battery, b.battery);
    assert(names(vram_columns(a.vram)) =~= names(vram_columns(b.vram)));
}

proof fn lemma_name_stays(name: Seq<char>, a: Option<Double>, b: Option<Double>, decimals: u8)
    requires
        a is Some == b is Some,
    ensures
        names(maybe(name, a, decimals)) == names(maybe(name, b, decimals)),
{
    assert(names(maybe(name, a, decimals)) =~= names(maybe(name, b, decimals)));
}

proof fn lemma_battery_names(b: BatterySnapshot)
    ensures
        names(battery_columns(Some(b))) == names(maybe("batt_pct"@, b.capacity_pct, 0)) + names(
            maybe("batt_v"@, b.volts, 3),
        ) + names(maybe("batt_a"@, b.amps, 3)) + names(maybe("batt_w"@, b.watts, 3)) + names(
            maybe("batt_health_pct"@, b.health_pct, 1),
        ) + names(runtime_column(b.runtime_min)),
{
    let x = maybe("batt_pct"@, b.capacity_pct, 0);
    let y = maybe("batt_v"@, b.volts, 3);
    lemma_names_joined(x, y);
    let z = maybe("batt_a"@, b.amps, 3);
    lemma_names_joined(x + y, z);
    let u = maybe("batt_w"@, b.watts, 3);
    lemma_names_joined(x + y + z, u);
    let v = maybe("batt_health_pct"@, b.health_pct, 1);
    lemma_names_joined(x + y + z + u, v);
    lemma_names_joined(x + y + z + u + v, runtime_column(b.runtime_min));
}

proof fn lemma_battery_names_stay(a: Option<BatterySnapshot>, b: Option<BatterySnapshot>)
    requires
        same_battery(a, b),
    ensures
        names(battery_columns(a)) == names(battery_columns(b)),
{
    if let (Some(a), Some(b)) = (a, b) {
        lemma_battery_names(a);
        lemma_battery_names(b);
        lemma_name_stays("batt_pct"@, a.capacity_pct, b.capacity_pct, 0);
        lemma_name_stays("batt_v"@, a.volts, b.volts, 3);
        lemma_name_stays("batt_a"@, a.amps, b.amps, 3);
        lemma_name_stays("batt_w"@, a.watts, b.watts, 3);
        lemma_name_stays("batt_health_pct"@, a.health_pct, b.health_pct, 1);
        assert(names(runtime_column(a.runtime_min)) =~= names(runtime_column(b.runtime_min)));
    }
}

proof fn lemma_names_joined(a: Seq<ColumnModel>, b: Seq<ColumnModel>)
    ensures
        names(a + b) == names(a) + names(b),
{
    assert(names(a + b) =~= names(a) + names(b));
}

proof fn lemma_column_names(s: Snapshot, ts: Seq<char>)
    ensures
        names(columns(s, ts)) == seq!["ts"@, "cpu_total_pct"@] + names(
            maybe("cpu_pkg_w"@, s.cpu.pkg_w, 3),
        ) + names(thread_columns(s.cpu.per_pct@, "_pct"@, 2)) + names(
            thread_columns(s.cpu.per_mhz@, "_mhz"@, 0),
        ) + names(memory_columns(s)) + names(battery_columns(s.battery)) + names(
            vram_columns(s.vram),
        ) + names(joined(views(s.chips@), chip_columns())),
{
    let a = seq![words("ts"@, ts), number("cpu_total_pct"@, Number::Real(s.cpu.total_pct), 2)];
    assert(names(a) =~= seq!["ts"@, "cpu_total_pct"@]);
    let b = maybe("cpu_pkg_w"@, s.cpu.pkg_w, 3);
    lemma_names_joined(a, b);
    let c = thread_columns(s.cpu.per_pct@, "_pct"@, 2);
    lemma_names_joined(a + b, c);
    let d = thread_columns(s.cpu.per_mhz@, "_mhz"@, 0);
    lemma_names_joined(a + b + c, d);
    let e = memory_columns(s);
    lemma_names_joined(a + b + c + d, e);
    let f = battery_columns(s.battery);
    lemma_names_joined(a + b + c + d + e, f);
    let g = vram_columns(s.vram);
    lemma_names_joined(a + b + c + d + e + f, g);
    lemma_names_joined(a + b + c + d + e + f + g, joined(views(s.chips@), chip_columns()));
}

proof fn lemma_chip_names_stay(a: Seq<ChipModel<Double>>, b: Seq<ChipModel<Double>>)
    requires
        same_chips(a, b),
    ensures
        names(joined(a, chip_columns())) == names(joined(b, chip_columns())),
    decreases a.len(),
{
    if a.len() > 0 {
        let (s, t) = (a.drop_last(), b.drop_last());
        assert forall|i: int| 0 <= i < s.len() implies same_readings(#[trigger] s[i], t[i]) by {
            assert(same_readings(a[i], b[i]));
        }
        lemma_chip_names_stay(s, t);
        let (c, d) = (a.last(), b.last());
        assert(same_readings(a[a.len() - 1], b[a.len() - 1]));
        let (x, y) = (chip_columns()(c), chip_columns()(d));
        assert forall|i: int| 0 <= i < x.len() implies (#[trigger] x[i]).name == y[i].name by {
            assert(c.readings[i].label == d.readings[i].label);
        }
        assert(names(x) =~= names(y));
        assert(names(joined(a, chip_columns())) =~= names(joined(s, chip_columns())) + names(x));
        assert(names(joined(b, chip_columns())) =~= names(joined(t, chip_columns())) + names(y));
    } else {
        assert(names(joined(a, chip_columns())) =~= names(joined(b, chip_columns())));
    }
}

/// As long as a machine keeps its sources, every row of a log holds all values of
/// its snapshot, each under the name that its column has in the header.
pub proof fn lemma_no_row_loses_a_value(a: Snapshot, b: Snapshot, at: Seq<char>, bt: Seq<char>)
    requires
        same_shape(a, b),
    ensures
        cells(names(columns(a, at)), columns(b, bt)) == Seq::new(
            columns(b, bt).len(),
            |i: int| columns(b, bt)[i].cell,
        ),
{
    lemma_columns_stay(a, b, at, bt);
    lemma_first_row(columns(b, bt));
}

// ---------- names without commas ----------

/// Whether a name needs no quotes in a table with commas: it is in ASCII and holds
/// no comma, no quote and no end of a line.
pub open spec fn plain_name(s: Seq<char>) -> bool {
    forall|i: int| 0 <= i < s.len() ==> plain_char(#[trigger] s[i])
}

pub open spec fn plain_char(c: char) -> bool {
    (c as u32) < 0x80 && c != ',' && c != '"' && c != '\n' && c != '\r'
}

proof fn lemma_plain_literals()
    ensures
        plain_name("ts"@),
        plain_name("cpu_total_pct"@),
        plain_name("cpu_pkg_w"@),
        plain_name("t"@),
        plain_name("_pct"@),
        plain_name("_mhz"@),
        plain_name("mem_used_pct"@),
        plain_name("mem_used_mib"@),
        plain_name("swap_used_mib"@),
        plain_name("load1"@),
        plain_name("batt_pct"@),
        plain_name("batt_v"@),
        plain_name("batt_a"@),
        plain_name("batt_w"@),
        plain_name("batt_health_pct"@),
        plain_name("batt_runtime_min"@),
        plain_name("vram_used_mib"@),
        plain_name("vram_total_mib"@),
        plain_name("."@),
        plain_name("_"@),
{
    reveal_strlit("ts");
    reveal_strlit("cpu_total_pct");
    reveal_strlit("cpu_pkg_w");
    reveal_strlit("t");
    reveal_strlit("_pct");
    reveal_strlit("_mhz");
    reveal_strlit("mem_used_pct");
    reveal_strlit("mem_used_mib");
    reveal_strlit("swap_used_mib");
    reveal_strlit("load1");
    reveal_strlit("batt_pct");
    reveal_strlit("batt_v");
    reveal_strlit("batt_a");
    reveal_strlit("batt_w");
    reveal_strlit("batt_health_pct");
    reveal_strlit("batt_runtime_min");
    reveal_strlit("vram_used_mib");
    reveal_strlit("vram_total_mib");
    reveal_strlit(".");
    reveal_strlit("_");
}

proof fn lemma_plain_unit(u: Unit)
    ensures
        plain_name(unit_column(u)),
{
    reveal_strlit("C");
    reveal_strlit("V");
    reveal_strlit("A");
    reveal_strlit("W");
    reveal_strlit("RPM");
    reveal_strlit("%");
    reveal_strlit("J");
    reveal_strlit("MHz");
    reveal_strlit("MiBps");
    reveal_strlit("dBm");
}

proof fn lemma_plain_digits(n: nat)
    ensures
        plain_name(written(n, 10)),
    decreases n,
{
    if n >= 10 {
        lemma_plain_digits(n / 10);
        assert(plain_char(digit_char(n % 10)));
    } else {
        assert(plain_char(digit_char(n)));
    }
}

proof fn lemma_plain_thread(i: nat, tail: Seq<char>)
    requires
        plain_name(tail),
    ensures
        plain_name("t"@ + dec2(i) + tail),
{
    lemma_plain_literals();
    lemma_plain_digits(i);
    assert(plain_name(right(dec(i), '0', 2)));
}

proof fn lemma_plain_reading(chip: Seq<char>, r: ReadingModel<Double>)
    ensures
        plain_name(reading_column(chip, r).name),
{
    lemma_plain_literals();
    lemma_plain_unit(r.unit);
    assert(plain_name(sanitized(chip)));
    assert(plain_name(sanitized(r.label)));
}

spec fn all_plain(c: Seq<ColumnModel>) -> bool {
    forall|i: int| 0 <= i < c.len() ==> plain_name((#[trigger] c[i]).name)
}

proof fn lemma_plain_chips(chips: Seq<ChipModel<Double>>)
    ensures
        all_plain(joined(chips, chip_columns())),
    decreases chips.len(),
{
    if chips.len() > 0 {
        lemma_plain_chips(chips.drop_last());
        let c = chips.last();
        assert forall|i: int| 0 <= i < c.readings.len() implies plain_name(
            (#[trigger] chip_columns()(c)[i]).name,
        ) by {
            lemma_plain_reading(c.name, c.readings[i]);
        }
    }
}

/// Whatever the machine calls its chips and readings, every name of a column is in
/// ASCII, and none needs quotes.
pub proof fn lemma_column_names_are_plain(s: Snapshot, ts: Seq<char>)
    ensures
        forall|i: int| 0 <= i < columns(s, ts).len() ==> plain_name((#[trigger] columns(s, ts)[i]).name),
{
    lemma_plain_literals();
    lemma_plain_chips(views(s.chips@));
    assert forall|i: int| 0 <= i implies plain_name(#[trigger] ("t"@ + dec2(i as nat) + "_pct"@)) by {
        lemma_plain_thread(i as nat, "_pct"@);
    }
    assert forall|i: int| 0 <= i implies plain_name(#[trigger] ("t"@ + dec2(i as nat) + "_mhz"@)) by {
        lemma_plain_thread(i as nat, "_mhz"@);
    }
    let head = seq![words("ts"@, ts), number("cpu_total_pct"@, Number::Real(s.cpu.total_pct), 2)]
        + maybe("cpu_pkg_w"@, s.cpu.pkg_w, 3);
    assert(all_plain(head));
    assert(all_plain(thread_columns(s.cpu.per_pct@, "_pct"@, 2)));
    assert(all_plain(thread_columns(s.cpu.per_mhz@, "_mhz"@, 0)));
    assert(all_plain(memory_columns(s)));
    assert(all_plain(battery_columns(s.battery)));
    assert(all_plain(vram_columns(s.vram)));
    assert(all_plain(columns(s, ts)));
}

/// The first line of a log comes apart at its commas into the names of the
/// columns.
pub proof fn lemma_header_comes_apart(s: Snapshot, ts: Seq<char>)
    ensures
        pieces(separated(names(columns(s, ts)), ","@), ',') == names(columns(s, ts)),
{
    let n = names(columns(s, ts));
    lemma_column_names_are_plain(s, ts);
    assert forall|i: int| 0 <= i < n.len() implies !(#[trigger] n[i]).contains(',') by {
        assert(plain_name(columns(s, ts)[i].name));
    }
    reveal_strlit(",");
    assert(","@ =~= seq![',']);
    lemma_separated_comes_apart(n, ',');
}

} // verus!
