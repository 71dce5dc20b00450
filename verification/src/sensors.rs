//! The panel of sensors: each chip as a block of lines, and the blocks in
//! columns of about the same height.
use vstd::prelude::*;

use crate::double::Double;
use crate::lists::{kept, lemma_kept_step, lemma_take_all, put, views};
use crate::model::{unit_decimals, unit_sign, Chip, ChipModel, Fixed, Number, Reading, ReadingModel};
use crate::numbers::{dec, dec_text, left, pad_right};
use crate::order::{in_order, lemma_sorted, sort_by_label, sorted, Labelled};
use crate::output::{plain, Piece, PieceModel};
use crate::style::{
    colored, in_color, make_span2, panel, panel_title, reading_color, reading_hue, span2, styled,
    text_span, Color, Line, Span, SpanModel, Style,
};
use crate::text::{chars, cut, digit, is_digit, owned, same, split_once, string};

verus! {

// ---------- the lines of a chip ----------

/// The name of a core, and the kind of a reading, in a label for one core: a
/// capital C and digits, an underscore, and the kind.
pub open spec fn core_label(label: Seq<char>) -> Option<(Seq<char>, Seq<char>)> {
    match cut(label, '_') {
        Some((c, kind)) => if c.len() >= 2 && c[0] == 'C' && (forall|i: int|
            1 <= i < c.len() ==> is_digit(#[trigger] c[i])) {
            Some((c, kind))
        } else {
            None
        },
        None => None,
    }
}

pub fn core_triplet<'a>(label: &'a [char]) -> (r: Option<(&'a [char], &'a [char])>)
    ensures
        match r {
            Some((c, kind)) => core_label(label@) == Some((c@, kind@)),
            None => core_label(label@) is None,
        },
{
    match split_once(label, '_') {
        Some((c, kind)) => {
            if c.len() < 2 || c[0] != 'C' {
                return None;
            }
            let mut i: usize = 1;
            while i < c.len()
                invariant
                    1 <= i <= c@.len(),
                    cut(label@, '_') == Some((c@, kind@)),
                    forall|j: int| 1 <= j < i ==> is_digit(#[trigger] c@[j]),
                decreases c@.len() - i,
            {
                if !digit(c[i]) {
                    return None;
                }
                i = i + 1;
            }
            Some((c, kind))
        },
        None => None,
    }
}

/// The color of a reading: a zero is less important.
pub open spec fn shade(r: ReadingModel<Double>) -> Color {
    if r.value.scaled() == 0 {
        Color::DarkGray
    } else {
        reading_hue(r.unit, r.value)
    }
}

/// A reading with its unit, within a width.
pub open spec fn measure(r: ReadingModel<Double>, width: usize) -> PieceModel {
    PieceModel::Number {
        value: Fixed { value: Number::Real(r.value), decimals: unit_decimals(r.unit) },
        unit: unit_sign(r.unit),
        width,
    }
}

pub open spec fn dimmed() -> Style {
    Style { fg: None, bg: None, bold: false, dim: true }
}

pub open spec fn bold_in(c: Color) -> Style {
    Style { fg: Some(c), bg: None, bold: true, dim: false }
}

/// The line of a reading that is not for one core.
pub open spec fn reading_line() -> spec_fn(ReadingModel<Double>) -> Option<Seq<SpanModel>> {
    |r: ReadingModel<Double>|
        if core_label(r.label) is None {
            Some(
                seq![
                    styled(" "@ + left(r.label, 13), dimmed()),
                    span2(measure(r, 10), PieceModel::Text(" "@), in_color(shade(r))),
                ],
            )
        } else {
            None
        }
}

/// The name of the core that a reading is for.
pub open spec fn core_name() -> spec_fn(ReadingModel<Double>) -> Option<Seq<char>> {
    |r: ReadingModel<Double>|
        match core_label(r.label) {
            Some((c, kind)) => Some(c),
            None => None,
        }
}

/// What a reading adds to the line of a core.
pub open spec fn core_part(core: Seq<char>) -> spec_fn(ReadingModel<Double>) -> Option<SpanModel> {
    |r: ReadingModel<Double>|
        if core_name()(r) == Some(core) {
            Some(span2(PieceModel::Text(" "@), measure(r, 9), in_color(shade(r))))
        } else {
            None
        }
}

/// What occurs in a row, each once, in the order in which it first occurs.
pub open spec fn distinct(s: Seq<Seq<char>>) -> Seq<Seq<char>>
    decreases s.len(),
{
    if s.len() == 0 {
        s
    } else if distinct(s.drop_last()).contains(s.last()) {
        distinct(s.drop_last())
    } else {
        distinct(s.drop_last()).push(s.last())
    }
}

/// The cores that the readings are for, in the order of their names.
pub open spec fn cores(r: Seq<ReadingModel<Double>>) -> Seq<Seq<char>> {
    sorted(distinct(kept(r, core_name())), String::key())
}

pub open spec fn core_line(r: Seq<ReadingModel<Double>>, core: Seq<char>) -> Seq<SpanModel> {
    seq![styled(" "@ + left(core, 6), dimmed())] + kept(r, core_part(core))
}

/// The lines of a chip: its name, the readings of the whole, one line for each
/// core, and an empty line.
pub open spec fn block(c: ChipModel<Double>) -> Seq<Seq<SpanModel>> {
    seq![seq![styled("▸ "@ + c.name, bold_in(Color::Yellow))]] + kept(c.readings, reading_line())
        + Seq::new(
        cores(c.readings).len(),
        |i: int| core_line(c.readings, cores(c.readings)[i]),
    ) + seq![Seq::<SpanModel>::empty()]
}

fn shade_of(r: &Reading<Double>) -> (c: Color)
    ensures
        c == shade(r@),
{
    if r.value.zero() {
        Color::DarkGray
    } else {
        reading_color(r.unit, r.value)
    }
}

fn write_measure(r: &Reading<Double>, width: usize) -> (p: Piece)
    ensures
        p@ == measure(r@, width),
{
    let (value, unit) = r.unit.format(r.value);
    Piece::Number { value, unit, width }
}

fn one_span(s: Span) -> (r: Line)
    ensures
        r@ == seq![s@],
{
    let mut spans: Vec<Span> = Vec::new();
    spans.push(s);
    let r = Line { spans };
    assert(r@ =~= seq![s@]);
    r
}

fn core_of(r: &Reading<Double>) -> (c: Option<String>)
    ensures
        crate::lists::seen(c) == core_name()(r@),
{
    let t = chars(r.label.as_str());
    match core_triplet(t.as_slice()) {
        Some((c, kind)) => Some(string(c)),
        None => None,
    }
}

fn holds(names: &Vec<String>, name: &String) -> (r: bool)
    ensures
        r == views(names@).contains(name@),
{
    let wanted = chars(name.as_str());
    let ghost all = views(names@);
    let mut i: usize = 0;
    while i < names.len()
        invariant
            i <= names.len(),
            wanted@ == name@,
            all == views(names@),
            forall|j: int| 0 <= j < i ==> #[trigger] all[j] != name@,
        decreases names.len() - i,
    {
        assert(all[i as int] == names@[i as int]@);
        if same(chars(names[i].as_str()).as_slice(), wanted.as_slice()) {
            return true;
        }
        i = i + 1;
    }
    false
}

fn find_cores(readings: &Vec<Reading<Double>>) -> (r: Vec<String>)
    ensures
        views(r@) == cores(views(readings@)),
{
    let ghost all = views(readings@);
    let mut out: Vec<String> = Vec::new();
    let mut i: usize = 0;
    assert(views(out@) =~= Seq::<Seq<char>>::empty());
    while i < readings.len()
        invariant
            i <= readings.len(),
            all == views(readings@),
            views(out@) == distinct(kept(all.take(i as int), core_name())),
        decreases readings.len() - i,
    {
        assert(all[i as int] == readings@[i as int]@);
        let ghost before = kept(all.take(i as int), core_name());
        proof {
            lemma_kept_step(all, core_name(), i as int);
        }
        if let Some(c) = core_of(&readings[i]) {
            assert(before.push(c@).drop_last() =~= before);
            if !holds(&out, &c) {
                put(&mut out, c);
            }
        }
        i = i + 1;
    }
    proof {
        lemma_take_all(all);
    }
    sort_by_label(out)
}

fn write_core_line(readings: &Vec<Reading<Double>>, core: &String) -> (r: Line)
    ensures
        r@ == core_line(views(readings@), core@),
{
    let ghost all = views(readings@);
    let wanted = chars(core.as_str());
    let mut spans: Vec<Span> = Vec::new();
    put(
        &mut spans,
        text_span(
            owned(" ").concat(pad_right(core.as_str(), 6).as_str()),
            Style { fg: None, bg: None, bold: false, dim: true },
        ),
    );
    let ghost head = views(spans@);
    let mut i: usize = 0;
    while i < readings.len()
        invariant
            i <= readings.len(),
            wanted@ == core@,
            all == views(readings@),
            views(spans@) =~= head + kept(all.take(i as int), core_part(core@)),
        decreases readings.len() - i,
    {
        assert(all[i as int] == readings@[i as int]@);
        proof {
            lemma_kept_step(all, core_part(core@), i as int);
        }
        let r = &readings[i];
        if let Some(c) = core_of(r) {
            if same(chars(c.as_str()).as_slice(), wanted.as_slice()) {
                put(
                    &mut spans,
                    make_span2(
                        Piece::Text(owned(" ")),
                        write_measure(r, 9),
                        colored(shade_of(r)),
                    ),
                );
            }
        }
        i = i + 1;
    }
    proof {
        lemma_take_all(all);
    }
    let r = Line { spans };
    assert(r@ =~= core_line(all, core@));
    r
}

fn write_reading_line(r: &Reading<Double>) -> (l: Line)
    requires
        core_label(r@.label) is None,
    ensures
        Some(l@) == reading_line()(r@),
{
    let mut spans: Vec<Span> = Vec::new();
    put(
        &mut spans,
        text_span(
            owned(" ").concat(pad_right(r.label.as_str(), 13).as_str()),
            Style { fg: None, bg: None, bold: false, dim: true },
        ),
    );
    put(
        &mut spans,
        make_span2(write_measure(r, 10), Piece::Text(owned(" ")), colored(shade_of(r))),
    );
    let l = Line { spans };
    assert(l@ =~= reading_line()(r@)->0);
    l
}

pub fn chip_lines(chip: &Chip<Double>) -> (r: Vec<Line>)
    ensures
        views(r@) == block(chip@),
{
    let ghost all = views(chip.readings@);
    let mut out: Vec<Line> = Vec::new();
    put(
        &mut out,
        one_span(
            text_span(
                owned("▸ ").concat(chip.name.as_str()),
                Style { fg: Some(Color::Yellow), bg: None, bold: true, dim: false },
            ),
        ),
    );
    let ghost head = views(out@);
    let mut i: usize = 0;
    while i < chip.readings.len()
        invariant
            i <= chip.readings.len(),
            all == views(chip.readings@),
            views(out@) =~= head + kept(all.take(i as int), reading_line()),
        decreases chip.readings.len() - i,
    {
        assert(all[i as int] == chip.readings@[i as int]@);
        proof {
            lemma_kept_step(all, reading_line(), i as int);
        }
        if core_of(&chip.readings[i]).is_none() {
            put(&mut out, write_reading_line(&chip.readings[i]));
        }
        i = i + 1;
    }
    proof {
        lemma_take_all(all);
    }
    let names = find_cores(&chip.readings);
    let ghost middle = views(out@);
    let mut i: usize = 0;
    while i < names.len()
        invariant
            i <= names.len(),
            all == views(chip.readings@),
            views(names@) == cores(all),
            views(out@) =~= middle + Seq::new(i as nat, |j: int| core_line(all, cores(all)[j])),
        decreases names.len() - i,
    {
        assert(cores(all)[i as int] == names@[i as int]@);
        put(&mut out, write_core_line(&chip.readings, &names[i]));
        i = i + 1;
    }
    let empty: Vec<Span> = Vec::new();
    let last = Line { spans: empty };
    assert(last@ =~= Seq::<SpanModel>::empty());
    put(&mut out, last);
    assert(views(out@) =~= block(chip@));
    out
}

// ---------- the columns ----------

/// A block of lines, and a row of blocks.
pub struct Lines {
    pub lines: Vec<Line>,
}

impl View for Lines {
    type V = Seq<Seq<SpanModel>>;

    open spec fn view(&self) -> Seq<Seq<SpanModel>> {
        views(self.lines@)
    }
}

/// The blocks with `x` behind all that are at least as high.
pub open spec fn placed_by_height<L>(s: Seq<Seq<L>>, x: Seq<L>) -> Seq<Seq<L>>
    decreases s.len(),
{
    if s.len() > 0 && s.last().len() < x.len() {
        placed_by_height(s.drop_last(), x).push(s.last())
    } else {
        s.push(x)
    }
}

/// The blocks from the highest to the lowest, and those of one height as they
/// came.
pub open spec fn highest_first<L>(s: Seq<Seq<L>>) -> Seq<Seq<L>>
    decreases s.len(),
{
    if s.len() == 0 {
        s
    } else {
        placed_by_height(highest_first(s.drop_last()), s.last())
    }
}

/// The first of the lowest columns among the first `n`.
pub open spec fn lowest<L>(cols: Seq<Seq<L>>, n: nat) -> int
    decreases n,
{
    if n <= 1 {
        0
    } else if cols[n - 1].len() < cols[lowest(cols, (n - 1) as nat)].len() {
        n - 1
    } else {
        lowest(cols, (n - 1) as nat)
    }
}

/// The blocks put one after the other into `n` columns, each into the lowest.
pub open spec fn packed<L>(blocks: Seq<Seq<L>>, n: nat) -> Seq<Seq<L>>
    decreases blocks.len(),
{
    if blocks.len() == 0 {
        Seq::new(n, |i: int| Seq::empty())
    } else {
        let cols = packed(blocks.drop_last(), n);
        let c = lowest(cols, n);
        cols.update(c, cols[c] + blocks.last())
    }
}

/// How many columns there are for so many chips.
pub open spec fn column_count(chips: nat) -> nat {
    if chips > 12 {
        4
    } else {
        3
    }
}

pub open spec fn blocks(chips: Seq<ChipModel<Double>>) -> Seq<Seq<Seq<SpanModel>>> {
    Seq::new(chips.len(), |i: int| block(chips[i]))
}

pub open spec fn sensor_columns(chips: Seq<ChipModel<Double>>) -> Seq<Seq<Seq<SpanModel>>> {
    packed(highest_first(blocks(chips)), column_count(chips.len()))
}

fn sort_by_height(v: Vec<Lines>) -> (r: Vec<Lines>)
    ensures
        views(r@) == highest_first(views(v@)),
    decreases v.len(),
{
    let mut v = v;
    let ghost all = views(v@);
    match v.pop() {
        None => v,
        Some(x) => {
            assert(views(v@) =~= all.drop_last());
            let mut out = sort_by_height(v);
            let ghost s = views(out@);
            let mut p: usize = out.len();
            assert(s.take(p as int) =~= s);
            assert(placed_by_height(s, x@) =~= placed_by_height(s.take(p as int), x@) + s.skip(
                p as int,
            ));
            while p > 0 && out[p - 1].lines.len() < x.lines.len()
                invariant
                    p <= out.len(),
                    s == views(out@),
                    placed_by_height(s, x@) == placed_by_height(s.take(p as int), x@) + s.skip(
                        p as int,
                    ),
                decreases p,
            {
                proof {
                    let t = s.take(p as int);
                    assert(t.last() == out@[p - 1]@);
                    assert(t.drop_last() =~= s.take(p - 1));
                    assert(placed_by_height(t, x@) + s.skip(p as int) =~= placed_by_height(
                        s.take(p - 1),
                        x@,
                    ) + s.skip(p - 1));
                }
                p = p - 1;
            }
            proof {
                let t = s.take(p as int);
                if p > 0 {
                    assert(t.last() == out@[p - 1]@);
                }
                assert(t.push(x@) + s.skip(p as int) =~= s.insert(p as int, x@));
            }
            out.insert(p, x);
            assert(views(out@) =~= s.insert(p as int, x@));
            out
        },
    }
}

fn find_lowest(cols: &Vec<Lines>) -> (r: usize)
    requires
        cols@.len() > 0,
    ensures
        r == lowest(views(cols@), cols@.len()),
        r < cols@.len(),
{
    let ghost all = views(cols@);
    let mut c: usize = 0;
    let mut i: usize = 1;
    while i < cols.len()
        invariant
            1 <= i <= cols.len(),
            c < i,
            all == views(cols@),
            c == lowest(all, i as nat),
        decreases cols.len() - i,
    {
        assert(all[i as int] == cols@[i as int]@);
        assert(all[c as int] == cols@[c as int]@);
        if cols[i].lines.len() < cols[c].lines.len() {
            c = i;
        }
        i = i + 1;
    }
    c
}

fn pack(sorted_blocks: Vec<Lines>, n: usize) -> (r: Vec<Lines>)
    requires
        n > 0,
    ensures
        views(r@) == packed(views(sorted_blocks@), n as nat),
        r@.len() == n,
    decreases sorted_blocks.len(),
{
    let mut rest = sorted_blocks;
    let ghost all = views(rest@);
    match rest.pop() {
        None => {
            let mut out: Vec<Lines> = Vec::new();
            let mut i: usize = 0;
            while i < n
                invariant
                    i <= n,
                    out@.len() == i,
                    views(out@) =~= Seq::new(i as nat, |j: int| Seq::<Seq<SpanModel>>::empty()),
                decreases n - i,
            {
                let empty: Vec<Line> = Vec::new();
                let col = Lines { lines: empty };
                assert(col@ =~= Seq::<Seq<SpanModel>>::empty());
                put(&mut out, col);
                i = i + 1;
            }
            assert(all =~= Seq::<Seq<Seq<SpanModel>>>::empty());
            out
        },
        Some(x) => {
            assert(views(rest@) =~= all.drop_last());
            let mut out = pack(rest, n);
            let c = find_lowest(&out);
            let ghost before = views(out@);
            let mut more = x;
            let ghost added = more@;
            let mut col = out.remove(c);
            let ghost (a, b) = (col.lines@, more.lines@);
            assert(col@ == before[c as int]);
            col.lines.append(&mut more.lines);
            assert(col@ =~= views(a) + views(b));
            out.insert(c, col);
            assert(views(out@) =~= before.update(c as int, before[c as int] + added));
            out
        },
    }
}

/// The title of the panel, and its columns.
pub fn draw_sensors(chips: &Vec<Chip<Double>>) -> (r: (Span, Vec<Lines>))
    ensures
        r.0@ == panel_title(plain("传感器 · "@ + dec(chips@.len()) + " 芯片"@)),
        views(r.1@) == sensor_columns(views(chips@)),
{
    let mut title: Vec<Piece> = Vec::new();
    put(
        &mut title,
        Piece::Text(
            owned("传感器 · ").concat(dec_text(chips.len() as u64).as_str()).concat(" 芯片"),
        ),
    );
    assert(views(title@) =~= plain("传感器 · "@ + dec(chips@.len()) + " 芯片"@));
    let ghost all = views(chips@);
    let mut out: Vec<Lines> = Vec::new();
    let mut i: usize = 0;
    while i < chips.len()
        invariant
            i <= chips.len(),
            all == views(chips@),
            views(out@) =~= blocks(all).take(i as int),
        decreases chips.len() - i,
    {
        assert(all[i as int] == chips@[i as int]@);
        put(&mut out, Lines { lines: chip_lines(&chips[i]) });
        i = i + 1;
    }
    assert(views(out@) =~= blocks(all));
    let n: usize = if chips.len() > 12 {
        4
    } else {
        3
    };
    (panel(title), pack(sort_by_height(out), n))
}

// ---------- laws ----------

/// Blocks are put in order: each is as high as those behind it or higher, and
/// none is lost or doubled.
pub proof fn lemma_highest_first<L>(s: Seq<Seq<L>>)
    ensures
        forall|i: int, j: int|
            #![trigger highest_first(s)[i], highest_first(s)[j]]
            0 <= i <= j < s.len() ==> highest_first(s)[i].len() >= highest_first(s)[j].len(),
        highest_first(s).len() == s.len(),
        highest_first(s).to_multiset() == s.to_multiset(),
    decreases s.len(),
{
    if s.len() > 0 {
        let t = s.drop_last();
        lemma_highest_first(t);
        lemma_placed_by_height(highest_first(t), s.last());
        assert(s =~= t.push(s.last()));
        broadcast use vstd::seq_lib::group_to_multiset_ensures;

        assert(s.to_multiset() =~= t.to_multiset().insert(s.last()));
    }
}

proof fn lemma_placed_by_height<L>(s: Seq<Seq<L>>, x: Seq<L>)
    requires
        forall|i: int, j: int|
            #![trigger s[i], s[j]]
            0 <= i <= j < s.len() ==> s[i].len() >= s[j].len(),
    ensures
        placed_by_height(s, x).len() == s.len() + 1,
        placed_by_height(s, x).to_multiset() == s.to_multiset().insert(x),
        forall|i: int|
            0 <= i <= s.len() ==> #[trigger] placed_by_height(s, x)[i] == x || s.contains(
                placed_by_height(s, x)[i],
            ),
        forall|i: int, j: int|
            #![trigger placed_by_height(s, x)[i], placed_by_height(s, x)[j]]
            0 <= i <= j <= s.len() ==> placed_by_height(s, x)[i].len() >= placed_by_height(
                s,
                x,
            )[j].len(),
    decreases s.len(),
{
    broadcast use vstd::seq_lib::group_to_multiset_ensures;

    let p = placed_by_height(s, x);
    if s.len() > 0 && s.last().len() < x.len() {
        let t = s.drop_last();
        assert forall|i: int, j: int|
            #![trigger t[i], t[j]]
            0 <= i <= j < t.len() implies t[i].len() >= t[j].len() by {
            assert(t[i] == s[i] && t[j] == s[j]);
        }
        lemma_placed_by_height(t, x);
        let q = placed_by_height(t, x);
        assert(s =~= t.push(s.last()));
        assert(p.to_multiset() =~= q.to_multiset().insert(s.last()));
        assert(p.to_multiset() =~= s.to_multiset().insert(x));
        assert forall|i: int| 0 <= i <= s.len() implies #[trigger] p[i] == x || s.contains(p[i]) by {
            if i < s.len() {
                assert(p[i] == q[i]);
                if q[i] != x {
                    let k = choose|k: int| 0 <= k < t.len() && t[k] == q[i];
                    assert(s[k] == p[i]);
                }
            } else {
                assert(p[i] == s[s.len() - 1]);
            }
        }
        assert forall|i: int, j: int|
            #![trigger p[i], p[j]]
            0 <= i <= j <= s.len() implies p[i].len() >= p[j].len() by {
            if j < s.len() {
                assert(p[i] == q[i] && p[j] == q[j]);
            } else if i < s.len() {
                assert(p[i] == q[i]);
                if q[i] != x {
                    let k = choose|k: int| 0 <= k < t.len() && t[k] == q[i];
                    assert(s[k].len() >= s[s.len() - 1].len());
                }
            }
        }
    } else {
        assert forall|i: int| 0 <= i <= s.len() implies #[trigger] p[i] == x || s.contains(p[i]) by {
            if i < s.len() {
                assert(p[i] == s[i]);
            }
        }
        assert forall|i: int, j: int|
            #![trigger p[i], p[j]]
            0 <= i <= j <= s.len() implies p[i].len() >= p[j].len() by {
            if j < s.len() {
                assert(p[i] == s[i] && p[j] == s[j]);
            } else if i < s.len() {
                assert(p[i] == s[i]);
                assert(s[i].len() >= s[s.len() - 1].len());
            }
        }
    }
}

proof fn lemma_lowest<L>(cols: Seq<Seq<L>>, n: nat)
    requires
        0 < n <= cols.len(),
    ensures
        0 <= lowest(cols, n) < n,
        forall|i: int| 0 <= i < n ==> cols[lowest(cols, n)].len() <= (#[trigger] cols[i]).len(),
        forall|i: int|
            0 <= i < lowest(cols, n) ==> cols[lowest(cols, n)].len() < (#[trigger] cols[i]).len(),
    decreases n,
{
    if n > 1 {
        lemma_lowest(cols, (n - 1) as nat);
    }
}

/// How high a row of columns is altogether.
pub open spec fn total<L>(s: Seq<Seq<L>>) -> nat
    decreases s.len(),
{
    if s.len() == 0 {
        0
    } else {
        total(s.drop_last()) + s.last().len()
    }
}

proof fn lemma_total_update<L>(s: Seq<Seq<L>>, i: int, x: Seq<L>)
    requires
        0 <= i < s.len(),
    ensures
        total(s.update(i, x)) == total(s) - s[i].len() + x.len(),
    decreases s.len(),
{
    let u = s.update(i, x);
    if i < s.len() - 1 {
        assert(u.drop_last() =~= s.drop_last().update(i, x));
        lemma_total_update(s.drop_last(), i, x);
    } else {
        assert(u.drop_last() =~= s.drop_last());
    }
}

proof fn lemma_total_of_none<L>(n: nat)
    ensures
        total(Seq::new(n, |i: int| Seq::<L>::empty())) == 0,
    decreases n,
{
    if n > 0 {
        let s = Seq::new(n, |i: int| Seq::<L>::empty());
        assert(s.drop_last() =~= Seq::new((n - 1) as nat, |i: int| Seq::<L>::empty()));
        lemma_total_of_none::<L>((n - 1) as nat);
    }
}

/// No line is lost or doubled on the way into the columns, and no column is
/// higher than another by more than the highest block.
pub proof fn lemma_columns_are_level<L>(blocks: Seq<Seq<L>>, n: nat, highest: nat)
    requires
        n > 0,
        forall|i: int| 0 <= i < blocks.len() ==> (#[trigger] blocks[i]).len() <= highest,
    ensures
        packed(blocks, n).len() == n,
        total(packed(blocks, n)) == total(blocks),
        forall|i: int, j: int|
            #![trigger packed(blocks, n)[i], packed(blocks, n)[j]]
            0 <= i < n && 0 <= j < n ==> packed(blocks, n)[i].len() <= packed(blocks, n)[j].len()
                + highest,
    decreases blocks.len(),
{
    if blocks.len() == 0 {
        lemma_total_of_none::<L>(n);
    } else {
        let t = blocks.drop_last();
        assert forall|i: int| 0 <= i < t.len() implies (#[trigger] t[i]).len() <= highest by {
            assert(t[i] == blocks[i]);
        }
        lemma_columns_are_level(t, n, highest);
        let cols = packed(t, n);
        lemma_lowest(cols, n);
        let c = lowest(cols, n);
        lemma_total_update(cols, c, cols[c] + blocks.last());
        assert(blocks[blocks.len() - 1].len() <= highest);
        let p = packed(blocks, n);
        assert forall|i: int, j: int|
            #![trigger p[i], p[j]]
            0 <= i < n && 0 <= j < n implies p[i].len() <= p[j].len() + highest by {
            assert(cols[i].len() <= cols[j].len() + highest);
            assert(cols[c].len() <= cols[j].len());
        }
    }
}

/// Each block stands whole in one of the columns: that which was the lowest
/// when it came.
pub proof fn lemma_blocks_stay_whole<L>(blocks: Seq<Seq<L>>, n: nat, k: int)
    requires
        n > 0,
        0 <= k < blocks.len(),
    ensures
        exists|c: int, at: int|
            0 <= c < n && 0 <= at && at + blocks[k].len() <= packed(blocks, n)[c].len()
                && #[trigger] packed(blocks, n)[c].subrange(at, at + blocks[k].len()) == blocks[k],
    decreases blocks.len(),
{
    let t = blocks.drop_last();
    let cols = packed(t, n);
    lemma_columns_exist(t, n);
    lemma_lowest(cols, n);
    let low = lowest(cols, n);
    let p = packed(blocks, n);
    if k == blocks.len() - 1 {
        let at = cols[low].len() as int;
        assert(p[low].subrange(at, at + blocks[k].len()) =~= blocks[k]);
    } else {
        assert(t[k] == blocks[k]);
        lemma_blocks_stay_whole(t, n, k);
        let (c, at) = choose|c: int, at: int|
            0 <= c < n && 0 <= at && at + t[k].len() <= packed(t, n)[c].len()
                && #[trigger] packed(t, n)[c].subrange(at, at + t[k].len()) == t[k];
        assert(p[c].subrange(at, at + blocks[k].len()) =~= cols[c].subrange(at, at + t[k].len()));
    }
}

proof fn lemma_columns_exist<L>(blocks: Seq<Seq<L>>, n: nat)
    requires
        n > 0,
    ensures
        packed(blocks, n).len() == n,
    decreases blocks.len(),
{
    if blocks.len() > 0 {
        lemma_columns_exist(blocks.drop_last(), n);
        lemma_lowest(packed(blocks.drop_last(), n), n);
    }
}

proof fn lemma_distinct_holds(s: Seq<Seq<char>>, x: Seq<char>)
    ensures
        s.contains(x) <==> distinct(s).contains(x),
    decreases s.len(),
{
    if s.len() > 0 {
        let t = s.drop_last();
        lemma_distinct_holds(t, x);
        assert(s =~= t.push(s.last()));
        assert(s.contains(x) <==> t.contains(x) || s.last() == x) by {
            if t.contains(x) {
                let i = choose|i: int| 0 <= i < t.len() && t[i] == x;
                assert(s[i] == x);
            }
            if s.last() == x {
                assert(s[s.len() - 1] == x);
            }
        }
        if !distinct(t).contains(s.last()) {
            let d = distinct(t).push(s.last());
            assert(d.contains(x) <==> distinct(t).contains(x) || s.last() == x) by {
                if distinct(t).contains(x) {
                    let i = choose|i: int| 0 <= i < distinct(t).len() && distinct(t)[i] == x;
                    assert(d[i] == x);
                }
                if s.last() == x {
                    assert(d[d.len() - 1] == x);
                }
            }
        }
    }
}

proof fn lemma_distinct_once(s: Seq<Seq<char>>)
    ensures
        distinct(s).no_duplicates(),
    decreases s.len(),
{
    if s.len() > 0 {
        lemma_distinct_once(s.drop_last());
    }
}

proof fn lemma_kept_holds<A, B>(s: Seq<A>, f: spec_fn(A) -> Option<B>, i: int)
    requires
        0 <= i < s.len(),
        f(s[i]) is Some,
    ensures
        kept(s, f).contains(f(s[i])->0),
    decreases s.len(),
{
    let t = s.drop_last();
    lemma_take_all(s);
    lemma_kept_step(s, f, s.len() - 1);
    assert(s.take(s.len() - 1) =~= t);
    let x = f(s[i])->0;
    if i < t.len() {
        assert(t[i] == s[i]);
        lemma_kept_holds(t, f, i);
        let k = choose|k: int| 0 <= k < kept(t, f).len() && kept(t, f)[k] == x;
        assert(kept(s, f)[k] == x);
    } else {
        assert(kept(s, f)[kept(s, f).len() - 1] == x);
    }
}

/// The lines for the cores are in the order of their names, one for each core;
/// and every reading is shown, on a line of its own or on that of its core.
pub proof fn lemma_every_reading_is_shown(r: Seq<ReadingModel<Double>>, i: int)
    requires
        0 <= i < r.len(),
    ensures
        in_order(cores(r), String::key()),
        cores(r).no_duplicates(),
        match core_name()(r[i]) {
            Some(core) => {
                &&& cores(r).contains(core)
                &&& core_part(core)(r[i]) is Some
                &&& kept(r, core_part(core)).contains(core_part(core)(r[i])->0)
            },
            None => {
                &&& reading_line()(r[i]) is Some
                &&& kept(r, reading_line()).contains(reading_line()(r[i])->0)
            },
        },
{
    broadcast use vstd::seq_lib::group_to_multiset_ensures;

    let names = kept(r, core_name());
    let d = distinct(names);
    lemma_distinct_once(names);
    lemma_sorted(d, String::key());
    d.lemma_multiset_has_no_duplicates();
    cores(r).lemma_multiset_has_no_duplicates_conv();
    match core_name()(r[i]) {
        Some(core) => {
            lemma_kept_holds(r, core_name(), i);
            lemma_distinct_holds(names, core);
            assert(d.to_multiset().contains(core));
            assert(cores(r).to_multiset().contains(core));
            lemma_kept_holds(r, core_part(core), i);
        },
        None => {
            lemma_kept_holds(r, reading_line(), i);
        },
    }
}

} // verus!
