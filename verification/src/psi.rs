//! Pressure stall information: the share of time in which work waited.
use vstd::prelude::*;

use crate::lists::{
    first, kept, lemma_first_at, lemma_first_none, lemma_kept_step, lemma_take_all, put, seen, views,
};
use crate::model::{Reading, ReadingModel, Unit, Value, ValueModel};
use crate::numbers::{decimal, is_decimal};
use crate::text::{
    after_prefix, chars, cut, lines, owned, spells, split_lines, split_once, split_words, string,
    strip_prefix, words,
};

verus! {

pub open spec fn ten_second_average() -> spec_fn(Seq<char>) -> Option<Seq<char>> {
    |w: Seq<char>| after_prefix(w, "avg10="@)
}

/// What one line says of the resource `name`: the average over ten seconds, if
/// there is one. The line of tasks that waited alone goes by the resource's
/// name, any other by that name and `_full`.
pub open spec fn psi_line(name: Seq<char>, line: Seq<char>) -> Option<ReadingModel<ValueModel>> {
    match cut(line, ' ') {
        None => None,
        Some((kind, rest)) => match first(words(rest), ten_second_average()) {
            None => None,
            Some(avg) => if is_decimal(avg) {
                Some(
                    ReadingModel {
                        label: if kind == "some"@ {
                            name
                        } else {
                            name + "_full"@
                        },
                        value: ValueModel::Decimal { text: avg, divisor: 1 },
                        unit: Unit::Pct,
                    },
                )
            } else {
                None
            },
        },
    }
}

pub open spec fn psi_of(name: Seq<char>) -> spec_fn(Seq<char>) -> Option<
    ReadingModel<ValueModel>,
> {
    |line: Seq<char>| psi_line(name, line)
}

/// What a resource's file says, where it could be read.
pub open spec fn psi_file(name: Seq<char>, text: Option<Seq<char>>) -> Seq<
    ReadingModel<ValueModel>,
> {
    match text {
        Some(t) => kept(lines(t), psi_of(name)),
        None => Seq::empty(),
    }
}

fn find_average<'a>(rest: &'a [char]) -> (r: Option<&'a [char]>)
    ensures
        seen(r) == first(words(rest@), ten_second_average()),
{
    let ws = split_words(rest);
    let ghost all = words(rest@);
    let mut i: usize = 0;
    while i < ws.len()
        invariant
            i <= ws.len(),
            views(ws@) == all,
            all == words(rest@),
            forall|j: int| 0 <= j < i ==> ten_second_average()(#[trigger] all[j]) is None,
        decreases ws.len() - i,
    {
        assert(all[i as int] == ws@[i as int]@);
        let found = strip_prefix(ws[i], "avg10=");
        if found.is_some() {
            proof {
                lemma_first_at(all, ten_second_average(), i as int);
            }
            return found;
        }
        i = i + 1;
    }
    proof {
        lemma_first_none(all, ten_second_average());
    }
    None
}

fn psi_reading(name: &str, line: &[char]) -> (r: Option<Reading<Value>>)
    ensures
        seen(r) == psi_line(name@, line@),
{
    match split_once(line, ' ') {
        None => None,
        Some((kind, rest)) => match find_average(rest) {
            None => None,
            Some(avg) => {
                if !decimal(avg) {
                    return None;
                }
                let label = if spells(kind, "some") {
                    owned(name)
                } else {
                    owned(name).concat("_full")
                };
                Some(
                    Reading {
                        label,
                        value: Value::Decimal { text: string(avg), divisor: 1 },
                        unit: Unit::Pct,
                    },
                )
            },
        },
    }
}

fn add_file(out: &mut Vec<Reading<Value>>, name: &str, text: Option<&str>)
    ensures
        views(final(out)@) == views(old(out)@) + psi_file(name@, seen(text)),
{
    if let Some(t) = text {
        let t = chars(t);
        let ls = split_lines(t.as_slice());
        let ghost all = lines(t@);
        let ghost start = views(out@);
        let mut i: usize = 0;
        assert(start + kept(all.take(0), psi_of(name@)) =~= start);
        while i < ls.len()
            invariant
                i <= ls.len(),
                views(ls@) == all,
                views(out@) == start + kept(all.take(i as int), psi_of(name@)),
            decreases ls.len() - i,
        {
            assert(all[i as int] == ls@[i as int]@);
            proof {
                lemma_kept_step(all, psi_of(name@), i as int);
            }
            if let Some(r) = psi_reading(name, ls[i]) {
                put(out, r);
            }
            i = i + 1;
        }
        proof {
            lemma_take_all(all);
        }
    } else {
        assert(views(out@) + psi_file(name@, None) =~= views(out@));
    }
}

/// The readings of the three resources, from what their files say.
pub fn read_psi(cpu: Option<&str>, memory: Option<&str>, io: Option<&str>) -> (r: Vec<
    Reading<Value>,
>)
    ensures
        views(r@) == psi_file("cpu"@, seen(cpu)) + psi_file("mem"@, seen(memory)) + psi_file(
            "io"@,
            seen(io),
        ),
{
    let mut out: Vec<Reading<Value>> = Vec::new();
    add_file(&mut out, "cpu", cpu);
    add_file(&mut out, "mem", memory);
    add_file(&mut out, "io", io);
    assert(views(out@) =~= psi_file("cpu"@, seen(cpu)) + psi_file("mem"@, seen(memory)) + psi_file(
        "io"@,
        seen(io),
    ));
    out
}

} // verus!
