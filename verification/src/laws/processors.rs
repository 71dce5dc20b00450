//! Processors: how busy they are, how many there are, and what they are called.
use vstd::prelude::*;

use crate::cpu::{
    all_cpus, as_count, busy_share, busy_shares, counts, cpu_lines, last_total, model_line,
    model_of, one_cpu, one_cpu_fn, processors, stat_of, sum, ticks_of, Share, Ticks,
};
use crate::laws::text::{
    as_lines, blank, lemma_as_lines, lemma_cut_at, lemma_first_word, lemma_number_reads_back,
    lemma_numerals, lemma_one_line, lemma_prefix_and_suffix, lemma_trimmed, lemma_written_number,
    numerals, one_line, spaced,
};
use crate::lists::{
    kept, lemma_first_at, lemma_first_none, lemma_kept_all, lemma_kept_both, lemma_kept_one,
};
use crate::numbers::dec;
use crate::text::{is_digit, is_space, lines, starts, words};

verus! {

/// Time that a processor spends in one more state is added to its total. It is
/// idle time if it is the fourth or the fifth state: nothing to do, or waiting
/// for input and output.
pub proof fn lemma_time_is_added_up(c: Seq<u64>, k: int, x: u64)
    requires
        c.len() >= 4,
        0 <= k < c.len(),
        sum(c) + x <= u64::MAX,
    ensures
        ticks_of(c) is Some,
        ticks_of(c.update(k, (c[k] + x) as u64)) is Some,
        ({
            let (a, b) = (ticks_of(c)->0, ticks_of(c.update(k, (c[k] + x) as u64))->0);
            &&& b.total == a.total + x
            &&& b.idle == a.idle + (if k == 3 || k == 4 {
                x
            } else {
                0
            })
        }),
{
    let d = c.update(k, (c[k] + x) as u64);
    lemma_part_of_sum(c, k);
    lemma_sum_updated(c, k, x);
    lemma_two_parts(c);
    lemma_two_parts(d);
}

/// A processor that has spent no time at all has no ticks, and a line with less
/// than four counts says nothing.
pub proof fn lemma_no_time(c: Seq<u64>)
    ensures
        c.len() < 4 ==> ticks_of(c) is None,
        c.len() >= 4 && (forall|i: int| 0 <= i < c.len() ==> #[trigger] c[i] == 0) ==> ticks_of(c)
            == Some(Ticks { idle: 0, total: 0 }),
    decreases c.len(),
{
    if c.len() >= 4 && forall|i: int| 0 <= i < c.len() ==> #[trigger] c[i] == 0 {
        lemma_sum_of_zeros(c);
    }
}

proof fn lemma_sum_of_zeros(c: Seq<u64>)
    requires
        forall|i: int| 0 <= i < c.len() ==> #[trigger] c[i] == 0,
    ensures
        sum(c) == 0,
    decreases c.len(),
{
    if c.len() > 0 {
        lemma_sum_of_zeros(c.drop_last());
    }
}

proof fn lemma_part_of_sum(c: Seq<u64>, k: int)
    requires
        0 <= k < c.len(),
    ensures
        0 <= c[k] <= sum(c),
    decreases c.len(),
{
    if k < c.len() - 1 {
        lemma_part_of_sum(c.drop_last(), k);
    } else {
        lemma_sum_positive(c.drop_last());
    }
}

proof fn lemma_sum_positive(c: Seq<u64>)
    ensures
        sum(c) >= 0,
    decreases c.len(),
{
    if c.len() > 0 {
        lemma_sum_positive(c.drop_last());
    }
}

proof fn lemma_two_parts(c: Seq<u64>)
    ensures
        c.len() == 4 ==> sum(c) >= c[3],
        c.len() > 4 ==> sum(c) >= c[3] + c[4],
    decreases c.len(),
{
    if c.len() > 5 {
        lemma_two_parts(c.drop_last());
    } else if c.len() == 5 {
        lemma_part_of_sum(c.drop_last(), 3);
    } else if c.len() == 4 {
        lemma_part_of_sum(c, 3);
    }
}

proof fn lemma_sum_updated(c: Seq<u64>, k: int, x: u64)
    requires
        0 <= k < c.len(),
        c[k] + x <= u64::MAX,
    ensures
        sum(c.update(k, (c[k] + x) as u64)) == sum(c) + x,
    decreases c.len(),
{
    let d = c.update(k, (c[k] + x) as u64);
    if k < c.len() - 1 {
        lemma_sum_updated(c.drop_last(), k, x);
        assert(d.drop_last() =~= c.drop_last().update(k, (c[k] + x) as u64));
    } else {
        assert(d.drop_last() =~= c.drop_last());
    }
}

/// Numbers in a row are counted as they are, and any other words are passed over.
pub proof fn lemma_counts(ns: Seq<u64>)
    ensures
        counts(spaced(numerals(ns))) == ns,
{
    lemma_numerals(ns);
    assert forall|i: int| 0 <= i < ns.len() implies as_count()(#[trigger] numerals(ns)[i]) == Some(
        ns[i],
    ) by {
        lemma_number_reads_back(ns[i] as nat);
    }
    lemma_kept_all(numerals(ns), as_count(), ns);
}

/// A line of one processor, whatever its number, gives the counts behind the
/// number; a line of all of them gives the counts behind `cpu`.
pub proof fn lemma_processor_line(n: u64, t: Seq<char>)
    ensures
        one_cpu("cpu"@ + dec(n as nat) + " "@ + t) == ticks_of(counts(t)),
        all_cpus("cpu"@ + dec(n as nat) + " "@ + t) is None,
        all_cpus("cpu "@ + t) == ticks_of(counts(t)),
        one_cpu("cpu "@ + t) is None,
{
    reveal_strlit("cpu");
    reveal_strlit("cpu ");
    reveal_strlit(" ");
    let d = dec(n as nat);
    lemma_written_number(n as nat);
    lemma_number_reads_back(n as nat);
    let rest = d + " "@ + t;
    assert("cpu"@ + d + " "@ + t =~= "cpu"@ + rest);
    lemma_prefix_and_suffix("cpu"@, rest);
    lemma_first_word(d, " "@, t);
    lemma_kept_both(seq![d], words(t), as_count());
    lemma_kept_one(d, as_count());
    assert(counts(rest) =~= seq![n] + counts(t));
    assert(counts(rest).drop_first() =~= counts(t));
    assert(rest[0] == d[0]);
    assert("cpu "@ + t =~= "cpu"@ + (" "@ + t));
    lemma_prefix_and_suffix("cpu"@, " "@ + t);
    assert((" "@ + t)[0] == ' ');
}

/// The first lines of `/proc/stat`: the counts of all processors, and of each.
pub open spec fn stat_rows(total: Seq<u64>, per: Seq<Seq<u64>>) -> Seq<Seq<char>> {
    seq!["cpu "@ + spaced(numerals(total))] + Seq::new(
        per.len(),
        |i: int| "cpu"@ + dec(i as nat) + " "@ + spaced(numerals(per[i])),
    )
}

/// Every processor in `/proc/stat` is counted, however many there are, in their
/// order, and so are all of them together.
pub proof fn lemma_every_processor_is_counted(
    total: Seq<u64>,
    per: Seq<Seq<u64>>,
    rest: Seq<char>,
)
    requires
        total.len() >= 4,
        per.len() <= u64::MAX,
        forall|i: int| 0 <= i < per.len() ==> (#[trigger] per[i]).len() >= 4,
        lines(rest).len() == 0 || !starts(lines(rest)[0], "cpu"@),
    ensures
        stat_of(Some(as_lines(stat_rows(total, per)) + rest)) == Some(
            (ticks_of(total)->0, Seq::new(per.len(), |i: int| ticks_of(per[i])->0)),
        ),
{
    let rows = stat_rows(total, per);
    reveal_strlit("cpu");
    reveal_strlit("cpu ");
    reveal_strlit(" ");
    lemma_numerals(total);
    lemma_counts(total);
    lemma_processor_line(0, spaced(numerals(total)));
    assert(one_line("cpu "@));
    lemma_one_line("cpu "@, spaced(numerals(total)));
    let ticks = Seq::new(per.len(), |i: int| ticks_of(per[i])->0);
    assert forall|i: int| 0 <= i < rows.len() implies one_line(#[trigger] rows[i]) && starts(
        rows[i],
        "cpu"@,
    ) && (i > 0 ==> one_cpu(rows[i]) == Some(ticks[i - 1]) && all_cpus(rows[i]) is None) by {
        if i > 0 {
            let ns = per[i - 1];
            let d = dec((i - 1) as nat);
            lemma_numerals(ns);
            lemma_counts(ns);
            lemma_processor_line((i - 1) as u64, spaced(numerals(ns)));
            lemma_written_number((i - 1) as nat);
            lemma_word_is_line(d);
            lemma_one_line("cpu"@, d);
            lemma_one_line("cpu"@ + d, " "@);
            lemma_one_line("cpu"@ + d + " "@, spaced(numerals(ns)));
            assert(rows[i] =~= "cpu"@ + (d + " "@ + spaced(numerals(ns))));
            lemma_prefix_and_suffix("cpu"@, d + " "@ + spaced(numerals(ns)));
        } else {
            assert(rows[0] =~= "cpu"@ + (" "@ + spaced(numerals(total))));
            lemma_prefix_and_suffix("cpu"@, " "@ + spaced(numerals(total)));
        }
    }
    lemma_as_lines(rows, rest);
    lemma_leading(rows, lines(rest));
    lemma_total_first(rows);
    let (a, b) = (seq![rows[0]], rows.drop_first());
    assert(rows =~= a + b);
    lemma_kept_both(a, b, one_cpu_fn());
    lemma_kept_one(rows[0], one_cpu_fn());
    assert forall|i: int| 0 <= i < b.len() implies one_cpu_fn()(#[trigger] b[i]) == Some(ticks[i]) by {
        assert(rows[i + 1] == b[i]);
    }
    lemma_kept_all(b, one_cpu_fn(), ticks);
    assert(kept(rows, one_cpu_fn()) =~= ticks);
}

proof fn lemma_word_is_line(w: Seq<char>)
    requires
        forall|i: int| 0 <= i < w.len() ==> is_digit(#[trigger] w[i]),
    ensures
        one_line(w),
{
    assert forall|i: int| 0 <= i < w.len() implies #[trigger] w[i] != '\n' && w[i] != '\r' by {
        assert(is_digit(w[i]));
    }
}

proof fn lemma_leading(rows: Seq<Seq<char>>, rest: Seq<Seq<char>>)
    requires
        forall|i: int| 0 <= i < rows.len() ==> starts(#[trigger] rows[i], "cpu"@),
        rest.len() == 0 || !starts(rest[0], "cpu"@),
    ensures
        cpu_lines(rows + rest) == rows,
    decreases rows.len(),
{
    if rows.len() > 0 {
        let t = rows.drop_first();
        assert forall|i: int| 0 <= i < t.len() implies starts(#[trigger] t[i], "cpu"@) by {
            assert(rows[i + 1] == t[i]);
        }
        lemma_leading(t, rest);
        assert((rows + rest).drop_first() =~= t + rest);
        assert((rows + rest)[0] == rows[0]);
        assert(seq![rows[0]] + t =~= rows);
    } else {
        assert(rows + rest =~= rest);
        assert(cpu_lines(rest) =~= rows);
    }
}

proof fn lemma_total_first(rows: Seq<Seq<char>>)
    requires
        rows.len() > 0,
        all_cpus(rows[0]) is Some,
        forall|i: int| 0 < i < rows.len() ==> all_cpus(#[trigger] rows[i]) is None,
    ensures
        last_total(rows) == all_cpus(rows[0]),
    decreases rows.len(),
{
    if rows.len() > 1 {
        let t = rows.drop_last();
        assert forall|i: int| 0 < i < t.len() implies all_cpus(#[trigger] t[i]) is None by {
            assert(rows[i] == t[i]);
        }
        lemma_total_first(t);
        assert(rows[rows.len() - 1] == rows.last());
    }
}

/// A processor that was busy for one time and idle for another since it was last
/// counted was busy for the one part of both together.
pub proof fn lemma_busy_part(before: Ticks, busy: u64, idle: u64)
    requires
        before.total + busy + idle <= u64::MAX,
        before.idle + idle <= u64::MAX,
    ensures
        busy_share(
            Some(before),
            Ticks {
                idle: (before.idle + idle) as u64,
                total: (before.total + busy + idle) as u64,
            },
        ) == (Share { part: busy, whole: (busy + idle) as u64 }),
{
}

/// Before it was counted once, no processor was busy; and none was if no time has
/// passed, or its time stands still or has started over.
pub proof fn lemma_not_busy(before: Ticks, now: Ticks)
    ensures
        busy_share(None, now) == (Share { part: 0, whole: 0 }),
        now.total <= before.total ==> busy_share(Some(before), now) == (Share {
            part: 0,
            whole: 0,
        }),
{
}

/// The share of a processor is that between its own two counts, whatever the
/// others did; one that was not counted before was not busy.
pub proof fn lemma_shares_are_apart(before: Seq<Ticks>, now: Seq<Ticks>, i: int)
    requires
        0 <= i < now.len(),
    ensures
        busy_shares(before, now).len() == now.len(),
        i < before.len() ==> busy_shares(before, now)[i] == busy_share(Some(before[i]), now[i]),
        i >= before.len() ==> busy_shares(before, now)[i] == (Share { part: 0, whole: 0 }),
{
}

/// Every line of `/proc/cpuinfo` that begins with `processor` is one processor,
/// and no other line is.
pub proof fn lemma_processors_are_lines(ls: Seq<Seq<char>>, rest: Seq<char>, other: Seq<char>)
    requires
        other.len() < 9 || other.take(9) != "processor"@,
    ensures
        processors(Seq::empty()) == 0,
        processors(ls.push("processor"@ + rest)) == processors(ls) + 1,
        processors(ls.push(other)) == processors(ls),
{
    reveal_strlit("processor");
    let (a, b) = (ls.push("processor"@ + rest), ls.push(other));
    assert(a.drop_last() =~= ls);
    assert(b.drop_last() =~= ls);
    lemma_prefix_and_suffix("processor"@, rest);
}

/// The model is what stands behind the colon on the first line for it, without
/// the white space round it, whatever comes before and behind that line.
pub proof fn lemma_model(
    before: Seq<Seq<char>>,
    key: Seq<char>,
    gap: Seq<char>,
    name: Seq<char>,
    rest: Seq<char>,
)
    requires
        forall|i: int|
            0 <= i < before.len() ==> one_line(#[trigger] before[i]) && !starts(
                before[i],
                "model name"@,
            ),
        one_line(key),
        !key.contains(':'),
        blank(gap),
        one_line(gap),
        one_line(name),
        name.len() > 0,
        !is_space(name[0]),
        !is_space(name.last()),
    ensures
        model_of(
            Some(as_lines(before.push("model name"@ + key + ":"@ + gap + name)) + rest),
        ) == name,
{
    reveal_strlit("model name");
    reveal_strlit(":");
    let head = "model name"@ + key;
    let line = head + ":"@ + gap + name;
    let rows = before.push(line);
    lemma_one_line("model name"@, key);
    lemma_one_line(head, ":"@);
    lemma_one_line(head + ":"@, gap);
    lemma_one_line(head + ":"@ + gap, name);
    assert forall|i: int| 0 <= i < rows.len() implies one_line(#[trigger] rows[i]) by {
        if i < before.len() {
            assert(rows[i] == before[i]);
        }
    }
    lemma_as_lines(rows, rest);
    let all = rows + lines(rest);
    let k = before.len() as int;
    assert(all[k] == line);
    assert(line =~= "model name"@ + (key + ":"@ + gap + name));
    lemma_prefix_and_suffix("model name"@, key + ":"@ + gap + name);
    assert forall|j: int| 0 <= j < k implies model_line()(#[trigger] all[j]) is None by {
        assert(all[j] == before[j]);
    }
    lemma_first_at(all, model_line(), k);
    assert(!head.contains(':')) by {
        if head.contains(':') {
            let i = choose|i: int| 0 <= i < head.len() && head[i] == ':';
            if i >= 10 {
                assert(key[i - 10] == ':');
            }
        }
    }
    assert(line =~= head + seq![':'] + (gap + name));
    lemma_cut_at(head, ':', gap + name);
    lemma_trimmed(gap, name, Seq::empty());
    assert(gap + name + Seq::<char>::empty() =~= gap + name);
}

/// A model that is not told is unknown.
pub proof fn lemma_no_model(ls: Seq<Seq<char>>)
    requires
        forall|i: int|
            0 <= i < ls.len() ==> one_line(#[trigger] ls[i]) && !starts(ls[i], "model name"@),
    ensures
        model_of(None) == "未知 CPU"@,
        model_of(Some(as_lines(ls))) == "未知 CPU"@,
{
    let none = Seq::<char>::empty();
    lemma_as_lines(ls, none);
    assert(as_lines(ls) + none =~= as_lines(ls));
    assert(lines(none).len() == 0);
    assert(lines(as_lines(ls)) =~= ls);
    lemma_first_none(ls, model_line());
    lemma_first_none(Seq::<Seq<char>>::empty(), model_line());
}

/// Time that is too long for its counter runs over.
pub proof fn lemma_time_runs_over(c: Seq<u64>)
    requires
        c.len() >= 5,
    ensures
        ticks_of(c) matches Some(t) && (sum(c) - t.total) % 18_446_744_073_709_551_616 == 0 && (c[3]
            + c[4] - t.idle) % 18_446_744_073_709_551_616 == 0,
{
}

/// Of several lines on all processors together the last counts, whatever other lines
/// stand between them.
pub proof fn lemma_last_total(ls: Seq<Seq<char>>, l: Seq<char>, t: Ticks)
    ensures
        last_total(Seq::empty()) is None,
        all_cpus(l) == Some(t) ==> last_total(ls.push(l)) == Some(t),
        all_cpus(l) is None ==> last_total(ls.push(l)) == last_total(ls),
{
    assert(ls.push(l).drop_last() =~= ls);
}

} // verus!
