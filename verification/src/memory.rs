//! Memory and load: `/proc/meminfo`, `/proc/uptime`, `/proc/loadavg`.
use vstd::prelude::*;

use crate::files::{decimal_or_zero, value_or_zero};
use crate::lists::{lemma_take_all, seen, views};
use crate::model::{MemSnapshot, Value};
use crate::numbers::{decimal_u64, parse_u64};
use crate::text::{chars, find, find_char, lines, spells, split_lines, split_words, words};

verus! {

/// The number in a line's second word, if the line goes by the given key: that
/// is what stands before its first colon.
pub open spec fn mem_entry(line: Seq<char>, key: Seq<char>) -> Option<int> {
    if line.take(find(line, ':') as int) == key && words(line).len() >= 2 {
        decimal_u64(words(line)[1])
    } else {
        None
    }
}

/// The number in the last line under the key, or zero where there is none.
pub open spec fn mem_field(lines: Seq<Seq<char>>, key: Seq<char>) -> int
    decreases lines.len(),
{
    if lines.len() == 0 {
        0
    } else {
        match mem_entry(lines.last(), key) {
            Some(v) => v,
            None => mem_field(lines.drop_last(), key),
        }
    }
}

/// What the lines say of memory and swap space.
pub open spec fn mem_of(m: MemSnapshot, lines: Seq<Seq<char>>) -> bool {
    &&& m.total_kib == mem_field(lines, "MemTotal"@)
    &&& m.avail_kib == mem_field(lines, "MemAvailable"@)
    &&& m.swap_total_kib == mem_field(lines, "SwapTotal"@)
    &&& m.swap_free_kib == mem_field(lines, "SwapFree"@)
}

/// The lines of a text that could be read, or none.
pub open spec fn lines_of(text: Option<Seq<char>>) -> Seq<Seq<char>> {
    match text {
        Some(t) => lines(t),
        None => Seq::empty(),
    }
}

proof fn lemma_keys_differ()
    ensures
        "MemTotal"@ != "MemAvailable"@,
        "MemTotal"@ != "SwapTotal"@,
        "MemTotal"@ != "SwapFree"@,
        "MemAvailable"@ != "SwapTotal"@,
        "MemAvailable"@ != "SwapFree"@,
        "SwapTotal"@ != "SwapFree"@,
{
    reveal_strlit("MemTotal");
    reveal_strlit("MemAvailable");
    reveal_strlit("SwapTotal");
    reveal_strlit("SwapFree");
    assert("MemTotal"@.len() == 8 && "MemAvailable"@.len() == 12);
    assert("SwapTotal"@.len() == 9 && "SwapFree"@.len() == 8);
    assert("MemTotal"@[0] == 'M' && "SwapFree"@[0] == 'S');
}

/// Memory and swap space from the text of `/proc/meminfo`.
pub fn read_mem(meminfo: Option<&str>) -> (r: MemSnapshot)
    ensures
        mem_of(r, lines_of(seen(meminfo))),
{
    let mut m = MemSnapshot { total_kib: 0, avail_kib: 0, swap_total_kib: 0, swap_free_kib: 0 };
    let t = match meminfo {
        Some(s) => chars(s),
        None => {
            return m;
        },
    };
    let ls = split_lines(t.as_slice());
    let ghost all = lines(t@);
    let mut i: usize = 0;
    while i < ls.len()
        invariant
            i <= ls.len(),
            views(ls@) == all,
            mem_of(m, all.take(i as int)),
        decreases ls.len() - i,
    {
        let line = ls[i];
        assert(line@ == all[i as int]);
        proof {
            assert(all.take(i + 1).drop_last() =~= all.take(i as int));
            assert(all.take(i + 1).last() == line@);
            lemma_keys_differ();
        }
        let ws = split_words(line);
        let k = find_char(line, ':');
        let key = vstd::slice::slice_subrange(line, 0, k);
        assert(key@ =~= line@.take(find(line@, ':') as int));
        if ws.len() >= 2 {
            assert(ws@[1]@ == words(line@)[1]);
            if let Some(v) = parse_u64(ws[1]) {
                if spells(key, "MemTotal") {
                    m.total_kib = v;
                } else if spells(key, "MemAvailable") {
                    m.avail_kib = v;
                } else if spells(key, "SwapTotal") {
                    m.swap_total_kib = v;
                } else if spells(key, "SwapFree") {
                    m.swap_free_kib = v;
                }
            }
        }
        i = i + 1;
    }
    proof {
        lemma_take_all(all);
    }
    m
}

/// The word at the given place of a text that could be read.
pub open spec fn word_at(text: Option<Seq<char>>, i: int) -> Option<Seq<char>> {
    match text {
        Some(t) => if 0 <= i < words(t).len() {
            Some(words(t)[i])
        } else {
            None
        },
        None => None,
    }
}

/// The time since the machine started, in seconds, and the three load averages:
/// the first word of the one file and the first three of the other.
pub fn read_uptime_load(uptime: Option<&str>, loadavg: Option<&str>) -> (r: (Value, [Value; 3]))
    ensures
        r.0@ == decimal_or_zero(word_at(seen(uptime), 0)),
        forall|i: int| 0 <= i < 3 ==> (#[trigger] r.1@[i])@ == decimal_or_zero(
            word_at(seen(loadavg), i),
        ),
{
    let t = match uptime {
        Some(s) => chars(s),
        None => Vec::new(),
    };
    let ws = split_words(t.as_slice());
    let up = if ws.len() > 0 {
        assert(ws@[0]@ == views(ws@)[0]);
        value_or_zero(Some(ws[0]))
    } else {
        value_or_zero(None)
    };
    let l = match loadavg {
        Some(s) => chars(s),
        None => Vec::new(),
    };
    let ls = split_words(l.as_slice());
    proof {
        assert forall|i: int| 0 <= i < ls@.len() implies (#[trigger] ls@[i])@ == words(l@)[i] by {
            assert(ls@[i]@ == views(ls@)[i]);
        }
    }
    let a = if ls.len() > 0 {
        value_or_zero(Some(ls[0]))
    } else {
        value_or_zero(None)
    };
    let b = if ls.len() > 1 {
        value_or_zero(Some(ls[1]))
    } else {
        value_or_zero(None)
    };
    let c = if ls.len() > 2 {
        value_or_zero(Some(ls[2]))
    } else {
        value_or_zero(None)
    };
    let load = [a, b, c];
    (up, load)
}

} // verus!
