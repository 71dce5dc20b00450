//! The command line, the keys, and the order of names.
use vstd::prelude::*;

use crate::cli::{
    cli_message, command, first_wait, interval_of, interval_words, parsed, CliError, CommandModel,
    Parsed, HALF_SECOND, LONGEST_INTERVAL, SHORTEST_INTERVAL,
};
use crate::double::Double;
use crate::laws::text::{blank, lemma_tails, lemma_trimmed, lemma_white_space};
use crate::numbers::is_decimal;
use crate::order::{lemma_sorted, placed, precedes, sorted};
use crate::text::is_space;
use crate::tui::{Effect, Input, Key, Tui, HOUR, SHORTEST_WAIT};

verus! {

// ---------- the command line ----------

/// The interval may have blanks around it, and one or more of the letter s behind it.
pub proof fn lemma_interval_words(front: Seq<char>, t: Seq<char>, back: Seq<char>)
    requires
        blank(front),
        blank(back),
        t.len() > 0,
        !is_space(t[0]) && !is_space(t.last()),
        t.last() != 's',
    ensures
        interval_words(front + t + back) == t,
        interval_words(front + t + "s"@ + back) == t,
        interval_words(front + t + " s"@ + back) == t,
{
    reveal_strlit("s");
    reveal_strlit(" s");
    let none = Seq::<char>::empty();
    lemma_trimmed(front, t, back);
    lemma_tails(t, none, 's');
    assert(t + none =~= t);
    lemma_trimmed(none, t, none);
    let a = t + "s"@;
    assert(a.last() == 's' && a[0] == t[0]);
    lemma_white_space('s');
    lemma_white_space(' ');
    lemma_trimmed(front, a, back);
    assert(front + a + back =~= front + t + "s"@ + back);
    lemma_tails(t, "s"@, 's');
    let b = t + " s"@;
    let c = t + seq![' '];
    assert(b.last() == 's' && b[0] == t[0]);
    lemma_trimmed(front, b, back);
    assert(front + b + back =~= front + t + " s"@ + back);
    assert(b =~= c + seq!['s']);
    lemma_tails(c, seq!['s'], 's');
    lemma_trimmed(none, t, seq![' ']);
    assert(none + t + seq![' '] =~= c);
}

/// An interval is taken where it is a number above zero, and is otherwise refused for
/// what it is.
pub proof fn lemma_interval(s: Seq<char>, i: usize, d: Double)
    ensures
        is_decimal(interval_words(s)) && !d.is_nan() && d.scaled() > 0 ==> interval_of(s, i, Some(d))
            == Ok::<Double, CliError>(d),
        is_decimal(interval_words(s)) && (d.is_nan() || d.scaled() <= 0) ==> interval_of(
            s,
            i,
            Some(d),
        ) == Err::<Double, CliError>(CliError::NotPositive),
        !is_decimal(interval_words(s)) ==> interval_of(s, i, Some(d)) == Err::<Double, CliError>(
            CliError::NotANumber(i),
        ),
        interval_of(s, i, None) == Err::<Double, CliError>(CliError::NotANumber(i)),
{
}

/// An option for the interval takes the argument behind it; the last one counts.
pub proof fn lemma_interval_option(
    args: Seq<Seq<char>>,
    numbers: Seq<Option<Double>>,
    i: int,
    was: Double,
    names: Seq<Seq<char>>,
    d: Double,
)
    requires
        0 <= i < args.len(),
        args.len() <= usize::MAX,
        args[i] == "-i"@ || args[i] == "--interval"@,
    ensures
        i + 1 == args.len() ==> parsed(args, numbers, i, was, names) == Err::<Parsed, CliError>(
            CliError::NoInterval,
        ),
        i + 1 < args.len() && i + 1 < numbers.len() && numbers[i + 1] == Some(d) && is_decimal(
            interval_words(args[i + 1]),
        ) && !d.is_nan() && d.scaled() > 0 ==> parsed(args, numbers, i, was, names) == parsed(
            args,
            numbers,
            i + 2,
            d,
            names,
        ),
        i + 1 < args.len() && i + 1 < numbers.len() && numbers[i + 1] is None ==> parsed(
            args,
            numbers,
            i,
            was,
            names,
        ) == Err::<Parsed, CliError>(CliError::NotANumber((i + 1) as usize)),
        i + 1 < args.len() && i + 1 >= numbers.len() ==> parsed(args, numbers, i, was, names)
            == Err::<Parsed, CliError>(CliError::NotANumber((i + 1) as usize)),
{
}

/// The options for help end the reading; any other argument is taken as it stands, and
/// at the end nothing is left to be said.
pub proof fn lemma_other_arguments(
    args: Seq<Seq<char>>,
    numbers: Seq<Option<Double>>,
    i: int,
    was: Double,
    names: Seq<Seq<char>>,
)
    requires
        0 <= i <= args.len(),
    ensures
        i == args.len() ==> parsed(args, numbers, i, was, names) == Ok::<Parsed, CliError>(
            Parsed { help: false, interval: was, positional: names },
        ),
        i < args.len() && (args[i] == "-h"@ || args[i] == "--help"@) ==> parsed(
            args,
            numbers,
            i,
            was,
            names,
        ) == Ok::<Parsed, CliError>(Parsed { help: true, interval: was, positional: names }),
        i < args.len() && args[i] != "-h"@ && args[i] != "--help"@ && args[i] != "-i"@ && args[i]
            != "--interval"@ ==> parsed(args, numbers, i, was, names) == parsed(
            args,
            numbers,
            i + 1,
            was,
            names.push(args[i]),
        ),
{
    reveal_strlit("-i");
    reveal_strlit("--interval");
    reveal_strlit("-h");
    reveal_strlit("--help");
    assert("-i"@.len() == 2 && "-i"@[1] == 'i' && "-h"@.len() == 2 && "-h"@[1] == 'h'
        && "--interval"@.len() == 10 && "--help"@.len() == 6);
}

/// The commands by their words; without one the screen is shown.
pub proof fn lemma_commands(d: Double, name: Seq<char>, more: Seq<Seq<char>>)
    ensures
        ({
            let p = Parsed { help: false, interval: d, positional: seq![name] + more };
            let c = command(p);
            &&& command(Parsed { help: true, ..p }) == CommandModel::Help
            &&& command(Parsed { positional: Seq::empty(), ..p }) == CommandModel::Tui
            &&& name == "tui"@ ==> c == CommandModel::Tui
            &&& name == "dump"@ ==> c == CommandModel::Dump
            &&& name == "log"@ && more.len() == 0 ==> c == CommandModel::Log(None)
            &&& name == "log"@ && more.len() > 0 ==> c == CommandModel::Log(Some(more[0]))
            &&& name == "smu-probe"@ ==> c == CommandModel::SmuProbe
            &&& name == "smu-table"@ ==> c == CommandModel::SmuTable
            &&& name == "smuctl"@ ==> c == CommandModel::Smuctl(more)
            &&& name != "tui"@ && name != "dump"@ && name != "log"@ && name != "smu-probe"@ && name
                != "smu-table"@ && name != "smuctl"@ ==> c == CommandModel::Unknown(name)
        }),
{
    reveal_strlit("tui");
    reveal_strlit("dump");
    reveal_strlit("log");
    reveal_strlit("smu-probe");
    reveal_strlit("smu-table");
    reveal_strlit("smuctl");
    assert("tui"@.len() == 3 && "tui"@[0] == 't' && "dump"@.len() == 4 && "log"@.len() == 3
        && "log"@[0] == 'l' && "smu-probe"@.len() == 9 && "smu-probe"@[4] == 'p'
        && "smu-table"@.len() == 9 && "smu-table"@[4] == 't' && "smuctl"@.len() == 6);
    let s = seq![name] + more;
    assert(s[0] == name);
    assert(s.skip(1) =~= more);
    if more.len() > 0 {
        assert(s[1] == more[0]);
    }
}

// ---------- the keys ----------

/// What each key does: two end the run, one holds the sampling, one keeps a log, four
/// change the interval, and any other key only has the screen drawn.
pub proof fn lemma_keys(t: Tui, c: char)
    ensures
        t.effect(Key::Char('q')) == Effect::Quit,
        t.effect(Key::Esc) == Effect::Quit,
        t.effect(Key::Char('l')) == (if t.logging {
            Effect::StopLog
        } else {
            Effect::StartLog
        }),
        t.effect(Key::Other) == Effect::Nothing,
        c != 'q' && c != 'l' ==> t.effect(Key::Char(c)) == Effect::Nothing,
        t.after_key(Key::Char('q')) == t,
        t.after_key(Key::Esc) == t,
        t.after_key(Key::Char(' ')) == (Tui { paused: !t.paused, dirty: true, ..t }),
        t.after_key(Key::Char('l')) == (Tui { logging: !t.logging, dirty: true, ..t }),
        t.after_key(Key::Char('+')) == (Tui {
            interval: t.interval.grown().smaller(Double { bits: LONGEST_INTERVAL }),
            dirty: true,
            ..t
        }),
        t.after_key(Key::Char('-')) == (Tui {
            interval: t.interval.shrunk().larger(Double { bits: SHORTEST_INTERVAL }),
            dirty: true,
            ..t
        }),
        t.after_key(Key::Char('=')) == t.after_key(Key::Char('+')),
        t.after_key(Key::Char('_')) == t.after_key(Key::Char('-')),
        t.after_key(Key::Other) == (Tui { dirty: true, ..t }),
        c != 'q' && c != ' ' && c != 'l' && c != '+' && c != '=' && c != '-' && c != '_'
            ==> t.after_key(Key::Char(c)) == (Tui { dirty: true, ..t }),
        t.after(Input::Resized) == (Tui { dirty: true, ..t }),
        t.after(Input::Other) == t,
{
}

/// A run starts with its interval, neither held nor logged, and with a screen to be
/// drawn.
pub proof fn lemma_start(d: Double)
    ensures
        Tui::start(d).interval == d,
        !Tui::start(d).paused,
        !Tui::start(d).logging,
        Tui::start(d).dirty,
{
}

/// How long the next key is waited for: what is left of the interval, between the
/// shortest wait and the interval; while sampling is held, for an hour.
pub proof fn lemma_wait(t: Tui, left: Double)
    requires
        t.wf(),
    ensures
        t.paused ==> t.wait(left) == (Double { bits: HOUR }),
        !t.paused && (Double { bits: SHORTEST_WAIT }).at_most(left) && left.at_most(
            t.interval,
        ) ==> t.wait(left) == left,
        !t.paused && left.less(Double { bits: SHORTEST_WAIT }) ==> t.wait(left) == (
        Double { bits: SHORTEST_WAIT }),
        !t.paused && !left.less(Double { bits: SHORTEST_WAIT }) && t.interval.less(left)
            ==> t.wait(left) == t.interval,
{
}

// ---------- names ----------

/// One name comes before another by the first character in which they differ, or where
/// it is the beginning of the other.
pub proof fn lemma_precedes(a: Seq<char>, x: char, b: Seq<char>, y: char, c: Seq<char>)
    ensures
        precedes(a + seq![x] + b, a + seq![y] + c) <==> x < y || x == y && precedes(b, c),
        precedes(a, a + seq![x] + b),
        !precedes(a + seq![x] + b, a),
        !precedes(a, a),
    decreases a.len(),
{
    let (s, t) = (a + seq![x] + b, a + seq![y] + c);
    if a.len() == 0 {
        assert(s.drop_first() =~= b);
        assert(t.drop_first() =~= c);
    } else {
        let r = a.drop_first();
        lemma_precedes(r, x, b, y, c);
        assert(s.drop_first() =~= r + seq![x] + b);
        assert(t.drop_first() =~= r + seq![y] + c);
        assert(s[0] == a[0] && t[0] == a[0]);
    }
}

/// What is told of a command line that is not understood.
pub proof fn lemma_command_line_messages(i: usize, cause: Seq<char>)
    ensures
        cli_message(CliError::NoInterval, cause) == "-i 需要一个秒数参数"@,
        cli_message(CliError::NotPositive, cause) == "采样间隔必须大于 0"@,
        cli_message(CliError::NotANumber(i), cause) == cause,
{
}

/// Of what has one name, what came first stays first; what comes before all others is
/// put in front.
pub proof fn lemma_sorting_is_stable<M>(s: Seq<M>, x: M, key: spec_fn(M) -> Seq<char>)
    ensures
        (forall|i: int| 0 <= i < s.len() ==> !precedes(key(x), key(#[trigger] sorted(s, key)[i])))
            ==> sorted(s.push(x), key) == sorted(s, key).push(x),
        (forall|i: int| 0 <= i < s.len() ==> precedes(key(x), key(#[trigger] sorted(s, key)[i])))
            ==> sorted(s.push(x), key) == seq![x] + sorted(s, key),
{
    lemma_sorted(s, key);
    assert(s.push(x).drop_last() =~= s);
    let t = sorted(s, key);
    if t.len() > 0 && (forall|i: int|
        0 <= i < s.len() ==> !precedes(key(x), key(#[trigger] sorted(s, key)[i]))) {
        assert(!precedes(key(x), key(t[t.len() - 1])));
    }
    if forall|i: int| 0 <= i < s.len() ==> precedes(key(x), key(#[trigger] sorted(s, key)[i])) {
        lemma_placed_in_front(t, x, key);
    }
}

proof fn lemma_placed_in_front<M>(t: Seq<M>, x: M, key: spec_fn(M) -> Seq<char>)
    requires
        forall|i: int| 0 <= i < t.len() ==> precedes(key(x), key(#[trigger] t[i])),
    ensures
        placed(t, x, key) == seq![x] + t,
    decreases t.len(),
{
    if t.len() > 0 {
        assert(precedes(key(x), key(t[t.len() - 1])));
        assert forall|i: int| 0 <= i < t.drop_last().len() implies precedes(
            key(x),
            key(#[trigger] t.drop_last()[i]),
        ) by {
            assert(t.drop_last()[i] == t[i]);
        }
        lemma_placed_in_front(t.drop_last(), x, key);
        assert((seq![x] + t.drop_last()).push(t.last()) =~= seq![x] + t);
    } else {
        assert(placed(t, x, key) =~= seq![x] + t);
    }
}

/// A sample is due once the interval has passed, and never while sampling is held.
pub proof fn lemma_due(t: Tui, elapsed: Double)
    requires
        t.wf(),
    ensures
        t.paused ==> !t.is_due(elapsed),
        !t.paused && !elapsed.is_nan() && elapsed.scaled() >= t.interval.scaled() ==> t.is_due(
            elapsed,
        ),
        !t.paused && elapsed.scaled() < t.interval.scaled() ==> !t.is_due(elapsed),
{
}

/// A log waits for an interval before it starts, and for half a second at least.
pub proof fn lemma_first_wait(d: Double)
    requires
        !d.is_nan(),
    ensures
        d.less(Double { bits: HALF_SECOND }) ==> first_wait(d) == (Double { bits: HALF_SECOND }),
        !d.less(Double { bits: HALF_SECOND }) ==> first_wait(d) == d,
{
}

} // verus!
