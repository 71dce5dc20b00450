//! Words, lines and white space: texts that are put together come apart again.
use vstd::prelude::*;

use crate::numbers::{
    dec, dec2, decimal_i64, decimal_u32, decimal_u64, digit_char, digits_value, hex, is_decimal,
    left, right, written,
};
use crate::text::{
    after_prefix, before_digits, before_letters, before_suffix, before_trailing, cut, is_digit,
    is_letter, is_space, lemma_find, lemma_find_is, lemma_find_text, lines, lower, occurs, pieces,
    starts, trim_back, trim_front, trimmed, word_len, words,
};

verus! {

/// Whether no character of the text is white space.
pub open spec fn unbroken(s: Seq<char>) -> bool {
    forall|i: int| 0 <= i < s.len() ==> !is_space(#[trigger] s[i])
}

/// Whether every character of the text is a space or a tab or ends a line.
pub open spec fn blank(s: Seq<char>) -> bool {
    forall|i: int|
        0 <= i < s.len() ==> #[trigger] s[i] == ' ' || s[i] == '\t' || s[i] == '\n' || s[i] == '\r'
}

/// Spaces, tabs and the characters that end a line are white space; letters,
/// digits and the signs that stand in numbers and names are not.
pub proof fn lemma_white_space(c: char)
    ensures
        c == ' ' || c == '\t' || c == '\n' || c == '\r' ==> is_space(c),
        '!' <= c <= '~' ==> !is_space(c),
        is_digit(c) <==> c == '0' || c == '1' || c == '2' || c == '3' || c == '4' || c == '5' || c
            == '6' || c == '7' || c == '8' || c == '9',
{
}

proof fn lemma_word_len(w: Seq<char>, t: Seq<char>)
    requires
        unbroken(w),
        t.len() == 0 || is_space(t[0]),
    ensures
        word_len(w + t) == w.len(),
    decreases w.len(),
{
    let s = w + t;
    if w.len() > 0 {
        assert(s[0] == w[0]);
        assert(s.drop_first() =~= w.drop_first() + t);
        assert forall|i: int| 0 <= i < w.drop_first().len() implies !is_space(
            #[trigger] w.drop_first()[i],
        ) by {
            assert(w[i + 1] == w.drop_first()[i]);
        }
        lemma_word_len(w.drop_first(), t);
    } else {
        assert(s =~= t);
    }
}

/// A word, white space behind it and more text are that word and the words of the
/// rest.
pub proof fn lemma_first_word(w: Seq<char>, gap: Seq<char>, t: Seq<char>)
    requires
        w.len() > 0,
        unbroken(w),
        gap.len() > 0,
        blank(gap),
    ensures
        words(w + gap + t) == seq![w] + words(t),
        words(gap + t) == words(t),
{
    lemma_blank_front(gap, t);
    let s = w + (gap + t);
    assert(w + gap + t =~= s);
    lemma_word_len(w, gap + t);
    assert(s[0] == w[0]);
    assert(s.take(w.len() as int) =~= w);
    assert(s.skip(w.len() as int) =~= gap + t);
}

/// White space in front of a text adds no word.
pub proof fn lemma_blank_front(gap: Seq<char>, t: Seq<char>)
    requires
        blank(gap),
    ensures
        words(gap + t) == words(t),
    decreases gap.len(),
{
    if gap.len() > 0 {
        let g = gap.drop_first();
        assert forall|i: int| 0 <= i < g.len() implies #[trigger] g[i] == ' ' || g[i] == '\t' || g[i]
            == '\n' || g[i] == '\r' by {
            assert(gap[i + 1] == g[i]);
        }
        lemma_blank_front(g, t);
        assert((gap + t).drop_first() =~= g + t);
        assert((gap + t)[0] == gap[0]);
    } else {
        assert(gap + t =~= t);
    }
}

/// A text without white space is one word.
pub proof fn lemma_one_word(w: Seq<char>)
    requires
        w.len() > 0,
        unbroken(w),
    ensures
        words(w) == seq![w],
{
    let none = Seq::<char>::empty();
    assert(w + none =~= w);
    lemma_word_len(w, none);
    assert(w.take(w.len() as int) =~= w);
    assert(w.skip(w.len() as int) =~= none);
    assert(words(none) =~= Seq::<Seq<char>>::empty());
    assert(words(w) =~= seq![w]);
}

/// A line, its end and more text are that line and the lines of the rest.
pub proof fn lemma_first_line(l: Seq<char>, t: Seq<char>)
    requires
        !l.contains('\n'),
        l.len() == 0 || l.last() != '\r',
    ensures
        lines(l + seq!['\n'] + t) == seq![l] + lines(t),
        lines(l + seq!['\r', '\n'] + t) == seq![l] + lines(t),
{
    let s = l + seq!['\n'] + t;
    assert forall|i: int| 0 <= i < l.len() implies l[i] != '\n' by {
        assert(l.contains(l[i]));
    }
    lemma_find_is(s, '\n', l.len());
    assert(s.take(l.len() as int) =~= l);
    assert(s.skip((l.len() + 1) as int) =~= t);
    let u = l + seq!['\r', '\n'] + t;
    lemma_find_is(u, '\n', (l.len() + 1) as nat);
    assert(u.take((l.len() + 1) as int) =~= l.push('\r'));
    assert(l.push('\r').drop_last() =~= l);
    assert(u.skip((l.len() + 2) as int) =~= t);
}

/// A text is cut at the first place where the character stands.
pub proof fn lemma_cut_at(a: Seq<char>, c: char, b: Seq<char>)
    requires
        !a.contains(c),
    ensures
        cut(a + seq![c] + b, c) == Some((a, b)),
        cut(a, c) is None,
        pieces(a + seq![c] + b, c) == seq![a] + pieces(b, c),
        pieces(a, c) == seq![a],
{
    let s = a + seq![c] + b;
    assert forall|i: int| 0 <= i < a.len() implies a[i] != c by {
        assert(a.contains(a[i]));
    }
    lemma_find_is(s, c, a.len());
    lemma_find(a, c);
    assert(s.take(a.len() as int) =~= a);
    assert(s.skip((a.len() + 1) as int) =~= b);
}

proof fn lemma_trim_front(gap: Seq<char>, t: Seq<char>)
    requires
        blank(gap),
        t.len() > 0 ==> !is_space(t[0]),
    ensures
        trim_front(gap + t) == t,
    decreases gap.len(),
{
    if gap.len() > 0 {
        let g = gap.drop_first();
        assert forall|i: int| 0 <= i < g.len() implies #[trigger] g[i] == ' ' || g[i] == '\t' || g[i]
            == '\n' || g[i] == '\r' by {
            assert(gap[i + 1] == g[i]);
        }
        lemma_trim_front(g, t);
        assert((gap + t).drop_first() =~= g + t);
        assert((gap + t)[0] == gap[0]);
    } else {
        assert(gap + t =~= t);
    }
}

proof fn lemma_trim_back(t: Seq<char>, gap: Seq<char>)
    requires
        blank(gap),
        t.len() > 0 ==> !is_space(t.last()),
    ensures
        trim_back(t + gap) == t,
    decreases gap.len(),
{
    if gap.len() > 0 {
        lemma_trim_back(t, gap.drop_last());
        assert((t + gap).drop_last() =~= t + gap.drop_last());
        assert((t + gap).last() == gap.last());
    } else {
        assert(t + gap =~= t);
    }
}

/// White space on either side of a text is trimmed off, and nothing else.
pub proof fn lemma_trimmed(front: Seq<char>, t: Seq<char>, back: Seq<char>)
    requires
        blank(front),
        blank(back),
        t.len() > 0,
        !is_space(t[0]),
        !is_space(t.last()),
    ensures
        trimmed(front + t + back) == t,
        trimmed(t) == t,
{
    let none = Seq::<char>::empty();
    assert(front + t + back =~= front + (t + back));
    assert((t + back)[0] == t[0]);
    lemma_trim_front(front, t + back);
    lemma_trim_back(t, back);
    assert(none + t =~= t);
    assert(t + none =~= t);
    lemma_trim_front(none, t);
    lemma_trim_back(t, none);
}

/// What is put in front of a text, or behind it, can be taken off again.
pub proof fn lemma_prefix_and_suffix(p: Seq<char>, t: Seq<char>)
    ensures
        after_prefix(p + t, p) == Some(t),
        before_suffix(t + p, p) == Some(t),
        starts(p + t, p),
{
    assert((p + t).take(p.len() as int) =~= p);
    assert((p + t).skip(p.len() as int) =~= t);
    assert((t + p).skip(t.len() as int) =~= p);
    assert((t + p).take(t.len() as int) =~= t);
}

/// What stands within a text occurs in it.
pub proof fn lemma_occurs_within(a: Seq<char>, p: Seq<char>, b: Seq<char>)
    ensures
        occurs(a + p + b, p),
{
    let s = a + p + b;
    lemma_find_text(s, p);
    let t = s.skip(a.len() as int);
    assert(t.take(p.len() as int) =~= p);
    assert(starts(t, p));
}

/// The digits at the end of a text are taken off, and so are letters, and so is
/// any one character.
pub proof fn lemma_tails(t: Seq<char>, tail: Seq<char>, c: char)
    ensures
        (t.len() > 0 ==> !is_digit(t.last())) && (forall|i: int|
            0 <= i < tail.len() ==> is_digit(#[trigger] tail[i])) ==> before_digits(t + tail) == t,
        (t.len() > 0 ==> !is_letter(t.last())) && (forall|i: int|
            0 <= i < tail.len() ==> is_letter(#[trigger] tail[i])) ==> before_letters(t + tail) == t,
        (t.len() > 0 ==> t.last() != c) && (forall|i: int|
            0 <= i < tail.len() ==> #[trigger] tail[i] == c) ==> before_trailing(t + tail, c) == t,
    decreases tail.len(),
{
    if tail.len() > 0 {
        let u = tail.drop_last();
        lemma_tails(t, u, c);
        assert((t + tail).drop_last() =~= t + u);
        assert((t + tail).last() == tail[tail.len() - 1]);
        assert(forall|i: int| 0 <= i < u.len() ==> #[trigger] u[i] == tail[i]);
    } else {
        assert(t + tail =~= t);
    }
}

/// Capital letters of ASCII become small ones, 32 places further on; any other
/// character stays, and what is in small letters stays so.
pub proof fn lemma_lower(s: Seq<char>, i: int)
    requires
        0 <= i < s.len(),
    ensures
        lower(s).len() == s.len(),
        'A' <= s[i] <= 'Z' ==> lower(s)[i] as u32 == s[i] as u32 + 32,
        !('A' <= s[i] <= 'Z') ==> lower(s)[i] == s[i],
        lower(lower(s)) == lower(s),
{
    assert(lower(lower(s)) =~= lower(s));
}

// ---------- rows of words, and lines ----------

/// The words in a row, each with a space in front of it.
pub open spec fn spaced(ws: Seq<Seq<char>>) -> Seq<char>
    decreases ws.len(),
{
    if ws.len() == 0 {
        Seq::empty()
    } else {
        seq![' '] + ws[0] + spaced(ws.drop_first())
    }
}

/// Whether each is a word: not empty, and without white space.
pub open spec fn all_words(ws: Seq<Seq<char>>) -> bool {
    forall|i: int| 0 <= i < ws.len() ==> (#[trigger] ws[i]).len() > 0 && unbroken(ws[i])
}

/// Words in a row are the words of the text.
pub proof fn lemma_spaced(ws: Seq<Seq<char>>)
    requires
        all_words(ws),
    ensures
        words(spaced(ws)) == ws,
        one_line(spaced(ws)),
    decreases ws.len(),
{
    if ws.len() > 0 {
        let t = ws.drop_first();
        assert forall|i: int| 0 <= i < t.len() implies (#[trigger] t[i]).len() > 0 && unbroken(
            t[i],
        ) by {
            assert(ws[i + 1] == t[i]);
        }
        lemma_spaced(t);
        let (w, r) = (ws[0], spaced(t));
        let gap = seq![' '];
        lemma_blank_front(gap, w + r);
        assert(gap + w + r =~= gap + (w + r));
        lemma_word_behind(w, r);
        assert(seq![w] + t =~= ws);
        lemma_word_is_one_line(w);
        assert forall|i: int| 0 <= i < spaced(ws).len() implies #[trigger] spaced(ws)[i] != '\n'
            && spaced(ws)[i] != '\r' by {
            if i == 0 {
            } else if i <= w.len() {
                assert(spaced(ws)[i] == w[i - 1]);
            } else {
                assert(spaced(ws)[i] == r[i - 1 - w.len()]);
            }
        }
    }
}

/// A word with nothing or with white space behind it comes first.
pub proof fn lemma_word_behind(w: Seq<char>, t: Seq<char>)
    requires
        w.len() > 0,
        unbroken(w),
        t.len() == 0 || is_space(t[0]),
    ensures
        words(w + t) == seq![w] + words(t),
{
    let s = w + t;
    lemma_word_len(w, t);
    assert(s[0] == w[0]);
    assert(s.take(w.len() as int) =~= w);
    assert(s.skip(w.len() as int) =~= t);
}

/// Whether the text is within one line.
pub open spec fn one_line(s: Seq<char>) -> bool {
    forall|i: int| 0 <= i < s.len() ==> #[trigger] s[i] != '\n' && s[i] != '\r'
}

pub proof fn lemma_word_is_one_line(w: Seq<char>)
    requires
        unbroken(w),
    ensures
        one_line(w),
{
    assert forall|i: int| 0 <= i < w.len() implies #[trigger] w[i] != '\n' && w[i] != '\r' by {
        assert(!is_space(w[i]));
    }
}

pub proof fn lemma_one_line(a: Seq<char>, b: Seq<char>)
    requires
        one_line(a),
        one_line(b),
    ensures
        one_line(a + b),
{
    assert forall|i: int| 0 <= i < (a + b).len() implies #[trigger] (a + b)[i] != '\n' && (a + b)[i]
        != '\r' by {
        if i < a.len() {
            assert((a + b)[i] == a[i]);
        } else {
            assert((a + b)[i] == b[i - a.len()]);
        }
    }
}

/// The rows, each with the end of a line behind it.
pub open spec fn as_lines(rows: Seq<Seq<char>>) -> Seq<char>
    decreases rows.len(),
{
    if rows.len() == 0 {
        Seq::empty()
    } else {
        rows[0] + seq!['\n'] + as_lines(rows.drop_first())
    }
}

/// Rows that are written as lines are read as lines.
pub proof fn lemma_as_lines(rows: Seq<Seq<char>>, rest: Seq<char>)
    requires
        forall|i: int| 0 <= i < rows.len() ==> one_line(#[trigger] rows[i]),
    ensures
        lines(as_lines(rows) + rest) == rows + lines(rest),
    decreases rows.len(),
{
    if rows.len() > 0 {
        let t = rows.drop_first();
        assert forall|i: int| 0 <= i < t.len() implies one_line(#[trigger] t[i]) by {
            assert(rows[i + 1] == t[i]);
        }
        lemma_as_lines(t, rest);
        let l = rows[0];
        assert(!l.contains('\n'));
        assert(as_lines(rows) + rest =~= l + seq!['\n'] + (as_lines(t) + rest));
        lemma_first_line(l, as_lines(t) + rest);
        assert(rows + lines(rest) =~= seq![l] + (t + lines(rest)));
    } else {
        assert(as_lines(rows) + rest =~= rest);
        assert(rows + lines(rest) =~= lines(rest));
    }
}

/// The numbers as they are written.
pub open spec fn numerals(ns: Seq<u64>) -> Seq<Seq<char>> {
    Seq::new(ns.len(), |i: int| dec(ns[i] as nat))
}

pub proof fn lemma_numerals(ns: Seq<u64>)
    ensures
        all_words(numerals(ns)),
        words(spaced(numerals(ns))) == numerals(ns),
        one_line(spaced(numerals(ns))),
{
    assert forall|i: int| 0 <= i < ns.len() implies (#[trigger] numerals(ns)[i]).len() > 0 && unbroken(
        numerals(ns)[i],
    ) by {
        lemma_written_number(ns[i] as nat);
    }
    lemma_spaced(numerals(ns));
}

// ---------- numbers in texts ----------

/// The number that is written is one or more digits, none of which is white space
/// or a sign.
pub proof fn lemma_written_number(n: nat)
    ensures
        dec(n).len() > 0,
        forall|i: int| 0 <= i < dec(n).len() ==> is_digit(#[trigger] dec(n)[i]),
        unbroken(dec(n)),
    decreases n,
{
    if n >= 10 {
        lemma_written_number(n / 10);
        assert(is_digit(digit_char(n % 10)));
    } else {
        assert(is_digit(digit_char(n)));
    }
}

/// One more digit makes a number ten times as large, and adds the digit.
pub proof fn lemma_one_more_digit(n: nat, d: nat)
    requires
        n > 0,
        d < 10,
    ensures
        dec(10 * n + d) == dec(n) + dec(d),
        dec(d).len() == 1,
        dec(d)[0] as u32 == '0' as u32 + d,
{
    assert((10 * n + d) / 10 == n && (10 * n + d) % 10 == d);
    assert(dec(10 * n + d) =~= dec(n) + dec(d));
}

proof fn lemma_digits(n: nat)
    ensures
        digits_value(dec(n), 10) == Some(n as int),
        dec(n)[0] != '+',
        dec(n)[0] != '-',
    decreases n,
{
    lemma_written_number(n);
    if n >= 10 {
        lemma_digits(n / 10);
        assert(dec(n).drop_last() =~= dec(n / 10));
        assert(dec(n)[0] == dec(n / 10)[0]);
    } else {
        let none = dec(n).drop_last();
        assert(none.len() == 0);
        assert(digits_value(none, 10) == Some(0int));
    }
}

/// A whole number is read as what was written, as far as it fits; one sign may
/// stand in front of it.
pub proof fn lemma_number_reads_back(n: nat)
    ensures
        n <= u64::MAX ==> decimal_u64(dec(n)) == Some(n as int),
        n > u64::MAX ==> decimal_u64(dec(n)) is None,
        n <= u32::MAX ==> decimal_u32(dec(n)) == Some(n as int),
        n > u32::MAX ==> decimal_u32(dec(n)) is None,
        n <= u64::MAX ==> decimal_u64("+"@ + dec(n)) == Some(n as int),
        n <= i64::MAX ==> decimal_i64(dec(n)) == Some(n as int),
        n <= 0x8000_0000_0000_0000 ==> decimal_i64("-"@ + dec(n)) == Some(-(n as int)),
        n > 0x8000_0000_0000_0000 ==> decimal_i64("-"@ + dec(n)) is None,
{
    lemma_written_number(n);
    lemma_digits(n);
    reveal_strlit("+");
    reveal_strlit("-");
    let (p, m) = ("+"@ + dec(n), "-"@ + dec(n));
    assert(p.drop_first() =~= dec(n));
    assert(m.drop_first() =~= dec(n));
}

/// A whole number is a decimal fraction, with a sign in front of it or none, and
/// so is one with a point and more digits behind it.
pub proof fn lemma_numbers_are_decimal(n: nat, m: nat)
    ensures
        is_decimal(dec(n)),
        is_decimal("-"@ + dec(n)),
        is_decimal(dec(n) + "."@ + dec(m)),
        is_decimal("-"@ + dec(n) + "."@ + dec(m)),
{
    lemma_written_number(n);
    lemma_written_number(m);
    reveal_strlit("-");
    reveal_strlit(".");
    let a = dec(n);
    lemma_digits(n);
    let b = dec(n) + "."@ + dec(m);
    assert(b[0] == a[0]);
    lemma_plain_decimal(a);
    assert(("-"@ + a).drop_first() =~= a);
    assert forall|i: int| 0 <= i < b.len() implies is_digit(#[trigger] b[i]) || i == a.len() by {
        if i < a.len() {
            assert(b[i] == a[i]);
        } else if i > a.len() {
            assert(b[i] == dec(m)[i - a.len() - 1]);
        }
    }
    assert(b[a.len() as int] == '.');
    lemma_fraction(b, a.len() as int);
    assert(("-"@ + dec(n) + "."@ + dec(m)).drop_first() =~= b);
    lemma_plain_decimal_signed(a);
    lemma_fraction_signed(b, a.len() as int);
    assert("-"@ + dec(n) + "."@ + dec(m) =~= "-"@ + b);
}

proof fn lemma_digits_stay(s: Seq<char>)
    ensures
        forall|i: int| 0 <= i < s.len() && (is_digit(s[i]) || s[i] == '.') ==> #[trigger] lower(s)[i] == s[i],
        lower(s).len() == s.len(),
{
}

proof fn lemma_plain_decimal(s: Seq<char>)
    requires
        s.len() > 0,
        forall|i: int| 0 <= i < s.len() ==> is_digit(#[trigger] s[i]),
    ensures
        is_decimal(s),
{
    let t = lower(s);
    lemma_digits_stay(s);
    assert(t =~= s);
    lemma_find(t, 'e');
    lemma_find(t, '.');
    if t.contains('e') {
        let i = choose|i: int| 0 <= i < t.len() && t[i] == 'e';
        assert(is_digit(s[i]));
    }
    if t.contains('.') {
        let i = choose|i: int| 0 <= i < t.len() && t[i] == '.';
        assert(is_digit(s[i]));
    }
}

proof fn lemma_plain_decimal_signed(s: Seq<char>)
    requires
        s.len() > 0,
        forall|i: int| 0 <= i < s.len() ==> is_digit(#[trigger] s[i]),
    ensures
        is_decimal("-"@ + s),
{
    reveal_strlit("-");
    let u = "-"@ + s;
    assert(u.drop_first() =~= s);
    lemma_plain_decimal(s);
    assert(is_digit(s[0]));
}

proof fn lemma_fraction(s: Seq<char>, p: int)
    requires
        0 < p < s.len() - 1,
        s[p] == '.',
        forall|i: int| 0 <= i < s.len() ==> is_digit(#[trigger] s[i]) || i == p,
    ensures
        is_decimal(s),
{
    let t = lower(s);
    assert(is_digit(s[0]));
    assert(t =~= s);
    lemma_find(t, 'e');
    if t.contains('e') {
        let i = choose|i: int| 0 <= i < t.len() && t[i] == 'e';
        assert(is_digit(s[i]) || i == p);
    }
    lemma_find_is(t, '.', p as nat);
    let (a, b) = (t.take(p), t.skip(p + 1));
    assert forall|i: int| 0 <= i < b.len() implies is_digit(#[trigger] b[i]) by {
        assert(s[i + p + 1] == b[i]);
    }
    assert forall|i: int| 0 <= i < a.len() implies is_digit(#[trigger] a[i]) by {
        assert(s[i] == a[i]);
    }
}

proof fn lemma_fraction_signed(s: Seq<char>, p: int)
    requires
        0 < p < s.len() - 1,
        s[p] == '.',
        forall|i: int| 0 <= i < s.len() ==> is_digit(#[trigger] s[i]) || i == p,
    ensures
        is_decimal("-"@ + s),
{
    reveal_strlit("-");
    let u = "-"@ + s;
    assert(u.drop_first() =~= s);
    lemma_fraction(s, p);
    assert(is_digit(s[0]));
}

/// A text that is brought to a width is as wide as that or as it was, and the
/// text itself stands at the one end of it and nothing but the filling at the
/// other.
pub proof fn lemma_padding(s: Seq<char>, fill: char, width: nat, i: int)
    ensures
        ({
            let (r, l) = (right(s, fill, width), left(s, width));
            let w = if s.len() < width {
                width
            } else {
                s.len()
            };
            &&& r.len() == w && l.len() == w
            &&& r.skip(w - s.len()) == s
            &&& l.take(s.len() as int) == s
            &&& 0 <= i < w - s.len() ==> r[i] == fill
            &&& s.len() <= i < w ==> l[i] == ' '
        }),
{
    let (r, l) = (right(s, fill, width), left(s, width));
    assert(r.skip(r.len() - s.len()) =~= s);
    assert(l.take(s.len() as int) =~= s);
}

/// A number below a hundred is written in two digits where that is asked for, with a
/// zero in front of one digit.
pub proof fn lemma_two_digits(n: nat)
    ensures
        n < 10 ==> dec2(n) == "0"@ + dec(n),
        n >= 10 ==> dec2(n) == dec(n),
{
    reveal_strlit("0");
    reveal_with_fuel(written, 2);
    if n < 10 {
        assert(dec2(n) =~= "0"@ + dec(n));
    } else {
        lemma_written_number(n / 10);
        assert(dec(n).len() >= 2);
    }
}

/// Hexadecimal digits count to sixteen, with capital letters behind nine; one more
/// digit makes a number sixteen times as large, and adds the digit.
pub proof fn lemma_hexadecimal(n: nat, d: nat)
    requires
        d < 16,
    ensures
        hex(d, 0) == seq!["0123456789ABCDEF"@[d as int]],
        n > 0 ==> hex(16 * n + d, 0) == hex(n, 0) + hex(d, 0),
{
    reveal_strlit("0123456789ABCDEF");
    assert("0123456789ABCDEF"@[d as int] == digit_char(d));
    if n > 0 {
        assert((16 * n + d) / 16 == n && (16 * n + d) % 16 == d);
        assert(hex(16 * n + d, 0) =~= hex(n, 0) + hex(d, 0));
    }
}

/// All the characters that are white space, by their numbers.
pub proof fn lemma_all_white_space(c: char)
    ensures
        is_space(c) <==> ({
            let n = c as int;
            ||| n == 9 || n == 10 || n == 11 || n == 12 || n == 13 || n == 32
            ||| n == 133 || n == 160 || n == 5760
            ||| 8192 <= n <= 8202
            ||| n == 8232 || n == 8233 || n == 8239 || n == 8287 || n == 12288
        }),
{
}

/// The last line need not have an end; an empty text has no lines.
pub proof fn lemma_last_line(l: Seq<char>)
    requires
        !l.contains('\n'),
    ensures
        l.len() > 0 ==> lines(l) == seq![l],
        l.len() == 0 ==> lines(l).len() == 0,
{
    lemma_find(l, '\n');
}

/// What is no number: an empty text, and one with a character that is no digit behind
/// one plus sign.
pub proof fn lemma_no_number(s: Seq<char>, i: int)
    requires
        s.len() == 0 || 0 <= i < s.len() && !is_digit(s[i]) && (i > 0 || s[0] != '+'),
    ensures
        decimal_u64(s) is None,
        decimal_u32(s) is None,
        s.len() == 0 || i > 0 || s[0] != '-' ==> decimal_i64(s) is None,
{
    if s.len() > 0 {
        lemma_no_digits(s, i);
        if i > 0 {
            lemma_no_digits(s.drop_first(), i - 1);
        }
    }
}

proof fn lemma_no_digits(s: Seq<char>, i: int)
    requires
        0 <= i < s.len(),
        !is_digit(s[i]),
    ensures
        digits_value(s, 10) is None,
    decreases s.len(),
{
    if i < s.len() - 1 {
        lemma_no_digits(s.drop_last(), i);
    }
}

/// Zeros in front of a number do not matter.
pub proof fn lemma_zeros_in_front(n: u64)
    ensures
        decimal_u64("0"@ + dec(n as nat)) == Some(n as int),
{
    reveal_strlit("0");
    let s = "0"@ + dec(n as nat);
    lemma_written_number(n as nat);
    lemma_number_reads_back(n as nat);
    lemma_zero_in_front(dec(n as nat));
    assert(dec(n as nat)[0] != '+') by {
        assert(is_digit(dec(n as nat)[0]));
    }
    assert(s =~= seq!['0'] + dec(n as nat));
}

proof fn lemma_zero_in_front(s: Seq<char>)
    ensures
        digits_value(seq!['0'] + s, 10) == digits_value(s, 10),
    decreases s.len(),
{
    let t = seq!['0'] + s;
    if s.len() > 0 {
        lemma_zero_in_front(s.drop_last());
        assert(t.drop_last() =~= seq!['0'] + s.drop_last());
        assert(t.last() == s.last());
    } else {
        assert(t.drop_last() =~= Seq::<char>::empty());
        assert(digits_value(t.drop_last(), 10) == Some(0int));
        assert(t.last() == '0');
    }
}

} // verus!
