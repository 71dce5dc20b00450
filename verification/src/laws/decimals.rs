//! What is taken for a number with a fraction, and what is not.
use vstd::prelude::*;

use crate::laws::text::lemma_lower;
use crate::numbers::{is_decimal, is_exponent, is_mantissa, without_sign};
use crate::text::{find, is_digit, lemma_find, lemma_find_is, lower};

verus! {

pub open spec fn digits(s: Seq<char>) -> bool {
    forall|i: int| 0 <= i < s.len() ==> is_digit(#[trigger] s[i])
}

/// A sign, or none.
pub open spec fn a_sign(s: Seq<char>) -> bool {
    s.len() == 0 || s.len() == 1 && (s[0] == '+' || s[0] == '-')
}

/// Whether a character can stand in a number: a digit, a sign, a point, or a letter of
/// the words for infinity and for what is no number.
pub open spec fn can_stand(c: char) -> bool {
    ||| is_digit(c)
    ||| c == '+' || c == '-' || c == '.'
    ||| c == 'e' || c == 'E'
    ||| c == 'i' || c == 'n' || c == 'f' || c == 't' || c == 'y' || c == 'a'
    ||| c == 'I' || c == 'N' || c == 'F' || c == 'T' || c == 'Y' || c == 'A'
}

proof fn lemma_sign_off(sign: Seq<char>, t: Seq<char>)
    requires
        a_sign(sign),
        t.len() == 0 || t[0] != '+' && t[0] != '-',
    ensures
        without_sign(sign + t) == t,
{
    if sign.len() == 0 {
        assert(sign + t =~= t);
    } else {
        assert((sign + t).drop_first() =~= t);
    }
}

/// Whether nothing in the text is a capital letter.
spec fn small(s: Seq<char>) -> bool {
    forall|i: int| 0 <= i < s.len() ==> !('A' <= #[trigger] s[i] <= 'Z')
}

proof fn lemma_stays(s: Seq<char>)
    requires
        small(s),
    ensures
        lower(s) == s,
{
    assert forall|i: int| 0 <= i < s.len() implies lower(s)[i] == s[i] by {
        lemma_lower(s, i);
    }
    assert(lower(s) =~= s);
}

proof fn lemma_mantissa(a: Seq<char>, b: Seq<char>)
    requires
        digits(a),
        digits(b),
    ensures
        is_mantissa(a) <==> a.len() > 0,
        is_mantissa(a + "."@ + b) <==> a.len() + b.len() > 0,
        small(a),
        small(a + "."@ + b),
        !a.contains('e'),
        !(a + "."@ + b).contains('e'),
{
    reveal_strlit(".");
    let s = a + "."@ + b;
    assert forall|i: int| 0 <= i < s.len() implies is_digit(#[trigger] s[i]) || i == a.len() && s[i]
        == '.' by {
        if i < a.len() {
            assert(s[i] == a[i]);
        } else if i > a.len() {
            assert(s[i] == b[i - a.len() - 1]);
        }
    }
    assert(forall|i: int| 0 <= i < a.len() ==> s[i] == #[trigger] a[i]);
    lemma_find_is(s, '.', a.len());
    lemma_find_is(a, '.', a.len());
    assert(s.take(a.len() as int) =~= a);
    assert(s.skip(a.len() as int + 1) =~= b);
}

/// Digits are a number, with a sign in front of them or none.
pub proof fn lemma_whole_numbers(sign: Seq<char>, a: Seq<char>)
    requires
        a_sign(sign),
        digits(a),
    ensures
        is_decimal(sign + a) <==> a.len() > 0,
{
    if a.len() > 0 {
        assert(is_digit(a[0]));
    }
    lemma_sign_off(sign, a);
    lemma_mantissa(a, Seq::empty());
    lemma_stays(a);
    lemma_find(a, 'e');
    reveal_strlit("inf");
    reveal_strlit("infinity");
    reveal_strlit("nan");
    assert("inf"@.len() == 3 && "infinity"@.len() == 8 && "nan"@.len() == 3);
}

/// One point may stand anywhere among the digits, as long as there is a digit.
pub proof fn lemma_fractions(sign: Seq<char>, a: Seq<char>, b: Seq<char>)
    requires
        a_sign(sign),
        digits(a),
        digits(b),
    ensures
        is_decimal(sign + (a + "."@ + b)) <==> a.len() + b.len() > 0,
{
    reveal_strlit(".");
    let t = a + "."@ + b;
    if a.len() > 0 {
        assert(is_digit(a[0]));
        assert(t[0] == a[0]);
    } else {
        assert(t[0] == '.');
    }
    lemma_sign_off(sign, t);
    lemma_mantissa(a, b);
    lemma_stays(t);
    lemma_find(t, 'e');
    reveal_strlit("inf");
    reveal_strlit("infinity");
    reveal_strlit("nan");
    assert("inf"@[0] == 'i' && "infinity"@[0] == 'i' && "nan"@[0] == 'n');
}

/// An `e` and a whole number may stand behind the digits.
pub proof fn lemma_powers(sign: Seq<char>, a: Seq<char>, b: Seq<char>, minus: Seq<char>, c: Seq<char>)
    requires
        a_sign(sign),
        a_sign(minus),
        digits(a),
        digits(b),
        digits(c),
        a.len() + b.len() > 0,
    ensures
        is_decimal(sign + (a + "."@ + b + "e"@ + minus + c)) <==> c.len() > 0,
{
    reveal_strlit(".");
    reveal_strlit("e");
    let m = a + "."@ + b;
    let x = minus + c;
    let t = a + "."@ + b + "e"@ + minus + c;
    assert(t =~= m + "e"@ + x);
    lemma_mantissa(a, b);
    if a.len() > 0 {
        assert(is_digit(a[0]));
        assert(t[0] == a[0]);
    } else {
        assert(t[0] == '.');
    }
    lemma_sign_off(sign, t);
    assert(small(t)) by {
        assert forall|i: int| 0 <= i < t.len() implies !('A' <= #[trigger] t[i] <= 'Z') by {
            if i < m.len() {
                assert(t[i] == m[i]);
            } else if i > m.len() {
                let j = i - m.len() - 1;
                assert(t[i] == x[j]);
                if j >= minus.len() {
                    assert(is_digit(c[j - minus.len()]));
                }
            }
        }
    }
    lemma_stays(t);
    assert forall|i: int| 0 <= i < m.len() implies t[i] != 'e' by {
        assert(t[i] == m[i]);
        assert(m.contains(m[i]));
    }
    lemma_find_is(t, 'e', m.len());
    assert(t.take(m.len() as int) =~= m);
    assert(t.skip(m.len() as int + 1) =~= x);
    if c.len() > 0 {
        assert(is_digit(c[0]));
    }
    lemma_sign_off(minus, c);
    reveal_strlit("inf");
    reveal_strlit("infinity");
    reveal_strlit("nan");
    assert("inf"@[0] == 'i' && "infinity"@[0] == 'i' && "nan"@[0] == 'n');
}

/// Three words are taken for numbers, in whatever case.
pub proof fn lemma_words_for_numbers(sign: Seq<char>, w: Seq<char>)
    requires
        a_sign(sign),
        lower(w) == "inf"@ || lower(w) == "infinity"@ || lower(w) == "nan"@,
    ensures
        is_decimal(sign + w),
{
    reveal_strlit("inf");
    reveal_strlit("infinity");
    reveal_strlit("nan");
    assert("inf"@[0] == 'i' && "infinity"@[0] == 'i' && "nan"@[0] == 'n');
    assert("inf"@.len() == 3 && "infinity"@.len() == 8 && "nan"@.len() == 3);
    assert(lower(w).len() == w.len());
    lemma_lower(w, 0);
    lemma_sign_off(sign, w);
}

/// A text with any other character in it is no number.
pub proof fn lemma_no_number(s: Seq<char>, k: int)
    requires
        0 <= k < s.len(),
        !can_stand(s[k]),
    ensures
        !is_decimal(s),
{
    let u = without_sign(s);
    let j = if s[0] == '+' || s[0] == '-' {
        k - 1
    } else {
        k
    };
    assert(u[j] == s[k]);
    let t = lower(u);
    lemma_lower(u, j);
    reveal_strlit("inf");
    reveal_strlit("infinity");
    reveal_strlit("nan");
    let c = t[j];
    assert(!is_digit(c) && c != '.' && c != '+' && c != '-' && c != 'e' && c != 'i' && c != 'n' && c
        != 'f' && c != 't' && c != 'y' && c != 'a');
    assert(t != "inf"@ && t != "infinity"@ && t != "nan"@);
    let e = find(t, 'e') as int;
    lemma_find(t, 'e');
    if e == t.len() {
        lemma_no_mantissa(t, j);
    } else if j < e {
        assert(t.take(e)[j] == c);
        lemma_no_mantissa(t.take(e), j);
    } else {
        let x = t.skip(e + 1);
        assert(x[j - e - 1] == c);
        let y = without_sign(x);
        if x[0] == '+' || x[0] == '-' {
            assert(y[j - e - 2] == c);
        } else {
            assert(y[j - e - 1] == c);
        }
        assert(!is_exponent(x));
    }
}

proof fn lemma_no_mantissa(s: Seq<char>, j: int)
    requires
        0 <= j < s.len(),
        !is_digit(s[j]),
        s[j] != '.',
    ensures
        !is_mantissa(s),
{
    let p = find(s, '.') as int;
    lemma_find(s, '.');
    if p < s.len() {
        if j < p {
            assert(s.take(p)[j] == s[j]);
        } else {
            assert(s.skip(p + 1)[j - p - 1] == s[j]);
        }
    }
}

/// Two points do not stand in one number.
pub proof fn lemma_two_points(a: Seq<char>, b: Seq<char>, c: Seq<char>)
    requires
        digits(a),
        digits(b),
        digits(c),
    ensures
        !is_decimal(a + "."@ + b + "."@ + c),
{
    reveal_strlit(".");
    let t = a + "."@ + b + "."@ + c;
    assert forall|i: int| 0 <= i < t.len() implies is_digit(#[trigger] t[i]) || t[i] == '.' by {
        if i < a.len() {
            assert(t[i] == a[i]);
        } else if a.len() < i < a.len() + 1 + b.len() {
            assert(t[i] == b[i - a.len() - 1]);
        } else if i > a.len() + 1 + b.len() {
            assert(t[i] == c[i - a.len() - b.len() - 2]);
        }
    }
    assert forall|i: int| 0 <= i < a.len() implies t[i] != '.' by {
        assert(t[i] == a[i]);
    }
    assert(t[0] != '+' && t[0] != '-');
    assert(small(t));
    lemma_stays(t);
    lemma_find_is(t, 'e', t.len());
    lemma_find_is(t, '.', a.len());
    let rest = t.skip(a.len() as int + 1);
    assert(rest[b.len() as int] == '.');
    reveal_strlit("inf");
    reveal_strlit("infinity");
    reveal_strlit("nan");
    assert("inf"@[0] == 'i' && "infinity"@[0] == 'i' && "nan"@[0] == 'n');
}

} // verus!
