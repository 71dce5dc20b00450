//! Numbers as they are written: reading whole numbers, recognising decimal
//! fractions, and writing whole numbers.
use vstd::prelude::*;
use vstd::slice::slice_subrange;

use crate::lists::seen;
use crate::text::{chars, digit, find, find_char, is_digit, lower, lowered, same, string};

verus! {

// ---------- reading whole numbers ----------

/// What a character counts for as a digit of the given base (at most 16).
pub open spec fn digit_value(c: char, base: int) -> Option<int> {
    let v = if '0' <= c <= '9' {
        c as int - '0' as int
    } else if 'a' <= c <= 'f' {
        c as int - 'a' as int + 10
    } else if 'A' <= c <= 'F' {
        c as int - 'A' as int + 10
    } else {
        16
    };
    if v < base {
        Some(v)
    } else {
        None
    }
}

/// The number that the digits write, if all of them are digits.
pub open spec fn digits_value(s: Seq<char>, base: int) -> Option<int>
    decreases s.len(),
{
    if s.len() == 0 {
        Some(0)
    } else {
        match (digits_value(s.drop_last(), base), digit_value(s.last(), base)) {
            (Some(n), Some(d)) => Some(n * base + d),
            _ => None,
        }
    }
}

/// Without one plus sign at its front.
pub open spec fn unsigned(s: Seq<char>) -> Seq<char> {
    if s.len() > 0 && s[0] == '+' {
        s.drop_first()
    } else {
        s
    }
}

/// A whole number of at most `max`: an optional plus sign and one digit or more.
pub open spec fn whole_number(s: Seq<char>, base: int, max: int) -> Option<int> {
    let d = unsigned(s);
    match digits_value(d, base) {
        Some(n) => if d.len() > 0 && n <= max {
            Some(n)
        } else {
            None
        },
        None => None,
    }
}

/// A number that an `u64` holds, in decimal.
pub open spec fn decimal_u64(s: Seq<char>) -> Option<int> {
    whole_number(s, 10, u64::MAX as int)
}

/// A number that an `u32` holds, in decimal.
pub open spec fn decimal_u32(s: Seq<char>) -> Option<int> {
    whole_number(s, 10, u32::MAX as int)
}

/// A number that an `u64` holds, in hexadecimal.
pub open spec fn hexadecimal_u64(s: Seq<char>) -> Option<int> {
    whole_number(s, 16, u64::MAX as int)
}

/// A number that an `i64` holds, in decimal: a minus sign may stand in front too.
pub open spec fn decimal_i64(s: Seq<char>) -> Option<int> {
    if s.len() > 0 && s[0] == '-' {
        match digits_value(s.drop_first(), 10) {
            Some(n) => if s.len() > 1 && -n >= i64::MIN {
                Some(-n)
            } else {
                None
            },
            None => None,
        }
    } else {
        whole_number(s, 10, i64::MAX as int)
    }
}

proof fn lemma_digits_prefix(s: Seq<char>, base: int, i: int)
    requires
        0 <= i <= s.len(),
        2 <= base <= 16,
        digits_value(s, base) is Some,
    ensures
        digits_value(s.take(i), base) is Some,
        0 <= digits_value(s.take(i), base)->0 <= digits_value(s, base)->0,
    decreases s.len(),
{
    if s.len() == 0 {
        assert(s.take(i) =~= s);
    } else {
        let t = s.drop_last();
        lemma_digits_prefix(t, base, t.len() as int);
        assert(t.take(t.len() as int) =~= t);
        let n = digits_value(t, base)->0;
        assert(n <= n * base) by (nonlinear_arith)
            requires
                n >= 0,
                base >= 2,
        ;
        if i == s.len() {
            assert(s.take(i) =~= s);
        } else {
            lemma_digits_prefix(t, base, i);
            assert(t.take(i) =~= s.take(i));
        }
    }
}

fn read_digit(c: char, base: u64) -> (r: Option<u64>)
    requires
        2 <= base <= 16,
    ensures
        match r {
            Some(d) => digit_value(c, base as int) == Some(d as int),
            None => digit_value(c, base as int) is None,
        },
{
    let n: u32 = c as u32;
    let v: u64 = if '0' <= c && c <= '9' {
        (n - 48) as u64
    } else if 'a' <= c && c <= 'f' {
        (n - 97 + 10) as u64
    } else if 'A' <= c && c <= 'F' {
        (n - 65 + 10) as u64
    } else {
        16
    };
    if v < base {
        Some(v)
    } else {
        None
    }
}

/// Reads digits; `None` where one is none, or the number is above `max`.
fn read_digits(t: &[char], base: u64, max: u64) -> (r: Option<u64>)
    requires
        2 <= base <= 16,
    ensures
        match r {
            Some(n) => digits_value(t@, base as int) == Some(n as int) && n <= max,
            None => digits_value(t@, base as int) matches Some(n) ==> n > max,
        },
{
    let mut n: u64 = 0;
    let mut i: usize = 0;
    assert(t@.take(0) =~= Seq::<char>::empty());
    while i < t.len()
        invariant
            i <= t.len(),
            n <= max,
            2 <= base <= 16,
            digits_value(t@.take(i as int), base as int) == Some(n as int),
        decreases t.len() - i,
    {
        assert(t@.take(i + 1).drop_last() =~= t@.take(i as int));
        proof {
            if digits_value(t@, base as int) is Some {
                lemma_digits_prefix(t@, base as int, i + 1);
            }
        }
        match read_digit(t[i], base) {
            None => {
                return None;
            },
            Some(d) => {
                assert(n * base <= u64::MAX * 16) by (nonlinear_arith)
                    requires
                        0 <= n <= u64::MAX,
                        0 <= base <= 16,
                ;
                let m: u128 = n as u128 * base as u128 + d as u128;
                if m > max as u128 {
                    return None;
                }
                n = m as u64;
            },
        }
        i = i + 1;
    }
    assert(t@.take(t.len() as int) =~= t@);
    Some(n)
}

fn read_whole(t: &[char], base: u64, max: u64) -> (r: Option<u64>)
    requires
        2 <= base <= 16,
    ensures
        match r {
            Some(n) => whole_number(t@, base as int, max as int) == Some(n as int),
            None => whole_number(t@, base as int, max as int) is None,
        },
        r matches Some(n) ==> n <= max,
{
    let d = if t.len() > 0 && t[0] == '+' {
        slice_subrange(t, 1, t.len())
    } else {
        t
    };
    assert(d@ =~= unsigned(t@));
    if d.len() == 0 {
        return None;
    }
    read_digits(d, base, max)
}

pub fn parse_u64(t: &[char]) -> (r: Option<u64>)
    ensures
        match r {
            Some(n) => decimal_u64(t@) == Some(n as int),
            None => decimal_u64(t@) is None,
        },
{
    read_whole(t, 10, u64::MAX)
}

pub fn parse_u32(t: &[char]) -> (r: Option<u32>)
    ensures
        match r {
            Some(n) => decimal_u32(t@) == Some(n as int),
            None => decimal_u32(t@) is None,
        },
{
    match read_whole(t, 10, u32::MAX as u64) {
        Some(n) => Some(n as u32),
        None => None,
    }
}

pub fn parse_hex(t: &[char]) -> (r: Option<u64>)
    ensures
        match r {
            Some(n) => hexadecimal_u64(t@) == Some(n as int),
            None => hexadecimal_u64(t@) is None,
        },
{
    read_whole(t, 16, u64::MAX)
}

pub fn parse_i64(t: &[char]) -> (r: Option<i64>)
    ensures
        match r {
            Some(n) => decimal_i64(t@) == Some(n as int),
            None => decimal_i64(t@) is None,
        },
{
    if t.len() > 0 && t[0] == '-' {
        let d = slice_subrange(t, 1, t.len());
        assert(d@ =~= t@.drop_first());
        if d.len() == 0 {
            return None;
        }
        match read_digits(d, 10, 0x8000_0000_0000_0000) {
            Some(n) => {
                if n == 0x8000_0000_0000_0000 {
                    Some(i64::MIN)
                } else {
                    Some(-(n as i64))
                }
            },
            None => None,
        }
    } else {
        match read_whole(t, 10, i64::MAX as u64) {
            Some(n) => Some(n as i64),
            None => None,
        }
    }
}

// ---------- recognising decimal fractions ----------

pub open spec fn all_digits(s: Seq<char>) -> bool {
    forall|i: int| 0 <= i < s.len() ==> is_digit(#[trigger] s[i])
}

/// Without one sign at its front.
pub open spec fn without_sign(s: Seq<char>) -> Seq<char> {
    if s.len() > 0 && (s[0] == '+' || s[0] == '-') {
        s.drop_first()
    } else {
        s
    }
}

/// Digits with at most one point among them, and at least one digit.
pub open spec fn is_mantissa(s: Seq<char>) -> bool {
    let p = find(s, '.') as int;
    if p < s.len() {
        s.len() > 1 && all_digits(s.take(p)) && all_digits(s.skip(p + 1))
    } else {
        s.len() > 0 && all_digits(s)
    }
}

/// Digits, with a sign in front or none.
pub open spec fn is_exponent(s: Seq<char>) -> bool {
    without_sign(s).len() > 0 && all_digits(without_sign(s))
}

/// What the grammar of floating-point numbers admits, in either case of
/// letters: an optional sign, then `inf`, `infinity`, `nan`, or a mantissa with
/// an `e` and an exponent behind it or not.
pub open spec fn is_decimal(s: Seq<char>) -> bool {
    let t = lower(without_sign(s));
    let e = find(t, 'e') as int;
    ||| t == "inf"@
    ||| t == "infinity"@
    ||| t == "nan"@
    ||| e == t.len() && is_mantissa(t)
    ||| e < t.len() && is_mantissa(t.take(e)) && is_exponent(t.skip(e + 1))
}

fn only_digits(t: &[char]) -> (r: bool)
    ensures
        r == all_digits(t@),
{
    let mut i: usize = 0;
    while i < t.len()
        invariant
            i <= t.len(),
            forall|j: int| 0 <= j < i ==> is_digit(#[trigger] t@[j]),
        decreases t.len() - i,
    {
        if !digit(t[i]) {
            return false;
        }
        i = i + 1;
    }
    true
}

fn skip_sign<'a>(t: &'a [char]) -> (r: &'a [char])
    ensures
        r@ == without_sign(t@),
{
    if t.len() > 0 && (t[0] == '+' || t[0] == '-') {
        let r = slice_subrange(t, 1, t.len());
        assert(r@ =~= t@.drop_first());
        r
    } else {
        t
    }
}

fn mantissa(t: &[char]) -> (r: bool)
    ensures
        r == is_mantissa(t@),
{
    let p = find_char(t, '.');
    if p < t.len() {
        let a = slice_subrange(t, 0, p);
        let b = slice_subrange(t, p + 1, t.len());
        assert(a@ =~= t@.take(p as int));
        assert(b@ =~= t@.skip(p + 1));
        t.len() > 1 && only_digits(a) && only_digits(b)
    } else {
        t.len() > 0 && only_digits(t)
    }
}

fn exponent(t: &[char]) -> (r: bool)
    ensures
        r == is_exponent(t@),
{
    let d = skip_sign(t);
    d.len() > 0 && only_digits(d)
}

/// Whether the text is a decimal fraction.
pub fn decimal(t: &[char]) -> (r: bool)
    ensures
        r == is_decimal(t@),
{
    let low = lowered(skip_sign(t));
    let t = low.as_slice();
    if same(t, chars("inf").as_slice()) || same(t, chars("infinity").as_slice()) || same(
        t,
        chars("nan").as_slice(),
    ) {
        return true;
    }
    let e = find_char(t, 'e');
    if e < t.len() {
        let a = slice_subrange(t, 0, e);
        let b = slice_subrange(t, e + 1, t.len());
        assert(a@ =~= t@.take(e as int));
        assert(b@ =~= t@.skip(e + 1));
        mantissa(a) && exponent(b)
    } else {
        mantissa(t)
    }
}

/// The text, if it is a decimal fraction.
pub open spec fn decimal_text(s: Seq<char>) -> Option<Seq<char>> {
    if is_decimal(s) {
        Some(s)
    } else {
        None
    }
}

pub fn take_decimal(t: &[char]) -> (r: Option<String>)
    ensures
        seen(r) == decimal_text(t@),
{
    if decimal(t) {
        Some(string(t))
    } else {
        None
    }
}

// ---------- writing whole numbers ----------

pub open spec fn digit_char(d: nat) -> char {
    if d < 10 {
        (48 + d) as char
    } else {
        (55 + d) as char
    }
}

/// The number in the given base, with capital letters for digits above nine.
pub open spec fn written(n: nat, base: nat) -> Seq<char>
    decreases n,
{
    if n < base || base < 2 {
        seq![digit_char(n)]
    } else {
        proof {
            assert(n / base < n) by (nonlinear_arith)
                requires
                    n >= base,
                    base >= 2,
            ;
        }
        written(n / base, base).push(digit_char(n % base))
    }
}

/// The number in decimal.
pub open spec fn dec(n: nat) -> Seq<char> {
    written(n, 10)
}

/// The text with as many `fill`s in front as it takes to be `width` long.
pub open spec fn right(s: Seq<char>, fill: char, width: nat) -> Seq<char> {
    if s.len() < width {
        Seq::new((width - s.len()) as nat, |i: int| fill) + s
    } else {
        s
    }
}

/// The text with as many spaces behind it as it takes to be `width` long.
pub open spec fn left(s: Seq<char>, width: nat) -> Seq<char> {
    if s.len() < width {
        s + Seq::new((width - s.len()) as nat, |i: int| ' ')
    } else {
        s
    }
}

/// The number in decimal, with zeros in front up to two digits.
pub open spec fn dec2(n: nat) -> Seq<char> {
    right(dec(n), '0', 2)
}

/// The number in hexadecimal, with zeros in front up to the given width.
pub open spec fn hex(n: nat, width: nat) -> Seq<char> {
    right(written(n, 16), '0', width)
}

fn write_digit(d: u64) -> (r: char)
    requires
        d < 16,
    ensures
        r == digit_char(d as nat),
{
    if d < 10 {
        (48 + d as u8) as char
    } else {
        (55 + d as u8) as char
    }
}

fn write(n: u64, base: u64) -> (r: Vec<char>)
    requires
        2 <= base <= 16,
    ensures
        r@ == written(n as nat, base as nat),
    decreases n,
{
    if n < base {
        let mut v: Vec<char> = Vec::new();
        v.push(write_digit(n));
        assert(v@ =~= seq![digit_char(n as nat)]);
        v
    } else {
        assert(n / base < n) by (nonlinear_arith)
            requires
                n >= base,
                base >= 2,
        ;
        assert(n % base < base) by (nonlinear_arith)
            requires
                base >= 2,
        ;
        let mut v = write(n / base, base);
        v.push(write_digit(n % base));
        v
    }
}

fn pad(t: Vec<char>, fill: char, width: usize) -> (r: Vec<char>)
    ensures
        r@ == right(t@, fill, width as nat),
{
    if t.len() >= width {
        return t;
    }
    let k: usize = width - t.len();
    let mut out: Vec<char> = Vec::new();
    let mut i: usize = 0;
    while i < k
        invariant
            i <= k,
            out@ =~= Seq::new(i as nat, |j: int| fill),
        decreases k - i,
    {
        out.push(fill);
        i = i + 1;
    }
    let ghost front = out@;
    let mut i: usize = 0;
    while i < t.len()
        invariant
            i <= t.len(),
            out@ =~= front + t@.take(i as int),
        decreases t.len() - i,
    {
        out.push(t[i]);
        i = i + 1;
    }
    assert(t@.take(t@.len() as int) =~= t@);
    out
}

pub fn dec_text(n: u64) -> (r: String)
    ensures
        r@ == dec(n as nat),
{
    string(write(n, 10).as_slice())
}

pub fn dec2_text(n: u64) -> (r: String)
    ensures
        r@ == dec2(n as nat),
{
    string(pad(write(n, 10), '0', 2).as_slice())
}

pub fn hex_text(n: u64, width: usize) -> (r: String)
    ensures
        r@ == hex(n as nat, width as nat),
{
    string(pad(write(n, 16), '0', width).as_slice())
}

/// The text with `fill`s in front of it up to the given width.
pub fn pad_left(s: &str, fill: char, width: usize) -> (r: String)
    ensures
        r@ == right(s@, fill, width as nat),
{
    string(pad(chars(s), fill, width).as_slice())
}

/// The text with spaces behind it up to the given width.
pub fn pad_right(s: &str, width: usize) -> (r: String)
    ensures
        r@ == left(s@, width as nat),
{
    let mut out = chars(s);
    let ghost start = out@;
    while out.len() < width
        invariant
            start.len() <= out.len(),
            out.len() <= width || out@ == start,
            out@ =~= start + Seq::new((out.len() - start.len()) as nat, |j: int| ' '),
        decreases width - out.len(),
    {
        out.push(' ');
    }
    assert(out@ =~= left(s@, width as nat));
    string(out.as_slice())
}

// ---------- laws ----------

proof fn lemma_written_digits(n: nat, base: nat)
    requires
        2 <= base <= 16,
    ensures
        written(n, base).len() > 0,
        written(n, base)[0] != '+',
        digits_value(written(n, base), base as int) == Some(n as int),
    decreases n,
{
    let w = written(n, base);
    if n < base {
        let none = w.drop_last();
        assert(none.len() == 0);
        assert(digits_value(none, base as int) == Some(0int));
        assert(digit_value(w.last(), base as int) == Some(n as int));
        assert(0 * (base as int) + n == n) by (nonlinear_arith);
    } else {
        assert(n / base < n && n % base < base && n == (n / base) * base + n % base)
            by (nonlinear_arith)
            requires
                n >= base,
                base >= 2,
        ;
        lemma_written_digits(n / base, base);
        assert(w.drop_last() =~= written(n / base, base));
        assert(digit_value(w.last(), base as int) == Some((n % base) as int));
        assert(w[0] == written(n / base, base)[0]);
    }
}

/// A number that is written in decimal reads back as the same number, and so
/// does one that is written in hexadecimal.
pub proof fn lemma_written_reads_back(n: u64)
    ensures
        decimal_u64(dec(n as nat)) == Some(n as int),
        hexadecimal_u64(hex(n as nat, 0)) == Some(n as int),
{
    lemma_written_digits(n as nat, 10);
    lemma_written_digits(n as nat, 16);
}

} // verus!
