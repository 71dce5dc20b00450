//! Text as a sequence of characters: cutting, trimming, and the numbers in it.
use vstd::prelude::*;
use vstd::slice::slice_subrange;

use crate::lists::{put, seen, views};

verus! {

/// Appends one character (`String::push`): the text grows by that character
/// at its end and is otherwise unchanged.
pub assume_specification[ String::push ](s: &mut String, c: char)
    ensures
        final(s)@ == old(s)@.push(c),
;

/// Whether a character beyond ASCII has Unicode's Alphabetic property.
pub uninterp spec fn alphabetic(c: char) -> bool;

/// Asks for the Alphabetic property (`char::is_alphabetic`): of the ASCII
/// characters the letters have it, and of the others those that `alphabetic`
/// names.
pub assume_specification[ char::is_alphabetic ](c: char) -> (r: bool)
    ensures
        r == (if (c as u32) < 128 {
            is_letter(c)
        } else {
            alphabetic(c)
        }),
;

/// The text in lower case, where not all of it is ASCII.
pub uninterp spec fn lowercase(s: Seq<char>) -> Seq<char>;

pub open spec fn is_ascii_text(s: Seq<char>) -> bool {
    forall|i: int| 0 <= i < s.len() ==> (#[trigger] s[i] as u32) < 128
}

/// The text in lower case.
pub open spec fn in_lower_case(s: Seq<char>) -> Seq<char> {
    if is_ascii_text(s) {
        lower(s)
    } else {
        lowercase(s)
    }
}

/// Turns a text into lower case (`str::to_lowercase`): in an ASCII text the
/// capital letters become small ones, and what becomes of any other text is
/// what `lowercase` names.
pub assume_specification[ str::to_lowercase ](s: &str) -> (r: String)
    ensures
        r@ == (if is_ascii_text(s@) {
            lower(s@)
        } else {
            lowercase(s@)
        }),
;

// ---------- characters ----------

/// The characters with Unicode's White_Space property.
pub open spec fn is_space(c: char) -> bool {
    let n = c as u32;
    ||| 9 <= n <= 13
    ||| n == 0x20
    ||| n == 0x85
    ||| n == 0xA0
    ||| n == 0x1680
    ||| 0x2000 <= n <= 0x200A
    ||| n == 0x2028
    ||| n == 0x2029
    ||| n == 0x202F
    ||| n == 0x205F
    ||| n == 0x3000
}

pub open spec fn is_digit(c: char) -> bool {
    '0' <= c <= '9'
}

pub open spec fn is_letter(c: char) -> bool {
    ('a' <= c <= 'z') || ('A' <= c <= 'Z')
}

pub open spec fn ascii_lower(c: char) -> char {
    if 'A' <= c <= 'Z' {
        (c as u32 + 32) as char
    } else {
        c
    }
}

pub open spec fn lower(s: Seq<char>) -> Seq<char> {
    s.map_values(|c: char| ascii_lower(c))
}

pub fn space(c: char) -> (r: bool)
    ensures
        r == is_space(c),
{
    let n: u32 = c as u32;
    (9 <= n && n <= 13) || n == 0x20 || n == 0x85 || n == 0xA0 || n == 0x1680 || (0x2000 <= n
        && n <= 0x200A) || n == 0x2028 || n == 0x2029 || n == 0x202F || n == 0x205F || n == 0x3000
}

pub fn digit(c: char) -> (r: bool)
    ensures
        r == is_digit(c),
{
    '0' <= c && c <= '9'
}

pub fn letter(c: char) -> (r: bool)
    ensures
        r == is_letter(c),
{
    ('a' <= c && c <= 'z') || ('A' <= c && c <= 'Z')
}

pub fn lower_char(c: char) -> (r: char)
    ensures
        r == ascii_lower(c),
{
    if 'A' <= c && c <= 'Z' {
        (c as u8 + 32) as char
    } else {
        c
    }
}

// ---------- whole texts ----------

/// The characters of a text.
pub fn chars(s: &str) -> (r: Vec<char>)
    ensures
        r@ == s@,
{
    let mut out: Vec<char> = Vec::new();
    for c in it: s.chars()
        invariant
            out@ =~= s@.take(it.index()),
            it.seq() == s@,
    {
        out.push(c);
    }
    assert(s@.take(s@.len() as int) =~= s@);
    out
}

/// The text made of the given characters.
pub fn string(t: &[char]) -> (r: String)
    ensures
        r@ == t@,
{
    let mut out = String::new();
    let mut i: usize = 0;
    while i < t.len()
        invariant
            i <= t.len(),
            out@ =~= t@.take(i as int),
        decreases t.len() - i,
    {
        out.push(t[i]);
        i = i + 1;
    }
    assert(t@.take(t@.len() as int) =~= t@);
    out
}

/// An owned copy of a text.
pub fn owned(s: &str) -> (r: String)
    ensures
        r@ == s@,
{
    s.to_owned()
}

pub fn same(a: &[char], b: &[char]) -> (r: bool)
    ensures
        r == (a@ == b@),
{
    if a.len() != b.len() {
        return false;
    }
    let mut i: usize = 0;
    while i < a.len()
        invariant
            i <= a.len(),
            a.len() == b.len(),
            forall|j: int| 0 <= j < i ==> a@[j] == b@[j],
        decreases a.len() - i,
    {
        if a[i] != b[i] {
            return false;
        }
        i = i + 1;
    }
    assert(a@ =~= b@);
    true
}

/// Whether the characters spell the given text.
pub fn spells(a: &[char], b: &str) -> (r: bool)
    ensures
        r == (a@ == b@),
{
    let b = chars(b);
    same(a, b.as_slice())
}

pub fn lowered(t: &[char]) -> (r: Vec<char>)
    ensures
        r@ == lower(t@),
{
    let mut out: Vec<char> = Vec::new();
    let mut i: usize = 0;
    while i < t.len()
        invariant
            i <= t.len(),
            out@ =~= lower(t@.take(i as int)),
        decreases t.len() - i,
    {
        out.push(lower_char(t[i]));
        i = i + 1;
    }
    assert(t@.take(t@.len() as int) =~= t@);
    out
}

// ---------- finding ----------

/// Where the first `c` stands; the length if there is none.
pub open spec fn find(s: Seq<char>, c: char) -> nat
    decreases s.len(),
{
    if s.len() == 0 || s[0] == c {
        0
    } else {
        1 + find(s.drop_first(), c)
    }
}

pub proof fn lemma_find(s: Seq<char>, c: char)
    ensures
        find(s, c) <= s.len(),
        forall|i: int| 0 <= i < find(s, c) ==> s[i] != c,
        find(s, c) < s.len() ==> s[find(s, c) as int] == c,
        find(s, c) < s.len() <==> s.contains(c),
    decreases s.len(),
{
    if s.len() > 0 && s[0] != c {
        let t = s.drop_first();
        lemma_find(t, c);
        assert forall|i: int| 0 <= i < find(s, c) implies s[i] != c by {
            if i > 0 {
                assert(s[i] == t[i - 1]);
            }
        }
        if s.contains(c) {
            let i = choose|i: int| 0 <= i < s.len() && s[i] == c;
            assert(t[i - 1] == c);
        }
    }
}

pub proof fn lemma_find_is(s: Seq<char>, c: char, k: nat)
    requires
        k <= s.len(),
        forall|i: int| 0 <= i < k ==> s[i] != c,
        k < s.len() ==> s[k as int] == c,
    ensures
        find(s, c) == k,
{
    lemma_find(s, c);
    let f = find(s, c);
    if f < k {
        assert(s[f as int] == c);
    } else if k < f {
        assert(s[k as int] != c);
    }
}

pub fn find_char(t: &[char], c: char) -> (r: usize)
    ensures
        r == find(t@, c),
        r <= t.len(),
{
    let mut i: usize = 0;
    while i < t.len() && t[i] != c
        invariant
            i <= t.len(),
            forall|j: int| 0 <= j < i ==> t@[j] != c,
        decreases t.len() - i,
    {
        i = i + 1;
    }
    proof {
        lemma_find_is(t@, c, i as nat);
    }
    i
}

pub fn has_char(t: &[char], c: char) -> (r: bool)
    ensures
        r == t@.contains(c),
{
    proof {
        lemma_find(t@, c);
    }
    find_char(t, c) < t.len()
}

/// Whether `s` begins with `p`.
pub open spec fn starts(s: Seq<char>, p: Seq<char>) -> bool {
    p.len() <= s.len() && s.take(p.len() as int) == p
}

/// Whether `s` ends with `p`.
pub open spec fn ends(s: Seq<char>, p: Seq<char>) -> bool {
    p.len() <= s.len() && s.skip(s.len() - p.len()) == p
}

pub fn starts_with(t: &[char], p: &[char]) -> (r: bool)
    ensures
        r == starts(t@, p@),
{
    if p.len() > t.len() {
        return false;
    }
    same(slice_subrange(t, 0, p.len()), p)
}

/// What follows the prefix `p`, if the text begins with it.
pub open spec fn after_prefix(s: Seq<char>, p: Seq<char>) -> Option<Seq<char>> {
    if starts(s, p) {
        Some(s.skip(p.len() as int))
    } else {
        None
    }
}

pub fn strip_prefix<'a>(t: &'a [char], p: &str) -> (r: Option<&'a [char]>)
    ensures
        seen(r) == after_prefix(t@, p@),
{
    let p = chars(p);
    if starts_with(t, p.as_slice()) {
        let rest = slice_subrange(t, p.len(), t.len());
        assert(rest@ =~= t@.skip(p@.len() as int));
        Some(rest)
    } else {
        None
    }
}

/// What stands before the suffix `p`, if the text ends with it.
pub open spec fn before_suffix(s: Seq<char>, p: Seq<char>) -> Option<Seq<char>> {
    if ends(s, p) {
        Some(s.take(s.len() - p.len()))
    } else {
        None
    }
}

pub fn strip_suffix<'a>(t: &'a [char], p: &str) -> (r: Option<&'a [char]>)
    ensures
        seen(r) == before_suffix(t@, p@),
{
    let p = chars(p);
    if p.len() > t.len() {
        return None;
    }
    let k: usize = t.len() - p.len();
    let tail = slice_subrange(t, k, t.len());
    assert(tail@ =~= t@.skip(t@.len() - p@.len()));
    if same(tail, p.as_slice()) {
        let rest = slice_subrange(t, 0, k);
        assert(rest@ =~= t@.take(t@.len() - p@.len()));
        Some(rest)
    } else {
        None
    }
}

/// Where the first occurrence of `p` begins.
pub open spec fn find_text(s: Seq<char>, p: Seq<char>) -> Option<nat>
    decreases s.len(),
{
    if starts(s, p) {
        Some(0)
    } else if s.len() == 0 {
        None
    } else {
        match find_text(s.drop_first(), p) {
            Some(k) => Some(k + 1),
            None => None,
        }
    }
}

/// Whether `p` occurs in `s`.
pub open spec fn occurs(s: Seq<char>, p: Seq<char>) -> bool {
    find_text(s, p) is Some
}

/// The first occurrence is an occurrence, and none begins before it.
pub proof fn lemma_find_text(s: Seq<char>, p: Seq<char>)
    ensures
        match find_text(s, p) {
            Some(k) => {
                &&& k + p.len() <= s.len()
                &&& s.subrange(k as int, (k + p.len()) as int) == p
                &&& forall|i: int| 0 <= i < k ==> !starts(#[trigger] s.skip(i), p)
            },
            None => forall|i: int| 0 <= i <= s.len() ==> !starts(#[trigger] s.skip(i), p),
        },
    decreases s.len(),
{
    assert(s.skip(0) =~= s);
    if starts(s, p) {
        assert(s.subrange(0, p.len() as int) =~= s.take(p.len() as int));
    } else if s.len() > 0 {
        let t = s.drop_first();
        lemma_find_text(t, p);
        assert forall|i: int| 0 < i <= s.len() implies #[trigger] s.skip(i) == t.skip(i - 1) by {
            assert(s.skip(i) =~= t.skip(i - 1));
        }
        if let Some(k) = find_text(t, p) {
            assert(s.subrange(k as int + 1, k as int + 1 + p.len()) =~= t.subrange(k as int, (k + p.len()) as int));
        }
    }
}

pub fn find_within(t: &[char], p: &[char]) -> (r: Option<usize>)
    ensures
        match r {
            Some(k) => find_text(t@, p@) == Some(k as nat) && k + p.len() <= t.len(),
            None => find_text(t@, p@) is None,
        },
{
    let mut i: usize = 0;
    assert(t@.skip(0) =~= t@);
    while i <= t.len()
        invariant
            i <= t.len() + 1,
            i <= t.len() ==> match find_text(t@.skip(i as int), p@) {
                Some(k) => find_text(t@, p@) == Some((k + i) as nat),
                None => find_text(t@, p@) is None,
            },
            i == t.len() + 1 ==> find_text(t@, p@) is None,
        decreases t.len() + 1 - i,
    {
        let rest = slice_subrange(t, i, t.len());
        assert(rest@ =~= t@.skip(i as int));
        if starts_with(rest, p) {
            return Some(i);
        }
        proof {
            if i < t.len() {
                assert(t@.skip(i as int).drop_first() =~= t@.skip(i + 1));
            }
        }
        if i == t.len() {
            return None;
        }
        i = i + 1;
    }
    None
}

pub fn contains(t: &[char], p: &str) -> (r: bool)
    ensures
        r == occurs(t@, p@),
{
    let p = chars(p);
    find_within(t, p.as_slice()).is_some()
}

/// The text before the first occurrence of `p`, and that behind it.
pub open spec fn cut_text(s: Seq<char>, p: Seq<char>) -> Option<(Seq<char>, Seq<char>)> {
    match find_text(s, p) {
        Some(i) => Some((s.take(i as int), s.skip((i + p.len()) as int))),
        None => None,
    }
}

pub fn split_once_text<'a>(t: &'a [char], p: &str) -> (r: Option<(&'a [char], &'a [char])>)
    ensures
        match r {
            Some((a, b)) => cut_text(t@, p@) == Some((a@, b@)),
            None => cut_text(t@, p@) is None,
        },
{
    let p = chars(p);
    match find_within(t, p.as_slice()) {
        Some(i) => {
            proof {
                lemma_find_text(t@, p@);
            }
            let a = slice_subrange(t, 0, i);
            let b = slice_subrange(t, i + p.len(), t.len());
            assert(a@ =~= t@.take(i as int));
            assert(b@ =~= t@.skip(i + p@.len()));
            Some((a, b))
        },
        None => None,
    }
}

// ---------- cutting ----------

/// The two sides of the first `c`.
pub open spec fn cut(s: Seq<char>, c: char) -> Option<(Seq<char>, Seq<char>)> {
    let k = find(s, c);
    if k < s.len() {
        Some((s.take(k as int), s.skip((k + 1) as int)))
    } else {
        None
    }
}

pub fn split_once<'a>(t: &'a [char], c: char) -> (r: Option<(&'a [char], &'a [char])>)
    ensures
        match r {
            Some((a, b)) => cut(t@, c) == Some((a@, b@)),
            None => cut(t@, c) is None,
        },
{
    let k = find_char(t, c);
    if k < t.len() {
        let a = slice_subrange(t, 0, k);
        let b = slice_subrange(t, k + 1, t.len());
        assert(a@ =~= t@.take(k as int));
        assert(b@ =~= t@.skip(k + 1));
        Some((a, b))
    } else {
        None
    }
}

/// The pieces between the `c`s: one more than there are `c`s.
pub open spec fn pieces(s: Seq<char>, c: char) -> Seq<Seq<char>>
    decreases s.len(),
{
    let k = find(s, c);
    if k < s.len() {
        seq![s.take(k as int)] + pieces(s.skip((k + 1) as int), c)
    } else {
        seq![s]
    }
}

pub fn split<'a>(t: &'a [char], c: char) -> (r: Vec<&'a [char]>)
    ensures
        views(r@) == pieces(t@, c),
{
    let mut out: Vec<&'a [char]> = Vec::new();
    let mut rest: &'a [char] = t;
    proof {
        assert(views(out@) + pieces(rest@, c) =~= pieces(t@, c));
    }
    loop
        invariant_except_break
            views(out@) + pieces(rest@, c) == pieces(t@, c),
        ensures
            views(out@) == pieces(t@, c),
        decreases rest.len(),
    {
        match split_once(rest, c) {
            Some((a, b)) => {
                let ghost before = views(out@);
                put(&mut out, a);
                assert(b@.len() < rest@.len());
                assert(views(out@) + pieces(b@, c) =~= before + (seq![a@] + pieces(b@, c)));
                rest = b;
            },
            None => {
                put(&mut out, rest);
                break;
            },
        }
    }
    out
}

/// A line without the carriage return that a line feed would take with it.
pub open spec fn without_return(s: Seq<char>) -> Seq<char> {
    if s.len() > 0 && s.last() == '\r' {
        s.drop_last()
    } else {
        s
    }
}

/// The lines of a text: each ends in a line feed, or a carriage return and a
/// line feed, which the last line may lack.
pub open spec fn lines(s: Seq<char>) -> Seq<Seq<char>>
    decreases s.len(),
{
    let k = find(s, '\n');
    if k < s.len() {
        seq![without_return(s.take(k as int))] + lines(s.skip((k + 1) as int))
    } else if s.len() > 0 {
        seq![s]
    } else {
        Seq::empty()
    }
}

pub fn split_lines<'a>(t: &'a [char]) -> (r: Vec<&'a [char]>)
    ensures
        views(r@) == lines(t@),
{
    let mut out: Vec<&'a [char]> = Vec::new();
    let mut rest: &'a [char] = t;
    proof {
        assert(views(out@) + lines(rest@) =~= lines(t@));
    }
    while rest.len() > 0
        invariant
            views(out@) + lines(rest@) == lines(t@),
        decreases rest.len(),
    {
        let ghost before = views(out@);
        match split_once(rest, '\n') {
            Some((a, b)) => {
                let line = if a.len() > 0 && a[a.len() - 1] == '\r' {
                    slice_subrange(a, 0, a.len() - 1)
                } else {
                    a
                };
                assert(line@ =~= without_return(a@));
                put(&mut out, line);
                assert(views(out@) + lines(b@) =~= before + (seq![line@] + lines(b@)));
                rest = b;
            },
            None => {
                put(&mut out, rest);
                let ghost done = rest@;
                rest = slice_subrange(rest, rest.len(), rest.len());
                assert(views(out@) + lines(rest@) =~= before + lines(done));
            },
        }
    }
    assert(views(out@) + lines(rest@) =~= views(out@));
    out
}

/// Without the white space at its front.
pub open spec fn trim_front(s: Seq<char>) -> Seq<char>
    decreases s.len(),
{
    if s.len() > 0 && is_space(s[0]) {
        trim_front(s.drop_first())
    } else {
        s
    }
}

/// Without the white space at its end.
pub open spec fn trim_back(s: Seq<char>) -> Seq<char>
    decreases s.len(),
{
    if s.len() > 0 && is_space(s.last()) {
        trim_back(s.drop_last())
    } else {
        s
    }
}

/// Without the white space at either end.
pub open spec fn trimmed(s: Seq<char>) -> Seq<char> {
    trim_back(trim_front(s))
}

pub fn trim<'a>(t: &'a [char]) -> (r: &'a [char])
    ensures
        r@ == trimmed(t@),
{
    let mut a: usize = 0;
    assert(t@.skip(0) =~= t@);
    while a < t.len() && space(t[a])
        invariant
            a <= t.len(),
            trim_front(t@.skip(a as int)) == trim_front(t@),
        decreases t.len() - a,
    {
        assert(t@.skip(a as int).drop_first() =~= t@.skip(a + 1));
        a = a + 1;
    }
    let ghost s = t@.skip(a as int);
    let mut b: usize = t.len();
    assert(t@.subrange(a as int, b as int) =~= s);
    while a < b && space(t[b - 1])
        invariant
            a <= b <= t.len(),
            trim_back(t@.subrange(a as int, b as int)) == trim_back(s),
        decreases b,
    {
        assert(t@.subrange(a as int, b as int).drop_last() =~= t@.subrange(a as int, b - 1));
        b = b - 1;
    }
    slice_subrange(t, a, b)
}

/// Without the digits at its end.
pub open spec fn before_digits(s: Seq<char>) -> Seq<char>
    decreases s.len(),
{
    if s.len() > 0 && is_digit(s.last()) {
        before_digits(s.drop_last())
    } else {
        s
    }
}

pub fn trim_digits<'a>(t: &'a [char]) -> (r: &'a [char])
    ensures
        r@ == before_digits(t@),
        r.len() <= t.len(),
        r@ == t@.take(r.len() as int),
{
    let mut b: usize = t.len();
    assert(t@.take(b as int) =~= t@);
    while b > 0 && digit(t[b - 1])
        invariant
            b <= t.len(),
            before_digits(t@.take(b as int)) == before_digits(t@),
        decreases b,
    {
        assert(t@.take(b as int).drop_last() =~= t@.take(b - 1));
        b = b - 1;
    }
    let r = slice_subrange(t, 0, b);
    assert(r@ =~= t@.take(b as int));
    r
}

/// Without the ASCII letters at its end.
pub open spec fn before_letters(s: Seq<char>) -> Seq<char>
    decreases s.len(),
{
    if s.len() > 0 && is_letter(s.last()) {
        before_letters(s.drop_last())
    } else {
        s
    }
}

pub fn trim_letters<'a>(t: &'a [char]) -> (r: &'a [char])
    ensures
        r@ == before_letters(t@),
{
    let mut b: usize = t.len();
    assert(t@.take(b as int) =~= t@);
    while b > 0 && letter(t[b - 1])
        invariant
            b <= t.len(),
            before_letters(t@.take(b as int)) == before_letters(t@),
        decreases b,
    {
        assert(t@.take(b as int).drop_last() =~= t@.take(b - 1));
        b = b - 1;
    }
    let r = slice_subrange(t, 0, b);
    assert(r@ =~= t@.take(b as int));
    r
}

/// Whether a character is a letter of some script.
pub open spec fn is_any_letter(c: char) -> bool {
    if (c as u32) < 128 {
        is_letter(c)
    } else {
        alphabetic(c)
    }
}

/// Without the letters of any script at its end.
pub open spec fn before_any_letters(s: Seq<char>) -> Seq<char>
    decreases s.len(),
{
    if s.len() > 0 && is_any_letter(s.last()) {
        before_any_letters(s.drop_last())
    } else {
        s
    }
}

pub fn trim_any_letters<'a>(t: &'a [char]) -> (r: &'a [char])
    ensures
        r@ == before_any_letters(t@),
{
    let mut b: usize = t.len();
    assert(t@.take(b as int) =~= t@);
    while b > 0 && t[b - 1].is_alphabetic()
        invariant
            b <= t.len(),
            before_any_letters(t@.take(b as int)) == before_any_letters(t@),
        decreases b,
    {
        assert(t@.take(b as int).drop_last() =~= t@.take(b - 1));
        b = b - 1;
    }
    let r = slice_subrange(t, 0, b);
    assert(r@ =~= t@.take(b as int));
    r
}

/// Without the `c`s at its end.
pub open spec fn before_trailing(s: Seq<char>, c: char) -> Seq<char>
    decreases s.len(),
{
    if s.len() > 0 && s.last() == c {
        before_trailing(s.drop_last(), c)
    } else {
        s
    }
}

pub fn trim_trailing<'a>(t: &'a [char], c: char) -> (r: &'a [char])
    ensures
        r@ == before_trailing(t@, c),
{
    let mut b: usize = t.len();
    assert(t@.take(b as int) =~= t@);
    while b > 0 && t[b - 1] == c
        invariant
            b <= t.len(),
            before_trailing(t@.take(b as int), c) == before_trailing(t@, c),
        decreases b,
    {
        assert(t@.take(b as int).drop_last() =~= t@.take(b - 1));
        b = b - 1;
    }
    let r = slice_subrange(t, 0, b);
    assert(r@ =~= t@.take(b as int));
    r
}

/// How many characters come before the first white space.
pub open spec fn word_len(s: Seq<char>) -> nat
    decreases s.len(),
{
    if s.len() == 0 || is_space(s[0]) {
        0
    } else {
        1 + word_len(s.drop_first())
    }
}

/// The words of a text: the stretches between white space.
pub open spec fn words(s: Seq<char>) -> Seq<Seq<char>>
    decreases s.len(),
{
    if s.len() == 0 {
        Seq::empty()
    } else if is_space(s[0]) {
        words(s.drop_first())
    } else {
        let n = word_len(s) as int;
        if 0 < n <= s.len() {
            seq![s.take(n)] + words(s.skip(n))
        } else {
            Seq::empty()
        }
    }
}

pub fn split_words<'a>(t: &'a [char]) -> (r: Vec<&'a [char]>)
    ensures
        views(r@) == words(t@),
{
    let mut out: Vec<&'a [char]> = Vec::new();
    let mut i: usize = 0;
    assert(t@.skip(0) =~= t@);
    assert(views(out@) + words(t@) =~= words(t@));
    while i < t.len()
        invariant
            i <= t.len(),
            views(out@) + words(t@.skip(i as int)) == words(t@),
        decreases t.len() - i,
    {
        let ghost rest = t@.skip(i as int);
        if space(t[i]) {
            assert(rest.drop_first() =~= t@.skip(i + 1));
            i = i + 1;
        } else {
            let a = i;
            assert(rest.skip(0) =~= rest);
            while i < t.len() && !space(t[i])
                invariant
                    a <= i <= t.len(),
                    rest == t@.skip(a as int),
                    word_len(rest) == (i - a) + word_len(t@.skip(i as int)),
                decreases t.len() - i,
            {
                assert(t@.skip(i as int).drop_first() =~= t@.skip(i + 1));
                i = i + 1;
            }
            let ghost before = views(out@);
            let w = slice_subrange(t, a, i);
            assert(w@ =~= rest.take(i - a));
            put(&mut out, w);
            assert(rest.skip(i - a) =~= t@.skip(i as int));
            assert(views(out@) + words(t@.skip(i as int)) =~= before + (seq![w@] + words(
                t@.skip(i as int),
            )));
        }
    }
    assert(views(out@) + words(t@.skip(t.len() as int)) =~= views(out@));
    out
}

// ---------- joining ----------

/// Texts with a separator between them.
pub open spec fn separated(s: Seq<Seq<char>>, by: Seq<char>) -> Seq<char>
    decreases s.len(),
{
    if s.len() == 0 {
        Seq::empty()
    } else if s.len() == 1 {
        s[0]
    } else {
        separated(s.drop_last(), by) + by + s.last()
    }
}

proof fn lemma_pieces_push(a: Seq<char>, b: Seq<char>, c: char)
    requires
        !b.contains(c),
    ensures
        pieces(a + seq![c] + b, c) == pieces(a, c).push(b),
    decreases a.len(),
{
    let s = a + seq![c] + b;
    lemma_find(a, c);
    let k = find(a, c);
    assert forall|i: int| 0 <= i < k implies s[i] != c by {
        assert(s[i] == a[i]);
    }
    lemma_find_is(s, c, k);
    if k < a.len() {
        let rest = a.skip((k + 1) as int);
        assert(s.skip((k + 1) as int) =~= rest + seq![c] + b);
        assert(s.take(k as int) =~= a.take(k as int));
        lemma_pieces_push(rest, b, c);
        assert(pieces(s, c) =~= pieces(a, c).push(b));
    } else {
        assert(s.take(k as int) =~= a);
        assert(s.skip((k + 1) as int) =~= b);
        lemma_find(b, c);
        assert(pieces(b, c) =~= seq![b]);
        assert(pieces(s, c) =~= pieces(a, c).push(b));
    }
}

/// Texts that were joined by a character that none of them holds come apart
/// there again.
pub proof fn lemma_separated_comes_apart(s: Seq<Seq<char>>, c: char)
    requires
        s.len() > 0,
        forall|i: int| 0 <= i < s.len() ==> !(#[trigger] s[i]).contains(c),
    ensures
        pieces(separated(s, seq![c]), c) == s,
    decreases s.len(),
{
    if s.len() == 1 {
        lemma_find(s[0], c);
        assert(pieces(s[0], c) =~= s);
    } else {
        let t = s.drop_last();
        assert forall|i: int| 0 <= i < t.len() implies !(#[trigger] t[i]).contains(c) by {
            assert(t[i] == s[i]);
        }
        lemma_separated_comes_apart(t, c);
        lemma_pieces_push(separated(t, seq![c]), s.last(), c);
        assert(t.push(s.last()) =~= s);
    }
}

} // verus!
