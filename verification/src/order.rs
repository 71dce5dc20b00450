//! Putting labelled things in the order of their labels.
use vstd::prelude::*;

use crate::lists::views;
use crate::text::chars;

verus! {

/// Whether `a` comes before `b`: the order of the first characters that
/// differ, or a text before its continuations.
pub open spec fn precedes(a: Seq<char>, b: Seq<char>) -> bool
    decreases a.len(),
{
    if b.len() == 0 {
        false
    } else if a.len() == 0 {
        true
    } else if a[0] != b[0] {
        a[0] < b[0]
    } else {
        precedes(a.drop_first(), b.drop_first())
    }
}

/// The sequence with `x` behind everything at its front that does not come
/// after it.
pub open spec fn placed<M>(s: Seq<M>, x: M, key: spec_fn(M) -> Seq<char>) -> Seq<M>
    decreases s.len(),
{
    if s.len() > 0 && precedes(key(x), key(s.last())) {
        placed(s.drop_last(), x, key).push(s.last())
    } else {
        s.push(x)
    }
}

/// The sequence in the order of the keys, with equal keys as they came.
pub open spec fn sorted<M>(s: Seq<M>, key: spec_fn(M) -> Seq<char>) -> Seq<M>
    decreases s.len(),
{
    if s.len() == 0 {
        s
    } else {
        placed(sorted(s.drop_last(), key), s.last(), key)
    }
}

/// Whether no element comes before one that stands earlier.
pub open spec fn in_order<M>(s: Seq<M>, key: spec_fn(M) -> Seq<char>) -> bool {
    forall|i: int, j: int|
        #![trigger s[i], s[j]]
        0 <= i <= j < s.len() ==> !precedes(key(s[j]), key(s[i]))
}

proof fn lemma_precedes_chain(a: Seq<char>, b: Seq<char>, c: Seq<char>)
    ensures
        !precedes(b, a) && !precedes(c, b) ==> !precedes(c, a),
        precedes(a, b) ==> !precedes(b, a),
        !precedes(a, a),
    decreases a.len(),
{
    if a.len() > 0 {
        lemma_precedes_chain(a.drop_first(), b.drop_first(), c.drop_first());
    }
}

proof fn lemma_placed<M>(s: Seq<M>, x: M, key: spec_fn(M) -> Seq<char>)
    requires
        in_order(s, key),
    ensures
        in_order(placed(s, x, key), key),
        placed(s, x, key).to_multiset() =~= s.to_multiset().insert(x),
        placed(s, x, key).len() == s.len() + 1,
        forall|i: int|
            0 <= i < s.len() + 1 ==> (#[trigger] placed(s, x, key)[i] == x || s.contains(
                placed(s, x, key)[i],
            )),
    decreases s.len(),
{
    broadcast use vstd::seq_lib::group_to_multiset_ensures;

    let p = placed(s, x, key);
    if s.len() > 0 && precedes(key(x), key(s.last())) {
        let t = s.drop_last();
        let q = placed(t, x, key);
        lemma_placed(t, x, key);
        assert(s =~= t.push(s.last()));
        assert forall|i: int, j: int|
            #![trigger p[i], p[j]]
            0 <= i <= j < p.len() implies !precedes(key(p[j]), key(p[i])) by {
            if j < p.len() - 1 {
                assert(p[i] == q[i] && p[j] == q[j]);
            } else if i < p.len() - 1 {
                assert(p[i] == q[i]);
                lemma_precedes_chain(key(x), key(s.last()), key(x));
                if q[i] != x {
                    let k = choose|k: int| 0 <= k < t.len() && t[k] == q[i];
                    assert(s[k] == q[i]);
                    assert(s[s.len() - 1] == s.last());
                }
            } else {
                lemma_precedes_chain(key(p[j]), key(p[j]), key(p[j]));
            }
        }
        assert forall|i: int| 0 <= i < p.len() implies (#[trigger] p[i] == x || s.contains(
            p[i],
        )) by {
            if i < q.len() {
                assert(p[i] == q[i]);
                if q[i] != x {
                    let k = choose|k: int| 0 <= k < t.len() && t[k] == q[i];
                    assert(s[k] == q[i]);
                }
            } else {
                assert(s[s.len() - 1] == p[i]);
            }
        }
        assert(p.to_multiset() =~= s.to_multiset().insert(x)) by {
            assert(s.to_multiset() =~= t.to_multiset().insert(s.last()));
            assert(p =~= q.push(s.last()));
            assert(p.to_multiset() =~= q.to_multiset().insert(s.last()));
        }
    } else {
        assert forall|i: int, j: int|
            #![trigger p[i], p[j]]
            0 <= i <= j < p.len() implies !precedes(key(p[j]), key(p[i])) by {
            if j == s.len() && i < j {
                let last = s[s.len() - 1];
                assert(p[i] == s[i]);
                lemma_precedes_chain(key(s[i]), key(last), key(x));
            } else if i == j {
                lemma_precedes_chain(key(p[j]), key(p[j]), key(p[j]));
            } else {
                assert(p[i] == s[i] && p[j] == s[j]);
            }
        }
        assert forall|i: int| 0 <= i < p.len() implies (#[trigger] p[i] == x || s.contains(
            p[i],
        )) by {
            if i < s.len() {
                assert(s[i] == p[i]);
            }
        }
    }
}

/// Sorting puts the elements in order and neither adds nor loses one.
pub proof fn lemma_sorted<M>(s: Seq<M>, key: spec_fn(M) -> Seq<char>)
    ensures
        in_order(sorted(s, key), key),
        sorted(s, key).to_multiset() == s.to_multiset(),
        sorted(s, key).len() == s.len(),
    decreases s.len(),
{
    broadcast use vstd::seq_lib::group_to_multiset_ensures;

    if s.len() > 0 {
        let t = s.drop_last();
        lemma_sorted(t, key);
        lemma_placed(sorted(t, key), s.last(), key);
        assert(s =~= t.push(s.last()));
        assert(s.to_multiset() =~= t.to_multiset().insert(s.last()));
    }
}

/// A thing with a label by which it is put in order.
pub trait Labelled: View + Sized {
    spec fn key() -> spec_fn(Self::V) -> Seq<char>;

    fn label(&self) -> (r: &str)
        ensures
            r@ == Self::key()(self@),
    ;
}

impl Labelled for String {
    open spec fn key() -> spec_fn(Seq<char>) -> Seq<char> {
        |m: Seq<char>| m
    }

    fn label(&self) -> (r: &str) {
        self.as_str()
    }
}

/// Whether the first text comes before the second.
pub fn before(first: &str, second: &str) -> (r: bool)
    ensures
        r == precedes(first@, second@),
{
    let a = chars(first);
    let b = chars(second);
    let mut i: usize = 0;
    assert(a@.skip(0) =~= a@);
    assert(b@.skip(0) =~= b@);
    while i < a.len() && i < b.len()
        invariant
            i <= a.len(),
            i <= b.len(),
            precedes(first@, second@) == precedes(a@.skip(i as int), b@.skip(i as int)),
        decreases a.len() - i,
    {
        if a[i] != b[i] {
            return a[i] < b[i];
        }
        assert(a@.skip(i as int).drop_first() =~= a@.skip(i + 1));
        assert(b@.skip(i as int).drop_first() =~= b@.skip(i + 1));
        i = i + 1;
    }
    i < b.len()
}

/// Puts the things in the order of their labels, and equal labels as they came.
pub fn sort_by_label<T: Labelled>(v: Vec<T>) -> (r: Vec<T>)
    ensures
        views(r@) == sorted(views(v@), T::key()),
    decreases v.len(),
{
    let mut v = v;
    let ghost all = views(v@);
    match v.pop() {
        None => v,
        Some(x) => {
            assert(views(v@) =~= all.drop_last());
            let mut out = sort_by_label(v);
            let ghost s = views(out@);
            let mut p: usize = out.len();
            let ghost key = T::key();
            assert(s.take(p as int) =~= s);
            assert(placed(s, x@, key) =~= placed(s.take(p as int), x@, key) + s.skip(p as int));
            while p > 0 && before(x.label(), out[p - 1].label())
                invariant
                    p <= out.len(),
                    s == views(out@),
                    key == T::key(),
                    placed(s, x@, key) == placed(s.take(p as int), x@, key) + s.skip(p as int),
                decreases p,
            {
                proof {
                    let t = s.take(p as int);
                    assert(t.last() == out@[p - 1]@);
                    assert(t.drop_last() =~= s.take(p - 1));
                    assert(placed(t, x@, key) + s.skip(p as int) =~= placed(s.take(p - 1), x@, key)
                        + s.skip(p - 1));
                }
                p = p - 1;
            }
            proof {
                let t = s.take(p as int);
                if p > 0 {
                    assert(t.last() == out@[p - 1]@);
                }
                assert(t.push(x@) + s.skip(p as int) =~= s.insert(p as int, x@));
            }
            out.insert(p, x);
            assert(views(out@) =~= s.insert(p as int, x@));
            out
        },
    }
}

} // verus!
