//! Sequences of things that stand for other things: mapping, keeping, joining.
use vstd::prelude::*;

verus! {

/// What each element stands for.
pub open spec fn views<T: View>(s: Seq<T>) -> Seq<T::V> {
    Seq::new(s.len(), |i: int| s[i]@)
}

/// The results of `f` where it gives one, in order.
pub open spec fn kept<A, B>(s: Seq<A>, f: spec_fn(A) -> Option<B>) -> Seq<B>
    decreases s.len(),
{
    if s.len() == 0 {
        Seq::empty()
    } else {
        kept(s.drop_last(), f) + listed(f(s.last()))
    }
}

/// The results of `f` one after another.
pub open spec fn joined<A, B>(s: Seq<A>, f: spec_fn(A) -> Seq<B>) -> Seq<B>
    decreases s.len(),
{
    if s.len() == 0 {
        Seq::empty()
    } else {
        joined(s.drop_last(), f) + f(s.last())
    }
}

/// An optional element as a sequence of none or one.
pub open spec fn listed<B>(o: Option<B>) -> Seq<B> {
    match o {
        Some(b) => seq![b],
        None => Seq::empty(),
    }
}

/// The first result that `f` gives.
pub open spec fn first<A, B>(s: Seq<A>, f: spec_fn(A) -> Option<B>) -> Option<B>
    decreases s.len(),
{
    if s.len() == 0 {
        None
    } else {
        match f(s[0]) {
            Some(b) => Some(b),
            None => first(s.drop_first(), f),
        }
    }
}

pub proof fn lemma_kept_step<A, B>(s: Seq<A>, f: spec_fn(A) -> Option<B>, i: int)
    requires
        0 <= i < s.len(),
    ensures
        match f(s[i]) {
            Some(b) => kept(s.take(i + 1), f) == kept(s.take(i), f).push(b),
            None => kept(s.take(i + 1), f) == kept(s.take(i), f),
        },
{
    assert(s.take(i + 1).drop_last() =~= s.take(i));
    let before = kept(s.take(i), f);
    assert(kept(s.take(i + 1), f) =~= before + listed(f(s[i])));
    if let Some(b) = f(s[i]) {
        assert(before + seq![b] =~= before.push(b));
    } else {
        assert(before + Seq::<B>::empty() =~= before);
    }
}

/// What is kept of two rows one behind the other is what is kept of each.
pub proof fn lemma_kept_both<A, B>(s: Seq<A>, t: Seq<A>, f: spec_fn(A) -> Option<B>)
    ensures
        kept(s + t, f) == kept(s, f) + kept(t, f),
    decreases t.len(),
{
    if t.len() == 0 {
        assert(s + t =~= s);
        assert(kept(s, f) + kept(t, f) =~= kept(s, f));
    } else {
        lemma_kept_both(s, t.drop_last(), f);
        assert((s + t).drop_last() =~= s + t.drop_last());
        assert(kept(s + t, f) =~= kept(s, f) + kept(t, f));
    }
}

/// Of one element is kept what comes of it.
pub proof fn lemma_kept_one<A, B>(a: A, f: spec_fn(A) -> Option<B>)
    ensures
        kept(seq![a], f) == listed(f(a)),
{
    let s = seq![a];
    assert(s.drop_last().len() == 0);
    assert(kept(s.drop_last(), f) =~= Seq::<B>::empty());
    assert(kept(s, f) =~= listed(f(a)));
}

/// Where something comes of every element, all of it is kept, in its order.
pub proof fn lemma_kept_all<A, B>(s: Seq<A>, f: spec_fn(A) -> Option<B>, r: Seq<B>)
    requires
        r.len() == s.len(),
        forall|i: int| 0 <= i < s.len() ==> f(#[trigger] s[i]) == Some(r[i]),
    ensures
        kept(s, f) == r,
    decreases s.len(),
{
    if s.len() > 0 {
        let t = s.drop_last();
        assert forall|i: int| 0 <= i < t.len() implies f(#[trigger] t[i]) == Some(r.drop_last()[i]) by {
            assert(s[i] == t[i]);
        }
        lemma_kept_all(t, f, r.drop_last());
        assert(s[s.len() - 1] == s.last());
        assert(kept(s, f) =~= r);
    } else {
        assert(kept(s, f) =~= r);
    }
}

pub proof fn lemma_joined_step<A, B>(s: Seq<A>, f: spec_fn(A) -> Seq<B>, i: int)
    requires
        0 <= i < s.len(),
    ensures
        joined(s.take(i + 1), f) == joined(s.take(i), f) + f(s[i]),
{
    assert(s.take(i + 1).drop_last() =~= s.take(i));
}

/// Where nothing before `i` gives a result, the first one is looked for from `i` on.
pub proof fn lemma_first_step<A, B>(s: Seq<A>, f: spec_fn(A) -> Option<B>, i: int)
    requires
        0 <= i <= s.len(),
        forall|j: int| 0 <= j < i ==> f(#[trigger] s[j]) is None,
    ensures
        first(s, f) == first(s.skip(i), f),
    decreases i,
{
    if i == 0 {
        assert(s.skip(0) =~= s);
    } else {
        let t = s.drop_first();
        assert forall|j: int| 0 <= j < i - 1 implies f(#[trigger] t[j]) is None by {
            assert(t[j] == s[j + 1]);
        }
        lemma_first_step(t, f, i - 1);
        assert(f(s[0]) is None);
        assert(t.skip(i - 1) =~= s.skip(i));
    }
}

/// The first result is the one at `i` where nothing before it gives one.
pub proof fn lemma_first_at<A, B>(s: Seq<A>, f: spec_fn(A) -> Option<B>, i: int)
    requires
        0 <= i < s.len(),
        f(s[i]) is Some,
        forall|j: int| 0 <= j < i ==> f(#[trigger] s[j]) is None,
    ensures
        first(s, f) == f(s[i]),
{
    lemma_first_step(s, f, i);
    assert(s.skip(i)[0] == s[i]);
}

/// There is no first result where nothing gives one.
pub proof fn lemma_first_none<A, B>(s: Seq<A>, f: spec_fn(A) -> Option<B>)
    requires
        forall|j: int| 0 <= j < s.len() ==> f(#[trigger] s[j]) is None,
    ensures
        first(s, f) is None,
{
    lemma_first_step(s, f, s.len() as int);
}

/// What an optional element stands for.
pub open spec fn seen<T: View>(o: Option<T>) -> Option<T::V> {
    match o {
        Some(t) => Some(t@),
        None => None,
    }
}

/// All of a sequence taken from its front.
pub proof fn lemma_take_all<A>(s: Seq<A>)
    ensures
        s.take(s.len() as int) == s,
{
    assert(s.take(s.len() as int) =~= s);
}

/// Adds an element at the end.
pub fn put<T: View>(v: &mut Vec<T>, x: T)
    ensures
        views(final(v)@) == views(old(v)@).push(x@),
        final(v)@ == old(v)@.push(x),
{
    v.push(x);
    assert(views(v@) =~= views(old(v)@).push(x@));
}

} // verus!
