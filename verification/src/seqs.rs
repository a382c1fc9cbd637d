//! Sequence helpers shared by the selection functions.

use vstd::prelude::*;

verus! {

/// `p` is the beginning of `s`.
pub open spec fn starts_with<T>(s: Seq<T>, p: Seq<T>) -> bool {
    p.len() <= s.len() && s.subrange(0, p.len() as int) == p
}

/// `p` is the end of `s`.
pub open spec fn ends_with<T>(s: Seq<T>, p: Seq<T>) -> bool {
    p.len() <= s.len() && s.subrange(s.len() - p.len(), s.len() as int) == p
}

pub proof fn lemma_concat_starts_ends<T>(a: Seq<T>, b: Seq<T>)
    ensures
        starts_with(a + b, a),
        ends_with(a + b, b),
{
    assert((a + b).subrange(0, a.len() as int) =~= a);
    assert((a + b).subrange((a + b).len() - b.len(), (a + b).len() as int) =~= b);
}

/// The elements of `s` that satisfy `p`, in order.
pub open spec fn select<T>(s: Seq<T>, p: spec_fn(T) -> bool) -> Seq<T>
    decreases s.len(),
{
    if s.len() == 0 {
        Seq::empty()
    } else if p(s.last()) {
        select(s.drop_last(), p).push(s.last())
    } else {
        select(s.drop_last(), p)
    }
}

/// The values that a sequence of references points to.
pub open spec fn deref_all<T>(s: Seq<&T>) -> Seq<T> {
    s.map_values(|x: &T| *x)
}

/// Every selected element satisfies the predicate and comes from `s`.
pub proof fn lemma_select_sound<T>(s: Seq<T>, p: spec_fn(T) -> bool)
    ensures
        forall|i: int| 0 <= i < select(s, p).len() ==> p(#[trigger] select(s, p)[i]),
        forall|i: int| 0 <= i < select(s, p).len() ==> s.contains(#[trigger] select(s, p)[i]),
        select(s, p).len() <= s.len(),
    decreases s.len(),
{
    if s.len() > 0 {
        lemma_select_sound(s.drop_last(), p);
        let t = select(s.drop_last(), p);
        assert forall|i: int| 0 <= i < select(s, p).len() implies s.contains(#[trigger] select(s, p)[i]) by {
            if i < t.len() {
                assert(s.drop_last().contains(t[i]));
                let k = choose|k: int| 0 <= k < s.drop_last().len() && s.drop_last()[k] == t[i];
                assert(s[k] == t[i]);
            } else {
                assert(s[s.len() - 1] == s.last());
            }
        }
    }
}

/// Every element of `s` that satisfies the predicate is selected.
pub proof fn lemma_select_complete<T>(s: Seq<T>, p: spec_fn(T) -> bool, i: int)
    requires
        0 <= i < s.len(),
        p(s[i]),
    ensures
        select(s, p).contains(s[i]),
    decreases s.len(),
{
    if i < s.len() - 1 {
        assert(s.drop_last()[i] == s[i]);
        lemma_select_complete(s.drop_last(), p, i);
        let t = select(s.drop_last(), p);
        let k = choose|k: int| 0 <= k < t.len() && t[k] == s[i];
        if p(s.last()) {
            assert(select(s, p)[k] == s[i]);
        }
    } else {
        let t = select(s.drop_last(), p);
        assert(select(s, p)[t.len() as int] == s[i]);
    }
}

} // verus!
