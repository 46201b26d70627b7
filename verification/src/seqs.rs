//! Facts about sequences and vectors of identifiers that several analyses share.

use vstd::prelude::*;

verus! {

broadcast use {vstd::seq_lib::lemma_seq_contains_after_push, vstd::seq::Seq::lemma_push_to_set_commute};

/// A sequence without repeats, all of whose items occur in `b`, is no longer than `b`.
pub proof fn lemma_nodup_subset_len<A>(a: Seq<A>, b: Seq<A>)
    requires
        a.no_duplicates(),
        forall|x: A| a.contains(x) ==> b.contains(x),
    ensures
        a.len() <= b.len(),
{
    broadcast use vstd::seq_lib::seq_to_set_is_finite;

    a.unique_seq_to_set();
    b.lemma_cardinality_of_set();
    assert(a.to_set().subset_of(b.to_set()));
    vstd::set_lib::lemma_len_subset(a.to_set(), b.to_set());
}

/// Pushing a new item keeps a sequence free of repeats.
pub proof fn lemma_push_nodup<A>(s: Seq<A>, x: A)
    requires
        s.no_duplicates(),
        !s.contains(x),
    ensures
        s.push(x).no_duplicates(),
{
    assert forall|i: int, j: int| 0 <= i < j < s.push(x).len() implies s.push(x)[i] != s.push(x)[j] by {
        if j == s.len() {
            assert(s.contains(s[i]));
        }
    }
}

/// Whether `x` occurs in `v`.
pub fn vec_contains(v: &Vec<usize>, x: usize) -> (r: bool)
    ensures
        r == v@.contains(x),
{
    let mut i: usize = 0;
    while i < v.len()
        invariant
            i <= v@.len(),
            forall|k: int| 0 <= k < i ==> v@[k] != x,
        decreases v@.len() - i,
    {
        if v[i] == x {
            assert(v@[i as int] == x);
            return true;
        }
        i = i + 1;
    }
    false
}

/// Appends `x` unless it is already there; tells whether it was appended.
pub fn push_unique(v: &mut Vec<usize>, x: usize) -> (r: bool)
    requires
        old(v)@.no_duplicates(),
    ensures
        final(v)@.no_duplicates(),
        r == !old(v)@.contains(x),
        final(v)@ == if r { old(v)@.push(x) } else { old(v)@ },
{
    if vec_contains(v, x) {
        false
    } else {
        proof { lemma_push_nodup(v@, x); }
        v.push(x);
        true
    }
}

/// Appends each item of `w` that `v` does not hold yet, in order.
pub fn extend_unique(v: &mut Vec<usize>, w: &Vec<usize>)
    requires
        old(v)@.no_duplicates(),
    ensures
        final(v)@.no_duplicates(),
        final(v)@.len() >= old(v)@.len(),
        final(v)@.subrange(0, old(v)@.len() as int) == old(v)@,
        forall|n: usize| #[trigger] final(v)@.contains(n) <==> (old(v)@.contains(n) || w@.contains(n)),
{
    let ghost start = v@;
    let mut j: usize = 0;
    while j < w.len()
        invariant
            j <= w@.len(),
            v@.no_duplicates(),
            v@.len() >= start.len(),
            v@.subrange(0, start.len() as int) == start,
            forall|n: usize| #[trigger] v@.contains(n) <==> (start.contains(n) || w@.subrange(0, j as int).contains(n)),
        decreases w@.len() - j,
    {
        let ghost before = v@;
        push_unique(v, w[j]);
        proof {
            assert(w@.subrange(0, j + 1) == w@.subrange(0, j as int).push(w@[j as int]));
            assert(v@.subrange(0, start.len() as int) == before.subrange(0, start.len() as int));
        }
        j = j + 1;
    }
    proof {
        assert(w@.subrange(0, w@.len() as int) == w@);
    }
}

} // verus!
