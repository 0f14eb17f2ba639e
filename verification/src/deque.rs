use vstd::prelude::*;
use std::collections::VecDeque;
use crate::lists::{callable_on_each, clones_are_copies, clones_of, fold1_callable, fold1_chain, fold1_prefix, fold_callable, fold_chain, fold_prefix, mapped_by};

verus! {

/// Appends clones of `src[lo..hi)` to the back of `out`.
fn push_back_clones<A: Clone>(out: &mut VecDeque<A>, src: &VecDeque<A>, lo: usize, hi: usize)
    requires
        lo <= hi <= src@.len(),
    ensures
        final(out)@.len() == old(out)@.len() + (hi - lo),
        final(out)@.subrange(0, old(out)@.len() as int) == old(out)@,
        clones_of(src@.subrange(lo as int, hi as int), final(out)@.subrange(old(out)@.len() as int, final(out)@.len() as int)),
{
    let ghost o0 = out@;
    let mut k: usize = lo;
    while k < hi
        invariant
            lo <= k <= hi <= src@.len(),
            out@.len() == o0.len() + (k - lo),
            out@.subrange(0, o0.len() as int) == o0,
            forall|i: int| lo <= i < k ==> cloned(src@[i], #[trigger] out@[o0.len() + (i - lo)]),
        decreases hi - k,
    {
        out.push_back(src[k].clone());
        k = k + 1;
    }
    proof {
        let part = src@.subrange(lo as int, hi as int);
        let tail = out@.subrange(o0.len() as int, out@.len() as int);
        assert forall|i: int| 0 <= i < part.len() implies cloned(part[i], #[trigger] tail[i]) by {
            assert(cloned(src@[lo + i], out@[o0.len() + ((lo + i) - lo)]));
        }
    }
}

pub fn morloc_deque_add<A: Clone>(xs: &VecDeque<A>, ys: &VecDeque<A>) -> (r: VecDeque<A>)
    ensures
        clones_of(xs@ + ys@, r@),
{
    let mut v: VecDeque<A> = VecDeque::new();
    push_back_clones(&mut v, xs, 0, xs.len());
    let ghost v1 = v@;
    push_back_clones(&mut v, ys, 0, ys.len());
    proof {
        assert(xs@.subrange(0, xs@.len() as int) =~= xs@);
        assert(ys@.subrange(0, ys@.len() as int) =~= ys@);
        assert forall|i: int| 0 <= i < (xs@ + ys@).len() implies cloned((xs@ + ys@)[i], #[trigger] v@[i]) by {
            if i < xs@.len() {
                assert(v1.subrange(0, xs@.len() as int)[i] == v1[i]);
                assert(v@.subrange(0, xs@.len() as int)[i] == v@[i]);
            } else {
                assert(v@.subrange(xs@.len() as int, v@.len() as int)[i - xs@.len()] == v@[i]);
            }
        }
    }
    v
}

pub fn morloc_map_deque<A, B, F: Fn(&A) -> B>(f: F, xs: &VecDeque<A>) -> (out: VecDeque<B>)
    requires
        callable_on_each(f, xs@),
    ensures
        mapped_by(f, xs@, out@),
{
    let mut out: VecDeque<B> = VecDeque::new();
    let mut k: usize = 0;
    while k < xs.len()
        invariant
            k <= xs@.len(),
            out@.len() == k,
            callable_on_each(f, xs@),
            forall|i: int| 0 <= i < k ==> f.ensures((&xs@[i],), #[trigger] out@[i]),
        decreases xs@.len() - k,
    {
        out.push_back(f(&xs[k]));
        k = k + 1;
    }
    out
}

pub fn morloc_fold_deque<B: Clone, A, F: Fn(&B, &A) -> B>(f: F, init: &B, xs: &VecDeque<A>) -> (r: B)
    requires
        fold_callable(f, *init, xs@),
    ensures
        exists|accs: Seq<B>| #[trigger] fold_chain(f, *init, xs@, accs) && r == accs.last(),
{
    let mut acc = init.clone();
    let ghost mut accs: Seq<B> = seq![acc];
    let mut k: usize = 0;
    while k < xs.len()
        invariant
            k <= xs@.len(),
            fold_callable(f, *init, xs@),
            accs.len() == k + 1,
            cloned(*init, accs[0]),
            forall|i: int| 0 <= i < k ==> f.ensures((&accs[i], &xs@[i]), #[trigger] accs[i + 1]),
            acc == accs.last(),
        decreases xs@.len() - k,
    {
        proof {
            assert(fold_prefix(f, *init, xs@, accs));
        }
        let next = f(&acc, &xs[k]);
        proof {
            accs = accs.push(next);
        }
        acc = next;
        k = k + 1;
    }
    proof {
        assert(fold_chain(f, *init, xs@, accs));
    }
    acc
}

fn fold1_deque_nonempty<A: Clone, F: Fn(&A, &A) -> A>(f: &F, xs: &VecDeque<A>) -> (r: A)
    requires
        xs@.len() > 0,
        fold1_callable(*f, xs@),
    ensures
        exists|accs: Seq<A>| #[trigger] fold1_chain(*f, xs@, accs) && r == accs.last(),
{
    let mut acc = xs[0].clone();
    let ghost mut accs: Seq<A> = seq![acc];
    let mut k: usize = 1;
    while k < xs.len()
        invariant
            1 <= k <= xs@.len(),
            fold1_callable(*f, xs@),
            accs.len() == k,
            cloned(xs@[0], accs[0]),
            forall|i: int| 1 <= i < k ==> f.ensures((&accs[i - 1], &xs@[i]), #[trigger] accs[i]),
            acc == accs.last(),
        decreases xs@.len() - k,
    {
        proof {
            assert(fold1_prefix(*f, xs@, accs));
        }
        let next = f(&acc, &xs[k]);
        proof {
            accs = accs.push(next);
        }
        acc = next;
        k = k + 1;
    }
    proof {
        assert(fold1_chain(*f, xs@, accs));
    }
    acc
}

/// Folds from the first element; an empty deque is refused.
pub fn morloc_fold1_deque<A: Clone, F: Fn(&A, &A) -> A>(f: F, xs: &VecDeque<A>) -> (r: A)
    requires
        xs@.len() > 0,
        fold1_callable(f, xs@),
    ensures
        exists|accs: Seq<A>| #[trigger] fold1_chain(f, xs@, accs) && r == accs.last(),
{
    fold1_deque_nonempty(&f, xs)
}

/// Folds from the first element; `None` for an empty deque.
pub fn morloc_safe_fold1_deque<A: Clone, F: Fn(&A, &A) -> A>(f: F, xs: &VecDeque<A>) -> (r: Option<A>)
    requires
        fold1_callable(f, xs@),
    ensures
        r is None <==> xs@.len() == 0,
        r matches Some(v) ==> exists|accs: Seq<A>| #[trigger] fold1_chain(f, xs@, accs) && v == accs.last(),
{
    if xs.len() == 0 {
        None
    } else {
        Some(fold1_deque_nonempty(&f, xs))
    }
}

pub fn morloc_cons_deque<A: Clone>(x: &A, xs: &VecDeque<A>) -> (r: VecDeque<A>)
    ensures
        clones_of(seq![*x] + xs@, r@),
{
    let mut v: VecDeque<A> = VecDeque::new();
    v.push_back(x.clone());
    let ghost v1 = v@;
    push_back_clones(&mut v, xs, 0, xs.len());
    proof {
        assert(xs@.subrange(0, xs@.len() as int) =~= xs@);
        assert forall|i: int| 0 <= i < (seq![*x] + xs@).len() implies cloned((seq![*x] + xs@)[i], #[trigger] v@[i]) by {
            if i >= 1 {
                assert(v@.subrange(1, v@.len() as int)[i - 1] == v@[i]);
            } else {
                assert(v@.subrange(0, 1)[0] == v@[0]);
            }
        }
    }
    v
}

/// Splits off the front; an empty deque is refused.
pub fn morloc_uncons_deque<A: Clone>(xs: &VecDeque<A>) -> (r: (A, VecDeque<A>))
    requires
        xs@.len() > 0,
    ensures
        cloned(xs@[0], r.0),
        clones_of(xs@.drop_first(), r.1@),
{
    let h = xs[0].clone();
    let mut t: VecDeque<A> = VecDeque::new();
    push_back_clones(&mut t, xs, 1, xs.len());
    proof {
        assert(xs@.subrange(1, xs@.len() as int) =~= xs@.drop_first());
        assert(t@.subrange(0, t@.len() as int) =~= t@);
    }
    (h, t)
}

pub fn morloc_snoc_deque<A: Clone>(xs: &VecDeque<A>, x: &A) -> (r: VecDeque<A>)
    ensures
        clones_of(xs@.push(*x), r@),
{
    let mut v: VecDeque<A> = VecDeque::new();
    push_back_clones(&mut v, xs, 0, xs.len());
    let ghost v0 = v@;
    v.push_back(x.clone());
    proof {
        assert(xs@.subrange(0, xs@.len() as int) =~= xs@);
        assert(v0.subrange(0, v0.len() as int) =~= v0);
        assert forall|i: int| 0 <= i < xs@.push(*x).len() implies cloned(xs@.push(*x)[i], #[trigger] v@[i]) by {
            if i < xs@.len() {
                assert(v0[i] == v@[i]);
            }
        }
    }
    v
}

/// Splits off the back; an empty deque is refused.
pub fn morloc_unsnoc_deque<A: Clone>(xs: &VecDeque<A>) -> (r: (VecDeque<A>, A))
    requires
        xs@.len() > 0,
    ensures
        clones_of(xs@.drop_last(), r.0@),
        cloned(xs@.last(), r.1),
{
    let n = xs.len();
    let l = xs[n - 1].clone();
    let mut init: VecDeque<A> = VecDeque::new();
    push_back_clones(&mut init, xs, 0, n - 1);
    proof {
        assert(xs@.subrange(0, n - 1) =~= xs@.drop_last());
        assert(init@.subrange(0, init@.len() as int) =~= init@);
    }
    (init, l)
}

// ---------------------------------------------------------------------------
// Packable (List a) (Deque a): explicit Vec <-> VecDeque conversion
// ---------------------------------------------------------------------------

pub fn morloc_pack_deque<A: Clone>(xs: &[A]) -> (r: VecDeque<A>)
    ensures
        clones_of(xs@, r@),
{
    let mut out: VecDeque<A> = VecDeque::new();
    let mut k: usize = 0;
    while k < xs.len()
        invariant
            k <= xs@.len(),
            out@.len() == k,
            forall|i: int| 0 <= i < k ==> cloned(xs@[i], #[trigger] out@[i]),
        decreases xs@.len() - k,
    {
        out.push_back(xs[k].clone());
        k = k + 1;
    }
    out
}

pub fn morloc_unpack_deque<A: Clone>(xs: &VecDeque<A>) -> (r: Vec<A>)
    ensures
        clones_of(xs@, r@),
{
    let mut out: Vec<A> = Vec::new();
    let mut k: usize = 0;
    while k < xs.len()
        invariant
            k <= xs@.len(),
            out@.len() == k,
            forall|i: int| 0 <= i < k ==> cloned(xs@[i], #[trigger] out@[i]),
        decreases xs@.len() - k,
    {
        out.push(xs[k].clone());
        k = k + 1;
    }
    out
}

/// Unpacking a packed list gives the list back, where clones are copies.
pub proof fn law_unpack_pack<A: Clone>(xs: Seq<A>, packed: Seq<A>, unpacked: Seq<A>)
    requires
        clones_are_copies::<A>(),
        clones_of(xs, packed),
        clones_of(packed, unpacked),
    ensures
        unpacked == xs,
{
    assert forall|i: int| 0 <= i < xs.len() implies unpacked[i] == xs[i] by {
        assert(cloned(xs[i], packed[i]));
        assert(cloned(packed[i], unpacked[i]));
    }
    assert(unpacked =~= xs);
}

} // verus!
