use vstd::prelude::*;

verus! {

/// `dst` holds a clone of each element of `src`, in the same order.
pub open spec fn clones_of<A: Clone>(src: Seq<A>, dst: Seq<A>) -> bool {
    &&& dst.len() == src.len()
    &&& forall|i: int| 0 <= i < src.len() ==> cloned(src[i], #[trigger] dst[i])
}

/// Clones are copies: a clone of a value is that value (true of the integer types, `bool`,
/// `char`, `String` and the containers built from them).
pub open spec fn clones_are_copies<A: Clone>() -> bool {
    forall|a: A, b: A| #[trigger] cloned(a, b) ==> a == b
}

/// Appends clones of `src` to `out`.
fn push_clones<A: Clone>(out: &mut Vec<A>, src: &[A])
    ensures
        final(out)@.len() == old(out)@.len() + src@.len(),
        final(out)@.subrange(0, old(out)@.len() as int) == old(out)@,
        clones_of(src@, final(out)@.subrange(old(out)@.len() as int, final(out)@.len() as int)),
{
    let ghost o0 = out@;
    let mut k: usize = 0;
    while k < src.len()
        invariant
            k <= src@.len(),
            out@.len() == o0.len() + k,
            out@.subrange(0, o0.len() as int) == o0,
            forall|i: int| 0 <= i < k ==> cloned(src@[i], #[trigger] out@[o0.len() + i]),
        decreases src@.len() - k,
    {
        out.push(src[k].clone());
        k = k + 1;
    }
    proof {
        let tail = out@.subrange(o0.len() as int, out@.len() as int);
        assert forall|i: int| 0 <= i < src@.len() implies cloned(src@[i], #[trigger] tail[i]) by {
            assert(tail[i] == out@[o0.len() + i]);
        }
    }
}

// ---------------------------------------------------------------------------
// Semigroup
// ---------------------------------------------------------------------------

pub fn morloc_str_add(x: &str, y: &str) -> (r: String)
    ensures
        r@ == x@ + y@,
{
    let mut s = x.to_owned();
    s.append(y);
    s
}

pub fn morloc_list_add<A: Clone>(xs: &[A], ys: &[A]) -> (r: Vec<A>)
    ensures
        clones_of(xs@ + ys@, r@),
{
    let mut v: Vec<A> = Vec::new();
    push_clones(&mut v, xs);
    let ghost v1 = v@;
    push_clones(&mut v, ys);
    proof {
        assert forall|i: int| 0 <= i < (xs@ + ys@).len() implies cloned((xs@ + ys@)[i], #[trigger] v@[i]) by {
            if i < xs@.len() {
                assert(v1.subrange(0, xs@.len() as int)[i] == v1[i]);
                assert(v@.subrange(0, xs@.len() as int)[i] == v@[i]);
            } else {
                assert(v@.subrange(xs@.len() as int, v@.len() as int)[i - xs@.len()] == v@[i]);
            }
        }
    }
    v
}

// ---------------------------------------------------------------------------
// Functor
// ---------------------------------------------------------------------------

/// `out[i]` is what `f` may return on `xs[i]`, for every `i`.
pub open spec fn mapped_by<A, B, F: Fn(&A) -> B>(f: F, xs: Seq<A>, out: Seq<B>) -> bool {
    &&& out.len() == xs.len()
    &&& forall|i: int| 0 <= i < xs.len() ==> f.ensures((&xs[i],), #[trigger] out[i])
}

/// `f` may be called on every element of `xs`.
pub open spec fn callable_on_each<A, R, F: Fn(&A) -> R>(f: F, xs: Seq<A>) -> bool {
    forall|i: int| 0 <= i < xs.len() ==> #[trigger] f.requires((&xs[i],))
}

pub fn morloc_map_vec<A, B, F: Fn(&A) -> B>(f: F, xs: &[A]) -> (out: Vec<B>)
    requires
        callable_on_each(f, xs@),
    ensures
        mapped_by(f, xs@, out@),
{
    let mut out: Vec<B> = Vec::new();
    let mut k: usize = 0;
    while k < xs.len()
        invariant
            k <= xs@.len(),
            out@.len() == k,
            callable_on_each(f, xs@),
            forall|i: int| 0 <= i < k ==> f.ensures((&xs@[i],), #[trigger] out@[i]),
        decreases xs@.len() - k,
    {
        out.push(f(&xs[k]));
        k = k + 1;
    }
    out
}

// ---------------------------------------------------------------------------
// Foldable: the accumulator is threaded through `f`, which reads it by reference
// ---------------------------------------------------------------------------

/// `accs` is a run of the left fold of `f` over `xs` from a clone of `init`: `accs[0]` is
/// that clone and each `accs[i + 1]` is what `f` may return on `accs[i]` and `xs[i]`.
pub open spec fn fold_chain<A, B: Clone, F: Fn(&B, &A) -> B>(f: F, init: B, xs: Seq<A>, accs: Seq<B>) -> bool {
    &&& accs.len() == xs.len() + 1
    &&& cloned(init, accs[0])
    &&& forall|i: int| 0 <= i < xs.len() ==> f.ensures((&accs[i], &xs[i]), #[trigger] accs[i + 1])
}

/// `accs` is the start of a run of the left fold of `f` over `xs` from a clone of `init`:
/// as `fold_chain`, but it may stop before the end of `xs`.
pub open spec fn fold_prefix<A, B: Clone, F: Fn(&B, &A) -> B>(f: F, init: B, xs: Seq<A>, accs: Seq<B>) -> bool {
    &&& 1 <= accs.len() <= xs.len() + 1
    &&& cloned(init, accs[0])
    &&& forall|i: int| 0 <= i < accs.len() - 1 ==> f.ensures((&accs[i], &xs[i]), #[trigger] accs[i + 1])
}

/// `f` may be called on each accumulator that a run of the fold reaches, with the element
/// of `xs` that comes next.
pub open spec fn fold_callable<A, B: Clone, F: Fn(&B, &A) -> B>(f: F, init: B, xs: Seq<A>) -> bool {
    forall|accs: Seq<B>|
        #[trigger] fold_prefix(f, init, xs, accs) && accs.len() <= xs.len()
            ==> f.requires((&accs.last(), &xs[accs.len() - 1]))
}

pub fn morloc_fold_vec<B: Clone, A, F: Fn(&B, &A) -> B>(f: F, init: &B, xs: &[A]) -> (r: B)
    requires
        fold_callable(f, *init, xs@),
    ensures
        exists|accs: Seq<B>| #[trigger] fold_chain(f, *init, xs@, accs) && r == accs.last(),
{
    let mut acc = init.clone();
    let ghost mut accs: Seq<B> = seq![acc];
    let mut k: usize = 0;
    while k < xs.len()
        invariant
            k <= xs@.len(),
            fold_callable(f, *init, xs@),
            accs.len() == k + 1,
            cloned(*init, accs[0]),
            forall|i: int| 0 <= i < k ==> f.ensures((&accs[i], &xs@[i]), #[trigger] accs[i + 1]),
            acc == accs.last(),
        decreases xs@.len() - k,
    {
        proof {
            assert(fold_prefix(f, *init, xs@, accs));
        }
        let next = f(&acc, &xs[k]);
        proof {
            accs = accs.push(next);
        }
        acc = next;
        k = k + 1;
    }
    proof {
        assert(fold_chain(f, *init, xs@, accs));
    }
    acc
}

/// `accs` is a run of the left fold of `f` over `xs` seeded with a clone of its first
/// element: `accs[0]` is that clone and each `accs[i]` is what `f` may return on
/// `accs[i - 1]` and `xs[i]`.
pub open spec fn fold1_chain<A: Clone, F: Fn(&A, &A) -> A>(f: F, xs: Seq<A>, accs: Seq<A>) -> bool {
    &&& xs.len() > 0
    &&& accs.len() == xs.len()
    &&& cloned(xs[0], accs[0])
    &&& forall|i: int| 1 <= i < xs.len() ==> f.ensures((&accs[i - 1], &xs[i]), #[trigger] accs[i])
}

/// `accs` is the start of a run of the fold of `f` over `xs` seeded with a clone of its
/// first element: as `fold1_chain`, but it may stop before the end of `xs`.
pub open spec fn fold1_prefix<A: Clone, F: Fn(&A, &A) -> A>(f: F, xs: Seq<A>, accs: Seq<A>) -> bool {
    &&& 1 <= accs.len() <= xs.len()
    &&& cloned(xs[0], accs[0])
    &&& forall|i: int| 1 <= i < accs.len() ==> f.ensures((&accs[i - 1], &xs[i]), #[trigger] accs[i])
}

/// `f` may be called on each accumulator that a run of the fold from the first element
/// reaches, with the element of `xs` that comes next.
pub open spec fn fold1_callable<A: Clone, F: Fn(&A, &A) -> A>(f: F, xs: Seq<A>) -> bool {
    forall|accs: Seq<A>|
        #[trigger] fold1_prefix(f, xs, accs) && accs.len() < xs.len() ==> f.requires((&accs.last(), &xs[accs.len() as int]))
}

fn fold1_nonempty<A: Clone, F: Fn(&A, &A) -> A>(f: &F, xs: &[A]) -> (r: A)
    requires
        xs@.len() > 0,
        fold1_callable(*f, xs@),
    ensures
        exists|accs: Seq<A>| #[trigger] fold1_chain(*f, xs@, accs) && r == accs.last(),
{
    let mut acc = xs[0].clone();
    let ghost mut accs: Seq<A> = seq![acc];
    let mut k: usize = 1;
    while k < xs.len()
        invariant
            1 <= k <= xs@.len(),
            fold1_callable(*f, xs@),
            accs.len() == k,
            cloned(xs@[0], accs[0]),
            forall|i: int| 1 <= i < k ==> f.ensures((&accs[i - 1], &xs@[i]), #[trigger] accs[i]),
            acc == accs.last(),
        decreases xs@.len() - k,
    {
        proof {
            assert(fold1_prefix(*f, xs@, accs));
        }
        let next = f(&acc, &xs[k]);
        proof {
            accs = accs.push(next);
        }
        acc = next;
        k = k + 1;
    }
    proof {
        assert(fold1_chain(*f, xs@, accs));
    }
    acc
}

/// Folds from the first element; an empty list is refused.
pub fn morloc_fold1_vec<A: Clone, F: Fn(&A, &A) -> A>(f: F, xs: &[A]) -> (r: A)
    requires
        xs@.len() > 0,
        fold1_callable(f, xs@),
    ensures
        exists|accs: Seq<A>| #[trigger] fold1_chain(f, xs@, accs) && r == accs.last(),
{
    fold1_nonempty(&f, xs)
}

/// Folds from the first element; `None` for an empty list.
pub fn morloc_safe_fold1_vec<A: Clone, F: Fn(&A, &A) -> A>(f: F, xs: &[A]) -> (r: Option<A>)
    requires
        fold1_callable(f, xs@),
    ensures
        r is None <==> xs@.len() == 0,
        r matches Some(v) ==> exists|accs: Seq<A>| #[trigger] fold1_chain(f, xs@, accs) && v == accs.last(),
{
    if xs.len() == 0 {
        None
    } else {
        Some(fold1_nonempty(&f, xs))
    }
}

// ---------------------------------------------------------------------------
// Stack / Queue
// ---------------------------------------------------------------------------

pub fn morloc_cons_vec<A: Clone>(x: &A, xs: &[A]) -> (r: Vec<A>)
    ensures
        clones_of(seq![*x] + xs@, r@),
{
    let mut v: Vec<A> = Vec::new();
    v.push(x.clone());
    push_clones(&mut v, xs);
    proof {
        assert forall|i: int| 0 <= i < (seq![*x] + xs@).len() implies cloned((seq![*x] + xs@)[i], #[trigger] v@[i]) by {
            if i >= 1 {
                assert(v@.subrange(1, v@.len() as int)[i - 1] == v@[i]);
            } else {
                assert(v@.subrange(0, 1)[0] == v@[0]);
            }
        }
    }
    v
}

/// Splits off the head; an empty list is refused.
pub fn morloc_uncons_vec<A: Clone>(xs: &[A]) -> (r: (A, Vec<A>))
    requires
        xs@.len() > 0,
    ensures
        cloned(xs@[0], r.0),
        clones_of(xs@.drop_first(), r.1@),
{
    let h = xs[0].clone();
    let mut t: Vec<A> = Vec::new();
    let mut k: usize = 1;
    while k < xs.len()
        invariant
            1 <= k <= xs@.len(),
            t@.len() == k - 1,
            forall|i: int| 0 <= i < k - 1 ==> cloned(xs@[i + 1], #[trigger] t@[i]),
        decreases xs@.len() - k,
    {
        t.push(xs[k].clone());
        k = k + 1;
    }
    (h, t)
}

pub fn morloc_snoc_vec<A: Clone>(xs: &[A], x: &A) -> (r: Vec<A>)
    ensures
        clones_of(xs@.push(*x), r@),
{
    let mut v: Vec<A> = Vec::new();
    push_clones(&mut v, xs);
    let ghost v0 = v@;
    v.push(x.clone());
    proof {
        assert forall|i: int| 0 <= i < xs@.push(*x).len() implies cloned(xs@.push(*x)[i], #[trigger] v@[i]) by {
            if i < xs@.len() {
                assert(v0.subrange(0, v0.len() as int)[i] == v0[i]);
            }
        }
    }
    v
}

/// Splits off the last element; an empty list is refused.
pub fn morloc_unsnoc_vec<A: Clone>(xs: &[A]) -> (r: (Vec<A>, A))
    requires
        xs@.len() > 0,
    ensures
        clones_of(xs@.drop_last(), r.0@),
        cloned(xs@.last(), r.1),
{
    let n = xs.len();
    let mut init: Vec<A> = Vec::new();
    let mut k: usize = 0;
    while k < n - 1
        invariant
            n == xs@.len(),
            n > 0,
            k <= n - 1,
            init@.len() == k,
            forall|i: int| 0 <= i < k ==> cloned(xs@[i], #[trigger] init@[i]),
        decreases n - 1 - k,
    {
        init.push(xs[k].clone());
        k = k + 1;
    }
    let l = xs[n - 1].clone();
    (init, l)
}

/// Splitting off the head of `x` put in front of `xs` gives back `x` and `xs`, where
/// clones are copies.
pub proof fn law_uncons_cons<A: Clone>(x: A, xs: Seq<A>, consed: Seq<A>, head: A, tail: Seq<A>)
    requires
        clones_are_copies::<A>(),
        clones_of(seq![x] + xs, consed),
        consed.len() > 0,
        cloned(consed[0], head),
        clones_of(consed.drop_first(), tail),
    ensures
        head == x,
        tail == xs,
{
    assert(cloned((seq![x] + xs)[0], consed[0]));
    assert forall|i: int| 0 <= i < xs.len() implies tail[i] == xs[i] by {
        assert(cloned(consed.drop_first()[i], tail[i]));
        assert(cloned((seq![x] + xs)[i + 1], consed[i + 1]));
    }
    assert(tail =~= xs);
}

/// Splitting off the last element of `xs` with `x` put at its end gives back `xs` and `x`,
/// where clones are copies.
pub proof fn law_unsnoc_snoc<A: Clone>(xs: Seq<A>, x: A, snoced: Seq<A>, init: Seq<A>, last: A)
    requires
        clones_are_copies::<A>(),
        clones_of(xs.push(x), snoced),
        snoced.len() > 0,
        clones_of(snoced.drop_last(), init),
        cloned(snoced.last(), last),
    ensures
        init == xs,
        last == x,
{
    assert(cloned(xs.push(x)[xs.len() as int], snoced[xs.len() as int]));
    assert forall|i: int| 0 <= i < xs.len() implies init[i] == xs[i] by {
        assert(cloned(snoced.drop_last()[i], init[i]));
        assert(cloned(xs.push(x)[i], snoced[i]));
    }
    assert(init =~= xs);
}

} // verus!
