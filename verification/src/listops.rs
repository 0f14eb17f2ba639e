use vstd::prelude::*;
use vstd::std_specs::cmp::PartialEqSpec;
use crate::lists::{callable_on_each, clones_are_copies, clones_of, fold1_chain, fold_callable, fold_chain, fold_prefix};
use crate::sort::group_end;

verus! {

// ---------------------------------------------------------------------------
// Predicates over the elements of a list
// ---------------------------------------------------------------------------

/// `answers[i]` is what the predicate `f` may answer on `xs[i]`, for every `i`.
pub open spec fn answered<A, F: Fn(&A) -> bool>(f: F, xs: Seq<A>, answers: Seq<bool>) -> bool {
    &&& answers.len() == xs.len()
    &&& forall|i: int| 0 <= i < xs.len() ==> f.ensures((&xs[i],), #[trigger] answers[i])
}

/// The predicate `f` gives one answer at most on each element of `xs`.
pub open spec fn deterministic_on<A, F: Fn(&A) -> bool>(f: F, xs: Seq<A>) -> bool {
    forall|i: int| 0 <= i < xs.len() ==> !(#[trigger] f.ensures((&xs[i],), true) && f.ensures((&xs[i],), false))
}

/// The elements of `xs` whose answer is `want`, in order.
pub open spec fn kept<A>(xs: Seq<A>, answers: Seq<bool>, want: bool) -> Seq<A>
    decreases xs.len(),
{
    if xs.len() == 0 || answers.len() != xs.len() {
        Seq::empty()
    } else {
        let init = kept(xs.drop_last(), answers.drop_last(), want);
        if answers.last() == want {
            init.push(xs.last())
        } else {
            init
        }
    }
}

proof fn lemma_kept_push<A>(xs: Seq<A>, answers: Seq<bool>, x: A, b: bool, want: bool)
    requires
        answers.len() == xs.len(),
    ensures
        kept(xs.push(x), answers.push(b), want) == if b == want {
            kept(xs, answers, want).push(x)
        } else {
            kept(xs, answers, want)
        },
{
    assert(xs.push(x).drop_last() =~= xs);
    assert(answers.push(b).drop_last() =~= answers);
}

/// Keeps clones of the elements on which `f` answers `true`; `f` sees the elements themselves.
pub fn morloc_filter<A: Clone, F: Fn(&A) -> bool>(f: F, xs: &[A]) -> (r: Vec<A>)
    requires
        callable_on_each(f, xs@),
    ensures
        exists|answers: Seq<bool>| #[trigger] answered(f, xs@, answers) && clones_of(kept(xs@, answers, true), r@),
{
    let mut yes: Vec<A> = Vec::new();
    let ghost mut answers: Seq<bool> = Seq::empty();
    let mut k: usize = 0;
    proof {
        assert(xs@.take(0) =~= Seq::<A>::empty());
    }
    while k < xs.len()
        invariant
            k <= xs@.len(),
            callable_on_each(f, xs@),
            answers.len() == k,
            forall|i: int| 0 <= i < k ==> f.ensures((&xs@[i],), #[trigger] answers[i]),
            clones_of(kept(xs@.take(k as int), answers, true), yes@),
        decreases xs@.len() - k,
    {
        let b = f(&xs[k]);
        proof {
            assert(xs@.take(k + 1) =~= xs@.take(k as int).push(xs@[k as int]));
            lemma_kept_push(xs@.take(k as int), answers, xs@[k as int], b, true);
            answers = answers.push(b);
        }
        if b {
            yes.push(xs[k].clone());
        }
        k = k + 1;
    }
    proof {
        assert(xs@.take(xs@.len() as int) =~= xs@);
        assert(answered(f, xs@, answers));
    }
    yes
}

/// `f` may be called on every clone of an element of `xs`.
pub open spec fn callable_on_clones<A: Clone, F: Fn(&A) -> bool>(f: F, xs: Seq<A>) -> bool {
    forall|i: int, c: A| 0 <= i < xs.len() && #[trigger] cloned(xs[i], c) ==> #[trigger] f.requires((&c,))
}

/// Clones the elements, then moves each clone into the first list where `f` answers `true`
/// on it, into the second where it answers `false`.
pub fn morloc_partition<A: Clone, F: Fn(&A) -> bool>(f: F, xs: &[A]) -> (r: (Vec<A>, Vec<A>))
    requires
        callable_on_clones(f, xs@),
    ensures
        exists|cs: Seq<A>, answers: Seq<bool>|
            #[trigger] answered(f, cs, answers) && clones_of(xs@, cs) && r.0@ == kept(cs, answers, true)
                && r.1@ == kept(cs, answers, false),
{
    let mut yes: Vec<A> = Vec::new();
    let mut no: Vec<A> = Vec::new();
    let ghost mut answers: Seq<bool> = Seq::empty();
    let ghost mut cs: Seq<A> = Seq::empty();
    let mut k: usize = 0;
    while k < xs.len()
        invariant
            k <= xs@.len(),
            callable_on_clones(f, xs@),
            answers.len() == k,
            cs.len() == k,
            forall|i: int| 0 <= i < k ==> cloned(xs@[i], #[trigger] cs[i]),
            forall|i: int| 0 <= i < k ==> f.ensures((&cs[i],), #[trigger] answers[i]),
            yes@ == kept(cs, answers, true),
            no@ == kept(cs, answers, false),
        decreases xs@.len() - k,
    {
        let c = xs[k].clone();
        proof {
            assert(cloned(xs@[k as int], c));
        }
        let b = f(&c);
        proof {
            lemma_kept_push(cs, answers, c, b, true);
            lemma_kept_push(cs, answers, c, b, false);
            cs = cs.push(c);
            answers = answers.push(b);
        }
        if b {
            yes.push(c);
        } else {
            no.push(c);
        }
        k = k + 1;
    }
    proof {
        assert(answered(f, cs, answers));
    }
    (yes, no)
}

proof fn lemma_kept_lengths<A>(xs: Seq<A>, answers: Seq<bool>)
    requires
        answers.len() == xs.len(),
    ensures
        kept(xs, answers, true).len() + kept(xs, answers, false).len() == xs.len(),
    decreases xs.len(),
{
    if xs.len() > 0 {
        lemma_kept_lengths(xs.drop_last(), answers.drop_last());
    }
}

proof fn lemma_kept_negated<A>(xs: Seq<A>, a1: Seq<bool>, a2: Seq<bool>, want: bool)
    requires
        a1.len() == xs.len(),
        a2.len() == xs.len(),
        forall|i: int| 0 <= i < xs.len() ==> #[trigger] a2[i] == !a1[i],
    ensures
        kept(xs, a2, want) == kept(xs, a1, !want),
    decreases xs.len(),
{
    if xs.len() > 0 {
        let n = xs.len() as int;
        assert forall|i: int| 0 <= i < n - 1 implies #[trigger] a2.drop_last()[i] == !a1.drop_last()[i] by {
            assert(a2[i] == !a1[i]);
        }
        lemma_kept_negated(xs.drop_last(), a1.drop_last(), a2.drop_last(), want);
        assert(a2[n - 1] == !a1[n - 1]);
    }
}

/// The two lists of a partition hold all the elements between them.
pub proof fn law_partition_sizes<A>(cs: Seq<A>, answers: Seq<bool>)
    requires
        answers.len() == cs.len(),
    ensures
        kept(cs, answers, true).len() + kept(cs, answers, false).len() == cs.len(),
{
    lemma_kept_lengths(cs, answers);
}

/// Where `f` gives one answer per element, the answers to it are fixed.
pub proof fn lemma_answers_unique<A, F: Fn(&A) -> bool>(f: F, xs: Seq<A>, a1: Seq<bool>, a2: Seq<bool>)
    requires
        deterministic_on(f, xs),
        answered(f, xs, a1),
        answered(f, xs, a2),
    ensures
        a1 == a2,
{
    assert forall|i: int| 0 <= i < xs.len() implies a1[i] == a2[i] by {
        assert(f.ensures((&xs[i],), a1[i]));
        assert(f.ensures((&xs[i],), a2[i]));
        assert(!(f.ensures((&xs[i],), true) && f.ensures((&xs[i],), false)));
    }
    assert(a1 =~= a2);
}

/// The first list of a partition is what filter keeps with `f`, and the second what filter
/// keeps with `g`, the negation of `f`, where `f` answers one way per element and clones are
/// copies.
pub proof fn law_partition_filter<A: Clone, F: Fn(&A) -> bool, G: Fn(&A) -> bool>(
    f: F,
    g: G,
    xs: Seq<A>,
    cs: Seq<A>,
    a: Seq<bool>,
    parted_yes: Seq<A>,
    parted_no: Seq<A>,
    af: Seq<bool>,
    filtered: Seq<A>,
    ag: Seq<bool>,
    filtered_not: Seq<A>,
)
    requires
        clones_are_copies::<A>(),
        deterministic_on(f, xs),
        forall|x: A, r: bool| #[trigger] g.ensures((&x,), r) ==> f.ensures((&x,), !r),
        clones_of(xs, cs),
        answered(f, cs, a),
        parted_yes == kept(cs, a, true),
        parted_no == kept(cs, a, false),
        answered(f, xs, af),
        clones_of(kept(xs, af, true), filtered),
        answered(g, xs, ag),
        clones_of(kept(xs, ag, true), filtered_not),
    ensures
        parted_yes == filtered,
        parted_no == filtered_not,
{
    assert forall|i: int| 0 <= i < xs.len() implies cs[i] == xs[i] by {
        assert(cloned(xs[i], cs[i]));
    }
    assert(cs =~= xs);
    lemma_answers_unique(f, xs, a, af);
    let s = kept(xs, a, true);
    assert forall|i: int| 0 <= i < s.len() implies filtered[i] == s[i] by {
        assert(cloned(s[i], filtered[i]));
    }
    assert(filtered =~= s);
    assert forall|i: int| 0 <= i < xs.len() implies #[trigger] ag[i] == !a[i] by {
        assert(g.ensures((&xs[i],), ag[i]));
        assert(f.ensures((&xs[i],), !ag[i]));
        assert(f.ensures((&xs[i],), a[i]));
    }
    lemma_kept_negated(xs, a, ag, true);
    let t = kept(xs, ag, true);
    assert forall|i: int| 0 <= i < t.len() implies filtered_not[i] == t[i] by {
        assert(cloned(t[i], filtered_not[i]));
    }
    assert(filtered_not =~= t);
}

// ---------------------------------------------------------------------------
// takeWhile / dropWhile / find
// ---------------------------------------------------------------------------

/// `f` may answer `true` on each of `xs[0..t)` and, where `t` is inside `xs`, `false` on
/// `xs[t]`: the prefix that `take_while` keeps and `skip_while` drops has length `t`.
pub open spec fn while_prefix<A, F: Fn(&A) -> bool>(f: F, xs: Seq<A>, t: int) -> bool {
    &&& 0 <= t <= xs.len()
    &&& forall|i: int| 0 <= i < t ==> #[trigger] f.ensures((&xs[i],), true)
    &&& t < xs.len() ==> f.ensures((&xs[t],), false)
}

/// The length of the prefix on which `f` holds, calling `f` as far as its first `false`.
fn prefix_length<A, F: Fn(&A) -> bool>(f: &F, xs: &[A]) -> (t: usize)
    requires
        callable_on_each(*f, xs@),
    ensures
        while_prefix(*f, xs@, t as int),
{
    let mut k: usize = 0;
    while k < xs.len()
        invariant
            k <= xs@.len(),
            callable_on_each(*f, xs@),
            forall|i: int| 0 <= i < k ==> #[trigger] f.ensures((&xs@[i],), true),
        decreases xs@.len() - k,
    {
        if !f(&xs[k]) {
            return k;
        }
        k = k + 1;
    }
    k
}

/// Clones of `xs[lo..hi)`.
fn clone_range<A: Clone>(xs: &[A], lo: usize, hi: usize) -> (r: Vec<A>)
    requires
        lo <= hi <= xs@.len(),
    ensures
        clones_of(xs@.subrange(lo as int, hi as int), r@),
{
    let mut out: Vec<A> = Vec::new();
    let mut k: usize = lo;
    while k < hi
        invariant
            lo <= k <= hi <= xs@.len(),
            out@.len() == k - lo,
            forall|i: int| 0 <= i < k - lo ==> cloned(xs@[lo + i], #[trigger] out@[i]),
        decreases hi - k,
    {
        out.push(xs[k].clone());
        k = k + 1;
    }
    out
}

pub fn morloc_takeWhile<A: Clone, F: Fn(&A) -> bool>(f: F, xs: &[A]) -> (r: Vec<A>)
    requires
        callable_on_each(f, xs@),
    ensures
        exists|t: int| #[trigger] while_prefix(f, xs@, t) && clones_of(xs@.take(t), r@),
{
    let t = prefix_length(&f, xs);
    let r = clone_range(xs, 0, t);
    assert(xs@.subrange(0, t as int) =~= xs@.take(t as int));
    assert(while_prefix(f, xs@, t as int));
    r
}

pub fn morloc_dropWhile<A: Clone, F: Fn(&A) -> bool>(f: F, xs: &[A]) -> (r: Vec<A>)
    requires
        callable_on_each(f, xs@),
    ensures
        exists|t: int| #[trigger] while_prefix(f, xs@, t) && clones_of(xs@.skip(t), r@),
{
    let t = prefix_length(&f, xs);
    let r = clone_range(xs, t, xs.len());
    assert(xs@.subrange(t as int, xs@.len() as int) =~= xs@.skip(t as int));
    assert(while_prefix(f, xs@, t as int));
    r
}

/// What takeWhile keeps followed by what dropWhile keeps is the list again, where `f`
/// answers one way per element and clones are copies.
pub proof fn law_take_drop_while<A: Clone, F: Fn(&A) -> bool>(
    f: F,
    xs: Seq<A>,
    t1: int,
    taken: Seq<A>,
    t2: int,
    dropped: Seq<A>,
)
    requires
        clones_are_copies::<A>(),
        deterministic_on(f, xs),
        while_prefix(f, xs, t1),
        clones_of(xs.take(t1), taken),
        while_prefix(f, xs, t2),
        clones_of(xs.skip(t2), dropped),
    ensures
        taken + dropped == xs,
{
    if t1 < t2 {
        assert(f.ensures((&xs[t1],), true));
        assert(f.ensures((&xs[t1],), false));
    }
    if t2 < t1 {
        assert(f.ensures((&xs[t2],), true));
        assert(f.ensures((&xs[t2],), false));
    }
    assert forall|i: int| 0 <= i < xs.len() implies (taken + dropped)[i] == xs[i] by {
        if i < t1 {
            assert(cloned(xs.take(t1)[i], taken[i]));
        } else {
            assert(cloned(xs.skip(t2)[i - t1], dropped[i - t1]));
        }
    }
    assert(taken + dropped =~= xs);
}

pub fn morloc_find<A: Clone, F: Fn(&A) -> bool>(f: F, xs: &[A]) -> (r: Option<A>)
    requires
        callable_on_each(f, xs@),
    ensures
        match r {
            None => false_prefix(f, xs@, xs@.len() as int),
            Some(v) => exists|t: int|
                #[trigger] false_prefix(f, xs@, t) && t < xs@.len() && f.ensures((&xs@[t],), true)
                    && cloned(xs@[t], v),
        },
{
    let mut k: usize = 0;
    while k < xs.len()
        invariant
            k <= xs@.len(),
            callable_on_each(f, xs@),
            false_prefix(f, xs@, k as int),
        decreases xs@.len() - k,
    {
        if f(&xs[k]) {
            let v = xs[k].clone();
            assert(false_prefix(f, xs@, k as int));
            return Some(v);
        }
        k = k + 1;
    }
    None
}

/// `f` may answer `false` on each of `xs[0..t)`.
pub open spec fn false_prefix<A, F: Fn(&A) -> bool>(f: F, xs: Seq<A>, t: int) -> bool {
    &&& 0 <= t <= xs.len()
    &&& forall|i: int| 0 <= i < t ==> #[trigger] f.ensures((&xs[i],), false)
}

// ---------------------------------------------------------------------------
// zipWith / unzip / replicate / enumerate / intersperse
// ---------------------------------------------------------------------------

pub fn morloc_zipWith<A, B, C, F: Fn(&A, &B) -> C>(f: F, xs: &[A], ys: &[B]) -> (out: Vec<C>)
    requires
        forall|i: int| 0 <= i < xs@.len() && 0 <= i < ys@.len() ==> #[trigger] f.requires((&xs@[i], &ys@[i])),
    ensures
        out@.len() == if xs@.len() <= ys@.len() { xs@.len() } else { ys@.len() },
        forall|i: int| 0 <= i < out@.len() ==> f.ensures((&xs@[i], &ys@[i]), #[trigger] out@[i]),
{
    let n = if xs.len() <= ys.len() { xs.len() } else { ys.len() };
    let mut out: Vec<C> = Vec::new();
    let mut k: usize = 0;
    while k < n
        invariant
            n <= xs@.len(),
            n <= ys@.len(),
            n == xs@.len() || n == ys@.len(),
            k <= n,
            out@.len() == k,
            forall|i: int| 0 <= i < xs@.len() && 0 <= i < ys@.len() ==> #[trigger] f.requires((&xs@[i], &ys@[i])),
            forall|i: int| 0 <= i < k ==> f.ensures((&xs@[i], &ys@[i]), #[trigger] out@[i]),
        decreases n - k,
    {
        out.push(f(&xs[k], &ys[k]));
        k = k + 1;
    }
    out
}

pub fn morloc_unzip<A: Clone, B: Clone>(xs: &[(A, B)]) -> (r: (Vec<A>, Vec<B>))
    ensures
        r.0@.len() == xs@.len(),
        r.1@.len() == xs@.len(),
        forall|i: int| 0 <= i < xs@.len() ==> cloned(xs@[i].0, #[trigger] r.0@[i]),
        forall|i: int| 0 <= i < xs@.len() ==> cloned(xs@[i].1, #[trigger] r.1@[i]),
{
    let mut la: Vec<A> = Vec::new();
    let mut lb: Vec<B> = Vec::new();
    let mut k: usize = 0;
    while k < xs.len()
        invariant
            k <= xs@.len(),
            la@.len() == k,
            lb@.len() == k,
            forall|i: int| 0 <= i < k ==> cloned(xs@[i].0, #[trigger] la@[i]),
            forall|i: int| 0 <= i < k ==> cloned(xs@[i].1, #[trigger] lb@[i]),
        decreases xs@.len() - k,
    {
        let a = xs[k].0.clone();
        let b = xs[k].1.clone();
        la.push(a);
        lb.push(b);
        k = k + 1;
    }
    (la, lb)
}

/// `n` copies of `x`; none for a negative `n`.
pub fn morloc_replicate<A: Clone>(n: i64, x: &A) -> (r: Vec<A>)
    ensures
        r@.len() == (if n > 0 { n as int } else { 0 }) as usize,
        forall|i: int| 0 <= i < r@.len() ==> cloned(*x, #[trigger] r@[i]),
{
    let m = if n > 0 { n as usize } else { 0 };
    let mut out: Vec<A> = Vec::new();
    let mut k: usize = 0;
    while k < m
        invariant
            k <= m,
            out@.len() == k,
            forall|i: int| 0 <= i < k ==> cloned(*x, #[trigger] out@[i]),
        decreases m - k,
    {
        out.push(x.clone());
        k = k + 1;
    }
    out
}

/// Pairs each element with its position.
pub fn morloc_enumerate<A: Clone>(xs: &[A]) -> (r: Vec<(i64, A)>)
    ensures
        r@.len() == xs@.len(),
        forall|i: int| 0 <= i < xs@.len() ==> (#[trigger] r@[i]).0 == i as i64 && cloned(xs@[i], r@[i].1),
{
    let mut out: Vec<(i64, A)> = Vec::new();
    let mut k: usize = 0;
    while k < xs.len()
        invariant
            k <= xs@.len(),
            out@.len() == k,
            forall|i: int| 0 <= i < k ==> (#[trigger] out@[i]).0 == i as i64 && cloned(xs@[i], out@[i].1),
        decreases xs@.len() - k,
    {
        out.push((k as i64, xs[k].clone()));
        k = k + 1;
    }
    out
}

/// `sep` between each two neighbouring elements.
pub fn morloc_intersperse<A: Clone>(sep: &A, xs: &[A]) -> (r: Vec<A>)
    ensures
        r@.len() == if xs@.len() == 0 { 0 } else { 2 * xs@.len() - 1 },
        forall|i: int| 0 <= i < xs@.len() ==> cloned(xs@[i], #[trigger] r@[2 * i]),
        forall|i: int| 0 <= i < xs@.len() - 1 ==> cloned(*sep, #[trigger] r@[2 * i + 1]),
{
    let mut out: Vec<A> = Vec::new();
    let mut k: usize = 0;
    while k < xs.len()
        invariant
            k <= xs@.len(),
            out@.len() == if k == 0 { 0 } else { 2 * k - 1 },
            forall|i: int| 0 <= i < k ==> cloned(xs@[i], #[trigger] out@[2 * i]),
            forall|i: int| 0 <= i < k - 1 ==> cloned(*sep, #[trigger] out@[2 * i + 1]),
        decreases xs@.len() - k,
    {
        if k > 0 {
            out.push(sep.clone());
        }
        out.push(xs[k].clone());
        k = k + 1;
    }
    out
}

// ---------------------------------------------------------------------------
// scanl / iterate
// ---------------------------------------------------------------------------

/// Every intermediate accumulator of the left fold, the initial one first.
pub fn morloc_scanl<B: Clone, A, F: Fn(&B, &A) -> B>(f: F, init: &B, xs: &[A]) -> (r: Vec<B>)
    requires
        fold_callable(f, *init, xs@),
    ensures
        exists|accs: Seq<B>| #[trigger] fold_chain(f, *init, xs@, accs) && clones_of(accs, r@),
{
    let mut acc = init.clone();
    let ghost mut accs: Seq<B> = seq![acc];
    let mut out: Vec<B> = Vec::new();
    out.push(acc.clone());
    let mut k: usize = 0;
    while k < xs.len()
        invariant
            k <= xs@.len(),
            fold_callable(f, *init, xs@),
            accs.len() == k + 1,
            cloned(*init, accs[0]),
            forall|i: int| 0 <= i < k ==> f.ensures((&accs[i], &xs@[i]), #[trigger] accs[i + 1]),
            acc == accs.last(),
            clones_of(accs, out@),
        decreases xs@.len() - k,
    {
        proof {
            assert(fold_prefix(f, *init, xs@, accs));
        }
        let next = f(&acc, &xs[k]);
        proof {
            accs = accs.push(next);
        }
        acc = next;
        out.push(acc.clone());
        k = k + 1;
    }
    proof {
        assert(fold_chain(f, *init, xs@, accs));
    }
    out
}

/// `f` gives one result at most on any accumulator and element of `xs`.
pub open spec fn fold_deterministic<A, B, F: Fn(&B, &A) -> B>(f: F, xs: Seq<A>) -> bool {
    forall|b: B, i: int, r1: B, r2: B|
        0 <= i < xs.len() && #[trigger] f.ensures((&b, &xs[i]), r1) && #[trigger] f.ensures((&b, &xs[i]), r2)
            ==> r1 == r2
}

/// Two runs of a fold of a deterministic `f` agree, where clones are copies.
pub proof fn lemma_fold_chains_agree<A, B: Clone, F: Fn(&B, &A) -> B>(
    f: F,
    init: B,
    xs: Seq<A>,
    c1: Seq<B>,
    c2: Seq<B>,
    k: int,
)
    requires
        clones_are_copies::<B>(),
        fold_deterministic(f, xs),
        fold_chain(f, init, xs, c1),
        fold_chain(f, init, xs, c2),
        0 <= k <= xs.len(),
    ensures
        c1[k] == c2[k],
    decreases k,
{
    if k == 0 {
        assert(cloned(init, c1[0]) && cloned(init, c2[0]));
    } else {
        let j = k - 1;
        lemma_fold_chains_agree(f, init, xs, c1, c2, j);
        assert(f.ensures((&c1[j], &xs[j]), c1[j + 1]));
        assert(f.ensures((&c2[j], &xs[j]), c2[j + 1]));
    }
}

/// The last accumulator of scanl is the result of fold, where `f` gives one result per
/// accumulator and element and clones are copies.
pub proof fn law_scanl_last_is_fold<A, B: Clone, F: Fn(&B, &A) -> B>(
    f: F,
    init: B,
    xs: Seq<A>,
    c1: Seq<B>,
    scanned: Seq<B>,
    c2: Seq<B>,
    folded: B,
)
    requires
        clones_are_copies::<B>(),
        fold_deterministic(f, xs),
        fold_chain(f, init, xs, c1),
        clones_of(c1, scanned),
        fold_chain(f, init, xs, c2),
        folded == c2.last(),
    ensures
        scanned.last() == folded,
{
    lemma_fold_chains_agree(f, init, xs, c1, c2, xs.len() as int);
    assert(cloned(c1[xs.len() as int], scanned[xs.len() as int]));
}

/// Folding from the first element is folding the rest from the first element: safe_fold1
/// (and fold1) on a non-empty list gives what fold gives from `xs[0]` over `xs[1..]`, where
/// `f` gives one result per accumulator and element and clones are copies.
pub proof fn law_fold1_is_fold<A: Clone, F: Fn(&A, &A) -> A>(
    f: F,
    xs: Seq<A>,
    c1: Seq<A>,
    folded1: A,
    c2: Seq<A>,
    folded: A,
)
    requires
        clones_are_copies::<A>(),
        fold_deterministic(f, xs.drop_first()),
        fold1_chain(f, xs, c1),
        folded1 == c1.last(),
        fold_chain(f, xs[0], xs.drop_first(), c2),
        folded == c2.last(),
    ensures
        folded1 == folded,
{
    let n = xs.len() as int;
    assert forall|k: int| 0 <= k < n implies c1[k] == c2[k] by {
        lemma_fold1_fold_agree(f, xs, c1, c2, k);
    }
}

proof fn lemma_fold1_fold_agree<A: Clone, F: Fn(&A, &A) -> A>(f: F, xs: Seq<A>, c1: Seq<A>, c2: Seq<A>, k: int)
    requires
        clones_are_copies::<A>(),
        fold_deterministic(f, xs.drop_first()),
        fold1_chain(f, xs, c1),
        fold_chain(f, xs[0], xs.drop_first(), c2),
        0 <= k < xs.len(),
    ensures
        c1[k] == c2[k],
    decreases k,
{
    if k == 0 {
        assert(cloned(xs[0], c1[0]) && cloned(xs[0], c2[0]));
    } else {
        let j = k - 1;
        lemma_fold1_fold_agree(f, xs, c1, c2, j);
        let rest = xs.drop_first();
        assert(rest[j] == xs[k]);
        assert(f.ensures((&c1[k - 1], &xs[k]), c1[k]));
        assert(f.ensures((&c2[j], &rest[j]), c2[j + 1]));
    }
}

/// `chain[0]` is a clone of `x` and each `chain[i + 1]` is what `f` may return on `chain[i]`.
pub open spec fn iterate_chain<A: Clone, F: Fn(&A) -> A>(f: F, x: A, chain: Seq<A>) -> bool {
    &&& chain.len() > 0
    &&& cloned(x, chain[0])
    &&& forall|i: int| 0 <= i < chain.len() - 1 ==> f.ensures((&chain[i],), #[trigger] chain[i + 1])
}

/// `f` may be called on the last value of each run of the iteration from `x` that holds at
/// most `n` values.
pub open spec fn iterate_callable<A: Clone, F: Fn(&A) -> A>(f: F, x: A, n: int) -> bool {
    forall|chain: Seq<A>| #[trigger] iterate_chain(f, x, chain) && chain.len() <= n ==> f.requires((&chain.last(),))
}

/// `x, f(x), f(f(x)), ...`: `n` values, none for a negative `n`.
pub fn morloc_iterate<A: Clone, F: Fn(&A) -> A>(n: i64, f: F, x: &A) -> (r: Vec<A>)
    requires
        iterate_callable(f, *x, (if n > 0 { n as int } else { 0 }) as usize as int),
    ensures
        r@.len() == (if n > 0 { n as int } else { 0 }) as usize,
        exists|chain: Seq<A>| #[trigger] iterate_chain(f, *x, chain) && chain.len() == r@.len() + 1 && r@ == chain.take(
            r@.len() as int,
        ),
{
    let m = if n > 0 { n as usize } else { 0 };
    let mut out: Vec<A> = Vec::new();
    let mut cur = x.clone();
    let ghost mut chain: Seq<A> = seq![cur];
    let mut k: usize = 0;
    while k < m
        invariant
            k <= m,
            m == (if n > 0 { n as int } else { 0 }) as usize,
            iterate_callable(f, *x, m as int),
            out@.len() == k,
            chain.len() == k + 1,
            iterate_chain(f, *x, chain),
            chain.last() == cur,
            out@ == chain.take(k as int),
        decreases m - k,
    {
        proof {
            assert(iterate_chain(f, *x, chain));
        }
        let next = f(&cur);
        proof {
            assert(chain.push(next).take(k + 1) =~= chain);
            chain = chain.push(next);
        }
        out.push(cur);
        cur = next;
        proof {
            assert(out@ =~= chain.take(k + 1));
        }
        k = k + 1;
    }
    out
}

// ---------------------------------------------------------------------------
// groupBy: maximal runs of neighbours that the predicate deems equal
// ---------------------------------------------------------------------------

/// `f` may be called on each two neighbours of `xs`.
pub open spec fn neighbours_callable<A, F: Fn(&A, &A) -> bool>(f: F, xs: Seq<A>) -> bool {
    forall|i: int| 0 < i < xs.len() ==> #[trigger] callable_at(f, xs, i)
}

/// `f` may be called on `xs[i - 1]` and `xs[i]`.
pub open spec fn callable_at<A, F: Fn(&A, &A) -> bool>(f: F, xs: Seq<A>, i: int) -> bool {
    f.requires((&xs[i - 1], &xs[i]))
}

/// `f` may answer `b` on `xs[i - 1]` and `xs[i]`.
pub open spec fn answers_at<A, F: Fn(&A, &A) -> bool>(f: F, xs: Seq<A>, i: int, b: bool) -> bool {
    f.ensures((&xs[i - 1], &xs[i]), b)
}

/// `out` cuts `xs` into runs starting at `starts`: inside a run `f` may answer `true` on each
/// two neighbours, and at the start of every run but the first it may answer `false`.
pub open spec fn runs_split<A: Clone, F: Fn(&A, &A) -> bool>(
    f: F,
    xs: Seq<A>,
    starts: Seq<int>,
    out: Seq<Vec<A>>,
) -> bool {
    let n = xs.len() as int;
    &&& out.len() == starts.len()
    &&& (n == 0 <==> starts.len() == 0)
    &&& starts.len() > 0 ==> starts[0] == 0
    &&& forall|g: int| 0 <= g < starts.len() ==> 0 <= #[trigger] starts[g] < group_end(starts, n, g) <= n
    &&& forall|g: int| 0 <= g < starts.len() ==> (#[trigger] out[g])@.len() == group_end(starts, n, g) - starts[g]
    &&& forall|g: int, i: int|
        0 <= g < starts.len() && 0 <= i < group_end(starts, n, g) - starts[g]
            ==> cloned(xs[starts[g] + i], #[trigger] out[g]@[i])
    &&& forall|k: int| 0 < k < n && !starts.contains(k) ==> #[trigger] answers_at(f, xs, k, true)
    &&& forall|g: int| 0 < g < starts.len() ==> answers_at(f, xs, #[trigger] starts[g], false)
}

/// Groups maximal runs of neighbours that `eq` deems equal.
pub fn morloc_groupBy<A: Clone, F: Fn(&A, &A) -> bool>(eq: F, xs: &[A]) -> (out: Vec<Vec<A>>)
    requires
        neighbours_callable(eq, xs@),
    ensures
        exists|starts: Seq<int>| #[trigger] runs_split(eq, xs@, starts, out@),
{
    let n = xs.len();
    let mut out: Vec<Vec<A>> = Vec::new();
    if n == 0 {
        proof {
            assert(runs_split(eq, xs@, Seq::<int>::empty(), out@));
        }
        return out;
    }
    let mut cur: Vec<A> = Vec::new();
    cur.push(xs[0].clone());
    let mut start: usize = 0;
    let ghost mut starts: Seq<int> = seq![0int];
    let mut k: usize = 1;
    while k < n
        invariant
            n == xs@.len(),
            neighbours_callable(eq, xs@),
            0 <= start < k <= n,
            starts.len() == out@.len() + 1,
            starts.last() == start,
            starts[0] == 0,
            forall|g: int| 0 <= g < starts.len() ==> 0 <= #[trigger] starts[g] < group_end(starts, k as int, g) <= k,
            forall|g: int| 0 <= g < out@.len() ==> (#[trigger] out@[g])@.len() == group_end(starts, k as int, g) - starts[g],
            forall|g: int, i: int|
                0 <= g < out@.len() && 0 <= i < group_end(starts, k as int, g) - starts[g]
                    ==> cloned(xs@[starts[g] + i], #[trigger] out@[g]@[i]),
            cur@.len() == k - start,
            forall|i: int| 0 <= i < k - start ==> cloned(xs@[start + i], #[trigger] cur@[i]),
            forall|q: int| 0 < q < k && !starts.contains(q) ==> #[trigger] answers_at(eq, xs@, q, true),
            forall|g: int| 0 < g < starts.len() ==> answers_at(eq, xs@, #[trigger] starts[g], false),
        decreases n - k,
    {
        let ghost s0 = starts;
        proof {
            assert(callable_at(eq, xs@, k as int));
        }
        let same = eq(&xs[k - 1], &xs[k]);
        proof {
            assert(answers_at(eq, xs@, k as int, same));
        }
        if same {
            cur.push(xs[k].clone());
        } else {
            let mut done: Vec<A> = Vec::new();
            std::mem::swap(&mut done, &mut cur);
            out.push(done);
            cur.push(xs[k].clone());
            start = k;
            proof {
                starts = starts.push(k as int);
            }
        }
        k = k + 1;
        proof {
            assert forall|g: int| 0 <= g < starts.len() implies 0 <= #[trigger] starts[g] < group_end(starts, k as int, g) <= k by {
                if g + 1 < s0.len() {
                    assert(group_end(starts, k as int, g) == group_end(s0, k - 1, g));
                }
            }
            assert forall|g: int| 0 <= g < out@.len() implies (#[trigger] out@[g])@.len() == group_end(starts, k as int, g) - starts[g] by {
                if g + 1 < s0.len() {
                    assert(group_end(starts, k as int, g) == group_end(s0, k - 1, g));
                }
            }
            assert forall|g: int, i: int|
                0 <= g < out@.len() && 0 <= i < group_end(starts, k as int, g) - starts[g]
                implies cloned(xs@[starts[g] + i], #[trigger] out@[g]@[i]) by {
                if g + 1 < s0.len() {
                    assert(group_end(starts, k as int, g) == group_end(s0, k - 1, g));
                }
            }
            assert forall|q: int| 0 < q < k && !starts.contains(q) implies #[trigger] answers_at(eq, xs@, q, true) by {
                if q == k - 1 && !same {
                    assert(starts[starts.len() - 1] == q);
                }
                if q < k - 1 {
                    if s0.contains(q) {
                        let w = choose|w: int| 0 <= w < s0.len() && s0[w] == q;
                        assert(starts[w] == q);
                    }
                }
            }
        }
    }
    out.push(cur);
    proof {
        assert(runs_split(eq, xs@, starts, out@));
    }
    out
}

// ---------------------------------------------------------------------------
// unique: first occurrences, in input order
// ---------------------------------------------------------------------------

/// `ps` lists, in increasing order, the positions of `xs` kept in `out`: those whose element
/// none of the elements kept before it, `out[j] == xs[k]`, is equal to.
pub open spec fn first_occurrences<A: PartialEq>(xs: Seq<A>, ps: Seq<usize>, out: Seq<A>) -> bool {
    &&& forall|j: int, l: int| 0 <= j < l < ps.len() ==> #[trigger] ps[j] < #[trigger] ps[l]
    &&& forall|j: int| 0 <= j < ps.len() ==> #[trigger] ps[j] < xs.len()
    &&& A::obeys_eq_spec() ==> forall|k: int|
        0 <= k < xs.len() ==> (ps.contains(k as usize) <==> !#[trigger] kept_before(xs, ps, out, k))
}

/// Some element kept, in `out`, from a position before `k` `==` the element at `k`.
pub open spec fn kept_before<A: PartialEq>(xs: Seq<A>, ps: Seq<usize>, out: Seq<A>, k: int) -> bool {
    exists|j: int| 0 <= j < ps.len() && ps[j] < k && #[trigger] out[j].eq_spec(&xs[k])
}

proof fn lemma_push_keeps_before<A: PartialEq>(xs: Seq<A>, p0: Seq<usize>, o0: Seq<A>, v: A, k: int, q: int)
    requires
        0 <= q < k,
        k <= usize::MAX,
        p0.len() == o0.len(),
    ensures
        kept_before(xs, p0.push(k as usize), o0.push(v), q) == kept_before(xs, p0, o0, q),
{
    let ps = p0.push(k as usize);
    let os = o0.push(v);
    if kept_before(xs, ps, os, q) {
        let j = choose|j: int| 0 <= j < ps.len() && ps[j] < q && #[trigger] os[j].eq_spec(&xs[q]);
        assert(j < p0.len());
        assert(p0[j] == ps[j]);
        assert(o0[j] == os[j]);
    }
    if kept_before(xs, p0, o0, q) {
        let j = choose|j: int| 0 <= j < p0.len() && p0[j] < q && #[trigger] o0[j].eq_spec(&xs[q]);
        assert(ps[j] == p0[j]);
        assert(os[j] == o0[j]);
    }
}

proof fn lemma_push_contains(p0: Seq<usize>, k: usize, q: int)
    requires
        0 <= q < k,
    ensures
        p0.push(k).contains(q as usize) == p0.contains(q as usize),
{
    let ps = p0.push(k);
    if ps.contains(q as usize) {
        let w = choose|w: int| 0 <= w < ps.len() && ps[w] == q as usize;
        assert(w < p0.len());
        assert(p0[w] == q as usize);
    }
    if p0.contains(q as usize) {
        let w = choose|w: int| 0 <= w < p0.len() && p0[w] == q as usize;
        assert(ps[w] == q as usize);
    }
}

/// Keeps the first occurrence of each element, in input order.
pub fn morloc_unique<A: PartialEq + Clone>(xs: &[A]) -> (out: Vec<A>)
    ensures
        exists|ps: Seq<usize>|
            #[trigger] first_occurrences(xs@, ps, out@) && out@.len() == ps.len() && forall|j: int|
                0 <= j < ps.len() ==> cloned(xs@[ps[j] as int], #[trigger] out@[j]),
{
    let mut out: Vec<A> = Vec::new();
    let mut ps: Vec<usize> = Vec::new();
    let mut k: usize = 0;
    while k < xs.len()
        invariant
            k <= xs@.len(),
            out@.len() == ps@.len(),
            forall|j: int| 0 <= j < ps@.len() ==> cloned(xs@[ps@[j] as int], #[trigger] out@[j]),
            forall|j: int, l: int| 0 <= j < l < ps@.len() ==> #[trigger] ps@[j] < #[trigger] ps@[l],
            forall|j: int| 0 <= j < ps@.len() ==> #[trigger] ps@[j] < k,
            A::obeys_eq_spec() ==> forall|q: int|
                0 <= q < k ==> (ps@.contains(q as usize) <==> !#[trigger] kept_before(xs@, ps@, out@, q)),
        decreases xs@.len() - k,
    {
        let mut found = false;
        let mut m: usize = 0;
        while m < ps.len() && !found
            invariant
                k < xs@.len(),
                m <= ps@.len(),
                forall|j: int| 0 <= j < ps@.len() ==> #[trigger] ps@[j] < k,
                out@.len() == ps@.len(),
                !found ==> A::obeys_eq_spec() ==> forall|j: int| 0 <= j < m ==> !(#[trigger] out@[j].eq_spec(&xs@[k as int])),
                found ==> A::obeys_eq_spec() ==> exists|j: int| 0 <= j < ps@.len() && #[trigger] out@[j].eq_spec(&xs@[k as int]),
            decreases ps@.len() - m + (if found { 0int } else { 1int }),
        {
            if out[m] == xs[k] {
                found = true;
            } else {
                m = m + 1;
            }
        }
        let ghost p0 = ps@;
        let ghost o0 = out@;
        if !found {
            out.push(xs[k].clone());
            ps.push(k);
        }
        proof {
            if A::obeys_eq_spec() {
                assert forall|q: int| 0 <= q < k + 1 implies (ps@.contains(q as usize) <==> !#[trigger] kept_before(xs@, ps@, out@, q)) by {
                    if q == k {
                        if found {
                            assert(!ps@.contains(q as usize)) by {
                                if ps@.contains(q as usize) {
                                    let w = choose|w: int| 0 <= w < ps@.len() && ps@[w] == q as usize;
                                    assert(ps@[w] < k);
                                }
                            }
                            let j0 = choose|j: int| 0 <= j < ps@.len() && #[trigger] out@[j].eq_spec(&xs@[k as int]);
                            assert(ps@[j0] < k);
                            assert(kept_before(xs@, ps@, out@, q));
                        } else {
                            assert(ps@[p0.len() as int] == k);
                            assert(ps@.contains(q as usize));
                            assert(!kept_before(xs@, ps@, out@, q)) by {
                                if kept_before(xs@, ps@, out@, q) {
                                    let j = choose|j: int| 0 <= j < ps@.len() && ps@[j] < q && #[trigger] out@[j].eq_spec(&xs@[q]);
                                    assert(j < p0.len());
                                    assert(p0[j] == ps@[j]);
                                    assert(o0[j] == out@[j]);
                                }
                            }
                        }
                    } else if !found {
                        lemma_push_keeps_before(xs@, p0, o0, out@.last(), k as int, q);
                        lemma_push_contains(p0, k, q);
                        assert(out@ == o0.push(out@.last()));
                        assert(p0.contains(q as usize) <==> !kept_before(xs@, p0, o0, q));
                    }
                }
            }
        }
        k = k + 1;
    }
    proof {
        assert(first_occurrences(xs@, ps@, out@));
    }
    out
}

// ---------------------------------------------------------------------------
// range / rangeStep
// ---------------------------------------------------------------------------

/// `a, a + 1, ..., b - 1`; empty where `b <= a`.
pub fn morloc_range(a: i64, b: i64) -> (r: Vec<i64>)
    ensures
        r@.len() == if a < b { b - a } else { 0 },
        forall|i: int| 0 <= i < r@.len() ==> #[trigger] r@[i] == a + i,
{
    let mut out: Vec<i64> = Vec::new();
    let mut x: i64 = a;
    while x < b
        invariant
            a <= x,
            x <= if a < b { b } else { a },
            out@.len() == x - a,
            forall|i: int| 0 <= i < out@.len() ==> #[trigger] out@[i] == a + i,
        decreases b - x,
    {
        out.push(x);
        x = x + 1;
    }
    out
}

/// Whether `a + m * step` is the `m`-th value of a stepped range from `a` below `b`.
pub open spec fn below(a: int, m: int, step: int, b: int) -> bool {
    a + m * step < b
}

/// `a, a + step, a + 2 step, ...` while below `b`; empty for a step that is not positive.
pub fn morloc_rangeStep(a: i64, b: i64, step: i64) -> (r: Vec<i64>)
    requires
        step <= usize::MAX,
    ensures
        step <= 0 ==> r@.len() == 0,
        step > 0 ==> {
            &&& forall|m: int| 0 <= m < r@.len() ==> #[trigger] below(a as int, m, step as int, b as int)
            &&& !below(a as int, r@.len() as int, step as int, b as int)
            &&& forall|m: int| 0 <= m < r@.len() ==> #[trigger] r@[m] == a + m * step
        },
{
    let mut out: Vec<i64> = Vec::new();
    if step <= 0 {
        return out;
    }
    let mut x: i128 = a as i128;
    let s = step as i128;
    let bb = b as i128;
    while x < bb
        invariant
            s == step,
            s > 0,
            bb == b,
            a <= x,
            x <= i64::MAX + i64::MAX + 1,
            x == a + out@.len() * s,
            forall|m: int| 0 <= m < out@.len() ==> #[trigger] below(a as int, m, s as int, b as int),
            forall|m: int| 0 <= m < out@.len() ==> #[trigger] out@[m] == a + m * s,
        decreases if x < bb { bb - x } else { 0 },
    {
        proof {
            let m = out@.len() as int;
            assert(a + (m + 1) * s == a + m * s + s) by (nonlinear_arith);
            assert(below(a as int, m, s as int, b as int));
        }
        out.push(x as i64);
        x = x + s;
    }
    out
}

/// `d` counted in blocks of `k`, rounding up: where `len - 1` blocks fall short of `d` and
/// `len` blocks reach it, `len` is `ceil(d / k)`.
pub proof fn lemma_blocks_to_reach(d: int, k: int, len: int)
    requires
        k > 0,
        len >= 1,
        (len - 1) * k < d <= len * k,
    ensures
        (d + k - 1) / k == len,
{
    assert((len - 1) * k == len * k - k) by (nonlinear_arith);
    let r = d + k - 1 - len * k;
    assert(0 <= r < k);
    assert(d + k - 1 == len * k + r);
    vstd::arithmetic::div_mod::lemma_fundamental_div_mod_converse(d + k - 1, k, len, r);
}

/// A stepped range holds `ceil((b - a) / step)` values, none where `b <= a`, whatever the
/// signs of `a` and `b`; the `m`-th is `a + m * step`, so a range with `a < b` starts at `a`.
pub proof fn law_range_step_length(a: i64, b: i64, step: i64, r: Seq<i64>)
    requires
        step > 0,
        forall|m: int| 0 <= m < r.len() ==> #[trigger] below(a as int, m, step as int, b as int),
        !below(a as int, r.len() as int, step as int, b as int),
        forall|m: int| 0 <= m < r.len() ==> #[trigger] r[m] == a + m * step,
    ensures
        r.len() as int == (if a < b { (b - a + step - 1) / (step as int) } else { 0int }),
        a < b ==> r.len() > 0 && r[0] == a,
        forall|m: int| 0 <= m < r.len() ==> a <= #[trigger] r[m] < b,
{
    if r.len() > 0 {
        assert(below(a as int, 0, step as int, b as int));
        assert(a + 0 * step == a) by (nonlinear_arith);
        let len = r.len() as int;
        assert(below(a as int, len - 1, step as int, b as int));
        lemma_blocks_to_reach(b - a, step as int, len);
        assert forall|m: int| 0 <= m < r.len() implies a <= #[trigger] r[m] < b by {
            assert(below(a as int, m, step as int, b as int));
            assert(m * step >= 0) by (nonlinear_arith)
                requires
                    m >= 0,
                    step > 0,
            ;
        }
    } else {
        assert(a + 0 * step == a) by (nonlinear_arith);
        assert(!below(a as int, 0, step as int, b as int));
    }
}

} // verus!
