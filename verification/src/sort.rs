use vstd::prelude::*;
use vstd::std_specs::cmp::PartialOrdIs;
use vstd::std_specs::cmp::PartialOrdSpec;
use vstd::std_specs::cmp::PartialEqSpec;

verus! {

broadcast use {vstd::seq_lib::to_multiset_build, vstd::seq_lib::lemma_multiset_commutative};

/// `le` is total and transitive on the elements of `xs`: a total preorder.
#[verifier::opaque]
pub open spec fn total_preorder_on<A>(le: spec_fn(A, A) -> bool, xs: Seq<A>) -> bool {
    &&& forall|a: int, b: int|
        0 <= a < xs.len() && 0 <= b < xs.len() ==> #[trigger] le(xs[a], xs[b]) || le(xs[b], xs[a])
    &&& forall|a: int, b: int, c: int|
        0 <= a < xs.len() && 0 <= b < xs.len() && 0 <= c < xs.len() && #[trigger] le(xs[a], xs[b])
            && #[trigger] le(xs[b], xs[c]) ==> le(xs[a], xs[c])
}

/// Every answer that `first` can give is the one `le` gives.
pub open spec fn decides<A, F: Fn(&A, &A) -> bool>(first: F, le: spec_fn(A, A) -> bool) -> bool {
    forall|a: A, b: A, r: bool| #[trigger] first.ensures((&a, &b), r) ==> r == le(a, b)
}

/// `b` comes from `a` by `n` copying steps in a row, each a pair related by `step`.
pub open spec fn cloned_within<A>(step: spec_fn(A, A) -> bool, a: A, b: A, n: nat) -> bool
    decreases n,
{
    if n == 0 {
        a == b
    } else {
        exists|c: A| cloned_within(step, a, c, (n - 1) as nat) && #[trigger] step(c, b)
    }
}

/// `b` comes from `a` by copying steps: `a` itself, a copy of it, a copy of that, and so on.
pub open spec fn descends<A>(step: spec_fn(A, A) -> bool, a: A, b: A) -> bool {
    exists|n: nat| #[trigger] cloned_within(step, a, b, n)
}

/// `a` comes by copying steps from an element of `xs`.
pub open spec fn from_elements<A>(step: spec_fn(A, A) -> bool, xs: Seq<A>, a: A) -> bool {
    exists|i: int| 0 <= i < xs.len() && #[trigger] descends(step, xs[i], a)
}

/// `first` may be called on any two values that come by copying steps from elements of `xs`.
pub open spec fn callable_on<A, F: Fn(&A, &A) -> bool>(first: F, step: spec_fn(A, A) -> bool, xs: Seq<A>) -> bool {
    forall|a: A, b: A| from_elements(step, xs, a) && from_elements(step, xs, b) ==> #[trigger] first.requires((&a, &b))
}

/// `dup` may copy any value, and every copy it makes is related to its source by `step`.
pub open spec fn copies_by<A, D: Fn(&A) -> A>(dup: D, step: spec_fn(A, A) -> bool) -> bool {
    &&& forall|a: A| #[trigger] dup.requires((&a,))
    &&& forall|a: A, b: A| #[trigger] dup.ensures((&a,), b) ==> step(a, b)
}

/// A copy stands where its source stands in the order `le`.
pub open spec fn clone_respects<A>(step: spec_fn(A, A) -> bool, le: spec_fn(A, A) -> bool) -> bool {
    forall|a: A, b: A, c: A|
        #![trigger step(a, b), le(a, c)]
        #![trigger step(a, b), le(c, a)]
        #![trigger step(a, b), le(b, c)]
        #![trigger step(a, b), le(c, b)]
        step(a, b) ==> le(a, c) == le(b, c) && le(c, a) == le(c, b)
}

proof fn lemma_descends_refl<A>(step: spec_fn(A, A) -> bool, a: A)
    ensures
        descends(step, a, a),
{
    assert(cloned_within(step, a, a, 0));
}

proof fn lemma_descends_step<A>(step: spec_fn(A, A) -> bool, a: A, b: A, c: A)
    requires
        descends(step, a, b),
        step(b, c),
    ensures
        descends(step, a, c),
{
    let n = choose|n: nat| #[trigger] cloned_within(step, a, b, n);
    assert(cloned_within(step, a, c, n + 1));
}

proof fn lemma_within_exact<A>(step: spec_fn(A, A) -> bool, a: A, b: A, n: nat)
    requires
        forall|x: A, y: A| #[trigger] step(x, y) ==> x == y,
        cloned_within(step, a, b, n),
    ensures
        a == b,
    decreases n,
{
    if n > 0 {
        let d = choose|d: A| cloned_within(step, a, d, (n - 1) as nat) && #[trigger] step(d, b);
        lemma_within_exact(step, a, d, (n - 1) as nat);
    }
}

/// Where each copying step gives back its source itself, a value that comes from `a` by
/// copying steps is `a`.
pub proof fn lemma_exact_copies<A>(step: spec_fn(A, A) -> bool, a: A, b: A)
    requires
        forall|x: A, y: A| #[trigger] step(x, y) ==> x == y,
        descends(step, a, b),
    ensures
        a == b,
{
    let n = choose|n: nat| #[trigger] cloned_within(step, a, b, n);
    lemma_within_exact(step, a, b, n);
}

proof fn lemma_within_respects<A>(step: spec_fn(A, A) -> bool, le: spec_fn(A, A) -> bool, a: A, b: A, c: A, n: nat)
    requires
        clone_respects(step, le),
        cloned_within(step, a, b, n),
    ensures
        le(a, c) == le(b, c),
        le(c, a) == le(c, b),
    decreases n,
{
    if n > 0 {
        let d = choose|d: A| cloned_within(step, a, d, (n - 1) as nat) && #[trigger] step(d, b);
        lemma_within_respects(step, le, a, d, c, (n - 1) as nat);
        assert(step(d, b) ==> le(d, c) == le(b, c) && le(c, d) == le(c, b));
    }
}

/// Where copies stand where their sources stand, so does anything that comes by copying steps.
proof fn lemma_descends_respects<A>(step: spec_fn(A, A) -> bool, le: spec_fn(A, A) -> bool, a: A, b: A, c: A)
    requires
        clone_respects(step, le),
        descends(step, a, b),
    ensures
        le(a, c) == le(b, c),
        le(c, a) == le(c, b),
{
    let n = choose|n: nat| #[trigger] cloned_within(step, a, b, n);
    lemma_within_respects(step, le, a, b, c, n);
}

/// In the stable order that `le` induces on the positions of `xs`, position `a` comes
/// before position `b`: `xs[a]` is not after `xs[b]`, and where the two are equivalent
/// the earlier position wins.
pub open spec fn precedes<A>(le: spec_fn(A, A) -> bool, xs: Seq<A>, a: int, b: int) -> bool {
    &&& le(xs[a], xs[b])
    &&& le(xs[b], xs[a]) ==> a < b
}

/// The positions `s[lo..hi)` are listed in the stable order of `le` on `xs`.
pub open spec fn sorted_span<A>(
    le: spec_fn(A, A) -> bool,
    xs: Seq<A>,
    s: Seq<usize>,
    lo: int,
    hi: int,
) -> bool {
    forall|p: int, q: int|
        lo <= p < q < hi ==> #[trigger] precedes(le, xs, s[p] as int, s[q] as int)
}

/// The positions in `s[lo..hi)` all lie in `[lo, hi)`.
pub open spec fn span_within(s: Seq<usize>, lo: int, hi: int) -> bool {
    forall|p: int| lo <= p < hi ==> lo <= #[trigger] s[p] < hi
}

proof fn lemma_precedes_trans<A>(le: spec_fn(A, A) -> bool, xs: Seq<A>, a: int, b: int, c: int)
    requires
        total_preorder_on(le, xs),
        0 <= a < xs.len(),
        0 <= b < xs.len(),
        0 <= c < xs.len(),
        precedes(le, xs, a, b),
        precedes(le, xs, b, c),
    ensures
        precedes(le, xs, a, c),
{
    reveal(total_preorder_on);
    assert(le(xs[a], xs[b]) && le(xs[b], xs[c]));
    if le(xs[c], xs[a]) {
        assert(le(xs[c], xs[b]));
        assert(le(xs[b], xs[a]));
    }
}

/// Where `le(xs[a], xs[b])` fails, `b` comes first.
proof fn lemma_precedes_flip<A>(le: spec_fn(A, A) -> bool, xs: Seq<A>, a: int, b: int)
    requires
        total_preorder_on(le, xs),
        0 <= a < xs.len(),
        0 <= b < xs.len(),
        !le(xs[a], xs[b]),
    ensures
        precedes(le, xs, b, a),
{
    reveal(total_preorder_on);
    assert(le(xs[a], xs[b]) || le(xs[b], xs[a]));
}

proof fn lemma_precedes_refl<A>(le: spec_fn(A, A) -> bool, xs: Seq<A>, a: int)
    requires
        total_preorder_on(le, xs),
        0 <= a < xs.len(),
    ensures
        le(xs[a], xs[a]),
{
    reveal(total_preorder_on);
    assert(le(xs[a], xs[a]) || le(xs[a], xs[a]));
}

/// What a merge of `src[lo..mid)` and `src[mid..hi)` may rely on for the order `le`.
spec fn merge_premise<A, F: Fn(&A, &A) -> bool>(
    first: F,
    step: spec_fn(A, A) -> bool,
    le: spec_fn(A, A) -> bool,
    xs: Seq<A>,
    src: Seq<usize>,
    lo: int,
    mid: int,
    hi: int,
) -> bool {
    &&& decides(first, le)
    &&& clone_respects(step, le)
    &&& total_preorder_on(le, xs)
    &&& sorted_span(le, xs, src, lo, mid)
    &&& sorted_span(le, xs, src, mid, hi)
}

/// Halfway through a merge: `dst[lo..k)` is in order and comes before both run heads.
spec fn merge_progress<A>(
    le: spec_fn(A, A) -> bool,
    xs: Seq<A>,
    src: Seq<usize>,
    dst: Seq<usize>,
    lo: int,
    mid: int,
    hi: int,
    i: int,
    j: int,
    k: int,
) -> bool {
    &&& sorted_span(le, xs, dst, lo, k)
    &&& forall|p: int| lo <= p < k && i < mid ==> #[trigger] precedes(le, xs, dst[p] as int, src[i] as int)
    &&& forall|p: int| lo <= p < k && j < hi ==> #[trigger] precedes(le, xs, dst[p] as int, src[j] as int)
}

/// Each element of `el[lo..hi)` comes by copying steps from the element of `xs` at the position
/// that `pos` records for it.
pub open spec fn tracked_span<A>(step: spec_fn(A, A) -> bool, xs: Seq<A>, pos: Seq<usize>, el: Seq<A>, lo: int, hi: int) -> bool {
    forall|p: int| lo <= p < hi ==> #[trigger] descends(step, xs[pos[p] as int], el[p])
}

/// What `first` answers on two elements, read back on the positions they come from.
proof fn lemma_answer_on_positions<A, F: Fn(&A, &A) -> bool>(
    first: F,
    step: spec_fn(A, A) -> bool,
    le: spec_fn(A, A) -> bool,
    xs: Seq<A>,
    a: int,
    b: int,
    ea: A,
    eb: A,
    r: bool,
)
    requires
        decides(first, le),
        clone_respects(step, le),
        descends(step, xs[a], ea),
        descends(step, xs[b], eb),
        first.ensures((&ea, &eb), r),
    ensures
        r == le(xs[a], xs[b]),
{
    lemma_descends_respects(step, le, xs[a], ea, eb);
    lemma_descends_respects(step, le, xs[b], eb, xs[a]);
}

/// Merges the runs `src[lo..mid)` and `src[mid..hi)` into `dst[lo..hi)`, taking from the
/// left run unless `first`, asked on the two run heads, says otherwise, and putting a copy
/// that `dup` makes of the element taken. Beside the elements, `src_pos` and `dst_pos` record the position of
/// `xs` each element comes from.
fn merge_runs<A, F: Fn(&A, &A) -> bool, D: Fn(&A) -> A>(
    first: &F,
    dup: &D,
    Ghost(step): Ghost<spec_fn(A, A) -> bool>,
    xs: &[A],
    src_pos: &Vec<usize>,
    src: &Vec<A>,
    dst_pos: &mut Vec<usize>,
    dst: &mut Vec<A>,
    lo: usize,
    mid: usize,
    hi: usize,
)
    requires
        lo <= mid <= hi <= src_pos@.len(),
        src_pos@.len() == old(dst_pos)@.len(),
        src_pos@.len() == xs@.len(),
        src@.len() == xs@.len(),
        old(dst)@.len() == xs@.len(),
        callable_on(*first, step, xs@),
        copies_by(*dup, step),
        span_within(src_pos@, lo as int, mid as int),
        span_within(src_pos@, mid as int, hi as int),
        tracked_span(step, xs@, src_pos@, src@, lo as int, hi as int),
    ensures
        final(dst_pos)@.len() == old(dst_pos)@.len(),
        final(dst)@.len() == old(dst)@.len(),
        forall|p: int| 0 <= p < lo || hi <= p < old(dst_pos)@.len() ==> #[trigger] final(dst_pos)@[p] == old(dst_pos)@[p],
        forall|p: int| 0 <= p < lo || hi <= p < old(dst)@.len() ==> #[trigger] final(dst)@[p] == old(dst)@[p],
        final(dst_pos)@.subrange(lo as int, hi as int).to_multiset() == src_pos@.subrange(lo as int, hi as int).to_multiset(),
        span_within(final(dst_pos)@, lo as int, hi as int),
        tracked_span(step, xs@, final(dst_pos)@, final(dst)@, lo as int, hi as int),
        forall|le: spec_fn(A, A) -> bool|
            merge_premise(*first, step, le, xs@, src_pos@, lo as int, mid as int, hi as int)
                ==> #[trigger] sorted_span(le, xs@, final(dst_pos)@, lo as int, hi as int),
{
    let ghost d0 = dst_pos@;
    let ghost e0 = dst@;
    let mut i = lo;
    let mut j = mid;
    let mut k = lo;
    proof {
        assert(dst_pos@.subrange(lo as int, lo as int) =~= Seq::<usize>::empty());
        assert(src_pos@.subrange(lo as int, lo as int) =~= Seq::<usize>::empty());
        assert(src_pos@.subrange(mid as int, mid as int) =~= Seq::<usize>::empty());
        assert(Seq::<usize>::empty() + Seq::<usize>::empty() =~= Seq::<usize>::empty());
    }
    while k < hi
        invariant
            lo <= i <= mid <= j <= hi <= src_pos@.len(),
            k == lo + (i - lo) + (j - mid),
            src_pos@.len() == dst_pos@.len(),
            src_pos@.len() == xs@.len(),
            src@.len() == xs@.len(),
            dst@.len() == xs@.len(),
            e0.len() == xs@.len(),
            dst_pos@.len() == d0.len(),
            callable_on(*first, step, xs@),
            copies_by(*dup, step),
            span_within(src_pos@, lo as int, mid as int),
            span_within(src_pos@, mid as int, hi as int),
            tracked_span(step, xs@, src_pos@, src@, lo as int, hi as int),
            forall|p: int| 0 <= p < lo || k <= p < d0.len() ==> #[trigger] dst_pos@[p] == d0[p],
            forall|p: int| 0 <= p < lo || k <= p < e0.len() ==> #[trigger] dst@[p] == e0[p],
            dst_pos@.subrange(lo as int, k as int).to_multiset() == src_pos@.subrange(lo as int, i as int).to_multiset().add(
                src_pos@.subrange(mid as int, j as int).to_multiset()),
            forall|p: int| lo <= p < k ==> lo <= #[trigger] dst_pos@[p] < hi,
            tracked_span(step, xs@, dst_pos@, dst@, lo as int, k as int),
            forall|le: spec_fn(A, A) -> bool|
                #[trigger] merge_premise(*first, step, le, xs@, src_pos@, lo as int, mid as int, hi as int)
                    ==> merge_progress(le, xs@, src_pos@, dst_pos@, lo as int, mid as int, hi as int, i as int, j as int, k as int),
        decreases hi - k,
    {
        let ghost compared = i < mid && j < hi;
        proof {
            if compared {
                assert(descends(step, xs@[src_pos@[i as int] as int], src@[i as int]));
                assert(descends(step, xs@[src_pos@[j as int] as int], src@[j as int]));
                assert(from_elements(step, xs@, src@[i as int]));
                assert(from_elements(step, xs@, src@[j as int]));
            }
        }
        let take_left = if i >= mid {
            false
        } else if j >= hi {
            true
        } else {
            first(&src[i], &src[j])
        };
        proof {
            if compared {
                assert forall|le: spec_fn(A, A) -> bool|
                    #[trigger] merge_premise(*first, step, le, xs@, src_pos@, lo as int, mid as int, hi as int)
                    implies take_left == le(xs@[src_pos@[i as int] as int], xs@[src_pos@[j as int] as int]) by {
                    lemma_answer_on_positions(*first, step, le, xs@, src_pos@[i as int] as int, src_pos@[j as int] as int,
                        src@[i as int], src@[j as int], take_left);
                }
            }
        }
        let ghost dk = dst_pos@;
        if take_left {
            let e = src_pos[i];
            let c = dup(&src[i]);
            proof {
                lemma_descends_step(step, xs@[e as int], src@[i as int], c);
            }
            dst_pos.set(k, e);
            dst.set(k, c);
            proof {
                assert(dst_pos@.subrange(lo as int, k + 1) == dk.subrange(lo as int, k as int).push(e));
                assert(src_pos@.subrange(lo as int, i + 1) == src_pos@.subrange(lo as int, i as int).push(e));
                assert forall|le: spec_fn(A, A) -> bool|
                    #[trigger] merge_premise(*first, step, le, xs@, src_pos@, lo as int, mid as int, hi as int)
                    implies merge_progress(le, xs@, src_pos@, dst_pos@, lo as int, mid as int, hi as int, i + 1, j as int, k + 1) by {
                    assert(merge_progress(le, xs@, src_pos@, dk, lo as int, mid as int, hi as int, i as int, j as int, k as int));
                    if j < hi {
                        assert(lo <= e < mid && mid <= src_pos@[j as int]);
                        assert(precedes(le, xs@, e as int, src_pos@[j as int] as int));
                    }
                    if i + 1 < mid {
                        assert(precedes(le, xs@, e as int, src_pos@[i + 1] as int));
                        assert forall|p: int| lo <= p < k + 1 implies #[trigger] precedes(le, xs@, dst_pos@[p] as int, src_pos@[i + 1] as int) by {
                            if p < k {
                                assert(precedes(le, xs@, dk[p] as int, e as int));
                                lemma_precedes_trans(le, xs@, dst_pos@[p] as int, e as int, src_pos@[i + 1] as int);
                            }
                        }
                    }
                    assert forall|p: int, q: int| lo <= p < q < k + 1 implies #[trigger] precedes(le, xs@, dst_pos@[p] as int, dst_pos@[q] as int) by {
                        if q < k {
                            assert(precedes(le, xs@, dk[p] as int, dk[q] as int));
                        } else {
                            assert(precedes(le, xs@, dk[p] as int, e as int));
                        }
                    }
                }
            }
            i = i + 1;
        } else {
            let e = src_pos[j];
            let c = dup(&src[j]);
            proof {
                lemma_descends_step(step, xs@[e as int], src@[j as int], c);
            }
            dst_pos.set(k, e);
            dst.set(k, c);
            proof {
                assert(dst_pos@.subrange(lo as int, k + 1) == dk.subrange(lo as int, k as int).push(e));
                assert(src_pos@.subrange(mid as int, j + 1) == src_pos@.subrange(mid as int, j as int).push(e));
                assert forall|le: spec_fn(A, A) -> bool|
                    #[trigger] merge_premise(*first, step, le, xs@, src_pos@, lo as int, mid as int, hi as int)
                    implies merge_progress(le, xs@, src_pos@, dst_pos@, lo as int, mid as int, hi as int, i as int, j + 1, k + 1) by {
                    assert(merge_progress(le, xs@, src_pos@, dk, lo as int, mid as int, hi as int, i as int, j as int, k as int));
                    if i < mid {
                        assert(!le(xs@[src_pos@[i as int] as int], xs@[e as int]));
                        lemma_precedes_flip(le, xs@, src_pos@[i as int] as int, e as int);
                    }
                    if j + 1 < hi {
                        assert(precedes(le, xs@, e as int, src_pos@[j + 1] as int));
                        assert forall|p: int| lo <= p < k + 1 implies #[trigger] precedes(le, xs@, dst_pos@[p] as int, src_pos@[j + 1] as int) by {
                            if p < k {
                                assert(precedes(le, xs@, dk[p] as int, e as int));
                                lemma_precedes_trans(le, xs@, dst_pos@[p] as int, e as int, src_pos@[j + 1] as int);
                            }
                        }
                    }
                    assert forall|p: int, q: int| lo <= p < q < k + 1 implies #[trigger] precedes(le, xs@, dst_pos@[p] as int, dst_pos@[q] as int) by {
                        if q < k {
                            assert(precedes(le, xs@, dk[p] as int, dk[q] as int));
                        } else {
                            assert(precedes(le, xs@, dk[p] as int, e as int));
                        }
                    }
                }
            }
            j = j + 1;
        }
        k = k + 1;
    }
    proof {
        assert(src_pos@.subrange(lo as int, hi as int) == src_pos@.subrange(lo as int, mid as int) + src_pos@.subrange(mid as int, hi as int));
        assert forall|le: spec_fn(A, A) -> bool|
            merge_premise(*first, step, le, xs@, src_pos@, lo as int, mid as int, hi as int)
            implies #[trigger] sorted_span(le, xs@, dst_pos@, lo as int, hi as int) by {
            assert(merge_progress(le, xs@, src_pos@, dst_pos@, lo as int, mid as int, hi as int, i as int, j as int, k as int));
        }
    }
}

/// End of the `m`-th run of width `w` in a sequence of length `n`.
pub open spec fn run_end(w: int, n: int, m: int) -> int {
    if m * w + w < n {
        m * w + w
    } else {
        n
    }
}

pub open spec fn run_within(s: Seq<usize>, w: int, n: int, m: int) -> bool {
    span_within(s, m * w, run_end(w, n, m))
}

pub open spec fn run_sorted<A>(
    le: spec_fn(A, A) -> bool,
    xs: Seq<A>,
    s: Seq<usize>,
    w: int,
    n: int,
    m: int,
) -> bool {
    sorted_span(le, xs, s, m * w, run_end(w, n, m))
}

/// Every run of width `w` holds positions from its own range.
pub open spec fn runs_within(s: Seq<usize>, w: int, n: int) -> bool {
    forall|m: int| 0 <= m && m * w < n ==> #[trigger] run_within(s, w, n, m)
}

/// Every run of width `w` is in the stable order of `le`.
pub open spec fn runs_sorted<A>(le: spec_fn(A, A) -> bool, xs: Seq<A>, s: Seq<usize>, w: int, n: int) -> bool {
    forall|m: int| 0 <= m && m * w < n ==> #[trigger] run_sorted(le, xs, s, w, n, m)
}

/// The positions `0..n` in order.
pub open spec fn positions(n: nat) -> Seq<usize> {
    Seq::new(n, |k: int| k as usize)
}

/// `p` lists each of the positions `0..n` exactly once.
pub open spec fn is_permutation(p: Seq<usize>, n: nat) -> bool {
    &&& p.len() == n
    &&& span_within(p, 0, n as int)
    &&& p.to_multiset() == positions(n).to_multiset()
}

proof fn lemma_run_arith(t: int, w: int)
    requires
        t >= 0,
        w >= 1,
    ensures
        (2 * t) * w == t * (2 * w),
        (2 * t + 1) * w == t * (2 * w) + w,
        (t + 1) * (2 * w) == t * (2 * w) + 2 * w,
        t * (2 * w) >= 0,
{
    assert((2 * t) * w == t * (2 * w)) by (nonlinear_arith);
    assert((2 * t + 1) * w == t * (2 * w) + w) by (nonlinear_arith);
    assert((t + 1) * (2 * w) == t * (2 * w) + 2 * w) by (nonlinear_arith);
    assert(t * (2 * w) >= 0) by (nonlinear_arith)
        requires
            t >= 0,
            w >= 1,
    ;
}

proof fn lemma_mul_mono(a: int, b: int, w: int)
    requires
        0 <= a <= b,
        w >= 0,
    ensures
        a * w <= b * w,
{
    assert(a * w <= b * w) by (nonlinear_arith)
        requires
            0 <= a <= b,
            w >= 0,
    ;
}

/// What a pass with runs of width `w` may rely on for the order `le`.
spec fn pass_premise<A, F: Fn(&A, &A) -> bool>(
    first: F,
    step: spec_fn(A, A) -> bool,
    le: spec_fn(A, A) -> bool,
    xs: Seq<A>,
    src: Seq<usize>,
    w: int,
) -> bool {
    &&& decides(first, le)
    &&& clone_respects(step, le)
    &&& total_preorder_on(le, xs)
    &&& runs_sorted(le, xs, src, w, src.len() as int)
}

/// One pass of the bottom-up merge sort: merges each pair of neighbouring runs of width
/// `width` in `src` into one run of twice that width in `dst`; the positions the elements
/// come from move with them.
fn merge_pass<A, F: Fn(&A, &A) -> bool, D: Fn(&A) -> A>(
    first: &F,
    dup: &D,
    Ghost(step): Ghost<spec_fn(A, A) -> bool>,
    xs: &[A],
    src_pos: &Vec<usize>,
    src_el: &Vec<A>,
    dst: &mut Vec<usize>,
    dst_el: &mut Vec<A>,
    width: usize,
)
    requires
        width >= 1,
        src_pos@.len() == old(dst)@.len(),
        src_pos@.len() == xs@.len(),
        src_el@.len() == xs@.len(),
        old(dst_el)@.len() == xs@.len(),
        callable_on(*first, step, xs@),
        copies_by(*dup, step),
        runs_within(src_pos@, width as int, src_pos@.len() as int),
        tracked_span(step, xs@, src_pos@, src_el@, 0, xs@.len() as int),
    ensures
        final(dst)@.len() == src_pos@.len(),
        final(dst_el)@.len() == src_pos@.len(),
        final(dst)@.to_multiset() == src_pos@.to_multiset(),
        runs_within(final(dst)@, 2 * width, src_pos@.len() as int),
        tracked_span(step, xs@, final(dst)@, final(dst_el)@, 0, xs@.len() as int),
        forall|le: spec_fn(A, A) -> bool|
            pass_premise(*first, step, le, xs@, src_pos@, width as int)
                ==> #[trigger] runs_sorted(le, xs@, final(dst)@, 2 * width, src_pos@.len() as int),
{
    let src = src_pos;
    let n = src.len();
    let ghost w = width as int;
    let ghost ni = n as int;
    let mut lo: usize = 0;
    let ghost mut t: int = 0;
    proof {
        assert(dst@.subrange(0, 0) =~= src@.subrange(0, 0));
    }
    while lo < n
        invariant
            n == src@.len(),
            ni == n,
            w == width,
            w >= 1,
            dst@.len() == n,
            src@.len() == xs@.len(),
            src_el@.len() == xs@.len(),
            dst_el@.len() == xs@.len(),
            callable_on(*first, step, xs@),
            copies_by(*dup, step),
            runs_within(src@, w, ni),
            tracked_span(step, xs@, src@, src_el@, 0, ni),
            tracked_span(step, xs@, dst@, dst_el@, 0, lo as int),
            0 <= t,
            lo <= n,
            lo <= t * (2 * w),
            lo < n ==> lo == t * (2 * w),
            dst@.subrange(0, lo as int).to_multiset() == src@.subrange(0, lo as int).to_multiset(),
            forall|m: int| 0 <= m < t ==> #[trigger] run_within(dst@, 2 * w, ni, m),
            forall|le: spec_fn(A, A) -> bool, m: int|
                #[trigger] pass_premise(*first, step, le, xs@, src@, w) && 0 <= m < t
                    ==> #[trigger] run_sorted(le, xs@, dst@, 2 * w, ni, m),
            forall|m: int| 0 <= m < t ==> #[trigger] run_end(2 * w, ni, m) <= lo,
        decreases n - lo,
    {
        proof {
            lemma_run_arith(t, w);
        }
        let mid = if n - lo > width { lo + width } else { n };
        let hi = if n - mid > width { mid + width } else { n };
        proof {
            assert(run_within(src@, w, ni, 2 * t));
            if (2 * t + 1) * w < ni {
                assert(run_within(src@, w, ni, 2 * t + 1));
            }
        }
        let ghost d0 = dst@;
        let ghost de0 = dst_el@;
        merge_runs(first, dup, Ghost(step), xs, src, src_el, dst, dst_el, lo, mid, hi);
        proof {
            assert forall|p: int| 0 <= p < hi implies #[trigger] descends(step, xs@[dst@[p] as int], dst_el@[p]) by {
                if p < lo {
                    assert(descends(step, xs@[d0[p] as int], de0[p]));
                }
            }
            assert(dst@.subrange(0, lo as int) =~= d0.subrange(0, lo as int));
            assert(dst@.subrange(0, hi as int) =~= dst@.subrange(0, lo as int) + dst@.subrange(lo as int, hi as int));
            assert(src@.subrange(0, hi as int) =~= src@.subrange(0, lo as int) + src@.subrange(lo as int, hi as int));
            assert(run_end(2 * w, ni, t) == hi);
            assert forall|m: int| 0 <= m < t + 1 implies #[trigger] run_within(dst@, 2 * w, ni, m) by {
                if m < t {
                    assert(run_within(d0, 2 * w, ni, m));
                    lemma_mul_mono(0, m, 2 * w);
                }
            }
            assert forall|le: spec_fn(A, A) -> bool, m: int|
                #[trigger] pass_premise(*first, step, le, xs@, src@, w) && 0 <= m < t + 1
                implies #[trigger] run_sorted(le, xs@, dst@, 2 * w, ni, m) by {
                if m < t {
                    assert(run_sorted(le, xs@, d0, 2 * w, ni, m));
                    lemma_mul_mono(0, m, 2 * w);
                    assert forall|p: int, q: int| m * (2 * w) <= p < q < run_end(2 * w, ni, m)
                        implies #[trigger] precedes(le, xs@, dst@[p] as int, dst@[q] as int) by {
                        assert(precedes(le, xs@, d0[p] as int, d0[q] as int));
                    }
                } else {
                    assert(run_sorted(le, xs@, src@, w, ni, 2 * t));
                    if (2 * t + 1) * w < ni {
                        assert(run_sorted(le, xs@, src@, w, ni, 2 * t + 1));
                    }
                    assert(merge_premise(*first, step, le, xs@, src@, lo as int, mid as int, hi as int));
                    assert(sorted_span(le, xs@, dst@, lo as int, hi as int));
                }
            }
        }
        lo = hi;
        proof {
            t = t + 1;
        }
    }
    proof {
        assert(dst@.subrange(0, n as int) =~= dst@);
        assert(src@.subrange(0, n as int) =~= src@);
        assert forall|m: int| 0 <= m && m * (2 * w) < ni implies #[trigger] run_within(dst@, 2 * w, ni, m) by {
            if m >= t {
                lemma_mul_mono(t, m, 2 * w);
            }
        }
        assert forall|le: spec_fn(A, A) -> bool| pass_premise(*first, step, le, xs@, src@, w)
            implies #[trigger] runs_sorted(le, xs@, dst@, 2 * w, ni) by {
            assert forall|m: int| 0 <= m && m * (2 * w) < ni implies #[trigger] run_sorted(le, xs@, dst@, 2 * w, ni, m) by {
                if m >= t {
                    lemma_mul_mono(t, m, 2 * w);
                }
            }
        }
    }
}

/// Where runs of width `w >= n` are concerned there is one run, and it is the whole sequence.
proof fn lemma_single_run<A>(le: spec_fn(A, A) -> bool, xs: Seq<A>, s: Seq<usize>, w: int, n: int)
    requires
        n > 0,
        w >= n,
    ensures
        runs_within(s, w, n) ==> span_within(s, 0, n),
        runs_sorted(le, xs, s, w, n) ==> sorted_span(le, xs, s, 0, n),
{
    assert(0 * w == 0);
    assert(run_end(w, n, 0) == n);
    if runs_within(s, w, n) {
        assert(run_within(s, w, n, 0));
    }
    if runs_sorted(le, xs, s, w, n) {
        assert(run_sorted(le, xs, s, w, n, 0));
    }
}

/// Runs of width `2w`, where `2w >= n`, are runs of width `n`: one run over everything.
proof fn lemma_widen_to_all<A>(le: spec_fn(A, A) -> bool, xs: Seq<A>, s: Seq<usize>, w: int, n: int)
    requires
        n > 0,
        2 * w >= n,
        w >= 1,
    ensures
        runs_within(s, 2 * w, n) ==> runs_within(s, n, n),
        runs_sorted(le, xs, s, 2 * w, n) ==> runs_sorted(le, xs, s, n, n),
{
    lemma_single_run(le, xs, s, 2 * w, n);
    assert(0 * n == 0);
    assert(run_end(n, n, 0) == n);
    if runs_within(s, 2 * w, n) {
        assert forall|m: int| 0 <= m && m * n < n implies #[trigger] run_within(s, n, n, m) by {
            if m >= 1 {
                lemma_mul_mono(1, m, n);
            }
        }
    }
    if runs_sorted(le, xs, s, 2 * w, n) {
        assert forall|m: int| 0 <= m && m * n < n implies #[trigger] run_sorted(le, xs, s, n, n, m) by {
            if m >= 1 {
                lemma_mul_mono(1, m, n);
            }
        }
    }
}

/// What the sort's contract may rely on for the order `le`: `first` answers by it, clones
/// keep their place in it, and it is a total preorder on `xs`.
pub open spec fn sort_premise<A, F: Fn(&A, &A) -> bool>(
    first: F,
    step: spec_fn(A, A) -> bool,
    le: spec_fn(A, A) -> bool,
    xs: Seq<A>,
) -> bool {
    &&& decides(first, le)
    &&& clone_respects(step, le)
    &&& total_preorder_on(le, xs)
}

/// Stable bottom-up merge sort of copies of `xs` driven by `first`: `first(a, b)` says that
/// `a` may stay before `b`, and on a tie the left run wins. The sort copies the elements once
/// to start with, copies that copy once more as a second buffer, and each merge puts copies of
/// the elements it takes; `dup` makes every copy. Beside the sorted elements comes the position of `xs` each comes from.
fn merge_sort_core<A, F: Fn(&A, &A) -> bool, D: Fn(&A) -> A>(
    xs: &[A],
    first: &F,
    dup: &D,
    Ghost(step): Ghost<spec_fn(A, A) -> bool>,
) -> (r: (Vec<A>, Vec<usize>))
    requires
        callable_on(*first, step, xs@),
        copies_by(*dup, step),
    ensures
        is_permutation(r.1@, xs@.len()),
        r.0@.len() == xs@.len(),
        tracked_span(step, xs@, r.1@, r.0@, 0, xs@.len() as int),
        forall|le: spec_fn(A, A) -> bool|
            sort_premise(*first, step, le, xs@) ==> #[trigger] sorted_span(le, xs@, r.1@, 0, xs@.len() as int),
{
    let n = xs.len();
    let ghost ni = n as int;
    let mut src_el: Vec<A> = Vec::new();
    let mut src: Vec<usize> = Vec::new();
    let mut dst: Vec<usize> = Vec::new();
    let mut k: usize = 0;
    while k < n
        invariant
            n == xs@.len(),
            k <= n,
            src@ =~= positions(k as nat),
            dst@ =~= positions(k as nat),
            src_el@.len() == k,
            copies_by(*dup, step),
            forall|p: int| 0 <= p < k ==> step(xs@[p], #[trigger] src_el@[p]),
        decreases n - k,
    {
        src_el.push(dup(&xs[k]));
        src.push(k);
        dst.push(k);
        k = k + 1;
    }
    let mut dst_el: Vec<A> = Vec::new();
    let mut q: usize = 0;
    while q < n
        invariant
            n == src_el@.len(),
            q <= n,
            dst_el@.len() == q,
            copies_by(*dup, step),
        decreases n - q,
    {
        dst_el.push(dup(&src_el[q]));
        q = q + 1;
    }
    proof {
        assert forall|p: int| 0 <= p < ni implies #[trigger] descends(step, xs@[src@[p] as int], src_el@[p]) by {
            lemma_descends_refl(step, xs@[p]);
            lemma_descends_step(step, xs@[p], xs@[p], src_el@[p]);
        }
    }
    let ghost ident = src@;
    let mut width: usize = 1;
    proof {
        assert forall|m: int| 0 <= m && m * 1 < ni implies #[trigger] run_within(src@, 1, ni, m) by {
            assert(m * 1 == m);
        }
        assert forall|le: spec_fn(A, A) -> bool| #[trigger] sort_premise(*first, step, le, xs@) implies runs_sorted(le, xs@, src@, 1, ni) by {
            assert forall|m: int| 0 <= m && m * 1 < ni implies #[trigger] run_sorted(le, xs@, src@, 1, ni, m) by {
                assert(m * 1 == m);
            }
        }
    }
    while width < n
        invariant
            n == xs@.len(),
            ni == n,
            width >= 1,
            ident == positions(n as nat),
            src@.len() == n,
            dst@.len() == n,
            src_el@.len() == n,
            dst_el@.len() == n,
            callable_on(*first, step, xs@),
            copies_by(*dup, step),
            src@.to_multiset() == ident.to_multiset(),
            runs_within(src@, width as int, ni),
            tracked_span(step, xs@, src@, src_el@, 0, ni),
            forall|le: spec_fn(A, A) -> bool|
                sort_premise(*first, step, le, xs@) ==> #[trigger] runs_sorted(le, xs@, src@, width as int, ni),
        decreases n - width,
    {
        merge_pass(first, dup, Ghost(step), xs, &src, &src_el, &mut dst, &mut dst_el, width);
        proof {
            assert forall|le: spec_fn(A, A) -> bool| sort_premise(*first, step, le, xs@)
                implies #[trigger] runs_sorted(le, xs@, dst@, 2 * width, ni) by {
                assert(runs_sorted(le, xs@, src@, width as int, ni));
                assert(pass_premise(*first, step, le, xs@, src@, width as int));
            }
        }
        std::mem::swap(&mut src, &mut dst);
        std::mem::swap(&mut src_el, &mut dst_el);
        if width > n - width {
            proof {
                assert forall|le: spec_fn(A, A) -> bool| sort_premise(*first, step, le, xs@)
                    implies #[trigger] runs_sorted(le, xs@, src@, n as int, ni) by {
                    lemma_widen_to_all(le, xs@, src@, width as int, ni);
                }
                // Where the positions lie does not depend on the order.
                lemma_widen_to_all(|a: A, b: A| true, xs@, src@, width as int, ni);
            }
            width = n;
        } else {
            width = width * 2;
        }
    }
    proof {
        if n > 0 {
            // Where the positions lie does not depend on the order.
            lemma_single_run(|a: A, b: A| true, xs@, src@, width as int, ni);
            assert forall|le: spec_fn(A, A) -> bool| sort_premise(*first, step, le, xs@)
                implies #[trigger] sorted_span(le, xs@, src@, 0, ni) by {
                lemma_single_run(le, xs@, src@, width as int, ni);
            }
        }
    }
    (src_el, src)
}

/// The positions of `xs` in order `p` cover the whole of `xs` in the stable order of `le`.
pub open spec fn sorted_all<A>(le: spec_fn(A, A) -> bool, xs: Seq<A>, p: Seq<usize>) -> bool {
    sorted_span(le, xs, p, 0, xs.len() as int)
}

/// One clone: `b` could be what `a.clone()` returns.
pub open spec fn clone_step<A: Clone>() -> spec_fn(A, A) -> bool {
    |a: A, b: A| cloned(a, b)
}

/// `out` holds, in the order of the permutation `p`, a value that comes by copying steps from
/// each element of `xs`.
pub open spec fn arranged_as<A>(step: spec_fn(A, A) -> bool, xs: Seq<A>, out: Seq<A>, p: Seq<usize>) -> bool {
    &&& is_permutation(p, xs.len())
    &&& out.len() == xs.len()
    &&& tracked_span(step, xs, p, out, 0, xs.len() as int)
}

/// The order that `<=` of `PartialOrd` gives.
pub open spec fn partial_le<A: PartialOrd>() -> spec_fn(A, A) -> bool {
    |a: A, b: A| a.is_le(&b)
}

/// `lt` is a strict weak order on the elements of `xs`: "not after", `!lt(b, a)`, is a
/// total preorder.
pub open spec fn strict_weak_order_on<A>(lt: spec_fn(A, A) -> bool, xs: Seq<A>) -> bool {
    total_preorder_on(not_after(lt), xs)
}

/// `a` is not after `b` when `lt` does not place `b` before `a`.
pub open spec fn not_after<A>(lt: spec_fn(A, A) -> bool) -> spec_fn(A, A) -> bool {
    |a: A, b: A| !lt(b, a)
}

/// Stable bottom-up merge sort driven by a non-strict "a is not after b" predicate `first`,
/// over clones of the elements. Any predicate yields a permutation of the input; where `first`
/// decides a total preorder on the elements that clones keep, the result is sorted by it, and
/// equivalent elements keep their input order.
pub fn morloc_merge_sort_by<A: Clone, F: Fn(&A, &A) -> bool>(xs: &[A], first: F) -> (out: Vec<A>)
    requires
        callable_on(first, clone_step::<A>(), xs@),
    ensures
        exists|p: Seq<usize>|
            #[trigger] arranged_as(clone_step::<A>(), xs@, out@, p) && forall|le: spec_fn(A, A) -> bool|
                sort_premise(first, clone_step::<A>(), le, xs@) ==> #[trigger] sorted_all(le, xs@, p),
{
    let dup = |x: &A| -> (r: A)
        ensures
            cloned(*x, r),
        { x.clone() };
    let (out, order) = merge_sort_core(xs, &first, &dup, Ghost(clone_step::<A>()));
    assert(arranged_as(clone_step::<A>(), xs@, out@, order@));
    out
}

/// Sorts by `<=`. The result is always a permutation of `xs`; where `<=` follows its
/// specification, keeps clones in place and is a total preorder on the elements, it is
/// sorted, and equal elements keep their input order.
pub fn morloc_sort<A: PartialOrd + Clone>(xs: &[A]) -> (out: Vec<A>)
    ensures
        exists|p: Seq<usize>|
            #[trigger] arranged_as(clone_step::<A>(), xs@, out@, p) && (A::obeys_partial_cmp_spec()
                && clone_respects(clone_step::<A>(), partial_le::<A>()) && total_preorder_on(partial_le::<A>(), xs@)
                ==> sorted_all(partial_le::<A>(), xs@, p)),
{
    let first = |a: &A, b: &A| -> (r: bool)
        ensures
            A::obeys_partial_cmp_spec() ==> r == a.is_le(b),
        { *a <= *b };
    let out = morloc_merge_sort_by(xs, first);
    proof {
        let p = choose|p: Seq<usize>|
            #[trigger] arranged_as(clone_step::<A>(), xs@, out@, p) && forall|le: spec_fn(A, A) -> bool|
                sort_premise(first, clone_step::<A>(), le, xs@) ==> #[trigger] sorted_all(le, xs@, p);
        if A::obeys_partial_cmp_spec() {
            assert(decides(first, partial_le::<A>()));
            if clone_respects(clone_step::<A>(), partial_le::<A>()) && total_preorder_on(partial_le::<A>(), xs@) {
                assert(sort_premise(first, clone_step::<A>(), partial_le::<A>(), xs@));
            }
        }
        assert(arranged_as(clone_step::<A>(), xs@, out@, p));
    }
    out
}

/// Sorts by a "less-than" predicate: `x` precedes `y` when `cmp(x, y)`. The result is always
/// a permutation of `xs`; where `cmp` decides a strict weak order on the elements that clones
/// keep, it is sorted by it, and elements that neither precedes keep their input order.
pub fn morloc_sortBy<A: Clone, F: Fn(&A, &A) -> bool>(cmp: F, xs: &[A]) -> (out: Vec<A>)
    requires
        callable_on(cmp, clone_step::<A>(), xs@),
    ensures
        exists|p: Seq<usize>|
            #[trigger] arranged_as(clone_step::<A>(), xs@, out@, p) && forall|lt: spec_fn(A, A) -> bool|
                decides(cmp, lt) && clone_respects(clone_step::<A>(), not_after(lt)) && strict_weak_order_on(lt, xs@)
                    ==> #[trigger] sorted_all(not_after(lt), xs@, p),
{
    let before = &cmp;
    let first = |a: &A, b: &A| -> (r: bool)
        requires
            before.requires((b, a)),
        ensures
            before.ensures((b, a), !r),
        { !before(b, a) };
    let out = morloc_merge_sort_by(xs, first);
    proof {
        let p = choose|p: Seq<usize>|
            #[trigger] arranged_as(clone_step::<A>(), xs@, out@, p) && forall|le: spec_fn(A, A) -> bool|
                sort_premise(first, clone_step::<A>(), le, xs@) ==> #[trigger] sorted_all(le, xs@, p);
        assert forall|lt: spec_fn(A, A) -> bool|
            decides(cmp, lt) && clone_respects(clone_step::<A>(), not_after(lt)) && strict_weak_order_on(lt, xs@)
            implies #[trigger] sorted_all(not_after(lt), xs@, p) by {
            assert(decides(first, not_after(lt)));
            assert(sort_premise(first, clone_step::<A>(), not_after(lt), xs@));
        }
        assert(arranged_as(clone_step::<A>(), xs@, out@, p));
    }
    out
}

/// Where the `g`-th group, starting at `starts[g]`, ends.
pub open spec fn group_end(starts: Seq<int>, n: int, g: int) -> int {
    if g + 1 < starts.len() {
        starts[g + 1]
    } else {
        n
    }
}

/// The values of `sorted[lo..hi)`.
pub open spec fn values_of<A, B>(sorted: Seq<(A, B)>, lo: int, hi: int) -> Seq<B> {
    Seq::new((hi - lo) as nat, |i: int| sorted[lo + i].1)
}

/// `out` cuts the pairs of `sorted` into groups starting at `starts`: each group holds the
/// key of its first pair and the values of all its pairs, in order; a pair joins the open
/// group when the group's key `==` its key, and opens a new group when not.
pub open spec fn grouped_as<A: PartialEq, B>(sorted: Seq<(A, B)>, starts: Seq<int>, out: Seq<(A, Vec<B>)>) -> bool {
    let n = sorted.len() as int;
    &&& out.len() == starts.len()
    &&& (n == 0 <==> starts.len() == 0)
    &&& starts.len() > 0 ==> starts[0] == 0
    &&& forall|g: int| 0 <= g < starts.len() ==> 0 <= #[trigger] starts[g] < group_end(starts, n, g) <= n
    &&& forall|g: int| 0 <= g < starts.len() ==> (#[trigger] out[g]).0 == sorted[starts[g]].0
    &&& forall|g: int| 0 <= g < starts.len() ==> (#[trigger] out[g]).1@ == values_of(sorted, starts[g], group_end(starts, n, g))
    &&& A::obeys_eq_spec() ==> forall|g: int, k: int|
        0 <= g < starts.len() && starts[g] < k < group_end(starts, n, g)
            ==> #[trigger] sorted[starts[g]].0.eq_spec(&sorted[k].0)
    &&& A::obeys_eq_spec() ==> forall|g: int|
        0 < g < starts.len() ==> !sorted[starts[g - 1]].0.eq_spec(&sorted[#[trigger] starts[g]].0)
}

/// One clone of a pair, element by element, as std clones a tuple: `y.0` could be what
/// `x.0.clone()` returns and `y.1` what `x.1.clone()` returns.
pub open spec fn pair_clone_step<A: Clone, B: Clone>() -> spec_fn((A, B), (A, B)) -> bool {
    |x: (A, B), y: (A, B)| cloned(x.0, y.0) && cloned(x.1, y.1)
}

/// The order on pairs that `<=` gives on their keys.
pub open spec fn key_le<A: PartialOrd, B>() -> spec_fn((A, B), (A, B)) -> bool {
    |x: (A, B), y: (A, B)| x.0.is_le(&y.0)
}

/// Where clones of keys keep their place under `<=`, clones of pairs keep theirs by key.
proof fn lemma_pair_respects<A: PartialOrd + Clone, B: Clone>()
    requires
        clone_respects(clone_step::<A>(), partial_le::<A>()),
    ensures
        clone_respects(pair_clone_step::<A, B>(), key_le::<A, B>()),
{
    let ks = clone_step::<A>();
    let kl = partial_le::<A>();
    let ps = pair_clone_step::<A, B>();
    let pl = key_le::<A, B>();
    assert forall|x: (A, B), y: (A, B), c: (A, B)|
        #![trigger ps(x, y), pl(x, c)]
        ps(x, y) implies pl(x, c) == pl(y, c) && pl(c, x) == pl(c, y) by {
        assert(ks(x.0, y.0));
        assert(kl(x.0, c.0) == kl(y.0, c.0));
        assert(kl(c.0, x.0) == kl(c.0, y.0));
    }
}

/// `==` on `A` holds exactly where `<=` holds both ways.
pub open spec fn eq_matches_le<A: PartialOrd>() -> bool {
    forall|a: A, b: A| #[trigger] a.eq_spec(&b) <==> (a.is_le(&b) && b.is_le(&a))
}

/// The groups' keys strictly ascend: no two groups have equal keys.
pub open spec fn groups_ascend<A: PartialOrd, B>(sorted: Seq<(A, B)>, starts: Seq<int>) -> bool {
    forall|g: int, h: int|
        #![trigger starts[g], starts[h]]
        0 <= g < h < starts.len() ==> sorted[starts[g]].0.is_le(&sorted[starts[h]].0)
            && !sorted[starts[h]].0.is_le(&sorted[starts[g]].0)
            && !sorted[starts[g]].0.eq_spec(&sorted[starts[h]].0)
}

/// Within each group the values keep their input order.
pub open spec fn groups_in_input_order<A, B>(xs: Seq<(A, B)>, p: Seq<usize>, starts: Seq<int>) -> bool {
    forall|g: int, i: int, j: int|
        #![trigger starts[g], p[i], p[j]]
        0 <= g < starts.len() && starts[g] <= i < j < group_end(starts, xs.len() as int, g) ==> p[i] < p[j]
}

/// What groupSort's laws rely on.
pub open spec fn group_premise<A: PartialOrd + Clone, B: Clone>(xs: Seq<(A, B)>) -> bool {
    &&& A::obeys_partial_cmp_spec()
    &&& A::obeys_eq_spec()
    &&& clone_respects(clone_step::<A>(), partial_le::<A>())
    &&& total_preorder_on(key_le::<A, B>(), xs)
    &&& eq_matches_le::<A>()
}

/// Two sorted pairs compare by keys as the pairs of `xs` they come from do.
proof fn lemma_transfer<A: PartialOrd + Clone, B: Clone>(
    xs: Seq<(A, B)>,
    sorted: Seq<(A, B)>,
    p: Seq<usize>,
    a: int,
    b: int,
)
    requires
        arranged_as(pair_clone_step::<A, B>(), xs, sorted, p),
        clone_respects(clone_step::<A>(), partial_le::<A>()),
        0 <= a < xs.len(),
        0 <= b < xs.len(),
    ensures
        key_le::<A, B>()(sorted[a], sorted[b]) == key_le::<A, B>()(xs[p[a] as int], xs[p[b] as int]),
{
    let le = key_le::<A, B>();
    let step = pair_clone_step::<A, B>();
    lemma_pair_respects::<A, B>();
    assert(descends(step, xs[p[a] as int], sorted[a]));
    assert(descends(step, xs[p[b] as int], sorted[b]));
    lemma_descends_respects(step, le, xs[p[a] as int], sorted[a], sorted[b]);
    lemma_descends_respects(step, le, xs[p[b] as int], sorted[b], xs[p[a] as int]);
}

/// In a sorted order, keys never fall.
proof fn lemma_sorted_keys<A: PartialOrd + Clone, B: Clone>(xs: Seq<(A, B)>, p: Seq<usize>, a: int, b: int)
    requires
        is_permutation(p, xs.len()),
        total_preorder_on(key_le::<A, B>(), xs),
        sorted_all(key_le::<A, B>(), xs, p),
        0 <= a <= b < xs.len(),
    ensures
        key_le::<A, B>()(xs[p[a] as int], xs[p[b] as int]),
{
    let le = key_le::<A, B>();
    if a < b {
        assert(precedes(le, xs, p[a] as int, p[b] as int));
    } else {
        lemma_precedes_refl(le, xs, p[a] as int);
    }
}

/// Group starts increase.
proof fn lemma_starts_increase(starts: Seq<int>, n: int, g: int, h: int)
    requires
        forall|x: int| 0 <= x < starts.len() ==> 0 <= #[trigger] starts[x] < group_end(starts, n, x) <= n,
        0 <= g < h < starts.len(),
    ensures
        starts[g] < starts[g + 1] <= starts[h],
    decreases h - g,
{
    assert(starts[g] < group_end(starts, n, g));
    if g + 1 < h {
        lemma_starts_increase(starts, n, g + 1, h);
    }
}

proof fn lemma_group_pair<A: PartialOrd + Clone, B: Clone>(
    xs: Seq<(A, B)>,
    sorted: Seq<(A, B)>,
    p: Seq<usize>,
    starts: Seq<int>,
    out: Seq<(A, Vec<B>)>,
    g: int,
    h: int,
)
    requires
        arranged_as(pair_clone_step::<A, B>(), xs, sorted, p),
        grouped_as(sorted, starts, out),
        group_premise(xs),
        sorted_all(key_le::<A, B>(), xs, p),
        0 <= g < h < starts.len(),
    ensures
        sorted[starts[g]].0.is_le(&sorted[starts[h]].0),
        !sorted[starts[h]].0.is_le(&sorted[starts[g]].0),
        !sorted[starts[g]].0.eq_spec(&sorted[starts[h]].0),
{
    let n = xs.len() as int;
    let le = key_le::<A, B>();
    lemma_starts_increase(starts, n, g, h);
    let sg = starts[g];
    let b = starts[g + 1];
    let sh = starts[h];
    assert(0 <= sh < n);
    lemma_sorted_keys(xs, p, sg, b);
    lemma_sorted_keys(xs, p, b, sh);
    lemma_sorted_keys(xs, p, sg, sh);
    lemma_transfer(xs, sorted, p, sg, sh);
    lemma_transfer(xs, sorted, p, sh, sg);
    lemma_transfer(xs, sorted, p, sg, b);
    lemma_transfer(xs, sorted, p, b, sg);
    assert(!sorted[sg].0.eq_spec(&sorted[b].0));
    assert(sorted[sg].0.eq_spec(&sorted[b].0) <==> (sorted[sg].0.is_le(&sorted[b].0) && sorted[b].0.is_le(&sorted[sg].0)));
    assert(sorted[sg].0.eq_spec(&sorted[sh].0) <==> (sorted[sg].0.is_le(&sorted[sh].0) && sorted[sh].0.is_le(&sorted[sg].0)));
    if sorted[sh].0.is_le(&sorted[sg].0) {
        let ig = p[sg] as int;
        let ib = p[b] as int;
        let ih = p[sh] as int;
        assert(0 <= ig < n && 0 <= ib < n && 0 <= ih < n);
        reveal(total_preorder_on);
        assert(le(xs[ib], xs[ih]) && le(xs[ih], xs[ig]));
        assert(le(xs[ib], xs[ig]));
    }
}

proof fn lemma_group_keeps_order<A: PartialOrd + Clone, B: Clone>(
    xs: Seq<(A, B)>,
    sorted: Seq<(A, B)>,
    p: Seq<usize>,
    starts: Seq<int>,
    out: Seq<(A, Vec<B>)>,
    g: int,
    i: int,
    j: int,
)
    requires
        arranged_as(pair_clone_step::<A, B>(), xs, sorted, p),
        grouped_as(sorted, starts, out),
        group_premise(xs),
        sorted_all(key_le::<A, B>(), xs, p),
        0 <= g < starts.len(),
        starts[g] <= i < j < group_end(starts, xs.len() as int, g),
    ensures
        p[i] < p[j],
{
    let n = xs.len() as int;
    let le = key_le::<A, B>();
    let s = starts[g];
    assert(0 <= s < group_end(starts, n, g) <= n);
    let is = p[s] as int;
    let ii = p[i] as int;
    let ij = p[j] as int;
    assert(0 <= is < n && 0 <= ii < n && 0 <= ij < n);
    assert(sorted[s].0.eq_spec(&sorted[j].0));
    assert(sorted[s].0.eq_spec(&sorted[j].0) <==> (sorted[s].0.is_le(&sorted[j].0) && sorted[j].0.is_le(&sorted[s].0)));
    lemma_transfer(xs, sorted, p, j, s);
    if i > s {
        assert(sorted[s].0.eq_spec(&sorted[i].0));
        assert(sorted[s].0.eq_spec(&sorted[i].0) <==> (sorted[s].0.is_le(&sorted[i].0) && sorted[i].0.is_le(&sorted[s].0)));
        lemma_transfer(xs, sorted, p, s, i);
        reveal(total_preorder_on);
        assert(le(xs[ij], xs[is]) && le(xs[is], xs[ii]));
        assert(le(xs[ij], xs[ii]));
    }
    assert(precedes(le, xs, ii, ij));
}

/// Every pair of `xs` whose key `==` the key a group was opened with lies in that group.
pub open spec fn groups_gather_keys<A: PartialOrd, B>(xs: Seq<(A, B)>, p: Seq<usize>, starts: Seq<int>) -> bool {
    forall|g: int, i: int|
        #![trigger starts[g], xs[i]]
        0 <= g < starts.len() && 0 <= i < xs.len() && xs[i].0.eq_spec(&xs[p[starts[g]] as int].0)
            ==> exists|t: int| starts[g] <= t < group_end(starts, xs.len() as int, g) && #[trigger] p[t] as int == i
}

/// The group that position `t` lies in.
proof fn lemma_find_group(starts: Seq<int>, n: int, t: int, h: int) -> (g: int)
    requires
        starts.len() > 0,
        starts[0] == 0,
        forall|x: int| 0 <= x < starts.len() ==> 0 <= #[trigger] starts[x] < group_end(starts, n, x) <= n,
        0 <= t < group_end(starts, n, h),
        0 <= h < starts.len(),
    ensures
        0 <= g <= h,
        starts[g] <= t < group_end(starts, n, g),
    decreases h,
{
    if starts[h] <= t {
        h
    } else {
        assert(h > 0);
        assert(group_end(starts, n, h - 1) == starts[h]);
        lemma_find_group(starts, n, t, h - 1)
    }
}

/// Each position of `xs` is listed by the permutation `p`.
proof fn lemma_permutation_onto(p: Seq<usize>, n: nat, i: int) -> (t: int)
    requires
        is_permutation(p, n),
        0 <= i < n,
        n <= usize::MAX,
    ensures
        0 <= t < n,
        p[t] as int == i,
{
    let pos = positions(n);
    assert(pos[i] == i as usize);
    pos.to_multiset_ensures();
    p.to_multiset_ensures();
    assert(pos.contains(i as usize));
    assert(pos.to_multiset().count(i as usize) > 0);
    assert(p.to_multiset().count(i as usize) > 0);
    assert(p.contains(i as usize));
    assert(exists|t: int| 0 <= t < p.len() && #[trigger] p[t] == i as usize);
    let t = choose|t: int| 0 <= t < p.len() && #[trigger] p[t] == i as usize;
    assert(p[t] as int == i);
    t
}

proof fn lemma_equiv_trans<A>(le: spec_fn(A, A) -> bool, xs: Seq<A>, a: int, b: int, c: int)
    requires
        total_preorder_on(le, xs),
        0 <= a < xs.len(),
        0 <= b < xs.len(),
        0 <= c < xs.len(),
        le(xs[a], xs[b]) && le(xs[b], xs[a]),
        le(xs[b], xs[c]) && le(xs[c], xs[b]),
    ensures
        le(xs[a], xs[c]) && le(xs[c], xs[a]),
{
    reveal(total_preorder_on);
}

proof fn lemma_group_gathers<A: PartialOrd + Clone, B: Clone>(
    xs: Seq<(A, B)>,
    sorted: Seq<(A, B)>,
    p: Seq<usize>,
    starts: Seq<int>,
    out: Seq<(A, Vec<B>)>,
    g: int,
    i: int,
)
    requires
        arranged_as(pair_clone_step::<A, B>(), xs, sorted, p),
        grouped_as(sorted, starts, out),
        group_premise(xs),
        groups_ascend(sorted, starts),
        xs.len() <= usize::MAX,
        0 <= g < starts.len(),
        0 <= i < xs.len(),
        xs[i].0.eq_spec(&xs[p[starts[g]] as int].0),
    ensures
        exists|t: int| starts[g] <= t < group_end(starts, xs.len() as int, g) && #[trigger] p[t] as int == i,
{
    let n = xs.len() as int;
    let le = key_le::<A, B>();
    let t = lemma_permutation_onto(p, xs.len(), i);
    let h = lemma_find_group(starts, n, t, starts.len() - 1);
    let sg = starts[g];
    let sh = starts[h];
    assert(0 <= sg < n && 0 <= sh < n);
    let ig = p[sg] as int;
    let ih = p[sh] as int;
    assert(0 <= ig < n && 0 <= ih < n);
    // The key of `xs[i]` is equivalent to the key group `g` was opened with.
    assert(eq_matches_le::<A>());
    assert(xs[i].0.eq_spec(&xs[ig].0));
    assert(xs[i].0.is_le(&xs[ig].0) && xs[ig].0.is_le(&xs[i].0));
    assert(le(xs[i], xs[ig]) && le(xs[ig], xs[i]));
    // And to the key group `h` was opened with.
    if sh < t {
        assert(sorted[sh].0.eq_spec(&sorted[t].0));
        assert(sorted[sh].0.is_le(&sorted[t].0) && sorted[t].0.is_le(&sorted[sh].0));
        lemma_transfer(xs, sorted, p, sh, t);
        lemma_transfer(xs, sorted, p, t, sh);
    } else {
        lemma_precedes_refl(le, xs, i);
    }
    assert(le(xs[ih], xs[i]) && le(xs[i], xs[ih]));
    lemma_equiv_trans(le, xs, ih, i, ig);
    lemma_transfer(xs, sorted, p, sh, sg);
    lemma_transfer(xs, sorted, p, sg, sh);
    if h < g {
        assert(!sorted[starts[g]].0.is_le(&sorted[starts[h]].0));
    } else if g < h {
        assert(!sorted[starts[h]].0.is_le(&sorted[starts[g]].0));
    }
    assert(h == g);
}

proof fn lemma_group_laws<A: PartialOrd + Clone, B: Clone>(
    xs: Seq<(A, B)>,
    sorted: Seq<(A, B)>,
    p: Seq<usize>,
    starts: Seq<int>,
    out: Seq<(A, Vec<B>)>,
)
    requires
        arranged_as(pair_clone_step::<A, B>(), xs, sorted, p),
        grouped_as(sorted, starts, out),
        group_premise(xs),
        sorted_all(key_le::<A, B>(), xs, p),
        xs.len() <= usize::MAX,
    ensures
        groups_ascend(sorted, starts),
        groups_in_input_order(xs, p, starts),
        groups_gather_keys(xs, p, starts),
{
    assert forall|g: int, h: int| #![trigger starts[g], starts[h]] 0 <= g < h < starts.len() implies
        sorted[starts[g]].0.is_le(&sorted[starts[h]].0)
            && !sorted[starts[h]].0.is_le(&sorted[starts[g]].0)
            && !sorted[starts[g]].0.eq_spec(&sorted[starts[h]].0) by {
        lemma_group_pair(xs, sorted, p, starts, out, g, h);
    }
    assert forall|g: int, i: int, j: int|
        #![trigger starts[g], p[i], p[j]]
        0 <= g < starts.len() && starts[g] <= i < j < group_end(starts, xs.len() as int, g)
        implies p[i] < p[j] by {
        lemma_group_keeps_order(xs, sorted, p, starts, out, g, i, j);
    }
    assert forall|g: int, i: int|
        #![trigger starts[g], xs[i]]
        0 <= g < starts.len() && 0 <= i < xs.len() && xs[i].0.eq_spec(&xs[p[starts[g]] as int].0)
        implies exists|t: int| starts[g] <= t < group_end(starts, xs.len() as int, g) && #[trigger] p[t] as int == i by {
        lemma_group_gathers(xs, sorted, p, starts, out, g, i);
    }
}

/// Cuts `sorted` into groups of neighbours whose keys the open group's key `==`, moving each
/// key and value into place.
fn group_sorted<A: PartialEq, B>(sorted: Vec<(A, B)>) -> (out: Vec<(A, Vec<B>)>)
    ensures
        exists|starts: Seq<int>| #[trigger] grouped_as(sorted@, starts, out@),
{
    let ghost s0 = sorted@;
    let n = sorted.len();
    let mut sorted = sorted;
    let mut rev: Vec<(A, B)> = Vec::new();
    while sorted.len() > 0
        invariant
            n == s0.len(),
            sorted@ == s0.subrange(0, sorted@.len() as int),
            rev@.len() == n - sorted@.len(),
            forall|i: int| 0 <= i < rev@.len() ==> #[trigger] rev@[i] == s0[n - 1 - i],
        decreases sorted@.len(),
    {
        match sorted.pop() {
            Some(x) => {
                rev.push(x);
            },
            None => {},
        }
    }
    let mut out: Vec<(A, Vec<B>)> = Vec::new();
    if n == 0 {
        proof {
            assert(grouped_as(s0, Seq::<int>::empty(), out@));
        }
        return out;
    }
    let (mut key, b0) = match rev.pop() {
        Some(x) => x,
        None => {
            proof {
                assert(false);
            }
            return out;
        },
    };
    let mut vals: Vec<B> = Vec::new();
    vals.push(b0);
    let mut start: usize = 0;
    let ghost mut starts: Seq<int> = seq![0int];
    let mut k: usize = 1;
    proof {
        assert(vals@ =~= values_of(s0, 0, 1));
    }
    while k < n
        invariant
            n == s0.len(),
            0 <= start < k <= n,
            rev@.len() == n - k,
            forall|i: int| 0 <= i < rev@.len() ==> #[trigger] rev@[i] == s0[n - 1 - i],
            starts.len() == out@.len() + 1,
            starts.last() == start,
            starts[0] == 0,
            key == s0[start as int].0,
            vals@ == values_of(s0, start as int, k as int),
            forall|g: int| 0 <= g < starts.len() ==> 0 <= #[trigger] starts[g] < group_end(starts, k as int, g) <= k,
            forall|g: int| 0 <= g < out@.len() ==> (#[trigger] out@[g]).0 == s0[starts[g]].0,
            forall|g: int| 0 <= g < out@.len() ==> (#[trigger] out@[g]).1@ == values_of(s0, starts[g], group_end(starts, k as int, g)),
            A::obeys_eq_spec() ==> forall|g: int, q: int|
                0 <= g < starts.len() && starts[g] < q < group_end(starts, k as int, g)
                    ==> #[trigger] s0[starts[g]].0.eq_spec(&s0[q].0),
            A::obeys_eq_spec() ==> forall|g: int|
                0 < g < starts.len() ==> !s0[starts[g - 1]].0.eq_spec(&s0[#[trigger] starts[g]].0),
        decreases n - k,
    {
        let (a, b) = match rev.pop() {
            Some(x) => x,
            None => {
                proof {
                    assert(false);
                }
                return out;
            },
        };
        proof {
            assert(a == s0[k as int].0 && b == s0[k as int].1);
        }
        let ghost s_old = starts;
        let ghost start_old = start as int;
        if key == a {
            vals.push(b);
            proof {
                assert(vals@ =~= values_of(s0, start as int, k + 1));
            }
        } else {
            let mut done: Vec<B> = Vec::new();
            std::mem::swap(&mut done, &mut vals);
            out.push((key, done));
            key = a;
            vals.push(b);
            start = k;
            proof {
                starts = starts.push(k as int);
                assert(vals@ =~= values_of(s0, k as int, k + 1));
            }
        }
        k = k + 1;
        proof {
            assert forall|g: int| 0 <= g < starts.len() implies 0 <= #[trigger] starts[g] < group_end(starts, k as int, g) <= k by {
                if g + 1 < s_old.len() {
                    assert(group_end(starts, k as int, g) == group_end(s_old, k - 1, g));
                }
            }
            assert forall|g: int| 0 <= g < out@.len() implies (#[trigger] out@[g]).1@ == values_of(s0, starts[g], group_end(starts, k as int, g)) by {
                if g + 1 < s_old.len() {
                    assert(group_end(starts, k as int, g) == group_end(s_old, k - 1, g));
                }
            }
            if A::obeys_eq_spec() {
                assert forall|g: int, q: int|
                    0 <= g < starts.len() && starts[g] < q < group_end(starts, k as int, g)
                    implies #[trigger] s0[starts[g]].0.eq_spec(&s0[q].0) by {
                    if g + 1 < s_old.len() {
                        assert(group_end(starts, k as int, g) == group_end(s_old, k - 1, g));
                    } else if q < k - 1 {
                        assert(group_end(s_old, k - 1, g) == k - 1);
                    }
                }
            }
        }
    }
    out.push((key, vals));
    proof {
        assert(grouped_as(s0, starts, out@));
    }
    out
}

/// Groups the values by key: keys ascending, values of a key in input order. Equal keys are
/// merged wherever they occur, not only in runs: a stable sort by key brings every occurrence
/// of a key together first. The result always cuts a permutation of copies of the pairs into
/// groups; where `<=` and `==` on the keys follow their specifications, agree with each other,
/// order the keys totally and clones of keys keep their place under `<=`, the groups' keys
/// strictly ascend, every pair whose key `==` a group's key lies in that group, and each group
/// keeps its values in input order.
pub fn morloc_groupSort<A: PartialOrd + Clone, B: Clone>(xs: &[(A, B)]) -> (out: Vec<(A, Vec<B>)>)
    ensures
        exists|sorted: Seq<(A, B)>, p: Seq<usize>, starts: Seq<int>|
            #![trigger grouped_as(sorted, starts, out@), arranged_as(pair_clone_step::<A, B>(), xs@, sorted, p)]
            grouped_as(sorted, starts, out@) && arranged_as(pair_clone_step::<A, B>(), xs@, sorted, p)
            && (A::obeys_partial_cmp_spec() && clone_respects(clone_step::<A>(), partial_le::<A>())
                && total_preorder_on(key_le::<A, B>(), xs@)
                ==> sorted_all(key_le::<A, B>(), xs@, p))
            && (group_premise(xs@) ==> groups_ascend(sorted, starts) && groups_in_input_order(xs@, p, starts)
                && groups_gather_keys(xs@, p, starts)),
{
    let first = |x: &(A, B), y: &(A, B)| -> (r: bool)
        ensures
            A::obeys_partial_cmp_spec() ==> r == x.0.is_le(&y.0),
        { x.0 <= y.0 };
    let dup = |x: &(A, B)| -> (r: (A, B))
        ensures
            cloned(x.0, r.0),
            cloned(x.1, r.1),
        { (x.0.clone(), x.1.clone()) };
    let (sorted, order) = merge_sort_core(xs, &first, &dup, Ghost(pair_clone_step::<A, B>()));
    let ghost sv = sorted@;
    proof {
        if A::obeys_partial_cmp_spec() {
            assert(decides(first, key_le::<A, B>()));
        }
        assert(arranged_as(pair_clone_step::<A, B>(), xs@, sv, order@));
    }
    let out = group_sorted(sorted);
    proof {
        let starts = choose|starts: Seq<int>| #[trigger] grouped_as(sv, starts, out@);
        if clone_respects(clone_step::<A>(), partial_le::<A>()) {
            lemma_pair_respects::<A, B>();
        }
        if A::obeys_partial_cmp_spec() && clone_respects(clone_step::<A>(), partial_le::<A>())
            && total_preorder_on(key_le::<A, B>(), xs@) {
            assert(sort_premise(first, pair_clone_step::<A, B>(), key_le::<A, B>(), xs@));
        }
        if group_premise(xs@) {
            assert(xs@.len() == xs.len());
            assert(sort_premise(first, pair_clone_step::<A, B>(), key_le::<A, B>(), xs@));
            lemma_group_laws(xs@, sv, order@, starts, out@);
        }
        assert(grouped_as(sv, starts, out@));
    }
    out
}

} // verus!
