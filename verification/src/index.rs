use vstd::prelude::*;
use crate::lists::clones_are_copies;
use crate::listops::lemma_blocks_to_reach;

verus! {

// ---------------------------------------------------------------------------
// Indexable / Sliceable: Python-style indices, negative ones counting from the end
// ---------------------------------------------------------------------------

/// The position an index stands for in a list of length `n`: a negative index counts from
/// the end.
pub open spec fn python_index(i: int, n: int) -> int {
    if i < 0 {
        i + n
    } else {
        i
    }
}

/// A negative index counts from the end: `i - len` stands for the same position as `i`, and a
/// non-negative index in range stands for itself.
pub proof fn law_index_counts_from_end(i: int, n: int)
    requires
        0 <= i < n,
    ensures
        python_index(i - n, n) == i,
        python_index(i, n) == i,
{
}

/// The element at index `oi`, negative indices counting from the end. A missing index, or
/// one outside the list, is refused.
pub fn morloc_at<A: Clone>(oi: Option<i64>, xs: &[A]) -> (r: A)
    requires
        xs@.len() <= i64::MAX,
        oi is Some,
        0 <= python_index(oi->0 as int, xs@.len() as int) < xs@.len(),
    ensures
        cloned(xs@[python_index(oi->0 as int, xs@.len() as int)], r),
{
    let i = match oi {
        Some(v) => v,
        None => {
            proof {
                assert(false);
            }
            0
        },
    };
    let n = xs.len() as i64;
    let j = if i < 0 { i + n } else { i };
    xs[j as usize].clone()
}

pub open spec fn clamp_int(v: int, lo: int, hi: int) -> int {
    if v < lo {
        lo
    } else if v > hi {
        hi
    } else {
        v
    }
}

/// The step of a slice: 1 where none is given.
pub open spec fn slice_step(step: Option<i64>) -> int {
    match step {
        Some(k) => k as int,
        None => 1,
    }
}

/// A supplied negative bound wraps from the end; an omitted one takes its default, which
/// for the stop of a reverse slice is -1, "one before index 0", and does not wrap.
pub open spec fn slice_bound(b: Option<i64>, default: int, n: int) -> int {
    match b {
        Some(v) => if v < 0 {
            v + n
        } else {
            v as int
        },
        None => default,
    }
}

/// Where a slice starts: forward slices clamp to `[0, n]`, reverse ones to `[-1, n - 1]`.
pub open spec fn slice_start(start: Option<i64>, step: Option<i64>, n: int) -> int {
    if slice_step(step) > 0 {
        clamp_int(slice_bound(start, 0, n), 0, n)
    } else {
        clamp_int(slice_bound(start, n - 1, n), -1, n - 1)
    }
}

/// Where a slice stops (exclusive).
pub open spec fn slice_stop(stop: Option<i64>, step: Option<i64>, n: int) -> int {
    if slice_step(step) > 0 {
        clamp_int(slice_bound(stop, n, n), 0, n)
    } else {
        clamp_int(slice_bound(stop, -1, n), -1, n - 1)
    }
}

/// Whether position `p` of a slice stepping by `k` has not yet reached the stop `j`.
pub open spec fn before_stop(p: int, j: int, k: int) -> bool {
    (k > 0 && p < j) || (k < 0 && p > j)
}

/// `out` is the slice of `xs` from `i`, stepping by `k`, up to the stop `j`: the elements at
/// `i, i + k, i + 2k, ...` while they have not reached `j`.
pub open spec fn sliced<A: Clone>(xs: Seq<A>, i: int, j: int, k: int, out: Seq<A>) -> bool {
    &&& forall|m: int| 0 <= m < out.len() ==> #[trigger] before_stop(i + m * k, j, k)
    &&& !before_stop(i + out.len() * k, j, k)
    &&& forall|m: int| 0 <= m < out.len() ==> cloned(xs[i + m * k], #[trigger] out[m])
}

/// `out` is the slice of `xs` with the given start, stop and step.
pub open spec fn slice_result<A: Clone>(start: Option<i64>, stop: Option<i64>, step: Option<i64>, xs: Seq<A>, out: Seq<A>) -> bool {
    sliced(xs, slice_start(start, step, xs.len() as int), slice_stop(stop, step, xs.len() as int), slice_step(step), out)
}

/// Python-style slice with optional start, stop and step; negative bounds and a negative
/// step are supported. A zero step is refused.
pub fn morloc_slice<A: Clone>(start: Option<i64>, stop: Option<i64>, step: Option<i64>, xs: &[A]) -> (out: Vec<A>)
    requires
        xs@.len() <= i64::MAX,
        step != Some(0i64),
    ensures
        slice_result(start, stop, step, xs@, out@),
{
    let n = xs.len() as i64;
    let k = match step {
        Some(v) => v,
        None => 1,
    };
    let (i0, j0) = if k > 0 {
        (
            match start {
                Some(v) => v,
                None => 0,
            },
            match stop {
                Some(v) => v,
                None => n,
            },
        )
    } else {
        (
            match start {
                Some(v) => v,
                None => n - 1,
            },
            match stop {
                Some(v) => v,
                None => -1,
            },
        )
    };
    let mut i = i0;
    let mut j = j0;
    if i < 0 && start.is_some() {
        i = i + n;
    }
    if j < 0 && stop.is_some() {
        j = j + n;
    }
    let (lo, hi) = if k > 0 { (0i64, n) } else { (-1i64, n - 1) };
    i = if i < lo { lo } else if i > hi { hi } else { i };
    j = if j < lo { lo } else if j > hi { hi } else { j };
    let ghost gi = i as int;
    let ghost gj = j as int;
    let ghost gk = k as int;
    let ghost ni = n as int;
    assert(gi == slice_start(start, step, ni));
    assert(gj == slice_stop(stop, step, ni));
    let mut out: Vec<A> = Vec::new();
    let mut p: i128 = i as i128;
    let ki = k as i128;
    let ji = j as i128;
    while (ki > 0 && p < ji) || (ki < 0 && p > ji)
        invariant
            ni == xs@.len(),
            gk == ki,
            gk != 0,
            gj == ji,
            lo <= gi <= hi,
            lo <= gj <= hi,
            gk > 0 ==> lo == 0 && hi == ni,
            gk < 0 ==> lo == -1 && hi == ni - 1,
            p == gi + out@.len() * gk,
            -0x1_0000_0000_0000_0000 <= p <= 0x1_0000_0000_0000_0000,
            i64::MIN <= gk <= i64::MAX,
            gk > 0 ==> gi <= p,
            gk < 0 ==> p <= gi,
            forall|m: int| 0 <= m < out@.len() ==> #[trigger] before_stop(gi + m * gk, gj, gk),
            forall|m: int| 0 <= m < out@.len() ==> cloned(xs@[gi + m * gk], #[trigger] out@[m]),
        decreases
            if gk > 0 {
                if p < gj { gj - p } else { 0 }
            } else {
                if p > gj { p - gj } else { 0 }
            },
    {
        let x = xs[p as usize].clone();
        proof {
            let m = out@.len() as int;
            assert(gi + (m + 1) * gk == gi + m * gk + gk) by (nonlinear_arith);
            assert(before_stop(gi + m * gk, gj, gk));
        }
        out.push(x);
        p = p + ki;
    }
    out
}

/// A slice is fixed by where it starts, where it stops and its step, where clones are copies.
proof fn lemma_sliced_unique<A: Clone>(xs: Seq<A>, i: int, j: int, k: int, o1: Seq<A>, o2: Seq<A>)
    requires
        clones_are_copies::<A>(),
        sliced(xs, i, j, k, o1),
        sliced(xs, i, j, k, o2),
    ensures
        o1 == o2,
{
    if o1.len() < o2.len() {
        assert(before_stop(i + o1.len() * k, j, k));
    }
    if o2.len() < o1.len() {
        assert(before_stop(i + o2.len() * k, j, k));
    }
    assert forall|m: int| 0 <= m < o1.len() implies o1[m] == o2[m] by {
        assert(cloned(xs[i + m * k], o1[m]));
        assert(cloned(xs[i + m * k], o2[m]));
    }
    assert(o1 =~= o2);
}

/// Two slices of `xs` whose arguments give the same start, stop and step are the same list.
proof fn lemma_same_slice<A: Clone>(
    xs: Seq<A>,
    start1: Option<i64>,
    stop1: Option<i64>,
    step1: Option<i64>,
    o1: Seq<A>,
    start2: Option<i64>,
    stop2: Option<i64>,
    step2: Option<i64>,
    o2: Seq<A>,
)
    requires
        clones_are_copies::<A>(),
        slice_result(start1, stop1, step1, xs, o1),
        slice_result(start2, stop2, step2, xs, o2),
        slice_step(step1) == slice_step(step2),
        slice_start(start1, step1, xs.len() as int) == slice_start(start2, step2, xs.len() as int),
        slice_stop(stop1, step1, xs.len() as int) == slice_stop(stop2, step2, xs.len() as int),
    ensures
        o1 == o2,
{
    lemma_sliced_unique(
        xs,
        slice_start(start1, step1, xs.len() as int),
        slice_stop(stop1, step1, xs.len() as int),
        slice_step(step1),
        o1,
        o2,
    );
}

/// How many elements a slice from `i` to `j` stepping by `k` takes: `ceil((j - i) / k)`
/// forward, `ceil((i - j) / -k)` in reverse, none where the start is already past the stop.
proof fn lemma_sliced_length<A: Clone>(xs: Seq<A>, i: int, j: int, k: int, out: Seq<A>)
    requires
        k != 0,
        sliced(xs, i, j, k, out),
    ensures
        k > 0 ==> out.len() as int == (if i < j { (j - i + k - 1) / k } else { 0int }),
        k < 0 ==> out.len() as int == (if j < i { (i - j + (-k) - 1) / (-k) } else { 0int }),
{
    let len = out.len() as int;
    assert(i + 0 * k == i) by (nonlinear_arith);
    if len == 0 {
        assert(!before_stop(i + 0 * k, j, k));
    } else {
        assert(before_stop(i + 0 * k, j, k));
        assert(before_stop(i + (len - 1) * k, j, k));
        assert(!before_stop(i + len * k, j, k));
        if k > 0 {
            lemma_blocks_to_reach(j - i, k, len);
        } else {
            let kk = -k;
            assert((len - 1) * k == -((len - 1) * kk) && len * k == -(len * kk)) by (nonlinear_arith)
                requires
                    kk == -k,
            ;
            lemma_blocks_to_reach(i - j, kk, len);
        }
    }
}

/// A slice with bounds inside the list takes the elements at `i, i + k, i + 2k, ...` up to,
/// not including, `j`: `ceil((j - i) / k)` of them going forward from `0 <= i, j <= len`, and
/// `ceil((i - j) / -k)` going backward from `0 <= i, j < len`; none where `i` is already past
/// `j`.
pub proof fn law_slice_takes_every_kth<A: Clone>(i: i64, j: i64, k: i64, xs: Seq<A>, out: Seq<A>)
    requires
        xs.len() <= i64::MAX,
        k > 0 ==> 0 <= i <= xs.len() && 0 <= j <= xs.len(),
        k < 0 ==> 0 <= i < xs.len() && 0 <= j < xs.len(),
        k != 0,
        slice_result(Some(i), Some(j), Some(k), xs, out),
    ensures
        k > 0 ==> out.len() as int == (if i < j { (j - i + k - 1) / (k as int) } else { 0int }),
        k < 0 ==> out.len() as int == (if j < i { (i - j - k - 1) / (-k as int) } else { 0int }),
        forall|m: int| 0 <= m < out.len() ==> cloned(xs[i + m * k], #[trigger] out[m]),
{
    lemma_sliced_length(xs, i as int, j as int, k as int, out);
}

/// A reverse slice with its stop left out runs down through index 0: from `0 <= i < len`
/// it takes `ceil((i + 1) / -k)` elements, `i, i + k, ...`.
pub proof fn law_slice_reverse_reaches_front<A: Clone>(i: i64, k: i64, xs: Seq<A>, out: Seq<A>)
    requires
        xs.len() <= i64::MAX,
        k < 0,
        0 <= i < xs.len(),
        slice_result(Some(i), None, Some(k), xs, out),
    ensures
        out.len() as int == (i + 1 - k - 1) / (-k as int),
        forall|m: int| 0 <= m < out.len() ==> cloned(xs[i + m * k], #[trigger] out[m]),
{
    lemma_sliced_length(xs, i as int, -1, k as int, out);
}

/// A supplied negative bound counts from the end, whatever the sign of the step: `-len <= v < 0`
/// as start gives the slice that `v + len` gives, and so it does as stop.
pub proof fn law_slice_negative_bounds_wrap<A: Clone>(
    xs: Seq<A>,
    v: i64,
    other: Option<i64>,
    step: Option<i64>,
    from_neg_start: Seq<A>,
    from_start: Seq<A>,
    to_neg_stop: Seq<A>,
    to_stop: Seq<A>,
)
    requires
        clones_are_copies::<A>(),
        xs.len() <= i64::MAX,
        step != Some(0i64),
        -(xs.len() as int) <= v < 0,
        slice_result(Some(v), other, step, xs, from_neg_start),
        slice_result(Some((v + xs.len()) as i64), other, step, xs, from_start),
        slice_result(other, Some(v), step, xs, to_neg_stop),
        slice_result(other, Some((v + xs.len()) as i64), step, xs, to_stop),
    ensures
        from_neg_start == from_start,
        to_neg_stop == to_stop,
{
    lemma_same_slice(xs, Some(v), other, step, from_neg_start, Some((v + xs.len()) as i64), other, step, from_start);
    lemma_same_slice(xs, other, Some(v), step, to_neg_stop, other, Some((v + xs.len()) as i64), step, to_stop);
}

/// What an omitted argument stands for: no step is step 1; going forward no start is 0 and no
/// stop is `len`; going backward no start is `len - 1`.
pub proof fn law_slice_defaults<A: Clone>(
    xs: Seq<A>,
    start: Option<i64>,
    stop: Option<i64>,
    k: i64,
    no_step: Seq<A>,
    step_one: Seq<A>,
    no_bounds: Seq<A>,
    explicit_bounds: Seq<A>,
    no_start: Seq<A>,
    last_start: Seq<A>,
)
    requires
        clones_are_copies::<A>(),
        1 <= xs.len() <= i64::MAX,
        k != 0,
        slice_result(start, stop, None, xs, no_step),
        slice_result(start, stop, Some(1), xs, step_one),
        k > 0 ==> slice_result(None, None, Some(k), xs, no_bounds),
        k > 0 ==> slice_result(Some(0), Some(xs.len() as i64), Some(k), xs, explicit_bounds),
        k < 0 ==> slice_result(None, stop, Some(k), xs, no_start),
        k < 0 ==> slice_result(Some((xs.len() - 1) as i64), stop, Some(k), xs, last_start),
    ensures
        no_step == step_one,
        k > 0 ==> no_bounds == explicit_bounds,
        k < 0 ==> no_start == last_start,
{
    lemma_same_slice(xs, start, stop, None, no_step, start, stop, Some(1), step_one);
    if k > 0 {
        lemma_same_slice(xs, None, None, Some(k), no_bounds, Some(0), Some(xs.len() as i64), Some(k), explicit_bounds);
    }
    if k < 0 {
        lemma_same_slice(xs, None, stop, Some(k), no_start, Some((xs.len() - 1) as i64), stop, Some(k), last_start);
    }
}

/// Bounds past either end are clamped: going forward, a start at or past `len` acts as `len`
/// and one below `-len` as 0; going backward, a start at or past `len` acts as `len - 1` and a
/// stop below `-len` as no stop at all.
pub proof fn law_slice_bounds_clamp<A: Clone>(
    xs: Seq<A>,
    v: i64,
    other: Option<i64>,
    k: i64,
    far: Seq<A>,
    end: Seq<A>,
    below_start: Seq<A>,
    from_front: Seq<A>,
    below_stop: Seq<A>,
    no_stop: Seq<A>,
)
    requires
        clones_are_copies::<A>(),
        1 <= xs.len() <= i64::MAX,
        k != 0,
        v >= xs.len() ==> slice_result(Some(v), other, Some(k), xs, far),
        v >= xs.len() ==> slice_result(Some(if k > 0 { xs.len() as i64 } else { (xs.len() - 1) as i64 }), other, Some(k), xs, end),
        v < -(xs.len() as int) && k > 0 ==> slice_result(Some(v), other, Some(k), xs, below_start),
        v < -(xs.len() as int) && k > 0 ==> slice_result(Some(0), other, Some(k), xs, from_front),
        v < -(xs.len() as int) && k < 0 ==> slice_result(other, Some(v), Some(k), xs, below_stop),
        v < -(xs.len() as int) && k < 0 ==> slice_result(other, None, Some(k), xs, no_stop),
    ensures
        v >= xs.len() ==> far == end,
        v < -(xs.len() as int) && k > 0 ==> below_start == from_front,
        v < -(xs.len() as int) && k < 0 ==> below_stop == no_stop,
{
    let n = xs.len() as int;
    if v >= n {
        lemma_same_slice(xs, Some(v), other, Some(k), far, Some(if k > 0 { n as i64 } else { (n - 1) as i64 }), other, Some(k), end);
    }
    if v < -n && k > 0 {
        lemma_same_slice(xs, Some(v), other, Some(k), below_start, Some(0), other, Some(k), from_front);
    }
    if v < -n && k < 0 {
        lemma_same_slice(xs, other, Some(v), Some(k), below_stop, other, None, Some(k), no_stop);
    }
}

} // verus!
