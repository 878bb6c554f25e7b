//! Longest common subsequence of two slices, computed with Hirschberg's
//! divide-and-conquer scheme so that only a few DP rows are live at a time.
//!
//! Results are lists of index pairs `(i, j)` with `a[i] == b[j]`, strictly
//! increasing in both components.
use vstd::prelude::*;
use vstd::std_specs::cmp::PartialEqSpec;
use std::collections::HashSet;

verus! {

broadcast use vstd::std_specs::hash::group_hash_axioms;

/// Element equality as the element type's `==` defines it.
pub open spec fn elem_eq<T: PartialEq>(x: T, y: T) -> bool {
    x.eq_spec(&y)
}

/// Every pair lies in the window `[alo, ahi) x [blo, bhi)` and the pairs are
/// strictly increasing in both components.
pub open spec fn pairs_in_window(p: Seq<(usize, usize)>, alo: int, ahi: int, blo: int, bhi: int) -> bool {
    &&& forall|k: int|
        0 <= k < p.len() ==> alo <= (#[trigger] p[k]).0 < ahi && blo <= p[k].1 < bhi
    &&& forall|k: int, l: int|
        0 <= k < l < p.len() ==> (#[trigger] p[k]).0 < (#[trigger] p[l]).0 && p[k].1 < p[l].1
}

/// Every pair joins two equal elements.
pub open spec fn pairs_match<T: PartialEq>(a: Seq<T>, b: Seq<T>, p: Seq<(usize, usize)>) -> bool {
    forall|k: int| 0 <= k < p.len() ==> elem_eq(a[(#[trigger] p[k]).0 as int], b[p[k].1 as int])
}

/// `p` is a common subsequence of `a` and `b`, given as index pairs.
pub open spec fn is_common_subsequence<T: PartialEq>(a: Seq<T>, b: Seq<T>, p: Seq<(usize, usize)>) -> bool {
    pairs_in_window(p, 0, a.len() as int, 0, b.len() as int) && pairs_match(a, b, p)
}

/// `p` is a common subsequence of `a` and `b` and none is longer.
pub open spec fn is_longest_common_subsequence<T: PartialEq>(
    a: Seq<T>,
    b: Seq<T>,
    p: Seq<(usize, usize)>,
) -> bool {
    &&& is_common_subsequence(a, b, p)
    &&& forall|q: Seq<(usize, usize)>| #[trigger] is_common_subsequence(a, b, q) ==> q.len() <= p.len()
}

/// LCS length of the windows `a[alo..ahi]` and `b[blo..bhi]`, by the usual
/// recurrence on the last elements.
pub open spec fn lcs_len<T: PartialEq>(a: Seq<T>, b: Seq<T>, alo: int, ahi: int, blo: int, bhi: int) -> nat
    decreases (ahi - alo) + (bhi - blo),
{
    if ahi <= alo || bhi <= blo {
        0
    } else if elem_eq(a[ahi - 1], b[bhi - 1]) {
        lcs_len(a, b, alo, ahi - 1, blo, bhi - 1) + 1
    } else {
        let up = lcs_len(a, b, alo, ahi - 1, blo, bhi);
        let left = lcs_len(a, b, alo, ahi, blo, bhi - 1);
        if up >= left {
            up
        } else {
            left
        }
    }
}

/// The same quantity by the recurrence on the first elements.
pub open spec fn lcs_len_front<T: PartialEq>(a: Seq<T>, b: Seq<T>, alo: int, ahi: int, blo: int, bhi: int) -> nat
    decreases (ahi - alo) + (bhi - blo),
{
    if ahi <= alo || bhi <= blo {
        0
    } else if elem_eq(a[alo], b[blo]) {
        lcs_len_front(a, b, alo + 1, ahi, blo + 1, bhi) + 1
    } else {
        let down = lcs_len_front(a, b, alo + 1, ahi, blo, bhi);
        let right = lcs_len_front(a, b, alo, ahi, blo + 1, bhi);
        if down >= right {
            down
        } else {
            right
        }
    }
}

/// LCS length of the whole sequences.
pub open spec fn lcs_length<T: PartialEq>(a: Seq<T>, b: Seq<T>) -> nat {
    lcs_len(a, b, 0, a.len() as int, 0, b.len() as int)
}

pub open spec fn windows_ok<T>(a: Seq<T>, b: Seq<T>, alo: int, ahi: int, blo: int, bhi: int) -> bool {
    &&& 0 <= alo <= ahi <= a.len()
    &&& 0 <= blo <= bhi <= b.len()
    &&& a.len() <= usize::MAX
    &&& b.len() <= usize::MAX
}

/// A common subsequence of two windows is no longer than `lcs_len`.
proof fn lemma_bound<T: PartialEq>(
    a: Seq<T>,
    b: Seq<T>,
    alo: int,
    ahi: int,
    blo: int,
    bhi: int,
    p: Seq<(usize, usize)>,
)
    requires
        pairs_in_window(p, alo, ahi, blo, bhi),
        pairs_match(a, b, p),
    ensures
        p.len() <= lcs_len(a, b, alo, ahi, blo, bhi),
    decreases (ahi - alo) + (bhi - blo),
{
    if p.len() == 0 {
        return;
    }
    let last = p.len() - 1;
    let q = p[last];
    assert(alo <= q.0 < ahi && blo <= q.1 < bhi);
    let pd = p.drop_last();
    if elem_eq(a[ahi - 1], b[bhi - 1]) {
        assert forall|k: int| 0 <= k < pd.len() implies alo <= (#[trigger] pd[k]).0 < ahi - 1 && blo
            <= pd[k].1 < bhi - 1 by {
            assert(p[k] == pd[k]);
            assert(p[k].0 < p[last].0);
        }
        assert forall|k: int, l: int| 0 <= k < l < pd.len() implies (#[trigger] pd[k]).0 < (
        #[trigger] pd[l]).0 && pd[k].1 < pd[l].1 by {
            assert(p[k] == pd[k] && p[l] == pd[l]);
        }
        assert forall|k: int| 0 <= k < pd.len() implies elem_eq(
            a[(#[trigger] pd[k]).0 as int],
            b[pd[k].1 as int],
        ) by {
            assert(p[k] == pd[k]);
        }
        lemma_bound(a, b, alo, ahi - 1, blo, bhi - 1, pd);
    } else if (q.0 as int) < ahi - 1 {
        assert forall|k: int| 0 <= k < p.len() implies alo <= (#[trigger] p[k]).0 < ahi - 1 && blo
            <= p[k].1 < bhi by {
            if k < last {
                assert(p[k].0 < p[last].0);
            }
        }
        lemma_bound(a, b, alo, ahi - 1, blo, bhi, p);
    } else if (q.1 as int) < bhi - 1 {
        assert forall|k: int| 0 <= k < p.len() implies alo <= (#[trigger] p[k]).0 < ahi && blo
            <= p[k].1 < bhi - 1 by {
            if k < last {
                assert(p[k].1 < p[last].1);
            }
        }
        lemma_bound(a, b, alo, ahi, blo, bhi - 1, p);
    } else {
        assert(elem_eq(a[p[last].0 as int], b[p[last].1 as int]));
    }
}

/// A common subsequence of two windows is no longer than `lcs_len_front`.
proof fn lemma_bound_front<T: PartialEq>(
    a: Seq<T>,
    b: Seq<T>,
    alo: int,
    ahi: int,
    blo: int,
    bhi: int,
    p: Seq<(usize, usize)>,
)
    requires
        pairs_in_window(p, alo, ahi, blo, bhi),
        pairs_match(a, b, p),
    ensures
        p.len() <= lcs_len_front(a, b, alo, ahi, blo, bhi),
    decreases (ahi - alo) + (bhi - blo),
{
    if p.len() == 0 {
        return;
    }
    let q = p[0];
    assert(alo <= q.0 < ahi && blo <= q.1 < bhi);
    let pd = p.drop_first();
    if elem_eq(a[alo], b[blo]) {
        assert forall|k: int| 0 <= k < pd.len() implies alo + 1 <= (#[trigger] pd[k]).0 < ahi && blo
            + 1 <= pd[k].1 < bhi by {
            assert(p[k + 1] == pd[k]);
            assert(p[0].0 < p[k + 1].0);
        }
        assert forall|k: int, l: int| 0 <= k < l < pd.len() implies (#[trigger] pd[k]).0 < (
        #[trigger] pd[l]).0 && pd[k].1 < pd[l].1 by {
            assert(p[k + 1] == pd[k] && p[l + 1] == pd[l]);
        }
        assert forall|k: int| 0 <= k < pd.len() implies elem_eq(
            a[(#[trigger] pd[k]).0 as int],
            b[pd[k].1 as int],
        ) by {
            assert(p[k + 1] == pd[k]);
        }
        lemma_bound_front(a, b, alo + 1, ahi, blo + 1, bhi, pd);
    } else if (q.0 as int) > alo {
        assert forall|k: int| 0 <= k < p.len() implies alo + 1 <= (#[trigger] p[k]).0 < ahi && blo
            <= p[k].1 < bhi by {
            if k > 0 {
                assert(p[0].0 < p[k].0);
            }
        }
        lemma_bound_front(a, b, alo + 1, ahi, blo, bhi, p);
    } else if (q.1 as int) > blo {
        assert forall|k: int| 0 <= k < p.len() implies alo <= (#[trigger] p[k]).0 < ahi && blo + 1
            <= p[k].1 < bhi by {
            if k > 0 {
                assert(p[0].1 < p[k].1);
            }
        }
        lemma_bound_front(a, b, alo, ahi, blo + 1, bhi, p);
    } else {
        assert(elem_eq(a[p[0].0 as int], b[p[0].1 as int]));
    }
}

/// A common subsequence of two windows whose length is `lcs_len`.
proof fn lemma_witness<T: PartialEq>(a: Seq<T>, b: Seq<T>, alo: int, ahi: int, blo: int, bhi: int) -> (p: Seq<(usize, usize)>)
    requires
        windows_ok(a, b, alo, ahi, blo, bhi),
    ensures
        pairs_in_window(p, alo, ahi, blo, bhi),
        pairs_match(a, b, p),
        p.len() == lcs_len(a, b, alo, ahi, blo, bhi),
    decreases (ahi - alo) + (bhi - blo),
{
    if ahi == alo || bhi == blo {
        Seq::empty()
    } else if elem_eq(a[ahi - 1], b[bhi - 1]) {
        let w = lemma_witness(a, b, alo, ahi - 1, blo, bhi - 1);
        let q: (usize, usize) = ((ahi - 1) as usize, (bhi - 1) as usize);
        let r = w.push(q);
        assert forall|k: int| 0 <= k < r.len() implies alo <= (#[trigger] r[k]).0 < ahi && blo
            <= r[k].1 < bhi by {
            if k < w.len() {
                assert(r[k] == w[k]);
            }
        }
        assert forall|k: int, l: int| 0 <= k < l < r.len() implies (#[trigger] r[k]).0 < (
        #[trigger] r[l]).0 && r[k].1 < r[l].1 by {
            assert(r[k] == w[k]);
            if l < w.len() {
                assert(r[l] == w[l]);
            }
        }
        assert forall|k: int| 0 <= k < r.len() implies elem_eq(
            a[(#[trigger] r[k]).0 as int],
            b[r[k].1 as int],
        ) by {
            if k < w.len() {
                assert(r[k] == w[k]);
            }
        }
        r
    } else if lcs_len(a, b, alo, ahi - 1, blo, bhi) >= lcs_len(a, b, alo, ahi, blo, bhi - 1) {
        lemma_witness(a, b, alo, ahi - 1, blo, bhi)
    } else {
        lemma_witness(a, b, alo, ahi, blo, bhi - 1)
    }
}

/// A common subsequence of two windows whose length is `lcs_len_front`.
proof fn lemma_witness_front<T: PartialEq>(a: Seq<T>, b: Seq<T>, alo: int, ahi: int, blo: int, bhi: int) -> (p: Seq<(usize, usize)>)
    requires
        windows_ok(a, b, alo, ahi, blo, bhi),
    ensures
        pairs_in_window(p, alo, ahi, blo, bhi),
        pairs_match(a, b, p),
        p.len() == lcs_len_front(a, b, alo, ahi, blo, bhi),
    decreases (ahi - alo) + (bhi - blo),
{
    if ahi == alo || bhi == blo {
        Seq::empty()
    } else if elem_eq(a[alo], b[blo]) {
        let w = lemma_witness_front(a, b, alo + 1, ahi, blo + 1, bhi);
        let q: (usize, usize) = (alo as usize, blo as usize);
        let r = seq![q] + w;
        assert forall|k: int| 0 <= k < r.len() implies alo <= (#[trigger] r[k]).0 < ahi && blo
            <= r[k].1 < bhi by {
            if k > 0 {
                assert(r[k] == w[k - 1]);
            }
        }
        assert forall|k: int, l: int| 0 <= k < l < r.len() implies (#[trigger] r[k]).0 < (
        #[trigger] r[l]).0 && r[k].1 < r[l].1 by {
            assert(r[l] == w[l - 1]);
            if k > 0 {
                assert(r[k] == w[k - 1]);
            }
        }
        assert forall|k: int| 0 <= k < r.len() implies elem_eq(
            a[(#[trigger] r[k]).0 as int],
            b[r[k].1 as int],
        ) by {
            if k > 0 {
                assert(r[k] == w[k - 1]);
            }
        }
        r
    } else if lcs_len_front(a, b, alo + 1, ahi, blo, bhi) >= lcs_len_front(a, b, alo, ahi, blo + 1, bhi) {
        lemma_witness_front(a, b, alo + 1, ahi, blo, bhi)
    } else {
        lemma_witness_front(a, b, alo, ahi, blo + 1, bhi)
    }
}

/// Both recurrences give the same length.
proof fn lemma_front_eq<T: PartialEq>(a: Seq<T>, b: Seq<T>, alo: int, ahi: int, blo: int, bhi: int)
    requires
        windows_ok(a, b, alo, ahi, blo, bhi),
    ensures
        lcs_len_front(a, b, alo, ahi, blo, bhi) == lcs_len(a, b, alo, ahi, blo, bhi),
{
    let w1 = lemma_witness(a, b, alo, ahi, blo, bhi);
    lemma_bound_front(a, b, alo, ahi, blo, bhi, w1);
    let w2 = lemma_witness_front(a, b, alo, ahi, blo, bhi);
    lemma_bound(a, b, alo, ahi, blo, bhi, w2);
}

/// Joining the best answers of the two halves at any split point of `b`
/// gives a common subsequence of the whole windows.
proof fn lemma_split_le<T: PartialEq>(a: Seq<T>, b: Seq<T>, alo: int, mid: int, ahi: int, blo: int, k: int, bhi: int)
    requires
        windows_ok(a, b, alo, ahi, blo, bhi),
        alo <= mid <= ahi,
        blo <= k <= bhi,
    ensures
        lcs_len(a, b, alo, mid, blo, k) + lcs_len(a, b, mid, ahi, k, bhi) <= lcs_len(a, b, alo, ahi, blo, bhi),
{
    let w1 = lemma_witness(a, b, alo, mid, blo, k);
    let w2 = lemma_witness(a, b, mid, ahi, k, bhi);
    let w = w1 + w2;
    assert forall|i: int| 0 <= i < w.len() implies alo <= (#[trigger] w[i]).0 < ahi && blo <= w[i].1
        < bhi by {
        if i < w1.len() {
            assert(w[i] == w1[i]);
        } else {
            assert(w[i] == w2[i - w1.len()]);
        }
    }
    assert forall|i: int, j: int| 0 <= i < j < w.len() implies (#[trigger] w[i]).0 < (
    #[trigger] w[j]).0 && w[i].1 < w[j].1 by {
        if j < w1.len() {
            assert(w[i] == w1[i] && w[j] == w1[j]);
        } else if i < w1.len() {
            assert(w[i] == w1[i] && w[j] == w2[j - w1.len()]);
        } else {
            assert(w[i] == w2[i - w1.len()] && w[j] == w2[j - w1.len()]);
        }
    }
    assert forall|i: int| 0 <= i < w.len() implies elem_eq(
        a[(#[trigger] w[i]).0 as int],
        b[w[i].1 as int],
    ) by {
        if i < w1.len() {
            assert(w[i] == w1[i]);
        } else {
            assert(w[i] == w2[i - w1.len()]);
        }
    }
    lemma_bound(a, b, alo, ahi, blo, bhi, w);
}

/// The number of leading pairs whose first component is below `mid`.
proof fn lemma_prefix_below(p: Seq<(usize, usize)>, mid: int, t0: int) -> (t: int)
    requires
        0 <= t0 <= p.len(),
        forall|k: int| 0 <= k < t0 ==> ((#[trigger] p[k]).0 as int) < mid,
        forall|k: int, l: int| 0 <= k < l < p.len() ==> (#[trigger] p[k]).0 < (#[trigger] p[l]).0,
    ensures
        t0 <= t <= p.len(),
        forall|k: int| 0 <= k < t ==> ((#[trigger] p[k]).0 as int) < mid,
        forall|k: int| t <= k < p.len() ==> ((#[trigger] p[k]).0 as int) >= mid,
    decreases p.len() - t0,
{
    if t0 == p.len() {
        t0
    } else if (p[t0].0 as int) < mid {
        lemma_prefix_below(p, mid, t0 + 1)
    } else {
        assert forall|k: int| t0 <= k < p.len() implies ((#[trigger] p[k]).0 as int) >= mid by {
            if k > t0 {
                assert(p[t0].0 < p[k].0);
            }
        }
        t0
    }
}

/// Some split point of `b` reaches the LCS length of the whole windows.
proof fn lemma_split_exists<T: PartialEq>(a: Seq<T>, b: Seq<T>, alo: int, mid: int, ahi: int, blo: int, bhi: int) -> (k: int)
    requires
        windows_ok(a, b, alo, ahi, blo, bhi),
        alo <= mid <= ahi,
    ensures
        blo <= k <= bhi,
        lcs_len(a, b, alo, mid, blo, k) + lcs_len(a, b, mid, ahi, k, bhi) >= lcs_len(a, b, alo, ahi, blo, bhi),
{
    let w = lemma_witness(a, b, alo, ahi, blo, bhi);
    let t = lemma_prefix_below(w, mid, 0);
    let k: int = if t < w.len() { w[t].1 as int } else { bhi };
    let w1 = w.subrange(0, t);
    let w2 = w.subrange(t, w.len() as int);
    assert forall|i: int| 0 <= i < w1.len() implies alo <= (#[trigger] w1[i]).0 < mid && blo
        <= w1[i].1 < k by {
        assert(w1[i] == w[i]);
        if t < w.len() {
            assert(w[i].1 < w[t].1);
        }
    }
    assert forall|i: int, j: int| 0 <= i < j < w1.len() implies (#[trigger] w1[i]).0 < (
    #[trigger] w1[j]).0 && w1[i].1 < w1[j].1 by {
        assert(w1[i] == w[i] && w1[j] == w[j]);
    }
    assert forall|i: int| 0 <= i < w1.len() implies elem_eq(
        a[(#[trigger] w1[i]).0 as int],
        b[w1[i].1 as int],
    ) by {
        assert(w1[i] == w[i]);
    }
    assert forall|i: int| 0 <= i < w2.len() implies mid <= (#[trigger] w2[i]).0 < ahi && k
        <= w2[i].1 < bhi by {
        assert(w2[i] == w[i + t]);
        if i > 0 {
            assert(w[t].1 < w[i + t].1);
        }
    }
    assert forall|i: int, j: int| 0 <= i < j < w2.len() implies (#[trigger] w2[i]).0 < (
    #[trigger] w2[j]).0 && w2[i].1 < w2[j].1 by {
        assert(w2[i] == w[i + t] && w2[j] == w[j + t]);
    }
    assert forall|i: int| 0 <= i < w2.len() implies elem_eq(
        a[(#[trigger] w2[i]).0 as int],
        b[w2[i].1 as int],
    ) by {
        assert(w2[i] == w[i + t]);
    }
    lemma_bound(a, b, alo, mid, blo, k, w1);
    lemma_bound(a, b, mid, ahi, k, bhi, w2);
    k
}

/// Any common subsequence is at most `lcs_length` long.
pub proof fn lemma_common_subsequence_bounded<T: PartialEq>(a: Seq<T>, b: Seq<T>, p: Seq<(usize, usize)>)
    requires
        is_common_subsequence(a, b, p),
    ensures
        p.len() <= lcs_length(a, b),
{
    lemma_bound(a, b, 0, a.len() as int, 0, b.len() as int, p);
}

/// Compares two elements with the element type's `==`.
fn same<T: PartialEq>(x: &T, y: &T) -> (r: bool)
    ensures
        T::obeys_eq_spec() ==> r == elem_eq(*x, *y),
{
    x.eq(y)
}

/// A vector of `len` zeros.
fn zeros(len: usize) -> (v: Vec<usize>)
    ensures
        v@.len() == len,
        forall|i: int| 0 <= i < len ==> v@[i] == 0,
{
    let mut v: Vec<usize> = Vec::new();
    let mut i: usize = 0;
    while i < len
        invariant
            i <= len,
            v@.len() == i,
            forall|k: int| 0 <= k < i ==> v@[k] == 0,
        decreases len - i,
    {
        v.push(0);
        i += 1;
    }
    v
}

/// Last DP row for the windows: `row[j]` is the LCS length of
/// `a[alo..ahi]` and `b[blo..blo + j]`. Two rows are kept live.
fn compute_lcs_row<T: PartialEq>(a: &[T], b: &[T], alo: usize, ahi: usize, blo: usize, bhi: usize) -> (row: Vec<usize>)
    requires
        alo <= ahi <= a@.len(),
        blo <= bhi <= b@.len(),
        a@.len() < usize::MAX,
        b@.len() < usize::MAX,
    ensures
        row@.len() == bhi - blo + 1,
        forall|j: int| 0 <= j < row@.len() ==> row@[j] <= j,
        T::obeys_eq_spec() ==> forall|j: int|
            0 <= j < row@.len() ==> row@[j] == lcs_len(a@, b@, alo as int, ahi as int, blo as int, blo + j),
{
    let n = bhi - blo;
    let mut prev = zeros(n + 1);
    let mut curr = zeros(n + 1);
    let mut i = alo;
    while i < ahi
        invariant
            alo <= i <= ahi <= a@.len(),
            blo <= bhi <= b@.len(),
            a@.len() < usize::MAX,
            b@.len() < usize::MAX,
            n == bhi - blo,
            prev@.len() == n + 1,
            curr@.len() == n + 1,
            curr@[0] == 0,
            forall|j: int| 0 <= j <= n ==> prev@[j] <= j,
            forall|j: int| 0 <= j <= n ==> curr@[j] <= j,
            T::obeys_eq_spec() ==> forall|j: int|
                0 <= j <= n ==> prev@[j] == lcs_len(a@, b@, alo as int, i as int, blo as int, blo + j),
        decreases ahi - i,
    {
        let mut j: usize = 1;
        while j <= n
            invariant
                alo <= i < ahi <= a@.len(),
                blo <= bhi <= b@.len(),
                a@.len() < usize::MAX,
                b@.len() < usize::MAX,
                n == bhi - blo,
                1 <= j <= n + 1,
                prev@.len() == n + 1,
                curr@.len() == n + 1,
                curr@[0] == 0,
                forall|jj: int| 0 <= jj <= n ==> prev@[jj] <= jj,
                forall|jj: int| 0 <= jj <= n ==> curr@[jj] <= jj,
                T::obeys_eq_spec() ==> forall|jj: int|
                    0 <= jj <= n ==> prev@[jj] == lcs_len(a@, b@, alo as int, i as int, blo as int, blo + jj),
                T::obeys_eq_spec() ==> forall|jj: int|
                    0 <= jj < j ==> curr@[jj] == lcs_len(a@, b@, alo as int, i + 1, blo as int, blo + jj),
            decreases n + 1 - j,
        {
            let v = if same(&a[i], &b[blo + j - 1]) {
                prev[j - 1] + 1
            } else {
                let up = prev[j];
                let left = curr[j - 1];
                if up >= left {
                    up
                } else {
                    left
                }
            };
            curr.set(j, v);
            j += 1;
        }
        std::mem::swap(&mut prev, &mut curr);
        i += 1;
    }
    prev
}

/// `row[j]` is the LCS length of `a[alo..ahi]` and `b[blo + j..bhi]`; the DP
/// runs from the ends of both windows.
fn compute_lcs_row_reverse<T: PartialEq>(a: &[T], b: &[T], alo: usize, ahi: usize, blo: usize, bhi: usize) -> (row: Vec<usize>)
    requires
        alo <= ahi <= a@.len(),
        blo <= bhi <= b@.len(),
        a@.len() < usize::MAX,
        b@.len() < usize::MAX,
    ensures
        row@.len() == bhi - blo + 1,
        forall|j: int| 0 <= j < row@.len() ==> row@[j] <= (bhi - blo) - j,
        T::obeys_eq_spec() ==> forall|j: int|
            0 <= j < row@.len() ==> row@[j] == lcs_len(a@, b@, alo as int, ahi as int, blo + j, bhi as int),
{
    let n = bhi - blo;
    let m = ahi - alo;
    let mut prev = zeros(n + 1);
    let mut curr = zeros(n + 1);
    let mut i: usize = 0;
    while i < m
        invariant
            alo <= ahi <= a@.len(),
            blo <= bhi <= b@.len(),
            a@.len() < usize::MAX,
            b@.len() < usize::MAX,
            n == bhi - blo,
            m == ahi - alo,
            i <= m,
            prev@.len() == n + 1,
            curr@.len() == n + 1,
            curr@[0] == 0,
            forall|j: int| 0 <= j <= n ==> prev@[j] <= j,
            forall|j: int| 0 <= j <= n ==> curr@[j] <= j,
            T::obeys_eq_spec() ==> forall|j: int|
                0 <= j <= n ==> prev@[j] == lcs_len_front(a@, b@, ahi - i, ahi as int, bhi - j, bhi as int),
        decreases m - i,
    {
        let mut j: usize = 0;
        while j < n
            invariant
                alo <= ahi <= a@.len(),
                blo <= bhi <= b@.len(),
                a@.len() < usize::MAX,
                b@.len() < usize::MAX,
                n == bhi - blo,
                m == ahi - alo,
                i < m,
                j <= n,
                prev@.len() == n + 1,
                curr@.len() == n + 1,
                curr@[0] == 0,
                forall|jj: int| 0 <= jj <= n ==> prev@[jj] <= jj,
                forall|jj: int| 0 <= jj <= n ==> curr@[jj] <= jj,
                T::obeys_eq_spec() ==> forall|jj: int|
                    0 <= jj <= n ==> prev@[jj] == lcs_len_front(a@, b@, ahi - i, ahi as int, bhi - jj, bhi as int),
                T::obeys_eq_spec() ==> forall|jj: int|
                    0 <= jj <= j ==> curr@[jj] == lcs_len_front(a@, b@, ahi - i - 1, ahi as int, bhi - jj, bhi as int),
            decreases n - j,
        {
            let ai = ahi - 1 - i;
            let bj = bhi - 1 - j;
            let v = if same(&a[ai], &b[bj]) {
                prev[j] + 1
            } else {
                let down = prev[j + 1];
                let right = curr[j];
                if down >= right {
                    down
                } else {
                    right
                }
            };
            curr.set(j + 1, v);
            j += 1;
        }
        std::mem::swap(&mut prev, &mut curr);
        i += 1;
    }
    let mut row: Vec<usize> = Vec::new();
    let mut j: usize = 0;
    while j <= n
        invariant
            alo <= ahi <= a@.len(),
            blo <= bhi <= b@.len(),
            a@.len() < usize::MAX,
            b@.len() < usize::MAX,
            n == bhi - blo,
            m == ahi - alo,
            j <= n + 1,
            prev@.len() == n + 1,
            row@.len() == j,
            forall|jj: int| 0 <= jj <= n ==> prev@[jj] <= jj,
            forall|jj: int| 0 <= jj < j ==> row@[jj] == prev@[n - jj],
        decreases n + 1 - j,
    {
        row.push(prev[n - j]);
        j += 1;
    }
    proof {
        if T::obeys_eq_spec() {
            assert forall|jj: int| 0 <= jj < row@.len() implies row@[jj] == lcs_len(
                a@,
                b@,
                alo as int,
                ahi as int,
                blo + jj,
                bhi as int,
            ) by {
                assert(row@[jj] == prev@[n - jj]);
                assert(ahi - m == alo);
                lemma_front_eq(a@, b@, alo as int, ahi as int, blo + jj, bhi as int);
            }
        }
    }
    row
}

/// Full DP table for the windows followed by a walk back from the bottom-right
/// corner; used for windows where one side is short.
fn backtrack_two_rows<T: PartialEq>(a: &[T], b: &[T], alo: usize, ahi: usize, blo: usize, bhi: usize) -> (r: Vec<(usize, usize)>)
    requires
        alo <= ahi <= a@.len(),
        blo <= bhi <= b@.len(),
        a@.len() < usize::MAX,
        b@.len() < usize::MAX,
    ensures
        pairs_in_window(r@, alo as int, ahi as int, blo as int, bhi as int),
        T::obeys_eq_spec() ==> pairs_match(a@, b@, r@),
        T::obeys_eq_spec() ==> r@.len() == lcs_len(a@, b@, alo as int, ahi as int, blo as int, bhi as int),
{
    let m = ahi - alo;
    let n = bhi - blo;
    let mut dp: Vec<Vec<usize>> = Vec::new();
    dp.push(zeros(n + 1));
    let mut i: usize = 1;
    while i <= m
        invariant
            alo <= ahi <= a@.len(),
            blo <= bhi <= b@.len(),
            a@.len() < usize::MAX,
            b@.len() < usize::MAX,
            m == ahi - alo,
            n == bhi - blo,
            1 <= i <= m + 1,
            dp@.len() == i,
            forall|ii: int| 0 <= ii < i ==> (#[trigger] dp@[ii])@.len() == n + 1,
            forall|ii: int, jj: int| 0 <= ii < i && 0 <= jj <= n ==> #[trigger] dp@[ii]@[jj] <= jj,
            T::obeys_eq_spec() ==> forall|ii: int, jj: int|
                0 <= ii < i && 0 <= jj <= n ==> #[trigger] dp@[ii]@[jj] == lcs_len(
                    a@,
                    b@,
                    alo as int,
                    alo + ii,
                    blo as int,
                    blo + jj,
                ),
        decreases m + 1 - i,
    {
        let mut row: Vec<usize> = Vec::new();
        row.push(0);
        let mut j: usize = 1;
        while j <= n
            invariant
                alo <= ahi <= a@.len(),
                blo <= bhi <= b@.len(),
                a@.len() < usize::MAX,
                b@.len() < usize::MAX,
                m == ahi - alo,
                n == bhi - blo,
                1 <= i <= m,
                dp@.len() == i,
                forall|ii: int| 0 <= ii < i ==> (#[trigger] dp@[ii])@.len() == n + 1,
                forall|ii: int, jj: int| 0 <= ii < i && 0 <= jj <= n ==> #[trigger] dp@[ii]@[jj] <= jj,
                T::obeys_eq_spec() ==> forall|ii: int, jj: int|
                    0 <= ii < i && 0 <= jj <= n ==> #[trigger] dp@[ii]@[jj] == lcs_len(
                        a@,
                        b@,
                        alo as int,
                        alo + ii,
                        blo as int,
                        blo + jj,
                    ),
                1 <= j <= n + 1,
                row@.len() == j,
                forall|jj: int| 0 <= jj < j ==> row@[jj] <= jj,
                T::obeys_eq_spec() ==> forall|jj: int|
                    0 <= jj < j ==> row@[jj] == lcs_len(a@, b@, alo as int, alo + i, blo as int, blo + jj),
            decreases n + 1 - j,
        {
            let above = &dp[i - 1];
            let v = if same(&a[alo + i - 1], &b[blo + j - 1]) {
                above[j - 1] + 1
            } else {
                let up = above[j];
                let left = row[j - 1];
                if up >= left {
                    up
                } else {
                    left
                }
            };
            row.push(v);
            j += 1;
        }
        dp.push(row);
        i += 1;
    }
    let mut res: Vec<(usize, usize)> = Vec::new();
    let mut i = m;
    let mut j = n;
    while i > 0 && j > 0
        invariant
            alo <= ahi <= a@.len(),
            blo <= bhi <= b@.len(),
            m == ahi - alo,
            n == bhi - blo,
            i <= m,
            j <= n,
            dp@.len() == m + 1,
            forall|ii: int| 0 <= ii <= m ==> (#[trigger] dp@[ii])@.len() == n + 1,
            T::obeys_eq_spec() ==> forall|ii: int, jj: int|
                0 <= ii <= m && 0 <= jj <= n ==> #[trigger] dp@[ii]@[jj] == lcs_len(
                    a@,
                    b@,
                    alo as int,
                    alo + ii,
                    blo as int,
                    blo + jj,
                ),
            forall|k: int|
                0 <= k < res@.len() ==> alo + i <= (#[trigger] res@[k]).0 < ahi && blo + j <= res@[k].1 < bhi,
            forall|k: int, l: int|
                0 <= k < l < res@.len() ==> (#[trigger] res@[k]).0 > (#[trigger] res@[l]).0 && res@[k].1
                    > res@[l].1,
            T::obeys_eq_spec() ==> pairs_match(a@, b@, res@),
            T::obeys_eq_spec() ==> res@.len() + lcs_len(a@, b@, alo as int, alo + i, blo as int, blo + j)
                == lcs_len(a@, b@, alo as int, ahi as int, blo as int, bhi as int),
        decreases i + j,
    {
        if same(&a[alo + i - 1], &b[blo + j - 1]) {
            let ghost old_res = res@;
            res.push((alo + i - 1, blo + j - 1));
            proof {
                if T::obeys_eq_spec() {
                    assert forall|k: int| 0 <= k < res@.len() implies elem_eq(
                        a@[(#[trigger] res@[k]).0 as int],
                        b@[res@[k].1 as int],
                    ) by {
                        if k < old_res.len() {
                            assert(res@[k] == old_res[k]);
                        }
                    }
                }
                assert forall|k: int, l: int| 0 <= k < l < res@.len() implies (#[trigger] res@[k]).0
                    > (#[trigger] res@[l]).0 && res@[k].1 > res@[l].1 by {
                    assert(res@[k] == old_res[k]);
                    if l < old_res.len() {
                        assert(res@[l] == old_res[l]);
                    }
                }
            }
            i -= 1;
            j -= 1;
        } else if dp[i - 1][j] > dp[i][j - 1] {
            i -= 1;
        } else {
            j -= 1;
        }
    }
    let mut out: Vec<(usize, usize)> = Vec::new();
    let len = res.len();
    let mut t: usize = 0;
    while t < len
        invariant
            len == res@.len(),
            t <= len,
            out@.len() == t,
            forall|k: int| 0 <= k < t ==> out@[k] == res@[len - 1 - k],
        decreases len - t,
    {
        out.push(res[len - 1 - t]);
        t += 1;
    }
    proof {
        assert forall|k: int| 0 <= k < out@.len() implies alo <= (#[trigger] out@[k]).0 < ahi && blo
            <= out@[k].1 < bhi by {
            assert(out@[k] == res@[len - 1 - k]);
        }
        assert forall|k: int, l: int| 0 <= k < l < out@.len() implies (#[trigger] out@[k]).0 < (
        #[trigger] out@[l]).0 && out@[k].1 < out@[l].1 by {
            assert(out@[k] == res@[len - 1 - k]);
            assert(out@[l] == res@[len - 1 - l]);
        }
        if T::obeys_eq_spec() {
            assert forall|k: int| 0 <= k < out@.len() implies elem_eq(
                a@[(#[trigger] out@[k]).0 as int],
                b@[out@[k].1 as int],
            ) by {
                assert(out@[k] == res@[len - 1 - k]);
            }
        }
    }
    out
}

/// LCS of two short windows: the two-row DP pass, then the table walk.
fn standard_lcs_dp<T: PartialEq>(a: &[T], b: &[T], alo: usize, ahi: usize, blo: usize, bhi: usize) -> (r: Vec<(usize, usize)>)
    requires
        alo <= ahi <= a@.len(),
        blo <= bhi <= b@.len(),
        a@.len() < usize::MAX,
        b@.len() < usize::MAX,
    ensures
        pairs_in_window(r@, alo as int, ahi as int, blo as int, bhi as int),
        T::obeys_eq_spec() ==> pairs_match(a@, b@, r@),
        T::obeys_eq_spec() ==> r@.len() == lcs_len(a@, b@, alo as int, ahi as int, blo as int, bhi as int),
{
    let _last_row = compute_lcs_row(a, b, alo, ahi, blo, bhi);
    backtrack_two_rows(a, b, alo, ahi, blo, bhi)
}

/// Split point `j` of `b[blo..bhi]` that maximises
/// `LCS(a[alo..mid], b[blo..blo+j]) + LCS(a[mid..ahi], b[blo+j..bhi])`.
fn find_optimal_split<T: PartialEq>(
    a: &[T],
    b: &[T],
    alo: usize,
    mid: usize,
    ahi: usize,
    blo: usize,
    bhi: usize,
) -> (best_j: usize)
    requires
        alo <= mid <= ahi <= a@.len(),
        blo <= bhi <= b@.len(),
        a@.len() < usize::MAX,
        b@.len() < usize::MAX,
    ensures
        best_j <= bhi - blo,
        T::obeys_eq_spec() ==> lcs_len(a@, b@, alo as int, mid as int, blo as int, blo + best_j) + lcs_len(
            a@,
            b@,
            mid as int,
            ahi as int,
            blo + best_j,
            bhi as int,
        ) == lcs_len(a@, b@, alo as int, ahi as int, blo as int, bhi as int),
{
    let n = bhi - blo;
    let left_scores = compute_lcs_row(a, b, alo, mid, blo, bhi);
    let right_scores = compute_lcs_row_reverse(a, b, mid, ahi, blo, bhi);
    let mut best_j: usize = 0;
    let mut best_score: usize = 0;
    let mut j: usize = 0;
    while j <= n
        invariant
            n == bhi - blo,
            n < usize::MAX,
            left_scores@.len() == n + 1,
            right_scores@.len() == n + 1,
            forall|jj: int| 0 <= jj <= n ==> left_scores@[jj] <= jj,
            forall|jj: int| 0 <= jj <= n ==> right_scores@[jj] <= n - jj,
            j <= n + 1,
            best_j <= n,
            best_j < j || (j == 0 && best_j == 0 && best_score == 0),
            j > 0 ==> best_score == left_scores@[best_j as int] + right_scores@[best_j as int],
            forall|jj: int| 0 <= jj < j ==> left_scores@[jj] + right_scores@[jj] <= best_score,
        decreases n + 1 - j,
    {
        let score = left_scores[j] + right_scores[j];
        if score > best_score || j == 0 {
            best_score = score;
            best_j = j;
        }
        j += 1;
    }
    proof {
        if T::obeys_eq_spec() {
            let k = lemma_split_exists(a@, b@, alo as int, mid as int, ahi as int, blo as int, bhi as int);
            assert(left_scores@[k - blo] + right_scores@[k - blo] <= best_score);
            lemma_split_le(a@, b@, alo as int, mid as int, ahi as int, blo as int, blo + best_j, bhi as int);
        }
    }
    best_j
}

/// Hirschberg's scheme on the windows `a[alo..ahi]`, `b[blo..bhi]`; the
/// pairs carry absolute indices.
fn hirschberg_recursive<T: PartialEq>(a: &[T], b: &[T], alo: usize, ahi: usize, blo: usize, bhi: usize) -> (r: Vec<(usize, usize)>)
    requires
        alo <= ahi <= a@.len(),
        blo <= bhi <= b@.len(),
        a@.len() < usize::MAX,
        b@.len() < usize::MAX,
    ensures
        pairs_in_window(r@, alo as int, ahi as int, blo as int, bhi as int),
        T::obeys_eq_spec() ==> pairs_match(a@, b@, r@),
        T::obeys_eq_spec() ==> r@.len() == lcs_len(a@, b@, alo as int, ahi as int, blo as int, bhi as int),
    decreases ahi - alo,
{
    let m = ahi - alo;
    let n = bhi - blo;
    if m == 0 {
        return Vec::new();
    }
    if n == 0 {
        return Vec::new();
    }
    if m <= 64 || n <= 64 {
        return standard_lcs_dp(a, b, alo, ahi, blo, bhi);
    }
    let mid = alo + m / 2;
    let split = blo + find_optimal_split(a, b, alo, mid, ahi, blo, bhi);
    let mut result = hirschberg_recursive(a, b, alo, mid, blo, split);
    let mut rest = hirschberg_recursive(a, b, mid, ahi, split, bhi);
    let ghost w1 = result@;
    let ghost w2 = rest@;
    result.append(&mut rest);
    proof {
        assert(result@ == w1 + w2);
        assert forall|i: int| 0 <= i < result@.len() implies alo <= (#[trigger] result@[i]).0 < ahi
            && blo <= result@[i].1 < bhi by {
            if i < w1.len() {
                assert(result@[i] == w1[i]);
            } else {
                assert(result@[i] == w2[i - w1.len()]);
            }
        }
        assert forall|i: int, j: int| 0 <= i < j < result@.len() implies (#[trigger] result@[i]).0 < (
        #[trigger] result@[j]).0 && result@[i].1 < result@[j].1 by {
            if j < w1.len() {
                assert(result@[i] == w1[i] && result@[j] == w1[j]);
            } else if i < w1.len() {
                assert(result@[i] == w1[i] && result@[j] == w2[j - w1.len()]);
            } else {
                assert(result@[i] == w2[i - w1.len()] && result@[j] == w2[j - w1.len()]);
            }
        }
        if T::obeys_eq_spec() {
            assert forall|i: int| 0 <= i < result@.len() implies elem_eq(
                a@[(#[trigger] result@[i]).0 as int],
                b@[result@[i].1 as int],
            ) by {
                if i < w1.len() {
                    assert(result@[i] == w1[i]);
                } else {
                    assert(result@[i] == w2[i - w1.len()]);
                }
            }
        }
    }
    result
}

/// Hirschberg's LCS algorithm.
pub struct HirschbergLCS;

impl HirschbergLCS {
    /// Longest common subsequence of `a` and `b` as index pairs `(i, j)`.
    /// Short inputs (one side at most 64 long) use the plain DP table;
    /// longer ones use Hirschberg's divide and conquer.
    pub fn compute_lcs<T: PartialEq + Clone>(a: &[T], b: &[T]) -> (r: Vec<(usize, usize)>)
        requires
            a@.len() < usize::MAX,
            b@.len() < usize::MAX,
        ensures
            pairs_in_window(r@, 0, a@.len() as int, 0, b@.len() as int),
            T::obeys_eq_spec() ==> is_longest_common_subsequence(a@, b@, r@),
            T::obeys_eq_spec() ==> r@.len() == lcs_length(a@, b@),
    {
        if a.len() == 0 || b.len() == 0 {
            let r: Vec<(usize, usize)> = Vec::new();
            proof {
                assert forall|q: Seq<(usize, usize)>| #[trigger] is_common_subsequence(a@, b@, q) implies q.len()
                    <= r@.len() by {
                    lemma_common_subsequence_bounded(a@, b@, q);
                }
            }
            return r;
        }
        let r = if a.len() <= 64 || b.len() <= 64 {
            standard_lcs_dp(a, b, 0, a.len(), 0, b.len())
        } else {
            hirschberg_recursive(a, b, 0, a.len(), 0, b.len())
        };
        proof {
            if T::obeys_eq_spec() {
                assert forall|q: Seq<(usize, usize)>| #[trigger] is_common_subsequence(a@, b@, q) implies q.len()
                    <= r@.len() by {
                    lemma_common_subsequence_bounded(a@, b@, q);
                }
            }
        }
        r
    }
}

/// Indices used as first components of the pairs.
pub open spec fn first_components(p: Seq<(usize, usize)>) -> Set<usize> {
    Set::new(|x: usize| exists|k: int| 0 <= k < p.len() && (#[trigger] p[k]).0 == x)
}

/// Indices used as second components of the pairs.
pub open spec fn second_components(p: Seq<(usize, usize)>) -> Set<usize> {
    Set::new(|x: usize| exists|k: int| 0 <= k < p.len() && (#[trigger] p[k]).1 == x)
}

/// `only` lists, in increasing order, exactly the indices below `len` that
/// are not in `used`.
pub open spec fn lists_unused(only: Seq<usize>, len: int, used: Set<usize>) -> bool {
    &&& forall|k: int, l: int| 0 <= k < l < only.len() ==> only[k] < only[l]
    &&& forall|k: int| 0 <= k < only.len() ==> only[k] < len && !used.contains(#[trigger] only[k])
    &&& forall|i: usize| i < len && !used.contains(i) ==> #[trigger] only.contains(i)
}

/// Result of an LCS alignment.
#[derive(Debug, Clone)]
pub struct OptimizedLcsResult {
    /// LCS index pairs.
    pub lcs_pairs: Vec<(usize, usize)>,
    /// Indices of `a` outside the LCS.
    pub a_only: Vec<usize>,
    /// Indices of `b` outside the LCS.
    pub b_only: Vec<usize>,
    /// LCS length.
    pub lcs_length: usize,
}

/// The set of first (or second) components of the pairs, as a hash set.
fn component_set(pairs: &[(usize, usize)], first: bool) -> (s: HashSet<usize>)
    ensures
        s@ == (if first { first_components(pairs@) } else { second_components(pairs@) }),
{
    let mut s: HashSet<usize> = HashSet::new();
    let mut t: usize = 0;
    while t < pairs.len()
        invariant
            t <= pairs@.len(),
            first ==> s@ == Set::new(|x: usize| exists|k: int| 0 <= k < t && (#[trigger] pairs@[k]).0 == x),
            !first ==> s@ == Set::new(|x: usize| exists|k: int| 0 <= k < t && (#[trigger] pairs@[k]).1 == x),
        decreases pairs@.len() - t,
    {
        let ghost old_s = s@;
        let p = pairs[t];
        if first {
            s.insert(p.0);
            assert(s@ =~= Set::new(|x: usize| exists|k: int| 0 <= k < t + 1 && (#[trigger] pairs@[k]).0 == x)) by {
                assert forall|x: usize| s@.contains(x) implies exists|k: int| 0 <= k < t + 1 && (#[trigger] pairs@[k]).0 == x by {
                    if x == p.0 {
                        assert(pairs@[t as int].0 == x);
                    }
                }
            }
        } else {
            s.insert(p.1);
            assert(s@ =~= Set::new(|x: usize| exists|k: int| 0 <= k < t + 1 && (#[trigger] pairs@[k]).1 == x)) by {
                assert forall|x: usize| s@.contains(x) implies exists|k: int| 0 <= k < t + 1 && (#[trigger] pairs@[k]).1 == x by {
                    if x == p.1 {
                        assert(pairs@[t as int].1 == x);
                    }
                }
            }
        }
        t += 1;
    }
    proof {
        if first {
            assert(s@ =~= first_components(pairs@));
        } else {
            assert(s@ =~= second_components(pairs@));
        }
    }
    s
}

/// The indices below `len` outside `used`, in increasing order.
fn unused_indices(len: usize, used: &HashSet<usize>) -> (only: Vec<usize>)
    ensures
        lists_unused(only@, len as int, used@),
{
    let mut only: Vec<usize> = Vec::new();
    let mut i: usize = 0;
    while i < len
        invariant
            i <= len,
            forall|k: int, l: int| 0 <= k < l < only@.len() ==> only@[k] < only@[l],
            forall|k: int| 0 <= k < only@.len() ==> only@[k] < i && !used@.contains(#[trigger] only@[k]),
            forall|x: usize| x < i && !used@.contains(x) ==> #[trigger] only@.contains(x),
        decreases len - i,
    {
        if !used.contains(&i) {
            let ghost old_only = only@;
            only.push(i);
            assert forall|x: usize| x < i + 1 && !used@.contains(x) implies #[trigger] only@.contains(x) by {
                if x < i {
                    assert(old_only.contains(x));
                    let k = choose|k: int| 0 <= k < old_only.len() && old_only[k] == x;
                    assert(only@[k] == x);
                } else {
                    assert(only@[old_only.len() as int] == x);
                }
            }
        }
        i += 1;
    }
    only
}

impl OptimizedLcsResult {
    /// Builds the result from LCS pairs: the indices of `a` and `b` that no
    /// pair uses, and the pair count.
    pub fn from_pairs(a_len: usize, b_len: usize, lcs_pairs: &[(usize, usize)]) -> (r: Self)
        ensures
            r.lcs_pairs@ == lcs_pairs@,
            r.lcs_length == lcs_pairs@.len(),
            lists_unused(r.a_only@, a_len as int, first_components(lcs_pairs@)),
            lists_unused(r.b_only@, b_len as int, second_components(lcs_pairs@)),
    {
        let lcs_set_a = component_set(lcs_pairs, true);
        let lcs_set_b = component_set(lcs_pairs, false);
        let a_only = unused_indices(a_len, &lcs_set_a);
        let b_only = unused_indices(b_len, &lcs_set_b);
        let mut copied: Vec<(usize, usize)> = Vec::new();
        let mut t: usize = 0;
        while t < lcs_pairs.len()
            invariant
                t <= lcs_pairs@.len(),
                copied@ == lcs_pairs@.subrange(0, t as int),
            decreases lcs_pairs@.len() - t,
        {
            copied.push(lcs_pairs[t]);
            t += 1;
        }
        assert(copied@ =~= lcs_pairs@);
        OptimizedLcsResult { lcs_pairs: copied, a_only, b_only, lcs_length: lcs_pairs.len() }
    }
}

} // verus!
