use vstd::prelude::*;

verus! {

/// Each sub-sample `0..n` has finished exactly once in `done`, a list of
/// `(sub-sample, result)` pairs in the order in which they finished.
pub open spec fn is_complete<T>(n: int, done: Seq<(usize, T)>) -> bool {
    &&& forall|j: int| 0 <= j < done.len() ==> (#[trigger] done[j].0 as int) < n
    &&& forall|j: int, k: int|
        0 <= j < done.len() && 0 <= k < done.len() && j != k ==> #[trigger] done[j].0
            != #[trigger] done[k].0
    &&& forall|i: int| 0 <= i < n ==> #[trigger] has_finished(done, i)
}

/// Sub-sample `i` appears in `done`.
pub open spec fn has_finished<T>(done: Seq<(usize, T)>, i: int) -> bool {
    exists|j: int| 0 <= j < done.len() && #[trigger] done[j].0 == i
}

/// The result that sub-sample `i` finished with.
pub open spec fn finished_value<T>(done: Seq<(usize, T)>, i: int) -> T {
    done[choose|j: int| 0 <= j < done.len() && #[trigger] done[j].0 == i].1
}

/// The results of sub-samples `0..n`, by sub-sample.
pub open spec fn in_sample_order<T>(n: nat, done: Seq<(usize, T)>) -> Seq<T> {
    Seq::new(n, |i: int| finished_value(done, i))
}

/// `p` lists each of `0..len` exactly once.
pub open spec fn is_permutation(p: Seq<int>, len: int) -> bool {
    &&& p.len() == len
    &&& forall|k: int| 0 <= k < len ==> 0 <= #[trigger] p[k] < len
    &&& forall|j: int, k: int| 0 <= j < len && 0 <= k < len && j != k ==> #[trigger] p[j] != #[trigger] p[k]
    &&& forall|m: int| 0 <= m < len ==> #[trigger] lists(p, m)
}

/// `m` appears in `p`.
pub open spec fn lists(p: Seq<int>, m: int) -> bool {
    exists|k: int| 0 <= k < p.len() && #[trigger] p[k] == m
}

/// `done` listed in another order: position `k` holds `done[p[k]]`.
pub open spec fn reordered<T>(done: Seq<(usize, T)>, p: Seq<int>) -> Seq<(usize, T)> {
    Seq::new(p.len(), |k: int| done[p[k]])
}

proof fn lemma_finished_value<T>(n: int, done: Seq<(usize, T)>, j: int)
    requires
        is_complete(n, done),
        0 <= j < done.len(),
    ensures
        finished_value(done, done[j].0 as int) == done[j].1,
{
    let i = done[j].0 as int;
    assert(has_finished(done, i));
    let c = choose|k: int| 0 <= k < done.len() && #[trigger] done[k].0 == i;
    assert(c == j);
}

/// Gathering does not depend on the order in which the sub-samples finish:
/// the same finished sub-samples, in any order, are complete alike and give
/// the same results by sub-sample. A sum taken over those results in
/// sub-sample order is therefore the same however the work was scheduled.
pub proof fn lemma_gather_ignores_completion_order<T>(
    n: nat,
    done: Seq<(usize, T)>,
    p: Seq<int>,
)
    requires
        is_complete(n as int, done),
        is_permutation(p, done.len() as int),
    ensures
        is_complete(n as int, reordered(done, p)),
        in_sample_order(n, reordered(done, p)) == in_sample_order(n, done),
{
    let other = reordered(done, p);
    assert forall|i: int| 0 <= i < n implies #[trigger] has_finished(other, i) by {
        assert(has_finished(done, i));
        let m = choose|m: int| 0 <= m < done.len() && #[trigger] done[m].0 == i;
        assert(lists(p, m));
        let k = choose|k: int| 0 <= k < done.len() && #[trigger] p[k] == m;
        assert(other[k].0 == i);
    }
    assert forall|j: int, k: int|
        0 <= j < other.len() && 0 <= k < other.len() && j != k implies #[trigger] other[j].0
        != #[trigger] other[k].0 by {
        assert(p[j] != p[k]);
    }
    assert forall|j: int| 0 <= j < other.len() implies (#[trigger] other[j].0 as int) < n by {
        assert(0 <= p[j] < done.len());
    }
    assert forall|i: int| 0 <= i < n implies #[trigger] in_sample_order(n, other)[i]
        == in_sample_order(n, done)[i] by {
        assert(has_finished(done, i));
        assert(has_finished(other, i));
        let m = choose|m: int| 0 <= m < done.len() && #[trigger] done[m].0 == i;
        assert(lists(p, m));
        let k = choose|k: int| 0 <= k < done.len() && #[trigger] p[k] == m;
        assert(other[k].0 == i);
        lemma_finished_value(n as int, done, m);
        lemma_finished_value(n as int, other, k);
    }
    assert(in_sample_order(n, other) =~= in_sample_order(n, done));
}

/// Puts the results of `n` sub-samples, given as `(sub-sample, result)`
/// pairs in the order in which they finished, back into sub-sample order.
/// Fails when some sub-sample is out of range, finished twice, or missing.
pub fn gather_in_order<T: Copy>(n: usize, done: &Vec<(usize, T)>) -> (r: Option<Vec<T>>)
    ensures
        r is Some <==> is_complete(n as int, done@),
        r matches Some(v) ==> v@ == in_sample_order(n as nat, done@),
{
    let mut slots: Vec<Option<T>> = Vec::new();
    let mut i: usize = 0;
    while i < n
        invariant
            i <= n,
            slots@.len() == i,
            forall|m: int| 0 <= m < i ==> #[trigger] slots@[m] is None,
        decreases n - i,
    {
        slots.push(None);
        i = i + 1;
    }
    let mut j: usize = 0;
    while j < done.len()
        invariant
            j <= done@.len(),
            slots@.len() == n,
            forall|k: int| 0 <= k < j ==> (#[trigger] done@[k].0 as int) < n,
            forall|k: int, l: int|
                0 <= k < j && 0 <= l < j && k != l ==> #[trigger] done@[k].0 != #[trigger] done@[l].0,
            forall|k: int| 0 <= k < j ==> slots@[#[trigger] done@[k].0 as int] == Some(done@[k].1),
            forall|m: int|
                0 <= m < n && #[trigger] slots@[m] is Some ==> exists|k: int|
                    0 <= k < j && #[trigger] done@[k].0 == m,
        decreases done@.len() - j,
    {
        let pair = done[j];
        let s = pair.0;
        if s >= n {
            return None;
        }
        if slots[s].is_some() {
            return None;
        }
        let ghost old_slots = slots;
        slots.set(s, Some(pair.1));
        proof {
            assert forall|m: int|
                0 <= m < n && #[trigger] slots@[m] is Some implies exists|k: int|
                    0 <= k < j + 1 && #[trigger] done@[k].0 == m by {
                if m == s as int {
                    assert(done@[j as int].0 == m);
                } else {
                    assert(old_slots@[m] is Some);
                }
            }
        }
        j = j + 1;
    }
    let mut out: Vec<T> = Vec::new();
    let mut m: usize = 0;
    while m < n
        invariant
            m <= n,
            slots@.len() == n,
            j == done@.len(),
            forall|k: int| 0 <= k < j ==> (#[trigger] done@[k].0 as int) < n,
            forall|k: int, l: int|
                0 <= k < j && 0 <= l < j && k != l ==> #[trigger] done@[k].0 != #[trigger] done@[l].0,
            forall|k: int| 0 <= k < j ==> slots@[#[trigger] done@[k].0 as int] == Some(done@[k].1),
            forall|q: int| 0 <= q < n && #[trigger] slots@[q] is Some ==> has_finished(done@, q),
            forall|q: int| 0 <= q < m ==> #[trigger] slots@[q] is Some,
            out@.len() == m,
            forall|q: int| 0 <= q < m ==> slots@[q] == Some(#[trigger] out@[q]),
        decreases n - m,
    {
        match slots[m] {
            Some(v) => {
                out.push(v);
            },
            None => {
                proof {
                    if has_finished(done@, m as int) {
                        let k = choose|k: int| 0 <= k < done@.len() && #[trigger] done@[k].0 == m;
                        assert(slots@[done@[k].0 as int] == Some(done@[k].1));
                    }
                }
                return None;
            },
        }
        m = m + 1;
    }
    proof {
        assert forall|q: int| 0 <= q < n implies #[trigger] has_finished(done@, q) by {
            assert(slots@[q] is Some);
        }
        assert(is_complete(n as int, done@));
        assert forall|q: int| 0 <= q < n implies #[trigger] out@[q] == in_sample_order(
            n as nat,
            done@,
        )[q] by {
            assert(has_finished(done@, q));
            let k = choose|k: int| 0 <= k < done@.len() && #[trigger] done@[k].0 == q;
            lemma_finished_value(n as int, done@, k);
        }
        assert(out@ =~= in_sample_order(n as nat, done@));
    }
    Some(out)
}

} // verus!
