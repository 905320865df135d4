//! The validated permutation index: construction, validation, and the
//! decomposition of a permutation into a chain of pairwise swaps.

use vstd::prelude::*;
use crate::cycles::{
    count_unvisited, lemma_count_unvisited_update, lemma_enter_trace, lemma_exit_trace,
    lemma_initial_stable, lemma_skip_keeps_progress, lemma_trace_complete, lemma_trace_step,
    perm_seq, recorded_swaps, scan_cycles, stable_state, trace_from, traced_swaps,
    tracing_state,
};
use crate::perms::{
    apply_swaps, identity_seq, index_as_ints, is_perm_index, lemma_perm_index_ints,
    lemma_recorded_swap_push, swap_vals, swaps_in_range,
};

verus! {

/// Why building or applying a permutation index failed.
#[derive(Debug, PartialEq, Eq, Structural)]
pub enum PermuteError {
    /// The raw index is not a permutation of `0..len`: some entry is out of
    /// range or occurs twice.
    InvalidIndex,
    /// The index length does not match the data length.
    LengthMismatch,
}

/// A permutation index over `0..len`, known to be a bijection.
///
/// Position `i` of the reordered data receives the element that sat at
/// position `self[i]` of the source. A `PermuteIndex` is built with
/// [`PermuteIndex::try_new`], which validates the raw entries, or with
/// [`PermuteIndex::new_unchecked`], whose caller must prove validity; once
/// built it can be applied to any equally long vector.
#[derive(Debug, Clone, Copy)]
pub struct PermuteIndex<'a> {
    data: &'a [usize],
}

impl<'a> View for PermuteIndex<'a> {
    type V = Seq<usize>;

    closed spec fn view(&self) -> Seq<usize> {
        self.data@
    }
}

impl<'a> PermuteIndex<'a> {
    #[verifier::type_invariant]
    spec fn wf(self) -> bool {
        is_perm_index(self.data@)
    }

    /// Decides whether `index` is a permutation of `0..len`, by marking each
    /// value in a seen-table and rejecting out-of-range or repeated values.
    fn check_index(index: &[usize]) -> (r: bool)
        ensures
            r == is_perm_index(index@),
    {
        let len = index.len();
        let mut seen: Vec<bool> = Vec::new();
        let mut j: usize = 0;
        while j < len
            invariant
                j <= len,
                seen@.len() == j,
                forall|t: int| 0 <= t < j ==> !seen@[t],
            decreases len - j,
        {
            seen.push(false);
            j += 1;
        }
        let mut k: usize = 0;
        while k < len
            invariant
                len == index@.len(),
                seen@.len() == len,
                k <= len,
                forall|t: int| 0 <= t < k ==> (#[trigger] index@[t] as int) < len as int,
                forall|t1: int, t2: int| 0 <= t1 < t2 < k ==> index@[t1] != index@[t2],
                forall|v: int|
                    0 <= v < len ==> (seen@[v] <==> exists|t: int|
                        0 <= t < k && #[trigger] index@[t] as int == v),
            decreases len - k,
        {
            let v = index[k];
            if v >= len {
                return false;
            }
            if seen[v] {
                let ghost t = choose|t: int| 0 <= t < k && #[trigger] index@[t] as int == v as int;
                assert(index@[t] == index@[k as int]);
                return false;
            }
            let ghost seen_before = seen@;
            seen.set(v, true);
            assert forall|w: int|
                0 <= w < len implies (seen@[w] <==> exists|t: int|
                    0 <= t < k + 1 && #[trigger] index@[t] as int == w) by {
                if w == v as int {
                    assert(index@[k as int] as int == w);
                } else {
                    assert(seen@[w] == seen_before[w]);
                }
            }
            k += 1;
        }
        true
    }

    /// Builds a validated index. Succeeds exactly when `index` is a
    /// permutation of `0..len`; otherwise reports [`PermuteError::InvalidIndex`].
    pub fn try_new(index: &'a [usize]) -> (r: Result<Self, PermuteError>)
        ensures
            r is Ok <==> is_perm_index(index@),
            r is Ok ==> r->Ok_0@ == index@,
            r is Err ==> r->Err_0 == PermuteError::InvalidIndex,
    {
        if Self::check_index(index) {
            Ok(PermuteIndex { data: index })
        } else {
            Err(PermuteError::InvalidIndex)
        }
    }

    /// Wraps a raw index without running the validity check. The caller must
    /// have established elsewhere that `index` is a permutation of `0..len`.
    pub fn new_unchecked(index: &'a [usize]) -> (r: Self)
        requires
            is_perm_index(index@),
        ensures
            r@ == index@,
    {
        PermuteIndex { data: index }
    }

    /// Decomposes the permutation into its disjoint cycles and returns the
    /// chain of pairwise swaps that realizes it: applied to any sequence `s`
    /// of the same length, first pair first, the swaps rearrange `s` exactly
    /// as the index demands. The returned list is exactly the traced list of
    /// the cycle-tracing pass, [`traced_swaps`]: one pair per non-trivial
    /// step, never more, each pair naming two distinct positions. An identity
    /// index yields no swaps at all.
    pub fn generate_swaps(&self) -> (r: Vec<(usize, usize)>)
        ensures
            r@ == traced_swaps(self@),
            swaps_in_range(r@, self@.len()),
            forall|k: int| 0 <= k < r@.len() ==> (#[trigger] r@[k]).0 != r@[k].1,
            r@.len() <= self@.len(),
            apply_swaps(identity_seq(self@.len()), r@) == index_as_ints(self@),
            (forall|k: int| 0 <= k < self@.len() ==> #[trigger] self@[k] as int == k)
                ==> r@.len() == 0,
    {
        proof {
            use_type_invariant(&*self);
        }
        let index = self.data;
        let len = index.len();
        let ghost n = len as nat;
        let ghost p = index_as_ints(index@);
        proof {
            lemma_perm_index_ints(index@);
        }
        let mut visited: Vec<bool> = Vec::new();
        let mut j: usize = 0;
        while j < len
            invariant
                j <= len,
                visited@.len() == j,
                count_unvisited(visited@) == j,
                forall|t: int| 0 <= t < j ==> !visited@[t],
            decreases len - j,
        {
            let ghost vis_before = visited@;
            visited.push(false);
            proof {
                assert(visited@.drop_last() =~= vis_before);
                assert(!visited@.last());
                assert(count_unvisited(visited@) == count_unvisited(vis_before) + 1);
            }
            j += 1;
        }
        let mut swaps: Vec<(usize, usize)> = Vec::new();
        let ghost mut g = identity_seq(n);
        let ghost total = scan_cycles(p, visited@, 0);
        proof {
            lemma_initial_stable(p, visited@, n);
            assert(swaps@.reverse() =~= Seq::<(usize, usize)>::empty());
            assert(apply_swaps(identity_seq(n), Seq::<(usize, usize)>::empty())
                == identity_seq(n));
            assert(visited@ =~= Seq::new(n, |t: int| false));
            assert(recorded_swaps(index@) == total.0);
            assert(swaps@ + total.0 =~= total.0);
        }
        let mut i: usize = 0;
        while i < len
            invariant
                len == index@.len(),
                n == len as nat,
                p == index_as_ints(index@),
                perm_seq(p, n),
                is_perm_index(index@),
                visited@.len() == len,
                i <= len,
                swaps_in_range(swaps@, n),
                forall|k: int| 0 <= k < swaps@.len() ==> (#[trigger] swaps@[k]).0 != swaps@[k].1,
                swaps@.len() + count_unvisited(visited@) == n,
                total.0 == swaps@ + scan_cycles(p, visited@, i as int).0,
                total.1 == scan_cycles(p, visited@, i as int).1,
                g == apply_swaps(identity_seq(n), swaps@.reverse()),
                stable_state(p, visited@, g, n),
                forall|t: int| 0 <= t < i && !visited@[t] ==> g[t] == p[t],
                (forall|k: int| 0 <= k < n ==> p[k] == k) ==> swaps@.len() == 0,
            decreases len - i,
        {
            let start = index[i];
            let ghost vis_at_entry = visited@;
            let ghost swaps_at_entry = swaps@;
            if !visited[i] && start != i && !visited[start] {
                let mut x = i;
                let ghost expected = trace_from(
                    p,
                    visited@,
                    i as int,
                    i as int,
                    count_unvisited(visited@),
                );
                proof {
                    lemma_enter_trace(p, visited@, g, n, i as int);
                    assert(swaps@.take(swaps_at_entry.len() as int) =~= swaps_at_entry);
                    assert(swaps@.skip(swaps_at_entry.len() as int) =~= Seq::<(
                        usize,
                        usize,
                    )>::empty());
                    assert(Seq::<(usize, usize)>::empty() + expected.0 =~= expected.0);
                }
                while !visited[index[x]]
                    invariant
                        len == index@.len(),
                        n == len as nat,
                        p == index_as_ints(index@),
                        perm_seq(p, n),
                        is_perm_index(index@),
                        visited@.len() == len,
                        i < len,
                        x < len,
                        swaps_in_range(swaps@, n),
                        forall|k: int|
                            0 <= k < swaps@.len() ==> (#[trigger] swaps@[k]).0 != swaps@[k].1,
                        swaps@.len() + count_unvisited(visited@) == n,
                        swaps_at_entry.len() <= swaps@.len(),
                        swaps@.take(swaps_at_entry.len() as int) == swaps_at_entry,
                        expected.0 == swaps@.skip(swaps_at_entry.len() as int) + trace_from(
                            p,
                            visited@,
                            i as int,
                            x as int,
                            count_unvisited(visited@),
                        ).0,
                        expected.1 == trace_from(
                            p,
                            visited@,
                            i as int,
                            x as int,
                            count_unvisited(visited@),
                        ).1,
                        g == apply_swaps(identity_seq(n), swaps@.reverse()),
                        tracing_state(p, visited@, g, n, i as int, x as int),
                        (forall|k: int| 0 <= k < n ==> p[k] == k) ==> swaps@.len() == 0,
                    decreases count_unvisited(visited@),
                {
                    let xn = index[x];
                    let ghost cu = count_unvisited(visited@);
                    let ghost skip_before = swaps@.skip(swaps_at_entry.len() as int);
                    let ghost swaps_before = swaps@;
                    proof {
                        assert(xn as int == p[x as int]);
                        lemma_trace_step(p, visited@, g, n, i as int, x as int);
                        lemma_count_unvisited_update(visited@, x as int);
                        assert(trace_from(p, visited@, i as int, x as int, cu) == (
                            seq![(i, xn)] + trace_from(
                                p,
                                visited@.update(x as int, true),
                                i as int,
                                xn as int,
                                (cu - 1) as nat,
                            ).0,
                            trace_from(
                                p,
                                visited@.update(x as int, true),
                                i as int,
                                xn as int,
                                (cu - 1) as nat,
                            ).1,
                        ));
                        lemma_recorded_swap_push(n, swaps@, (i, xn));
                        g = swap_vals(g, i as int, xn as int);
                    }
                    visited.set(x, true);
                    swaps.push((i, xn));
                    proof {
                        let m = swaps_at_entry.len() as int;
                        let ghost rest = trace_from(
                            p,
                            visited@,
                            i as int,
                            xn as int,
                            count_unvisited(visited@),
                        );
                        assert(count_unvisited(visited@) == (cu - 1) as nat);
                        assert(swaps@.take(m) =~= swaps_before.take(m));
                        assert(swaps@.skip(m) =~= skip_before.push((i, xn)));
                        assert(skip_before.push((i, xn)) =~= skip_before + seq![(i, xn)]);
                        assert(skip_before + (seq![(i, xn)] + rest.0) =~= (skip_before + seq![
                            (i, xn),
                        ]) + rest.0);
                    }
                    x = xn;
                }
                proof {
                    assert(trace_from(
                        p,
                        visited@,
                        i as int,
                        x as int,
                        count_unvisited(visited@),
                    ) == (Seq::<(usize, usize)>::empty(), visited@));
                    let m = swaps_at_entry.len() as int;
                    assert(expected.0 =~= swaps@.skip(m));
                    assert(expected.1 == visited@);
                    assert(swaps@ =~= swaps@.take(m) + swaps@.skip(m));
                    assert(swaps@ == swaps_at_entry + expected.0);
                    assert(scan_cycles(p, vis_at_entry, i as int) == (
                        expected.0 + scan_cycles(p, visited@, i + 1).0,
                        scan_cycles(p, visited@, i + 1).1,
                    ));
                    assert(swaps_at_entry + (expected.0 + scan_cycles(p, visited@, i + 1).0)
                        =~= (swaps_at_entry + expected.0) + scan_cycles(p, visited@, i + 1).0);
                    lemma_exit_trace(p, visited@, g, n, i as int, x as int);
                }
            } else {
                proof {
                    lemma_skip_keeps_progress(p, visited@, g, n, i as int);
                    assert(scan_cycles(p, visited@, i as int) == (
                        Seq::<(usize, usize)>::empty() + scan_cycles(p, visited@, i + 1).0,
                        scan_cycles(p, visited@, i + 1).1,
                    ));
                    assert(Seq::<(usize, usize)>::empty() + scan_cycles(p, visited@, i + 1).0
                        =~= scan_cycles(p, visited@, i + 1).0);
                }
            }
            i += 1;
        }
        proof {
            lemma_trace_complete(p, visited@, g, n);
            assert(scan_cycles(p, visited@, len as int) == (
                Seq::<(usize, usize)>::empty(),
                visited@,
            ));
            assert(swaps@ + Seq::<(usize, usize)>::empty() =~= swaps@);
            assert(swaps@ == recorded_swaps(index@));
        }
        let mut reversed: Vec<(usize, usize)> = Vec::new();
        let mut t = swaps.len();
        while t > 0
            invariant
                t <= swaps@.len(),
                reversed@.len() == swaps@.len() - t,
                forall|q: int|
                    0 <= q < reversed@.len() ==> reversed@[q] == swaps@[swaps@.len() - 1 - q],
            decreases t,
        {
            t -= 1;
            let pair = swaps[t];
            reversed.push(pair);
        }
        proof {
            assert(reversed@ =~= swaps@.reverse());
            assert(self@ == index@);
            assert(reversed@ == traced_swaps(self@));
            assert forall|k: int|
                0 <= k < reversed@.len() implies (#[trigger] reversed@[k]).0
                != reversed@[k].1 by {
                assert(reversed@[k] == swaps@[swaps@.len() - 1 - k]);
            }
        }
        reversed
    }

    /// The raw entries, for the crate's own algorithms.
    pub(crate) fn raw(&self) -> (r: &'a [usize])
        ensures
            r@ == self@,
            is_perm_index(self@),
    {
        proof {
            use_type_invariant(&*self);
        }
        self.data
    }
}

} // verus!
