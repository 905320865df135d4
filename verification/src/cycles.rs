//! Correctness of the cycle-tracing pass.
//!
//! The sequential permuter walks the permutation cycle by cycle, recording a
//! swap `(start, next)` for every step, and later plays the recorded list
//! back in reverse order. This module describes the two shapes the walk's
//! state can take — between cycles ([`stable_state`]) and in the middle of a
//! cycle ([`tracing_state`]) — and proves that entering a cycle, advancing
//! one step, and closing a cycle each preserve them. The state tracks, in
//! the ghost sequence `g`, the permutation that the swaps recorded so far
//! realize when played back in reverse; when the walk ends, `g` is exactly
//! the permutation index.
//!
//! The pass is also written out once more as a specification —
//! [`trace_from`], [`scan_cycles`], [`traced_swaps`] — so that the permuter
//! can promise not merely a swap list that realizes the index, but exactly
//! the list the cycle decomposition prescribes.

use vstd::prelude::*;
use crate::perms::{
    covers, identity_seq, in_range, index_as_ints, injective_on, lemma_identity_bijection,
    lemma_injective_same_value, lemma_swap_vals_bijection, swap_vals, tau,
};

verus! {

/// `p` is a permutation of `0..n`, given as a sequence of integers.
pub open spec fn perm_seq(p: Seq<int>, n: nat) -> bool {
    &&& p.len() == n
    &&& in_range(p, n)
    &&& injective_on(p)
}

/// The walk's state between two cycles.
///
/// `g` is the permutation realized so far. A visited position is already
/// routed as `p` demands; an unvisited position is either untouched or the
/// closing position of a fully traced cycle. The last three clauses relate
/// each position `p[m]` to its predecessor `m` along the permutation: they
/// record that a traced cycle is entered only at its start.
pub open spec fn stable_state(p: Seq<int>, vis: Seq<bool>, g: Seq<int>, n: nat) -> bool {
    &&& vis.len() == n
    &&& g.len() == n
    &&& in_range(g, n)
    &&& injective_on(g)
    &&& covers(g, n)
    &&& forall|j: int| 0 <= j < n && vis[j] ==> g[j] == p[j]
    &&& forall|j: int|
        0 <= j < n && !vis[j] ==> g[j] == j || (g[j] == p[j] && vis[p[j]] && p[j] != j)
    &&& forall|m: int|
        0 <= m < n && !vis[#[trigger] p[m]] && g[p[m]] != p[m] ==> vis[m]
    &&& forall|m: int| 0 <= m < n && !vis[m] && g[m] == m ==> !vis[#[trigger] p[m]]
    &&& forall|m: int| 0 <= m < n && vis[#[trigger] p[m]] ==> vis[m] || g[m] == p[m]
}

/// The walk's state in the middle of the cycle that starts at `i`, with the
/// walk standing at `x`.
pub open spec fn tracing_state(
    p: Seq<int>,
    vis: Seq<bool>,
    g: Seq<int>,
    n: nat,
    i: int,
    x: int,
) -> bool {
    &&& vis.len() == n
    &&& g.len() == n
    &&& in_range(g, n)
    &&& injective_on(g)
    &&& covers(g, n)
    &&& 0 <= i < n
    &&& 0 <= x < n
    &&& p[i] != i
    &&& !vis[x]
    &&& g[x] == i
    &&& vis[i] || x == i
    &&& x == i ==> !vis[p[x]] && g[i] == i
    &&& forall|j: int| 0 <= j < n && vis[j] ==> g[j] == p[j]
    &&& forall|j: int|
        0 <= j < n && !vis[j] && j != x ==> g[j] == j || (g[j] == p[j] && vis[p[j]] && p[j]
            != j)
    &&& forall|j: int| 0 <= j < n && vis[j] ==> #[trigger] p[j] != i
    &&& x != i ==> forall|m: int| 0 <= m < n && #[trigger] p[m] == x ==> vis[m]
    &&& forall|m: int|
        0 <= m < n && !vis[#[trigger] p[m]] && p[m] != x && g[p[m]] != p[m] ==> vis[m]
    &&& forall|m: int|
        0 <= m < n && !vis[m] && m != x && g[m] == m ==> !vis[#[trigger] p[m]] || p[m] == i
    &&& forall|m: int|
        0 <= m < n && vis[#[trigger] p[m]] && p[m] != i ==> vis[m] || g[m] == p[m]
    &&& forall|t: int| 0 <= t < i && !vis[t] && t != x ==> g[t] == p[t]
}

/// Before anything is visited, the identity realizes the empty swap list and
/// the state is stable.
pub proof fn lemma_initial_stable(p: Seq<int>, vis: Seq<bool>, n: nat)
    requires
        perm_seq(p, n),
        vis.len() == n,
        forall|j: int| 0 <= j < n ==> !vis[j],
    ensures
        stable_state(p, vis, identity_seq(n), n),
{
    lemma_identity_bijection(n);
}

/// A cycle may be entered at an unvisited, non-fixed position whose
/// successor is unvisited; the walk then starts there.
pub proof fn lemma_enter_trace(p: Seq<int>, vis: Seq<bool>, g: Seq<int>, n: nat, i: int)
    requires
        perm_seq(p, n),
        stable_state(p, vis, g, n),
        0 <= i < n,
        !vis[i],
        p[i] != i,
        !vis[p[i]],
        forall|t: int| 0 <= t < i && !vis[t] ==> g[t] == p[t],
    ensures
        tracing_state(p, vis, g, n, i, i),
{
    assert(g[i] == i);
    assert forall|j: int| 0 <= j < n && vis[j] implies #[trigger] p[j] != i by {
        if p[j] == i {
            assert(g[j] == p[j]);
            lemma_injective_same_value(g, j, i);
        }
    }
}

/// One step of the walk: the position `x` is marked visited, the swap
/// `(i, p[x])` is recorded, and the walk moves to `p[x]`.
pub proof fn lemma_trace_step(p: Seq<int>, vis: Seq<bool>, g: Seq<int>, n: nat, i: int, x: int)
    requires
        perm_seq(p, n),
        tracing_state(p, vis, g, n, i, x),
        !vis[p[x]],
    ensures
        0 <= p[x] < n,
        p[x] != i,
        p[x] != x,
        tracing_state(p, vis.update(x, true), swap_vals(g, i, p[x]), n, i, p[x]),
{
    let x2 = p[x];
    let vis2 = vis.update(x, true);
    let g2 = swap_vals(g, i, x2);
    assert(0 <= x2 < n);
    // the walk never returns to the start before the cycle closes
    assert(x2 != i) by {
        if x != i {
            assert(vis[i]);
        }
    }
    // the walk never stalls on a fixed point
    assert(x2 != x) by {
        if x2 == x {
            assert(x != i);
            assert(g.contains(x));
            let k = choose|k: int| 0 <= k < g.len() && g[k] == x;
            if k == x {
                assert(g[x] == i);
            } else if vis[k] {
                assert(g[k] == p[k]);
                lemma_injective_same_value(p, k, x);
            } else if g[k] == k {
                assert(false);
            } else {
                assert(g[k] == p[k]);
                lemma_injective_same_value(p, k, x);
            }
        }
    }
    // the next position is still untouched
    assert(g[x2] == x2) by {
        if g[x2] != x2 {
            assert(vis[x]);
        }
    }
    lemma_swap_vals_bijection(g, i, x2, n);
    assert(g2[x2] == tau(g[x2], i, x2));
    assert(g2[x2] == i);
    assert(g2[x] == tau(g[x], i, x2));
    assert(g2[x] == x2);
    // every visited position, now including x, is routed as p demands
    assert forall|j: int| 0 <= j < n && vis2[j] implies g2[j] == p[j] by {
        if j != x {
            assert(vis[j]);
            assert(g[j] == p[j]);
            assert(p[j] != i);
            if p[j] == x2 {
                lemma_injective_same_value(p, j, x);
            }
            assert(g2[j] == tau(g[j], i, x2));
        }
    }
    // unvisited positions other than the new head keep their shape
    assert forall|j: int|
        0 <= j < n && !vis2[j] && j != x2 implies g2[j] == j || (g2[j] == p[j] && vis2[p[j]]
            && p[j] != j) by {
        assert(j != x);
        assert(g2[j] == tau(g[j], i, x2));
        if g[j] == j {
            if x == i {
                assert(vis2[i]);
            } else {
                assert(vis[i]);
            }
            assert(j != i);
            assert(g2[j] == j);
        } else {
            assert(g[j] == p[j] && vis[p[j]] && p[j] != j);
            if p[j] == i {
                lemma_injective_same_value(g, j, x);
            }
            if p[j] == x2 {
                assert(vis[x2]);
            }
            assert(g2[j] == p[j]);
        }
    }
    // no visited position feeds the start
    assert forall|j: int| 0 <= j < n && vis2[j] implies #[trigger] p[j] != i by {
        if j != x {
            assert(vis[j]);
        }
    }
    // the only predecessor of the new head is x, just visited
    assert forall|m: int| 0 <= m < n && #[trigger] p[m] == x2 implies vis2[m] by {
        lemma_injective_same_value(p, m, x);
    }
    // predecessors of moved, unvisited positions stay visited
    assert forall|m: int|
        0 <= m < n && !vis2[#[trigger] p[m]] && p[m] != x2 && g2[p[m]] != p[m] implies vis2[m] by {
        let j = p[m];
        assert(j != x);
        assert(!vis[j]);
        assert(g2[j] == tau(g[j], i, x2));
        if g[j] == j {
            if x == i {
                assert(vis2[i]);
            } else {
                assert(vis[i]);
            }
            assert(j != i);
            assert(g2[j] == j);
            assert(false);
        } else {
            assert(vis[m]);
        }
    }
    // predecessors of untouched positions stay unvisited, unless they feed
    // the start
    assert forall|m: int|
        0 <= m < n && !vis2[m] && m != x2 && g2[m] == m implies !vis2[#[trigger] p[m]] || p[m]
            == i by {
        assert(m != x);
        assert(g2[m] == tau(g[m], i, x2));
        if g[m] == m {
            if p[m] != i {
                assert(!vis[p[m]]);
                if p[m] == x {
                    if x != i {
                        assert(vis[m]);
                        assert(false);
                    }
                }
                assert(p[m] != x);
                assert(!vis2[p[m]]);
            }
        } else {
            assert(g[m] == p[m] && vis[p[m]] && p[m] != m);
            if p[m] == i {
                lemma_injective_same_value(g, m, x);
            }
            if p[m] == x2 {
                assert(vis[x2]);
            }
            assert(g2[m] == p[m]);
            assert(false);
        }
    }
    // a visited position away from the start is entered only from inside
    assert forall|m: int|
        0 <= m < n && vis2[#[trigger] p[m]] && p[m] != i implies vis2[m] || g2[m] == p[m] by {
        let j = p[m];
        if j == x {
            assert(x != i);
            assert(vis[m]);
        } else {
            assert(vis[j]);
            if !vis[m] && m != x {
                assert(g[m] == p[m]);
                assert(g2[m] == tau(g[m], i, x2));
                assert(j != i);
                assert(!vis[x2]);
                assert(j != x2);
                assert(g2[m] == p[m]);
            }
            if m == x {
                assert(vis2[m]);
            }
        }
    }
    // positions already passed by the outer scan keep their routing
    assert forall|t: int| 0 <= t < i && !vis2[t] && t != x2 implies g2[t] == p[t] by {
        assert(t != x);
        assert(g[t] == p[t]);
        assert(g2[t] == tau(g[t], i, x2));
        if p[t] == i {
            lemma_injective_same_value(g, t, x);
        }
        if p[t] == x2 {
            lemma_injective_same_value(p, t, x);
        }
    }
    assert(!vis2[x2]);
    assert(vis2[i] || x2 == i) by {
        if x == i {
            assert(vis2[i]);
        } else {
            assert(vis[i]);
        }
    }
}

/// When the walk reaches a visited successor, the cycle has closed at its
/// start, and the state is stable again.
pub proof fn lemma_exit_trace(p: Seq<int>, vis: Seq<bool>, g: Seq<int>, n: nat, i: int, x: int)
    requires
        perm_seq(p, n),
        tracing_state(p, vis, g, n, i, x),
        vis[p[x]],
    ensures
        p[x] == i,
        stable_state(p, vis, g, n),
        forall|t: int| 0 <= t <= i && !vis[t] ==> g[t] == p[t],
{
    assert(x != i);
    assert(vis[i]);
    assert(p[x] == i) by {
        if p[x] != i {
            assert(vis[x] || g[x] == p[x]);
        }
    }
    // the closing position now has the shape of a traced cycle's end
    assert(g[x] == p[x]);
    assert forall|j: int|
        0 <= j < n && !vis[j] implies g[j] == j || (g[j] == p[j] && vis[p[j]] && p[j] != j) by {
        if j == x {
            assert(g[x] == p[x] && vis[p[x]] && p[x] != x);
        }
    }
    assert forall|m: int|
        0 <= m < n && !vis[#[trigger] p[m]] && g[p[m]] != p[m] implies vis[m] by {
        let j = p[m];
        if j == x {
            assert(x != i);
            assert(vis[m]);
        }
    }
    assert forall|m: int| 0 <= m < n && !vis[m] && g[m] == m implies !vis[#[trigger] p[m]] by {
        if m != x {
            if p[m] == i {
                lemma_injective_same_value(p, m, x);
            }
        }
    }
    assert forall|m: int| 0 <= m < n && vis[#[trigger] p[m]] implies vis[m] || g[m] == p[m] by {
        if p[m] == i {
            lemma_injective_same_value(p, m, x);
        }
    }
    assert forall|t: int| 0 <= t <= i && !vis[t] implies g[t] == p[t] by {
        if t == x {
            assert(g[x] == p[x]);
        } else if t == i {
            assert(vis[i]);
        }
    }
}

/// A start the outer scan skips is already routed as the index demands.
pub proof fn lemma_skip_keeps_progress(p: Seq<int>, vis: Seq<bool>, g: Seq<int>, n: nat, i: int)
    requires
        perm_seq(p, n),
        stable_state(p, vis, g, n),
        0 <= i < n,
        vis[i] || p[i] == i || vis[p[i]],
    ensures
        vis[i] || g[i] == p[i],
{
}

/// When every position is routed, the realized permutation is the index.
pub proof fn lemma_trace_complete(p: Seq<int>, vis: Seq<bool>, g: Seq<int>, n: nat)
    requires
        perm_seq(p, n),
        stable_state(p, vis, g, n),
        forall|j: int| 0 <= j < n && !vis[j] ==> g[j] == p[j],
    ensures
        g =~= p,
{
}

/// The number of unvisited positions, the walk's termination measure.
pub open spec fn count_unvisited(vis: Seq<bool>) -> nat
    decreases vis.len(),
{
    if vis.len() == 0 {
        0
    } else {
        count_unvisited(vis.drop_last()) + if vis.last() {
            0nat
        } else {
            1nat
        }
    }
}

/// Visiting an unvisited position lowers the termination measure by exactly
/// one.
pub proof fn lemma_count_unvisited_update(vis: Seq<bool>, x: int)
    requires
        0 <= x < vis.len(),
        !vis[x],
    ensures
        count_unvisited(vis) >= 1,
        count_unvisited(vis.update(x, true)) == count_unvisited(vis) - 1,
    decreases vis.len(),
{
    let vis2 = vis.update(x, true);
    if x == vis.len() - 1 {
        assert(vis2.drop_last() =~= vis.drop_last());
        assert(vis2.last());
    } else {
        assert(vis2.drop_last() =~= vis.drop_last().update(x, true));
        assert(vis2.last() == vis.last());
        lemma_count_unvisited_update(vis.drop_last(), x);
    }
}

/// One cycle's walk, in spec form: while the successor of `x` is unvisited,
/// visit `x`, record the pair `(i, p[x])`, and move to `p[x]`. The pairs come
/// out in recording order, together with the visited table the walk leaves
/// behind. The fuel only bounds the recursion; `count_unvisited(vis)` steps
/// always suffice, since every step visits one more position.
pub open spec fn trace_from(p: Seq<int>, vis: Seq<bool>, i: int, x: int, fuel: nat) -> (Seq<
    (usize, usize),
>, Seq<bool>)
    decreases fuel,
{
    if fuel == 0 {
        (Seq::empty(), vis)
    } else if 0 <= x < p.len() && 0 <= p[x] < vis.len() && !vis[p[x]] {
        let stepped = trace_from(p, vis.update(x, true), i, p[x], (fuel - 1) as nat);
        (seq![(i as usize, p[x] as usize)] + stepped.0, stepped.1)
    } else {
        (Seq::empty(), vis)
    }
}

/// The outer scan, in spec form: at each start `i`, trace a cycle when `i`
/// is unvisited, is not a fixed point, and has an unvisited successor, then
/// go on with the next start. Yields every recorded pair in recording order,
/// and the final visited table.
pub open spec fn scan_cycles(p: Seq<int>, vis: Seq<bool>, i: int) -> (Seq<(usize, usize)>, Seq<
    bool,
>)
    decreases p.len() - i,
{
    if i < 0 || i >= p.len() {
        (Seq::empty(), vis)
    } else {
        let here = if 0 <= p[i] < vis.len() && i < vis.len() && !vis[i] && p[i] != i
            && !vis[p[i]] {
            trace_from(p, vis, i, i, count_unvisited(vis))
        } else {
            (Seq::empty(), vis)
        };
        let rest = scan_cycles(p, here.1, i + 1);
        (here.0 + rest.0, rest.1)
    }
}

/// The pairs the cycle-tracing pass records for a raw index, in recording
/// order, before the final reversal.
pub open spec fn recorded_swaps(idx: Seq<usize>) -> Seq<(usize, usize)> {
    scan_cycles(index_as_ints(idx), Seq::new(idx.len(), |t: int| false), 0).0
}

/// The swap chain the permuter returns: the recorded pairs, played back in
/// reverse order.
pub open spec fn traced_swaps(idx: Seq<usize>) -> Seq<(usize, usize)> {
    recorded_swaps(idx).reverse()
}

} // verus!
