//! The mathematical model of the permutation engine.
//!
//! A permutation index is a sequence of distinct positions, each below the
//! sequence length, read as "position `i` of the result receives the element
//! at position `index[i]` of the source". The sequential algorithm realizes
//! such an index as a chain of pairwise swaps; this module defines what a
//! chain of swaps does to a sequence and proves the laws that connect swap
//! chains, value relabellings and the final rearrangement.

use vstd::prelude::*;

verus! {

/// A raw index is a permutation of `0..len`: every entry is in range and no
/// entry repeats.
pub open spec fn is_perm_index(s: Seq<usize>) -> bool {
    &&& forall|k: int| 0 <= k < s.len() ==> (#[trigger] s[k] as int) < s.len()
    &&& forall|k1: int, k2: int| 0 <= k1 < k2 < s.len() ==> s[k1] != s[k2]
}

/// `data` rearranged so that position `i` receives the element that sat at
/// position `idx[i]`.
pub open spec fn apply_index<T>(data: Seq<T>, idx: Seq<usize>) -> Seq<T> {
    Seq::new(idx.len(), |i: int| data[idx[i] as int])
}

/// The sequence `0, 1, ..., n - 1`.
pub open spec fn identity_seq(n: nat) -> Seq<int> {
    Seq::new(n, |k: int| k)
}

/// `s` with the entries at positions `a` and `b` exchanged.
pub open spec fn swap_at<T>(s: Seq<T>, a: int, b: int) -> Seq<T> {
    s.update(a, s[b]).update(b, s[a])
}

/// A chain of swaps applied to `s`, first pair first.
pub open spec fn apply_swaps<T>(s: Seq<T>, sw: Seq<(usize, usize)>) -> Seq<T>
    decreases sw.len(),
{
    if sw.len() == 0 {
        s
    } else {
        swap_at(apply_swaps(s, sw.drop_last()), sw.last().0 as int, sw.last().1 as int)
    }
}

/// Both positions of every pair in `sw` lie below `n`.
pub open spec fn swaps_in_range(sw: Seq<(usize, usize)>, n: nat) -> bool {
    forall|k: int|
        0 <= k < sw.len() ==> (#[trigger] sw[k]).0 < n && sw[k].1 < n
}

/// The relabelling that exchanges the two values `a` and `b` and leaves
/// every other value in place.
pub open spec fn tau(v: int, a: int, b: int) -> int {
    if v == a {
        b
    } else if v == b {
        a
    } else {
        v
    }
}

/// `s` with the two values `a` and `b` exchanged wherever they occur.
pub open spec fn swap_vals(s: Seq<int>, a: int, b: int) -> Seq<int> {
    s.map_values(|v: int| tau(v, a, b))
}

/// The raw index as a sequence of mathematical integers.
pub open spec fn index_as_ints(s: Seq<usize>) -> Seq<int> {
    Seq::new(s.len(), |k: int| s[k] as int)
}

/// A valid raw index, read as integers, is an in-range injective sequence.
pub proof fn lemma_perm_index_ints(s: Seq<usize>)
    requires
        is_perm_index(s),
    ensures
        index_as_ints(s).len() == s.len(),
        in_range(index_as_ints(s), s.len()),
        injective_on(index_as_ints(s)),
{
}

/// Two positions of an injective sequence holding the same value coincide.
pub proof fn lemma_injective_same_value(s: Seq<int>, k1: int, k2: int)
    requires
        injective_on(s),
        0 <= k1 < s.len(),
        0 <= k2 < s.len(),
        s[k1] == s[k2],
    ensures
        k1 == k2,
{
}

/// Every entry of `s` lies in `0..n`.
pub open spec fn in_range(s: Seq<int>, n: nat) -> bool {
    forall|k: int| 0 <= k < s.len() ==> 0 <= #[trigger] s[k] < n
}

/// No two entries of `s` coincide.
pub open spec fn injective_on(s: Seq<int>) -> bool {
    forall|k1: int, k2: int| 0 <= k1 < k2 < s.len() ==> s[k1] != s[k2]
}

/// Every value of `0..n` occurs in `s`.
pub open spec fn covers(s: Seq<int>, n: nat) -> bool {
    forall|v: int| 0 <= v < n ==> #[trigger] s.contains(v)
}

/// A swap chain of in-range pairs never changes the length of the sequence
/// it acts on.
pub proof fn lemma_apply_swaps_len<T>(s: Seq<T>, sw: Seq<(usize, usize)>)
    requires
        swaps_in_range(sw, s.len()),
    ensures
        apply_swaps(s, sw).len() == s.len(),
    decreases sw.len(),
{
    if sw.len() > 0 {
        assert(swaps_in_range(sw.drop_last(), s.len())) by {
            assert forall|k: int| 0 <= k < sw.drop_last().len() implies (#[trigger] sw.drop_last()[k]).0
                < s.len() && sw.drop_last()[k].1 < s.len() by {
                assert(sw.drop_last()[k] == sw[k]);
            }
        }
        lemma_apply_swaps_len(s, sw.drop_last());
        assert(sw.last() == sw[sw.len() - 1]);
        assert(apply_swaps(s, sw) == swap_at(
            apply_swaps(s, sw.drop_last()),
            sw.last().0 as int,
            sw.last().1 as int,
        ));
    } else {
        assert(apply_swaps(s, sw) == s);
    }
}

/// Appending a pair to a swap chain swaps those two positions last.
pub proof fn lemma_apply_swaps_push<T>(s: Seq<T>, sw: Seq<(usize, usize)>, u: (usize, usize))
    ensures
        apply_swaps(s, sw.push(u)) == swap_at(apply_swaps(s, sw), u.0 as int, u.1 as int),
{
    assert(sw.push(u).drop_last() =~= sw);
    assert(sw.push(u).last() == u);
}

/// Prepending a pair to a swap chain swaps those two positions first.
pub proof fn lemma_apply_swaps_cons<T>(s: Seq<T>, u: (usize, usize), sw: Seq<(usize, usize)>)
    ensures
        apply_swaps(s, seq![u] + sw) == apply_swaps(
            swap_at(s, u.0 as int, u.1 as int),
            sw,
        ),
    decreases sw.len(),
{
    if sw.len() == 0 {
        assert(seq![u] + sw =~= seq![u]);
        assert((seq![u]).drop_last() =~= Seq::<(usize, usize)>::empty());
        assert((seq![u]).last() == u);
        assert(apply_swaps(s, Seq::<(usize, usize)>::empty()) == s);
        assert(apply_swaps(s, seq![u]) == swap_at(s, u.0 as int, u.1 as int));
        assert(apply_swaps(swap_at(s, u.0 as int, u.1 as int), sw) == swap_at(
            s,
            u.0 as int,
            u.1 as int,
        ));
    } else {
        assert((seq![u] + sw).drop_last() =~= seq![u] + sw.drop_last());
        assert((seq![u] + sw).last() == sw.last());
        lemma_apply_swaps_cons(s, u, sw.drop_last());
        assert(apply_swaps(s, seq![u] + sw) == swap_at(
            apply_swaps(s, seq![u] + sw.drop_last()),
            sw.last().0 as int,
            sw.last().1 as int,
        ));
        assert(apply_swaps(swap_at(s, u.0 as int, u.1 as int), sw) == swap_at(
            apply_swaps(swap_at(s, u.0 as int, u.1 as int), sw.drop_last()),
            sw.last().0 as int,
            sw.last().1 as int,
        ));
    }
}

/// Reversing after appending puts the appended element in front.
pub proof fn lemma_reverse_push<T>(l: Seq<T>, u: T)
    ensures
        l.push(u).reverse() =~= seq![u] + l.reverse(),
{
    let lhs = l.push(u).reverse();
    let rhs = seq![u] + l.reverse();
    assert forall|i: int| 0 <= i < lhs.len() implies lhs[i] == rhs[i] by {
        if i == 0 {
            assert(lhs[0] == l.push(u)[l.len() as int]);
        } else {
            assert(lhs[i] == l.push(u)[l.push(u).len() - 1 - i]);
            assert(rhs[i] == l.reverse()[i - 1]);
        }
    }
}

/// Swapping two positions of the identity is the same as swapping the two
/// values in the identity.
pub proof fn lemma_swap_at_identity(n: nat, a: int, b: int)
    requires
        0 <= a < n,
        0 <= b < n,
    ensures
        swap_at(identity_seq(n), a, b) =~= swap_vals(identity_seq(n), a, b),
{
}

/// A positional swap commutes with a relabelling of values.
pub proof fn lemma_swap_at_swap_vals_commute(h: Seq<int>, a: int, b: int, c: int, d: int)
    requires
        0 <= c < h.len(),
        0 <= d < h.len(),
    ensures
        swap_at(swap_vals(h, a, b), c, d) =~= swap_vals(swap_at(h, c, d), a, b),
{
}

/// Running a swap chain from a swapped identity relabels the two swapped
/// values in the chain's result.
pub proof fn lemma_apply_swaps_from_swapped(n: nat, a: int, b: int, sw: Seq<(usize, usize)>)
    requires
        0 <= a < n,
        0 <= b < n,
        swaps_in_range(sw, n),
    ensures
        apply_swaps(swap_at(identity_seq(n), a, b), sw) =~= swap_vals(
            apply_swaps(identity_seq(n), sw),
            a,
            b,
        ),
    decreases sw.len(),
{
    if sw.len() == 0 {
        lemma_swap_at_identity(n, a, b);
    } else {
        let sw0 = sw.drop_last();
        let u = sw.last();
        assert(swaps_in_range(sw0, n)) by {
            assert forall|k: int| 0 <= k < sw0.len() implies (#[trigger] sw0[k]).0 < n
                && sw0[k].1 < n by {
                assert(sw0[k] == sw[k]);
            }
        }
        assert(u == sw[sw.len() - 1]);
        lemma_apply_swaps_from_swapped(n, a, b, sw0);
        lemma_apply_swaps_len(identity_seq(n), sw0);
        lemma_swap_at_swap_vals_commute(
            apply_swaps(identity_seq(n), sw0),
            a,
            b,
            u.0 as int,
            u.1 as int,
        );
    }
}

/// Recording one more pair in a swap list, to be played back in reverse
/// order, relabels the two recorded values in the permutation realized so
/// far.
pub proof fn lemma_recorded_swap_push(n: nat, l: Seq<(usize, usize)>, u: (usize, usize))
    requires
        u.0 < n,
        u.1 < n,
        swaps_in_range(l, n),
    ensures
        apply_swaps(identity_seq(n), l.push(u).reverse()) =~= swap_vals(
            apply_swaps(identity_seq(n), l.reverse()),
            u.0 as int,
            u.1 as int,
        ),
{
    let rl = l.reverse();
    assert(swaps_in_range(rl, n)) by {
        assert forall|k: int| 0 <= k < rl.len() implies (#[trigger] rl[k]).0 < n && rl[k].1 < n by {
            assert(rl[k] == l[l.len() - 1 - k]);
        }
    }
    lemma_reverse_push(l, u);
    assert(l.push(u).reverse() == seq![u] + rl);
    lemma_apply_swaps_cons(identity_seq(n), u, rl);
    lemma_apply_swaps_from_swapped(n, u.0 as int, u.1 as int, rl);
}

/// Running a swap chain over any sequence routes each position through the
/// permutation that the same chain realizes on the identity: position `j` of
/// the result holds the source element at position `G[j]`, where `G` is the
/// chain's effect on `0..n`.
pub proof fn lemma_apply_swaps_via_positions<T>(s: Seq<T>, sw: Seq<(usize, usize)>)
    requires
        swaps_in_range(sw, s.len()),
    ensures
        in_range(apply_swaps(identity_seq(s.len()), sw), s.len()),
        apply_swaps(s, sw) =~= Seq::new(
            s.len(),
            |j: int| s[apply_swaps(identity_seq(s.len()), sw)[j]],
        ),
    decreases sw.len(),
{
    let n = s.len();
    lemma_apply_swaps_len(s, sw);
    lemma_apply_swaps_len(identity_seq(n), sw);
    if sw.len() == 0 {
        assert(apply_swaps(s, sw) == s);
        assert(apply_swaps(identity_seq(n), sw) == identity_seq(n));
    } else {
        let sw0 = sw.drop_last();
        let u = sw.last();
        assert(u == sw[sw.len() - 1]);
        assert(swaps_in_range(sw0, n)) by {
            assert forall|k: int| 0 <= k < sw0.len() implies (#[trigger] sw0[k]).0 < n
                && sw0[k].1 < n by {
                assert(sw0[k] == sw[k]);
            }
        }
        lemma_apply_swaps_via_positions(s, sw0);
        lemma_apply_swaps_len(s, sw0);
        lemma_apply_swaps_len(identity_seq(n), sw0);
        let prev = apply_swaps(s, sw0);
        let g0 = apply_swaps(identity_seq(n), sw0);
        let g = apply_swaps(identity_seq(n), sw);
        assert(g == swap_at(g0, u.0 as int, u.1 as int));
        assert(apply_swaps(s, sw) == swap_at(prev, u.0 as int, u.1 as int));
        assert forall|j: int| 0 <= j < n implies 0 <= #[trigger] g[j] < n by {
            if j == u.1 as int {
                assert(g[j] == g0[u.0 as int]);
            } else if j == u.0 as int {
                assert(g[j] == g0[u.1 as int]);
            } else {
                assert(g[j] == g0[j]);
            }
        }
        assert forall|j: int| 0 <= j < n implies #[trigger] apply_swaps(s, sw)[j] == s[g[j]] by {
            if j == u.1 as int {
                assert(apply_swaps(s, sw)[j] == prev[u.0 as int]);
                assert(g[j] == g0[u.0 as int]);
            } else if j == u.0 as int {
                assert(apply_swaps(s, sw)[j] == prev[u.1 as int]);
                assert(g[j] == g0[u.1 as int]);
            } else {
                assert(apply_swaps(s, sw)[j] == prev[j]);
                assert(g[j] == g0[j]);
            }
        }
    }
}

/// Exchanging two values below `n` keeps a sequence a bijection onto `0..n`.
pub proof fn lemma_swap_vals_bijection(g: Seq<int>, a: int, b: int, n: nat)
    requires
        g.len() == n,
        in_range(g, n),
        injective_on(g),
        covers(g, n),
        0 <= a < n,
        0 <= b < n,
    ensures
        swap_vals(g, a, b).len() == n,
        in_range(swap_vals(g, a, b), n),
        injective_on(swap_vals(g, a, b)),
        covers(swap_vals(g, a, b), n),
{
    let g2 = swap_vals(g, a, b);
    assert forall|v: int| 0 <= v < n implies #[trigger] g2.contains(v) by {
        let w: int = if v == a {
            b
        } else if v == b {
            a
        } else {
            v
        };
        assert(g.contains(w));
        let k = choose|k: int| 0 <= k < g.len() && g[k] == w;
        assert(g2[k] == v);
    }
}

/// The identity is a bijection onto `0..n`.
pub proof fn lemma_identity_bijection(n: nat)
    ensures
        identity_seq(n).len() == n,
        in_range(identity_seq(n), n),
        injective_on(identity_seq(n)),
        covers(identity_seq(n), n),
{
    assert forall|v: int| 0 <= v < n implies #[trigger] identity_seq(n).contains(v) by {
        assert(identity_seq(n)[v] == v);
    }
}

} // verus!
