//! Applying a validated index to a vector in place, by the sequential
//! cycle-swap algorithm.

use vstd::prelude::*;
use crate::index::{PermuteError, PermuteIndex};
use crate::perms::{
    apply_index, apply_swaps, identity_seq, index_as_ints, lemma_apply_swaps_push,
    lemma_apply_swaps_via_positions, swap_at, swaps_in_range,
};

verus! {

/// Exchanges the elements at positions `a` and `b` without cloning either.
fn swap_elements<T>(data: &mut Vec<T>, a: usize, b: usize)
    requires
        a < old(data).len(),
        b < old(data).len(),
    ensures
        final(data)@ == swap_at(old(data)@, a as int, b as int),
{
    if a == b {
        proof {
            assert(data@ =~= swap_at(data@, a as int, b as int));
        }
        return ;
    }
    let (lo, hi) = if a < b {
        (a, b)
    } else {
        (b, a)
    };
    let mut moved = data.remove(hi);
    data.set_and_swap(lo, &mut moved);
    data.insert(hi, moved);
    proof {
        assert(data@ =~= swap_at(old(data)@, a as int, b as int));
    }
}

/// Reorders `data` in place so that position `i` receives the element that
/// sat at position `index[i]`. Fails with [`PermuteError::LengthMismatch`],
/// and leaves `data` untouched, exactly when the index length differs from
/// the data length.
pub fn try_order_by_index_inplace<T>(data: &mut Vec<T>, index: PermuteIndex) -> (r: Result<
    (),
    PermuteError,
>)
    ensures
        index@.len() == old(data)@.len() ==> r is Ok && final(data)@ == apply_index(
            old(data)@,
            index@,
        ),
        index@.len() != old(data)@.len() ==> r is Err && r->Err_0
            == PermuteError::LengthMismatch && final(data)@ == old(data)@,
{
    let raw = index.raw();
    if raw.len() != data.len() {
        return Err(PermuteError::LengthMismatch);
    }
    let ghost orig = data@;
    let ghost n = data@.len();
    let ghost p = index_as_ints(index@);
    let swaps = index.generate_swaps();
    let mut k: usize = 0;
    while k < swaps.len()
        invariant
            k <= swaps@.len(),
            n == orig.len(),
            n == index@.len(),
            data@.len() == n,
            p == index_as_ints(index@),
            swaps_in_range(swaps@, n),
            apply_swaps(identity_seq(n), swaps@) == p,
            data@ == apply_swaps(orig, swaps@.take(k as int)),
        decreases swaps@.len() - k,
    {
        let (a, b) = swaps[k];
        proof {
            assert(swaps@[k as int].0 < n && swaps@[k as int].1 < n);
            assert(swaps@.take(k + 1) =~= swaps@.take(k as int).push(swaps@[k as int]));
            lemma_apply_swaps_push(orig, swaps@.take(k as int), swaps@[k as int]);
        }
        swap_elements(data, a, b);
        k += 1;
    }
    proof {
        assert(swaps@.take(swaps@.len() as int) =~= swaps@);
        lemma_apply_swaps_via_positions(orig, swaps@);
        assert(data@ =~= apply_index(orig, index@));
    }
    Ok(())
}

/// Reorders `data` in place as [`try_order_by_index_inplace`] does. The index
/// length must equal the data length; under that precondition no error can
/// arise.
pub fn order_by_index_inplace<T>(data: &mut Vec<T>, index: PermuteIndex) where T: Send
    requires
        index@.len() == old(data)@.len(),
    ensures
        final(data)@ == apply_index(old(data)@, index@),
{
    match try_order_by_index_inplace(data, index) {
        Ok(()) => (),
        Err(_) => unreached(),
    }
}

} // verus!
