//! Reorder a vector in place by a validated permutation index, without
//! requiring the element type to be cloneable or copyable.
//!
//! A [`PermuteIndex`] is built once from a raw integer sequence and checked to
//! be a bijection over `0..len`. It can then be applied to any vector of the
//! same length: afterwards `data[i]` holds what `data[index[i]]` held before.
//! A sequential cycle-swap algorithm and a buffered-move algorithm for large
//! inputs are provided; both are proved to realize exactly the requested
//! permutation, moving every element exactly once.

pub mod apply;
pub mod buffered;
pub mod cycles;
pub mod index;
pub mod perms;

pub use apply::order_by_index_inplace;
pub use apply::try_order_by_index_inplace;
pub use buffered::try_order_by_index_parallel_inplace;
pub use buffered::try_order_by_index_parallel_inplace_with_threads;
pub use index::PermuteError;
pub use index::PermuteIndex;

use vstd::prelude::*;

verus! {

/// Applying an identity index leaves any sequence unchanged.
pub proof fn lemma_identity_index_is_no_op<T>(data: Seq<T>, idx: Seq<usize>)
    requires
        idx.len() == data.len(),
        forall|i: int| 0 <= i < idx.len() ==> #[trigger] idx[i] as int == i,
    ensures
        perms::apply_index(data, idx) =~= data,
{
}

/// The sequential and the buffered algorithm agree: each leaves the data at
/// `apply_index` of the original, so on equal inputs their outputs are equal.
pub proof fn lemma_algorithms_agree<T>(orig: Seq<T>, idx: Seq<usize>, r1: Seq<T>, r2: Seq<T>)
    requires
        r1 == perms::apply_index(orig, idx),
        r2 == perms::apply_index(orig, idx),
    ensures
        r1 == r2,
{
}

/// Applying a permutation index rearranges the elements and nothing more:
/// the result holds exactly the original elements, each exactly once.
pub proof fn lemma_apply_index_preserves_multiset<T>(data: Seq<T>, idx: Seq<usize>)
    requires
        perms::is_perm_index(idx),
        idx.len() == data.len(),
    ensures
        perms::apply_index(data, idx).to_multiset() == data.to_multiset(),
    decreases idx.len(),
{
    broadcast use vstd::seq_lib::group_to_multiset_ensures;

    let n = idx.len() as int;
    let r = perms::apply_index(data, idx);
    if n == 0 {
        assert(r =~= Seq::<T>::empty());
        assert(data =~= Seq::<T>::empty());
    } else {
        let k = idx[n - 1] as int;
        let data2 = data.remove(k);
        let idx2 = Seq::new(
            (n - 1) as nat,
            |t: int|
                if (idx[t] as int) < k {
                    idx[t]
                } else {
                    (idx[t] - 1) as usize
                },
        );
        assert(perms::is_perm_index(idx2)) by {
            assert forall|t: int| 0 <= t < idx2.len() implies (#[trigger] idx2[t] as int)
                < idx2.len() by {
                assert(idx[t] != idx[n - 1]);
            }
            assert forall|t1: int, t2: int| 0 <= t1 < t2 < idx2.len() implies idx2[t1]
                != idx2[t2] by {
                assert(idx[t1] != idx[n - 1]);
                assert(idx[t2] != idx[n - 1]);
                assert(idx[t1] != idx[t2]);
            }
        }
        lemma_apply_index_preserves_multiset(data2, idx2);
        assert(r.drop_last() =~= perms::apply_index(data2, idx2)) by {
            assert forall|t: int| 0 <= t < n - 1 implies r.drop_last()[t] == perms::apply_index(
                data2,
                idx2,
            )[t] by {
                assert(idx[t] != idx[n - 1]);
                if (idx[t] as int) < k {
                    assert(data2[idx2[t] as int] == data[idx[t] as int]);
                } else {
                    assert(data2[idx[t] - 1] == data[idx[t] as int]);
                }
            }
        }
        assert(r =~= r.drop_last().push(r.last()));
        assert(r.to_multiset() =~= r.drop_last().to_multiset().insert(r.last()));
        assert(r.last() == data[k]);
        assert(data2.to_multiset() =~= data.to_multiset().remove(data[k]));
        assert(data.contains(data[k]));
        assert(data.to_multiset().count(data[k]) > 0);
        assert(data.to_multiset().remove(data[k]).insert(data[k]) =~= data.to_multiset());
    }
}

} // verus!
