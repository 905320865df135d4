//! The buffered-move permuter for large inputs.
//!
//! The index and a transient buffer of empty slots are split into contiguous,
//! disjoint chunks of equal size, one per requested thread. The first phase
//! handles one chunk at a time: for every position of the chunk it moves the
//! source element at `index[i]` out of the shared source and into buffer slot
//! `i`, never cloning it. Each slot of the source is emptied exactly once —
//! the index is a bijection — and each buffer slot is written exactly once,
//! by the worker that owns its chunk. After all chunks are done, the second
//! phase relocates the buffer back into the original storage, position for
//! position, leaving the buffer holding only empty slots, so releasing its
//! backing storage tears no element down.
//!
//! Below a fixed size threshold, or with fewer than two threads, the work is
//! handed entirely to the sequential cycle-swap algorithm.
//!
//! A call is all-or-nothing: the only failure is the length check, made
//! before any element moves, so a failed call leaves the data untouched.

use vstd::prelude::*;
use crate::apply::try_order_by_index_inplace;
use crate::index::{PermuteError, PermuteIndex};
use crate::perms::{apply_index, is_perm_index};

verus! {

/// Inputs shorter than this are permuted sequentially even when more than
/// one thread is requested.
const PARALLEL_THRESHOLD: usize = 10000;

/// Relies on `num_cpus::get`: the number of available logical processors of
/// the host, documented to be at least one.
#[verifier::external_body]
fn available_parallelism() -> (n: usize)
    ensures
        n >= 1,
{
    num_cpus::get()
}

/// Some source position `s` has already been drained: a position of the
/// index below `upto` names it.
pub open spec fn drained(idx: Seq<usize>, upto: int, s: int) -> bool {
    exists|t: int| 0 <= t < upto && #[trigger] idx[t] as int == s
}

/// One worker's share of the first phase: for every position `i` of the
/// chunk `start..end`, the source element at `idx[i]` moves out of `slots`
/// and into buffer slot `i`. The chunks write disjoint parts of the buffer,
/// and each reads source slots no other chunk touches.
fn process_chunk<T>(
    slots: &mut Vec<Option<T>>,
    buf: &mut Vec<Option<T>>,
    idx: &[usize],
    start: usize,
    end: usize,
    Ghost(orig): Ghost<Seq<T>>,
)
    requires
        is_perm_index(idx@),
        old(slots)@.len() == idx@.len(),
        old(buf)@.len() == idx@.len(),
        orig.len() == idx@.len(),
        start <= end <= idx@.len(),
        forall|t: int| 0 <= t < start ==> old(buf)@[t] == Some(orig[idx@[t] as int]),
        forall|t: int| start <= t < idx@.len() ==> old(buf)@[t] is None,
        forall|s: int|
            0 <= s < idx@.len() ==> old(slots)@[s] == (if drained(idx@, start as int, s) {
                Option::<T>::None
            } else {
                Some(orig[s])
            }),
    ensures
        final(slots)@.len() == idx@.len(),
        final(buf)@.len() == idx@.len(),
        forall|t: int| 0 <= t < end ==> final(buf)@[t] == Some(orig[idx@[t] as int]),
        forall|t: int| end <= t < idx@.len() ==> final(buf)@[t] is None,
        forall|s: int|
            0 <= s < idx@.len() ==> final(slots)@[s] == (if drained(idx@, end as int, s) {
                Option::<T>::None
            } else {
                Some(orig[s])
            }),
{
    let ghost n = idx@.len();
    let mut i = start;
    while i < end
        invariant
            is_perm_index(idx@),
            n == idx@.len(),
            orig.len() == n,
            slots@.len() == n,
            buf@.len() == n,
            start <= i <= end <= n,
            forall|t: int| 0 <= t < i ==> buf@[t] == Some(orig[idx@[t] as int]),
            forall|t: int| i <= t < n ==> buf@[t] is None,
            forall|s: int|
                0 <= s < n ==> slots@[s] == (if drained(idx@, i as int, s) {
                    Option::<T>::None
                } else {
                    Some(orig[s])
                }),
        decreases end - i,
    {
        let src = idx[i];
        proof {
            assert((idx@[i as int] as int) < n);
            // source position `src` has not been drained by an earlier step
            if drained(idx@, i as int, src as int) {
                let t = choose|t: int| 0 <= t < i && #[trigger] idx@[t] as int == src as int;
                assert(idx@[t] == idx@[i as int]);
                assert(false);
            }
        }
        let mut taken: Option<T> = None;
        slots.set_and_swap(src, &mut taken);
        let ghost buf_before = buf@;
        buf.set(i, taken);
        proof {
            assert forall|s: int|
                0 <= s < n implies slots@[s] == (if drained(idx@, i + 1, s) {
                    Option::<T>::None
                } else {
                    Some(orig[s])
                }) by {
                if s == src as int {
                    assert(idx@[i as int] as int == s);
                    assert(drained(idx@, i + 1, s));
                } else {
                    assert(drained(idx@, i + 1, s) == drained(idx@, i as int, s)) by {
                        if drained(idx@, i + 1, s) {
                            let t = choose|t: int|
                                0 <= t < i + 1 && #[trigger] idx@[t] as int == s;
                            assert(t < i);
                            assert(drained(idx@, i as int, s));
                        }
                    }
                }
            }
            assert forall|t: int| 0 <= t < i + 1 implies buf@[t] == Some(
                orig[idx@[t] as int],
            ) by {
                if t < i {
                    assert(buf@[t] == buf_before[t]);
                }
            }
        }
        i += 1;
    }
}

/// Reorders `data` in place as [`try_order_by_index_inplace`] does, using the
/// buffered-move algorithm split into `num_threads` chunks when the input is
/// long enough, and the sequential algorithm otherwise. Fails with
/// [`PermuteError::LengthMismatch`], and leaves `data` untouched, exactly
/// when the index length differs from the data length.
pub fn try_order_by_index_parallel_inplace_with_threads<T>(
    data: &mut Vec<T>,
    index: PermuteIndex,
    num_threads: usize,
) -> (r: Result<(), PermuteError>) where T: Sync + Send
    ensures
        index@.len() == old(data)@.len() ==> r is Ok && final(data)@ == apply_index(
            old(data)@,
            index@,
        ),
        index@.len() != old(data)@.len() ==> r is Err && r->Err_0
            == PermuteError::LengthMismatch && final(data)@ == old(data)@,
{
    let len = data.len();
    if len < PARALLEL_THRESHOLD || num_threads <= 1 {
        return try_order_by_index_inplace(data, index);
    }
    let raw = index.raw();
    if len != raw.len() {
        return Err(PermuteError::LengthMismatch);
    }
    let ghost orig = data@;
    let ghost n = len as nat;

    // move the elements out of `data`, keeping their order
    let mut backwards: Vec<T> = Vec::new();
    while data.len() > 0
        invariant
            orig.len() == n,
            data@.len() + backwards@.len() == n,
            forall|k: int| 0 <= k < data@.len() ==> data@[k] == orig[k],
            forall|k: int| 0 <= k < backwards@.len() ==> backwards@[k] == orig[n - 1 - k],
        decreases data@.len(),
    {
        match data.pop() {
            Some(v) => backwards.push(v),
            None => unreached(),
        }
    }
    let mut slots: Vec<Option<T>> = Vec::new();
    while backwards.len() > 0
        invariant
            orig.len() == n,
            slots@.len() + backwards@.len() == n,
            forall|s: int| 0 <= s < slots@.len() ==> slots@[s] == Some(orig[s]),
            forall|k: int| 0 <= k < backwards@.len() ==> backwards@[k] == orig[n - 1 - k],
        decreases backwards@.len(),
    {
        match backwards.pop() {
            Some(v) => slots.push(Some(v)),
            None => unreached(),
        }
    }

    // the transient buffer: every slot starts empty
    let mut buf: Vec<Option<T>> = Vec::new();
    let mut f: usize = 0;
    while f < len
        invariant
            f <= len,
            buf@.len() == f,
            forall|t: int| 0 <= t < f ==> buf@[t] is None,
        decreases len - f,
    {
        buf.push(None);
        f += 1;
    }

    // first phase: drain the source into the buffer, chunk by chunk
    proof {
        assert((len as int) / (num_threads as int) < len as int && ((len as int) % (
        num_threads as int) == 0 ==> (len as int) / (num_threads as int) >= 1))
            by (nonlinear_arith)
            requires
                len >= 2,
                num_threads >= 2,
        ;
    }
    let chunk_size = len / num_threads + (if len % num_threads != 0 {
        1
    } else {
        0
    });
    assert(chunk_size >= 1);
    let mut start: usize = 0;
    while start < len
        invariant
            is_perm_index(index@),
            index@ == raw@,
            n == index@.len(),
            orig.len() == n,
            len == n,
            chunk_size >= 1,
            start <= len,
            slots@.len() == n,
            buf@.len() == n,
            forall|t: int| 0 <= t < start ==> buf@[t] == Some(orig[index@[t] as int]),
            forall|t: int| start <= t < n ==> buf@[t] is None,
            forall|s: int|
                0 <= s < n ==> slots@[s] == (if drained(index@, start as int, s) {
                    Option::<T>::None
                } else {
                    Some(orig[s])
                }),
        decreases len - start,
    {
        let end = if len - start > chunk_size {
            start + chunk_size
        } else {
            len
        };
        process_chunk(&mut slots, &mut buf, raw, start, end, Ghost(orig));
        start = end;
    }

    // second phase: relocate the buffer into the original storage
    let mut i: usize = 0;
    while i < len
        invariant
            is_perm_index(index@),
            n == index@.len(),
            orig.len() == n,
            len == n,
            buf@.len() == n,
            i <= len,
            data@.len() == i,
            forall|t: int| 0 <= t < i ==> data@[t] == orig[index@[t] as int],
            forall|t: int| i <= t < n ==> buf@[t] == Some(orig[index@[t] as int]),
        decreases len - i,
    {
        let mut taken: Option<T> = None;
        buf.set_and_swap(i, &mut taken);
        match taken {
            Some(v) => data.push(v),
            None => unreached(),
        }
        i += 1;
    }
    proof {
        assert(data@ =~= apply_index(orig, index@));
    }
    Ok(())
}

/// Reorders `data` in place as
/// [`try_order_by_index_parallel_inplace_with_threads`] does, asking the
/// host for its available parallelism.
pub fn try_order_by_index_parallel_inplace<T>(data: &mut Vec<T>, index: PermuteIndex) -> (r:
    Result<(), PermuteError>) where T: Sync + Send
    ensures
        index@.len() == old(data)@.len() ==> r is Ok && final(data)@ == apply_index(
            old(data)@,
            index@,
        ),
        index@.len() != old(data)@.len() ==> r is Err && r->Err_0
            == PermuteError::LengthMismatch && final(data)@ == old(data)@,
{
    let num_threads = available_parallelism();
    try_order_by_index_parallel_inplace_with_threads(data, index, num_threads)
}

} // verus!
