//! A per-edge chain of transform samples ordered by stamp ascending, bounded
//! by a sample count, with lookup by time.

use vstd::prelude::*;

use crate::errors::TfError;
use crate::msg::{Header, Time, TransformStamped};
use crate::transforms::{interpolate, interpolate_of};

verus! {

/// Stamps never decrease along the sequence: oldest first, duplicates allowed.
pub open spec fn sorted_ascending(s: Seq<TransformStamped>) -> bool {
    forall|i: int, j: int|
        0 <= i < j < s.len() ==> #[trigger] s[i].stamp_nanos() <= #[trigger] s[j].stamp_nanos()
}

/// `pos` is the ordered insertion point for `x` in the stamp-ascending
/// sequence `s`: the first index whose stamp is at or above `x`'s.
pub open spec fn chain_insert_at(s: Seq<TransformStamped>, x: TransformStamped, pos: int) -> bool {
    0 <= pos <= s.len() && (forall|k: int|
        0 <= k < pos ==> #[trigger] s[k].stamp_nanos() < x.stamp_nanos()) && (pos < s.len()
        ==> s[pos].stamp_nanos() >= x.stamp_nanos())
}

/// The sample a bracketed chain query resolves to: the two transforms
/// interpolated at the query time, stamped at that time and carrying the
/// younger sample's frames.
pub open spec fn chain_interpolated(
    older: TransformStamped,
    younger: TransformStamped,
    time: Time,
) -> TransformStamped {
    TransformStamped {
        header: Header { seq: 0u32, frame_id: younger.header.frame_id, stamp: time },
        child_frame_id: younger.child_frame_id,
        transform: interpolate_of(
            older.transform,
            younger.transform,
            (time.as_nanos() - older.stamp_nanos()) as u64,
            (younger.stamp_nanos() - older.stamp_nanos()) as u64,
        ),
    }
}

/// One edge's history of transform samples, ordered oldest first and bounded
/// by a fixed number of samples; a static edge answers every query with its
/// newest sample, or refuses when it holds none yet.
#[derive(Clone, Debug)]
pub struct TfIndividualTransformChain {
    buffer_size: usize,
    static_tf: bool,
    transform_chain: Vec<TransformStamped>,
}

impl TfIndividualTransformChain {
    /// The stored samples, oldest first.
    pub closed spec fn chain(self) -> Seq<TransformStamped> {
        self.transform_chain@
    }

    /// Whether this edge is static.
    pub closed spec fn is_static(self) -> bool {
        self.static_tf
    }

    /// The bound on the number of stored samples.
    pub closed spec fn capacity(self) -> int {
        self.buffer_size as int
    }

    /// Well-formedness: stamps never decrease along the chain.
    pub open spec fn wf(self) -> bool {
        sorted_ascending(self.chain())
    }

    pub fn new(static_tf: bool) -> (r: TfIndividualTransformChain)
        ensures
            r.wf(),
            r.chain() == Seq::<TransformStamped>::empty(),
            r.is_static() == static_tf,
            r.capacity() == 100,
    {
        TfIndividualTransformChain { buffer_size: 100, transform_chain: Vec::new(), static_tf }
    }

    /// Store a sample in stamp order; when the chain outgrows its bound, the
    /// oldest sample falls off.
    pub fn add_to_buffer(&mut self, msg: TransformStamped)
        requires
            old(self).wf(),
        ensures
            final(self).wf(),
            final(self).is_static() == old(self).is_static(),
            final(self).capacity() == old(self).capacity(),
            exists|pos: int|
                #[trigger] chain_insert_at(old(self).chain(), msg, pos) && final(self).chain()
                    == if old(self).chain().len() + 1 > old(self).capacity() {
                    old(self).chain().insert(pos, msg).drop_first()
                } else {
                    old(self).chain().insert(pos, msg)
                },
    {
        let t = msg.header.stamp.nanos();
        let ghost s0 = self.chain();
        let n = self.transform_chain.len();
        let mut pos: usize = 0;
        while pos < n && self.transform_chain[pos].header.stamp.nanos() < t
            invariant
                0 <= pos <= n,
                n == s0.len(),
                s0 == self.chain(),
                t == msg.stamp_nanos(),
                forall|k: int| 0 <= k < pos ==> #[trigger] s0[k].stamp_nanos() < t,
            decreases n - pos,
        {
            pos = pos + 1;
        }
        proof {
            assert(chain_insert_at(s0, msg, pos as int));
            lemma_chain_insert_sorted(s0, msg, pos as int);
        }
        self.transform_chain.insert(pos, msg);
        if self.transform_chain.len() > self.buffer_size {
            let ghost inserted = self.chain();
            self.transform_chain.remove(0);
            proof {
                assert(self.chain() =~= inserted.drop_first());
                assert forall|i: int, j: int|
                    0 <= i < j < self.chain().len() implies #[trigger] self.chain()[i].stamp_nanos()
                    <= #[trigger] self.chain()[j].stamp_nanos() by {
                    assert(self.chain()[i] == inserted[i + 1]);
                    assert(self.chain()[j] == inserted[j + 1]);
                }
            }
        }
    }

    /// The sample a query at `time` resolves to: on a static edge the newest
    /// sample; otherwise an exact match verbatim, a bracketed query
    /// interpolated, and a precise refusal outside the stored range.
    pub fn get_closest_transform(&self, time: Time) -> (r: Result<TransformStamped, TfError>)
        requires
            self.wf(),
        ensures
            self.is_static() && self.chain().len() > 0 ==> r == Ok::<TransformStamped, TfError>(
                self.chain().last(),
            ),
            self.is_static() && self.chain().len() == 0 ==> r == Err::<TransformStamped, TfError>(
                TfError::AttemptedLookupInPast,
            ),
            !self.is_static() && (exists|i: int|
                0 <= i < self.chain().len() && #[trigger] self.chain()[i].stamp_nanos()
                    == time.as_nanos()) ==> exists|i: int|
                0 <= i < self.chain().len() && #[trigger] self.chain()[i].stamp_nanos()
                    == time.as_nanos() && r == Ok::<TransformStamped, TfError>(self.chain()[i]),
            !self.is_static() && !(exists|i: int|
                0 <= i < self.chain().len() && #[trigger] self.chain()[i].stamp_nanos()
                    == time.as_nanos()) ==> {
                if self.chain().len() == 0 || time.as_nanos() < self.chain()[0].stamp_nanos() {
                    r == Err::<TransformStamped, TfError>(TfError::AttemptedLookupInPast)
                } else if time.as_nanos() > self.chain().last().stamp_nanos() {
                    r == Err::<TransformStamped, TfError>(TfError::AttemptedLookUpInFuture)
                } else {
                    exists|i: int|
                        1 <= i < self.chain().len() && #[trigger] self.chain()[i - 1].stamp_nanos()
                            < time.as_nanos() < self.chain()[i].stamp_nanos() && r == Ok::<
                            TransformStamped,
                            TfError,
                        >(chain_interpolated(self.chain()[i - 1], self.chain()[i], time))
                }
            },
    {
        if self.static_tf {
            if self.transform_chain.len() == 0 {
                return Err(TfError::AttemptedLookupInPast);
            }
            return Ok(self.transform_chain[self.transform_chain.len() - 1].clone());
        }
        let t = time.nanos();
        let n = self.transform_chain.len();
        let ghost s = self.chain();
        // Binary search for the first index whose stamp is at or above `t`
        // (the chain is ordered oldest first).
        let mut lo: usize = 0;
        let mut hi: usize = n;
        while lo < hi
            invariant
                0 <= lo <= hi <= n,
                n == s.len(),
                s == self.chain(),
                sorted_ascending(s),
                forall|k: int| 0 <= k < lo ==> #[trigger] s[k].stamp_nanos() < t,
                forall|k: int| hi <= k < n ==> #[trigger] s[k].stamp_nanos() >= t,
            decreases hi - lo,
        {
            let mid = lo + (hi - lo) / 2;
            if self.transform_chain[mid].header.stamp.nanos() >= t {
                proof {
                    assert forall|k: int| mid <= k < n implies #[trigger] s[k].stamp_nanos()
                        >= t by {
                        if k > mid {
                            assert(s[mid as int].stamp_nanos() <= s[k].stamp_nanos());
                        }
                    }
                }
                hi = mid;
            } else {
                proof {
                    assert forall|k: int| 0 <= k < mid + 1 implies #[trigger] s[k].stamp_nanos()
                        < t by {
                        if k < mid {
                            assert(s[k].stamp_nanos() <= s[mid as int].stamp_nanos());
                        }
                    }
                }
                lo = mid + 1;
            }
        }
        if lo < n && self.transform_chain[lo].header.stamp.nanos() == t {
            proof {
                assert(s[lo as int].stamp_nanos() == time.as_nanos());
            }
            return Ok(self.transform_chain[lo].clone());
        }
        proof {
            assert forall|i: int| 0 <= i < s.len() implies #[trigger] s[i].stamp_nanos() != t by {
                if i >= lo && lo < s.len() && i > lo {
                    assert(s[lo as int].stamp_nanos() <= s[i].stamp_nanos());
                }
            }
        }
        if lo == 0 {
            return Err(TfError::AttemptedLookupInPast);
        }
        if lo >= n {
            proof {
                assert(s.last().stamp_nanos() < t);
            }
            return Err(TfError::AttemptedLookUpInFuture);
        }
        proof {
            assert(s[lo - 1].stamp_nanos() < t);
            assert(s[lo as int].stamp_nanos() > t);
        }
        let older_tf = &self.transform_chain[lo - 1];
        let younger_tf = &self.transform_chain[lo];
        let num = t - older_tf.header.stamp.nanos();
        let den = younger_tf.header.stamp.nanos() - older_tf.header.stamp.nanos();
        let final_tf = interpolate(older_tf.transform, younger_tf.transform, num, den);
        let r = TransformStamped {
            header: Header {
                seq: 0u32,
                frame_id: younger_tf.header.frame_id.clone(),
                stamp: time,
            },
            child_frame_id: younger_tf.child_frame_id.clone(),
            transform: final_tf,
        };
        proof {
            assert(1 <= lo < s.len() && s[lo - 1].stamp_nanos() < t && t < s[lo as int].stamp_nanos());
        }
        Ok(r)
    }
}

/// Inserting an element at its ordered position keeps the chain sorted.
proof fn lemma_chain_insert_sorted(s: Seq<TransformStamped>, x: TransformStamped, pos: int)
    requires
        sorted_ascending(s),
        chain_insert_at(s, x, pos),
    ensures
        sorted_ascending(s.insert(pos, x)),
{
    let s2 = s.insert(pos, x);
    assert forall|i: int, j: int|
        0 <= i < j < s2.len() implies #[trigger] s2[i].stamp_nanos()
        <= #[trigger] s2[j].stamp_nanos() by {
        if i < pos {
            assert(s2[i] == s[i]);
        } else if i == pos {
            assert(s2[i] == x);
        } else {
            assert(s2[i] == s[i - 1]);
        }
        if j < pos {
            assert(s2[j] == s[j]);
        } else if j == pos {
            assert(s2[j] == x);
        } else {
            assert(s2[j] == s[j - 1]);
        }
        if i < pos && j == pos {
            assert(s[i].stamp_nanos() < x.stamp_nanos());
        } else if i == pos && j > pos {
            assert(s[j - 1].stamp_nanos() >= s[pos].stamp_nanos());
        }
    }
}

} // verus!
