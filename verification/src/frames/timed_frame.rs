//! The cache of a timed edge: a bounded, time-ordered history of transform
//! samples with lookup by time (exact, interpolated, or refused with a
//! precise reason).

use vstd::prelude::*;

use crate::errors::{DiagnosticReason, TfError};
use crate::msg::{Duration, Header, Time, Transform, TransformStamped};
use crate::transforms::{interpolate, interpolate_of};

verus! {

/// The default retention window of a timed edge, in nanoseconds.
pub const DEFAULT_MAX_STORAGE_TIME: i64 = 10 * 1_000_000_000;

/// Stamps strictly decrease along the sequence: newest first, no duplicates.
pub open spec fn strictly_descending(s: Seq<TransformStamped>) -> bool {
    forall|i: int, j: int|
        0 <= i < j < s.len() ==> #[trigger] s[i].stamp_nanos() > #[trigger] s[j].stamp_nanos()
}

/// The stamps of the sequence span at most `window` nanoseconds.
pub open spec fn span_within(s: Seq<TransformStamped>, window: int) -> bool {
    s.len() > 0 ==> s[0].stamp_nanos() - s[s.len() - 1].stamp_nanos() <= window
}

/// The sequence with every sample older than `window` before the newest
/// dropped from its tail.
pub open spec fn pruned(s: Seq<TransformStamped>, window: int) -> Seq<TransformStamped>
    decreases s.len(),
{
    if s.len() == 0 {
        s
    } else if s.last().stamp_nanos() + window < s[0].stamp_nanos() {
        pruned(s.drop_last(), window)
    } else {
        s
    }
}

/// The index of the sample a query at time `t` (nanoseconds) resolves to: the
/// exact match, or the older end of the bracketing pair, or — in a cache of
/// one sample — that sample also when `t` is the "latest available" sentinel.
pub open spec fn closest_older_index(s: Seq<TransformStamped>, t: int) -> Option<int> {
    if s.len() == 0 {
        None
    } else if s.len() == 1 {
        if t == 0 || s[0].stamp_nanos() == t {
            Some(0)
        } else {
            None
        }
    } else if exists|i: int| 0 <= i < s.len() && #[trigger] s[i].stamp_nanos() == t {
        Some(choose|i: int| 0 <= i < s.len() && #[trigger] s[i].stamp_nanos() == t)
    } else if exists|i: int| 1 <= i < s.len() && #[trigger] s[i].stamp_nanos() < t < s[i - 1].stamp_nanos() {
        Some(choose|i: int| 1 <= i < s.len() && #[trigger] s[i].stamp_nanos() < t < s[i - 1].stamp_nanos())
    } else {
        None
    }
}

/// The index of the younger end of the bracketing pair, where a query at `t`
/// interpolates; `None` on an exact match or outside the cached range.
pub open spec fn closest_younger_index(s: Seq<TransformStamped>, t: int) -> Option<int> {
    if s.len() >= 2 && !(exists|i: int| 0 <= i < s.len() && #[trigger] s[i].stamp_nanos() == t) && (
    exists|i: int| 1 <= i < s.len() && #[trigger] s[i].stamp_nanos() < t < s[i - 1].stamp_nanos()) {
        Some(
            (choose|i: int| 1 <= i < s.len() && #[trigger] s[i].stamp_nanos() < t < s[i - 1].stamp_nanos())
                - 1,
        )
    } else {
        None
    }
}

/// `pos` is the ordered insertion point for a sample with stamp
/// `x.stamp_nanos()` in the stamp-descending sequence `s`.
pub open spec fn insert_ok_at(s: Seq<TransformStamped>, x: TransformStamped, pos: int) -> bool {
    0 <= pos <= s.len() && (forall|k: int|
        0 <= k < pos ==> #[trigger] s[k].stamp_nanos() > x.stamp_nanos()) && (pos < s.len()
        ==> s[pos].stamp_nanos() < x.stamp_nanos())
}

/// Whether the cache accepts a new sample: it is not older than the window
/// allows behind the newest stamp, and no stored sample carries the same
/// stamp.
pub open spec fn timed_accepts(
    s: Seq<TransformStamped>,
    window: int,
    sample: TransformStamped,
) -> bool {
    !(s.len() > 0 && s[0].stamp_nanos() > sample.stamp_nanos() + window) && !(exists|i: int|
        0 <= i < s.len() && #[trigger] s[i].stamp_nanos() == sample.stamp_nanos())
}

/// The sample a bracketed query resolves to: the younger sample verbatim where
/// the bracket is degenerate, else the interpolation of the two transforms at
/// the query time, stamped at that time and carrying the older sample's frames.
pub open spec fn interpolated_sample(
    older: TransformStamped,
    younger: TransformStamped,
    time: Time,
) -> TransformStamped {
    if older.stamp_nanos() == younger.stamp_nanos() {
        younger
    } else {
        TransformStamped {
            header: Header { seq: 0u32, frame_id: older.header.frame_id, stamp: time },
            child_frame_id: older.child_frame_id,
            transform: interpolate_of(
                older.transform,
                younger.transform,
                (time.as_nanos() - older.stamp_nanos()) as u64,
                (younger.stamp_nanos() - older.stamp_nanos()) as u64,
            ),
        }
    }
}

/// What a timed edge hands the lookup engine for a query at `t`: the newest
/// transform for the "latest available" sentinel; an exact match verbatim; a
/// bracketed query interpolated, unless the bracket straddles a change of
/// parent frame, in which case the older sample's transform verbatim; and a
/// precise refusal outside the cached range.
pub open spec fn sample_at_spec(s: Seq<TransformStamped>, t: Time) -> Result<Transform, TfError> {
    if s.len() == 0 {
        Err(TfError::AttemptedLookupInPast)
    } else if t.as_nanos() == 0 {
        Ok(s[0].transform)
    } else if t.as_nanos() > s[0].stamp_nanos() {
        Err(TfError::AttemptedLookUpInFuture)
    } else if t.as_nanos() < s[s.len() - 1].stamp_nanos() {
        Err(TfError::AttemptedLookupInPast)
    } else {
        match closest_older_index(s, t.as_nanos()) {
            Some(i) => {
                if s[i].stamp_nanos() == t.as_nanos() {
                    Ok(s[i].transform)
                } else if s[i].header.frame_id@ == s[i - 1].header.frame_id@ {
                    Ok(
                        interpolate_of(
                            s[i].transform,
                            s[i - 1].transform,
                            (t.as_nanos() - s[i].stamp_nanos()) as u64,
                            (s[i - 1].stamp_nanos() - s[i].stamp_nanos()) as u64,
                        ),
                    )
                } else {
                    Ok(s[i].transform)
                }
            },
            None => Err(TfError::AttemptedLookupInPast),
        }
    }
}

/// A timed edge's cache: samples ordered by stamp descending (newest first),
/// bounded by `max_storage_time`.
#[derive(Clone, Debug)]
pub struct TimedFrame {
    transform_cache: Vec<TransformStamped>,
    max_storage_time: Duration,
}

impl TimedFrame {
    /// The cached samples, newest first.
    pub closed spec fn cache(self) -> Seq<TransformStamped> {
        self.transform_cache@
    }

    /// The retention window.
    pub closed spec fn window(self) -> Duration {
        self.max_storage_time
    }

    /// Well-formedness: stamps strictly decrease from the front, and the whole
    /// history spans at most the retention window.
    pub open spec fn wf(self) -> bool {
        strictly_descending(self.cache()) && span_within(self.cache(), self.window().as_nanos())
    }

    pub fn new(max_storage_time: Duration) -> (r: TimedFrame)
        ensures
            r.wf(),
            r.cache() == Seq::<TransformStamped>::empty(),
            r.window() == max_storage_time,
    {
        TimedFrame { transform_cache: Vec::new(), max_storage_time }
    }

    /// How many samples the cache holds.
    pub fn len(&self) -> (r: usize)
        ensures
            r == self.cache().len(),
    {
        self.transform_cache.len()
    }

    /// The cached samples, newest first.
    pub fn samples(&self) -> (r: &Vec<TransformStamped>)
        ensures
            r@ == self.cache(),
    {
        &self.transform_cache
    }

    /// The first position whose stamp is at or below `t`, by binary search
    /// over the stamp-descending cache.
    fn lower_bound(&self, t: u64) -> (lo: usize)
        requires
            self.wf(),
        ensures
            0 <= lo <= self.cache().len(),
            forall|k: int| 0 <= k < lo ==> #[trigger] self.cache()[k].stamp_nanos() > t,
            forall|k: int|
                lo <= k < self.cache().len() ==> #[trigger] self.cache()[k].stamp_nanos() <= t,
    {
        let ghost s = self.cache();
        let n = self.transform_cache.len();
        let mut lo: usize = 0;
        let mut hi: usize = n;
        while lo < hi
            invariant
                0 <= lo <= hi <= n,
                n == s.len(),
                s == self.cache(),
                strictly_descending(s),
                forall|k: int| 0 <= k < lo ==> #[trigger] s[k].stamp_nanos() > t,
                forall|k: int| hi <= k < n ==> #[trigger] s[k].stamp_nanos() <= t,
            decreases hi - lo,
        {
            let mid = lo + (hi - lo) / 2;
            if self.transform_cache[mid].header.stamp.nanos() <= t {
                proof {
                    assert forall|k: int| mid <= k < n implies #[trigger] s[k].stamp_nanos()
                        <= t by {
                        if k > mid {
                            assert(s[mid as int].stamp_nanos() > s[k].stamp_nanos());
                        }
                    }
                }
                hi = mid;
            } else {
                proof {
                    assert forall|k: int| 0 <= k < mid + 1 implies #[trigger] s[k].stamp_nanos()
                        > t by {
                        if k < mid {
                            assert(s[k].stamp_nanos() > s[mid as int].stamp_nanos());
                        }
                    }
                }
                lo = mid + 1;
            }
        }
        lo
    }

    /// The pair (older, younger) of cached samples bracketing the query time:
    /// an exact match or single latest-available sample comes back alone in
    /// the older slot, and a query outside the cached range finds nothing.
    #[verifier::rlimit(60)]
    pub fn find_closest(&self, target_time: Time) -> (r: (
        Option<&TransformStamped>,
        Option<&TransformStamped>,
    ))
        requires
            self.wf(),
        ensures
            match closest_older_index(self.cache(), target_time.as_nanos()) {
                Some(i) => r.0 is Some && *r.0.unwrap() == self.cache()[i],
                None => r.0 is None,
            },
            match closest_younger_index(self.cache(), target_time.as_nanos()) {
                Some(j) => r.1 is Some && *r.1.unwrap() == self.cache()[j],
                None => r.1 is None,
            },
    {
        let n = self.transform_cache.len();
        if n == 0 {
            return (None, None);
        }
        let t = target_time.nanos();
        if n == 1 {
            let first = &self.transform_cache[0];
            if t == 0 || first.header.stamp.nanos() == t {
                return (Some(first), None);
            } else {
                return (None, None);
            }
        }
        let ghost s = self.cache();
        let lo = self.lower_bound(t);
        proof {
            lemma_closest_from_bounds(s, t as int, lo as int);
        }
        if lo < n && self.transform_cache[lo].header.stamp.nanos() == t {
            return (Some(&self.transform_cache[lo]), None);
        }
        if lo == 0 || lo == n {
            return (None, None);
        }
        (Some(&self.transform_cache[lo]), Some(&self.transform_cache[lo - 1]))
    }

    /// The parent frame that a query at `time` resolves to, if any.
    pub fn get_parent(&self, time: Time) -> (r: Option<&str>)
        requires
            self.wf(),
        ensures
            match closest_older_index(self.cache(), time.as_nanos()) {
                Some(i) => r is Some && r.unwrap()@ == self.cache()[i].header.frame_id@,
                None => r is None,
            },
    {
        match self.find_closest(time) {
            (None, _) => None,
            (Some(older_tf), _) => Some(older_tf.header.frame_id.as_str()),
        }
    }

    /// The newest sample's stamp and parent frame, or the zero time and no
    /// parent on an empty cache.
    pub fn get_latest_time_and_parent(&self) -> (r: (Time, Option<&str>))
        ensures
            self.cache().len() == 0 ==> r.0.as_nanos() == 0 && r.1 is None,
            self.cache().len() > 0 ==> r.0 == self.cache()[0].header.stamp && r.1 is Some
                && r.1.unwrap()@ == self.cache()[0].header.frame_id@,
    {
        if self.transform_cache.len() > 0 {
            let frame = &self.transform_cache[0];
            (frame.header.stamp, Some(frame.header.frame_id.as_str()))
        } else {
            (Time::zero(), None)
        }
    }

    /// The sample a query at `time` resolves to: an exact or single match
    /// verbatim, a bracketed query interpolated unless the bracket straddles a
    /// change of parent, and nothing outside the cached range.
    pub fn get_data(&self, time: Time) -> (r: Option<TransformStamped>)
        requires
            self.wf(),
        ensures
            match closest_older_index(self.cache(), time.as_nanos()) {
                Some(i) => {
                    match closest_younger_index(self.cache(), time.as_nanos()) {
                        Some(j) => {
                            if self.cache()[i].header.frame_id@
                                == self.cache()[j].header.frame_id@ {
                                r == Some(
                                    interpolated_sample(self.cache()[i], self.cache()[j], time),
                                )
                            } else {
                                r == Some(self.cache()[i])
                            }
                        },
                        None => r == Some(self.cache()[i]),
                    }
                },
                None => r is None,
            },
    {
        match self.find_closest(time) {
            (None, _) => None,
            (Some(older_tf), Some(younger_tf)) => {
                if older_tf.header.frame_id == younger_tf.header.frame_id {
                    Some(TimedFrame::interpolate(older_tf, younger_tf, time))
                } else {
                    Some(older_tf.clone())
                }
            },
            (Some(older_tf), None) => Some(older_tf.clone()),
        }
    }

    /// The sample between `older_tf` and `younger_tf` at `time`: the younger
    /// verbatim where the stamps coincide, else the interpolation of the two,
    /// stamped at `time` under the older sample's frames.
    fn interpolate(older_tf: &TransformStamped, younger_tf: &TransformStamped, time: Time) -> (r:
        TransformStamped)
        requires
            older_tf.stamp_nanos() <= time.as_nanos() <= younger_tf.stamp_nanos(),
        ensures
            r == interpolated_sample(*older_tf, *younger_tf, time),
    {
        if older_tf.header.stamp.nanos() == younger_tf.header.stamp.nanos() {
            younger_tf.clone()
        } else {
            let num = time.nanos() - older_tf.header.stamp.nanos();
            let den = younger_tf.header.stamp.nanos() - older_tf.header.stamp.nanos();
            let interpolated_transform = interpolate(
                older_tf.transform,
                younger_tf.transform,
                num,
                den,
            );
            TransformStamped {
                header: Header {
                    stamp: time,
                    frame_id: older_tf.header.frame_id.clone(),
                    seq: 0u32,
                },
                transform: interpolated_transform,
                child_frame_id: older_tf.child_frame_id.clone(),
            }
        }
    }

    /// The transform a timed edge contributes to a lookup at `time`.
    pub fn sample_at(&self, time: Time) -> (r: Result<Transform, TfError>)
        requires
            self.wf(),
        ensures
            r == sample_at_spec(self.cache(), time),
    {
        let n = self.transform_cache.len();
        if n == 0 {
            return Err(TfError::AttemptedLookupInPast);
        }
        let t = time.nanos();
        if t == 0 {
            return Ok(self.transform_cache[0].transform);
        }
        if t > self.transform_cache[0].header.stamp.nanos() {
            return Err(TfError::AttemptedLookUpInFuture);
        }
        if t < self.transform_cache[n - 1].header.stamp.nanos() {
            return Err(TfError::AttemptedLookupInPast);
        }
        match self.find_closest(time) {
            (Some(older_tf), Some(younger_tf)) => {
                if older_tf.header.frame_id == younger_tf.header.frame_id {
                    let num = t - older_tf.header.stamp.nanos();
                    let den = younger_tf.header.stamp.nanos() - older_tf.header.stamp.nanos();
                    Ok(interpolate(older_tf.transform, younger_tf.transform, num, den))
                } else {
                    Ok(older_tf.transform)
                }
            },
            (Some(older_tf), None) => Ok(older_tf.transform),
            (None, _) => {
                proof {
                    lemma_in_range_resolves(self.cache(), t as int);
                }
                Err(TfError::AttemptedLookupInPast)
            },
        }
    }

    /// Store a new sample: refused as too old where it falls out of the
    /// retention window behind the newest sample, refused as repeated where a
    /// sample with the identical stamp exists, and otherwise inserted in
    /// stamp order, after which samples older than the window before the
    /// newest stamp are pruned.
    pub fn insert_data(&mut self, transform: TransformStamped) -> (r: Result<
        (),
        DiagnosticReason,
    >)
        requires
            old(self).wf(),
        ensures
            final(self).wf(),
            final(self).window() == old(self).window(),
            (r == Err::<(), DiagnosticReason>(DiagnosticReason::OldData)) <==> (old(
                self,
            ).cache().len() > 0 && old(self).cache()[0].stamp_nanos() > transform.stamp_nanos()
                + old(self).window().as_nanos()),
            (r == Err::<(), DiagnosticReason>(DiagnosticReason::RepeatedData)) <==> (!(old(
                self,
            ).cache().len() > 0 && old(self).cache()[0].stamp_nanos() > transform.stamp_nanos()
                + old(self).window().as_nanos()) && exists|i: int|
                0 <= i < old(self).cache().len() && old(self).cache()[i].stamp_nanos()
                    == transform.stamp_nanos()),
            r is Err ==> *final(self) == *old(self),
            r is Ok <==> timed_accepts(
                old(self).cache(),
                old(self).window().as_nanos(),
                transform,
            ),
            r is Ok ==> exists|pos: int|
                #[trigger] insert_ok_at(old(self).cache(), transform, pos) && final(self).cache()
                    == pruned(
                    old(self).cache().insert(pos, transform),
                    old(self).window().as_nanos(),
                ),
    {
        let t = transform.header.stamp.nanos();
        let n = self.transform_cache.len();
        let window = self.max_storage_time.nanos();
        if n > 0 && self.transform_cache[0].header.stamp.nanos() > t + window {
            return Err(DiagnosticReason::OldData);
        }
        let ghost s0 = self.cache();
        let pos = self.lower_bound(t);
        if pos < n && self.transform_cache[pos].header.stamp.nanos() == t {
            proof {
                assert(s0[pos as int].stamp_nanos() == t);
            }
            return Err(DiagnosticReason::RepeatedData);
        }
        proof {
            assert forall|i: int| 0 <= i < s0.len() implies #[trigger] s0[i].stamp_nanos()
                != t by {
                if i >= pos && pos < s0.len() && i > pos {
                    assert(s0[i].stamp_nanos() < s0[pos as int].stamp_nanos());
                }
            }
            lemma_insert_descending(s0, transform, pos as int);
        }
        self.transform_cache.insert(pos, transform);
        let ghost inserted = self.cache();
        proof {
            assert(insert_ok_at(s0, transform, pos as int));
        }
        // Prune samples that have aged out of the window behind the newest.
        while self.transform_cache[self.transform_cache.len() - 1].header.stamp.nanos() + window
            < self.transform_cache[0].header.stamp.nanos()
            invariant
                self.cache().len() >= 1,
                window == self.window().as_nanos(),
                self.window() == old(self).window(),
                pruned(inserted, window as int) == pruned(self.cache(), window as int),
            decreases self.cache().len(),
        {
            proof {
                if self.cache().len() == 1 {
                    assert(self.cache().last() == self.cache()[0]);
                    assert(false);
                }
                assert(pruned(self.cache(), window as int) == pruned(
                    self.cache().drop_last(),
                    window as int,
                ));
            }
            let _ = self.transform_cache.pop();
        }
        proof {
            assert(pruned(self.cache(), window as int) == self.cache());
            lemma_pruned_fields(inserted, window as int);
        }
        Ok(())
    }

    /// Why a sample would be refused, or `None` where it would be stored.
    pub fn can_insert(&self, transform: &TransformStamped) -> (r: Option<DiagnosticReason>)
        requires
            self.wf(),
        ensures
            r is None <==> timed_accepts(self.cache(), self.window().as_nanos(), *transform),
            r is Some ==> r == Some(DiagnosticReason::OldData) || r == Some(
                DiagnosticReason::RepeatedData,
            ),
    {
        let t = transform.header.stamp.nanos();
        let n = self.transform_cache.len();
        if n > 0 && self.transform_cache[0].header.stamp.nanos() > t + self.max_storage_time.nanos() {
            return Some(DiagnosticReason::OldData);
        }
        let ghost s0 = self.cache();
        let lo = self.lower_bound(t);
        if lo < n && self.transform_cache[lo].header.stamp.nanos() == t {
            proof {
                assert(s0[lo as int].stamp_nanos() == t);
            }
            return Some(DiagnosticReason::RepeatedData);
        }
        proof {
            assert forall|i: int| 0 <= i < s0.len() implies #[trigger] s0[i].stamp_nanos()
                != t by {
                if i >= lo && lo < s0.len() && i > lo {
                    assert(s0[i].stamp_nanos() < s0[lo as int].stamp_nanos());
                }
            }
        }
        None
    }
}

impl Default for TimedFrame {
    /// A fresh timed cache with the default ten-second retention window.
    fn default() -> (r: TimedFrame)
        ensures
            r.wf(),
            r.cache() == Seq::<TransformStamped>::empty(),
            r.window().as_nanos() == DEFAULT_MAX_STORAGE_TIME as int,
    {
        TimedFrame::new(Duration::from_nanos(DEFAULT_MAX_STORAGE_TIME))
    }
}

/// What the two closest-index spec functions resolve to, given the bounds the
/// binary search establishes: `lo` is the first index whose stamp is at or
/// below `t`.
proof fn lemma_closest_from_bounds(s: Seq<TransformStamped>, t: int, lo: int)
    requires
        strictly_descending(s),
        s.len() >= 2,
        0 <= lo <= s.len(),
        forall|k: int| 0 <= k < lo ==> #[trigger] s[k].stamp_nanos() > t,
        forall|k: int| lo <= k < s.len() ==> #[trigger] s[k].stamp_nanos() <= t,
    ensures
        lo < s.len() && s[lo].stamp_nanos() == t ==> closest_older_index(s, t) == Some(lo)
            && closest_younger_index(s, t) is None,
        !(lo < s.len() && s[lo].stamp_nanos() == t) && (lo == 0 || lo == s.len())
            ==> closest_older_index(s, t) is None && closest_younger_index(s, t) is None,
        !(lo < s.len() && s[lo].stamp_nanos() == t) && 0 < lo < s.len() ==> closest_older_index(
            s,
            t,
        ) == Some(lo) && closest_younger_index(s, t) == Some(lo - 1),
{
    if lo < s.len() && s[lo].stamp_nanos() == t {
        let io = closest_older_index(s, t);
        assert(io is Some);
        lemma_stamp_unique(s, io.unwrap(), lo);
    } else if lo == 0 || lo == s.len() {
        if lo == 0 {
            assert forall|i: int| 0 <= i < s.len() implies #[trigger] s[i].stamp_nanos() != t by {
                if i > 0 {
                    assert(s[i].stamp_nanos() < s[0].stamp_nanos());
                }
            }
        } else {
            assert forall|i: int| 0 <= i < s.len() implies #[trigger] s[i].stamp_nanos() != t by {}
        }
    } else {
        assert(s[lo].stamp_nanos() < t);
        assert(s[lo - 1].stamp_nanos() > t);
        assert forall|i: int| 0 <= i < s.len() implies #[trigger] s[i].stamp_nanos() != t by {
            if i > lo {
                assert(s[i].stamp_nanos() < s[lo].stamp_nanos());
            }
        }
        let io = closest_older_index(s, t);
        assert(io is Some);
        lemma_bracket_unique(s, io.unwrap(), lo, t);
        let jy = closest_younger_index(s, t);
        assert(jy is Some);
        lemma_bracket_unique(s, jy.unwrap() + 1, lo, t);
    }
}

/// Dropping the last element keeps a sequence strictly descending.
proof fn lemma_descending_drop_last(s: Seq<TransformStamped>)
    requires
        strictly_descending(s),
        s.len() >= 1,
    ensures
        strictly_descending(s.drop_last()),
{
    assert forall|i: int, j: int|
        0 <= i < j < s.drop_last().len() implies #[trigger] s.drop_last()[i].stamp_nanos()
        > #[trigger] s.drop_last()[j].stamp_nanos() by {
        assert(s.drop_last()[i] == s[i]);
        assert(s.drop_last()[j] == s[j]);
    }
}

/// Pruning keeps a prefix: every kept sample sits at its old position.
proof fn lemma_pruned_prefix(s: Seq<TransformStamped>, window: int)
    ensures
        pruned(s, window).len() <= s.len(),
        forall|i: int| 0 <= i < pruned(s, window).len() ==> #[trigger] pruned(s, window)[i] == s[i],
    decreases s.len(),
{
    if s.len() == 0 {
    } else if s.last().stamp_nanos() + window < s[0].stamp_nanos() {
        lemma_pruned_prefix(s.drop_last(), window);
        assert forall|i: int|
            0 <= i < pruned(s, window).len() implies #[trigger] pruned(s, window)[i] == s[i] by {
            assert(pruned(s, window)[i] == s.drop_last()[i]);
        }
    } else {
    }
}

/// A sample within the window of the front survives pruning.
proof fn lemma_pruned_keeps(s: Seq<TransformStamped>, window: int, k: int)
    requires
        strictly_descending(s),
        0 <= k < s.len(),
        s[k].stamp_nanos() + window >= s[0].stamp_nanos(),
    ensures
        k < pruned(s, window).len(),
    decreases s.len(),
{
    if s.last().stamp_nanos() + window < s[0].stamp_nanos() {
        if k == s.len() - 1 {
            assert(s.last() == s[k]);
            assert(false);
        }
        lemma_descending_drop_last(s);
        assert(s.drop_last()[0] == s[0]);
        assert(s.drop_last()[k] == s[k]);
        lemma_pruned_keeps(s.drop_last(), window, k);
    } else {
    }
}

/// A sample the cache accepted is read back verbatim by a query at its own
/// stamp, right after the insertion and pruning.
pub proof fn lemma_insert_then_sample(
    s: Seq<TransformStamped>,
    sample: TransformStamped,
    pos: int,
    window: int,
)
    requires
        strictly_descending(s),
        window >= 0,
        insert_ok_at(s, sample, pos),
        s.len() > 0 ==> s[0].stamp_nanos() <= sample.stamp_nanos() + window,
        sample.stamp_nanos() != 0,
    ensures
        sample_at_spec(pruned(s.insert(pos, sample), window), sample.header.stamp) == Ok::<
            Transform,
            TfError,
        >(sample.transform),
{
    let s2 = s.insert(pos, sample);
    lemma_insert_descending(s, sample, pos);
    let p = pruned(s2, window);
    lemma_pruned_prefix(s2, window);
    assert(s2[pos] == sample);
    if pos > 0 {
        assert(s2[0] == s[0]);
    }
    assert(s2[pos].stamp_nanos() + window >= s2[0].stamp_nanos());
    lemma_pruned_keeps(s2, window, pos);
    assert(strictly_descending(p)) by {
        assert forall|i: int, j: int|
            0 <= i < j < p.len() implies #[trigger] p[i].stamp_nanos()
            > #[trigger] p[j].stamp_nanos() by {
            assert(p[i] == s2[i]);
            assert(p[j] == s2[j]);
        }
    }
    let t = sample.header.stamp;
    assert(p[pos] == sample);
    assert(p[0] == s2[0]);
    if pos > 0 {
        assert(s2[0].stamp_nanos() > s2[pos].stamp_nanos());
    }
    assert(t.as_nanos() <= p[0].stamp_nanos());
    let last = p.len() - 1;
    if last > pos {
        assert(p[last].stamp_nanos() < p[pos].stamp_nanos());
    }
    assert(p[last].stamp_nanos() <= t.as_nanos());
    assert(p[pos as int].stamp_nanos() == t.as_nanos());
    if p.len() == 1 {
        assert(pos == 0);
        assert(sample_at_spec(p, t) == Ok::<Transform, TfError>(p[0].transform));
    } else {
        let io = closest_older_index(p, t.as_nanos());
        assert(io is Some);
        assert(p[io.unwrap()].stamp_nanos() == t.as_nanos());
        lemma_stamp_unique(p, io.unwrap(), pos);
        assert(sample_at_spec(p, t) == Ok::<Transform, TfError>(p[pos].transform));
    }
}

/// In a strictly descending sequence, a stamp occurs at most once.
proof fn lemma_stamp_unique(s: Seq<TransformStamped>, i: int, j: int)
    requires
        strictly_descending(s),
        0 <= i < s.len(),
        0 <= j < s.len(),
        s[i].stamp_nanos() == s[j].stamp_nanos(),
    ensures
        i == j,
{
    if i < j {
        assert(s[i].stamp_nanos() > s[j].stamp_nanos());
    } else if j < i {
        assert(s[j].stamp_nanos() > s[i].stamp_nanos());
    }
}

/// In a strictly descending sequence, the pair bracketing a time is unique.
proof fn lemma_bracket_unique(s: Seq<TransformStamped>, i: int, j: int, t: int)
    requires
        strictly_descending(s),
        1 <= i < s.len(),
        1 <= j < s.len(),
        s[i].stamp_nanos() < t < s[i - 1].stamp_nanos(),
        s[j].stamp_nanos() < t < s[j - 1].stamp_nanos(),
    ensures
        i == j,
{
    if i < j {
        assert(s[j - 1].stamp_nanos() <= s[i].stamp_nanos());
    } else if j < i {
        assert(s[i - 1].stamp_nanos() <= s[j].stamp_nanos());
    }
}

/// A query time inside the cached range resolves to some sample: an exact
/// match or the older end of a bracketing pair.
proof fn lemma_in_range_resolves(s: Seq<TransformStamped>, t: int)
    requires
        strictly_descending(s),
        s.len() >= 1,
        t != 0,
        s[s.len() - 1].stamp_nanos() <= t <= s[0].stamp_nanos(),
    ensures
        closest_older_index(s, t) is Some,
{
    if s.len() == 1 {
        assert(s[0].stamp_nanos() == t);
    } else if exists|i: int| 0 <= i < s.len() && #[trigger] s[i].stamp_nanos() == t {
    } else {
        assert(s[s.len() - 1].stamp_nanos() < t);
        assert(s[0].stamp_nanos() > t);
        lemma_bracket_exists(s, t, s.len() - 1);
    }
}

/// Between an element below `t` and a front element above `t` there is a
/// bracketing pair.
proof fn lemma_bracket_exists(s: Seq<TransformStamped>, t: int, k: int)
    requires
        strictly_descending(s),
        1 <= k < s.len(),
        s[k].stamp_nanos() < t,
        s[0].stamp_nanos() > t,
        forall|i: int| 0 <= i < s.len() ==> #[trigger] s[i].stamp_nanos() != t,
    ensures
        exists|i: int| 1 <= i < s.len() && #[trigger] s[i].stamp_nanos() < t < s[i - 1].stamp_nanos(),
    decreases k,
{
    if s[k - 1].stamp_nanos() > t {
        assert(1 <= k < s.len() && s[k].stamp_nanos() < t < s[k - 1].stamp_nanos());
    } else {
        if k == 1 {
            assert(false);
        }
        lemma_bracket_exists(s, t, k - 1);
    }
}

/// Inserting an element at its ordered position keeps the sequence strictly
/// descending.
proof fn lemma_insert_descending(s: Seq<TransformStamped>, x: TransformStamped, pos: int)
    requires
        strictly_descending(s),
        0 <= pos <= s.len(),
        forall|k: int| 0 <= k < pos ==> #[trigger] s[k].stamp_nanos() > x.stamp_nanos(),
        pos < s.len() ==> s[pos].stamp_nanos() < x.stamp_nanos(),
    ensures
        strictly_descending(s.insert(pos, x)),
{
    let s2 = s.insert(pos, x);
    assert forall|i: int, j: int|
        0 <= i < j < s2.len() implies #[trigger] s2[i].stamp_nanos()
        > #[trigger] s2[j].stamp_nanos() by {
        if i < pos {
            assert(s2[i] == s[i]);
        } else if i == pos {
            assert(s2[i] == x);
        } else {
            assert(s2[i] == s[i - 1]);
        }
        if j < pos {
            assert(s2[j] == s[j]);
        } else if j == pos {
            assert(s2[j] == x);
        } else {
            assert(s2[j] == s[j - 1]);
        }
        if i < pos && j == pos {
            assert(s[i].stamp_nanos() > x.stamp_nanos());
        } else if i == pos && j > pos {
            assert(s[j - 1].stamp_nanos() <= s[pos].stamp_nanos());
        }
    }
}

/// Pruning keeps the front element, strict descent, and bounds the span by
/// the window.
proof fn lemma_pruned_fields(s: Seq<TransformStamped>, window: int)
    requires
        strictly_descending(s),
        s.len() >= 1,
        window >= 0,
    ensures
        pruned(s, window).len() >= 1,
        pruned(s, window)[0] == s[0],
        strictly_descending(pruned(s, window)),
        span_within(pruned(s, window), window),
    decreases s.len(),
{
    if s.len() == 0 {
    } else if s.last().stamp_nanos() + window < s[0].stamp_nanos() {
        assert(s.len() >= 2) by {
            if s.len() == 1 {
                assert(s.last() == s[0]);
            }
        }
        assert(strictly_descending(s.drop_last())) by {
            assert forall|i: int, j: int|
                0 <= i < j < s.drop_last().len() implies #[trigger] s.drop_last()[i].stamp_nanos()
                > #[trigger] s.drop_last()[j].stamp_nanos() by {
                assert(s.drop_last()[i] == s[i]);
                assert(s.drop_last()[j] == s[j]);
            }
        }
        lemma_pruned_fields(s.drop_last(), window);
        assert(s.drop_last()[0] == s[0]);
    } else {
    }
}

} // verus!
