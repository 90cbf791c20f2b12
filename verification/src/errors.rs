//! Error kinds of the lookup engine and structured reasons for rejected
//! transform samples.

use vstd::prelude::*;

use crate::msg::{Duration, Time, TransformStamped};

verus! {

/// Enumerates the different types of errors a transform lookup can produce.
#[derive(Clone, Copy, Debug, PartialEq, Eq, Structural)]
pub enum TfError {
    /// Error due to looking up too far in the past: the information is no
    /// longer available in the cache on at least one edge of the path.
    AttemptedLookupInPast,
    /// Error due to the transform not yet being available: the requested time
    /// is newer than the newest sample on at least one edge of the path.
    AttemptedLookUpInFuture,
    /// There is no path between the from and to frame.
    CouldNotFindTransform,
    /// The breadth-first search exceeded the graph depth bound.
    GraphTooDeep,
    /// An argument was rejected: equal parent and child, an empty frame
    /// identifier, or a non-finite number.
    InvalidArgument,
    /// In the event that a write is simultaneously happening with a read of
    /// the same tf buffer.
    CouldNotAcquireLock,
}

/// Why an incoming transform sample was not stored.
#[derive(Clone, Copy, Debug, PartialEq, Eq, Structural)]
pub enum DiagnosticReason {
    /// The sample is older than the retention window of its edge allows.
    OldData,
    /// A sample with the identical stamp is already stored on the edge.
    RepeatedData,
    /// A translation coordinate or quaternion component is not finite.
    NanInput,
    /// The parent frame equals the child frame.
    SelfParent,
    /// The parent or the child frame identifier is empty.
    EmptyFrameId,
    /// The edge already exists with the other variant (static versus timed).
    VariantChange,
}

impl DiagnosticReason {
    /// The diagnostic message for this reason.
    pub open spec fn spec_message(self) -> Seq<char> {
        match self {
            DiagnosticReason::OldData => "TF_OLD_DATA ignoring data from the past"@,
            DiagnosticReason::RepeatedData => "TF_REPEATED_DATA ignoring data with redundant timestamp"@,
            DiagnosticReason::NanInput => "TF_NAN_INPUT ignoring data with non-finite numbers"@,
            DiagnosticReason::SelfParent => "TF_SELF_PARENT ignoring transform from a frame to itself"@,
            DiagnosticReason::EmptyFrameId => "TF_EMPTY_FRAME_ID ignoring transform with an empty frame id"@,
            DiagnosticReason::VariantChange => "TF_VARIANT_CHANGE ignoring transform that would change a static edge to a timed one or back"@,
        }
    }

    /// The diagnostic message for this reason.
    pub fn message(&self) -> (r: &'static str)
        ensures
            r@ == self.spec_message(),
    {
        match self {
            DiagnosticReason::OldData => "TF_OLD_DATA ignoring data from the past",
            DiagnosticReason::RepeatedData => "TF_REPEATED_DATA ignoring data with redundant timestamp",
            DiagnosticReason::NanInput => "TF_NAN_INPUT ignoring data with non-finite numbers",
            DiagnosticReason::SelfParent => "TF_SELF_PARENT ignoring transform from a frame to itself",
            DiagnosticReason::EmptyFrameId => "TF_EMPTY_FRAME_ID ignoring transform with an empty frame id",
            DiagnosticReason::VariantChange => "TF_VARIANT_CHANGE ignoring transform that would change a static edge to a timed one or back",
        }
    }
}

/// A structured diagnostic for a rejected sample: the reason together with
/// the offending frame names and stamp. Emission is the host's business; the
/// library only hands these back.
#[derive(Clone, Debug)]
pub struct TfDiagnostic {
    pub reason: DiagnosticReason,
    pub parent: String,
    pub child: String,
    pub stamp: Time,
}

/// The query surface of a transform store: lookups at one instant.
pub trait TransformInterface {
    /// The well-formedness a correct implementation maintains.
    spec fn tf_inv(&self) -> bool;

    /// What a successful lookup of `source` in `target` at `time` returns.
    spec fn lookup_spec(
        &self,
        target: Seq<char>,
        source: Seq<char>,
        time: Time,
        ts: TransformStamped,
    ) -> bool;

    /// Why a lookup of `source` in `target` at `time` failed with `e`.
    spec fn lookup_err(
        &self,
        target: Seq<char>,
        source: Seq<char>,
        time: Time,
        e: TfError,
    ) -> bool;

    fn lookup_transform(&self, target_frame: &str, source_frame: &str, time: Time) -> (r: Result<
        TransformStamped,
        TfError,
    >)
        requires
            self.tf_inv(),
        ensures
            r is Ok ==> self.lookup_spec(target_frame@, source_frame@, time, r->Ok_0),
            r is Err ==> self.lookup_err(target_frame@, source_frame@, time, r->Err_0),
    ;

    fn can_transform(
        &self,
        target_frame: &str,
        source_frame: &str,
        time: Time,
        timeout: Duration,
    ) -> (r: Result<bool, TfError>)
        requires
            self.tf_inv(),
        ensures
            r == Ok::<bool, TfError>(true) ==> exists|ts: TransformStamped|
                self.lookup_spec(target_frame@, source_frame@, time, ts),
            r == Ok::<bool, TfError>(false) ==> self.lookup_err(
                target_frame@,
                source_frame@,
                time,
                TfError::AttemptedLookUpInFuture,
            ),
            r is Err ==> r->Err_0 != TfError::AttemptedLookUpInFuture && self.lookup_err(
                target_frame@,
                source_frame@,
                time,
                r->Err_0,
            ),
    ;
}

/// The query surface of a transform store: lookups whose two endpoints are
/// taken at different instants through a fixed frame.
pub trait TransformWithTimeInterface {
    /// The well-formedness a correct implementation maintains.
    spec fn tf_time_inv(&self) -> bool;

    /// What a successful single-time lookup returns, out of which the
    /// time-travel result is composed.
    spec fn lookup_time_spec(
        &self,
        target: Seq<char>,
        source: Seq<char>,
        time: Time,
        ts: TransformStamped,
    ) -> bool;

    /// Why a single-time lookup failed with `e`.
    spec fn lookup_time_err(
        &self,
        target: Seq<char>,
        source: Seq<char>,
        time: Time,
        e: TfError,
    ) -> bool;

    fn lookup_transform_with_time_travel(
        &self,
        target_frame: &str,
        target_time: Time,
        source_frame: &str,
        source_time: Time,
        fixed_frame: &str,
        timeout: Duration,
    ) -> (r: Result<TransformStamped, TfError>)
        requires
            self.tf_time_inv(),
        ensures
            r is Ok ==> exists|sf: TransformStamped, tf: TransformStamped|
                {
                    &&& #[trigger] self.lookup_time_spec(
                        source_frame@,
                        fixed_frame@,
                        source_time,
                        sf,
                    )
                    &&& #[trigger] self.lookup_time_spec(
                        target_frame@,
                        fixed_frame@,
                        target_time,
                        tf,
                    )
                    &&& r->Ok_0.transform == crate::transforms::compose_of(
                        tf.transform,
                        crate::transforms::invert_of(sf.transform),
                    )
                },
            r is Err ==> (self.lookup_time_err(source_frame@, fixed_frame@, source_time, r->Err_0)
                || self.lookup_time_err(target_frame@, fixed_frame@, target_time, r->Err_0)),
    ;

    fn can_transform_with_time_travel(
        &self,
        target_frame: &str,
        target_time: Time,
        source_frame: &str,
        source_time: Time,
        fixed_frame: &str,
        timeout: Duration,
    ) -> (r: Result<bool, TfError>)
        requires
            self.tf_time_inv(),
        ensures
            r == Ok::<bool, TfError>(true) ==> (exists|ts: TransformStamped|
                self.lookup_time_spec(source_frame@, fixed_frame@, source_time, ts)) && (exists|
                ts: TransformStamped,
            | self.lookup_time_spec(target_frame@, fixed_frame@, target_time, ts)),
            r == Ok::<bool, TfError>(false) ==> (self.lookup_time_err(
                source_frame@,
                fixed_frame@,
                source_time,
                TfError::AttemptedLookUpInFuture,
            ) || self.lookup_time_err(
                target_frame@,
                fixed_frame@,
                target_time,
                TfError::AttemptedLookUpInFuture,
            )),
            r is Err ==> r->Err_0 != TfError::AttemptedLookUpInFuture && (self.lookup_time_err(
                source_frame@,
                fixed_frame@,
                source_time,
                r->Err_0,
            ) || self.lookup_time_err(target_frame@, fixed_frame@, target_time, r->Err_0)),
    ;
}

} // verus!
