//! Visitors over the two edge-cache variants, and the trait that lets a frame
//! accept them.

use vstd::prelude::*;

use crate::errors::DiagnosticReason;
use crate::frames::static_frame::StaticFrame;
use crate::frames::timed_frame::TimedFrame;
use crate::msg::{Time, TransformStamped};

verus! {

/// A visitor that reads a frame.
pub trait ImmutableFrameVisitor {
    type Output;

    fn do_for_time_frame(&self, frame: &TimedFrame) -> Self::Output
        requires
            frame.wf(),
    ;

    fn do_for_static_frame(&self, frame: &StaticFrame) -> Self::Output;
}

/// A visitor that mutates a frame.
pub trait MutableFrameVisitor {
    type Output;

    fn do_for_time_frame(self, frame: &mut TimedFrame) -> (r: Self::Output)
        requires
            old(frame).wf(),
        ensures
            final(frame).wf(),
    ;

    fn do_for_static_frame(self, frame: &mut StaticFrame) -> Self::Output;
}

/// Stores one sample into whichever frame variant it visits.
pub struct InsertVisitor {
    transform: TransformStamped,
}

impl InsertVisitor {
    /// The sample this visitor carries.
    pub closed spec fn spec_transform(self) -> TransformStamped {
        self.transform
    }

    pub fn new(transform: TransformStamped) -> (r: InsertVisitor)
        ensures
            r.spec_transform() == transform,
    {
        InsertVisitor { transform }
    }
}

impl MutableFrameVisitor for InsertVisitor {
    type Output = Result<(), DiagnosticReason>;

    fn do_for_static_frame(self, frame: &mut StaticFrame) -> Self::Output {
        frame.insert_data(self.transform);
        Ok(())
    }

    fn do_for_time_frame(self, frame: &mut TimedFrame) -> Self::Output {
        frame.insert_data(self.transform)
    }
}

/// Reads the sample a frame resolves for a query time.
pub struct GetDataVisitor {
    time: Option<Time>,
}

impl GetDataVisitor {
    /// The query time this visitor carries; `None` reads nothing from a timed
    /// frame.
    pub closed spec fn spec_time(self) -> Option<Time> {
        self.time
    }

    pub fn new(time: Option<Time>) -> (r: GetDataVisitor)
        ensures
            r.spec_time() == time,
    {
        GetDataVisitor { time }
    }
}

impl ImmutableFrameVisitor for GetDataVisitor {
    type Output = Option<TransformStamped>;

    fn do_for_static_frame(&self, frame: &StaticFrame) -> Self::Output {
        Some(frame.get_data().clone())
    }

    fn do_for_time_frame(&self, frame: &TimedFrame) -> Self::Output {
        match self.time {
            Some(time) => frame.get_data(time),
            None => None,
        }
    }
}

/// A frame variant that can accept the two visitors.
pub trait VisitableFrame {
    /// The well-formedness the frame maintains.
    spec fn frame_inv(&self) -> bool;

    fn accept_get_data(&self, visitor: GetDataVisitor) -> Option<TransformStamped>
        requires
            self.frame_inv(),
    ;

    fn accept_insertion(&mut self, visitor: InsertVisitor) -> (r: Result<(), DiagnosticReason>)
        requires
            old(self).frame_inv(),
        ensures
            final(self).frame_inv(),
    ;
}

impl VisitableFrame for TimedFrame {
    open spec fn frame_inv(&self) -> bool {
        self.wf()
    }

    fn accept_get_data(&self, visitor: GetDataVisitor) -> Option<TransformStamped> {
        visitor.do_for_time_frame(self)
    }

    fn accept_insertion(&mut self, visitor: InsertVisitor) -> Result<(), DiagnosticReason> {
        visitor.do_for_time_frame(self)
    }
}

impl VisitableFrame for StaticFrame {
    open spec fn frame_inv(&self) -> bool {
        true
    }

    fn accept_get_data(&self, visitor: GetDataVisitor) -> Option<TransformStamped> {
        visitor.do_for_static_frame(self)
    }

    fn accept_insertion(&mut self, visitor: InsertVisitor) -> Result<(), DiagnosticReason> {
        visitor.do_for_static_frame(self)
    }
}

} // verus!
