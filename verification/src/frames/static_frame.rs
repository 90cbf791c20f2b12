//! The cache of a static edge: a single timeless transform sample.

use vstd::prelude::*;

use crate::msg::TransformStamped;

verus! {

/// A static edge's cache. It holds exactly one sample; the sample's stamp is
/// ignored on lookup and returned verbatim.
#[derive(Clone, Debug)]
pub struct StaticFrame {
    transform: TransformStamped,
}

impl StaticFrame {
    /// The stored sample.
    pub closed spec fn data(self) -> TransformStamped {
        self.transform
    }

    pub fn new(transform: TransformStamped) -> (r: StaticFrame)
        ensures
            r.data() == transform,
    {
        StaticFrame { transform }
    }

    /// The parent frame of the stored sample.
    pub fn get_parent(&self) -> (r: &str)
        ensures
            r@ == self.data().header.frame_id@,
    {
        self.transform.header.frame_id.as_str()
    }

    /// The stored sample, whatever the query time.
    pub fn get_data(&self) -> (r: &TransformStamped)
        ensures
            *r == self.data(),
    {
        &self.transform
    }

    /// Overwrite the stored sample.
    pub fn insert_data(&mut self, transform: TransformStamped)
        ensures
            final(self).data() == transform,
    {
        self.transform = transform;
    }
}

} // verus!
