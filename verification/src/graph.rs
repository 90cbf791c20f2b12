//! The key of a directed edge of the frame graph.

use vstd::prelude::*;

verus! {

/// A directed edge of the frame graph, identified by its two frame names.
/// The edge holds the history of poses of `child` expressed in `parent`.
#[derive(Clone, Debug, Hash)]
pub struct TfGraphNode {
    pub child: String,
    pub parent: String,
}

impl TfGraphNode {
    /// Whether this key names the directed edge `parent` -> `child`.
    pub open spec fn is_edge(self, parent: Seq<char>, child: Seq<char>) -> bool {
        self.parent@ == parent && self.child@ == child
    }
}

impl PartialEq for TfGraphNode {
    fn eq(&self, other: &Self) -> (r: bool) {
        self.child == other.child && self.parent == other.parent
    }
}

impl vstd::std_specs::cmp::PartialEqSpecImpl for TfGraphNode {
    open spec fn obeys_eq_spec() -> bool {
        true
    }

    open spec fn eq_spec(&self, other: &Self) -> bool {
        self.child@ == other.child@ && self.parent@ == other.parent@
    }
}

impl Eq for TfGraphNode {}

} // verus!
