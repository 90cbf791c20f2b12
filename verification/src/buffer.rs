//! The transform buffer: a directed graph whose nodes are frame names and
//! whose edges are per-pair caches of transform samples, with breadth-first
//! path discovery and a lookup engine that composes a path of per-edge
//! samples into one transform.

use vstd::prelude::*;

use crate::errors::{
    DiagnosticReason, TfDiagnostic, TfError, TransformInterface, TransformWithTimeInterface,
};
use crate::frames::static_frame::StaticFrame;
use crate::frames::timed_frame::{
    insert_ok_at, lemma_insert_then_sample, pruned, sample_at_spec, timed_accepts, TimedFrame,
    DEFAULT_MAX_STORAGE_TIME,
};
use crate::graph::TfGraphNode;
use crate::msg::{Duration, Header, TFMessage, Time, Transform, TransformStamped};
use crate::transforms::{chain_transforms, compose, invert_transform, quat_norm_of, quat_normalize_raw};
use crate::utils::{get_inverse, inverse_sample, to_transform_stamped};
use vstd::string::StrSliceExecFns;

verus! {

broadcast use vstd::string::to_string_from_display_ensures_for_str;

/// The breadth-first search depth bound of the frame graph.
pub const MAX_GRAPH_DEPTH: u32 = 1000;

/// An edge's cache: a single timeless sample, or a timed history.
#[derive(Clone, Debug)]
pub enum Frame {
    Static(StaticFrame),
    Timed(TimedFrame),
}

impl Frame {
    /// Well-formedness of the cache inside.
    pub open spec fn wf(self) -> bool {
        match self {
            Frame::Static(_) => true,
            Frame::Timed(f) => f.wf(),
        }
    }

    /// Whether this is the static variant.
    pub open spec fn is_static_spec(self) -> bool {
        self is Static
    }

    /// The transform this edge contributes to a lookup at `t`: a static edge
    /// answers with its sample whatever `t`; a timed edge resolves `t` in its
    /// history.
    pub open spec fn sample_spec(self, t: Time) -> Result<Transform, TfError> {
        match self {
            Frame::Static(f) => Ok(f.data().transform),
            Frame::Timed(f) => sample_at_spec(f.cache(), t),
        }
    }

    /// The newest stamp of a timed history, if there is one; a static edge
    /// contributes no stamp.
    pub open spec fn newest_timed_spec(self) -> Option<Time> {
        match self {
            Frame::Static(_) => None,
            Frame::Timed(f) => if f.cache().len() > 0 {
                Some(f.cache()[0].header.stamp)
            } else {
                None
            },
        }
    }

    /// Whether the cache accepts `sample`, before anything is changed.
    pub open spec fn accepts_spec(self, sample: TransformStamped) -> bool {
        match self {
            Frame::Static(_) => true,
            Frame::Timed(f) => timed_accepts(f.cache(), f.window().as_nanos(), sample),
        }
    }

    pub fn is_static(&self) -> (r: bool)
        ensures
            r == self.is_static_spec(),
    {
        match self {
            Frame::Static(_) => true,
            Frame::Timed(_) => false,
        }
    }

    /// Why `sample` would be refused, or `None` where it would be stored.
    pub fn can_store(&self, sample: &TransformStamped) -> (r: Option<DiagnosticReason>)
        requires
            self.wf(),
        ensures
            r is None <==> self.accepts_spec(*sample),
            r is Some ==> r == Some(DiagnosticReason::OldData) || r == Some(
                DiagnosticReason::RepeatedData,
            ),
    {
        match self {
            Frame::Static(_) => None,
            Frame::Timed(f) => f.can_insert(sample),
        }
    }

    /// The transform this edge contributes to a lookup at `time`.
    pub fn sample_at(&self, time: Time) -> (r: Result<Transform, TfError>)
        requires
            self.wf(),
        ensures
            r == self.sample_spec(time),
    {
        match self {
            Frame::Static(f) => Ok(f.get_data().transform),
            Frame::Timed(f) => f.sample_at(time),
        }
    }

    /// The newest stamp of a timed history, if there is one.
    pub fn newest_timed(&self) -> (r: Option<Time>)
        ensures
            r == self.newest_timed_spec(),
    {
        match self {
            Frame::Static(_) => None,
            Frame::Timed(f) => {
                let (t, p) = f.get_latest_time_and_parent();
                match p {
                    Some(_) => Some(t),
                    None => None,
                }
            },
        }
    }

    /// Store `sample`, overwriting a static edge and inserting into a timed
    /// history.
    pub fn store(&mut self, sample: TransformStamped) -> (r: Result<(), DiagnosticReason>)
        requires
            old(self).wf(),
        ensures
            final(self).wf(),
            final(self).is_static_spec() == old(self).is_static_spec(),
            r is Ok <==> old(self).accepts_spec(sample),
            r is Err ==> *final(self) == *old(self),
            r is Ok ==> frame_stores(
                Some(*old(self)),
                old(self).is_static_spec(),
                sample,
                *final(self),
            ),
    {
        match self {
            Frame::Static(f) => {
                f.insert_data(sample);
                Ok(())
            },
            Frame::Timed(f) => f.insert_data(sample),
        }
    }
}

/// How an edge's cache changes when `sample` is stored into it: a fresh or
/// existing static edge holds exactly `sample`; a fresh timed edge holds the
/// one-sample history; an existing timed edge gains `sample` at its ordered
/// position and is pruned, its window unchanged.
pub open spec fn frame_stores(
    before: Option<Frame>,
    static_tf: bool,
    sample: TransformStamped,
    after: Frame,
) -> bool {
    match before {
        None => {
            if static_tf {
                after is Static && after->Static_0.data() == sample
            } else {
                after is Timed && after->Timed_0.cache() =~= seq![sample]
            }
        },
        Some(f) => {
            match f {
                Frame::Static(sf) => after is Static && after->Static_0.data() == sample,
                Frame::Timed(tf) => after is Timed && after->Timed_0.window() == tf.window()
                    && exists|pos: int|
                    #[trigger] insert_ok_at(tf.cache(), sample, pos) && after->Timed_0.cache()
                        == pruned(tf.cache().insert(pos, sample), tf.window().as_nanos()),
            }
        },
    }
}

/// The sample with its rotation scaled to unit length, as it is stored.
pub open spec fn normalized_sample(t: TransformStamped) -> TransformStamped {
    TransformStamped {
        header: t.header,
        child_frame_id: t.child_frame_id,
        transform: Transform {
            translation: t.transform.translation,
            rotation: quat_norm_of(t.transform.rotation),
        },
    }
}

/// The earlier of two optional instants; one side alone wins by default.
pub open spec fn min_time(a: Option<Time>, b: Option<Time>) -> Option<Time> {
    match (a, b) {
        (Option::None, x) => x,
        (Option::Some(x), Option::None) => Some(x),
        (Option::Some(x), Option::Some(y)) => if x.as_nanos() <= y.as_nanos() {
            Some(x)
        } else {
            Some(y)
        },
    }
}

/// Whether one of the strings equals `x`, by contents.
fn contains_string(v: &Vec<String>, x: &String) -> (r: bool)
    ensures
        r == exists|i: int| 0 <= i < v@.len() && #[trigger] v@[i]@ == x@,
{
    let n = v.len();
    let mut i: usize = 0;
    while i < n
        invariant
            0 <= i <= n,
            n == v@.len(),
            forall|k: int| 0 <= k < i ==> #[trigger] v@[k]@ != x@,
        decreases n - i,
    {
        if v[i] == *x {
            proof {
                assert(v@[i as int]@ == x@);
            }
            return true;
        }
        i = i + 1;
    }
    false
}

/// A copy of the strings, equal element by element.
fn clone_strings(v: &Vec<String>) -> (r: Vec<String>)
    ensures
        r@ == v@,
{
    let n = v.len();
    let mut out: Vec<String> = Vec::new();
    let mut i: usize = 0;
    while i < n
        invariant
            0 <= i <= n,
            n == v@.len(),
            out@ =~= v@.take(i as int),
        decreases n - i,
    {
        out.push(v[i].clone());
        i = i + 1;
    }
    proof {
        assert(v@.take(n as int) =~= v@);
    }
    out
}

/// A chain the breadth-first search grows: a stored path starting at `from`.
spec fn good_path(b: Buffer, path: Seq<String>, from: Seq<char>) -> bool {
    b.is_path(path) && path.len() >= 1 && path[0]@ == from
}

/// Whether one of the strings reads `x`.
spec fn in_visited(visited: Seq<String>, x: Seq<char>) -> bool {
    exists|i: int| 0 <= i < visited.len() && #[trigger] visited[i]@ == x
}

/// Every stored edge out of `node` leads to a visited frame.
spec fn fully_expanded(b: Buffer, visited: Seq<String>, node: Seq<char>) -> bool {
    forall|e: int|
        0 <= e < b.edges_seq().len() && (#[trigger] b.edges_seq()[e].0.parent@) == node
            ==> in_visited(visited, b.edges_seq()[e].0.child@)
}

/// A visited frame the search is done with or still owes an expansion to:
/// either every edge out of it leads into the visited set, or it is the tip
/// of a chain still waiting in one of the two work lists.
spec fn settled(
    b: Buffer,
    visited: Seq<String>,
    work_a: Seq<Vec<String>>,
    work_b: Seq<Vec<String>>,
    node: String,
) -> bool {
    fully_expanded(b, visited, node@) || (exists|i: int|
        0 <= i < work_a.len() && (#[trigger] work_a[i]@.last()@) == node@) || (exists|i: int|
        0 <= i < work_b.len() && (#[trigger] work_b[i]@.last()@) == node@)
}

/// Growing the visited strings or the second work list never unsettles a
/// frame.
proof fn lemma_settled_grows(
    b: Buffer,
    visited: Seq<String>,
    visited2: Seq<String>,
    work_a: Seq<Vec<String>>,
    work_b: Seq<Vec<String>>,
    work_b2: Seq<Vec<String>>,
    node: String,
)
    requires
        settled(b, visited, work_a, work_b, node),
        visited2.len() >= visited.len(),
        forall|i: int| 0 <= i < visited.len() ==> #[trigger] visited2[i] == visited[i],
        work_b2.len() >= work_b.len(),
        forall|i: int| 0 <= i < work_b.len() ==> #[trigger] work_b2[i] == work_b[i],
    ensures
        settled(b, visited2, work_a, work_b2, node),
{
    if fully_expanded(b, visited, node@) {
        assert forall|e: int|
            0 <= e < b.edges_seq().len() && (#[trigger] b.edges_seq()[e].0.parent@) == node@
                implies in_visited(visited2, b.edges_seq()[e].0.child@) by {
            assert(in_visited(visited, b.edges_seq()[e].0.child@));
            let w = choose|i: int|
                0 <= i < visited.len() && #[trigger] visited[i]@ == b.edges_seq()[e].0.child@;
            assert(visited2[w] == visited[w]);
        }
    } else if exists|i: int|
        0 <= i < work_a.len() && (#[trigger] work_a[i]@.last()@) == node@ {
    } else {
        let i = choose|i: int|
            0 <= i < work_b.len() && (#[trigger] work_b[i]@.last()@) == node@;
        assert(work_b2[i] == work_b[i]);
    }
}

/// After a whole level is expanded — every frame visited before the level has
/// all its outgoing edges leading into the visited set — the visited set
/// covers every stored path one edge longer than the level's ball.
proof fn lemma_ball_grows(
    b: Buffer,
    round_visited: Seq<String>,
    visited: Seq<String>,
    from: Seq<char>,
    d: int,
    p: Seq<String>,
)
    requires
        round_visited.len() <= visited.len(),
        forall|i: int| 0 <= i < round_visited.len() ==> #[trigger] visited[i] == round_visited[i],
        forall|vi: int|
            0 <= vi < round_visited.len() ==> fully_expanded(
                b,
                visited,
                (#[trigger] round_visited[vi])@,
            ),
        forall|q: Seq<String>|
            (#[trigger] b.is_path(q)) && q.len() >= 1 && q[0]@ == from && q.len() <= d + 1
                ==> in_visited(round_visited, q.last()@),
        0 <= d,
        b.is_path(p),
        p.len() >= 1,
        p[0]@ == from,
        p.len() <= d + 2,
    ensures
        in_visited(visited, p.last()@),
{
    if p.len() <= d + 1 {
        assert(in_visited(round_visited, p.last()@));
        let w = choose|i: int|
            0 <= i < round_visited.len() && #[trigger] round_visited[i]@ == p.last()@;
        assert(visited[w] == round_visited[w]);
    } else {
        let q = p.drop_last();
        assert(q.len() == d + 1 && q.len() >= 1);
        assert(b.is_path(q)) by {
            assert forall|k: int|
                0 <= k < q.len() - 1 implies #[trigger] b.has_edge(q[k]@, q[k + 1]@) by {
                assert(q[k] == p[k]);
                assert(q[k + 1] == p[k + 1]);
                assert(b.has_edge(p[k]@, p[k + 1]@));
            }
        }
        assert(q[0] == p[0]);
        assert(in_visited(round_visited, q.last()@));
        let w = choose|i: int|
            0 <= i < round_visited.len() && #[trigger] round_visited[i]@ == q.last()@;
        let k0: int = p.len() - 2;
        assert(b.has_edge(p[k0]@, p[k0 + 1]@));
        assert(q.last() == p[k0]);
        let e = choose|e: int|
            0 <= e < b.edges_seq().len() && #[trigger] b.edges_seq()[e].0.is_edge(
                p[k0]@,
                p[k0 + 1]@,
            );
        assert(fully_expanded(b, visited, round_visited[w]@));
        assert(b.edges_seq()[e].0.parent@ == round_visited[w]@);
        assert(in_visited(visited, b.edges_seq()[e].0.child@));
        assert(b.edges_seq()[e].0.child@ == p.last()@);
    }
}

/// A visited set closed under the stored edges traps every stored path that
/// starts inside it: the path's end is visited too.
proof fn lemma_closed_no_path(b: Buffer, visited: Seq<String>, to: Seq<char>, path: Seq<String>)
    requires
        forall|vi: int|
            0 <= vi < visited.len() ==> fully_expanded(b, visited, #[trigger] visited[vi]@),
        in_visited(visited, path[0]@),
        b.is_path(path),
        path.last()@ == to,
    ensures
        in_visited(visited, to),
    decreases path.len(),
{
    if path.len() == 1 {
        assert(path.last() == path[0]);
    } else {
        assert(path.len() >= 2);
        let k0: int = 0;
        assert(b.has_edge(path[k0]@, path[k0 + 1]@));
        let e = choose|e: int|
            0 <= e < b.edges_seq().len() && #[trigger] b.edges_seq()[e].0.is_edge(
                path[0]@,
                path[1]@,
            );
        let vi = choose|i: int| 0 <= i < visited.len() && #[trigger] visited[i]@ == path[0]@;
        assert(fully_expanded(b, visited, visited[vi]@));
        assert(b.edges_seq()[e].0.parent@ == path[0]@);
        assert(in_visited(visited, path[1]@));
        let rest = path.drop_first();
        assert(rest[0] == path[1]);
        assert(rest.last() == path.last());
        assert(b.is_path(rest)) by {
            assert forall|k: int|
                0 <= k < rest.len() - 1 implies #[trigger] b.has_edge(rest[k]@, rest[k + 1]@) by {
                assert(rest[k] == path[k + 1]);
                assert(rest[k + 1] == path[k + 2]);
            }
        }
        lemma_closed_no_path(b, visited, to, rest);
    }
}

/// Two edge keys name the same directed edge.
pub open spec fn same_key(a: TfGraphNode, b: TfGraphNode) -> bool {
    a.parent@ == b.parent@ && a.child@ == b.child@
}

/// Whether the edge list holds the directed edge `parent` -> `child`.
pub open spec fn has_edge_in(
    s: Seq<(TfGraphNode, Frame)>,
    parent: Seq<char>,
    child: Seq<char>,
) -> bool {
    exists|i: int| 0 <= i < s.len() && #[trigger] s[i].0.is_edge(parent, child)
}

/// The position of the directed edge `parent` -> `child` in the edge list.
pub open spec fn edge_at_in(s: Seq<(TfGraphNode, Frame)>, parent: Seq<char>, child: Seq<char>) -> int {
    choose|i: int| 0 <= i < s.len() && #[trigger] s[i].0.is_edge(parent, child)
}

/// The keys of the edge list are pairwise distinct.
pub open spec fn keys_unique(s: Seq<(TfGraphNode, Frame)>) -> bool {
    forall|i: int, j: int| 0 <= i < j < s.len() ==> !#[trigger] same_key(s[i].0, s[j].0)
}

/// The transform buffer: every directed edge of the frame graph with its
/// cache, in insertion order, and the retention window timed edges are
/// created with.
pub struct Buffer {
    edges: Vec<(TfGraphNode, Frame)>,
    max_storage_time: Duration,
    max_graph_depth: u32,
}

impl Buffer {
    /// The stored edges, in insertion order.
    pub closed spec fn edges_seq(self) -> Seq<(TfGraphNode, Frame)> {
        self.edges@
    }

    /// The retention window timed edges are created with.
    pub closed spec fn window(self) -> Duration {
        self.max_storage_time
    }

    /// The breadth-first search depth bound.
    pub closed spec fn depth_bound(self) -> int {
        self.max_graph_depth as int
    }

    /// Whether the directed edge `parent` -> `child` is stored.
    pub open spec fn has_edge(self, parent: Seq<char>, child: Seq<char>) -> bool {
        has_edge_in(self.edges_seq(), parent, child)
    }

    /// The cache of the directed edge `parent` -> `child`.
    pub open spec fn edge_frame(self, parent: Seq<char>, child: Seq<char>) -> Frame {
        self.edges_seq()[edge_at_in(self.edges_seq(), parent, child)].1
    }

    /// Well-formedness: each directed edge is stored once and every cache is
    /// well-formed.
    pub open spec fn wf(self) -> bool {
        keys_unique(self.edges_seq()) && (forall|i: int|
            0 <= i < self.edges_seq().len() ==> #[trigger] self.edges_seq()[i].1.wf())
    }

    /// Every stored edge has its reverse edge stored too.
    pub open spec fn edges_paired(self) -> bool {
        forall|i: int|
            0 <= i < self.edges_seq().len() ==> self.has_edge(
                #[trigger] self.edges_seq()[i].0.child@,
                self.edges_seq()[i].0.parent@,
            )
    }

    /// A fresh buffer with the given retention window for timed edges and
    /// search depth bound.
    pub fn new_with_options(max_storage_time: Duration, max_graph_depth: u32) -> (r: Buffer)
        ensures
            r.wf(),
            r.edges_paired(),
            r.edges_seq() == Seq::<(TfGraphNode, Frame)>::empty(),
            r.window() == max_storage_time,
            r.depth_bound() == max_graph_depth as int,
    {
        Buffer { edges: Vec::new(), max_storage_time, max_graph_depth }
    }

    /// A fresh buffer with the given retention window for timed edges.
    pub fn new_with_window(max_storage_time: Duration) -> (r: Buffer)
        ensures
            r.wf(),
            r.edges_paired(),
            r.edges_seq() == Seq::<(TfGraphNode, Frame)>::empty(),
            r.window() == max_storage_time,
            r.depth_bound() == MAX_GRAPH_DEPTH as int,
    {
        Buffer { edges: Vec::new(), max_storage_time, max_graph_depth: MAX_GRAPH_DEPTH }
    }

    /// A fresh buffer with the default ten-second retention window.
    pub fn new() -> (r: Buffer)
        ensures
            r.wf(),
            r.edges_paired(),
            r.edges_seq() == Seq::<(TfGraphNode, Frame)>::empty(),
            r.window().as_nanos() == DEFAULT_MAX_STORAGE_TIME as int,
            r.depth_bound() == MAX_GRAPH_DEPTH as int,
    {
        Buffer {
            edges: Vec::new(),
            max_storage_time: Duration::from_nanos(DEFAULT_MAX_STORAGE_TIME),
            max_graph_depth: MAX_GRAPH_DEPTH,
        }
    }

    /// The position of the directed edge `parent` -> `child`, if it is stored.
    fn find_edge(&self, parent: &String, child: &String) -> (r: Option<usize>)
        ensures
            match r {
                Some(i) => 0 <= i < self.edges_seq().len() && self.edges_seq()[i as int].0.is_edge(
                    parent@,
                    child@,
                ),
                None => !self.has_edge(parent@, child@),
            },
    {
        let n = self.edges.len();
        let mut i: usize = 0;
        while i < n
            invariant
                0 <= i <= n,
                n == self.edges_seq().len(),
                forall|k: int|
                    0 <= k < i ==> !#[trigger] self.edges_seq()[k].0.is_edge(parent@, child@),
            decreases n - i,
        {
            if self.edges[i].0.parent == *parent && self.edges[i].0.child == *child {
                return Some(i);
            }
            i = i + 1;
        }
        None
    }

    /// Store `sample` into the edge at position `i`, leaving every other edge
    /// and the edge's key in place.
    fn store_at(&mut self, i: usize, sample: TransformStamped) -> (r: Result<
        (),
        DiagnosticReason,
    >)
        requires
            i < old(self).edges_seq().len(),
            old(self).edges_seq()[i as int].1.wf(),
        ensures
            final(self).window() == old(self).window(),
            final(self).depth_bound() == old(self).depth_bound(),
            final(self).edges_seq().len() == old(self).edges_seq().len(),
            forall|k: int|
                0 <= k < old(self).edges_seq().len() && k != i ==> final(self).edges_seq()[k]
                    == #[trigger] old(self).edges_seq()[k],
            final(self).edges_seq()[i as int].0 == old(self).edges_seq()[i as int].0,
            final(self).edges_seq()[i as int].1.wf(),
            r is Ok <==> old(self).edges_seq()[i as int].1.accepts_spec(sample),
            r is Err ==> final(self).edges_seq() == old(self).edges_seq(),
            r is Ok ==> frame_stores(
                Some(old(self).edges_seq()[i as int].1),
                old(self).edges_seq()[i as int].1.is_static_spec(),
                sample,
                final(self).edges_seq()[i as int].1,
            ),
    {
        let ghost pre = self.edges@;
        let mut entry = self.edges.remove(i);
        let r = entry.1.store(sample);
        self.edges.insert(i, entry);
        proof {
            assert(self.edges@ =~= pre.update(i as int, self.edges@[i as int]));
            if r is Err {
                assert(self.edges@ =~= pre);
            }
        }
        r
    }

    /// Append a fresh edge `parent` -> `child` of the requested variant
    /// holding exactly `sample`.
    fn push_edge(&mut self, parent: &String, child: &String, sample: TransformStamped, static_tf: bool)
        ensures
            final(self).window() == old(self).window(),
            final(self).depth_bound() == old(self).depth_bound(),
            final(self).edges_seq().len() == old(self).edges_seq().len() + 1,
            forall|k: int|
                0 <= k < old(self).edges_seq().len() ==> final(self).edges_seq()[k]
                    == #[trigger] old(self).edges_seq()[k],
            final(self).edges_seq().last().0.is_edge(parent@, child@),
            final(self).edges_seq().last().1.wf(),
            final(self).edges_seq().last().1.is_static_spec() == static_tf,
            frame_stores(None, static_tf, sample, final(self).edges_seq().last().1),
    {
        let frame = if static_tf {
            Frame::Static(StaticFrame::new(sample))
        } else {
            let mut f = TimedFrame::new(self.max_storage_time);
            let stored = f.insert_data(sample);
            proof {
                assert(stored is Ok);
                assert(f.cache() =~= seq![sample]);
            }
            Frame::Timed(f)
        };
        self.edges.push((TfGraphNode { parent: parent.clone(), child: child.clone() }, frame));
    }

    /// Whether storing with `static_tf` would keep the variant of the edge
    /// `parent` -> `child`, if that edge exists.
    pub open spec fn variant_ok(self, parent: Seq<char>, child: Seq<char>, static_tf: bool) -> bool {
        self.has_edge(parent, child) ==> (self.edge_frame(parent, child).is_static_spec()
            == static_tf)
    }

    /// Whether the edge `parent` -> `child` accepts `sample`, or does not
    /// exist yet.
    pub open spec fn edge_accepts(
        self,
        parent: Seq<char>,
        child: Seq<char>,
        sample: TransformStamped,
    ) -> bool {
        self.has_edge(parent, child) ==> self.edge_frame(parent, child).accepts_spec(sample)
    }

    /// Reject, store, or refuse one incoming sample: argument checks first,
    /// then — only where both the edge and its reverse edge accept — the
    /// normalized sample is stored on the edge `parent` -> `child` and its
    /// inverse on `child` -> `parent`, creating either edge as needed. On any
    /// refusal nothing changes and a diagnostic names the reason.
    pub fn add_transform(&mut self, transform: TransformStamped, static_tf: bool) -> (r: Result<
        (),
        TfDiagnostic,
    >)
        requires
            old(self).wf(),
        ensures
            add_transform_spec(*old(self), transform, static_tf, *final(self), r),
    {
        let stamp = transform.header.stamp;
        if transform.header.frame_id == transform.child_frame_id {
            return Err(
                TfDiagnostic {
                    reason: DiagnosticReason::SelfParent,
                    parent: transform.header.frame_id,
                    child: transform.child_frame_id,
                    stamp,
                },
            );
        }
        if transform.header.frame_id.as_str().unicode_len() == 0
            || transform.child_frame_id.as_str().unicode_len() == 0 {
            return Err(
                TfDiagnostic {
                    reason: DiagnosticReason::EmptyFrameId,
                    parent: transform.header.frame_id,
                    child: transform.child_frame_id,
                    stamp,
                },
            );
        }
        if !transform.transform.is_finite() {
            return Err(
                TfDiagnostic {
                    reason: DiagnosticReason::NanInput,
                    parent: transform.header.frame_id,
                    child: transform.child_frame_id,
                    stamp,
                },
            );
        }
        let sample = TransformStamped {
            header: transform.header,
            child_frame_id: transform.child_frame_id,
            transform: Transform {
                translation: transform.transform.translation,
                rotation: quat_normalize_raw(&transform.transform.rotation),
            },
        };
        let inverse = get_inverse(sample.clone());
        let parent = sample.header.frame_id.clone();
        let child = sample.child_frame_id.clone();
        proof {
            assert(sample == normalized_sample(transform));
            assert(inverse == inverse_sample(normalized_sample(transform)));
        }
        let fwd = self.find_edge(&parent, &child);
        let bwd = self.find_edge(&child, &parent);
        proof {
            if fwd is Some {
                lemma_edge_lookup(self.edges_seq(), parent@, child@, fwd.unwrap() as int);
            }
            if bwd is Some {
                lemma_edge_lookup(self.edges_seq(), child@, parent@, bwd.unwrap() as int);
            }
        }
        // Refuse a sample that would change an edge's variant.
        let fwd_variant_ok = match fwd {
            Some(i) => self.edges[i].1.is_static() == static_tf,
            None => true,
        };
        let bwd_variant_ok = match bwd {
            Some(i) => self.edges[i].1.is_static() == static_tf,
            None => true,
        };
        if !fwd_variant_ok || !bwd_variant_ok {
            return Err(
                TfDiagnostic { reason: DiagnosticReason::VariantChange, parent, child, stamp },
            );
        }
        // Refuse a sample that either side's cache would not accept, so that
        // the edge and its reverse edge are always updated together.
        let fwd_refusal = match fwd {
            Some(i) => self.edges[i].1.can_store(&sample),
            None => None,
        };
        if let Some(reason) = fwd_refusal {
            return Err(TfDiagnostic { reason, parent, child, stamp });
        }
        let bwd_refusal = match bwd {
            Some(i) => self.edges[i].1.can_store(&inverse),
            None => None,
        };
        if let Some(reason) = bwd_refusal {
            return Err(TfDiagnostic { reason, parent, child, stamp });
        }
        let ghost before = *self;
        // Store the sample on the edge, creating it if needed; then the same
        // for the inverse on the reverse edge.
        match fwd {
            Some(i) => {
                let stored = self.store_at(i, sample);
                proof {
                    assert(stored is Ok);
                }
            },
            None => {
                self.push_edge(&parent, &child, sample, static_tf);
            },
        }
        let ghost middle = *self;
        proof {
            lemma_store_event(
                before.edges_seq(),
                middle.edges_seq(),
                parent@,
                child@,
                if fwd is Some {
                    fwd.unwrap() as int
                } else {
                    before.edges_seq().len() as int
                },
            );
        }
        match bwd {
            Some(i) => {
                let stored = self.store_at(i, inverse);
                proof {
                    assert(middle.edges_seq()[i as int] == before.edges_seq()[i as int]);
                    assert(stored is Ok);
                }
            },
            None => {
                self.push_edge(&child, &parent, inverse, static_tf);
            },
        }
        proof {
            lemma_store_event(
                middle.edges_seq(),
                self.edges_seq(),
                child@,
                parent@,
                if bwd is Some {
                    bwd.unwrap() as int
                } else {
                    middle.edges_seq().len() as int
                },
            );
            lemma_edge_lookup(
                self.edges_seq(),
                child@,
                parent@,
                if bwd is Some {
                    bwd.unwrap() as int
                } else {
                    middle.edges_seq().len() as int
                },
            );
            lemma_edge_lookup(
                self.edges_seq(),
                parent@,
                child@,
                if fwd is Some {
                    fwd.unwrap() as int
                } else {
                    before.edges_seq().len() as int
                },
            );
            let idx_f = if fwd is Some {
                fwd.unwrap() as int
            } else {
                before.edges_seq().len() as int
            };
            let idx_b = if bwd is Some {
                bwd.unwrap() as int
            } else {
                middle.edges_seq().len() as int
            };
            assert forall|i: int|
                0 <= i < self.edges_seq().len() implies #[trigger] self.edges_seq()[i].1.wf() by {
                if i != idx_b {
                    assert(self.edges_seq()[i] == middle.edges_seq()[i]);
                    if i != idx_f && i < before.edges_seq().len() {
                        assert(middle.edges_seq()[i] == before.edges_seq()[i]);
                    }
                }
            }
            assert forall|i: int|
                0 <= i < before.edges_seq().len() && !before.edges_seq()[i].0.is_edge(
                    parent@,
                    child@,
                ) && !before.edges_seq()[i].0.is_edge(child@, parent@) implies self.edges_seq()[i]
                == #[trigger] before.edges_seq()[i] by {
                if i != idx_f {
                    assert(middle.edges_seq()[i] == before.edges_seq()[i]);
                    if i != idx_b {
                        assert(self.edges_seq()[i] == middle.edges_seq()[i]);
                    }
                }
            }
            let gp = transform.header.frame_id@;
            let gc = transform.child_frame_id@;
            let norm = normalized_sample(transform);
            if transform.header.stamp.as_nanos() != 0 {
                lemma_stored_sample_reads_back(
                    if before.has_edge(gp, gc) {
                        Some(before.edge_frame(gp, gc))
                    } else {
                        None
                    },
                    static_tf,
                    norm,
                    self.edge_frame(gp, gc),
                );
                lemma_stored_sample_reads_back(
                    if before.has_edge(gc, gp) {
                        Some(before.edge_frame(gc, gp))
                    } else {
                        None
                    },
                    static_tf,
                    inverse_sample(norm),
                    self.edge_frame(gc, gp),
                );
            }
            if old(self).edges_paired() {
                assert forall|i: int| 0 <= i < self.edges_seq().len() implies self.has_edge(
                    #[trigger] self.edges_seq()[i].0.child@,
                    self.edges_seq()[i].0.parent@,
                ) by {
                    if i < before.edges_seq().len() {
                        assert(self.edges_seq()[i].0 == before.edges_seq()[i].0);
                        let j = edge_at_in(
                            before.edges_seq(),
                            before.edges_seq()[i].0.child@,
                            before.edges_seq()[i].0.parent@,
                        );
                        assert(before.edges_seq()[j].0.is_edge(
                            before.edges_seq()[i].0.child@,
                            before.edges_seq()[i].0.parent@,
                        ));
                        assert(self.edges_seq()[j].0 == before.edges_seq()[j].0);
                    } else {
                        assert(self.edges_seq()[i].0.is_edge(parent@, child@)
                            || self.edges_seq()[i].0.is_edge(child@, parent@));
                    }
                }
            }
        }
        Ok(())
    }

    /// Consecutive nodes of `path` are joined by stored directed edges.
    pub open spec fn is_path(self, path: Seq<String>) -> bool {
        path.len() >= 1 && (forall|k: int|
            0 <= k < path.len() - 1 ==> #[trigger] self.has_edge(path[k]@, path[k + 1]@))
    }

    /// What the step from `a` to `b` contributes to a lookup at `t`: the edge
    /// `b` -> `a` holds the pose of `a` in `b`, which takes the running result
    /// from `a`'s frame into `b`'s.
    pub open spec fn step_sample(self, a: String, b: String, t: Time) -> Result<
        Transform,
        TfError,
    > {
        if self.has_edge(b@, a@) {
            self.edge_frame(b@, a@).sample_spec(t)
        } else {
            Err(TfError::CouldNotFindTransform)
        }
    }

    /// Every step of `path` resolves at `t`.
    pub open spec fn steps_ok(self, path: Seq<String>, t: Time) -> bool {
        forall|k: int|
            0 <= k < path.len() - 1 ==> #[trigger] self.step_sample(path[k], path[k + 1], t) is Ok
    }

    /// The per-step transforms of `path` at `t`, in path order.
    pub open spec fn sampled_transforms(self, path: Seq<String>, t: Time) -> Seq<Transform> {
        Seq::new((path.len() - 1) as nat, |k: int| self.step_sample(path[k], path[k + 1], t)->Ok_0)
    }

    /// The newest timed stamp of the edge the step from `a` to `b` samples.
    pub open spec fn step_newest(self, a: String, b: String) -> Option<Time> {
        if self.has_edge(b@, a@) {
            self.edge_frame(b@, a@).newest_timed_spec()
        } else {
            None
        }
    }

    /// The latest common time of the first `k` steps of `path`: the minimum of
    /// the newest timed stamps of their edges; static edges contribute none.
    pub open spec fn latest_common_prefix(self, path: Seq<String>, k: int) -> Option<Time>
        decreases k,
    {
        if k <= 0 {
            None
        } else {
            min_time(
                self.latest_common_prefix(path, k - 1),
                self.step_newest(path[k - 1], path[k]),
            )
        }
    }

    /// The instant a lookup along `path` asked at `t` actually samples: `t`
    /// itself, or — for the "latest available" sentinel — the latest common
    /// time of the path, and the zero time where the path has no timed edge.
    pub open spec fn effective_time(self, path: Seq<String>, t: Time) -> Time {
        if t.as_nanos() != 0 {
            t
        } else {
            match self.latest_common_prefix(path, path.len() - 1) {
                Some(m) => m,
                None => Time { sec: 0, nsec: 0 },
            }
        }
    }

    /// What a successful lookup of `source` in `target` at `time` returns:
    /// the identity at `time` for equal frames, else the fold of the per-step
    /// transforms of a shortest stored path from `source` to `target`, each
    /// taken at the effective time, stamped at that time and labelled target
    /// over source.
    pub open spec fn lookup_ok_spec(
        self,
        target: Seq<char>,
        source: Seq<char>,
        time: Time,
        ts: TransformStamped,
    ) -> bool {
        if target == source {
            ts.transform == crate::msg::identity_transform() && ts.header.stamp == time
                && ts.header.frame_id@ == target && ts.child_frame_id@ == source && ts.header.seq
                == 0
        } else {
            exists|path: Seq<String>|
                {
                    &&& #[trigger] self.is_path(path)
                    &&& path.len() >= 2
                    &&& path[0]@ == source
                    &&& path.last()@ == target
                    &&& self.shortest_between(path, source, target)
                    &&& self.steps_ok(path, self.effective_time(path, time))
                    &&& ts.transform == crate::transforms::chain_of(
                        self.sampled_transforms(path, self.effective_time(path, time)),
                    )
                    &&& ts.header.stamp == self.effective_time(path, time)
                    &&& ts.header.frame_id@ == target
                    &&& ts.child_frame_id@ == source
                    &&& ts.header.seq == 0
                }
        }
    }

    /// No stored path joins `source` to `target` in fewer nodes than `path`.
    pub open spec fn shortest_between(
        self,
        path: Seq<String>,
        source: Seq<char>,
        target: Seq<char>,
    ) -> bool {
        forall|q: Seq<String>|
            (#[trigger] self.is_path(q)) && q.len() >= 1 && q[0]@ == source && q.last()@ == target
                ==> q.len() >= path.len()
    }

    /// Why a lookup of `source` in `target` at `time` failed. A missing-path
    /// error is answered only where no stored path joins the frames (as long
    /// as every edge has its reverse edge stored); a too-deep error only where
    /// every stored path overruns the search bound; and a past or future
    /// error names the first step of a shortest stored path that cannot be
    /// sampled at the effective time. No other error kind is answered.
    pub open spec fn lookup_err_spec(
        self,
        target: Seq<char>,
        source: Seq<char>,
        time: Time,
        e: TfError,
    ) -> bool {
        match e {
            TfError::CouldNotFindTransform => target != source && (self.edges_paired()
                ==> !(exists|path: Seq<String>|
                (#[trigger] self.is_path(path)) && path.len() >= 1 && path[0]@ == source
                    && path.last()@ == target)),
            TfError::GraphTooDeep => target != source && (forall|path: Seq<String>|
                (#[trigger] self.is_path(path)) && path.len() >= 1 && path[0]@ == source
                    && path.last()@ == target ==> path.len() > self.depth_bound() + 1),
            TfError::AttemptedLookupInPast => self.lookup_step_fails(target, source, time, e),
            TfError::AttemptedLookUpInFuture => self.lookup_step_fails(target, source, time, e),
            _ => false,
        }
    }

    /// A shortest stored path from `source` to `target` has a first step that
    /// cannot be sampled at the effective time and fails with `e`, every step
    /// before it sampling fine.
    pub open spec fn lookup_step_fails(
        self,
        target: Seq<char>,
        source: Seq<char>,
        time: Time,
        e: TfError,
    ) -> bool {
        target != source && exists|path: Seq<String>|
            {
                &&& #[trigger] self.is_path(path)
                &&& path.len() >= 2
                &&& path[0]@ == source
                &&& path.last()@ == target
                &&& self.shortest_between(path, source, target)
                &&& exists|k: int|
                    0 <= k < path.len() - 1 && (#[trigger] self.step_sample(
                        path[k],
                        path[k + 1],
                        self.effective_time(path, time),
                    )) == Err::<Transform, TfError>(e) && (forall|j: int|
                        0 <= j < k ==> #[trigger] self.step_sample(
                            path[j],
                            path[j + 1],
                            self.effective_time(path, time),
                        ) is Ok)
            }
    }

    /// Retrieves a path of frames from `from` to `to`: a breadth-first search
    /// over the stored directed edges, in edge insertion order, bounded in
    /// depth. A returned path starts at `from`, ends at `to`, and every
    /// consecutive pair is a stored edge.
    pub fn retrieve_transform_path(&self, from: String, to: String) -> (r: Result<
        Vec<String>,
        TfError,
    >)
        requires
            self.wf(),
        ensures
            from@ == to@ ==> r is Ok,
            r is Ok ==> ({
                let path = r->Ok_0@;
                &&& self.is_path(path)
                &&& path.len() >= 1
                &&& path[0]@ == from@
                &&& path.last()@ == to@
                &&& (from@ == to@ <==> path.len() == 1)
            }),
            r is Ok ==> forall|q: Seq<String>|
                (#[trigger] self.is_path(q)) && q.len() >= 1 && q[0]@ == from@ && q.last()@ == to@
                    ==> q.len() >= r->Ok_0@.len(),
            r is Err ==> (r == Err::<Vec<String>, TfError>(TfError::CouldNotFindTransform) || r
                == Err::<Vec<String>, TfError>(TfError::GraphTooDeep)),
            r == Err::<Vec<String>, TfError>(TfError::CouldNotFindTransform) ==> forall|
                path: Seq<String>,
            |
                !(#[trigger] self.is_path(path) && path.len() >= 1 && path[0]@ == from@
                    && path.last()@ == to@),
            r == Err::<Vec<String>, TfError>(TfError::GraphTooDeep) ==> forall|q: Seq<String>|
                (#[trigger] self.is_path(q)) && q.len() >= 1 && q[0]@ == from@ && q.last()@ == to@
                    ==> q.len() > self.depth_bound() + 1,
            (exists|q: Seq<String>|
                (#[trigger] self.is_path(q)) && q.len() >= 1 && q[0]@ == from@ && q.last()@ == to@
                    && q.len() <= self.depth_bound() + 1) ==> r is Ok,
    {
        if from == to {
            let mut path: Vec<String> = Vec::new();
            path.push(from);
            return Ok(path);
        }
        let mut visited: Vec<String> = Vec::new();
        visited.push(from.clone());
        let mut seed: Vec<String> = Vec::new();
        seed.push(from.clone());
        let mut current: Vec<Vec<String>> = Vec::new();
        current.push(seed);
        let ghost no_work: Seq<Vec<String>> = Seq::empty();
        proof {
            assert(visited@[0]@ == from@);
            assert(in_visited(visited@, from@));
            assert forall|i: int| 0 <= i < visited@.len() implies (#[trigger] visited@[i]@)
                != to@ by {}
            assert(current@[0]@.last()@ == from@);
            assert forall|vi: int|
                0 <= vi < visited@.len() implies #[trigger] settled(
                *self,
                visited@,
                current@,
                no_work,
                visited@[vi],
            ) by {
                assert(current@[0]@.last()@ == visited@[vi]@);
            }
            assert forall|p: Seq<String>|
                (#[trigger] self.is_path(p)) && p.len() >= 1 && p[0]@ == from@ && p.len()
                    <= 1 implies in_visited(visited@, p.last()@) by {
                assert(p.last() == p[0]);
                assert(visited@[0]@ == p.last()@);
            }
        }
        let mut depth: u32 = 0;
        loop
            invariant
                self.wf(),
                depth <= self.max_graph_depth,
                from@ != to@,
                no_work.len() == 0,
                in_visited(visited@, from@),
                !in_visited(visited@, to@),
                forall|i: int|
                    0 <= i < current@.len() ==> #[trigger] good_path(*self, current@[i]@, from@),
                forall|i: int| 0 <= i < current@.len() ==> (#[trigger] current@[i]@).len() == depth
                    + 1,
                forall|vi: int|
                    0 <= vi < visited@.len() ==> #[trigger] settled(
                        *self,
                        visited@,
                        current@,
                        no_work,
                        visited@[vi],
                    ),
                forall|p: Seq<String>|
                    (#[trigger] self.is_path(p)) && p.len() >= 1 && p[0]@ == from@ && p.len()
                        <= depth + 1 ==> in_visited(visited@, p.last()@),
            decreases self.max_graph_depth - depth,
        {
            if current.len() == 0 {
                proof {
                    assert forall|vi: int|
                        0 <= vi < visited@.len() implies fully_expanded(
                        *self,
                        visited@,
                        #[trigger] visited@[vi]@,
                    ) by {
                        assert(settled(*self, visited@, current@, no_work, visited@[vi]));
                    }
                    assert forall|path: Seq<String>|
                        !(#[trigger] self.is_path(path) && path.len() >= 1 && path[0]@ == from@
                            && path.last()@ == to@) by {
                        if self.is_path(path) && path.len() >= 1 && path[0]@ == from@
                            && path.last()@ == to@ {
                            lemma_closed_no_path(*self, visited@, to@, path);
                        }
                    }
                }
                return Err(TfError::CouldNotFindTransform);
            }
            if depth >= self.max_graph_depth {
                proof {
                    assert forall|q: Seq<String>|
                        (#[trigger] self.is_path(q)) && q.len() >= 1 && q[0]@ == from@
                            && q.last()@ == to@ implies q.len() > self.depth_bound() + 1 by {
                        if q.len() <= depth + 1 {
                            assert(in_visited(visited@, q.last()@));
                        }
                    }
                }
                return Err(TfError::GraphTooDeep);
            }
            let ghost round_visited = visited@;
            let mut next: Vec<Vec<String>> = Vec::new();
            proof {
                assert(current@.skip(0) =~= current@);
                assert(next@ =~= no_work);
                assert forall|vi: int|
                    0 <= vi < visited@.len() implies #[trigger] settled(
                    *self,
                    visited@,
                    current@.skip(0),
                    next@,
                    visited@[vi],
                ) by {
                    assert(settled(*self, visited@, current@, no_work, visited@[vi]));
                }
            }
            let mut pi: usize = 0;
            while pi < current.len()
                invariant
                    self.wf(),
                    from@ != to@,
                    0 <= pi <= current@.len(),
                    in_visited(visited@, from@),
                    !in_visited(visited@, to@),
                    round_visited.len() <= visited@.len(),
                    forall|i: int|
                        0 <= i < round_visited.len() ==> #[trigger] visited@[i] == round_visited[i],
                    forall|i: int|
                        0 <= i < current@.len() ==> #[trigger] good_path(*self, current@[i]@, from@),
                    forall|i: int|
                        0 <= i < current@.len() ==> (#[trigger] current@[i]@).len() == depth + 1,
                    forall|i: int|
                        0 <= i < next@.len() ==> #[trigger] good_path(*self, next@[i]@, from@),
                    forall|i: int| 0 <= i < next@.len() ==> (#[trigger] next@[i]@).len() == depth
                        + 2,
                    forall|i: int|
                        0 <= i < next@.len() ==> !in_visited(
                            round_visited,
                            (#[trigger] next@[i]@).last()@,
                        ),
                    forall|vi: int|
                        0 <= vi < visited@.len() ==> #[trigger] settled(
                            *self,
                            visited@,
                            current@.skip(pi as int),
                            next@,
                            visited@[vi],
                        ),
                    forall|p: Seq<String>|
                        (#[trigger] self.is_path(p)) && p.len() >= 1 && p[0]@ == from@ && p.len()
                            <= depth + 1 ==> in_visited(visited@, p.last()@),
                decreases current@.len() - pi,
            {
                proof {
                    assert(good_path(*self, current@[pi as int]@, from@));
                }
                let path = &current[pi];
                let ghost tip = current@[pi as int]@.last()@;
                proof {
                    assert forall|vi: int|
                        0 <= vi < visited@.len() implies (#[trigger] settled(
                        *self,
                        visited@,
                        current@.skip(pi + 1),
                        next@,
                        visited@[vi],
                    ) || visited@[vi]@ == tip) by {
                        assert(settled(
                            *self,
                            visited@,
                            current@.skip(pi as int),
                            next@,
                            visited@[vi],
                        ));
                        if !fully_expanded(*self, visited@, visited@[vi]@) && !(exists|i: int|
                            0 <= i < next@.len() && (#[trigger] next@[i]@.last()@)
                                == visited@[vi]@) {
                            let i = choose|i: int|
                                0 <= i < current@.skip(pi as int).len() && (
                                #[trigger] current@.skip(pi as int)[i]@.last()@) == visited@[vi]@;
                            if i == 0 {
                                assert(current@.skip(pi as int)[0] == current@[pi as int]);
                            } else {
                                assert(current@.skip(pi as int)[i] == current@[pi + i]);
                                assert(current@.skip(pi + 1)[i - 1] == current@[pi + i]);
                            }
                        }
                    }
                }
                let edge_count = self.edges.len();
                let mut ei: usize = 0;
                while ei < edge_count
                    invariant
                        self.wf(),
                        from@ != to@,
                        edge_count == self.edges_seq().len(),
                        0 <= pi < current@.len(),
                        0 <= ei <= edge_count,
                        good_path(*self, current@[pi as int]@, from@),
                        current@[pi as int]@.len() == depth + 1,
                        path == &current[pi as int],
                        tip == current@[pi as int]@.last()@,
                        in_visited(visited@, from@),
                        !in_visited(visited@, to@),
                        round_visited.len() <= visited@.len(),
                        forall|i: int|
                            0 <= i < round_visited.len() ==> #[trigger] visited@[i]
                                == round_visited[i],
                        forall|i: int|
                            0 <= i < next@.len() ==> #[trigger] good_path(*self, next@[i]@, from@),
                        forall|i: int|
                            0 <= i < next@.len() ==> (#[trigger] next@[i]@).len() == depth + 2,
                        forall|i: int|
                            0 <= i < next@.len() ==> !in_visited(
                                round_visited,
                                (#[trigger] next@[i]@).last()@,
                            ),
                        forall|vi: int|
                            0 <= vi < visited@.len() ==> (#[trigger] settled(
                                *self,
                                visited@,
                                current@.skip(pi + 1),
                                next@,
                                visited@[vi],
                            ) || visited@[vi]@ == tip),
                        forall|e: int|
                            0 <= e < ei && (#[trigger] self.edges_seq()[e].0.parent@) == tip
                                ==> in_visited(visited@, self.edges_seq()[e].0.child@),
                        forall|p: Seq<String>|
                            (#[trigger] self.is_path(p)) && p.len() >= 1 && p[0]@ == from@
                                && p.len() <= depth + 1 ==> in_visited(visited@, p.last()@),
                    decreases edge_count - ei,
                {
                    if self.edges[ei].0.parent == path[path.len() - 1] {
                        let found = contains_string(&visited, &self.edges[ei].0.child);
                        if !found {
                            let mut extended = clone_strings(path);
                            extended.push(self.edges[ei].0.child.clone());
                            proof {
                                let cur = current@[pi as int]@;
                                let e = self.edges_seq()[ei as int];
                                assert(e.0.is_edge(cur.last()@, e.0.child@));
                                assert(extended@.drop_last() =~= cur);
                                assert(extended@[0] == cur[0]);
                                assert(extended@.last()@ == e.0.child@);
                                assert forall|k: int|
                                    0 <= k < extended@.len() - 1 implies #[trigger] self.has_edge(
                                    extended@[k]@,
                                    extended@[k + 1]@,
                                ) by {
                                    if k < extended@.len() - 2 {
                                        assert(extended@[k] == cur[k]);
                                        assert(extended@[k + 1] == cur[k + 1]);
                                        assert(self.has_edge(cur[k]@, cur[k + 1]@));
                                    } else {
                                        assert(extended@[k] == cur.last());
                                    }
                                }
                                assert(good_path(*self, extended@, from@));
                            }
                            if self.edges[ei].0.child == to {
                                proof {
                                    assert forall|q: Seq<String>|
                                        (#[trigger] self.is_path(q)) && q.len() >= 1 && q[0]@
                                            == from@ && q.last()@ == to@ implies q.len()
                                        >= extended@.len() by {
                                        if q.len() <= depth + 1 {
                                            assert(in_visited(visited@, q.last()@));
                                        }
                                    }
                                }
                                return Ok(extended);
                            }
                            let ghost old_visited = visited@;
                            let ghost old_next = next@;
                            visited.push(self.edges[ei].0.child.clone());
                            next.push(extended);
                            proof {
                                let child = self.edges_seq()[ei as int].0.child@;
                                assert(visited@ =~= old_visited.push(visited@.last()));
                                assert(visited@.last()@ == child);
                                assert(next@.last()@.last()@ == child);
                                assert(in_visited(visited@, from@)) by {
                                    let w = choose|i: int|
                                        0 <= i < old_visited.len() && #[trigger] old_visited[i]@
                                            == from@;
                                    assert(visited@[w] == old_visited[w]);
                                }
                                assert(!in_visited(visited@, to@)) by {
                                    assert forall|i: int|
                                        0 <= i < visited@.len() implies (#[trigger] visited@[i]@)
                                        != to@ by {
                                        if i < old_visited.len() {
                                            assert(visited@[i] == old_visited[i]);
                                            assert(!in_visited(old_visited, to@));
                                        }
                                    }
                                }
                                assert forall|i: int|
                                    0 <= i < next@.len() implies !in_visited(
                                    round_visited,
                                    (#[trigger] next@[i]@).last()@,
                                ) by {
                                    if i < old_next.len() {
                                        assert(next@[i] == old_next[i]);
                                    } else {
                                        assert(next@[i]@.last()@ == child);
                                        if in_visited(round_visited, child) {
                                            let w = choose|k: int|
                                                0 <= k < round_visited.len()
                                                    && #[trigger] round_visited[k]@ == child;
                                            assert(old_visited[w] == round_visited[w]);
                                            assert(in_visited(old_visited, child));
                                        }
                                    }
                                }
                                assert forall|vi: int|
                                    0 <= vi < visited@.len() implies (#[trigger] settled(
                                    *self,
                                    visited@,
                                    current@.skip(pi + 1),
                                    next@,
                                    visited@[vi],
                                ) || visited@[vi]@ == tip) by {
                                    if vi < old_visited.len() {
                                        assert(visited@[vi] == old_visited[vi]);
                                        assert(settled(
                                            *self,
                                            old_visited,
                                            current@.skip(pi + 1),
                                            old_next,
                                            old_visited[vi],
                                        ) || old_visited[vi]@ == tip);
                                        if settled(
                                            *self,
                                            old_visited,
                                            current@.skip(pi + 1),
                                            old_next,
                                            old_visited[vi],
                                        ) {
                                            lemma_settled_grows(
                                                *self,
                                                old_visited,
                                                visited@,
                                                current@.skip(pi + 1),
                                                old_next,
                                                next@,
                                                old_visited[vi],
                                            );
                                        }
                                    } else {
                                        assert(visited@[vi] == visited@.last());
                                        assert(next@[next@.len() - 1]@.last()@ == visited@[vi]@);
                                    }
                                }
                                assert forall|e: int|
                                    0 <= e < ei + 1 && (#[trigger] self.edges_seq()[e].0.parent@)
                                        == tip implies in_visited(
                                    visited@,
                                    self.edges_seq()[e].0.child@,
                                ) by {
                                    if e < ei {
                                        assert(in_visited(
                                            old_visited,
                                            self.edges_seq()[e].0.child@,
                                        ));
                                        let w = choose|i: int|
                                            0 <= i < old_visited.len() && #[trigger] old_visited[i]@
                                                == self.edges_seq()[e].0.child@;
                                        assert(visited@[w] == old_visited[w]);
                                    } else {
                                        assert(visited@.last()@ == self.edges_seq()[e].0.child@);
                                    }
                                }
                                assert forall|p: Seq<String>|
                                    (#[trigger] self.is_path(p)) && p.len() >= 1 && p[0]@ == from@
                                        && p.len() <= depth + 1 implies in_visited(
                                    visited@,
                                    p.last()@,
                                ) by {
                                    assert(in_visited(old_visited, p.last()@));
                                    let w = choose|i: int|
                                        0 <= i < old_visited.len() && #[trigger] old_visited[i]@
                                            == p.last()@;
                                    assert(visited@[w] == old_visited[w]);
                                }
                            }
                        } else {
                            proof {
                                assert forall|e: int|
                                    0 <= e < ei + 1 && (#[trigger] self.edges_seq()[e].0.parent@)
                                        == tip implies in_visited(
                                    visited@,
                                    self.edges_seq()[e].0.child@,
                                ) by {}
                            }
                        }
                    } else {
                        proof {
                            assert(self.edges_seq()[ei as int].0.parent@ != tip);
                        }
                    }
                    ei = ei + 1;
                }
                proof {
                    assert(fully_expanded(*self, visited@, tip));
                    assert forall|vi: int|
                        0 <= vi < visited@.len() implies #[trigger] settled(
                        *self,
                        visited@,
                        current@.skip(pi + 1 as int),
                        next@,
                        visited@[vi],
                    ) by {
                        if visited@[vi]@ == tip {
                            assert(fully_expanded(*self, visited@, visited@[vi]@));
                        }
                    }
                }
                pi = pi + 1;
            }
            proof {
                assert(current@.skip(current@.len() as int) =~= no_work);
                assert forall|vi: int|
                    0 <= vi < visited@.len() implies #[trigger] settled(
                    *self,
                    visited@,
                    next@,
                    no_work,
                    visited@[vi],
                ) by {
                    assert(settled(
                        *self,
                        visited@,
                        current@.skip(current@.len() as int),
                        next@,
                        visited@[vi],
                    ));
                }
                // Every frame visited before this level is now fully expanded:
                // it cannot be the tip of a chain pushed this round.
                assert forall|vi: int|
                    0 <= vi < round_visited.len() implies fully_expanded(
                    *self,
                    visited@,
                    (#[trigger] round_visited[vi])@,
                ) by {
                    assert(visited@[vi] == round_visited[vi]);
                    assert(settled(
                        *self,
                        visited@,
                        current@.skip(current@.len() as int),
                        next@,
                        visited@[vi],
                    ));
                    if exists|i: int|
                        0 <= i < next@.len() && (#[trigger] next@[i]@.last()@) == visited@[vi]@ {
                        let i = choose|i: int|
                            0 <= i < next@.len() && (#[trigger] next@[i]@.last()@)
                                == visited@[vi]@;
                        assert(in_visited(round_visited, next@[i]@.last()@)) by {
                            assert(round_visited[vi]@ == next@[i]@.last()@);
                        }
                        assert(false);
                    }
                }
                // The visited set now covers every stored path one edge longer.
                assert forall|p: Seq<String>|
                    (#[trigger] self.is_path(p)) && p.len() >= 1 && p[0]@ == from@ && p.len()
                        <= depth + 2 implies in_visited(visited@, p.last()@) by {
                    lemma_ball_grows(*self, round_visited, visited@, from@, depth as int, p);
                }
            }
            current = next;
            depth = depth + 1;
        }
    }

    /// The latest common time of `path`: the minimum over its steps of the
    /// newest timed stamp of the sampled edge, or the zero time where no step
    /// has one.
    fn latest_common_time(&self, path: &Vec<String>) -> (r: Time)
        requires
            self.wf(),
            path@.len() >= 1,
        ensures
            r == (match self.latest_common_prefix(path@, path@.len() - 1) {
                Some(m) => m,
                None => Time { sec: 0, nsec: 0 },
            }),
    {
        let mut acc: Option<Time> = None;
        let n = path.len();
        let mut k: usize = 0;
        while k + 1 < n
            invariant
                self.wf(),
                n == path@.len(),
                n >= 1,
                0 <= k <= n - 1,
                acc == self.latest_common_prefix(path@, k as int),
            decreases n - 1 - k,
        {
            let newest: Option<Time> = match self.find_edge(&path[k + 1], &path[k]) {
                Some(i) => {
                    proof {
                        lemma_edge_lookup(
                            self.edges_seq(),
                            path@[k + 1]@,
                            path@[k as int]@,
                            i as int,
                        );
                    }
                    self.edges[i].1.newest_timed()
                },
                None => None,
            };
            proof {
                assert(newest == self.step_newest(path@[k as int], path@[k + 1]));
            }
            acc = match (acc, newest) {
                (Option::None, x) => x,
                (Option::Some(x), Option::None) => Some(x),
                (Option::Some(x), Option::Some(y)) => if x.nanos() <= y.nanos() {
                    Some(x)
                } else {
                    Some(y)
                },
            };
            k = k + 1;
        }
        match acc {
            Some(m) => m,
            None => Time { sec: 0, nsec: 0 },
        }
    }

    /// Looks up a transform within the tree at a given time: the pose of the
    /// source frame in the target frame, composed along a stored path, each
    /// edge sampled at the requested time — or, for the "latest available"
    /// sentinel, at the latest common time of the path.
    pub fn lookup_transform(&self, target_frame: &str, source_frame: &str, time: Time) -> (r:
        Result<TransformStamped, TfError>)
        requires
            self.wf(),
        ensures
            target_frame@ == source_frame@ ==> r is Ok,
            r is Ok ==> self.lookup_ok_spec(target_frame@, source_frame@, time, r->Ok_0),
            r is Err ==> self.lookup_err_spec(target_frame@, source_frame@, time, r->Err_0),
    {
        let target = target_frame.to_string();
        let source = source_frame.to_string();
        proof {
            vstd::string::to_string_from_display_ensures_for_str(target_frame, target);
            vstd::string::to_string_from_display_ensures_for_str(source_frame, source);
        }
        if target == source {
            return Ok(
                TransformStamped {
                    header: Header { seq: 0, frame_id: target, stamp: time },
                    child_frame_id: source,
                    transform: Transform::identity(),
                },
            );
        }
        let path = match self.retrieve_transform_path(source.clone(), target.clone()) {
            Ok(p) => p,
            Err(e) => {
                proof {
                    assert(e == TfError::CouldNotFindTransform || e == TfError::GraphTooDeep);
                    assert(self.lookup_err_spec(target_frame@, source_frame@, time, e));
                }
                return Err(e);
            },
        };
        let t_eff = if time.nanos() == 0 {
            self.latest_common_time(&path)
        } else {
            time
        };
        proof {
            assert(t_eff == self.effective_time(path@, time));
        }
        let mut tfs: Vec<Transform> = Vec::new();
        let n = path.len();
        let mut k: usize = 0;
        while k + 1 < n
            invariant
                self.wf(),
                target_frame@ != source_frame@,
                self.is_path(path@),
                path@[0]@ == source_frame@,
                path@.last()@ == target_frame@,
                self.shortest_between(path@, source_frame@, target_frame@),
                t_eff == self.effective_time(path@, time),
                n == path@.len(),
                n >= 2,
                0 <= k <= n - 1,
                tfs@.len() == k,
                forall|j: int|
                    0 <= j < k ==> #[trigger] self.step_sample(path@[j], path@[j + 1], t_eff)
                        is Ok,
                forall|j: int|
                    0 <= j < k ==> tfs@[j] == #[trigger] self.step_sample(
                        path@[j],
                        path@[j + 1],
                        t_eff,
                    )->Ok_0,
            decreases n - 1 - k,
        {
            match self.find_edge(&path[k + 1], &path[k]) {
                Some(i) => {
                    proof {
                        lemma_edge_lookup(
                            self.edges_seq(),
                            path@[k + 1]@,
                            path@[k as int]@,
                            i as int,
                        );
                    }
                    match self.edges[i].1.sample_at(t_eff) {
                        Ok(tr) => tfs.push(tr),
                        Err(e) => {
                            proof {
                                let kk = k as int;
                                assert(self.step_sample(path@[kk], path@[kk + 1], t_eff) == Err::<
                                    Transform,
                                    TfError,
                                >(e));
                                assert(e == TfError::AttemptedLookupInPast || e
                                    == TfError::AttemptedLookUpInFuture);
                                assert(self.lookup_step_fails(
                                    target_frame@,
                                    source_frame@,
                                    time,
                                    e,
                                ));
                            }
                            return Err(e);
                        },
                    }
                },
                None => {
                    proof {
                        if self.edges_paired() {
                            let kk = k as int;
                            assert(self.has_edge(path@[kk]@, path@[kk + 1]@));
                            let e = choose|e: int|
                                0 <= e < self.edges_seq().len()
                                    && #[trigger] self.edges_seq()[e].0.is_edge(
                                    path@[kk]@,
                                    path@[kk + 1]@,
                                );
                            assert(self.has_edge(
                                self.edges_seq()[e].0.child@,
                                self.edges_seq()[e].0.parent@,
                            ));
                            assert(false);
                        }
                        assert(self.lookup_err_spec(
                            target_frame@,
                            source_frame@,
                            time,
                            TfError::CouldNotFindTransform,
                        ));
                    }
                    return Err(TfError::CouldNotFindTransform);
                },
            }
            k = k + 1;
        }
        proof {
            assert(tfs@ =~= self.sampled_transforms(path@, t_eff));
        }
        let net_transform = chain_transforms(&tfs);
        Ok(to_transform_stamped(net_transform, target, source, t_eff))
    }

    /// Whether a lookup of `source_frame` in `target_frame` at `time` can
    /// succeed right now: a failing lookup whose data has not yet arrived
    /// answers `false` rather than an error, so that a shell around the buffer
    /// can wait out its timeout and ask again.
    pub fn can_transform(
        &self,
        target_frame: &str,
        source_frame: &str,
        time: Time,
        _timeout: Duration,
    ) -> (r: Result<bool, TfError>)
        requires
            self.wf(),
        ensures
            target_frame@ == source_frame@ ==> r == Ok::<bool, TfError>(true),
            r == Ok::<bool, TfError>(true) ==> exists|ts: TransformStamped|
                self.lookup_ok_spec(target_frame@, source_frame@, time, ts),
            r == Ok::<bool, TfError>(false) ==> self.lookup_err_spec(
                target_frame@,
                source_frame@,
                time,
                TfError::AttemptedLookUpInFuture,
            ),
            r is Err ==> r->Err_0 != TfError::AttemptedLookUpInFuture && self.lookup_err_spec(
                target_frame@,
                source_frame@,
                time,
                r->Err_0,
            ),
    {
        match self.lookup_transform(target_frame, source_frame, time) {
            Ok(ts) => {
                proof {
                    assert(self.lookup_ok_spec(target_frame@, source_frame@, time, ts));
                }
                Ok(true)
            },
            Err(TfError::AttemptedLookUpInFuture) => Ok(false),
            Err(e) => Err(e),
        }
    }

    /// Looks up, through a fixed frame, the pose of the source frame at its
    /// own instant in the target frame at another instant: both endpoints are
    /// resolved against `fixed_frame`, and the source side is inverted and
    /// composed onto the target side.
    pub fn lookup_transform_with_time_travel(
        &self,
        target_frame: &str,
        target_time: Time,
        source_frame: &str,
        source_time: Time,
        fixed_frame: &str,
        _timeout: Duration,
    ) -> (r: Result<TransformStamped, TfError>)
        requires
            self.wf(),
        ensures
            r is Ok ==> exists|sf: TransformStamped, tf: TransformStamped|
                {
                    &&& #[trigger] self.lookup_ok_spec(source_frame@, fixed_frame@, source_time, sf)
                    &&& #[trigger] self.lookup_ok_spec(target_frame@, fixed_frame@, target_time, tf)
                    &&& r->Ok_0.transform == crate::transforms::compose_of(
                        tf.transform,
                        crate::transforms::invert_of(sf.transform),
                    )
                    &&& r->Ok_0.header.stamp == source_time
                    &&& r->Ok_0.header.frame_id@ == target_frame@
                    &&& r->Ok_0.child_frame_id@ == source_frame@
                    &&& r->Ok_0.header.seq == 0
                },
            r is Err ==> (self.lookup_err_spec(source_frame@, fixed_frame@, source_time, r->Err_0)
                || self.lookup_err_spec(target_frame@, fixed_frame@, target_time, r->Err_0)),
    {
        let source_tf = match self.lookup_transform(source_frame, fixed_frame, source_time) {
            Ok(ts) => ts,
            Err(e) => {
                return Err(e);
            },
        };
        let target_tf = match self.lookup_transform(target_frame, fixed_frame, target_time) {
            Ok(ts) => ts,
            Err(e) => {
                return Err(e);
            },
        };
        let inverted = invert_transform(source_tf.transform);
        let composed = compose(&target_tf.transform, &inverted);
        let result = to_transform_stamped(
            composed,
            target_frame.to_string(),
            source_frame.to_string(),
            source_time,
        );
        proof {
            assert(self.lookup_ok_spec(source_frame@, fixed_frame@, source_time, source_tf));
            assert(self.lookup_ok_spec(target_frame@, fixed_frame@, target_time, target_tf));
        }
        Ok(result)
    }

    /// Whether a time-travel lookup can succeed right now, with the same
    /// waiting convention as `can_transform`.
    pub fn can_transform_with_time_travel(
        &self,
        target_frame: &str,
        target_time: Time,
        source_frame: &str,
        source_time: Time,
        fixed_frame: &str,
        timeout: Duration,
    ) -> (r: Result<bool, TfError>)
        requires
            self.wf(),
        ensures
            r == Ok::<bool, TfError>(true) ==> (exists|ts: TransformStamped|
                self.lookup_ok_spec(source_frame@, fixed_frame@, source_time, ts)) && (exists|
                ts: TransformStamped,
            | self.lookup_ok_spec(target_frame@, fixed_frame@, target_time, ts)),
            r == Ok::<bool, TfError>(false) ==> (self.lookup_err_spec(
                source_frame@,
                fixed_frame@,
                source_time,
                TfError::AttemptedLookUpInFuture,
            ) || self.lookup_err_spec(
                target_frame@,
                fixed_frame@,
                target_time,
                TfError::AttemptedLookUpInFuture,
            )),
            r is Err ==> r->Err_0 != TfError::AttemptedLookUpInFuture && (self.lookup_err_spec(
                source_frame@,
                fixed_frame@,
                source_time,
                r->Err_0,
            ) || self.lookup_err_spec(target_frame@, fixed_frame@, target_time, r->Err_0)),
    {
        let can_source = match self.can_transform(source_frame, fixed_frame, source_time, timeout) {
            Ok(b) => b,
            Err(e) => {
                return Err(e);
            },
        };
        let can_target = match self.can_transform(target_frame, fixed_frame, target_time, timeout) {
            Ok(b) => b,
            Err(e) => {
                return Err(e);
            },
        };
        Ok(can_source && can_target)
    }

    /// Ingest one batch: every sample is handed to `add_transform`, in batch
    /// order, and the diagnostics of the refused ones come back, in that same
    /// order: the final state is the fold of `add_transform` over the batch.
    pub fn handle_incoming_transforms(&mut self, transforms: TFMessage, static_tf: bool) -> (r:
        Vec<TfDiagnostic>)
        requires
            old(self).wf(),
        ensures
            final(self).wf(),
            final(self).window() == old(self).window(),
            old(self).edges_paired() ==> final(self).edges_paired(),
            r@.len() <= transforms.transforms@.len(),
            exists|states: Seq<Buffer>, results: Seq<Result<(), TfDiagnostic>>|
                {
                    &&& states.len() == transforms.transforms@.len() + 1
                    &&& results.len() == transforms.transforms@.len()
                    &&& states[0] == *old(self)
                    &&& #[trigger] states.last() == *final(self)
                    &&& (forall|k: int|
                        0 <= k < results.len() ==> #[trigger] add_transform_spec(
                            states[k],
                            transforms.transforms@[k],
                            static_tf,
                            states[k + 1],
                            results[k],
                        ))
                    &&& r@ == #[trigger] collected_diagnostics(results)
                },
    {
        let mut diagnostics: Vec<TfDiagnostic> = Vec::new();
        let samples = transforms.transforms;
        let ghost mut states: Seq<Buffer> = seq![*self];
        let ghost mut results: Seq<Result<(), TfDiagnostic>> = Seq::empty();
        let n = samples.len();
        let mut k: usize = 0;
        while k < n
            invariant
                0 <= k <= n,
                n == samples@.len(),
                diagnostics@.len() <= k,
                self.wf(),
                self.window() == old(self).window(),
                old(self).edges_paired() ==> self.edges_paired(),
                states.len() == k + 1,
                results.len() == k,
                states[0] == *old(self),
                states.last() == *self,
                forall|j: int|
                    0 <= j < k ==> #[trigger] add_transform_spec(
                        states[j],
                        samples@[j],
                        static_tf,
                        states[j + 1],
                        results[j],
                    ),
                diagnostics@ == collected_diagnostics(results),
            decreases n - k,
        {
            let sample = samples[k].clone();
            let ghost pre = *self;
            let ghost old_states = states;
            let ghost old_results = results;
            let outcome = self.add_transform(sample, static_tf);
            proof {
                states = states.push(*self);
                results = results.push(outcome);
                assert(states.drop_last() =~= old_states);
                assert(results.drop_last() =~= old_results);
            }
            match outcome {
                Ok(_) => {
                    proof {
                        assert(diagnostics@ =~= collected_diagnostics(results));
                    }
                },
                Err(d) => {
                    diagnostics.push(d);
                    proof {
                        assert(diagnostics@ =~= collected_diagnostics(results));
                    }
                },
            }
            proof {
                assert forall|j: int|
                    0 <= j < k + 1 implies #[trigger] add_transform_spec(
                    states[j],
                    samples@[j],
                    static_tf,
                    states[j + 1],
                    results[j],
                ) by {
                    if j < k {
                        assert(states[j] == old_states[j]);
                        assert(states[j + 1] == old_states[j + 1]);
                        assert(results[j] == old_results[j]);
                        assert(add_transform_spec(
                            old_states[j],
                            samples@[j],
                            static_tf,
                            old_states[j + 1],
                            old_results[j],
                        ));
                    } else {
                        assert(states[j] == old_states.last());
                        assert(states[j] == pre);
                        assert(states[j + 1] == states.last());
                        assert(results[j] == outcome);
                        assert(sample == samples@[j]);
                    }
                }
            }
            k = k + 1;
        }
        diagnostics
    }
}

/// The diagnostics of the refused calls, in call order: the payloads of the
/// `Err` results.
pub open spec fn collected_diagnostics(results: Seq<Result<(), TfDiagnostic>>) -> Seq<
    TfDiagnostic,
>
    decreases results.len(),
{
    if results.len() == 0 {
        Seq::empty()
    } else {
        match results.last() {
            Ok(_) => collected_diagnostics(results.drop_last()),
            Err(d) => collected_diagnostics(results.drop_last()).push(d),
        }
    }
}

/// How one call of `add_transform` with `transform` and `static_tf` takes the
/// buffer from `pre` to `post` and answers `r`: the refusal reasons, the
/// acceptance condition, and — on success — how the edge and its reverse edge
/// change and read back.
pub open spec fn add_transform_spec(
    pre: Buffer,
    transform: TransformStamped,
    static_tf: bool,
    post: Buffer,
    r: Result<(), TfDiagnostic>,
) -> bool {
    &&& post.wf()
    &&& post.window() == pre.window()
    &&& post.depth_bound() == pre.depth_bound()
    &&& (pre.edges_paired() ==> post.edges_paired())
    &&& (r is Err ==> post.edges_seq() == pre.edges_seq())
    &&& (r is Err ==> (r->Err_0.parent@ == transform.header.frame_id@ && r->Err_0.child@
        == transform.child_frame_id@ && r->Err_0.stamp == transform.header.stamp))
    &&& ((r is Err && r->Err_0.reason == DiagnosticReason::SelfParent)
        <==> transform.header.frame_id@ == transform.child_frame_id@)
    &&& ((r is Err && r->Err_0.reason == DiagnosticReason::EmptyFrameId) <==> (
    transform.header.frame_id@ != transform.child_frame_id@ && (transform.header.frame_id@.len()
        == 0 || transform.child_frame_id@.len() == 0)))
    &&& ((r is Err && r->Err_0.reason == DiagnosticReason::NanInput) <==> (
    transform.header.frame_id@ != transform.child_frame_id@ && transform.header.frame_id@.len()
        != 0 && transform.child_frame_id@.len() != 0 && !transform.transform.spec_is_finite()))
    &&& (r is Ok <==> (transform.header.frame_id@ != transform.child_frame_id@
        && transform.header.frame_id@.len() != 0 && transform.child_frame_id@.len() != 0
        && transform.transform.spec_is_finite() && pre.variant_ok(
        transform.header.frame_id@,
        transform.child_frame_id@,
        static_tf,
    ) && pre.variant_ok(transform.child_frame_id@, transform.header.frame_id@, static_tf)
        && pre.edge_accepts(
        transform.header.frame_id@,
        transform.child_frame_id@,
        normalized_sample(transform),
    ) && pre.edge_accepts(
        transform.child_frame_id@,
        transform.header.frame_id@,
        inverse_sample(normalized_sample(transform)),
    )))
    &&& (r is Ok ==> ({
        let p = transform.header.frame_id@;
        let c = transform.child_frame_id@;
        let norm = normalized_sample(transform);
        &&& post.has_edge(p, c)
        &&& post.has_edge(c, p)
        &&& frame_stores(
            if pre.has_edge(p, c) {
                Some(pre.edge_frame(p, c))
            } else {
                None
            },
            static_tf,
            norm,
            post.edge_frame(p, c),
        )
        &&& frame_stores(
            if pre.has_edge(c, p) {
                Some(pre.edge_frame(c, p))
            } else {
                None
            },
            static_tf,
            inverse_sample(norm),
            post.edge_frame(c, p),
        )
        &&& forall|i: int|
            0 <= i < pre.edges_seq().len() && !pre.edges_seq()[i].0.is_edge(p, c)
                && !pre.edges_seq()[i].0.is_edge(c, p) ==> post.edges_seq()[i]
                == #[trigger] pre.edges_seq()[i]
    }))
    &&& (r is Ok && transform.header.stamp.as_nanos() != 0 ==> post.edge_frame(
        transform.header.frame_id@,
        transform.child_frame_id@,
    ).sample_spec(transform.header.stamp) == Ok::<Transform, TfError>(
        normalized_sample(transform).transform,
    ))
    &&& (r is Ok && transform.header.stamp.as_nanos() != 0 ==> post.edge_frame(
        transform.child_frame_id@,
        transform.header.frame_id@,
    ).sample_spec(transform.header.stamp) == Ok::<Transform, TfError>(
        crate::transforms::invert_of(normalized_sample(transform).transform),
    ))
}

/// Reading back a stored sample: an edge that accepted `sample` answers a
/// query at the sample's own stamp with exactly the sample's transform.
pub proof fn lemma_stored_sample_reads_back(
    before: Option<Frame>,
    static_tf: bool,
    sample: TransformStamped,
    after: Frame,
)
    requires
        match before {
            Some(f) => f.wf() && f.accepts_spec(sample),
            None => true,
        },
        frame_stores(before, static_tf, sample, after),
        sample.stamp_nanos() != 0,
    ensures
        after.sample_spec(sample.header.stamp) == Ok::<Transform, TfError>(sample.transform),
{
    match before {
        Option::None => {
            if static_tf {
            } else {
                let c = after->Timed_0.cache();
                assert(c.len() == 1 && c[0] == sample);
                assert(sample_at_spec(c, sample.header.stamp) == Ok::<Transform, TfError>(
                    c[0].transform,
                ));
            }
        },
        Option::Some(f) => {
            match f {
                Frame::Static(_) => {},
                Frame::Timed(tf) => {
                    let pos = choose|pos: int|
                        #[trigger] insert_ok_at(tf.cache(), sample, pos) && after->Timed_0.cache()
                            == pruned(
                            tf.cache().insert(pos, sample),
                            tf.window().as_nanos(),
                        );
                    lemma_insert_then_sample(tf.cache(), sample, pos, tf.window().as_nanos());
                },
            }
        },
    }
}

impl TransformInterface for Buffer {
    open spec fn tf_inv(&self) -> bool {
        self.wf()
    }

    open spec fn lookup_spec(
        &self,
        target: Seq<char>,
        source: Seq<char>,
        time: Time,
        ts: TransformStamped,
    ) -> bool {
        self.lookup_ok_spec(target, source, time, ts)
    }

    open spec fn lookup_err(
        &self,
        target: Seq<char>,
        source: Seq<char>,
        time: Time,
        e: TfError,
    ) -> bool {
        self.lookup_err_spec(target, source, time, e)
    }

    fn lookup_transform(&self, target_frame: &str, source_frame: &str, time: Time) -> (r: Result<
        TransformStamped,
        TfError,
    >) {
        Buffer::lookup_transform(self, target_frame, source_frame, time)
    }

    fn can_transform(
        &self,
        target_frame: &str,
        source_frame: &str,
        time: Time,
        timeout: Duration,
    ) -> (r: Result<bool, TfError>) {
        let r = Buffer::can_transform(self, target_frame, source_frame, time, timeout);
        proof {
            if r == Ok::<bool, TfError>(true) {
                let ts = choose|ts: TransformStamped|
                    self.lookup_ok_spec(target_frame@, source_frame@, time, ts);
                assert(self.lookup_spec(target_frame@, source_frame@, time, ts));
            }
        }
        r
    }
}

impl TransformWithTimeInterface for Buffer {
    open spec fn tf_time_inv(&self) -> bool {
        self.wf()
    }

    open spec fn lookup_time_spec(
        &self,
        target: Seq<char>,
        source: Seq<char>,
        time: Time,
        ts: TransformStamped,
    ) -> bool {
        self.lookup_ok_spec(target, source, time, ts)
    }

    open spec fn lookup_time_err(
        &self,
        target: Seq<char>,
        source: Seq<char>,
        time: Time,
        e: TfError,
    ) -> bool {
        self.lookup_err_spec(target, source, time, e)
    }

    fn lookup_transform_with_time_travel(
        &self,
        target_frame: &str,
        target_time: Time,
        source_frame: &str,
        source_time: Time,
        fixed_frame: &str,
        timeout: Duration,
    ) -> (r: Result<TransformStamped, TfError>) {
        let r = Buffer::lookup_transform_with_time_travel(
            self,
            target_frame,
            target_time,
            source_frame,
            source_time,
            fixed_frame,
            timeout,
        );
        proof {
            if r is Ok {
                let (sf, tf) = choose|sf: TransformStamped, tf: TransformStamped|
                    {
                        &&& #[trigger] self.lookup_ok_spec(
                            source_frame@,
                            fixed_frame@,
                            source_time,
                            sf,
                        )
                        &&& #[trigger] self.lookup_ok_spec(
                            target_frame@,
                            fixed_frame@,
                            target_time,
                            tf,
                        )
                        &&& r->Ok_0.transform == crate::transforms::compose_of(
                            tf.transform,
                            crate::transforms::invert_of(sf.transform),
                        )
                        &&& r->Ok_0.header.stamp == source_time
                        &&& r->Ok_0.header.frame_id@ == target_frame@
                        &&& r->Ok_0.child_frame_id@ == source_frame@
                        &&& r->Ok_0.header.seq == 0
                    };
                assert(self.lookup_time_spec(source_frame@, fixed_frame@, source_time, sf));
                assert(self.lookup_time_spec(target_frame@, fixed_frame@, target_time, tf));
            }
        }
        r
    }

    fn can_transform_with_time_travel(
        &self,
        target_frame: &str,
        target_time: Time,
        source_frame: &str,
        source_time: Time,
        fixed_frame: &str,
        timeout: Duration,
    ) -> (r: Result<bool, TfError>) {
        let r = Buffer::can_transform_with_time_travel(
            self,
            target_frame,
            target_time,
            source_frame,
            source_time,
            fixed_frame,
            timeout,
        );
        proof {
            if r == Ok::<bool, TfError>(true) {
                let sf = choose|ts: TransformStamped|
                    self.lookup_ok_spec(source_frame@, fixed_frame@, source_time, ts);
                assert(self.lookup_time_spec(source_frame@, fixed_frame@, source_time, sf));
                let tf = choose|ts: TransformStamped|
                    self.lookup_ok_spec(target_frame@, fixed_frame@, target_time, ts);
                assert(self.lookup_time_spec(target_frame@, fixed_frame@, target_time, tf));
            }
        }
        r
    }
}

/// An edge found at a concrete position is the edge the spec-level accessors
/// name: under key uniqueness the position is unique.
proof fn lemma_edge_lookup(s: Seq<(TfGraphNode, Frame)>, parent: Seq<char>, child: Seq<char>, i: int)
    requires
        keys_unique(s),
        0 <= i < s.len(),
        s[i].0.is_edge(parent, child),
    ensures
        has_edge_in(s, parent, child),
        edge_at_in(s, parent, child) == i,
{
    let j = edge_at_in(s, parent, child);
    assert(s[i].0.is_edge(parent, child));
    if i != j {
        assert(same_key(s[i].0, s[j].0));
        if i < j {
            assert(!same_key(s[i].0, s[j].0));
        } else {
            assert(!same_key(s[j].0, s[i].0));
        }
    }
}

/// A store event at position `i` — an in-place update, or an append when `i`
/// is the old length — keeps every other edge in place, keeps the keys
/// pairwise distinct if the appended key was absent, and leaves every other
/// directed edge resolving to the same position.
proof fn lemma_store_event(
    pre: Seq<(TfGraphNode, Frame)>,
    post: Seq<(TfGraphNode, Frame)>,
    parent: Seq<char>,
    child: Seq<char>,
    i: int,
)
    requires
        keys_unique(pre),
        0 <= i <= pre.len(),
        i < pre.len() ==> (post.len() == pre.len() && post[i].0 == pre[i].0 && pre[i].0.is_edge(
            parent,
            child,
        )),
        i == pre.len() ==> (post.len() == pre.len() + 1 && post[i].0.is_edge(parent, child)
            && !has_edge_in(pre, parent, child)),
        forall|k: int| 0 <= k < pre.len() && k != i ==> #[trigger] post[k] == pre[k],
    ensures
        keys_unique(post),
        has_edge_in(post, parent, child),
        edge_at_in(post, parent, child) == i,
        forall|p: Seq<char>, c: Seq<char>|
            #[trigger] has_edge_in(pre, p, c) ==> has_edge_in(post, p, c) && edge_at_in(post, p, c)
                == edge_at_in(pre, p, c),
        forall|p: Seq<char>, c: Seq<char>|
            #[trigger] has_edge_in(post, p, c) && !(p == parent && c == child) ==> has_edge_in(
                pre,
                p,
                c,
            ),
{
    assert forall|a: int, b: int| 0 <= a < b < post.len() implies !#[trigger] same_key(
        post[a].0,
        post[b].0,
    ) by {
        if b < pre.len() || (i < pre.len() && b == i) {
            assert(post[a].0 == pre[a].0);
            assert(post[b].0 == pre[b].0);
        } else {
            // b is an appended edge: its key was absent from pre.
            assert(post[a].0 == pre[a].0);
            if same_key(post[a].0, post[b].0) {
                assert(pre[a].0.is_edge(parent, child));
            }
        }
    }
    assert(post[i].0.is_edge(parent, child));
    lemma_edge_lookup(post, parent, child, i);
    assert forall|p: Seq<char>, c: Seq<char>| #[trigger] has_edge_in(pre, p, c) implies has_edge_in(
        post,
        p,
        c,
    ) && edge_at_in(post, p, c) == edge_at_in(pre, p, c) by {
        let k = edge_at_in(pre, p, c);
        assert(pre[k].0.is_edge(p, c));
        if k == i {
            assert(post[k].0 == pre[k].0);
        }
        assert(post[k].0.is_edge(p, c));
        lemma_edge_lookup(post, p, c, k);
    }
    assert forall|p: Seq<char>, c: Seq<char>|
        #[trigger] has_edge_in(post, p, c) && !(p == parent && c == child) implies has_edge_in(
        pre,
        p,
        c,
    ) by {
        let k = edge_at_in(post, p, c);
        assert(post[k].0.is_edge(p, c));
        if k == i {
            assert(post[i].0.is_edge(parent, child));
            assert(p == parent && c == child);
        } else {
            assert(post[k].0 == pre[k].0);
        }
    }
}

} // verus!
