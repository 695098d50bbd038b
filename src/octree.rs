use vstd::prelude::*;

use crate::aabb::{boxes_overlap, le3, ray_meets_box, tri_max, tri_min, AABB};
use crate::math::{vsub, Point3, POINT_MAX};
use crate::ray::{Ray, RayView};
use crate::triangle::Triangle;

verus! {

/// Depth at which a node becomes a leaf whatever it holds.
pub const MAX_DEPTH: usize = 10;

/// A node whose box is no larger than this on every axis (in raw units)
/// becomes a leaf.
pub const MIN_SIZE: i64 = 0;

/// A node with at most this many triangles becomes a leaf.
pub const MIN_TRIANGLES_PER_NODE: usize = 10;

/// The index of a triangle in the flat triangle array of an octree.
#[derive(Clone, Copy, Debug, PartialEq, Eq, Structural)]
pub struct TriangleId(pub usize);

impl TriangleId {
    pub fn value(&self) -> (v: usize)
        ensures
            v == self.0,
    {
        self.0
    }
}

/// The index of a node in the arena.
#[derive(Clone, Copy, Debug, PartialEq, Eq, Structural)]
pub struct NodeId(pub usize);

impl NodeId {
    /// The id that refers to no node.
    pub fn none() -> (n: NodeId)
        ensures
            n.0 == usize::MAX,
    {
        NodeId(usize::MAX)
    }
}

/// What a node knows besides its triangles: its children, its box, and
/// whether it is a leaf and, if so, whether it holds nothing.
#[derive(Clone, Copy, Debug)]
pub struct Metadata {
    pub children: [usize; 8],
    pub bounding_box: AABB,
    pub is_leaf: bool,
    pub is_empty: bool,
}

/// A node of the tree: its metadata and the triangles it holds.
#[derive(Debug)]
pub struct Node {
    pub metadata: Metadata,
    pub data: Vec<usize>,
}

impl Node {
    /// A node that holds `data`, with an empty box, no children yet, and
    /// marked a leaf until it is built.
    pub fn new(data: Vec<usize>) -> (n: Node)
        ensures
            n.data@ == data@,
            n.metadata.is_leaf,
            !n.metadata.is_empty,
            n.metadata.bounding_box.wf(),
    {
        Node {
            metadata: Metadata {
                children: [usize::MAX; 8],
                bounding_box: AABB::empty(),
                is_leaf: true,
                is_empty: false,
            },
            data,
        }
    }
}

/// Nodes stored side by side and referred to by index.
#[derive(Debug)]
pub struct Arena {
    pub metadata: Vec<Metadata>,
    pub data: Vec<Vec<usize>>,
}

impl Arena {
    pub open spec fn len(&self) -> nat {
        self.metadata@.len()
    }

    pub open spec fn wf(&self) -> bool {
        self.metadata@.len() == self.data@.len()
    }

    pub fn with_capacity(capacity: usize) -> (a: Arena)
        ensures
            a.wf(),
            a.len() == 0,
    {
        Arena { metadata: Vec::with_capacity(capacity), data: Vec::with_capacity(capacity) }
    }

    /// Adds a node holding `data` and returns its id.
    pub fn new_node(&mut self, data: Vec<usize>) -> (id: usize)
        requires
            old(self).wf(),
        ensures
            final(self).wf(),
            id == old(self).len(),
            final(self).len() == old(self).len() + 1,
            forall|i: int| 0 <= i < id ==> final(self).metadata@[i] == old(self).metadata@[i],
            forall|i: int| 0 <= i < id ==> final(self).data@[i] == old(self).data@[i],
            final(self).data@[id as int]@ == data@,
            final(self).metadata@[id as int].is_leaf,
            final(self).metadata@[id as int].bounding_box.wf(),
    {
        let next_index = self.metadata.len();
        let node = Node::new(data);
        self.metadata.push(node.metadata);
        self.data.push(node.data);
        next_index
    }

    pub fn clear(&mut self)
        ensures
            final(self).wf(),
            final(self).len() == 0,
    {
        self.metadata.clear();
        self.data.clear();
    }

    pub fn num_nodes(&self) -> (n: usize)
        ensures
            n == self.len(),
    {
        self.metadata.len()
    }
}

/// Corner `k` of the eight octants of the box `lo..hi` split at `c`: the
/// order is the low-x half first (low y then high y, each low z then high z),
/// then the high-x half.
pub open spec fn octant_high(k: int) -> (bool, bool, bool) {
    if k == 0 {
        (false, false, false)
    } else if k == 1 {
        (false, false, true)
    } else if k == 2 {
        (false, true, false)
    } else if k == 3 {
        (false, true, true)
    } else if k == 4 {
        (true, true, true)
    } else if k == 5 {
        (true, true, false)
    } else if k == 6 {
        (true, false, true)
    } else {
        (true, false, false)
    }
}

pub open spec fn pick(high: bool, lo: int, c: int, hi: int) -> (int, int) {
    if high {
        (c, hi)
    } else {
        (lo, c)
    }
}

pub open spec fn octant_lo(lo: (int, int, int), c: (int, int, int), hi: (int, int, int), k: int) -> (
    int,
    int,
    int,
) {
    let h = octant_high(k);
    (pick(h.0, lo.0, c.0, hi.0).0, pick(h.1, lo.1, c.1, hi.1).0, pick(h.2, lo.2, c.2, hi.2).0)
}

pub open spec fn octant_hi(lo: (int, int, int), c: (int, int, int), hi: (int, int, int), k: int) -> (
    int,
    int,
    int,
) {
    let h = octant_high(k);
    (pick(h.0, lo.0, c.0, hi.0).1, pick(h.1, lo.1, c.1, hi.1).1, pick(h.2, lo.2, c.2, hi.2).1)
}

/// Whether the bounding box of triangle `t` overlaps `b`.
pub open spec fn overlaps(tris: Seq<Triangle>, b: AABB) -> spec_fn(usize) -> bool {
    |t: usize| boxes_overlap(b.lo(), b.hi(), tri_min(tris[t as int]), tri_max(tris[t as int]))
}

/// A tree of boxes over a flat array of triangles; nodes refer to triangles
/// by index, and a node's children always come after it in the arena.
pub struct Octree {
    pub triangles: Vec<Triangle>,
    pub arena: Arena,
    pub root: usize,
    /// The triangles each node was given when it was created; a leaf keeps
    /// them, a split node hands them on to its children.
    pub assigned: Ghost<Seq<Seq<usize>>>,
    /// The depth of each node, the root at depth 1.
    pub depths: Ghost<Seq<int>>,
    /// Which nodes stayed leaves only because the arena was out of room.
    pub full: Ghost<Seq<bool>>,
}

impl Octree {
    pub open spec fn node_ok(&self, i: int) -> bool {
        let m = self.arena.metadata@[i];
        let d = self.arena.data@[i]@;
        &&& m.bounding_box.wf()
        &&& (d.len() > 0 ==> le3(m.bounding_box.lo(), m.bounding_box.hi()))
        &&& forall|j: int| 0 <= j < d.len() ==> #[trigger] d[j] < self.triangles@.len()
        &&& !m.is_leaf ==> forall|k: int|
            0 <= k < 8 ==> i < #[trigger] m.children[k] < self.arena.len()
    }

    pub open spec fn wf(&self) -> bool {
        &&& self.arena.wf()
        &&& self.root == 0
        &&& self.arena.len() > 0
        &&& forall|i: int| 0 <= i < self.triangles@.len() ==> #[trigger] self.triangles@[i].wf()
        &&& forall|i: int| 0 <= i < self.arena.len() ==> #[trigger] self.node_ok(i)
    }

    /// Child `k` of node `i` is the `k`-th octant of its box and was given
    /// the triangles of `i` whose bounding boxes overlap that octant.
    pub open spec fn child_ok(&self, i: int, k: int) -> bool {
        let m = self.arena.metadata@[i];
        let c = m.children[k] as int;
        let b = m.bounding_box;
        let ctr = crate::math::vadd(b.lo(), crate::math::div_vec(vsub(b.hi(), b.lo()), 2));
        &&& self.assigned@[c] == self.assigned@[i].filter(
            overlaps(self.triangles@, self.arena.metadata@[c].bounding_box),
        )
        &&& self.arena.metadata@[c].bounding_box.lo() == octant_lo(b.lo(), ctr, b.hi(), k)
        &&& self.arena.metadata@[c].bounding_box.hi() == octant_hi(b.lo(), ctr, b.hi(), k)
        &&& self.depths@[c] == self.depths@[i] + 1
    }

    /// A leaf holds what it was given; a split node's children are its
    /// octants with their share of its triangles.
    pub open spec fn split_ok(&self, i: int) -> bool {
        &&& self.arena.metadata@[i].is_leaf ==> self.arena.data@[i]@ == self.assigned@[i]
        &&& !self.arena.metadata@[i].is_leaf ==> forall|k: int| 0 <= k < 8 ==> #[trigger] self.child_ok(i, k)
    }

    /// Every node is split as `split_ok` says.
    pub open spec fn built(&self) -> bool {
        &&& self.assigned@.len() == self.arena.len()
        &&& self.depths@.len() == self.arena.len()
        &&& self.full@.len() == self.arena.len()
        &&& forall|i: int| 0 <= i < self.arena.len() ==> #[trigger] self.split_ok(i)
    }

    /// A node stops splitting: it was given at most `MIN_TRIANGLES_PER_NODE`
    /// triangles, or its box is no larger than `MIN_SIZE` on every axis, or it
    /// lies at depth `MAX_DEPTH` or deeper.
    pub open spec fn stops(&self, i: int) -> bool {
        let b = self.arena.metadata@[i].bounding_box;
        let dims = vsub(b.hi(), b.lo());
        ||| self.assigned@[i].len() <= MIN_TRIANGLES_PER_NODE
        ||| (dims.0 <= MIN_SIZE && dims.1 <= MIN_SIZE && dims.2 <= MIN_SIZE)
        ||| self.depths@[i] >= MAX_DEPTH
    }

    /// Node `i` follows the subdivision rule: it is a leaf exactly when it
    /// stops, or when the arena had no room for eight more nodes.
    pub open spec fn ruled(&self, i: int) -> bool {
        &&& self.arena.metadata@[i].is_leaf <==> (self.stops(i) || self.full@[i])
        &&& self.full@[i] ==> self.arena.len() >= usize::MAX - 8
    }

    /// Every node follows the subdivision rule.
    pub open spec fn subdivided(&self) -> bool {
        forall|i: int| 0 <= i < self.arena.len() ==> #[trigger] self.ruled(i)
    }

    /// The root's box holds the bounding box of every triangle, and the root
    /// was given every triangle.
    pub open spec fn rooted(&self) -> bool {
        &&& self.assigned@.len() > 0
        &&& forall|t: int|
            0 <= t < self.triangles@.len() ==> le3(self.arena.metadata@[0].bounding_box.lo(), tri_min(#[trigger] self.triangles@[t]))
                && le3(tri_max(self.triangles@[t]), self.arena.metadata@[0].bounding_box.hi())
                && self.assigned@[0].contains(t as usize)
    }

    /// Node `j` is a child of node `p`.
    pub open spec fn child_of(&self, p: int, j: int) -> bool {
        !self.arena.metadata@[p].is_leaf && exists|k: int|
            0 <= k < 8 && #[trigger] self.arena.metadata@[p].children[k] == j
    }

    pub open spec fn node_hit(&self, ray: RayView, i: int) -> bool {
        let b = self.arena.metadata@[i].bounding_box;
        ray_meets_box(b.lo(), b.hi(), ray.0, ray.1)
    }

    /// The nodes marked after the traversal has looked at nodes `0..i` in
    /// order: the root, and every child of a looked-at node that was marked
    /// and whose box the ray meets. Children come after their parent, so a
    /// node is final once the traversal reaches it.
    pub open spec fn marks(&self, ray: RayView, i: nat) -> Seq<bool>
        decreases i,
    {
        if i == 0 {
            Seq::new(self.arena.len(), |j: int| j == 0)
        } else {
            let prev = self.marks(ray, (i - 1) as nat);
            let p = i - 1;
            if prev[p] && self.node_hit(ray, p) && !self.arena.metadata@[p].is_leaf {
                Seq::new(self.arena.len(), |j: int| prev[j] || self.child_of(p, j))
            } else {
                prev
            }
        }
    }

    /// The traversal reaches node `j`: it is marked and the ray meets its box.
    pub open spec fn visited(&self, ray: RayView, j: int) -> bool {
        &&& 0 <= j < self.arena.len()
        &&& self.marks(ray, j as nat)[j]
        &&& self.node_hit(ray, j)
    }

    /// A tree with only a root that holds every triangle; `build` splits it.
    pub fn new(triangles: Vec<Triangle>) -> (o: Octree)
        requires
            forall|i: int| 0 <= i < triangles@.len() ==> #[trigger] triangles@[i].wf(),
        ensures
            o.wf(),
            o.triangles@ == triangles@,
    {
        let mut arena = Arena::with_capacity(8);
        let ids = all_ids(triangles.len());
        let ghost given = ids@;
        let root = arena.new_node(ids);
        let b = AABB::from_triangles(&triangles);
        let mut m = arena.metadata[root];
        m.bounding_box = b;
        arena.metadata.set(root, m);
        let ghost start: Seq<Seq<usize>> = seq![given];
        let ghost d0: Seq<int> = seq![1int];
        let ghost f0: Seq<bool> = seq![false];
        let o = Octree { triangles, arena, root, assigned: Ghost(start), depths: Ghost(d0), full: Ghost(f0) };
        proof {
            assert(o.node_ok(0));
        }
        o
    }

    /// Rebuilds the whole tree from the triangles.
    pub fn rebuild(&mut self)
        requires
            forall|i: int| 0 <= i < old(self).triangles@.len() ==> #[trigger] old(self).triangles@[i].wf(),
        ensures
            final(self).wf(),
            final(self).built(),
            final(self).rooted(),
            final(self).subdivided(),
            final(self).triangles@ == old(self).triangles@,
    {
        self.arena.clear();
        let ids = all_ids(self.triangles.len());
        let ghost given = ids@;
        let root = self.arena.new_node(ids);
        self.root = root;
        let ghost start: Seq<Seq<usize>> = seq![given];
        self.assigned = Ghost(start);
        let ghost d0: Seq<int> = seq![1int];
        let ghost f0: Seq<bool> = seq![false];
        self.depths = Ghost(d0);
        self.full = Ghost(f0);
        let b = AABB::from_triangles(&self.triangles);
        let mut m = self.arena.metadata[root];
        m.bounding_box = b;
        self.arena.metadata.set(root, m);
        proof {
            assert(self.node_ok(0));
            assert(self.split_ok(0));
            assert forall|t: int| 0 <= t < self.triangles@.len() implies #[trigger] self.assigned@[0].contains(
                t as usize,
            ) by {
                assert(given[t] == t as usize);
            }
        }
        self.build(root, 1);
    }

    /// Splits node `node_id` into eight octants, recursively, until a node
    /// holds few triangles, is small enough, or lies deep enough. Each child
    /// receives every triangle of its parent whose bounding box overlaps the
    /// child's box, so a triangle may go to several children.
    #[verifier::rlimit(60)]
    pub fn build(&mut self, node_id: usize, depth: usize)
        requires
            old(self).wf(),
            old(self).built(),
            old(self).arena.metadata@[node_id as int].is_leaf,
            old(self).depths@[node_id as int] == depth,
            !old(self).full@[node_id as int],
            node_id < old(self).arena.len(),
            depth >= 1,
        ensures
            final(self).wf(),
            final(self).built(),
            forall|i: int| 0 <= i < old(self).arena.len() ==> #[trigger] final(self).assigned@[i] == old(self).assigned@[i],
            forall|i: int| 0 <= i < old(self).arena.len() ==> #[trigger] final(self).depths@[i] == old(self).depths@[i],
            forall|i: int|
                0 <= i < old(self).arena.len() && i != node_id ==> #[trigger] final(self).full@[i] == old(self).full@[i],
            final(self).ruled(node_id as int),
            forall|i: int| old(self).arena.len() <= i < final(self).arena.len() ==> #[trigger] final(self).ruled(i),
            final(self).triangles@ == old(self).triangles@,
            final(self).arena.len() >= old(self).arena.len(),
            forall|i: int|
                0 <= i < old(self).arena.len() && i != node_id ==> #[trigger] final(self).arena.metadata@[i]
                    == old(self).arena.metadata@[i] && final(self).arena.data@[i] == old(self).arena.data@[i],
            final(self).arena.metadata@[node_id as int].bounding_box == old(self).arena.metadata@[node_id as int].bounding_box,
            old(self).arena.data@[node_id as int]@.len() <= MIN_TRIANGLES_PER_NODE ==> final(self).arena.metadata@[node_id as int].is_leaf
                && final(self).arena.metadata@[node_id as int].is_empty == (old(self).arena.data@[node_id as int]@.len() == 0),
            depth >= MAX_DEPTH ==> final(self).arena.metadata@[node_id as int].is_leaf,
            ({
                let b = old(self).arena.metadata@[node_id as int].bounding_box;
                let dims = vsub(b.hi(), b.lo());
                (old(self).arena.data@[node_id as int]@.len() > MIN_TRIANGLES_PER_NODE && depth
                    < MAX_DEPTH && !(dims.0 <= MIN_SIZE && dims.1 <= MIN_SIZE && dims.2 <= MIN_SIZE)
                    && old(self).arena.len() < usize::MAX - 8) ==> !final(self).arena.metadata@[node_id as int].is_leaf
            }),
            final(self).arena.metadata@[node_id as int].is_leaf ==> final(self).arena.data@[node_id as int]
                == old(self).arena.data@[node_id as int],
            !final(self).arena.metadata@[node_id as int].is_leaf ==> ({
                let b = old(self).arena.metadata@[node_id as int].bounding_box;
                let c = crate::math::vadd(b.lo(), crate::math::div_vec(vsub(b.hi(), b.lo()), 2));
                &&& final(self).arena.data@[node_id as int]@.len() == 0
                &&& forall|k: int|
                    0 <= k < 8 ==> #[trigger] final(self).arena.metadata@[node_id as int].children[k]
                        == old(self).arena.len() + k
                &&& forall|k: int|
                    0 <= k < 8 ==> (#[trigger] final(self).arena.metadata@[old(self).arena.len() + k]).bounding_box.lo()
                        == octant_lo(b.lo(), c, b.hi(), k) && final(self).arena.metadata@[old(self).arena.len()
                        + k].bounding_box.hi() == octant_hi(b.lo(), c, b.hi(), k)
            }),
        decreases MAX_DEPTH - depth,
    {
        let m = self.arena.metadata[node_id];
        let count = self.arena.data[node_id].len();
        if count <= MIN_TRIANGLES_PER_NODE {
            let mut m2 = m;
            m2.is_leaf = true;
            m2.is_empty = count == 0;
            self.arena.metadata.set(node_id, m2);
            proof {
                assert(old(self).split_ok(node_id as int));
                assert(self.ruled(node_id as int));
                assert forall|i: int| 0 <= i < self.arena.len() implies #[trigger] self.node_ok(i) by {
                    assert(old(self).node_ok(i));
                }
                assert forall|i: int| 0 <= i < self.arena.len() implies #[trigger] self.split_ok(i) by {
                    assert(old(self).node_ok(i));
                    assert(old(self).split_ok(i));
                    if i != node_id {
                        lemma_split_kept(*old(self), *self, i);
                    }
                }
            }
            return ;
        }
        proof {
            assert(old(self).node_ok(node_id as int));
        }
        let bb = m.bounding_box;
        let dims = bb.dimensions();
        // the last condition is a machine limit: the arena cannot take eight
        // more nodes
        if (dims.x <= MIN_SIZE && dims.y <= MIN_SIZE && dims.z <= MIN_SIZE) || depth >= MAX_DEPTH
            || self.arena.metadata.len() >= usize::MAX - 8 {
            let out_of_room = self.arena.metadata.len() >= usize::MAX - 8;
            let mut m2 = m;
            m2.is_leaf = true;
            self.arena.metadata.set(node_id, m2);
            self.full = Ghost(self.full@.update(node_id as int, out_of_room));
            proof {
                assert(old(self).split_ok(node_id as int));
                assert(self.ruled(node_id as int));
                assert forall|i: int| 0 <= i < self.arena.len() implies #[trigger] self.node_ok(i) by {
                    assert(old(self).node_ok(i));
                }
                assert forall|i: int| 0 <= i < self.arena.len() implies #[trigger] self.split_ok(i) by {
                    assert(old(self).node_ok(i));
                    assert(old(self).split_ok(i));
                    if i != node_id {
                        lemma_split_kept(*old(self), *self, i);
                    }
                }
            }
            return ;
        }
        proof {
            assert(old(self).node_ok(node_id as int));
        }
        let octants = Octree::build_octants(&bb);
        let mut children: [usize; 8] = [0; 8];
        let mut k: usize = 0;
        let first = self.arena.metadata.len();
        while k < 8
            invariant
                0 <= k <= 8,
                self.triangles@ == old(self).triangles@,
                self.root == old(self).root,
                self.arena.wf(),
                self.arena.len() == first + k,
                first == old(self).arena.len(),
                first < usize::MAX - 8,
                node_id < first,
                octants@.len() == 8,
                forall|j: int| 0 <= j < 8 ==> (#[trigger] octants@[j]).wf(),
                forall|j: int|
                    0 <= j < 8 ==> le3((#[trigger] octants@[j]).lo(), octants@[j].hi()),
                forall|i: int| 0 <= i < self.triangles@.len() ==> #[trigger] self.triangles@[i].wf(),
                forall|j: int| 0 <= j < k ==> #[trigger] children[j] == first + j,
                forall|i: int| 0 <= i < first ==> #[trigger] self.node_ok(i),
                forall|i: int| 0 <= i < first ==> self.arena.metadata@[i] == old(self).arena.metadata@[i],
                forall|i: int| 0 <= i < first ==> self.arena.data@[i] == old(self).arena.data@[i],
                forall|i: int| first <= i < first + k ==> #[trigger] self.node_ok(i),
                forall|j: int|
                    0 <= j < k ==> (#[trigger] self.arena.metadata@[first + j]).bounding_box == octants@[j],
                self.arena.data@[node_id as int]@.len() > MIN_TRIANGLES_PER_NODE,
                self.assigned@.len() == self.arena.len(),
                forall|i: int| 0 <= i < first ==> #[trigger] self.assigned@[i] == old(self).assigned@[i],
                forall|i: int| 0 <= i < first + k ==> #[trigger] self.split_ok(i),
                forall|j: int|
                    0 <= j < k ==> #[trigger] self.assigned@[first + j] == old(self).assigned@[node_id as int].filter(
                        overlaps(old(self).triangles@, octants@[j]),
                    ),
                forall|j: int| 0 <= j < k ==> (#[trigger] self.arena.metadata@[first + j]).is_leaf,
                old(self).built(),
                old(self).arena.metadata@[node_id as int].is_leaf,
                self.depths@.len() == self.arena.len(),
                self.full@.len() == self.arena.len(),
                forall|i: int| 0 <= i < first ==> #[trigger] self.depths@[i] == old(self).depths@[i],
                forall|i: int| 0 <= i < first ==> #[trigger] self.full@[i] == old(self).full@[i],
                forall|j: int| 0 <= j < k ==> #[trigger] self.depths@[first + j] == depth + 1,
                forall|j: int| 0 <= j < k ==> !#[trigger] self.full@[first + j],
                old(self).depths@[node_id as int] == depth,
                !old(self).full@[node_id as int],
                depth < MAX_DEPTH,
            decreases 8 - k,
        {
            let ghost prev = *self;
            proof {
                assert(self.node_ok(node_id as int));
            }
            let ids = self.octant_members(node_id, &octants[k]);
            let ghost given = ids@;
            let id = self.arena.new_node(ids);
            let mut cm = self.arena.metadata[id];
            cm.bounding_box = octants[k];
            self.arena.metadata.set(id, cm);
            children[k] = id;
            self.assigned = Ghost(self.assigned@.push(given));
            self.depths = Ghost(self.depths@.push(depth + 1));
            self.full = Ghost(self.full@.push(false));
            proof {
                assert(old(self).split_ok(node_id as int));
                assert(prev.arena.data@[node_id as int] == old(self).arena.data@[node_id as int]);
                assert forall|i: int| 0 <= i < first + k implies #[trigger] self.split_ok(i) by {
                    assert(prev.node_ok(i));
                    assert(prev.split_ok(i));
                    lemma_split_kept(prev, *self, i);
                }
                assert(self.split_ok(first + k));
                assert forall|i: int| 0 <= i < first + k implies #[trigger] self.node_ok(i) by {
                    assert(prev.node_ok(i));
                    assert(self.arena.metadata@[i] == prev.arena.metadata@[i]);
                    assert(self.arena.data@[i] == prev.arena.data@[i]);
                }
                assert(self.node_ok(first + k));
            }
            k = k + 1;
        }
        let ghost mid = *self;
        let ghost old_box = bb;
        let mut pm = self.arena.metadata[node_id];
        pm.children = children;
        pm.is_leaf = false;
        self.arena.metadata.set(node_id, pm);
        self.arena.data.set(node_id, Vec::new());
        proof {
            assert forall|i: int| 0 <= i < self.arena.len() implies #[trigger] self.node_ok(i) by {
                if i != node_id {
                    assert(mid.node_ok(i));
                    assert(self.arena.metadata@[i] == mid.arena.metadata@[i]);
                    assert(self.arena.data@[i] == mid.arena.data@[i]);
                } else {
                    assert forall|q: int| 0 <= q < 8 implies node_id < #[trigger] self.arena.metadata@[i].children[q] < self.arena.len() by {
                        assert(children[q] == first + q);
                    }
                }
            }
            assert(old(self).split_ok(node_id as int));
            assert(self.assigned@[node_id as int] == old(self).assigned@[node_id as int]);
            assert(old(self).arena.data@[node_id as int]@ == old(self).assigned@[node_id as int]);
            assert(self.depths@[node_id as int] == depth);
            assert(!self.full@[node_id as int]);
            assert(self.arena.metadata@[node_id as int].bounding_box == bb);
            assert(self.ruled(node_id as int));
            let ctr = crate::math::vadd(bb.lo(), crate::math::div_vec(vsub(bb.hi(), bb.lo()), 2));
            assert forall|i: int| 0 <= i < self.arena.len() implies #[trigger] self.split_ok(i) by {
                if i != node_id {
                    assert(mid.node_ok(i));
                    assert(mid.split_ok(i));
                    lemma_split_kept(mid, *self, i);
                } else {
                    assert forall|q: int| 0 <= q < 8 implies #[trigger] self.child_ok(i, q) by {
                        assert(children[q] == first + q);
                        assert(self.arena.metadata@[first + q].bounding_box == octants@[q]);
                        assert(self.assigned@[i] == old(self).assigned@[i]);
                        assert(old(self).split_ok(i));
                        assert(old(self).arena.data@[i]@ == old(self).assigned@[i]);
                    }
                }
            }
        }
        let mut c: usize = 0;
        while c < 8
            invariant
                0 <= c <= 8,
                self.wf(),
                self.triangles@ == old(self).triangles@,
                self.arena.len() >= first + 8,
                first == old(self).arena.len(),
                forall|j: int| 0 <= j < 8 ==> #[trigger] children[j] == first + j,
                depth < MAX_DEPTH,
                node_id < first,
                forall|i: int|
                    0 <= i < first && i != node_id ==> #[trigger] self.arena.metadata@[i]
                        == old(self).arena.metadata@[i] && self.arena.data@[i] == old(self).arena.data@[i],
                self.arena.metadata@[node_id as int].bounding_box == old(self).arena.metadata@[node_id as int].bounding_box,
                !self.arena.metadata@[node_id as int].is_leaf,
                self.arena.metadata@[node_id as int].children == children,
                self.arena.data@[node_id as int]@.len() == 0,
                forall|j: int|
                    0 <= j < 8 ==> (#[trigger] self.arena.metadata@[first + j]).bounding_box == octants@[j],
                self.built(),
                forall|i: int| 0 <= i < first ==> #[trigger] self.assigned@[i] == old(self).assigned@[i],
                forall|j: int| c <= j < 8 ==> (#[trigger] self.arena.metadata@[first + j]).is_leaf,
                forall|i: int| 0 <= i < first ==> #[trigger] self.depths@[i] == old(self).depths@[i],
                forall|i: int|
                    0 <= i < first && i != node_id ==> #[trigger] self.full@[i] == old(self).full@[i],
                forall|j: int| 0 <= j < 8 ==> #[trigger] self.depths@[first + j] == depth + 1,
                forall|j: int| c <= j < 8 ==> !#[trigger] self.full@[first + j],
                self.ruled(node_id as int),
                forall|i: int|
                    (first <= i < first + c || first + 8 <= i < self.arena.len()) ==> #[trigger] self.ruled(i),
            decreases 8 - c,
        {
            let ghost before = *self;
            let child = children[c];
            self.build(child, depth + 1);
            proof {
                assert forall|i: int|
                    0 <= i < first && i != node_id implies #[trigger] self.arena.metadata@[i]
                        == old(self).arena.metadata@[i] && self.arena.data@[i] == old(
                        self,
                    ).arena.data@[i] by {
                    assert(i != child);
                    assert(before.arena.metadata@[i] == old(self).arena.metadata@[i]);
                    assert(before.arena.data@[i] == old(self).arena.data@[i]);
                    assert(self.arena.metadata@[i] == before.arena.metadata@[i]);
                    assert(self.arena.data@[i] == before.arena.data@[i]);
                }
                assert(node_id != child);
                assert(self.arena.metadata@[node_id as int] == before.arena.metadata@[node_id as int]);
                assert(self.arena.data@[node_id as int] == before.arena.data@[node_id as int]);
                assert forall|j: int| 0 <= j < 8 implies (#[trigger] self.arena.metadata@[first
                    + j]).bounding_box == octants@[j] by {
                    assert(before.arena.metadata@[first + j].bounding_box == octants@[j]);
                    if first + j != child {
                        assert(self.arena.metadata@[first + j] == before.arena.metadata@[first + j]);
                    }
                }
                assert forall|i: int| 0 <= i < first implies #[trigger] self.assigned@[i]
                    == old(self).assigned@[i] by {
                    assert(before.assigned@[i] == old(self).assigned@[i]);
                }
                assert forall|j: int| c + 1 <= j < 8 implies (#[trigger] self.arena.metadata@[first
                    + j]).is_leaf by {
                    assert(first + j != child);
                    assert(self.arena.metadata@[first + j] == before.arena.metadata@[first + j]);
                }
                assert forall|i: int| 0 <= i < first implies #[trigger] self.depths@[i] == old(self).depths@[i] by {
                    assert(before.depths@[i] == old(self).depths@[i]);
                }
                assert forall|i: int|
                    0 <= i < first && i != node_id implies #[trigger] self.full@[i] == old(self).full@[i] by {
                    assert(before.full@[i] == old(self).full@[i]);
                    assert(i != child);
                }
                assert forall|j: int| 0 <= j < 8 implies #[trigger] self.depths@[first + j] == depth + 1 by {
                    assert(before.depths@[first + j] == depth + 1);
                }
                assert forall|j: int| c + 1 <= j < 8 implies !#[trigger] self.full@[first + j] by {
                    assert(!before.full@[first + j]);
                    assert(first + j != child);
                }
                assert(self.full@[node_id as int] == before.full@[node_id as int]);
                assert(self.assigned@[node_id as int] == before.assigned@[node_id as int]);
                assert(self.depths@[node_id as int] == before.depths@[node_id as int]);
                assert(self.ruled(node_id as int));
                assert forall|i: int|
                    (first <= i < first + c + 1 || first + 8 <= i < self.arena.len()) implies #[trigger] self.ruled(i) by {
                    if i < before.arena.len() && i != child {
                        assert(before.ruled(i));
                        assert(self.arena.metadata@[i] == before.arena.metadata@[i]);
                        assert(self.assigned@[i] == before.assigned@[i]);
                        assert(self.depths@[i] == before.depths@[i]);
                        assert(self.full@[i] == before.full@[i]);
                    }
                }
            }
            proof {
                assert(forall|i: int|
                    0 <= i < first && i != node_id ==> #[trigger] self.arena.metadata@[i]
                        == old(self).arena.metadata@[i] && self.arena.data@[i] == old(self).arena.data@[i]);
            }
            c = c + 1;
        }
    }

    /// The ids of the triangles of node `node_id` whose bounding boxes
    /// overlap `b`, in the node's order.
    fn octant_members(&self, node_id: usize, b: &AABB) -> (ids: Vec<usize>)
        requires
            node_id < self.arena.len(),
            self.arena.wf(),
            forall|i: int| 0 <= i < self.triangles@.len() ==> #[trigger] self.triangles@[i].wf(),
            forall|j: int|
                0 <= j < self.arena.data@[node_id as int]@.len() ==> #[trigger] self.arena.data@[node_id as int]@[j]
                    < self.triangles@.len(),
        ensures
            ids@ == self.arena.data@[node_id as int]@.filter(overlaps(self.triangles@, *b)),
            forall|j: int| 0 <= j < ids@.len() ==> #[trigger] ids@[j] < self.triangles@.len(),
    {
        let data = &self.arena.data[node_id];
        let ghost f = overlaps(self.triangles@, *b);
        let mut ids: Vec<usize> = Vec::new();
        let mut i: usize = 0;
        while i < data.len()
            invariant
                0 <= i <= data@.len(),
                data@ == self.arena.data@[node_id as int]@,
                forall|j: int| 0 <= j < data@.len() ==> #[trigger] data@[j] < self.triangles@.len(),
                forall|i: int| 0 <= i < self.triangles@.len() ==> #[trigger] self.triangles@[i].wf(),
                f == overlaps(self.triangles@, *b),
                ids@ == data@.subrange(0, i as int).filter(f),
                forall|j: int| 0 <= j < ids@.len() ==> #[trigger] ids@[j] < self.triangles@.len(),
            decreases data@.len() - i,
        {
            let t = data[i];
            let ov = b.intersects_triangle_aabb(&self.triangles[t]);
            proof {
                reveal(Seq::filter);
                let sub = data@.subrange(0, i + 1);
                assert(sub.drop_last() == data@.subrange(0, i as int));
                assert(sub.last() == t);
                assert(ov == boxes_overlap(
                    b.lo(),
                    b.hi(),
                    tri_min(self.triangles@[t as int]),
                    tri_max(self.triangles@[t as int]),
                ));
                assert(f(t) == ov);
            }
            if ov {
                ids.push(t);
            }
            i = i + 1;
        }
        proof {
            assert(data@.subrange(0, data@.len() as int) == data@);
        }
        ids
    }

    /// The eight octants of `b`, split at its center.
    pub fn build_octants(b: &AABB) -> (r: Vec<AABB>)
        requires
            b.wf(),
            le3(b.lo(), b.hi()),
        ensures
            r@.len() == 8,
            ({
                let c = crate::math::vadd(b.lo(), crate::math::div_vec(vsub(b.hi(), b.lo()), 2));
                forall|k: int|
                    0 <= k < 8 ==> (#[trigger] r@[k]).lo() == octant_lo(b.lo(), c, b.hi(), k)
                        && r@[k].hi() == octant_hi(b.lo(), c, b.hi(), k)
            }),
            forall|k: int| 0 <= k < 8 ==> (#[trigger] r@[k]).wf(),
            forall|k: int| 0 <= k < 8 ==> le3((#[trigger] r@[k]).lo(), r@[k].hi()),
    {
        let center = b.center();
        let min = b.min();
        let max = b.max();
        let mut r: Vec<AABB> = Vec::with_capacity(8);
        // low x
        r.push(AABB::new(min, center));
        r.push(
            AABB::new(Point3::new(min.x, min.y, center.z), Point3::new(center.x, center.y, max.z)),
        );
        r.push(
            AABB::new(Point3::new(min.x, center.y, min.z), Point3::new(center.x, max.y, center.z)),
        );
        r.push(
            AABB::new(Point3::new(min.x, center.y, center.z), Point3::new(center.x, max.y, max.z)),
        );
        // high x
        r.push(AABB::new(center, max));
        r.push(
            AABB::new(Point3::new(center.x, center.y, min.z), Point3::new(max.x, max.y, center.z)),
        );
        r.push(
            AABB::new(Point3::new(center.x, min.y, center.z), Point3::new(max.x, center.y, max.z)),
        );
        r.push(
            AABB::new(Point3::new(center.x, min.y, min.z), Point3::new(max.x, center.y, center.z)),
        );
        r
    }

    /// The ids of every triangle held by a node that the traversal reaches,
    /// each once: the candidates for an exact test against the ray.
    pub fn intersect(&self, ray: &Ray) -> (ids: Vec<usize>)
        requires
            self.wf(),
            ray.wf(),
        ensures
            ids@.no_duplicates(),
            forall|j: int| 0 <= j < ids@.len() ==> #[trigger] ids@[j] < self.triangles@.len(),
            forall|t: usize|
                ids@.contains(t) <==> exists|p: int|
                    0 <= p < self.arena.len() && #[trigger] self.visited(ray@, p)
                        && self.arena.data@[p]@.contains(t),
    {
        let n = self.arena.metadata.len();
        let nt = self.triangles.len();
        let mut reach: Vec<bool> = Vec::new();
        let mut i: usize = 0;
        while i < n
            invariant
                0 <= i <= n,
                reach@.len() == i,
                forall|j: int| 0 <= j < i ==> #[trigger] reach@[j] == (j == 0),
            decreases n - i,
        {
            reach.push(i == 0);
            i = i + 1;
        }
        let mut seen: Vec<bool> = Vec::new();
        i = 0;
        while i < nt
            invariant
                0 <= i <= nt,
                seen@.len() == i,
                forall|j: int| 0 <= j < i ==> !(#[trigger] seen@[j]),
            decreases nt - i,
        {
            seen.push(false);
            i = i + 1;
        }
        let mut ids: Vec<usize> = Vec::new();
        proof {
            assert(reach@ =~= self.marks(ray@, 0));
        }
        i = 0;
        while i < n
            invariant
                self.wf(),
                ray.wf(),
                n == self.arena.len(),
                nt == self.triangles@.len(),
                0 <= i <= n,
                reach@ == self.marks(ray@, i as nat),
                seen@.len() == nt,
                forall|t: int| 0 <= t < nt ==> (#[trigger] seen@[t] <==> ids@.contains(t as usize)),
                ids@.no_duplicates(),
                forall|j: int| 0 <= j < ids@.len() ==> #[trigger] ids@[j] < nt,
                forall|t: usize|
                    ids@.contains(t) <==> exists|p: int|
                        0 <= p < i && #[trigger] self.visited(ray@, p) && self.arena.data@[p]@.contains(t),
            decreases n - i,
        {
            proof {
                assert(self.node_ok(i as int));
                lemma_marks_len(*self, ray@, i as nat);
                lemma_marks_stable(*self, ray@, i as nat);
            }
            let m = self.arena.metadata[i];
            let ri = reach[i];
            let hit = ri && m.bounding_box.intersect(ray);
            let ghost prev = reach@;
            proof {
                assert(hit == self.visited(ray@, i as int));
            }
            if hit && !m.is_leaf {
                let mut k: usize = 0;
                while k < 8
                    invariant
                        self.wf(),
                        n == self.arena.len(),
                        0 <= k <= 8,
                        0 <= i < n,
                        prev.len() == n,
                        m == self.arena.metadata@[i as int],
                        !m.is_leaf,
                        reach@ =~= Seq::new(
                            n as nat,
                            |j: int| prev[j] || exists|q: int| 0 <= q < k && #[trigger] m.children[q] == j,
                        ),
                    decreases 8 - k,
                {
                    proof {
                        assert(self.node_ok(i as int));
                    }
                    let c = m.children[k];
                    reach.set(c, true);
                    proof {
                        assert forall|j: int| 0 <= j < n implies reach@[j] == (prev[j] || exists|q: int|
                            0 <= q < k + 1 && #[trigger] m.children[q] == j) by {
                            if j == c {
                                assert(m.children[k as int] == j);
                            }
                        }
                    }
                    k = k + 1;
                }
                proof {
                    assert(reach@ =~= self.marks(ray@, (i + 1) as nat));
                }
            } else {
                proof {
                    assert(reach@ =~= self.marks(ray@, (i + 1) as nat));
                }
            }
            if hit {
                let data = &self.arena.data[i];
                let mut j: usize = 0;
                while j < data.len()
                    invariant
                        self.wf(),
                        nt == self.triangles@.len(),
                        0 <= i < n,
                        n == self.arena.len(),
                        data@ == self.arena.data@[i as int]@,
                        0 <= j <= data@.len(),
                        seen@.len() == nt,
                        forall|t: int| 0 <= t < nt ==> (#[trigger] seen@[t] <==> ids@.contains(t as usize)),
                        ids@.no_duplicates(),
                        forall|q: int| 0 <= q < ids@.len() ==> #[trigger] ids@[q] < nt,
                        self.visited(ray@, i as int),
                        forall|t: usize|
                            ids@.contains(t) <==> ((exists|p: int|
                                0 <= p < i && #[trigger] self.visited(ray@, p)
                                    && self.arena.data@[p]@.contains(t)) || data@.subrange(0, j as int).contains(t)),
                    decreases data@.len() - j,
                {
                    proof {
                        assert(self.node_ok(i as int));
                    }
                    let t = data[j];
                    let ghost before = ids@;
                    if !seen[t] {
                        seen.set(t, true);
                        ids.push(t);
                        proof {
                            lemma_push_fresh(before, t);
                        }
                    }
                    proof {
                        assert(data@.subrange(0, j + 1) == data@.subrange(0, j as int).push(t));
                        lemma_push_contains(data@.subrange(0, j as int), t);
                        lemma_push_contains(before, t);
                    }
                    j = j + 1;
                }
                proof {
                    assert(data@.subrange(0, data@.len() as int) == data@);
                }
            }
            proof {
                assert forall|t: usize|
                    ids@.contains(t) <==> exists|p: int|
                        0 <= p < i + 1 && #[trigger] self.visited(ray@, p)
                            && self.arena.data@[p]@.contains(t) by {
                    if ids@.contains(t) && !hit {
                        let p = choose|p: int|
                            0 <= p < i && #[trigger] self.visited(ray@, p)
                                && self.arena.data@[p]@.contains(t);
                    }
                }
            }
            i = i + 1;
        }
        ids
    }
}

/// `split_ok` of node `i` survives a change that keeps the node, the
/// triangles, what existing nodes were given, and every existing box.
proof fn lemma_split_kept(a: Octree, b: Octree, i: int)
    requires
        0 <= i < a.arena.len(),
        a.arena.wf(),
        a.node_ok(i),
        a.split_ok(i),
        a.assigned@.len() == a.arena.len(),
        b.assigned@.len() >= a.assigned@.len(),
        b.arena.len() >= a.arena.len(),
        b.triangles@ == a.triangles@,
        b.arena.metadata@[i] == a.arena.metadata@[i],
        b.arena.data@[i] == a.arena.data@[i],
        forall|j: int| 0 <= j < a.arena.len() ==> #[trigger] b.assigned@[j] == a.assigned@[j],
        forall|j: int| 0 <= j < a.arena.len() ==> #[trigger] b.depths@[j] == a.depths@[j],
        forall|j: int|
            0 <= j < a.arena.len() ==> (#[trigger] b.arena.metadata@[j]).bounding_box
                == a.arena.metadata@[j].bounding_box,
    ensures
        b.split_ok(i),
{
    if !a.arena.metadata@[i].is_leaf {
        assert forall|k: int| 0 <= k < 8 implies #[trigger] b.child_ok(i, k) by {
            assert(a.child_ok(i, k));
            let c = a.arena.metadata@[i].children[k] as int;
            assert(b.arena.metadata@[c].bounding_box == a.arena.metadata@[c].bounding_box);
            assert(b.assigned@[c] == a.assigned@[c]);
            assert(b.assigned@[i] == a.assigned@[i]);
            assert(b.depths@[c] == a.depths@[c]);
            assert(b.depths@[i] == a.depths@[i]);
        }
    } else {
        assert(b.assigned@[i] == a.assigned@[i]);
    }
}

proof fn lemma_marks_len(o: Octree, ray: RayView, i: nat)
    ensures
        o.marks(ray, i).len() == o.arena.len(),
    decreases i,
{
    if i > 0 {
        lemma_marks_len(o, ray, (i - 1) as nat);
    }
}

/// Looking at node `p` marks only nodes after it, so mark `i` is final once
/// the traversal reaches node `i`.
proof fn lemma_marks_stable(o: Octree, ray: RayView, i: nat)
    requires
        o.wf(),
        i < o.arena.len(),
    ensures
        forall|k: nat| i <= k <= o.arena.len() ==> #[trigger] o.marks(ray, k)[i as int] == o.marks(ray, i)[i as int],
{
    assert forall|k: nat| i <= k <= o.arena.len() implies #[trigger] o.marks(ray, k)[i as int] == o.marks(ray, i)[i as int] by {
        lemma_marks_stable_upto(o, ray, i, k);
    }
}

proof fn lemma_marks_stable_upto(o: Octree, ray: RayView, i: nat, k: nat)
    requires
        o.wf(),
        i < o.arena.len(),
        i <= k <= o.arena.len(),
    ensures
        o.marks(ray, k)[i as int] == o.marks(ray, i)[i as int],
    decreases k,
{
    if k > i {
        lemma_marks_stable_upto(o, ray, i, (k - 1) as nat);
        lemma_marks_len(o, ray, (k - 1) as nat);
        let p = k - 1;
        assert(o.node_ok(p as int));
        if o.child_of(p as int, i as int) {
            let q = choose|q: int| 0 <= q < 8 && #[trigger] o.arena.metadata@[p as int].children[q] == i;
        }
    }
}

proof fn lemma_push_contains(s: Seq<usize>, t: usize)
    ensures
        forall|x: usize| #[trigger] s.push(t).contains(x) <==> (s.contains(x) || x == t),
{
    assert forall|x: usize| #[trigger] s.push(t).contains(x) <==> (s.contains(x) || x == t) by {
        if s.push(t).contains(x) && x != t {
            let q = choose|q: int| 0 <= q < s.push(t).len() && s.push(t)[q] == x;
            assert(s[q] == x);
        }
        if s.contains(x) {
            let q = choose|q: int| 0 <= q < s.len() && s[q] == x;
            assert(s.push(t)[q] == x);
        }
        if x == t {
            assert(s.push(t)[s.len() as int] == x);
        }
    }
}

proof fn lemma_push_fresh(s: Seq<usize>, t: usize)
    requires
        s.no_duplicates(),
        !s.contains(t),
    ensures
        s.push(t).no_duplicates(),
{
    let u = s.push(t);
    assert forall|a: int, b: int| 0 <= a < u.len() && 0 <= b < u.len() && a != b implies u[a]
        != u[b] by {
        if a == s.len() {
            assert(s[b] == u[b]);
        } else if b == s.len() {
            assert(s[a] == u[a]);
        }
    }
}

/// The ids `0..n`.
fn all_ids(n: usize) -> (ids: Vec<usize>)
    ensures
        ids@.len() == n,
        forall|j: int| 0 <= j < n ==> #[trigger] ids@[j] == j,
{
    let mut ids: Vec<usize> = Vec::new();
    let mut i: usize = 0;
    while i < n
        invariant
            0 <= i <= n,
            ids@.len() == i,
            forall|j: int| 0 <= j < i ==> #[trigger] ids@[j] == j,
        decreases n - i,
    {
        ids.push(i);
        i = i + 1;
    }
    ids
}

} // verus!

verus! {

/// `marks` only ever adds marks.
proof fn lemma_marks_monotone(o: Octree, ray: RayView, j: int, a: nat, b: nat)
    requires
        a <= b,
        0 <= j < o.arena.len(),
        o.marks(ray, a)[j],
    ensures
        o.marks(ray, b)[j],
    decreases b - a,
{
    if a < b {
        lemma_marks_monotone(o, ray, j, a, (b - 1) as nat);
        lemma_marks_len(o, ray, (b - 1) as nat);
    }
}

/// A child of a reached, split node whose box the ray meets is reached.
proof fn lemma_visit_child(o: Octree, ray: RayView, p: int, k: int)
    requires
        o.wf(),
        0 <= p < o.arena.len(),
        0 <= k < 8,
        o.visited(ray, p),
        !o.arena.metadata@[p].is_leaf,
        o.node_hit(ray, o.arena.metadata@[p].children[k] as int),
    ensures
        o.visited(ray, o.arena.metadata@[p].children[k] as int),
{
    assert(o.node_ok(p));
    let c = o.arena.metadata@[p].children[k] as int;
    assert(p < c < o.arena.len());
    lemma_marks_len(o, ray, p as nat);
    assert(o.child_of(p, c));
    assert(o.marks(ray, (p + 1) as nat)[c]);
    lemma_marks_monotone(o, ray, c, (p + 1) as nat, c as nat);
}

/// A point inside a box lies in one of the box's eight octants.
proof fn lemma_octant_cover(
    lo: (int, int, int),
    hi: (int, int, int),
    ctr: (int, int, int),
    o: (int, int, int),
    d: (int, int, int),
    num: int,
    den: int,
)
    requires
        crate::aabb::point_at_in_box(lo, hi, o, d, num, den),
    ensures
        exists|k: int|
            0 <= k < 8 && #[trigger] crate::aabb::point_at_in_box(
                octant_lo(lo, ctr, hi, k),
                octant_hi(lo, ctr, hi, k),
                o,
                d,
                num,
                den,
            ),
{
    let hx = ctr.0 * den <= o.0 * den + num * d.0;
    let hy = ctr.1 * den <= o.1 * den + num * d.1;
    let hz = ctr.2 * den <= o.2 * den + num * d.2;
    let k: int = if !hx && !hy && !hz {
        0
    } else if !hx && !hy && hz {
        1
    } else if !hx && hy && !hz {
        2
    } else if !hx && hy && hz {
        3
    } else if hx && hy && hz {
        4
    } else if hx && hy && !hz {
        5
    } else if hx && !hy && hz {
        6
    } else {
        7
    };
    assert(octant_high(k) == (hx, hy, hz));
    assert(crate::aabb::point_at_in_box(
        octant_lo(lo, ctr, hi, k),
        octant_hi(lo, ctr, hi, k),
        o,
        d,
        num,
        den,
    ));
}

proof fn lemma_scaled_le(a: int, b: int, den: int)
    requires
        den > 0,
    ensures
        a <= b <==> a * den <= b * den,
{
    assert(a <= b <==> a * den <= b * den) by (nonlinear_arith)
        requires
            den > 0,
    ;
}

/// A point in two boxes makes them overlap.
proof fn lemma_shared_point_overlap(
    alo: (int, int, int),
    ahi: (int, int, int),
    blo: (int, int, int),
    bhi: (int, int, int),
    o: (int, int, int),
    d: (int, int, int),
    num: int,
    den: int,
)
    requires
        den > 0,
        crate::aabb::point_at_in_box(alo, ahi, o, d, num, den),
        crate::aabb::point_at_in_box(blo, bhi, o, d, num, den),
    ensures
        boxes_overlap(alo, ahi, blo, bhi),
{
    lemma_scaled_le(alo.0, bhi.0, den);
    lemma_scaled_le(blo.0, ahi.0, den);
    lemma_scaled_le(alo.1, bhi.1, den);
    lemma_scaled_le(blo.1, ahi.1, den);
    lemma_scaled_le(alo.2, bhi.2, den);
    lemma_scaled_le(blo.2, ahi.2, den);
}

/// Triangle `t` of the tree is held by a node that the traversal reaches.
pub open spec fn reached(o: Octree, ray: RayView, t: usize) -> bool {
    exists|p: int| 0 <= p < o.arena.len() && #[trigger] o.visited(ray, p) && o.arena.data@[p]@.contains(t)
}

/// From a reached node that was given triangle `t` and whose box holds a
/// point of the ray ahead of its origin that also lies in the triangle's
/// bounding box, the traversal reaches a node holding `t`.
proof fn lemma_reach(o: Octree, ray: RayView, p: int, t: usize, num: int, den: int)
    requires
        o.wf(),
        o.built(),
        0 <= p < o.arena.len(),
        (t as int) < o.triangles@.len(),
        num > 0,
        den > 0,
        o.visited(ray, p),
        o.assigned@[p].contains(t),
        crate::aabb::point_at_in_box(
            o.arena.metadata@[p].bounding_box.lo(),
            o.arena.metadata@[p].bounding_box.hi(),
            ray.0,
            ray.1,
            num,
            den,
        ),
        crate::aabb::point_at_in_box(
            tri_min(o.triangles@[t as int]),
            tri_max(o.triangles@[t as int]),
            ray.0,
            ray.1,
            num,
            den,
        ),
    ensures
        reached(o, ray, t),
    decreases o.arena.len() - p,
{
    assert(o.split_ok(p));
    assert(o.node_ok(p));
    let m = o.arena.metadata@[p];
    if m.is_leaf {
        assert(o.arena.data@[p]@.contains(t));
    } else {
        let b = m.bounding_box;
        let ctr = crate::math::vadd(b.lo(), crate::math::div_vec(vsub(b.hi(), b.lo()), 2));
        lemma_octant_cover(b.lo(), b.hi(), ctr, ray.0, ray.1, num, den);
        let k = choose|k: int|
            0 <= k < 8 && #[trigger] crate::aabb::point_at_in_box(
                octant_lo(b.lo(), ctr, b.hi(), k),
                octant_hi(b.lo(), ctr, b.hi(), k),
                ray.0,
                ray.1,
                num,
                den,
            );
        assert(o.child_ok(p, k));
        let c = m.children[k] as int;
        assert(p < c < o.arena.len());
        let cb = o.arena.metadata@[c].bounding_box;
        let tri = o.triangles@[t as int];
        lemma_shared_point_overlap(
            cb.lo(),
            cb.hi(),
            tri_min(tri),
            tri_max(tri),
            ray.0,
            ray.1,
            num,
            den,
        );
        let given = o.assigned@[p];
        let f = overlaps(o.triangles@, cb);
        assert(f(t));
        let i = choose|i: int| 0 <= i < given.len() && given[i] == t;
        given.lemma_filter_contains(f, i);
        assert(o.assigned@[c].contains(t));
        assert(o.node_hit(ray, c));
        lemma_visit_child(o, ray, p, k);
        lemma_reach(o, ray, c, t, num, den);
    }
}

/// The tree misses no hit: every triangle that the ray hits is held by a
/// node that the traversal reaches.
pub proof fn lemma_octree_finds_every_hit(o: Octree, ray: RayView, cull: bool, t: usize)
    requires
        o.wf(),
        o.built(),
        o.rooted(),
        (t as int) < o.triangles@.len(),
        crate::triangle::mt_hit(o.triangles@[t as int], ray.0, ray.1, cull),
    ensures
        reached(o, ray, t),
{
    let tri = o.triangles@[t as int];
    assert(tri.wf());
    crate::triangle::lemma_hit_in_bounding_box(tri, ray.0, ray.1, cull);
    let (num, den) = choose|num: int, den: int|
        num > 0 && den > 0 && #[trigger] crate::aabb::point_at_in_box(
            tri_min(tri),
            tri_max(tri),
            ray.0,
            ray.1,
            num,
            den,
        );
    let rb = o.arena.metadata@[0].bounding_box;
    assert(le3(rb.lo(), tri_min(tri)) && le3(tri_max(tri), rb.hi()));
    let (lo, hi, tl, th) = (rb.lo(), rb.hi(), tri_min(tri), tri_max(tri));
    lemma_scaled_le(lo.0, tl.0, den);
    lemma_scaled_le(lo.1, tl.1, den);
    lemma_scaled_le(lo.2, tl.2, den);
    lemma_scaled_le(th.0, hi.0, den);
    lemma_scaled_le(th.1, hi.1, den);
    lemma_scaled_le(th.2, hi.2, den);
    assert(crate::aabb::point_at_in_box(lo, hi, ray.0, ray.1, num, den));
    assert(o.node_hit(ray, 0));
    assert(o.marks(ray, 0)[0]);
    assert(o.visited(ray, 0));
    lemma_reach(o, ray, 0, t, num, den);
}

} // verus!

verus! {

/// A triangle given to a split node goes to at least one of its children
/// when its bounding box overlaps the node's box: no triangle is lost by a
/// split.
pub proof fn lemma_no_triangle_lost(o: Octree, i: int, t: usize)
    requires
        o.wf(),
        o.built(),
        0 <= i < o.arena.len(),
        !o.arena.metadata@[i].is_leaf,
        o.assigned@[i].contains(t),
        (t as int) < o.triangles@.len(),
        boxes_overlap(
            o.arena.metadata@[i].bounding_box.lo(),
            o.arena.metadata@[i].bounding_box.hi(),
            tri_min(o.triangles@[t as int]),
            tri_max(o.triangles@[t as int]),
        ),
    ensures
        exists|k: int| 0 <= k < 8 && o.assigned@[o.arena.metadata@[i].children[k] as int].contains(t),
{
    let b = o.arena.metadata@[i].bounding_box;
    let (lo, hi) = (b.lo(), b.hi());
    let tri = o.triangles@[t as int];
    let (tl, th) = (tri_min(tri), tri_max(tri));
    let ctr = crate::math::vadd(lo, crate::math::div_vec(vsub(hi, lo), 2));
    // a point shared by the two boxes
    let p = (
        if lo.0 >= tl.0 { lo.0 } else { tl.0 },
        if lo.1 >= tl.1 { lo.1 } else { tl.1 },
        if lo.2 >= tl.2 { lo.2 } else { tl.2 },
    );
    let hx = ctr.0 <= p.0;
    let hy = ctr.1 <= p.1;
    let hz = ctr.2 <= p.2;
    let k: int = if !hx && !hy && !hz {
        0
    } else if !hx && !hy && hz {
        1
    } else if !hx && hy && !hz {
        2
    } else if !hx && hy && hz {
        3
    } else if hx && hy && hz {
        4
    } else if hx && hy && !hz {
        5
    } else if hx && !hy && hz {
        6
    } else {
        7
    };
    assert(octant_high(k) == (hx, hy, hz));
    assert(o.split_ok(i));
    assert(o.child_ok(i, k));
    let c = o.arena.metadata@[i].children[k] as int;
    let cb = o.arena.metadata@[c].bounding_box;
    assert(cb.lo() == octant_lo(lo, ctr, hi, k));
    assert(cb.hi() == octant_hi(lo, ctr, hi, k));
    assert(boxes_overlap(cb.lo(), cb.hi(), tl, th));
    let f = overlaps(o.triangles@, cb);
    assert(f(t));
    let given = o.assigned@[i];
    let j = choose|j: int| 0 <= j < given.len() && given[j] == t;
    given.lemma_filter_contains(f, j);
    assert(o.assigned@[c].contains(t));
}

} // verus!
