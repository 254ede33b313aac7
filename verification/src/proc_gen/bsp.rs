use vstd::prelude::*;

use crate::world::coordinate_system::Point;
use crate::world::worldspace::{WORLD_HEIGHT, WORLD_WIDTH};

verus! {

pub type NodeId = usize;

/// Size of the grid with which distances are calculated; here 1:1.
pub const GRID_SIZE: usize = 1;

/// Minimum dimensions a node must have to be divided (walls included).
pub const MIN_NODE_DIM: usize = 13;

/// Minimum distance of the generated rooms to the edge of the map.
pub const PADDING: usize = 2;

/// Number of rooms to be generated.
pub const ROOM_NUMBER: usize = 10;

/// A rectangular area of the map in the binary space partition tree.
#[derive(Clone, Copy, Debug, PartialEq, Eq, Structural)]
pub struct MapBSPNode {
    /// Top left corner.
    pub point_a: Point,
    /// Bottom right corner.
    pub point_b: Point,
    pub left: Option<NodeId>,
    pub right: Option<NodeId>,
}

impl MapBSPNode {
    pub fn new(point_a: Point, point_b: Point) -> (n: Self)
        ensures
            n == (MapBSPNode { point_a, point_b, left: None, right: None }),
    {
        Self { point_a, point_b, left: None, right: None }
    }

    /// Whether the node has no children.
    pub fn is_leaf(&self) -> (b: bool)
        ensures
            b == (self.left is None && self.right is None),
    {
        self.left.is_none() && self.right.is_none()
    }
}


/// The leaves below `id`, in pre-order: the node itself if it is a leaf,
/// then the leaves of its left child, then those of its right child.
pub open spec fn leaves_below(nodes: Seq<MapBSPNode>, id: int) -> Seq<NodeId>
    decreases nodes.len() - id,
{
    if 0 <= id < nodes.len() {
        let node = nodes[id];
        let own: Seq<NodeId> = if node.left is None && node.right is None { seq![id as usize] } else { seq![] };
        let l: Seq<NodeId> = match node.left {
            Some(c) => if id < c && c < nodes.len() { leaves_below(nodes, c as int) } else { seq![] },
            None => seq![],
        };
        let r: Seq<NodeId> = match node.right {
            Some(c) => if id < c && c < nodes.len() { leaves_below(nodes, c as int) } else { seq![] },
            None => seq![],
        };
        own + l + r
    } else {
        seq![]
    }
}

/// Whether `outer` contains `inner`.
pub open spec fn rect_contains(outer: MapBSPNode, inner: MapBSPNode) -> bool {
    &&& outer.point_a.x <= inner.point_a.x && inner.point_b.x <= outer.point_b.x
    &&& outer.point_a.y <= inner.point_a.y && inner.point_b.y <= outer.point_b.y
}

/// The binary space partition of the map from which rooms are made.
pub struct MapBSPTree {
    /// All nodes; ids in the tree are indices of this vector.
    pub nodes: Vec<MapBSPNode>,
    /// Id of the root node (usually 0).
    pub root: NodeId,
    /// Number of rooms the partition is divided into.
    pub num_rooms: usize,
}

impl MapBSPTree {
    /// Children come after their parent, inside the vector, and lie inside
    /// their parent's rectangle.
    pub open spec fn wf(&self) -> bool {
        &&& self.root < self.nodes.len()
        &&& forall|i: int| 0 <= i < self.nodes.len() ==> ((#[trigger] self.nodes@[i]).left matches Some(c)
            ==> i < c < self.nodes.len() && rect_contains(self.nodes@[i], self.nodes@[c as int]))
        &&& forall|i: int| 0 <= i < self.nodes.len() ==> ((#[trigger] self.nodes@[i]).right matches Some(c)
            ==> i < c < self.nodes.len() && rect_contains(self.nodes@[i], self.nodes@[c as int]))
    }

    /// A tree of one root node covering the map minus the padding.
    pub fn new() -> (t: Self)
        ensures
            t.wf(),
            t.root == 0,
            t.num_rooms == ROOM_NUMBER,
            t.nodes@ == seq![MapBSPNode::new_spec(
                Point { x: PADDING, y: PADDING },
                Point { x: (WORLD_WIDTH - PADDING) as usize, y: (WORLD_HEIGHT - PADDING) as usize },
            )],
    {
        let mut nodes: Vec<MapBSPNode> = Vec::new();
        nodes.push(MapBSPNode::new(
            Point::new(PADDING, PADDING),
            Point::new(WORLD_WIDTH - PADDING, WORLD_HEIGHT - PADDING),
        ));
        Self { nodes, root: 0, num_rooms: ROOM_NUMBER }
    }

    /// Getter for the node of a given `id`.
    pub fn get_node(&self, id: usize) -> (n: &MapBSPNode)
        requires
            id < self.nodes.len(),
        ensures
            *n == self.nodes@[id as int],
    {
        &self.nodes[id]
    }

    /// Mutable getter for the node of a given `id`.
    pub fn get_node_mut(&mut self, id: usize) -> (n: &mut MapBSPNode)
        requires
            id < old(self).nodes.len(),
        ensures
            *n == old(self).nodes@[id as int],
            final(self).nodes@ == old(self).nodes@.update(id as int, *final(n)),
            final(self).root == old(self).root,
            final(self).num_rooms == old(self).num_rooms,
    {
        &mut self.nodes[id]
    }

    /// Divides leaf `node_id` in two at `midpoint`: along x (left and right
    /// halves) when `vertical`, along y (top and bottom halves) otherwise.
    /// The two halves share the dividing line and are appended as the
    /// node's children.
    pub fn split_leaf(&mut self, node_id: NodeId, vertical: bool, midpoint: usize)
        requires
            old(self).wf(),
            node_id < old(self).nodes.len(),
            old(self).nodes@[node_id as int].left is None,
            old(self).nodes@[node_id as int].right is None,
            old(self).nodes.len() + 2 <= usize::MAX,
            vertical ==> old(self).nodes@[node_id as int].point_a.x <= midpoint <= old(self).nodes@[node_id as int].point_b.x,
            !vertical ==> old(self).nodes@[node_id as int].point_a.y <= midpoint <= old(self).nodes@[node_id as int].point_b.y,
        ensures
            final(self).wf(),
            final(self).root == old(self).root,
            final(self).num_rooms == old(self).num_rooms,
            final(self).nodes.len() == old(self).nodes.len() + 2,
            ({
                let n = old(self).nodes@[node_id as int];
                let l = old(self).nodes.len();
                &&& final(self).nodes@ == old(self).nodes@.update(
                    node_id as int,
                    MapBSPNode { left: Some(l as usize), right: Some((l + 1) as usize), ..n },
                ).push(if vertical {
                    MapBSPNode::new_spec(n.point_a, Point { x: midpoint, y: n.point_b.y })
                } else {
                    MapBSPNode::new_spec(n.point_a, Point { x: n.point_b.x, y: midpoint })
                }).push(if vertical {
                    MapBSPNode::new_spec(Point { x: midpoint, y: n.point_a.y }, n.point_b)
                } else {
                    MapBSPNode::new_spec(Point { x: n.point_a.x, y: midpoint }, n.point_b)
                })
            }),
    {
        let node = self.nodes[node_id];
        let point_a = node.point_a;
        let point_b = node.point_b;
        let left_id = self.nodes.len();
        if vertical {
            self.nodes.push(MapBSPNode::new(point_a, Point::new(midpoint, point_b.y)));
        } else {
            self.nodes.push(MapBSPNode::new(point_a, Point::new(point_b.x, midpoint)));
        }
        let right_id = self.nodes.len();
        if vertical {
            self.nodes.push(MapBSPNode::new(Point::new(midpoint, point_a.y), point_b));
        } else {
            self.nodes.push(MapBSPNode::new(Point::new(point_a.x, midpoint), point_b));
        }
        let mut updated = node;
        updated.left = Some(left_id);
        updated.right = Some(right_id);
        self.nodes.set(node_id, updated);
    }

    /// Appends the ids of all leaves below `node_id` to the accumulator, in
    /// pre-order.
    pub fn get_leaf_ids(&self, node_id: NodeId, accumulator: &mut Vec<NodeId>)
        requires
            self.wf(),
            node_id < self.nodes.len(),
        ensures
            final(accumulator)@ == old(accumulator)@ + leaves_below(self.nodes@, node_id as int),
        decreases self.nodes.len() - node_id,
    {
        let node = self.get_node(node_id);
        let ghost before = accumulator@;

        if node.is_leaf() {
            accumulator.push(node_id);
        }
        let ghost after_own = accumulator@;

        if let Some(left) = node.left {
            self.get_leaf_ids(left, accumulator);
        }
        let ghost after_left = accumulator@;
        if let Some(right) = node.right {
            self.get_leaf_ids(right, accumulator);
        }
        proof {
            let own: Seq<NodeId> = if node.left is None && node.right is None { seq![node_id] } else { seq![] };
            assert(after_own == before + own);
            assert(accumulator@ =~= before + leaves_below(self.nodes@, node_id as int));
        }
    }

    /// The leaves of the tree, the areas that become the rooms of the map.
    pub fn collect_leaves(&self) -> (leaves: Vec<MapBSPNode>)
        requires
            self.wf(),
        ensures
            leaves@.len() == leaves_below(self.nodes@, self.root as int).len(),
            forall|i: int| 0 <= i < leaves.len() ==> #[trigger] leaves@[i]
                == self.nodes@[leaves_below(self.nodes@, self.root as int)[i] as int],
    {
        let mut leaf_ids: Vec<NodeId> = Vec::new();
        self.get_leaf_ids(self.root, &mut leaf_ids);
        proof {
            assert(leaf_ids@ =~= leaves_below(self.nodes@, self.root as int));
            lemma_leaves_in_range(self.nodes@, self.root as int);
        }

        let mut leaves: Vec<MapBSPNode> = Vec::new();
        let mut i: usize = 0;
        while i < leaf_ids.len()
            invariant
                i <= leaf_ids.len(),
                leaf_ids@ == leaves_below(self.nodes@, self.root as int),
                forall|k: int| 0 <= k < leaf_ids.len() ==> #[trigger] leaf_ids@[k] < self.nodes.len(),
                leaves.len() == i,
                forall|k: int| 0 <= k < i ==> #[trigger] leaves@[k] == self.nodes@[leaf_ids@[k] as int],
            decreases leaf_ids.len() - i,
        {
            let id = leaf_ids[i];
            leaves.push(*self.get_node(id));
            i = i + 1;
        }
        leaves
    }
}

impl MapBSPNode {
    pub open spec fn new_spec(point_a: Point, point_b: Point) -> MapBSPNode {
        MapBSPNode { point_a, point_b, left: None, right: None }
    }
}

/// Every listed leaf is a node of the tree.
pub proof fn lemma_leaves_in_range(nodes: Seq<MapBSPNode>, id: int)
    ensures
        forall|k: int| 0 <= k < leaves_below(nodes, id).len() ==> #[trigger] leaves_below(nodes, id)[k] < nodes.len(),
    decreases nodes.len() - id,
{
    if 0 <= id < nodes.len() {
        let node = nodes[id];
        if let Some(c) = node.left {
            if id < c && c < nodes.len() {
                lemma_leaves_in_range(nodes, c as int);
            }
        }
        if let Some(c) = node.right {
            if id < c && c < nodes.len() {
                lemma_leaves_in_range(nodes, c as int);
            }
        }
        let own: Seq<NodeId> = if node.left is None && node.right is None { seq![id as usize] } else { seq![] };
        let l: Seq<NodeId> = match node.left {
            Some(c) => if id < c && c < nodes.len() { leaves_below(nodes, c as int) } else { seq![] },
            None => seq![],
        };
        let r: Seq<NodeId> = match node.right {
            Some(c) => if id < c && c < nodes.len() { leaves_below(nodes, c as int) } else { seq![] },
            None => seq![],
        };
        assert(leaves_below(nodes, id) == own + l + r);
        assert forall|k: int| 0 <= k < leaves_below(nodes, id).len() implies #[trigger] leaves_below(nodes, id)[k] < nodes.len() by {
            if k < own.len() {
            } else if k < own.len() + l.len() {
                assert(leaves_below(nodes, id)[k] == l[k - own.len()]);
            } else {
                assert(leaves_below(nodes, id)[k] == r[k - own.len() - l.len()]);
            }
        }
    }
}

} // verus!
