//! The binary tree into which items are sorted.

use vstd::prelude::*;
use crate::common::{Distance, SortableItem, Point};
use crate::deep_sorter::NodeInfo as DeepNodeInfo;
use crate::hierarchy::lazy::LeafRef;

verus! {

/// Position of a child in a [`BTInnerNode`].
#[derive(Debug, Clone, Copy, PartialEq, Eq, Structural)]
pub enum HorizontalIdx {
    Left,
    Right,
}

/// A binary tree of items. `ND` is data attached to every node.
pub enum BinTree<Item, ND> {
    InnerNode(BTInnerNode<Item, ND>),
    Leaf(
        Item,
        /// Id unique in the entire tree.
        u64,
        ND,
    ),
}

pub struct BTInnerNode<Item, ND> {
    /// The left and the right child.
    pub positioned_children: Box<(BinTree<Item, ND>, BinTree<Item, ND>)>,
    pub node_data: ND,
    /// Leaves standing between the two children. The second element is the ID of the item.
    pub additional_middle_leaves: Vec<(Item, u64)>,
    /// Static group ID unique in the entire tree.
    pub node_id: u64,
}

/// The items of a tree, read from left to right.
pub open spec fn leaves<Item, ND>(t: BinTree<Item, ND>) -> Seq<Item>
    decreases t,
{
    match t {
        BinTree::Leaf(it, _, _) => seq![it],
        BinTree::InnerNode(n) => leaves(n.positioned_children.0) + n.additional_middle_leaves@.map_values(
            |p: (Item, u64)| p.0,
        ) + leaves(n.positioned_children.1),
    }
}

/// The ids of all nodes of a tree (leaves, middle leaves and inner nodes).
pub open spec fn node_ids<Item, ND>(t: BinTree<Item, ND>) -> Set<u64>
    decreases t,
{
    match t {
        BinTree::Leaf(_, id, _) => set![id],
        BinTree::InnerNode(n) => node_ids(n.positioned_children.0).union(
            node_ids(n.positioned_children.1),
        ).union(n.additional_middle_leaves@.map_values(|p: (Item, u64)| p.1).to_set()).insert(
            n.node_id,
        ),
    }
}

/// `a` and `b` have the same shape: the same inner nodes, with the same ids and middle leaves,
/// and the same leaves with the same ids; only the data attached to the nodes may differ.
pub open spec fn same_shape<Item, A, B>(a: BinTree<Item, A>, b: BinTree<Item, B>) -> bool
    decreases a,
{
    match (a, b) {
        (BinTree::Leaf(ia, ida, _), BinTree::Leaf(ib, idb, _)) => ia == ib && ida == idb,
        (BinTree::InnerNode(na), BinTree::InnerNode(nb)) => {
            &&& na.node_id == nb.node_id
            &&& na.additional_middle_leaves@ == nb.additional_middle_leaves@
            &&& same_shape(na.positioned_children.0, nb.positioned_children.0)
            &&& same_shape(na.positioned_children.1, nb.positioned_children.1)
        },
        _ => false,
    }
}

/// Number of inner nodes of a tree.
pub open spec fn inner_count<Item, ND>(t: BinTree<Item, ND>) -> nat
    decreases t,
{
    match t {
        BinTree::Leaf(..) => 0,
        BinTree::InnerNode(n) => 1 + inner_count(n.positioned_children.0) + inner_count(
            n.positioned_children.1,
        ),
    }
}

/// Every tree has at least one leaf.
pub proof fn lemma_leaves_nonempty<Item, ND>(t: BinTree<Item, ND>)
    ensures
        leaves(t).len() >= 1,
    decreases t,
{
    match t {
        BinTree::Leaf(..) => {},
        BinTree::InnerNode(n) => {
            lemma_leaves_nonempty(n.positioned_children.0);
        },
    }
}

impl<Item, ND> BinTree<Item, ND> {
    /// Data attached to this node.
    pub fn get_node_info(&self) -> (r: &ND)
        ensures
            *r == match *self {
                BinTree::InnerNode(n) => n.node_data,
                BinTree::Leaf(_, _, d) => d,
            },
    {
        match self {
            BinTree::InnerNode(node) => &node.node_data,
            BinTree::Leaf(_, _, node) => node,
        }
    }

    /// The first item of the tree.
    pub fn get_leftmost_item(&self) -> (r: &Item)
        ensures
            leaves(*self).len() >= 1,
            *r == leaves(*self)[0],
        decreases self,
    {
        proof {
            lemma_leaves_nonempty(*self);
        }
        match self {
            BinTree::InnerNode(node) => {
                let r = node.positioned_children.0.get_leftmost_item();
                proof {
                    lemma_leaves_nonempty(node.positioned_children.1);
                }
                r
            },
            BinTree::Leaf(leaf, _, _) => leaf,
        }
    }

    /// The last item of the tree.
    pub fn get_rightmost_item(&self) -> (r: &Item)
        ensures
            leaves(*self).len() >= 1,
            *r == leaves(*self).last(),
        decreases self,
    {
        proof {
            lemma_leaves_nonempty(*self);
        }
        match self {
            BinTree::InnerNode(node) => {
                let r = node.positioned_children.1.get_rightmost_item();
                r
            },
            BinTree::Leaf(leaf, _, _) => leaf,
        }
    }

    /// Id of this node.
    pub fn id(&self) -> (r: u64)
        ensures
            r == match *self {
                BinTree::InnerNode(n) => n.node_id,
                BinTree::Leaf(_, id, _) => id,
            },
    {
        match self {
            BinTree::InnerNode(node) => node.node_id,
            BinTree::Leaf(_, id, _) => *id,
        }
    }
}

impl<Item, ND> BTInnerNode<Item, ND> {
    /// The child at the given position.
    pub fn child(&self, idx: HorizontalIdx) -> (r: &BinTree<Item, ND>)
        ensures
            *r == match idx {
                HorizontalIdx::Left => self.positioned_children.0,
                HorizontalIdx::Right => self.positioned_children.1,
            },
    {
        match idx {
            HorizontalIdx::Left => &self.positioned_children.0,
            HorizontalIdx::Right => &self.positioned_children.1,
        }
    }
}

impl<Item, ND> std::ops::Index<HorizontalIdx> for BTInnerNode<Item, ND> {
    type Output = BinTree<Item, ND>;

    fn index(&self, index: HorizontalIdx) -> (r: &BinTree<Item, ND>)
        ensures
            *r == match index {
                HorizontalIdx::Left => self.positioned_children.0,
                HorizontalIdx::Right => self.positioned_children.1,
            },
    {
        self.child(index)
    }
}

impl<Item, ND> vstd::std_specs::core::IndexSpecImpl<HorizontalIdx> for BTInnerNode<Item, ND> {
    open spec fn index_req(&self, index: &HorizontalIdx) -> bool {
        true
    }
}

impl<Item, ND> std::ops::IndexMut<HorizontalIdx> for BTInnerNode<Item, ND> {
    fn index_mut(&mut self, index: HorizontalIdx) -> (r: &mut BinTree<Item, ND>)
        ensures
            *r == match index {
                HorizontalIdx::Left => old(self).positioned_children.0,
                HorizontalIdx::Right => old(self).positioned_children.1,
            },
            final(self).node_data == old(self).node_data,
            final(self).additional_middle_leaves == old(self).additional_middle_leaves,
            final(self).node_id == old(self).node_id,
            *final(self).positioned_children == match index {
                HorizontalIdx::Left => (*final(r), old(self).positioned_children.1),
                HorizontalIdx::Right => (old(self).positioned_children.0, *final(r)),
            },
    {
        match index {
            HorizontalIdx::Left => &mut self.positioned_children.0,
            HorizontalIdx::Right => &mut self.positioned_children.1,
        }
    }
}

/// A leaf of the deep hierarchy: the item and the data of its node.
pub struct BTLeafRef<'a, Item: SortableItem, NDItem, NameErr>(pub &'a Item, pub DeepNodeInfo<'a, Item, NDItem, NameErr>);

impl<'a, Item: SortableItem, NDItem, NameErr> LeafRef for BTLeafRef<'a, Item, NDItem, NameErr> {
    type Metadata = &'a Item;

    type NodeMetadata = DeepNodeInfo<'a, Item, NDItem, NameErr>;

    fn leaf_metadata(&self) -> (r: &'a Item)
        ensures
            r == self.0,
    {
        self.0
    }

    fn node_metadata(&self) -> (r: DeepNodeInfo<'a, Item, NDItem, NameErr>)
        ensures
            r == self.1,
    {
        DeepNodeInfo { static_info: self.1.static_info, id: self.1.id, node_id: self.1.node_id }
    }
}

} // verus!
