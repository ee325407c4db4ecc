//! Sorting items into a deep hierarchy of groups.


pub mod naming;
pub mod onetime;

use vstd::prelude::*;
use crate::bintree::{BinTree, BTInnerNode, HorizontalIdx, leaves, node_ids, lemma_leaves_nonempty, same_shape};
use crate::common::{Distance, Point, SortableItem, Time};
use crate::hierarchy::concrete::{
    children_leaves, lemma_children_leaves_append, lemma_children_leaves_single, node_leaves,
    ConcreteHiearchy, Group, Leaf, Node,
};
use crate::type_level_logic::False;
use self::naming::{
    lemma_naming_keeps_tree, lemma_naming_step_retop, lemma_retop_same_naming, lemma_same_but_names_tree, name_tree, named_by,
    naming_view, set_naming, top_naming, NamingErr, NamingRes,
};
use vstd::std_specs::cmp::PartialEqSpec;
use self::onetime::{
    gap_at, is_max_gap_tree, is_stable_sort_by_time, item_pos, lemma_gaps_below_root, positions_known,
    sort_to_binary_tree, split_gap, with_position,
};

verus! {

/// Normally, "strength" is in the range `[-1..1]`.
/// This type however represents strength times [`i16::MAX`] for the best precision and ease of use compared to floats.
pub type Strength = i16;

/// The first and the last of something.
#[derive(Clone, Copy, Debug, Hash, Eq, PartialEq)]
pub struct FirstLast<T> {
    pub first: T,
    pub last: T,
}

impl<T: Copy> FirstLast<T> {
    /// Both the first and the last are `t`.
    pub fn new_single(t: T) -> (r: Self)
        ensures
            r.first == t,
            r.last == t,
    {
        Self { first: t, last: t }
    }
}

/// Information about nodes which is generated once and then used instead of being generated on the fly
///
/// `PosErr` is used mainly as a way to sometimes make sure that first and last position is included, so it's
/// often set to [`False`]
pub struct StaticNodeInfo<Item: SortableItem, NDItem, NameErr, PosErr> {
    /// `fl` means "first and last" here
    pub fl_time: FirstLast<Time>,
    /// `fl` means "first and last" here
    /// It's recommended to access this using the `fl_pos` method instead of through the field
    pub fl_pos: Result<FirstLast<Item::Position>, PosErr>,
    /// [`None`] until the node is named, then the name or the error of naming.
    pub naming_data: Option<Result<Vec<NDItem>, NameErr>>,
}

impl<Item: SortableItem, NDItem, NameErr> StaticNodeInfo<Item, NDItem, NameErr, False> {
    /// The first and the last position, which are always known here.
    pub fn fl_pos(&self) -> (r: &FirstLast<Item::Position>)
        ensures
            self.fl_pos == Ok::<FirstLast<Item::Position>, False>(*r),
    {
        match &self.fl_pos {
            Ok(fl) => fl,
            Err(e) => {
                proof {
                    use_type_invariant(e);
                }
                e.absurd()
            },
        }
    }

    /// The same information, with the error type of the positions changed.
    pub fn generalize_err<E>(self) -> (r: StaticNodeInfo<Item, NDItem, NameErr, E>)
        ensures
            r.fl_time == self.fl_time,
            r.fl_pos matches Ok(fl) && self.fl_pos == Ok::<FirstLast<Item::Position>, False>(fl),
            r.naming_data == self.naming_data,
    {
        StaticNodeInfo {
            fl_time: self.fl_time,
            fl_pos: match self.fl_pos {
                Ok(fl) => Ok(fl),
                Err(e) => {
                    proof {
                        use_type_invariant(&e);
                    }
                    e.absurd()
                },
            },
            naming_data: self.naming_data,
        }
    }
}

impl<Item: SortableItem, NDItem, NameErr, PosErr> StaticNodeInfo<Item, NDItem, NameErr, PosErr> {
    /// The first and the last position, if known.
    pub fn fl_pos_opt(&self) -> (r: Option<&FirstLast<Item::Position>>)
        ensures
            match self.fl_pos {
                Ok(fl) => r == Some(&fl),
                Err(_) => r is None,
            },
    {
        match &self.fl_pos {
            Ok(fl) => Some(fl),
            Err(_) => None,
        }
    }
}

/// The static information of a node is what its items show: the times and the positions of
/// its first and last item, and no name yet.
pub open spec fn info_of_items<Item: SortableItem, NDItem, NameErr>(
    info: StaticNodeInfo<Item, NDItem, NameErr, False>,
    items: Seq<Item>,
) -> bool {
    &&& info.fl_time == FirstLast { first: items[0].time(), last: items.last().time() }
    &&& info.fl_pos == Ok::<FirstLast<Item::Position>, False>(
        FirstLast { first: item_pos(items[0]), last: item_pos(items.last()) },
    )
    &&& info.naming_data is None
}

/// Every node of the tree carries the static information of its items.
pub open spec fn info_correct<Item: SortableItem, NDItem, NameErr>(
    t: BinTree<Item, StaticNodeInfo<Item, NDItem, NameErr, False>>,
) -> bool
    decreases t,
{
    match t {
        BinTree::Leaf(_, _, info) => info_of_items(info, leaves(t)),
        BinTree::InnerNode(n) => {
            &&& info_of_items(n.node_data, leaves(t))
            &&& info_correct(n.positioned_children.0)
            &&& info_correct(n.positioned_children.1)
        },
    }
}

/// Provides [`StaticNodeInfo`] for every node in the binary tree
///
/// Expects that all leaves in the binary tree
/// (but not in [`additional_middle_leaves`](BTInnerNode::additional_middle_leaves)) have a position.
fn provide_info<Item: SortableItem, NDItem, NameErr>(tree: BinTree<Item, ()>) -> (r: BinTree<
    Item,
    StaticNodeInfo<Item, NDItem, NameErr, False>,
>)
    requires
        positions_known(leaves(tree)),
    ensures
        leaves(r) == leaves(tree),
        node_ids(r) == node_ids(tree),
        is_max_gap_tree(tree) ==> is_max_gap_tree(r),
        info_correct(r),
        same_shape(tree, r),
    decreases tree,
{
    proof {
        lemma_leaves_nonempty(tree);
    }
    match tree {
        BinTree::InnerNode(node) => {
            let ghost old_node = node;
            let BTInnerNode { positioned_children, node_data: _, additional_middle_leaves, node_id } = node;
            let (left, right) = *positioned_children;
            proof {
                lemma_leaves_nonempty(left);
                lemma_leaves_nonempty(right);
                let m = additional_middle_leaves@.map_values(|p: (Item, u64)| p.0);
                let all = leaves(BinTree::InnerNode(old_node));
                assert(all == leaves(left) + m + leaves(right));
                assert forall|i: int| 0 <= i < leaves(left).len() implies (#[trigger] leaves(left)[i]).position() is Some by {
                    assert(all[i] == leaves(left)[i]);
                }
                assert forall|i: int| 0 <= i < leaves(right).len() implies (#[trigger] leaves(right)[i]).position() is Some by {
                    assert(all[leaves(left).len() + m.len() + i] == leaves(right)[i]);
                }
            }
            let left = provide_info(left);
            let right = provide_info(right);
            proof {
                lemma_leaves_nonempty(left);
                lemma_leaves_nonempty(right);
            }
            let left_info = left.get_node_info();
            let right_info = right.get_node_info();
            let fl_time = FirstLast { first: left_info.fl_time.first, last: right_info.fl_time.last };
            let fl_pos = FirstLast { first: left_info.fl_pos().first, last: right_info.fl_pos().last };
            let node_data = StaticNodeInfo { fl_time, fl_pos: Ok(fl_pos), naming_data: None };
            let r = BinTree::InnerNode(
                BTInnerNode {
                    positioned_children: Box::new((left, right)),
                    node_data,
                    additional_middle_leaves,
                    node_id,
                },
            );
            proof {
                let all = leaves(r);
                let m = additional_middle_leaves@.map_values(|p: (Item, u64)| p.0);
                assert(all == leaves(left) + m + leaves(right));
                assert(all[0] == leaves(left)[0]);
                assert(all.last() == leaves(right).last());
                assert(leaves(left)[0] == leaves(left).first());
                if is_max_gap_tree(BinTree::InnerNode(old_node)) {
                    assert(split_gap(r->InnerNode_0) == split_gap(old_node));
                }
            }
            r
        },
        BinTree::Leaf(l, id, _) => {
            proof {
                assert(leaves(tree)[0] == l);
            }
            let fl_time = FirstLast::new_single(l.get_time());
            let pos = l.get_position().expect("provide_info called with an item without position");
            let info = StaticNodeInfo { fl_time, fl_pos: Ok(FirstLast::new_single(pos)), naming_data: None };
            BinTree::Leaf(l, id, info)
        },
    }
}

/// How strongly a group holds together compared to its parent.
#[derive(Debug, Clone, Copy, PartialEq, Eq, Structural)]
pub enum StrengthInfo {
    /// Strength couldn't be determined because this group has less than two children with known location.
    LessThan2ChildrenWithLocation,
    /// Strength couldn't be determined because this group has no siblings (ie. its parent has only one child)
    /// AND this group has 2 children or more (if it had less, this would be [`StrengthInfo::LessThan2ChildrenWithLocation`])
    NoSiblings,
    /// Strength couldn't be determined for root groups and this _is_ a root group.
    Root,
    /// The strength, computed from the separation of the parent and of this group.
    Known { strength: Strength, parent_separation: Distance, self_separation: Distance },
}

/// Data of a group of the deep hierarchy.
#[derive(Clone, Copy, Debug)]
pub struct GroupInfo {
    pub strength: StrengthInfo,
    /// If [None], the group has less than two children
    pub separation: Option<Distance>,
}

/// Data of a node of the deep hierarchy.
pub struct NodeInfo<'hier, Item: SortableItem, NDItem, NameErr> {
    /// [`None`] for items which stand between the two children of a group.
    pub static_info: Option<&'hier StaticNodeInfo<Item, NDItem, NameErr, False>>,
    /// Position of the node in its parent.
    pub id: HorizontalIdx,
    /// Id of the node, unique in the tree.
    pub node_id: u64,
}

/// Copies a vector of values.
pub fn copy_vec<T: Copy>(v: &Vec<T>) -> (r: Vec<T>)
    ensures
        r@ == v@,
{
    let mut r: Vec<T> = Vec::new();
    for i in 0..v.len()
        invariant
            r@ == v@.take(i as int),
    {
        r.push(v[i]);
        proof {
            assert(r@ =~= v@.take(i + 1));
        }
    }
    proof {
        assert(v@.take(v.len() as int) =~= v@);
    }
    r
}

/// The name of a node: a copy of `data` (the error cloned).
pub open spec fn naming_copy<NDItem, NameErr: Clone>(
    data: Option<Result<Vec<NDItem>, NameErr>>,
    r: Option<Result<Vec<NDItem>, NameErr>>,
) -> bool {
    match data {
        None => r is None,
        Some(Ok(v)) => r matches Some(Ok(v2)) && v2@ == v@,
        Some(Err(e)) => r matches Some(Err(e2)) && vstd::pervasive::cloned(e, e2),
    }
}

impl<'hier, Item: SortableItem, NDItem: Copy, NameErr: Clone> NodeInfo<'hier, Item, NDItem, NameErr> {
    /// Returns [`None`] if the item has not yet been assigned a name,
    /// returns `Some(Err)` it there was a failed attempt to assign a name
    pub fn get_naming_data(&self) -> (r: Option<Result<Vec<NDItem>, NameErr>>)
        ensures
            match self.static_info {
                None => r is None,
                Some(info) => naming_copy(info.naming_data, r),
            },
    {
        match self.static_info {
            None => None,
            Some(info) => match &info.naming_data {
                None => None,
                Some(Ok(v)) => Some(Ok(copy_vec(v))),
                Some(Err(e)) => Some(Err(e.clone())),
            },
        }
    }
}

/// Data attached to a node of the tree.
pub open spec fn node_info_of<Item, ND>(t: BinTree<Item, ND>) -> ND {
    match t {
        BinTree::Leaf(_, _, d) => d,
        BinTree::InnerNode(n) => n.node_data,
    }
}

/// The first and the last position recorded in the information of a node.
pub open spec fn fl_of<Item: SortableItem, NDItem, NameErr>(
    info: StaticNodeInfo<Item, NDItem, NameErr, False>,
) -> FirstLast<Item::Position> {
    match info.fl_pos {
        Ok(fl) => fl,
        Err(_) => arbitrary(),
    }
}

/// The separation of a group: the distance from the last position of its left child to the
/// first position of its right child. (Items between the two children have no recorded
/// position, so these two are the only neighbours with known positions.)
pub open spec fn separation_of<Item: SortableItem, NDItem, NameErr>(
    n: BTInnerNode<Item, StaticNodeInfo<Item, NDItem, NameErr, False>>,
) -> Distance {
    fl_of(node_info_of(n.positioned_children.0)).last.spec_distance(
        &fl_of(node_info_of(n.positioned_children.1)).first,
    )
}

/// The strength of a group whose own separation is `sep`; `parent` is [`None`] for the root and
/// the separation of the parent otherwise. `f` computes the strength from the separation of the
/// parent and of the group.
pub open spec fn strength_matches<F: Fn(Distance, Distance) -> Strength>(
    parent: Option<Option<Distance>>,
    sep: Option<Distance>,
    s: StrengthInfo,
    f: F,
) -> bool {
    match parent {
        None => s == StrengthInfo::Root,
        Some(parent_sep) => match sep {
            None => s == StrengthInfo::LessThan2ChildrenWithLocation,
            Some(self_sep) => match parent_sep {
                None => s == StrengthInfo::NoSiblings,
                Some(p) => s matches StrengthInfo::Known { strength, parent_separation, self_separation }
                    && parent_separation == p && self_separation == self_sep && f.ensures(
                    (p, self_sep),
                    strength,
                ),
            },
        },
    }
}

/// `n` is the node of the deep hierarchy made of the tree `t`, which stands at position `idx`
/// in a parent whose separation is `parent` ([`None`] for the root).
pub open spec fn deep_matches<'s, Item: SortableItem, NDItem, NameErr, F: Fn(Distance, Distance) -> Strength>(
    t: BinTree<Item, StaticNodeInfo<Item, NDItem, NameErr, False>>,
    n: Node<GroupInfo, &'s Item, NodeInfo<'s, Item, NDItem, NameErr>>,
    idx: HorizontalIdx,
    parent: Option<Option<Distance>>,
    f: F,
) -> bool
    decreases t,
{
    match t {
        BinTree::Leaf(item, id, info) => n matches Node::Leaf(l) && *l.leaf_data == item
            && l.node_data.static_info == Some(&info) && l.node_data.id == idx
            && l.node_data.node_id == id,
        BinTree::InnerNode(bn) => n matches Node::Group(g) && {
            let m = bn.additional_middle_leaves@;
            let sep = Some(separation_of(bn));
            &&& g.node_data.static_info == Some(&bn.node_data)
            &&& g.node_data.id == idx
            &&& g.node_data.node_id == bn.node_id
            &&& g.group_data.separation == sep
            &&& strength_matches(parent, sep, g.group_data.strength, f)
            &&& g.children@.len() == m.len() + 2
            &&& deep_matches(bn.positioned_children.0, g.children@[0], HorizontalIdx::Left, Some(sep), f)
            &&& deep_matches(bn.positioned_children.1, g.children@.last(), HorizontalIdx::Right, Some(sep), f)
            &&& forall|j: int|
                0 <= j < m.len() ==> ((#[trigger] g.children@[j + 1]) matches Node::Leaf(l)
                    && *l.leaf_data == m[j].0 && l.node_data.static_info is None
                    && l.node_data.id == HorizontalIdx::Right && l.node_data.node_id == m[j].1)
        },
    }
}

/// A group's known strength is what `f` gives for the separation of its parent and its own, in
/// that order, and those are the separations it records.
pub proof fn lemma_known_strength<'s, Item: SortableItem, NDItem, NameErr, F: Fn(Distance, Distance) -> Strength>(
    t: BinTree<Item, StaticNodeInfo<Item, NDItem, NameErr, False>>,
    g: Group<GroupInfo, &'s Item, NodeInfo<'s, Item, NDItem, NameErr>>,
    idx: HorizontalIdx,
    parent: Option<Option<Distance>>,
    f: F,
    strength: Strength,
    parent_separation: Distance,
    self_separation: Distance,
)
    requires
        deep_matches(t, Node::Group(g), idx, parent, f),
        g.group_data.strength == (StrengthInfo::Known { strength, parent_separation, self_separation }),
    ensures
        parent == Some(Some(parent_separation)),
        g.group_data.separation == Some(self_separation),
        f.ensures((parent_separation, self_separation), strength),
{
}

/// In the deep hierarchy, a child group with a known strength records the separation of its
/// parent group as the parent's, and its strength is what `f` gives for the parent's separation
/// and its own, in that order: a tight group under a wide parent gets `f(wide, tight)`.
pub proof fn lemma_child_strength<'s, Item: SortableItem, NDItem, NameErr, F: Fn(Distance, Distance) -> Strength>(
    t: BinTree<Item, StaticNodeInfo<Item, NDItem, NameErr, False>>,
    pg: Group<GroupInfo, &'s Item, NodeInfo<'s, Item, NDItem, NameErr>>,
    idx: HorizontalIdx,
    parent: Option<Option<Distance>>,
    f: F,
    j: int,
    strength: Strength,
    parent_separation: Distance,
    self_separation: Distance,
)
    requires
        deep_matches(t, Node::Group(pg), idx, parent, f),
        0 <= j < pg.children@.len(),
        pg.children@[j] matches Node::Group(cg) && cg.group_data.strength == (StrengthInfo::Known {
            strength,
            parent_separation,
            self_separation,
        }),
    ensures
        pg.group_data.separation == Some(parent_separation),
        pg.children@[j]->Group_0.group_data.separation == Some(self_separation),
        f.ensures((parent_separation, self_separation), strength),
{
    let bn = t->InnerNode_0;
    let c = pg.children@;
    let m = bn.additional_middle_leaves@;
    let sep = Some(separation_of(bn));
    let cg = c[j]->Group_0;
    if j == 0 {
        lemma_known_strength(bn.positioned_children.0, cg, HorizontalIdx::Left, Some(sep), f, strength, parent_separation, self_separation);
    } else if j == c.len() - 1 {
        lemma_known_strength(bn.positioned_children.1, cg, HorizontalIdx::Right, Some(sep), f, strength, parent_separation, self_separation);
    } else {
        assert(c[(j - 1) + 1] is Leaf);
    }
}

/// The items a sequence of references refers to.
pub open spec fn deref_items<'s, Item>(s: Seq<&'s Item>) -> Seq<Item> {
    s.map_values(|r: &'s Item| *r)
}

proof fn lemma_middle_leaves<'s, Item: SortableItem, NDItem, NameErr>(
    mids: Seq<Node<GroupInfo, &'s Item, NodeInfo<'s, Item, NDItem, NameErr>>>,
    m: Seq<(Item, u64)>,
)
    requires
        mids.len() == m.len(),
        forall|j: int| 0 <= j < m.len() ==> ((#[trigger] mids[j]) matches Node::Leaf(l) && *l.leaf_data == m[j].0),
    ensures
        deref_items(children_leaves(mids)) == m.map_values(|p: (Item, u64)| p.0),
    decreases mids.len(),
{
    if mids.len() == 0 {
        assert(children_leaves(mids) =~= Seq::<&'s Item>::empty());
        assert(deref_items(children_leaves(mids)) =~= m.map_values(|p: (Item, u64)| p.0));
    } else {
        let x = mids.last();
        lemma_middle_leaves(mids.drop_last(), m.drop_last());
        assert(mids =~= mids.drop_last() + seq![x]);
        lemma_children_leaves_append(mids.drop_last(), seq![x]);
        lemma_children_leaves_single(x);
        assert(mids[mids.len() - 1] == x);
        let lx = x->Leaf_0;
        assert(node_leaves(x) == seq![lx.leaf_data]);
        assert(*lx.leaf_data == m.last().0);
        let a = children_leaves(mids.drop_last());
        assert(deref_items(a + seq![lx.leaf_data]) =~= deref_items(a) + seq![m.last().0]);
        assert(m.map_values(|p: (Item, u64)| p.0) =~= m.drop_last().map_values(|p: (Item, u64)| p.0) + seq![m.last().0]);
    }
}

/// The deep hierarchy made of a tree holds the items of the tree, in order.
pub proof fn lemma_deep_leaves<'s, Item: SortableItem, NDItem, NameErr, F: Fn(Distance, Distance) -> Strength>(
    t: BinTree<Item, StaticNodeInfo<Item, NDItem, NameErr, False>>,
    n: Node<GroupInfo, &'s Item, NodeInfo<'s, Item, NDItem, NameErr>>,
    idx: HorizontalIdx,
    parent: Option<Option<Distance>>,
    f: F,
)
    requires
        deep_matches(t, n, idx, parent, f),
    ensures
        deref_items(node_leaves(n)) == leaves(t),
    decreases t,
{
    match t {
        BinTree::Leaf(item, _, _) => {
            assert(deref_items(node_leaves(n)) =~= seq![item]);
        },
        BinTree::InnerNode(bn) => {
            let g = n->Group_0;
            let c = g.children@;
            let m = bn.additional_middle_leaves@;
            let sep = Some(separation_of(bn));
            lemma_deep_leaves(bn.positioned_children.0, c[0], HorizontalIdx::Left, Some(sep), f);
            lemma_deep_leaves(bn.positioned_children.1, c.last(), HorizontalIdx::Right, Some(sep), f);
            let mids = c.subrange(1, m.len() + 1 as int);
            assert forall|j: int| 0 <= j < m.len() implies ((#[trigger] mids[j]) matches Node::Leaf(l) && *l.leaf_data == m[j].0) by {
                assert(mids[j] == c[j + 1]);
            }
            lemma_middle_leaves(mids, m);
            assert(c =~= seq![c[0]] + mids + seq![c.last()]);
            lemma_children_leaves_append(seq![c[0]] + mids, seq![c.last()]);
            lemma_children_leaves_append(seq![c[0]], mids);
            lemma_children_leaves_single(c[0]);
            lemma_children_leaves_single(c.last());
            assert(deref_items(node_leaves(n)) =~= leaves(t));
        },
    }
}

/// In the freshly sorted tree, the separation of the root is the largest distance between
/// neighbouring items: no distance exceeds it, and the two items around the split are that far
/// apart.
pub proof fn lemma_root_separation_is_largest_gap<'s, Item: SortableItem, NDItem, NameErr, F: Fn(Distance, Distance) -> Strength>(
    t: BinTree<Item, StaticNodeInfo<Item, NDItem, NameErr, False>>,
    root: Group<GroupInfo, &'s Item, NodeInfo<'s, Item, NDItem, NameErr>>,
    f: F,
)
    requires
        t is InnerNode,
        is_max_gap_tree(t),
        info_correct(t),
        deep_matches(t, Node::Group(root), HorizontalIdx::Left, None, f),
    ensures
        root.group_data.separation matches Some(sep) && {
            &&& forall|i: int| 0 <= i < leaves(t).len() - 1 ==> #[trigger] gap_at(leaves(t), i) <= sep
            &&& exists|i: int| 0 <= i < leaves(t).len() - 1 && #[trigger] gap_at(leaves(t), i) == sep
        },
{
    let n = t->InnerNode_0;
    let l = n.positioned_children.0;
    let r = n.positioned_children.1;
    lemma_leaves_nonempty(l);
    lemma_leaves_nonempty(r);
    lemma_gaps_below_root(n);
    reveal_with_fuel(info_correct, 2);
    assert(info_of_items(node_info_of(l), leaves(l)));
    assert(info_of_items(node_info_of(r), leaves(r)));
    assert(separation_of(n) == split_gap(n));
    let s = leaves(t);
    assert(n.additional_middle_leaves@.map_values(|p: (Item, u64)| p.0) =~= Seq::<Item>::empty());
    assert(s =~= leaves(l) + leaves(r));
    let k = leaves(l).len() - 1;
    assert(s[k] == leaves(l).last() && s[k + 1] == leaves(r)[0]);
    assert(gap_at(s, k) == split_gap(n));
}

/// Computes the strength of a group from the separation of its parent and its own.
fn strength_info<F: Fn(Distance, Distance) -> Strength>(
    parent: Option<Option<Distance>>,
    sep: Option<Distance>,
    f: &F,
) -> (s: StrengthInfo)
    requires
        forall|p: Distance, q: Distance| f.requires((p, q)),
    ensures
        strength_matches(parent, sep, s, *f),
{
    match parent {
        None => StrengthInfo::Root,
        Some(parent_sep) => match sep {
            None => StrengthInfo::LessThan2ChildrenWithLocation,
            Some(self_sep) => match parent_sep {
                None => StrengthInfo::NoSiblings,
                Some(p) => StrengthInfo::Known {
                    strength: f(p, self_sep),
                    parent_separation: p,
                    self_separation: self_sep,
                },
            },
        },
    }
}

fn deep_node<'s, Item: SortableItem, NDItem, NameErr, F: Fn(Distance, Distance) -> Strength>(
    t: &'s BinTree<Item, StaticNodeInfo<Item, NDItem, NameErr, False>>,
    idx: HorizontalIdx,
    parent: Option<Option<Distance>>,
    f: &F,
) -> (r: Node<GroupInfo, &'s Item, NodeInfo<'s, Item, NDItem, NameErr>>)
    requires
        forall|p: Distance, q: Distance| f.requires((p, q)),
    ensures
        deep_matches(*t, r, idx, parent, *f),
    decreases t,
{
    match t {
        BinTree::Leaf(item, id, info) => Node::Leaf(
            Leaf { leaf_data: item, node_data: NodeInfo { static_info: Some(info), id: idx, node_id: *id } },
        ),
        BinTree::InnerNode(bn) => {
            let left_info = bn.positioned_children.0.get_node_info();
            let right_info = bn.positioned_children.1.get_node_info();
            let separation = Some(left_info.fl_pos().last.distance(&right_info.fl_pos().first));
            let strength = strength_info(parent, separation, f);
            let mut children: Vec<Node<GroupInfo, &'s Item, NodeInfo<'s, Item, NDItem, NameErr>>> = Vec::new();
            children.push(deep_node(&bn.positioned_children.0, HorizontalIdx::Left, Some(separation), f));
            let m = &bn.additional_middle_leaves;
            for j in 0..m.len()
                invariant
                    children@.len() == j + 1,
                    deep_matches(bn.positioned_children.0, children@[0], HorizontalIdx::Left, Some(separation), *f),
                    forall|k: int|
                        0 <= k < j ==> ((#[trigger] children@[k + 1]) matches Node::Leaf(l)
                            && *l.leaf_data == m@[k].0 && l.node_data.static_info is None
                            && l.node_data.id == HorizontalIdx::Right && l.node_data.node_id == m@[k].1),
            {
                let (item, id) = &m[j];
                children.push(Node::Leaf(
                    Leaf { leaf_data: item, node_data: NodeInfo { static_info: None, id: HorizontalIdx::Right, node_id: *id } },
                ));
            }
            children.push(deep_node(&bn.positioned_children.1, HorizontalIdx::Right, Some(separation), f));
            let r = Node::Group(Group {
                children,
                group_data: GroupInfo { strength, separation },
                node_data: NodeInfo { static_info: Some(&bn.node_data), id: idx, node_id: bn.node_id },
            });
            proof {
                let g = r->Group_0;
                assert(g.children@.len() == m@.len() + 2);
                assert(g.children@.last() == g.children@[m@.len() as int + 1]);
                assert forall|k: int| 0 <= k < m@.len() implies (#[trigger] g.children@[k + 1]) matches Node::Leaf(l)
                    && *l.leaf_data == m@[k].0 && l.node_data.static_info is None
                    && l.node_data.id == HorizontalIdx::Right && l.node_data.node_id == m@[k].1 by {
                    assert(g.children@[k + 1] == children@[k + 1]);
                }
            }
            r
        },
    }
}

/// Sorts items into a deep hierarchy: a binary tree in which every group is split at the
/// largest distance between neighbouring items.
pub struct DeepSorter<Item: SortableItem, NDItem, NameErr> {
    bintree: BinTree<Item, StaticNodeInfo<Item, NDItem, NameErr, False>>,
}

impl<Item: SortableItem, NDItem, NameErr> DeepSorter<Item, NDItem, NameErr> {
    /// The binary tree of the sorter.
    pub closed spec fn tree(&self) -> BinTree<Item, StaticNodeInfo<Item, NDItem, NameErr, False>> {
        self.bintree
    }

    /// This sorts all items to binary tree, potentially long-running
    ///
    /// Items without a position are left out; at least one item must have a position, and all
    /// items with a position must come from one camera.
    pub fn new(items: Vec<Item>) -> (s: Self)
        requires
            exists|i: int| 0 <= i < items.len() && (#[trigger] items@[i]).position() is Some,
            2 * items.len() <= u64::MAX,
            forall|i: int, j: int|
                0 <= i < items.len() && 0 <= j < items.len() && items@[i].position() is Some && items@[j].position() is Some
                ==> (#[trigger] items@[i]).camera() == (#[trigger] items@[j]).camera(),
        ensures
            is_stable_sort_by_time(with_position(items@), leaves(s.tree())),
            is_max_gap_tree(s.tree()),
            info_correct(s.tree()),
            node_ids(s.tree()) == Set::new(|id: u64| id < 2 * leaves(s.tree()).len() - 1),
    {
        let tree = sort_to_binary_tree(items);
        proof {
            let l = leaves(tree);
            let perm = choose|perm: Seq<int>| {
                &&& perm.len() == with_position(items@).len()
                &&& l.len() == with_position(items@).len()
                &&& forall|i: int| 0 <= i < perm.len() ==> 0 <= #[trigger] perm[i] < with_position(items@).len()
                &&& forall|i: int| 0 <= i < perm.len() ==> l[i] == with_position(items@)[#[trigger] perm[i]]
            };
            assert forall|i: int| 0 <= i < l.len() implies (#[trigger] l[i]).position() is Some by {
                assert(l[i] == with_position(items@)[perm[i]]);
                broadcast use vstd::seq_lib::group_filter_ensures;
                assert(with_position(items@)[perm[i]].position() is Some);
            }
        }
        DeepSorter { bintree: provide_info(tree) }
    }

    /// Whether the hierarchy has groups, ie. whether at least two items were sorted.
    pub fn root_is_group(&self) -> (r: bool)
        ensures
            r == self.tree() is InnerNode,
    {
        match &self.bintree {
            BinTree::InnerNode(_) => true,
            BinTree::Leaf(..) => false,
        }
    }

    /// The deep hierarchy: the binary tree as a hierarchy in which every group knows its
    /// separation and its strength. `strength_of` computes the strength of a group from the
    /// separation of its parent and its own.
    pub fn deep_hierarchy<'s, F: Fn(Distance, Distance) -> Strength>(&'s self, strength_of: F) -> (r: ConcreteHiearchy<
        GroupInfo,
        &'s Item,
        NodeInfo<'s, Item, NDItem, NameErr>,
    >)
        requires
            self.tree() is InnerNode,
            forall|p: Distance, q: Distance| strength_of.requires((p, q)),
        ensures
            deep_matches(self.tree(), Node::Group(r.root_group), HorizontalIdx::Left, None, strength_of),
            deref_items(children_leaves(r.root_group.children@)) == leaves(self.tree()),
    {
        let root = deep_node(&self.bintree, HorizontalIdx::Left, None, &strength_of);
        proof {
            lemma_deep_leaves(self.tree(), root, HorizontalIdx::Left, None, strength_of);
        }
        match root {
            Node::Group(g) => ConcreteHiearchy { root_group: g },
            Node::Leaf(_) => {
                proof {
                    assert(false);
                }
                ConcreteHiearchy {
                    root_group: Group {
                        children: Vec::new(),
                        group_data: GroupInfo { strength: StrengthInfo::Root, separation: None },
                        node_data: NodeInfo { static_info: None, id: HorizontalIdx::Left, node_id: 0 },
                    },
                }
            },
        }
    }
}

impl<Item: SortableItem, NDItem: PartialEq + Copy, LeafNameErr> DeepSorter<Item, NDItem, NamingErr<LeafNameErr>> {
    /// Names the nodes of the tree that have not been named yet: a leaf by `fun_get_leaf_name`,
    /// a group by what the names of its children have in common (see [`naming_step`]). The
    /// root keeps its full name.
    pub fn try_naming<F: Fn(&Item) -> Result<Vec<NDItem>, LeafNameErr>>(&mut self, fun_get_leaf_name: F)
        requires
            old(self).tree() is InnerNode,
            NDItem::obeys_eq_spec(),
            forall|it: &Item| fun_get_leaf_name.requires((it,)),
        ensures
            exists|res: NamingRes<NDItem, LeafNameErr>|
                #[trigger] named_by(old(self).tree(), final(self).tree(), res, fun_get_leaf_name) && match res {
                    NamingRes::AlreadyNamed(_) => top_naming(final(self).tree()) == top_naming(old(self).tree()),
                    NamingRes::NewlyNamed(r) => naming_view(top_naming(final(self).tree())) == naming_view(
                        Some(r),
                    ),
                },
            leaves(final(self).tree()) == leaves(old(self).tree()),
            node_ids(final(self).tree()) == node_ids(old(self).tree()),
            is_max_gap_tree(final(self).tree()) == is_max_gap_tree(old(self).tree()),
            top_naming(old(self).tree()) is Some ==> final(self).tree() == old(self).tree(),
    {
        let ghost old_tree = self.bintree;
        let (res, trace) = name_tree(&mut self.bintree, &fun_get_leaf_name);
        let ghost named_tree = self.bintree;
        let ghost gres = res;
        match res {
            NamingRes::AlreadyNamed(_) => {},
            NamingRes::NewlyNamed(r) => {
                set_naming(&mut self.bintree, Some(r));
                proof {
                    lemma_naming_step_retop(old_tree, named_tree, self.bintree, gres, fun_get_leaf_name, trace@);
                }
            },
        }
        proof {
            if top_naming(old_tree) is Some {
                assert(gres is AlreadyNamed);
                lemma_retop_same_naming(old_tree, self.bintree);
            }
            assert(named_by(old_tree, self.bintree, gres, fun_get_leaf_name));
            lemma_naming_keeps_tree(old_tree, self.bintree, gres, fun_get_leaf_name, trace@);
            lemma_same_but_names_tree(old_tree, self.bintree);
        }
    }
}

/// A group given by the items it holds.
pub struct GroupRef<'a, Item: SortableItem>(pub &'a [Item]);

/// Data of a group.
pub struct GroupMetadata {
    pub strength: u8,
}

} // verus!
