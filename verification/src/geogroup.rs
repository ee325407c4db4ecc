//! The final hierarchy: the deep hierarchy with weak groups dissolved into their parents.

use vstd::prelude::*;
use std::sync::Arc;
use crate::bintree::HorizontalIdx;
use crate::common::{Distance, SortableItem, ONE_METER_DISTANCE};
use crate::deep_sorter::{copy_vec, DeepSorter, GroupInfo, Strength, StrengthInfo};
use crate::deep_sorter::NodeInfo as DeepNodeInfo;
use crate::deep_sorter::{
    deep_matches, deref_items, info_correct, info_of_items, lemma_deep_leaves, node_info_of, separation_of,
    StaticNodeInfo,
};
use crate::type_level_logic::False;
use crate::deep_sorter::onetime::{
    gap_at, gaps_below, is_max_gap_tree, is_stable_sort_by_time, split_gap, with_position,
};
use crate::bintree::{leaves, lemma_leaves_nonempty, node_ids, BTInnerNode, BinTree};
use crate::hierarchy::concrete::{
    children_leaves, lemma_children_leaves_append, lemma_children_leaves_single, node_leaves,
    ConcreteHiearchy, Group, Leaf, Node,
};

verus! {

/// Normally, depth and [strength](Strength) are in the range `[-1..1]`.
/// This type however represents depth times [`i16::MAX`] for the best precision and ease of use compared to floats.
pub type DepthParam = Strength;

/// The maximum value that should be assigned to [`DepthParam`] (corresponding to user-facing value of depth `1`)
pub const MAX_DEPTH: Strength = 32767i16;

/// Parameters of the algorithm influencing how it sorts
#[derive(Clone, Copy, Debug, PartialEq, Eq, Structural, Hash)]
pub struct Params {
    pub depth: DepthParam,
    /// The minimum distance of items that are not in the same group alone.
    /// No two items going right after each other that are closer than this distance
    /// can be separated.
    pub minimum_distance: Distance,
}

impl Default for Params {
    /// The setting of parameters found reasonable (there's nothing deep in these numbers)
    fn default() -> (r: Self)
        ensures
            r.depth == MAX_DEPTH / 2,
            r.minimum_distance == 100 * ONE_METER_DISTANCE,
    {
        Params { depth: MAX_DEPTH / 2, minimum_distance: 100 * ONE_METER_DISTANCE }
    }
}

/// Data of a node of the final hierarchy.
pub struct NodeInfo<NDItem, NameErr> {
    /// If you join all `local_id_path`s of a node's parents, you get the unique _identification path_ of the node.
    /// This _identification path_ is preserved during algorithm parameter changes, so it can be used to track selection,
    /// animating the nodes etc.
    pub local_id_path: Vec<HorizontalIdx>,
    /// [`None`] if it wan't named yet, [`Err`] if naming resulted in an error
    pub name: Option<Result<Vec<NDItem>, NameErr>>,
}

/// A node of the deep hierarchy.
pub type DeepNode<'s, Item, NDItem, NameErr> = Node<GroupInfo, &'s Item, DeepNodeInfo<'s, Item, NDItem, NameErr>>;

/// A node of the final hierarchy.
pub type FinalNode<'s, Item, NDItem, NameErr> = Node<GroupInfo, &'s Item, NodeInfo<NDItem, NameErr>>;

/// Whether a group of the deep hierarchy is dissolved into its parent, whose separation is
/// `parent_sep`.
///
/// A group of known strength is dissolved when the separation of its parent is below the
/// minimum distance (the parent's, not its own: a group of small separation under a parent of
/// large separation keeps its place, only its children may dissolve), or when it is weaker
/// than the depth asks for. The root and groups without siblings stay; groups with less than
/// two located children are dissolved.
pub open spec fn dissolves(g: GroupInfo, parent_sep: Option<Distance>, params: Params) -> bool {
    match g.strength {
        StrengthInfo::Known { strength, .. } => {
            let psep = match parent_sep {
                Some(s) => s,
                None => u64::MAX,
            };
            psep < params.minimum_distance || strength < MAX_DEPTH - params.depth
        },
        StrengthInfo::Root => false,
        StrengthInfo::LessThan2ChildrenWithLocation => true,
        StrengthInfo::NoSiblings => false,
    }
}

/// The naming data a dissolved group hands down to its children: its name, if it has one.
pub open spec fn handed_down_name<'s, Item: SortableItem, NDItem, NameErr>(
    n: DeepNodeInfo<'s, Item, NDItem, NameErr>,
) -> Seq<NDItem> {
    match n.static_info {
        Some(info) => match info.naming_data {
            Some(Ok(v)) => v@,
            _ => Seq::empty(),
        },
        None => Seq::empty(),
    }
}

/// `r` is the data of a node of the final hierarchy made from the data `n` of a node of the
/// deep hierarchy, under dissolved groups that handed down `path` and `naming`.
pub open spec fn info_matches<'s, Item: SortableItem, NDItem, NameErr: Clone>(
    n: DeepNodeInfo<'s, Item, NDItem, NameErr>,
    path: Seq<HorizontalIdx>,
    naming: Seq<NDItem>,
    r: NodeInfo<NDItem, NameErr>,
) -> bool {
    &&& r.local_id_path@ == path.push(n.id)
    &&& match n.static_info {
        None => r.name is None,
        Some(info) => match info.naming_data {
            None => r.name is None,
            Some(Ok(v)) => r.name matches Some(Ok(w)) && w@ == v@ + naming,
            Some(Err(e)) => r.name matches Some(Err(e2)) && vstd::pervasive::cloned(e, e2),
        },
    }
}

/// How many nodes the deep node `n` contributes to its place in the final hierarchy, under a
/// parent of separation `parent_sep`: one, or, when it is a dissolved group, what its children
/// contribute.
pub open spec fn contribution_count<'s, Item: SortableItem, NDItem, NameErr>(
    n: DeepNode<'s, Item, NDItem, NameErr>,
    parent_sep: Option<Distance>,
    params: Params,
) -> nat
    decreases n,
{
    match n {
        Node::Leaf(_) => 1,
        Node::Group(g) => if dissolves(g.group_data, parent_sep, params) {
            children_count(g.children@, g.group_data.separation, params)
        } else {
            1
        },
    }
}

/// How many nodes the deep nodes `s`, children of a group of separation `sep`, contribute.
pub open spec fn children_count<'s, Item: SortableItem, NDItem, NameErr>(
    s: Seq<DeepNode<'s, Item, NDItem, NameErr>>,
    sep: Option<Distance>,
    params: Params,
) -> nat
    decreases s,
{
    if s.len() == 0 {
        0
    } else {
        contribution_count(s[0], sep, params) + children_count(s.drop_first(), sep, params)
    }
}

/// `out` is what the deep node `n` contributes to the final hierarchy, under a parent of
/// separation `parent_sep` and dissolved groups that handed down `path` and `naming`:
/// a leaf stays a leaf; a kept group becomes a group of what its children contribute (with
/// nothing handed down); a dissolved group is replaced by what its children contribute, to
/// whom it hands down its id and its name.
pub open spec fn contributes<'s, Item: SortableItem, NDItem, NameErr: Clone>(
    n: DeepNode<'s, Item, NDItem, NameErr>,
    parent_sep: Option<Distance>,
    path: Seq<HorizontalIdx>,
    naming: Seq<NDItem>,
    params: Params,
    out: Seq<FinalNode<'s, Item, NDItem, NameErr>>,
) -> bool
    decreases n,
{
    match n {
        Node::Leaf(l) => {
            &&& out.len() == 1
            &&& out[0] matches Node::Leaf(rl) && rl.leaf_data == l.leaf_data
                && info_matches(l.node_data, path, naming, rl.node_data)
        },
        Node::Group(g) => if dissolves(g.group_data, parent_sep, params) {
            children_contribute(
                g.children@,
                g.group_data.separation,
                path.push(g.node_data.id),
                naming + handed_down_name(g.node_data),
                params,
                out,
            )
        } else {
            &&& out.len() == 1
            &&& out[0] matches Node::Group(rg) && kept_group_matches(g, path, naming, params, rg)
        },
    }
}

/// `rg` is the group of the final hierarchy made from the kept deep group `g`.
pub open spec fn kept_group_matches<'s, Item: SortableItem, NDItem, NameErr: Clone>(
    g: Group<GroupInfo, &'s Item, DeepNodeInfo<'s, Item, NDItem, NameErr>>,
    path: Seq<HorizontalIdx>,
    naming: Seq<NDItem>,
    params: Params,
    rg: Group<GroupInfo, &'s Item, NodeInfo<NDItem, NameErr>>,
) -> bool
    decreases g,
{
    &&& rg.group_data == g.group_data
    &&& info_matches(g.node_data, path, naming, rg.node_data)
    &&& children_contribute(
        g.children@,
        g.group_data.separation,
        Seq::empty(),
        Seq::empty(),
        params,
        rg.children@,
    )
}

/// `out` is what the deep nodes `s`, children of a group of separation `sep`, contribute, one
/// after another.
pub open spec fn children_contribute<'s, Item: SortableItem, NDItem, NameErr: Clone>(
    s: Seq<DeepNode<'s, Item, NDItem, NameErr>>,
    sep: Option<Distance>,
    path: Seq<HorizontalIdx>,
    naming: Seq<NDItem>,
    params: Params,
    out: Seq<FinalNode<'s, Item, NDItem, NameErr>>,
) -> bool
    decreases s,
{
    if s.len() == 0 {
        out.len() == 0
    } else {
        let k = contribution_count(s[0], sep, params);
        &&& k <= out.len()
        &&& contributes(s[0], sep, path, naming, params, out.take(k as int))
        &&& children_contribute(s.drop_first(), sep, path, naming, params, out.skip(k as int))
    }
}

proof fn lemma_children_push<'s, Item: SortableItem, NDItem, NameErr: Clone>(
    s: Seq<DeepNode<'s, Item, NDItem, NameErr>>,
    x: DeepNode<'s, Item, NDItem, NameErr>,
    sep: Option<Distance>,
    path: Seq<HorizontalIdx>,
    naming: Seq<NDItem>,
    params: Params,
    out1: Seq<FinalNode<'s, Item, NDItem, NameErr>>,
    out2: Seq<FinalNode<'s, Item, NDItem, NameErr>>,
)
    requires
        children_contribute(s, sep, path, naming, params, out1),
        contributes(x, sep, path, naming, params, out2),
        out2.len() == contribution_count(x, sep, params),
    ensures
        children_contribute(s.push(x), sep, path, naming, params, out1 + out2),
        children_count(s.push(x), sep, params) == children_count(s, sep, params) + contribution_count(x, sep, params),
    decreases s.len(),
{
    let sx = s.push(x);
    if s.len() == 0 {
        assert(sx.drop_first() =~= s);
        assert(out1 + out2 =~= out2);
        assert(out2.take(out2.len() as int) =~= out2);
        assert(out2.skip(out2.len() as int) =~= out1);
    } else {
        let k = contribution_count(s[0], sep, params);
        assert(sx[0] == s[0]);
        assert(sx.drop_first() =~= s.drop_first().push(x));
        lemma_children_push(s.drop_first(), x, sep, path, naming, params, out1.skip(k as int), out2);
        assert((out1 + out2).take(k as int) =~= out1.take(k as int));
        assert((out1 + out2).skip(k as int) =~= out1.skip(k as int) + out2);
    }
}

/// Whether the group is dissolved into its parent, whose separation is `parent_sep`.
pub fn should_dissolve(g: &GroupInfo, parent_sep: Option<Distance>, params: Params) -> (r: bool)
    requires
        params.depth >= 0,
    ensures
        r == dissolves(*g, parent_sep, params),
{
    match g.strength {
        StrengthInfo::Known { strength, .. } => {
            let psep = match parent_sep {
                Some(s) => s,
                None => u64::MAX,
            };
            psep < params.minimum_distance || strength < MAX_DEPTH - params.depth
        },
        StrengthInfo::Root => false,
        StrengthInfo::LessThan2ChildrenWithLocation => true,
        StrengthInfo::NoSiblings => false,
    }
}

/// The data of a final node made of the deep node data `n`, under dissolved groups that handed
/// down `path` and `naming`.
fn final_info<'s, Item: SortableItem, NDItem: Copy, NameErr: Clone>(
    n: &DeepNodeInfo<'s, Item, NDItem, NameErr>,
    path: &Vec<HorizontalIdx>,
    naming: &Vec<NDItem>,
) -> (r: NodeInfo<NDItem, NameErr>)
    ensures
        info_matches(*n, path@, naming@, r),
{
    let mut local_id_path = copy_vec(path);
    local_id_path.push(n.id);
    let name = match n.get_naming_data() {
        None => None,
        Some(Ok(v)) => {
            let mut v = v;
            let mut w = copy_vec(naming);
            v.append(&mut w);
            Some(Ok(v))
        },
        Some(Err(e)) => Some(Err(e)),
    };
    NodeInfo { local_id_path, name }
}

/// `naming` followed by the name the group of data `n` hands down to its children.
fn hand_down_name<'s, Item: SortableItem, NDItem: Copy, NameErr>(
    n: &DeepNodeInfo<'s, Item, NDItem, NameErr>,
    naming: &Vec<NDItem>,
) -> (r: Vec<NDItem>)
    ensures
        r@ == naming@ + handed_down_name(*n),
{
    let mut r = copy_vec(naming);
    match n.static_info {
        Some(info) => match &info.naming_data {
            Some(Ok(v)) => {
                let mut w = copy_vec(v);
                r.append(&mut w);
            },
            _ => {
                assert(r@ =~= naming@ + handed_down_name(*n));
            },
        },
        None => {
            assert(r@ =~= naming@ + handed_down_name(*n));
        },
    }
    r
}

/// Appends to `out` what the deep node `n` contributes to the final hierarchy.
fn contribute<'s, Item: SortableItem, NDItem: Copy, NameErr: Clone>(
    params: Params,
    n: &DeepNode<'s, Item, NDItem, NameErr>,
    parent_sep: Option<Distance>,
    path: &Vec<HorizontalIdx>,
    naming: &Vec<NDItem>,
    out: &mut Vec<FinalNode<'s, Item, NDItem, NameErr>>,
)
    requires
        params.depth >= 0,
    ensures
        final(out)@.len() == old(out)@.len() + contribution_count(*n, parent_sep, params),
        final(out)@.take(old(out)@.len() as int) == old(out)@,
        contributes(*n, parent_sep, path@, naming@, params, final(out)@.skip(old(out)@.len() as int)),
    decreases n,
{
    let ghost old_out = out@;
    match n {
        Node::Leaf(l) => {
            let node_data = final_info(&l.node_data, path, naming);
            out.push(Node::Leaf(Leaf { leaf_data: l.leaf_data, node_data }));
            proof {
                assert(out@.skip(old_out.len() as int) =~= seq![out@.last()]);
                assert(out@.take(old_out.len() as int) =~= old_out);
            }
        },
        Node::Group(g) => {
            if should_dissolve(&g.group_data, parent_sep, params) {
                let mut path2 = copy_vec(path);
                path2.push(g.node_data.id);
                let naming2 = hand_down_name(&g.node_data, naming);
                contribute_children(params, &g.children, g.group_data.separation, &path2, &naming2, out);
            } else {
                let rg = kept_group(params, g, path, naming);
                out.push(Node::Group(rg));
                proof {
                    assert(out@.skip(old_out.len() as int) =~= seq![out@.last()]);
                    assert(out@.take(old_out.len() as int) =~= old_out);
                }
            }
        },
    }
}

/// The final group made of the kept deep group `g`.
fn kept_group<'s, Item: SortableItem, NDItem: Copy, NameErr: Clone>(
    params: Params,
    g: &Group<GroupInfo, &'s Item, DeepNodeInfo<'s, Item, NDItem, NameErr>>,
    path: &Vec<HorizontalIdx>,
    naming: &Vec<NDItem>,
) -> (rg: Group<GroupInfo, &'s Item, NodeInfo<NDItem, NameErr>>)
    requires
        params.depth >= 0,
    ensures
        kept_group_matches(*g, path@, naming@, params, rg),
    decreases g,
{
    let mut children: Vec<FinalNode<'s, Item, NDItem, NameErr>> = Vec::new();
    let empty_path: Vec<HorizontalIdx> = Vec::new();
    let empty_naming: Vec<NDItem> = Vec::new();
    contribute_children(params, &g.children, g.group_data.separation, &empty_path, &empty_naming, &mut children);
    proof {
        assert(children@.skip(0) =~= children@);
    }
    let node_data = final_info(&g.node_data, path, naming);
    Group { children, group_data: g.group_data, node_data }
}

/// Appends to `out` what the deep nodes `children`, children of a group of separation `sep`,
/// contribute.
fn contribute_children<'s, Item: SortableItem, NDItem: Copy, NameErr: Clone>(
    params: Params,
    children: &Vec<DeepNode<'s, Item, NDItem, NameErr>>,
    sep: Option<Distance>,
    path: &Vec<HorizontalIdx>,
    naming: &Vec<NDItem>,
    out: &mut Vec<FinalNode<'s, Item, NDItem, NameErr>>,
)
    requires
        params.depth >= 0,
    ensures
        final(out)@.len() == old(out)@.len() + children_count(children@, sep, params),
        final(out)@.take(old(out)@.len() as int) == old(out)@,
        children_contribute(children@, sep, path@, naming@, params, final(out)@.skip(old(out)@.len() as int)),
    decreases children,
{
    let ghost old_out = out@;
    let ghost base = old_out.len() as int;
    proof {
        assert(children@.take(0) =~= Seq::<DeepNode<'s, Item, NDItem, NameErr>>::empty());
        assert(out@.skip(base) =~= Seq::<FinalNode<'s, Item, NDItem, NameErr>>::empty());
        assert(out@.take(base) =~= old_out);
    }
    for i in 0..children.len()
        invariant
            params.depth >= 0,
            base == old_out.len(),
            out@.len() == base + children_count(children@.take(i as int), sep, params),
            out@.take(base) == old_out,
            children_contribute(children@.take(i as int), sep, path@, naming@, params, out@.skip(base)),
    {
        let ghost before = out@;
        proof {
            assert(decreases_to!(children => children@[i as int]));
        }
        contribute(params, &children[i], sep, path, naming, out);
        proof {
            let out1 = before.skip(base);
            let out2 = out@.skip(before.len() as int);
            lemma_children_push(children@.take(i as int), children@[i as int], sep, path@, naming@, params, out1, out2);
            assert(children@.take(i as int).push(children@[i as int]) =~= children@.take(i + 1));
            assert forall|k: int| 0 <= k < before.len() implies out@[k] == before[k] by {
                assert(out@.take(before.len() as int)[k] == out@[k]);
            }
            assert(out@.skip(base) =~= out1 + out2);
            assert(out@.take(base) =~= old_out) by {
                assert(before.take(base) == old_out);
            }
        }
    }
    proof {
        assert(children@.take(children@.len() as int) =~= children@);
    }
}

/// Turns the deep hierarchy into the final one: every group that [dissolves](dissolves) is
/// replaced by its children, which take over its id (at the front of their `local_id_path`)
/// and its name (at the end of theirs). The root always stays.
pub fn dissolve_weak_groups<'s, Item: SortableItem, NDItem: Copy, NameErr: Clone>(
    deep: &ConcreteHiearchy<GroupInfo, &'s Item, DeepNodeInfo<'s, Item, NDItem, NameErr>>,
    params: Params,
) -> (r: ConcreteHiearchy<GroupInfo, &'s Item, NodeInfo<NDItem, NameErr>>)
    requires
        params.depth >= 0,
    ensures
        kept_group_matches(deep.root_group, Seq::empty(), Seq::empty(), params, r.root_group),
{
    let empty_path: Vec<HorizontalIdx> = Vec::new();
    let empty_naming: Vec<NDItem> = Vec::new();
    ConcreteHiearchy { root_group: kept_group(params, &deep.root_group, &empty_path, &empty_naming) }
}

/// Another handle on the same shared value.
#[verifier::external_body]
fn share<T>(a: &Arc<T>) -> (r: Arc<T>)
    ensures
        *r == **a,
{
    Arc::clone(a)
}

/// Sorts items into the final hierarchy: the deep hierarchy, with the groups that are too weak
/// for the parameters dissolved.
pub struct Sorter<Item: SortableItem, NDItem, NameErr> {
    deep_sorter: Arc<DeepSorter<Item, NDItem, NameErr>>,
    params: Params,
}

impl<Item: SortableItem, NDItem, NameErr> Sorter<Item, NDItem, NameErr> {
    /// The deep sorter underneath.
    pub closed spec fn deep(&self) -> DeepSorter<Item, NDItem, NameErr> {
        *self.deep_sorter
    }

    /// The parameters.
    pub closed spec fn spec_params(&self) -> Params {
        self.params
    }

    /// This sorts all items to binary tree, potentially long-running
    ///
    /// Items without a position are left out; at least one item must have a position, and all
    /// items with a position must come from one camera.
    pub fn new(items: Vec<Item>, params: Params) -> (s: Self)
        requires
            exists|i: int| 0 <= i < items.len() && (#[trigger] items@[i]).position() is Some,
            2 * items.len() <= u64::MAX,
            forall|i: int, j: int|
                0 <= i < items.len() && 0 <= j < items.len() && items@[i].position() is Some && items@[j].position() is Some
                ==> (#[trigger] items@[i]).camera() == (#[trigger] items@[j]).camera(),
        ensures
            is_stable_sort_by_time(with_position(items@), leaves(s.deep().tree())),
            is_max_gap_tree(s.deep().tree()),
            info_correct(s.deep().tree()),
            node_ids(s.deep().tree()) == Set::new(|id: u64| id < 2 * leaves(s.deep().tree()).len() - 1),
            s.spec_params() == params,
    {
        Self { deep_sorter: Arc::new(DeepSorter::new(items)), params }
    }

    pub fn deep_sorter(&self) -> (r: &DeepSorter<Item, NDItem, NameErr>)
        ensures
            *r == self.deep(),
    {
        &*self.deep_sorter
    }

    pub fn deep_sorter_rc(&self) -> (r: Arc<DeepSorter<Item, NDItem, NameErr>>)
        ensures
            *r == self.deep(),
    {
        share(&self.deep_sorter)
    }

    pub fn params(&self) -> (r: &Params)
        ensures
            *r == self.spec_params(),
    {
        &self.params
    }

    pub fn params_mut(&mut self) -> (r: &mut Params)
        ensures
            *r == old(self).spec_params(),
            final(self).spec_params() == *final(r),
            final(self).deep() == old(self).deep(),
    {
        &mut self.params
    }
}

impl<Item: SortableItem, NDItem: Copy, NameErr: Clone> Sorter<Item, NDItem, NameErr> {
    /// The final hierarchy. `strength_of` computes the strength of a group from the separation
    /// of its parent and its own (see [`DeepSorter::deep_hierarchy`]).
    pub fn hierarchy<'s, F: Fn(Distance, Distance) -> Strength>(&'s self, strength_of: F) -> (r: ConcreteHiearchy<
        GroupInfo,
        &'s Item,
        NodeInfo<NDItem, NameErr>,
    >)
        requires
            self.deep().tree() is InnerNode,
            self.spec_params().depth >= 0,
            forall|p: Distance, q: Distance| strength_of.requires((p, q)),
        ensures
            exists|d: ConcreteHiearchy<GroupInfo, &'s Item, DeepNodeInfo<'s, Item, NDItem, NameErr>>|
                #[trigger] deep_matches(self.deep().tree(), Node::Group(d.root_group), HorizontalIdx::Left, None, strength_of)
                && kept_group_matches(d.root_group, Seq::empty(), Seq::empty(), self.spec_params(), r.root_group),
            deref_items(children_leaves(r.root_group.children@)) == leaves(self.deep().tree()),
    {
        let deep = self.deep_sorter.deep_hierarchy(strength_of);
        let r = dissolve_weak_groups(&deep, self.params);
        proof {
            lemma_deep_leaves(self.deep().tree(), Node::Group(deep.root_group), HorizontalIdx::Left, None, strength_of);
            lemma_dissolve_keeps_leaves(deep.root_group, Seq::empty(), Seq::empty(), self.params, r.root_group);
        }
        r
    }
}

/// Dissolving groups keeps every item, in order: the final group made of a kept deep group has
/// the same leaves as the deep group.
pub proof fn lemma_dissolve_keeps_leaves<'s, Item: SortableItem, NDItem, NameErr: Clone>(
    g: Group<GroupInfo, &'s Item, DeepNodeInfo<'s, Item, NDItem, NameErr>>,
    path: Seq<HorizontalIdx>,
    naming: Seq<NDItem>,
    params: Params,
    rg: Group<GroupInfo, &'s Item, NodeInfo<NDItem, NameErr>>,
)
    requires
        kept_group_matches(g, path, naming, params, rg),
    ensures
        children_leaves(rg.children@) == children_leaves(g.children@),
    decreases g,
{
    lemma_children_contribute_leaves(g.children@, g.group_data.separation, Seq::empty(), Seq::empty(), params, rg.children@);
}

proof fn lemma_contributes_leaves<'s, Item: SortableItem, NDItem, NameErr: Clone>(
    n: DeepNode<'s, Item, NDItem, NameErr>,
    parent_sep: Option<Distance>,
    path: Seq<HorizontalIdx>,
    naming: Seq<NDItem>,
    params: Params,
    out: Seq<FinalNode<'s, Item, NDItem, NameErr>>,
)
    requires
        contributes(n, parent_sep, path, naming, params, out),
    ensures
        children_leaves(out) == node_leaves(n),
    decreases n,
{
    let e = Seq::<FinalNode<'s, Item, NDItem, NameErr>>::empty();
    match n {
        Node::Leaf(l) => {
            assert(out.drop_first() =~= e);
            assert(children_leaves(e) =~= Seq::<&'s Item>::empty());
            assert(children_leaves(out) =~= node_leaves(out[0]));
        },
        Node::Group(g) => {
            if dissolves(g.group_data, parent_sep, params) {
                lemma_children_contribute_leaves(
                    g.children@,
                    g.group_data.separation,
                    path.push(g.node_data.id),
                    naming + handed_down_name(g.node_data),
                    params,
                    out,
                );
            } else {
                let rg = out[0]->Group_0;
                lemma_dissolve_keeps_leaves(g, path, naming, params, rg);
                assert(out.drop_first() =~= e);
                assert(children_leaves(e) =~= Seq::<&'s Item>::empty());
                assert(children_leaves(out) =~= node_leaves(out[0]));
            }
        },
    }
}

proof fn lemma_children_contribute_leaves<'s, Item: SortableItem, NDItem, NameErr: Clone>(
    s: Seq<DeepNode<'s, Item, NDItem, NameErr>>,
    sep: Option<Distance>,
    path: Seq<HorizontalIdx>,
    naming: Seq<NDItem>,
    params: Params,
    out: Seq<FinalNode<'s, Item, NDItem, NameErr>>,
)
    requires
        children_contribute(s, sep, path, naming, params, out),
    ensures
        children_leaves(out) == children_leaves(s),
    decreases s,
{
    if s.len() == 0 {
        assert(out =~= Seq::<FinalNode<'s, Item, NDItem, NameErr>>::empty());
    } else {
        let k = contribution_count(s[0], sep, params);
        lemma_contributes_leaves(s[0], sep, path, naming, params, out.take(k as int));
        lemma_children_contribute_leaves(s.drop_first(), sep, path, naming, params, out.skip(k as int));
        assert(out =~= out.take(k as int) + out.skip(k as int));
        lemma_children_leaves_append(out.take(k as int), out.skip(k as int));
    }
}

/// Every node of `out` is a leaf.
pub open spec fn leaf_nodes<'s, Item: SortableItem, NDItem, NameErr>(out: Seq<FinalNode<'s, Item, NDItem, NameErr>>) -> bool {
    forall|i: int| 0 <= i < out.len() ==> (#[trigger] out[i]) is Leaf
}

proof fn lemma_leaf_nodes_append<'s, Item: SortableItem, NDItem, NameErr>(
    a: Seq<FinalNode<'s, Item, NDItem, NameErr>>,
    b: Seq<FinalNode<'s, Item, NDItem, NameErr>>,
)
    requires
        leaf_nodes(a),
        leaf_nodes(b),
    ensures
        leaf_nodes(a + b),
{
    assert forall|i: int| 0 <= i < (a + b).len() implies (#[trigger] (a + b)[i]) is Leaf by {
        if i < a.len() {
            assert((a + b)[i] == a[i]);
        } else {
            assert((a + b)[i] == b[i - a.len()]);
        }
    }
}

/// In the freshly sorted tree the separation of a group is its split distance.
proof fn lemma_separation_is_split<Item: SortableItem, NDItem, NameErr>(
    t: BinTree<Item, StaticNodeInfo<Item, NDItem, NameErr, False>>,
)
    requires
        t is InnerNode,
        info_correct(t),
    ensures
        separation_of(t->InnerNode_0) == split_gap(t->InnerNode_0),
{
    let n = t->InnerNode_0;
    reveal_with_fuel(info_correct, 2);
    lemma_leaves_nonempty(n.positioned_children.0);
    lemma_leaves_nonempty(n.positioned_children.1);
    assert(info_of_items(node_info_of(n.positioned_children.0), leaves(n.positioned_children.0)));
    assert(info_of_items(node_info_of(n.positioned_children.1), leaves(n.positioned_children.1)));
}

/// The two children of a group of separation `sep` below the minimum distance contribute
/// only leaves: the items of the group, in order.
proof fn lemma_children_flat<'s, Item: SortableItem, NDItem, NameErr: Clone, F: Fn(Distance, Distance) -> Strength>(
    t: BinTree<Item, StaticNodeInfo<Item, NDItem, NameErr, False>>,
    g: Group<GroupInfo, &'s Item, DeepNodeInfo<'s, Item, NDItem, NameErr>>,
    idx: HorizontalIdx,
    parent: Option<Option<Distance>>,
    f: F,
    path: Seq<HorizontalIdx>,
    naming: Seq<NDItem>,
    params: Params,
    out: Seq<FinalNode<'s, Item, NDItem, NameErr>>,
)
    requires
        t is InnerNode,
        is_max_gap_tree(t),
        info_correct(t),
        deep_matches(t, Node::Group(g), idx, parent, f),
        split_gap(t->InnerNode_0) < params.minimum_distance,
        children_contribute(g.children@, g.group_data.separation, path, naming, params, out),
    ensures
        leaf_nodes(out),
        deref_items(children_leaves(out)) == leaves(t),
    decreases t, 0nat,
{
    let bn = t->InnerNode_0;
    let (l, r) = *bn.positioned_children;
    let sep = split_gap(bn);
    lemma_separation_is_split(t);
    lemma_leaves_nonempty(l);
    lemma_leaves_nonempty(r);
    let c = g.children@;
    assert(bn.additional_middle_leaves@.len() == 0);
    assert(c.len() == 2);
    let s = Some(sep);
    let k0 = contribution_count(c[0], s, params);
    let rest = out.skip(k0 as int);
    let k1 = contribution_count(c[1], s, params);
    assert(c.drop_first() =~= seq![c[1]]);
    assert(seq![c[1]].drop_first() =~= Seq::<DeepNode<'s, Item, NDItem, NameErr>>::empty());
    assert(c.last() == c[1]);
    assert(children_contribute(seq![c[1]], s, path, naming, params, rest));
    reveal_with_fuel(children_contribute, 2);
    lemma_gaps_split(bn);
    lemma_flat(l, c[0], HorizontalIdx::Left, sep, f, path, naming, params, out.take(k0 as int));
    lemma_flat(r, c[1], HorizontalIdx::Right, sep, f, path, naming, params, rest.take(k1 as int));
    assert(rest.skip(k1 as int).len() == 0);
    assert(rest =~= rest.take(k1 as int));
    assert(out =~= out.take(k0 as int) + rest);
    lemma_leaf_nodes_append(out.take(k0 as int), rest);
    lemma_children_leaves_append(out.take(k0 as int), rest);
    assert(leaves(t) =~= leaves(l) + leaves(r));
    assert(deref_items(children_leaves(out)) =~= deref_items(children_leaves(out.take(k0 as int))) + deref_items(children_leaves(rest)));
}

/// The gaps inside the children of a split node are not larger than its split distance.
proof fn lemma_gaps_split<Item: SortableItem, ND>(bn: BTInnerNode<Item, ND>)
    requires
        is_max_gap_tree(BinTree::InnerNode(bn)),
    ensures
        gaps_below(leaves(bn.positioned_children.0), split_gap(bn), false),
        gaps_below(leaves(bn.positioned_children.1), split_gap(bn), false),
{
    let l = leaves(bn.positioned_children.0);
    assert forall|i: int| 0 <= i < l.len() - 1 implies gap_at(l, i) <= split_gap(bn) by {
        assert(gap_at(l, i) < split_gap(bn));
    }
}

/// A node below a group of separation `p` below the minimum distance, in a tree where no gap
/// exceeds `p`, contributes only leaves: its items, in order.
proof fn lemma_flat<'s, Item: SortableItem, NDItem, NameErr: Clone, F: Fn(Distance, Distance) -> Strength>(
    t: BinTree<Item, StaticNodeInfo<Item, NDItem, NameErr, False>>,
    n: DeepNode<'s, Item, NDItem, NameErr>,
    idx: HorizontalIdx,
    p: Distance,
    f: F,
    path: Seq<HorizontalIdx>,
    naming: Seq<NDItem>,
    params: Params,
    out: Seq<FinalNode<'s, Item, NDItem, NameErr>>,
)
    requires
        is_max_gap_tree(t),
        info_correct(t),
        deep_matches(t, n, idx, Some(Some(p)), f),
        p < params.minimum_distance,
        gaps_below(leaves(t), p, false),
        contributes(n, Some(p), path, naming, params, out),
    ensures
        leaf_nodes(out),
        deref_items(children_leaves(out)) == leaves(t),
    decreases t, 1nat,
{
    match t {
        BinTree::Leaf(item, _, _) => {
            let e = Seq::<FinalNode<'s, Item, NDItem, NameErr>>::empty();
            assert(out =~= seq![out[0]]);
            lemma_children_leaves_single(out[0]);
            assert(deref_items(children_leaves(out)) =~= seq![item]);
        },
        BinTree::InnerNode(bn) => {
            let g = n->Group_0;
            let (l, r) = *bn.positioned_children;
            lemma_leaves_nonempty(l);
            lemma_leaves_nonempty(r);
            lemma_separation_is_split(t);
            let s = leaves(t);
            assert(bn.additional_middle_leaves@.map_values(|q: (Item, u64)| q.0) =~= Seq::<Item>::empty());
            assert(s =~= leaves(l) + leaves(r));
            let k = leaves(l).len() - 1;
            assert(s[k] == leaves(l).last() && s[k + 1] == leaves(r)[0]);
            assert(gap_at(s, k) == split_gap(bn));
            assert(split_gap(bn) <= p);
            assert(dissolves(g.group_data, Some(p), params));
            lemma_children_flat(
                t,
                g,
                idx,
                Some(Some(p)),
                f,
                path.push(g.node_data.id),
                naming + handed_down_name(g.node_data),
                params,
                out,
            );
        },
    }
}

/// Items closer than the minimum distance are never separated: a group of the deep hierarchy
/// (made of the freshly sorted tree `t`) whose separation is below the minimum distance puts all
/// its items, in order, directly into one group of the final hierarchy: the group it becomes
/// when it stays, or the group it is dissolved into. (Two neighbouring items are split by the
/// group whose separation is the distance between them.)
pub proof fn lemma_close_items_stay_together<'s, Item: SortableItem, NDItem, NameErr: Clone, F: Fn(Distance, Distance) -> Strength>(
    t: BinTree<Item, StaticNodeInfo<Item, NDItem, NameErr, False>>,
    n: DeepNode<'s, Item, NDItem, NameErr>,
    idx: HorizontalIdx,
    parent: Option<Option<Distance>>,
    f: F,
    parent_sep: Option<Distance>,
    path: Seq<HorizontalIdx>,
    naming: Seq<NDItem>,
    params: Params,
    out: Seq<FinalNode<'s, Item, NDItem, NameErr>>,
)
    requires
        t is InnerNode,
        is_max_gap_tree(t),
        info_correct(t),
        deep_matches(t, n, idx, parent, f),
        separation_of(t->InnerNode_0) < params.minimum_distance,
        contributes(n, parent_sep, path, naming, params, out),
    ensures
        deref_items(children_leaves(out)) == leaves(t),
        n is Group,
        if dissolves(n->Group_0.group_data, parent_sep, params) {
            leaf_nodes(out)
        } else {
            out.len() == 1 && out[0] is Group && leaf_nodes(out[0]->Group_0.children@)
        },
{
    let g = n->Group_0;
    lemma_separation_is_split(t);
    if dissolves(g.group_data, parent_sep, params) {
        lemma_children_flat(
            t,
            g,
            idx,
            parent,
            f,
            path.push(g.node_data.id),
            naming + handed_down_name(g.node_data),
            params,
            out,
        );
    } else {
        let rg = out[0]->Group_0;
        lemma_children_flat(t, g, idx, parent, f, Seq::empty(), Seq::empty(), params, rg.children@);
        assert(out =~= seq![out[0]]);
        lemma_children_leaves_single(out[0]);
    }
}

/// The items below the deep node `n`, in order, each with its identification path: the ids of
/// the nodes from the top down to it, after `prefix`.
pub open spec fn deep_leaf_paths<'s, Item: SortableItem, NDItem, NameErr>(
    n: DeepNode<'s, Item, NDItem, NameErr>,
    prefix: Seq<HorizontalIdx>,
) -> Seq<(&'s Item, Seq<HorizontalIdx>)>
    decreases n,
{
    match n {
        Node::Leaf(l) => seq![(l.leaf_data, prefix.push(l.node_data.id))],
        Node::Group(g) => deep_children_paths(g.children@, prefix.push(g.node_data.id)),
    }
}

/// [`deep_leaf_paths`] of a sequence of nodes, one after the other.
pub open spec fn deep_children_paths<'s, Item: SortableItem, NDItem, NameErr>(
    s: Seq<DeepNode<'s, Item, NDItem, NameErr>>,
    prefix: Seq<HorizontalIdx>,
) -> Seq<(&'s Item, Seq<HorizontalIdx>)>
    decreases s,
{
    if s.len() == 0 {
        Seq::empty()
    } else {
        deep_leaf_paths(s[0], prefix) + deep_children_paths(s.drop_first(), prefix)
    }
}

/// The items below the final node `n`, in order, each with its identification path: the
/// `local_id_path`s of the nodes from the top down to it, joined, after `prefix`.
pub open spec fn final_leaf_paths<'s, Item: SortableItem, NDItem, NameErr>(
    n: FinalNode<'s, Item, NDItem, NameErr>,
    prefix: Seq<HorizontalIdx>,
) -> Seq<(&'s Item, Seq<HorizontalIdx>)>
    decreases n,
{
    match n {
        Node::Leaf(l) => seq![(l.leaf_data, prefix + l.node_data.local_id_path@)],
        Node::Group(g) => final_children_paths(g.children@, prefix + g.node_data.local_id_path@),
    }
}

/// [`final_leaf_paths`] of a sequence of nodes, one after the other.
pub open spec fn final_children_paths<'s, Item: SortableItem, NDItem, NameErr>(
    s: Seq<FinalNode<'s, Item, NDItem, NameErr>>,
    prefix: Seq<HorizontalIdx>,
) -> Seq<(&'s Item, Seq<HorizontalIdx>)>
    decreases s,
{
    if s.len() == 0 {
        Seq::empty()
    } else {
        final_leaf_paths(s[0], prefix) + final_children_paths(s.drop_first(), prefix)
    }
}

proof fn lemma_final_children_paths_append<'s, Item: SortableItem, NDItem, NameErr>(
    a: Seq<FinalNode<'s, Item, NDItem, NameErr>>,
    b: Seq<FinalNode<'s, Item, NDItem, NameErr>>,
    prefix: Seq<HorizontalIdx>,
)
    ensures
        final_children_paths(a + b, prefix) == final_children_paths(a, prefix) + final_children_paths(b, prefix),
    decreases a.len(),
{
    if a.len() == 0 {
        assert(a + b =~= b);
        assert(final_children_paths(a, prefix) + final_children_paths(b, prefix) =~= final_children_paths(b, prefix));
    } else {
        assert((a + b)[0] == a[0]);
        assert((a + b).drop_first() =~= a.drop_first() + b);
        lemma_final_children_paths_append(a.drop_first(), b, prefix);
        assert(final_children_paths(a + b, prefix) =~= final_children_paths(a, prefix) + final_children_paths(b, prefix));
    }
}

proof fn lemma_contributes_paths<'s, Item: SortableItem, NDItem, NameErr: Clone>(
    n: DeepNode<'s, Item, NDItem, NameErr>,
    parent_sep: Option<Distance>,
    path: Seq<HorizontalIdx>,
    naming: Seq<NDItem>,
    params: Params,
    out: Seq<FinalNode<'s, Item, NDItem, NameErr>>,
    prefix: Seq<HorizontalIdx>,
)
    requires
        contributes(n, parent_sep, path, naming, params, out),
    ensures
        final_children_paths(out, prefix) == deep_leaf_paths(n, prefix + path),
    decreases n,
{
    let e = Seq::<FinalNode<'s, Item, NDItem, NameErr>>::empty();
    match n {
        Node::Leaf(l) => {
            assert(out.drop_first() =~= e);
            assert(final_children_paths(e, prefix) =~= Seq::<(&'s Item, Seq<HorizontalIdx>)>::empty());
            let rl = out[0]->Leaf_0;
            assert(prefix + rl.node_data.local_id_path@ =~= (prefix + path).push(l.node_data.id));
            assert(final_children_paths(out, prefix) =~= final_leaf_paths(out[0], prefix));
        },
        Node::Group(g) => {
            if dissolves(g.group_data, parent_sep, params) {
                lemma_children_contribute_paths(
                    g.children@,
                    g.group_data.separation,
                    path.push(g.node_data.id),
                    naming + handed_down_name(g.node_data),
                    params,
                    out,
                    prefix,
                );
                assert(prefix + path.push(g.node_data.id) =~= (prefix + path).push(g.node_data.id));
            } else {
                let rg = out[0]->Group_0;
                let p2 = prefix + rg.node_data.local_id_path@;
                lemma_children_contribute_paths(
                    g.children@,
                    g.group_data.separation,
                    Seq::empty(),
                    Seq::empty(),
                    params,
                    rg.children@,
                    p2,
                );
                assert(p2 + Seq::<HorizontalIdx>::empty() =~= p2);
                assert(p2 =~= (prefix + path).push(g.node_data.id));
                assert(out.drop_first() =~= e);
                assert(final_children_paths(e, prefix) =~= Seq::<(&'s Item, Seq<HorizontalIdx>)>::empty());
                assert(final_children_paths(out, prefix) =~= final_leaf_paths(out[0], prefix));
            }
        },
    }
}

proof fn lemma_children_contribute_paths<'s, Item: SortableItem, NDItem, NameErr: Clone>(
    s: Seq<DeepNode<'s, Item, NDItem, NameErr>>,
    sep: Option<Distance>,
    path: Seq<HorizontalIdx>,
    naming: Seq<NDItem>,
    params: Params,
    out: Seq<FinalNode<'s, Item, NDItem, NameErr>>,
    prefix: Seq<HorizontalIdx>,
)
    requires
        children_contribute(s, sep, path, naming, params, out),
    ensures
        final_children_paths(out, prefix) == deep_children_paths(s, prefix + path),
    decreases s,
{
    if s.len() == 0 {
        assert(out =~= Seq::<FinalNode<'s, Item, NDItem, NameErr>>::empty());
    } else {
        let k = contribution_count(s[0], sep, params);
        lemma_contributes_paths(s[0], sep, path, naming, params, out.take(k as int), prefix);
        lemma_children_contribute_paths(s.drop_first(), sep, path, naming, params, out.skip(k as int), prefix);
        assert(out =~= out.take(k as int) + out.skip(k as int));
        lemma_final_children_paths_append(out.take(k as int), out.skip(k as int), prefix);
    }
}

/// Every item keeps its identification path, whatever the parameters: joining the
/// `local_id_path`s from the root of the final hierarchy down to an item gives the ids of the
/// nodes from the root of the deep hierarchy down to it. So the final hierarchies made with two
/// sets of parameters hold the same items with the same identification paths.
pub proof fn lemma_identification_paths_kept<'s, Item: SortableItem, NDItem, NameErr: Clone>(
    deep: Group<GroupInfo, &'s Item, DeepNodeInfo<'s, Item, NDItem, NameErr>>,
    params1: Params,
    final1: Group<GroupInfo, &'s Item, NodeInfo<NDItem, NameErr>>,
    params2: Params,
    final2: Group<GroupInfo, &'s Item, NodeInfo<NDItem, NameErr>>,
)
    requires
        kept_group_matches(deep, Seq::empty(), Seq::empty(), params1, final1),
        kept_group_matches(deep, Seq::empty(), Seq::empty(), params2, final2),
    ensures
        final_leaf_paths(Node::Group(final1), Seq::empty()) == deep_leaf_paths(Node::Group(deep), Seq::empty()),
        final_leaf_paths(Node::Group(final2), Seq::empty()) == final_leaf_paths(Node::Group(final1), Seq::empty()),
{
    lemma_kept_paths(deep, params1, final1);
    lemma_kept_paths(deep, params2, final2);
}

proof fn lemma_kept_paths<'s, Item: SortableItem, NDItem, NameErr: Clone>(
    deep: Group<GroupInfo, &'s Item, DeepNodeInfo<'s, Item, NDItem, NameErr>>,
    params: Params,
    fin: Group<GroupInfo, &'s Item, NodeInfo<NDItem, NameErr>>,
)
    requires
        kept_group_matches(deep, Seq::empty(), Seq::empty(), params, fin),
    ensures
        final_leaf_paths(Node::Group(fin), Seq::empty()) == deep_leaf_paths(Node::Group(deep), Seq::empty()),
{
    let e = Seq::<HorizontalIdx>::empty();
    let p = e + fin.node_data.local_id_path@;
    lemma_children_contribute_paths(deep.children@, deep.group_data.separation, e, Seq::empty(), params, fin.children@, p);
    assert(p + e =~= p);
    assert(p =~= e.push(deep.node_data.id));
}


/// The id of a node of the deep hierarchy: its position in its parent.
pub open spec fn deep_node_id<'s, Item: SortableItem, NDItem, NameErr>(n: DeepNode<'s, Item, NDItem, NameErr>) -> HorizontalIdx {
    match n {
        Node::Leaf(l) => l.node_data.id,
        Node::Group(g) => g.node_data.id,
    }
}

/// In the deep node `n` and below it, siblings have different ids.
pub open spec fn ids_distinct<'s, Item: SortableItem, NDItem, NameErr>(n: DeepNode<'s, Item, NDItem, NameErr>) -> bool
    decreases n,
{
    match n {
        Node::Leaf(_) => true,
        Node::Group(g) => children_ids_distinct(g.children@),
    }
}

/// The deep nodes `s`, siblings, have different ids, and so do the siblings below each of them.
pub open spec fn children_ids_distinct<'s, Item: SortableItem, NDItem, NameErr>(
    s: Seq<DeepNode<'s, Item, NDItem, NameErr>>,
) -> bool
    decreases s,
{
    s.len() == 0 || {
        &&& forall|j: int| 1 <= j < s.len() ==> deep_node_id(#[trigger] s[j]) != deep_node_id(s[0])
        &&& ids_distinct(s[0])
        &&& children_ids_distinct(s.drop_first())
    }
}

/// No two items of `x` have the same identification path.
pub open spec fn paths_distinct<'s, Item>(x: Seq<(&'s Item, Seq<HorizontalIdx>)>) -> bool {
    forall|i: int, j: int| 0 <= i < x.len() && 0 <= j < x.len() && i != j ==> #[trigger] x[i].1 != #[trigger] x[j].1
}

proof fn lemma_deep_id<'s, Item: SortableItem, NDItem, NameErr, F: Fn(Distance, Distance) -> Strength>(
    t: BinTree<Item, StaticNodeInfo<Item, NDItem, NameErr, False>>,
    n: DeepNode<'s, Item, NDItem, NameErr>,
    idx: HorizontalIdx,
    parent: Option<Option<Distance>>,
    f: F,
)
    requires
        deep_matches(t, n, idx, parent, f),
    ensures
        deep_node_id(n) == idx,
{
    match t {
        BinTree::Leaf(..) => {},
        BinTree::InnerNode(_) => {},
    }
}

/// In a deep hierarchy made of a tree without middle leaves (as every max-gap tree is), the two
/// children of a group have the ids `Left` and `Right`.
pub proof fn lemma_deep_ids_distinct<'s, Item: SortableItem, NDItem, NameErr, F: Fn(Distance, Distance) -> Strength>(
    t: BinTree<Item, StaticNodeInfo<Item, NDItem, NameErr, False>>,
    n: DeepNode<'s, Item, NDItem, NameErr>,
    idx: HorizontalIdx,
    parent: Option<Option<Distance>>,
    f: F,
)
    requires
        deep_matches(t, n, idx, parent, f),
        is_max_gap_tree(t),
    ensures
        ids_distinct(n),
    decreases t,
{
    match t {
        BinTree::Leaf(..) => {},
        BinTree::InnerNode(bn) => {
            let g = n->Group_0;
            let c = g.children@;
            let sep = Some(separation_of(bn));
            lemma_deep_ids_distinct(bn.positioned_children.0, c[0], HorizontalIdx::Left, Some(sep), f);
            lemma_deep_ids_distinct(bn.positioned_children.1, c.last(), HorizontalIdx::Right, Some(sep), f);
            lemma_deep_id(bn.positioned_children.0, c[0], HorizontalIdx::Left, Some(sep), f);
            lemma_deep_id(bn.positioned_children.1, c.last(), HorizontalIdx::Right, Some(sep), f);
            assert(c.len() == 2);
            let rest = c.drop_first();
            assert(rest.drop_first() =~= Seq::<DeepNode<'s, Item, NDItem, NameErr>>::empty());
            assert(rest[0] == c.last());
            assert(children_ids_distinct(rest.drop_first()));
            assert(children_ids_distinct(rest));
            assert(deep_node_id(c[1]) != deep_node_id(c[0]));
            assert(children_ids_distinct(c));
        },
    }
}

proof fn lemma_deep_paths_start<'s, Item: SortableItem, NDItem, NameErr>(
    n: DeepNode<'s, Item, NDItem, NameErr>,
    prefix: Seq<HorizontalIdx>,
)
    ensures
        forall|k: int| 0 <= k < deep_leaf_paths(n, prefix).len() ==> {
            let p = #[trigger] deep_leaf_paths(n, prefix)[k].1;
            &&& p.len() > prefix.len()
            &&& p.take(prefix.len() as int) == prefix
            &&& p[prefix.len() as int] == deep_node_id(n)
        },
    decreases n,
{
    match n {
        Node::Leaf(l) => {
            let p = prefix.push(l.node_data.id);
            assert(p.take(prefix.len() as int) =~= prefix);
        },
        Node::Group(g) => {
            let q = prefix.push(g.node_data.id);
            lemma_children_paths_start(g.children@, q);
            assert forall|k: int| 0 <= k < deep_leaf_paths(n, prefix).len() implies {
                let p = #[trigger] deep_leaf_paths(n, prefix)[k].1;
                &&& p.len() > prefix.len()
                &&& p.take(prefix.len() as int) == prefix
                &&& p[prefix.len() as int] == deep_node_id(n)
            } by {
                let p = deep_leaf_paths(n, prefix)[k].1;
                assert(deep_children_paths(g.children@, q)[k].1 == p);
                assert(p.take(q.len() as int) == q);
                assert(p.take(q.len() as int)[prefix.len() as int] == p[prefix.len() as int]);
                assert(p.take(prefix.len() as int) =~= q.take(prefix.len() as int));
                assert(q.take(prefix.len() as int) =~= prefix);
            }
        },
    }
}

proof fn lemma_children_paths_start<'s, Item: SortableItem, NDItem, NameErr>(
    s: Seq<DeepNode<'s, Item, NDItem, NameErr>>,
    prefix: Seq<HorizontalIdx>,
)
    ensures
        forall|k: int| 0 <= k < deep_children_paths(s, prefix).len() ==> {
            let p = #[trigger] deep_children_paths(s, prefix)[k].1;
            &&& p.len() > prefix.len()
            &&& p.take(prefix.len() as int) == prefix
            &&& exists|j: int| 0 <= j < s.len() && p[prefix.len() as int] == deep_node_id(#[trigger] s[j])
        },
    decreases s,
{
    if s.len() > 0 {
        let a = deep_leaf_paths(s[0], prefix);
        let b = deep_children_paths(s.drop_first(), prefix);
        lemma_deep_paths_start(s[0], prefix);
        lemma_children_paths_start(s.drop_first(), prefix);
        assert forall|k: int| 0 <= k < deep_children_paths(s, prefix).len() implies {
            let p = #[trigger] deep_children_paths(s, prefix)[k].1;
            &&& p.len() > prefix.len()
            &&& p.take(prefix.len() as int) == prefix
            &&& exists|j: int| 0 <= j < s.len() && p[prefix.len() as int] == deep_node_id(#[trigger] s[j])
        } by {
            if k < a.len() {
                assert(deep_children_paths(s, prefix)[k] == a[k]);
                assert(deep_node_id(s[0]) == a[k].1[prefix.len() as int]);
            } else {
                assert(deep_children_paths(s, prefix)[k] == b[k - a.len()]);
                let j = choose|j: int| 0 <= j < s.drop_first().len()
                    && b[k - a.len()].1[prefix.len() as int] == deep_node_id(#[trigger] s.drop_first()[j]);
                assert(s.drop_first()[j] == s[j + 1]);
            }
        }
    }
}

proof fn lemma_deep_paths_distinct<'s, Item: SortableItem, NDItem, NameErr>(
    n: DeepNode<'s, Item, NDItem, NameErr>,
    prefix: Seq<HorizontalIdx>,
)
    requires
        ids_distinct(n),
    ensures
        paths_distinct(deep_leaf_paths(n, prefix)),
    decreases n,
{
    match n {
        Node::Leaf(_) => {},
        Node::Group(g) => {
            lemma_children_paths_distinct(g.children@, prefix.push(g.node_data.id));
        },
    }
}

proof fn lemma_children_paths_distinct<'s, Item: SortableItem, NDItem, NameErr>(
    s: Seq<DeepNode<'s, Item, NDItem, NameErr>>,
    prefix: Seq<HorizontalIdx>,
)
    requires
        children_ids_distinct(s),
    ensures
        paths_distinct(deep_children_paths(s, prefix)),
    decreases s,
{
    if s.len() > 0 {
        let a = deep_leaf_paths(s[0], prefix);
        let b = deep_children_paths(s.drop_first(), prefix);
        let x = deep_children_paths(s, prefix);
        lemma_deep_paths_distinct(s[0], prefix);
        lemma_children_paths_distinct(s.drop_first(), prefix);
        lemma_deep_paths_start(s[0], prefix);
        lemma_children_paths_start(s.drop_first(), prefix);
        assert(x == a + b);
        assert forall|i: int, j: int| 0 <= i < x.len() && 0 <= j < x.len() && i != j implies #[trigger] x[i].1 != #[trigger] x[j].1 by {
            if i < a.len() && j < a.len() {
                assert(x[i] == a[i] && x[j] == a[j]);
            } else if i >= a.len() && j >= a.len() {
                assert(x[i] == b[i - a.len()] && x[j] == b[j - a.len()]);
            } else {
                let (u, v) = if i < a.len() { (i, j) } else { (j, i) };
                assert(x[u] == a[u]);
                assert(x[v] == b[v - a.len()]);
                assert(a[u].1[prefix.len() as int] == deep_node_id(s[0]));
                let w = choose|w: int| 0 <= w < s.drop_first().len()
                    && b[v - a.len()].1[prefix.len() as int] == deep_node_id(#[trigger] s.drop_first()[w]);
                assert(s.drop_first()[w] == s[w + 1]);
                assert(deep_node_id(s[w + 1]) != deep_node_id(s[0]));
            }
        }
    }
}

/// Every item has its own identification path: where siblings in the deep hierarchy have
/// different ids, no two items of the final hierarchy have the same identification path (the
/// `local_id_path`s from the root down to the item, joined).
pub proof fn lemma_identification_paths_unique<'s, Item: SortableItem, NDItem, NameErr: Clone>(
    deep: Group<GroupInfo, &'s Item, DeepNodeInfo<'s, Item, NDItem, NameErr>>,
    params: Params,
    fin: Group<GroupInfo, &'s Item, NodeInfo<NDItem, NameErr>>,
)
    requires
        kept_group_matches(deep, Seq::empty(), Seq::empty(), params, fin),
        ids_distinct(Node::Group(deep)),
    ensures
        paths_distinct(final_leaf_paths(Node::Group(fin), Seq::empty())),
{
    lemma_kept_paths(deep, params, fin);
    lemma_deep_paths_distinct(Node::Group(deep), Seq::empty());
}

/// The final hierarchy made of a max-gap tree (as every sorter's is) gives every item its own
/// identification path, and in each of its groups the `local_id_path`s of the children are
/// non-empty and none is a prefix of another's.
pub proof fn lemma_sorter_paths_unique<'s, Item: SortableItem, NDItem, NameErr: Clone, F: Fn(Distance, Distance) -> Strength>(
    t: BinTree<Item, StaticNodeInfo<Item, NDItem, NameErr, False>>,
    deep: Group<GroupInfo, &'s Item, DeepNodeInfo<'s, Item, NDItem, NameErr>>,
    strength_of: F,
    params: Params,
    fin: Group<GroupInfo, &'s Item, NodeInfo<NDItem, NameErr>>,
)
    requires
        is_max_gap_tree(t),
        deep_matches(t, Node::Group(deep), HorizontalIdx::Left, None, strength_of),
        kept_group_matches(deep, Seq::empty(), Seq::empty(), params, fin),
    ensures
        paths_distinct(final_leaf_paths(Node::Group(fin), Seq::empty())),
        all_siblings_prefix_free(fin),
{
    lemma_deep_ids_distinct(t, Node::Group(deep), HorizontalIdx::Left, None, strength_of);
    lemma_identification_paths_unique(deep, params, fin);
    lemma_sibling_paths_prefix_free(deep, params, fin);
}


/// The `local_id_path` of a node of the final hierarchy.
pub open spec fn final_node_path<'s, Item: SortableItem, NDItem, NameErr>(n: FinalNode<'s, Item, NDItem, NameErr>) -> Seq<HorizontalIdx> {
    match n {
        Node::Leaf(l) => l.node_data.local_id_path@,
        Node::Group(g) => g.node_data.local_id_path@,
    }
}

/// `a` is a prefix of `b`.
pub open spec fn is_path_prefix(a: Seq<HorizontalIdx>, b: Seq<HorizontalIdx>) -> bool {
    a.len() <= b.len() && b.take(a.len() as int) == a
}

/// The `local_id_path`s of the sibling nodes `c` are non-empty and none is a prefix of
/// another's.
pub open spec fn siblings_prefix_free<'s, Item: SortableItem, NDItem, NameErr>(c: Seq<FinalNode<'s, Item, NDItem, NameErr>>) -> bool {
    &&& forall|i: int| 0 <= i < c.len() ==> final_node_path(#[trigger] c[i]).len() > 0
    &&& forall|i: int, j: int|
        0 <= i < c.len() && 0 <= j < c.len() && i != j ==> !is_path_prefix(final_node_path(#[trigger] c[i]), final_node_path(#[trigger] c[j]))
}

/// In the final group `g` and in every group below it, the `local_id_path`s of siblings are
/// [prefix free](siblings_prefix_free).
pub open spec fn all_siblings_prefix_free<'s, Item: SortableItem, NDItem, NameErr>(g: Group<GroupInfo, &'s Item, NodeInfo<NDItem, NameErr>>) -> bool
    decreases g,
{
    &&& siblings_prefix_free(g.children@)
    &&& groups_prefix_free(g.children@)
}

/// [`all_siblings_prefix_free`] holds of every group among the nodes `s`.
pub open spec fn groups_prefix_free<'s, Item: SortableItem, NDItem, NameErr>(s: Seq<FinalNode<'s, Item, NDItem, NameErr>>) -> bool
    decreases s,
{
    s.len() == 0 || {
        &&& match s[0] {
            Node::Group(g) => all_siblings_prefix_free(g),
            Node::Leaf(_) => true,
        }
        &&& groups_prefix_free(s.drop_first())
    }
}

proof fn lemma_groups_prefix_free_append<'s, Item: SortableItem, NDItem, NameErr>(
    a: Seq<FinalNode<'s, Item, NDItem, NameErr>>,
    b: Seq<FinalNode<'s, Item, NDItem, NameErr>>,
)
    requires
        groups_prefix_free(a),
        groups_prefix_free(b),
    ensures
        groups_prefix_free(a + b),
    decreases a.len(),
{
    if a.len() == 0 {
        assert(a + b =~= b);
    } else {
        lemma_groups_prefix_free_append(a.drop_first(), b);
        assert((a + b)[0] == a[0]);
        assert((a + b).drop_first() =~= a.drop_first() + b);
    }
}

proof fn lemma_contributes_start<'s, Item: SortableItem, NDItem, NameErr: Clone>(
    n: DeepNode<'s, Item, NDItem, NameErr>,
    parent_sep: Option<Distance>,
    path: Seq<HorizontalIdx>,
    naming: Seq<NDItem>,
    params: Params,
    out: Seq<FinalNode<'s, Item, NDItem, NameErr>>,
)
    requires
        contributes(n, parent_sep, path, naming, params, out),
    ensures
        forall|k: int| 0 <= k < out.len() ==> {
            let p = final_node_path(#[trigger] out[k]);
            &&& p.len() > path.len()
            &&& p.take(path.len() as int) == path
            &&& p[path.len() as int] == deep_node_id(n)
        },
    decreases n,
{
    match n {
        Node::Leaf(l) => {
            assert(path.push(l.node_data.id).take(path.len() as int) =~= path);
        },
        Node::Group(g) => {
            let q = path.push(g.node_data.id);
            if dissolves(g.group_data, parent_sep, params) {
                lemma_children_contribute_start(
                    g.children@,
                    g.group_data.separation,
                    q,
                    naming + handed_down_name(g.node_data),
                    params,
                    out,
                );
                assert forall|k: int| 0 <= k < out.len() implies {
                    let p = final_node_path(#[trigger] out[k]);
                    &&& p.len() > path.len()
                    &&& p.take(path.len() as int) == path
                    &&& p[path.len() as int] == deep_node_id(n)
                } by {
                    let p = final_node_path(out[k]);
                    assert(p.take(q.len() as int) == q);
                    assert(p.take(q.len() as int)[path.len() as int] == p[path.len() as int]);
                    assert(p.take(path.len() as int) =~= q.take(path.len() as int));
                    assert(q.take(path.len() as int) =~= path);
                }
            } else {
                assert(q.take(path.len() as int) =~= path);
            }
        },
    }
}

proof fn lemma_children_contribute_start<'s, Item: SortableItem, NDItem, NameErr: Clone>(
    s: Seq<DeepNode<'s, Item, NDItem, NameErr>>,
    sep: Option<Distance>,
    path: Seq<HorizontalIdx>,
    naming: Seq<NDItem>,
    params: Params,
    out: Seq<FinalNode<'s, Item, NDItem, NameErr>>,
)
    requires
        children_contribute(s, sep, path, naming, params, out),
    ensures
        forall|k: int| 0 <= k < out.len() ==> {
            let p = final_node_path(#[trigger] out[k]);
            &&& p.len() > path.len()
            &&& p.take(path.len() as int) == path
            &&& exists|j: int| 0 <= j < s.len() && p[path.len() as int] == deep_node_id(#[trigger] s[j])
        },
    decreases s,
{
    if s.len() > 0 {
        let k0 = contribution_count(s[0], sep, params) as int;
        let a = out.take(k0);
        let b = out.skip(k0);
        lemma_contributes_start(s[0], sep, path, naming, params, a);
        lemma_children_contribute_start(s.drop_first(), sep, path, naming, params, b);
        assert forall|k: int| 0 <= k < out.len() implies {
            let p = final_node_path(#[trigger] out[k]);
            &&& p.len() > path.len()
            &&& p.take(path.len() as int) == path
            &&& exists|j: int| 0 <= j < s.len() && p[path.len() as int] == deep_node_id(#[trigger] s[j])
        } by {
            if k < k0 {
                assert(out[k] == a[k]);
                assert(final_node_path(a[k])[path.len() as int] == deep_node_id(s[0]));
            } else {
                assert(out[k] == b[k - k0]);
                let j = choose|j: int| 0 <= j < s.drop_first().len()
                    && final_node_path(b[k - k0])[path.len() as int] == deep_node_id(#[trigger] s.drop_first()[j]);
                assert(s.drop_first()[j] == s[j + 1]);
            }
        }
    }
}

proof fn lemma_contributes_prefix_free<'s, Item: SortableItem, NDItem, NameErr: Clone>(
    n: DeepNode<'s, Item, NDItem, NameErr>,
    parent_sep: Option<Distance>,
    path: Seq<HorizontalIdx>,
    naming: Seq<NDItem>,
    params: Params,
    out: Seq<FinalNode<'s, Item, NDItem, NameErr>>,
)
    requires
        contributes(n, parent_sep, path, naming, params, out),
        ids_distinct(n),
    ensures
        siblings_prefix_free(out),
        groups_prefix_free(out),
    decreases n,
{
    lemma_contributes_start(n, parent_sep, path, naming, params, out);
    let e = Seq::<FinalNode<'s, Item, NDItem, NameErr>>::empty();
    match n {
        Node::Leaf(_) => {
            assert(out.drop_first() =~= e);
            assert(groups_prefix_free(out.drop_first()));
        },
        Node::Group(g) => {
            if dissolves(g.group_data, parent_sep, params) {
                lemma_children_contribute_prefix_free(
                    g.children@,
                    g.group_data.separation,
                    path.push(g.node_data.id),
                    naming + handed_down_name(g.node_data),
                    params,
                    out,
                );
            } else {
                let rg = out[0]->Group_0;
                lemma_kept_prefix_free(g, path, naming, params, rg);
                assert(out.drop_first() =~= e);
                assert(groups_prefix_free(out.drop_first()));
            }
        },
    }
}

proof fn lemma_children_contribute_prefix_free<'s, Item: SortableItem, NDItem, NameErr: Clone>(
    s: Seq<DeepNode<'s, Item, NDItem, NameErr>>,
    sep: Option<Distance>,
    path: Seq<HorizontalIdx>,
    naming: Seq<NDItem>,
    params: Params,
    out: Seq<FinalNode<'s, Item, NDItem, NameErr>>,
)
    requires
        children_contribute(s, sep, path, naming, params, out),
        children_ids_distinct(s),
    ensures
        siblings_prefix_free(out),
        groups_prefix_free(out),
    decreases s,
{
    lemma_children_contribute_start(s, sep, path, naming, params, out);
    if s.len() == 0 {
        assert(out =~= Seq::<FinalNode<'s, Item, NDItem, NameErr>>::empty());
    } else {
        let k0 = contribution_count(s[0], sep, params) as int;
        let a = out.take(k0);
        let b = out.skip(k0);
        lemma_contributes_prefix_free(s[0], sep, path, naming, params, a);
        lemma_children_contribute_prefix_free(s.drop_first(), sep, path, naming, params, b);
        lemma_contributes_start(s[0], sep, path, naming, params, a);
        lemma_children_contribute_start(s.drop_first(), sep, path, naming, params, b);
        assert(out =~= a + b);
        lemma_groups_prefix_free_append(a, b);
        assert forall|i: int, j: int|
            0 <= i < out.len() && 0 <= j < out.len() && i != j implies !is_path_prefix(
            final_node_path(#[trigger] out[i]),
            final_node_path(#[trigger] out[j]),
        ) by {
            if i < k0 && j < k0 {
                assert(out[i] == a[i] && out[j] == a[j]);
            } else if i >= k0 && j >= k0 {
                assert(out[i] == b[i - k0] && out[j] == b[j - k0]);
            } else {
                let (u, v) = if i < k0 { (i, j) } else { (j, i) };
                let pu = final_node_path(out[u]);
                let pv = final_node_path(out[v]);
                assert(out[u] == a[u]);
                assert(out[v] == b[v - k0]);
                assert(pu[path.len() as int] == deep_node_id(s[0]));
                let w = choose|w: int| 0 <= w < s.drop_first().len()
                    && final_node_path(b[v - k0])[path.len() as int] == deep_node_id(#[trigger] s.drop_first()[w]);
                assert(s.drop_first()[w] == s[w + 1]);
                assert(deep_node_id(s[w + 1]) != deep_node_id(s[0]));
                assert(pu[path.len() as int] != pv[path.len() as int]);
                if is_path_prefix(pu, pv) {
                    assert(pv.take(pu.len() as int)[path.len() as int] == pv[path.len() as int]);
                }
                if is_path_prefix(pv, pu) {
                    assert(pu.take(pv.len() as int)[path.len() as int] == pu[path.len() as int]);
                }
            }
        }
    }
}

proof fn lemma_kept_prefix_free<'s, Item: SortableItem, NDItem, NameErr: Clone>(
    g: Group<GroupInfo, &'s Item, DeepNodeInfo<'s, Item, NDItem, NameErr>>,
    path: Seq<HorizontalIdx>,
    naming: Seq<NDItem>,
    params: Params,
    rg: Group<GroupInfo, &'s Item, NodeInfo<NDItem, NameErr>>,
)
    requires
        kept_group_matches(g, path, naming, params, rg),
        ids_distinct(Node::Group(g)),
    ensures
        all_siblings_prefix_free(rg),
    decreases g,
{
    lemma_children_contribute_prefix_free(
        g.children@,
        g.group_data.separation,
        Seq::empty(),
        Seq::empty(),
        params,
        rg.children@,
    );
}

/// Selections can find every node: where siblings in the deep hierarchy have different ids,
/// in every group of the final hierarchy the `local_id_path`s of the children are non-empty
/// and none is a prefix of another's.
pub proof fn lemma_sibling_paths_prefix_free<'s, Item: SortableItem, NDItem, NameErr: Clone>(
    deep: Group<GroupInfo, &'s Item, DeepNodeInfo<'s, Item, NDItem, NameErr>>,
    params: Params,
    fin: Group<GroupInfo, &'s Item, NodeInfo<NDItem, NameErr>>,
)
    requires
        kept_group_matches(deep, Seq::empty(), Seq::empty(), params, fin),
        ids_distinct(Node::Group(deep)),
    ensures
        all_siblings_prefix_free(fin),
{
    lemma_kept_prefix_free(deep, Seq::empty(), Seq::empty(), params, fin);
}


/// The name a node of the final hierarchy carries.
pub open spec fn final_name<'s, Item: SortableItem, NDItem, NameErr>(
    r: FinalNode<'s, Item, NDItem, NameErr>,
) -> Option<Result<Vec<NDItem>, NameErr>> {
    match r {
        Node::Leaf(l) => l.node_data.name,
        Node::Group(g) => g.node_data.name,
    }
}

/// `part` stands in `w` somewhere, as a contiguous piece.
pub open spec fn contains_part<T>(w: Seq<T>, part: Seq<T>) -> bool {
    exists|i: int| 0 <= i && i + part.len() <= w.len() && #[trigger] w.subrange(i, i + part.len()) == part
}

proof fn lemma_contains_prefix_part<T>(w: Seq<T>, part: Seq<T>, more: Seq<T>)
    requires
        contains_part(w, part + more),
    ensures
        contains_part(w, part),
{
    let i = choose|i: int| 0 <= i && i + (part + more).len() <= w.len() && #[trigger] w.subrange(i, i + (part + more).len()) == part + more;
    assert(w.subrange(i, i + part.len()) =~= (part + more).take(part.len() as int));
    assert((part + more).take(part.len() as int) =~= part);
}

proof fn lemma_contributed_names_contain<'s, Item: SortableItem, NDItem, NameErr: Clone>(
    n: DeepNode<'s, Item, NDItem, NameErr>,
    parent_sep: Option<Distance>,
    path: Seq<HorizontalIdx>,
    naming: Seq<NDItem>,
    params: Params,
    out: Seq<FinalNode<'s, Item, NDItem, NameErr>>,
)
    requires
        contributes(n, parent_sep, path, naming, params, out),
    ensures
        forall|k: int|
            0 <= k < out.len() ==> (#[trigger] final_name(out[k]) matches Some(Ok(w)) ==> contains_part(w@, naming)),
    decreases n,
{
    match n {
        Node::Leaf(l) => {
            if let Some(Ok(w)) = final_name(out[0]) {
                let v = l.node_data.static_info->0.naming_data->0->Ok_0;
                assert(w@.subrange(v@.len() as int, (v@.len() + naming.len()) as int) =~= naming);
            }
        },
        Node::Group(g) => {
            if dissolves(g.group_data, parent_sep, params) {
                let passed = naming + handed_down_name(g.node_data);
                lemma_children_names_contain(
                    g.children@,
                    g.group_data.separation,
                    path.push(g.node_data.id),
                    passed,
                    params,
                    out,
                );
                assert forall|k: int| 0 <= k < out.len() implies (#[trigger] final_name(out[k]) matches Some(Ok(w))
                    ==> contains_part(w@, naming)) by {
                    if let Some(Ok(w)) = final_name(out[k]) {
                        lemma_contains_prefix_part(w@, naming, handed_down_name(g.node_data));
                    }
                }
            } else {
                if let Some(Ok(w)) = final_name(out[0]) {
                    let v = g.node_data.static_info->0.naming_data->0->Ok_0;
                    assert(w@.subrange(v@.len() as int, (v@.len() + naming.len()) as int) =~= naming);
                }
            }
        },
    }
}

proof fn lemma_children_names_contain<'s, Item: SortableItem, NDItem, NameErr: Clone>(
    s: Seq<DeepNode<'s, Item, NDItem, NameErr>>,
    sep: Option<Distance>,
    path: Seq<HorizontalIdx>,
    naming: Seq<NDItem>,
    params: Params,
    out: Seq<FinalNode<'s, Item, NDItem, NameErr>>,
)
    requires
        children_contribute(s, sep, path, naming, params, out),
    ensures
        forall|k: int|
            0 <= k < out.len() ==> (#[trigger] final_name(out[k]) matches Some(Ok(w)) ==> contains_part(w@, naming)),
    decreases s,
{
    if s.len() > 0 {
        let k0 = contribution_count(s[0], sep, params) as int;
        let a = out.take(k0);
        let b = out.skip(k0);
        lemma_contributed_names_contain(s[0], sep, path, naming, params, a);
        lemma_children_names_contain(s.drop_first(), sep, path, naming, params, b);
        assert forall|k: int| 0 <= k < out.len() implies (#[trigger] final_name(out[k]) matches Some(Ok(w))
            ==> contains_part(w@, naming)) by {
            if k < k0 {
                assert(out[k] == a[k]);
            } else {
                assert(out[k] == b[k - k0]);
            }
        }
    }
}

/// A node that stays in the final hierarchy keeps its own name first: where the node stored the
/// name `v`, its final name starts with `v`, and what the dissolved groups above it handed down
/// (`naming`) follows.
pub proof fn lemma_own_name_first<'s, Item: SortableItem, NDItem, NameErr: Clone>(
    n: DeepNode<'s, Item, NDItem, NameErr>,
    parent_sep: Option<Distance>,
    path: Seq<HorizontalIdx>,
    naming: Seq<NDItem>,
    params: Params,
    out: Seq<FinalNode<'s, Item, NDItem, NameErr>>,
    v: Vec<NDItem>,
)
    requires
        contributes(n, parent_sep, path, naming, params, out),
        match n {
            Node::Leaf(l) => l.node_data.static_info matches Some(info) && info.naming_data == Some(
                Ok::<Vec<NDItem>, NameErr>(v),
            ),
            Node::Group(g) => !dissolves(g.group_data, parent_sep, params) && (g.node_data.static_info matches Some(
                info,
            ) && info.naming_data == Some(Ok::<Vec<NDItem>, NameErr>(v))),
        },
    ensures
        out.len() == 1,
        final_name(out[0]) matches Some(Ok(w)) && w@.len() == v@.len() + naming.len() && w@.take(v@.len() as int)
            == v@ && w@.skip(v@.len() as int) == naming,
{
    if let Some(Ok(w)) = final_name(out[0]) {
        assert(w@.take(v@.len() as int) =~= v@);
        assert(w@.skip(v@.len() as int) =~= naming);
    }
}

/// A dissolved group hands its name down: where a dissolved group stored the name `v`, every
/// node it is replaced by that carries a name has in it what was handed down to the group
/// (`naming`) followed by `v`, so the place its items had in common is not lost.
pub proof fn lemma_dissolved_name_handed_down<'s, Item: SortableItem, NDItem, NameErr: Clone>(
    g: Group<GroupInfo, &'s Item, DeepNodeInfo<'s, Item, NDItem, NameErr>>,
    parent_sep: Option<Distance>,
    path: Seq<HorizontalIdx>,
    naming: Seq<NDItem>,
    params: Params,
    out: Seq<FinalNode<'s, Item, NDItem, NameErr>>,
    v: Vec<NDItem>,
)
    requires
        contributes(Node::Group(g), parent_sep, path, naming, params, out),
        dissolves(g.group_data, parent_sep, params),
        g.node_data.static_info matches Some(info) && info.naming_data == Some(Ok::<Vec<NDItem>, NameErr>(v)),
    ensures
        forall|k: int|
            0 <= k < out.len() ==> (#[trigger] final_name(out[k]) matches Some(Ok(w)) ==> contains_part(
                w@,
                naming + v@,
            )),
{
    lemma_children_names_contain(
        g.children@,
        g.group_data.separation,
        path.push(g.node_data.id),
        naming + handed_down_name(g.node_data),
        params,
        out,
    );
}

} // verus!
