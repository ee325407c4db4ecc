//! The first version of the sorting algorithm: points are cut into a binary tree at the
//! largest distances, then the tree is flattened so that only big spaces separate groups.

use vstd::prelude::*;
use crate::common::{Distance, Point};

verus! {

/// How deep the flattened hierarchy is: groups weaker than this are dissolved into their parent.
pub type Depth = u16;

/// A binary tree of points.
pub enum BinTree<P> {
    InnerNode { children: Box<(BinTree<P>, BinTree<P>)>, data: () },
    Leaf(P),
}

/// An item of a hierarchy: a group of items or a single point.
#[derive(Debug, PartialEq, Eq)]
pub enum HiearchyItem<P> {
    Group(Vec<HiearchyItem<P>>),
    Item(P),
}

/// The points of a tree from left to right.
pub open spec fn tree_points<P>(t: BinTree<P>) -> Seq<P>
    decreases t,
{
    match t {
        BinTree::Leaf(p) => seq![p],
        BinTree::InnerNode { children, .. } => tree_points(children.0) + tree_points(children.1),
    }
}

/// The points of a hierarchy item from left to right.
pub open spec fn item_points<P>(h: HiearchyItem<P>) -> Seq<P>
    decreases h,
{
    match h {
        HiearchyItem::Item(p) => seq![p],
        HiearchyItem::Group(v) => items_points(v@),
    }
}

/// The points of a sequence of hierarchy items from left to right.
pub open spec fn items_points<P>(s: Seq<HiearchyItem<P>>) -> Seq<P>
    decreases s,
{
    if s.len() == 0 {
        Seq::empty()
    } else {
        item_points(s[0]) + items_points(s.drop_first())
    }
}

proof fn lemma_items_points_push<P>(s: Seq<HiearchyItem<P>>, h: HiearchyItem<P>)
    ensures
        items_points(s.push(h)) == items_points(s) + item_points(h),
    decreases s.len(),
{
    if s.len() == 0 {
        let e = Seq::<HiearchyItem<P>>::empty();
        assert(s.push(h).drop_first() =~= e);
        assert(items_points(e) =~= Seq::<P>::empty());
        assert(s.push(h)[0] == h);
        assert(items_points(s) =~= Seq::<P>::empty());
        assert(items_points(s.push(h)) =~= item_points(h));
    } else {
        assert(s.push(h).drop_first() =~= s.drop_first().push(h));
        lemma_items_points_push(s.drop_first(), h);
        assert(items_points(s.push(h)) =~= items_points(s) + item_points(h));
    }
}

proof fn lemma_items_points_single<P>(h: HiearchyItem<P>)
    ensures
        items_points(seq![h]) == item_points(h),
{
    let e = Seq::<HiearchyItem<P>>::empty();
    assert(seq![h] =~= e.push(h));
    lemma_items_points_push(e, h);
    assert(items_points(e) =~= Seq::<P>::empty());
    assert(Seq::<P>::empty() + item_points(h) =~= item_points(h));
}

proof fn lemma_items_points_append<P>(s: Seq<HiearchyItem<P>>, t: Seq<HiearchyItem<P>>)
    ensures
        items_points(s + t) == items_points(s) + items_points(t),
    decreases t.len(),
{
    if t.len() == 0 {
        assert(s + t =~= s);
        assert(items_points(t) =~= Seq::<P>::empty());
        assert(items_points(s) + items_points(t) =~= items_points(s));
    } else {
        assert(s + t =~= (s + t.drop_last()).push(t.last()));
        assert(t =~= t.drop_last().push(t.last()));
        lemma_items_points_append(s, t.drop_last());
        lemma_items_points_push(s + t.drop_last(), t.last());
        lemma_items_points_push(t.drop_last(), t.last());
        assert(items_points(s + t) =~= items_points(s) + items_points(t));
    }
}

proof fn lemma_tree_points_nonempty<P>(t: BinTree<P>)
    ensures
        tree_points(t).len() >= 1,
    decreases t,
{
    match t {
        BinTree::Leaf(_) => {},
        BinTree::InnerNode { children, .. } => lemma_tree_points_nonempty(children.0),
    }
}

/// The distance between the `i`-th point and the next one.
pub open spec fn point_gap<P: Point>(s: Seq<P>, i: int) -> Distance {
    s[i].spec_distance(&s[i + 1])
}

/// The distance between the two children of an inner node.
pub open spec fn inner_distance<P: Point>(l: BinTree<P>, r: BinTree<P>) -> Distance {
    tree_points(l).last().spec_distance(&tree_points(r)[0])
}

/// Every inner node splits its points at the last largest distance between neighbours: the
/// distances inside the left child are not larger, those inside the right child are smaller.
pub open spec fn is_last_max_tree<P: Point>(t: BinTree<P>) -> bool
    decreases t,
{
    match t {
        BinTree::Leaf(_) => true,
        BinTree::InnerNode { children, .. } => {
            let g = inner_distance(children.0, children.1);
            &&& forall|i: int|
                0 <= i < tree_points(children.0).len() - 1 ==> #[trigger] point_gap(tree_points(children.0), i) <= g
            &&& forall|i: int|
                0 <= i < tree_points(children.1).len() - 1 ==> #[trigger] point_gap(tree_points(children.1), i) < g
            &&& is_last_max_tree(children.0)
            &&& is_last_max_tree(children.1)
        },
    }
}

/// A tree split at the last largest distances is determined by its points alone.
pub proof fn lemma_last_max_tree_unique<P: Point>(t1: BinTree<P>, t2: BinTree<P>)
    requires
        is_last_max_tree(t1),
        is_last_max_tree(t2),
        tree_points(t1) == tree_points(t2),
    ensures
        t1 == t2,
    decreases t1,
{
    let pts = tree_points(t1);
    match t1 {
        BinTree::Leaf(_) => {
            match t2 {
                BinTree::Leaf(_) => {
                    assert(tree_points(t1)[0] == tree_points(t2)[0]);
                },
                BinTree::InnerNode { children, .. } => {
                    lemma_tree_points_nonempty(children.0);
                    lemma_tree_points_nonempty(children.1);
                    assert(tree_points(t2).len() >= 2);
                    assert(tree_points(t1).len() == 1);
                },
            }
        },
        BinTree::InnerNode { children: ch1, data: d1 } => {
            lemma_tree_points_nonempty(ch1.0);
            lemma_tree_points_nonempty(ch1.1);
            match t2 {
                BinTree::Leaf(_) => {
                    assert(tree_points(t1).len() >= 2);
                    assert(tree_points(t2).len() == 1);
                },
                BinTree::InnerNode { children: ch2, data: d2 } => {
                    lemma_tree_points_nonempty(ch2.0);
                    lemma_tree_points_nonempty(ch2.1);
                    let l1 = tree_points(ch1.0);
                    let r1 = tree_points(ch1.1);
                    let l2 = tree_points(ch2.0);
                    let r2 = tree_points(ch2.1);
                    let a = l1.len() as int;
                    let b = l2.len() as int;
                    assert(pts == l1 + r1);
                    assert(pts == l2 + r2);
                    // The gap at index `a - 1` separates the children of `t1`.
                    assert(point_gap(pts, a - 1) == inner_distance(ch1.0, ch1.1));
                    assert(point_gap(pts, b - 1) == inner_distance(ch2.0, ch2.1));
                    if b < a {
                        assert(point_gap(l1, b - 1) == point_gap(pts, b - 1));
                        assert(point_gap(r2, a - 1 - b) == point_gap(pts, a - 1));
                        assert(false);
                    }
                    if a < b {
                        assert(point_gap(l2, a - 1) == point_gap(pts, a - 1));
                        assert(point_gap(r1, b - 1 - a) == point_gap(pts, b - 1));
                        assert(false);
                    }
                    assert(l1 =~= pts.subrange(0, a));
                    assert(l2 =~= pts.subrange(0, a));
                    assert(r1 =~= pts.subrange(a, pts.len() as int));
                    assert(r2 =~= pts.subrange(a, pts.len() as int));
                    lemma_last_max_tree_unique(ch1.0, ch2.0);
                    lemma_last_max_tree_unique(ch1.1, ch2.1);
                    assert(ch1 == ch2);
                    assert(d1 == d2);
                },
            }
        },
    }
}

/// Sort points to binary tree.
///
/// The algorithm always cuts points into two groups by the biggest distance
/// and then it recurses again on theese two groups
///
/// Requires at least one point.
pub fn sort_to_binary_tree<P: Point>(points: Vec<P>) -> (t: BinTree<P>)
    requires
        points.len() >= 1,
    ensures
        tree_points(t) == points@,
        is_last_max_tree(t),
{
    let ghost orig = points@;
    let n = points.len();
    let mut points_with_distances: Vec<(P, Distance)> = Vec::new();
    let mut rest: Vec<P> = Vec::new();
    let mut points = points;
    // Move the points into `rest` in reverse order, so that popping gives them in order.
    while points.len() > 0
        invariant
            orig == points@ + rest@.reverse(),
        decreases points.len(),
    {
        let x = points.pop().unwrap();
        rest.push(x);
        proof {
            assert(orig =~= points@ + rest@.reverse());
        }
    }
    proof {
        assert(orig =~= rest@.reverse());
    }
    let mut current_point = rest.pop().unwrap();
    let ghost mut i: int = 0;
    proof {
        assert(rest@.reverse() =~= orig.subrange(1, n as int)) by {
            assert(orig.drop_first() =~= orig.subrange(1, n as int));
            assert(rest@.push(orig[0]).reverse() =~= orig);
            assert(rest@.reverse() =~= orig.drop_first());
        }
    }
    while rest.len() > 0
        invariant
            0 <= i < n,
            n == orig.len(),
            current_point == orig[i],
            rest@.reverse() == orig.subrange(i + 1, n as int),
            points_with_distances@.len() == i,
            forall|j: int| 0 <= j < i ==> (#[trigger] points_with_distances@[j]).0 == orig[j],
            forall|j: int| 0 <= j < i ==> (#[trigger] points_with_distances@[j]).1 == point_gap(orig, j),
        decreases rest.len(),
    {
        proof {
            assert(rest@.reverse().len() == rest.len());
            assert(rest@.reverse()[0] == rest@.last());
            assert(orig.subrange(i + 1, n as int)[0] == orig[i + 1]);
        }
        let next_point = rest.pop().unwrap();
        let distance_to_next = current_point.distance(&next_point);
        points_with_distances.push((current_point, distance_to_next));
        current_point = next_point;
        proof {
            assert(rest@.reverse() =~= orig.subrange(i + 2, n as int)) by {
                assert(rest@.reverse() =~= orig.subrange(i + 1, n as int).drop_first());
            }
            i = i + 1;
        }
    }
    proof {
        assert(rest@.reverse().len() == 0);
        assert(i == n - 1);
    }
    sort_to_binary_tree_with_distances(points_with_distances, current_point, Ghost(orig))
}

/// The index of the last largest distance.
fn index_of_last_max(input: &Vec<(impl Sized, Distance)>) -> (idx: usize)
    requires
        input.len() >= 1,
    ensures
        idx < input.len(),
        forall|j: int| 0 <= j <= idx ==> (#[trigger] input@[j]).1 <= input@[idx as int].1,
        forall|j: int| idx < j < input.len() ==> (#[trigger] input@[j]).1 < input@[idx as int].1,
{
    let mut idx: usize = 0;
    let mut k: usize = 1;
    while k < input.len()
        invariant
            1 <= k <= input.len(),
            idx < k,
            forall|j: int| 0 <= j <= idx ==> (#[trigger] input@[j]).1 <= input@[idx as int].1,
            forall|j: int| idx < j < k ==> (#[trigger] input@[j]).1 < input@[idx as int].1,
        decreases input.len() - k,
    {
        if input[k].1 >= input[idx].1 {
            idx = k;
        }
        k = k + 1;
    }
    idx
}

/// The recursive part of [`sort_to_binary_tree`]
///
/// This function takes vector of points alongside their distances to the next one. \
/// However, the last point has no "next" point, so it can't have any distance to it,
/// so it's provided as a separate argument
fn sort_to_binary_tree_with_distances<P: Point>(
    input: Vec<(P, Distance)>,
    last_point: P,
    Ghost(pts): Ghost<Seq<P>>,
) -> (t: BinTree<P>)
    requires
        pts.len() == input.len() + 1,
        pts.last() == last_point,
        forall|j: int| 0 <= j < input.len() ==> (#[trigger] input@[j]).0 == pts[j],
        forall|j: int| 0 <= j < input.len() ==> (#[trigger] input@[j]).1 == point_gap(pts, j),
    ensures
        tree_points(t) == pts,
        is_last_max_tree(t),
    decreases input.len(),
{
    if input.len() == 0 {
        proof {
            assert(pts =~= seq![last_point]);
        }
        return BinTree::Leaf(last_point);
    }
    let idx_of_max_distance_to_next = index_of_last_max(&input);
    let ghost d = input@;
    let ghost g = d[idx_of_max_distance_to_next as int].1;
    let mut first_group = input;
    let second_group = first_group.split_off(idx_of_max_distance_to_next + 1);
    let last_from_first_group = first_group.pop().unwrap();
    let ghost k = idx_of_max_distance_to_next as int;
    let ghost left_pts = pts.subrange(0, k + 1);
    let ghost right_pts = pts.subrange(k + 1, pts.len() as int);
    proof {
        assert(first_group@ =~= d.subrange(0, k));
        assert(second_group@ =~= d.subrange(k + 1, d.len() as int));
        assert(last_from_first_group == d[k]);
        assert forall|j: int| 0 <= j < second_group.len() implies (#[trigger] second_group@[j]).1 == point_gap(right_pts, j) by {
            assert(second_group@[j] == d[k + 1 + j]);
            assert(right_pts[j] == pts[k + 1 + j]);
            assert(right_pts[j + 1] == pts[k + 2 + j]);
        }
        assert forall|j: int| 0 <= j < first_group.len() implies (#[trigger] first_group@[j]).1 == point_gap(left_pts, j) by {
            assert(first_group@[j] == d[j]);
        }
    }
    let first = sort_to_binary_tree_with_distances(first_group, last_from_first_group.0, Ghost(left_pts));
    let second = sort_to_binary_tree_with_distances(second_group, last_point, Ghost(right_pts));
    let t = BinTree::InnerNode { children: Box::new((first, second)), data: () };
    proof {
        assert(pts =~= left_pts + right_pts);
        assert(inner_distance(first, second) == g) by {
            assert(tree_points(first).last() == pts[k]);
            assert(tree_points(second)[0] == pts[k + 1]);
            assert(d[k].1 == point_gap(pts, k));
        }
        assert forall|j: int| 0 <= j < tree_points(first).len() - 1 implies #[trigger] point_gap(tree_points(first), j) <= g by {
            assert(point_gap(left_pts, j) == point_gap(pts, j));
            assert(d[j].1 <= g);
        }
        assert forall|j: int| 0 <= j < tree_points(second).len() - 1 implies #[trigger] point_gap(tree_points(second), j) < g by {
            assert(point_gap(right_pts, j) == point_gap(pts, k + 1 + j));
            assert(d[k + 1 + j].1 < g);
        }
    }
    t
}

/// The weakness of a group compared to its parent, on the scale of [`Depth`]: the share of the
/// parent's inner distance that the group's own inner distance makes up.
pub open spec fn weakness(group_distance: Distance, parent_distance: Distance) -> Depth {
    ((Depth::MAX as int * group_distance as int) / parent_distance as int) as Depth
}

/// How many members a subtree contributes to the group of its parent, whose inner distance is
/// `hid`: one when the subtree is kept (a point, or a group not weaker than `depth`), otherwise
/// what its own children contribute.
pub open spec fn member_count<P: Point>(t: BinTree<P>, hid: Distance, depth: Depth) -> nat
    decreases t,
{
    match t {
        BinTree::Leaf(_) => 1,
        BinTree::InnerNode { children, .. } => {
            let own = inner_distance(children.0, children.1);
            if weakness(own, hid) <= depth {
                1
            } else {
                member_count(children.0, own, depth) + member_count(children.1, own, depth)
            }
        },
    }
}

/// `h` is the flattened form of `t`: a point stays a point; an inner node becomes a group of
/// what its children contribute, where a child group weaker than `depth` is replaced by its
/// own members.
pub open spec fn is_flattened<P: Point>(h: HiearchyItem<P>, t: BinTree<P>, depth: Depth) -> bool
    decreases t, 0nat,
{
    match t {
        BinTree::Leaf(p) => h == HiearchyItem::Item(p),
        BinTree::InnerNode { children, .. } => {
            let hid = inner_distance(children.0, children.1);
            let k = member_count(children.0, hid, depth);
            h matches HiearchyItem::Group(v) && v@.len() == k + member_count(children.1, hid, depth)
                && are_members(v@.take(k as int), children.0, hid, depth)
                && are_members(v@.skip(k as int), children.1, hid, depth)
        },
    }
}

/// `s` is what the subtree `t` contributes to the group of its parent, whose inner distance is `hid`.
pub open spec fn are_members<P: Point>(s: Seq<HiearchyItem<P>>, t: BinTree<P>, hid: Distance, depth: Depth) -> bool
    decreases t, 1nat,
{
    match t {
        BinTree::Leaf(p) => s == seq![HiearchyItem::Item(p)],
        BinTree::InnerNode { children, .. } => {
            let own = inner_distance(children.0, children.1);
            if weakness(own, hid) <= depth {
                s.len() == 1 && is_flattened(s[0], t, depth)
            } else {
                let k = member_count(children.0, own, depth);
                &&& s.len() == k + member_count(children.1, own, depth)
                &&& are_members(s.take(k as int), children.0, own, depth)
                &&& are_members(s.skip(k as int), children.1, own, depth)
            }
        },
    }
}

proof fn lemma_members_len<P: Point>(s: Seq<HiearchyItem<P>>, t: BinTree<P>, hid: Distance, depth: Depth)
    requires
        are_members(s, t, hid, depth),
    ensures
        s.len() == member_count(t, hid, depth),
{
}

/// Every inner node has a positive inner distance (the flattening divides by it).
pub open spec fn inner_distances_positive<P: Point>(t: BinTree<P>) -> bool
    decreases t,
{
    match t {
        BinTree::Leaf(_) => true,
        BinTree::InnerNode { children, .. } => {
            &&& inner_distance(children.0, children.1) > 0
            &&& inner_distances_positive(children.0)
            &&& inner_distances_positive(children.1)
        },
    }
}

/// Flattening keeps the points in their order.
pub proof fn lemma_flattened_points<P: Point>(h: HiearchyItem<P>, t: BinTree<P>, depth: Depth)
    requires
        is_flattened(h, t, depth),
    ensures
        item_points(h) == tree_points(t),
    decreases t, 0nat,
{
    match t {
        BinTree::Leaf(p) => {},
        BinTree::InnerNode { children, .. } => {
            let hid = inner_distance(children.0, children.1);
            let k = member_count(children.0, hid, depth);
            let v = h->Group_0@;
            lemma_members_points(v.take(k as int), children.0, hid, depth);
            lemma_members_points(v.skip(k as int), children.1, hid, depth);
            assert(v =~= v.take(k as int) + v.skip(k as int));
            lemma_items_points_append(v.take(k as int), v.skip(k as int));
        },
    }
}

proof fn lemma_members_points<P: Point>(s: Seq<HiearchyItem<P>>, t: BinTree<P>, hid: Distance, depth: Depth)
    requires
        are_members(s, t, hid, depth),
    ensures
        items_points(s) == tree_points(t),
    decreases t, 1nat,
{
    match t {
        BinTree::Leaf(p) => {
            lemma_items_points_single(HiearchyItem::Item(p));
        },
        BinTree::InnerNode { children, .. } => {
            let own = inner_distance(children.0, children.1);
            if weakness(own, hid) <= depth {
                lemma_flattened_points(s[0], t, depth);
                assert(s =~= seq![s[0]]);
                lemma_items_points_single(s[0]);
            } else {
                let k = member_count(children.0, own, depth);
                lemma_members_points(s.take(k as int), children.0, own, depth);
                lemma_members_points(s.skip(k as int), children.1, own, depth);
                assert(s =~= s.take(k as int) + s.skip(k as int));
                lemma_items_points_append(s.take(k as int), s.skip(k as int));
            }
        },
    }
}

/// The number of groups in a hierarchy item, itself included.
pub open spec fn group_count<P>(h: HiearchyItem<P>) -> nat
    decreases h,
{
    match h {
        HiearchyItem::Item(_) => 0,
        HiearchyItem::Group(v) => 1 + groups_in(v@),
    }
}

/// The number of groups in a sequence of hierarchy items.
pub open spec fn groups_in<P>(s: Seq<HiearchyItem<P>>) -> nat
    decreases s,
{
    if s.len() == 0 {
        0
    } else {
        group_count(s[0]) + groups_in(s.drop_first())
    }
}

/// The number of inner nodes of a tree.
pub open spec fn inner_nodes<P>(t: BinTree<P>) -> nat
    decreases t,
{
    match t {
        BinTree::Leaf(_) => 0,
        BinTree::InnerNode { children, .. } => 1 + inner_nodes(children.0) + inner_nodes(children.1),
    }
}

/// The number of groups the flattened form of `t` has.
pub open spec fn flat_groups<P: Point>(t: BinTree<P>, depth: Depth) -> nat
    decreases t, 0nat,
{
    match t {
        BinTree::Leaf(_) => 0,
        BinTree::InnerNode { children, .. } => {
            let hid = inner_distance(children.0, children.1);
            1 + member_groups(children.0, hid, depth) + member_groups(children.1, hid, depth)
        },
    }
}

/// The number of groups among what the subtree `t` contributes to the group of its parent,
/// whose inner distance is `hid`.
pub open spec fn member_groups<P: Point>(t: BinTree<P>, hid: Distance, depth: Depth) -> nat
    decreases t, 1nat,
{
    match t {
        BinTree::Leaf(_) => 0,
        BinTree::InnerNode { children, .. } => {
            let own = inner_distance(children.0, children.1);
            if weakness(own, hid) <= depth {
                flat_groups(t, depth)
            } else {
                member_groups(children.0, own, depth) + member_groups(children.1, own, depth)
            }
        },
    }
}

proof fn lemma_groups_in_append<P>(a: Seq<HiearchyItem<P>>, b: Seq<HiearchyItem<P>>)
    ensures
        groups_in(a + b) == groups_in(a) + groups_in(b),
    decreases a.len(),
{
    if a.len() == 0 {
        assert(a + b =~= b);
    } else {
        lemma_groups_in_append(a.drop_first(), b);
        assert((a + b)[0] == a[0]);
        assert((a + b).drop_first() =~= a.drop_first() + b);
    }
}

proof fn lemma_flattened_groups<P: Point>(h: HiearchyItem<P>, t: BinTree<P>, depth: Depth)
    requires
        is_flattened(h, t, depth),
    ensures
        group_count(h) == flat_groups(t, depth),
    decreases t, 0nat,
{
    match t {
        BinTree::Leaf(p) => {},
        BinTree::InnerNode { children, .. } => {
            let hid = inner_distance(children.0, children.1);
            let k = member_count(children.0, hid, depth);
            let v = h->Group_0@;
            lemma_members_groups(v.take(k as int), children.0, hid, depth);
            lemma_members_groups(v.skip(k as int), children.1, hid, depth);
            assert(v =~= v.take(k as int) + v.skip(k as int));
            lemma_groups_in_append(v.take(k as int), v.skip(k as int));
        },
    }
}

proof fn lemma_members_groups<P: Point>(s: Seq<HiearchyItem<P>>, t: BinTree<P>, hid: Distance, depth: Depth)
    requires
        are_members(s, t, hid, depth),
    ensures
        groups_in(s) == member_groups(t, hid, depth),
    decreases t, 1nat,
{
    match t {
        BinTree::Leaf(p) => {
            assert(s.drop_first() =~= Seq::<HiearchyItem<P>>::empty());
            assert(groups_in(s.drop_first()) == 0);
            assert(group_count(s[0]) == 0);
        },
        BinTree::InnerNode { children, .. } => {
            let own = inner_distance(children.0, children.1);
            if weakness(own, hid) <= depth {
                lemma_flattened_groups(s[0], t, depth);
                assert(s.drop_first() =~= Seq::<HiearchyItem<P>>::empty());
                assert(groups_in(s.drop_first()) == 0);
            } else {
                let k = member_count(children.0, own, depth);
                lemma_members_groups(s.take(k as int), children.0, own, depth);
                lemma_members_groups(s.skip(k as int), children.1, own, depth);
                assert(s =~= s.take(k as int) + s.skip(k as int));
                lemma_groups_in_append(s.take(k as int), s.skip(k as int));
            }
        },
    }
}

proof fn lemma_flat_groups_monotone<P: Point>(t: BinTree<P>, d1: Depth, d2: Depth)
    requires
        d1 <= d2,
    ensures
        flat_groups(t, d1) <= flat_groups(t, d2),
        forall|hid: Distance| member_groups(t, hid, d1) <= #[trigger] member_groups(t, hid, d2),
    decreases t,
{
    match t {
        BinTree::Leaf(_) => {},
        BinTree::InnerNode { children, .. } => {
            lemma_flat_groups_monotone(children.0, d1, d2);
            lemma_flat_groups_monotone(children.1, d1, d2);
        },
    }
}

proof fn lemma_flat_groups_max<P: Point>(t: BinTree<P>)
    ensures
        flat_groups(t, Depth::MAX) == inner_nodes(t),
        forall|hid: Distance| #[trigger] member_groups(t, hid, Depth::MAX) == inner_nodes(t),
    decreases t,
{
    match t {
        BinTree::Leaf(_) => {},
        BinTree::InnerNode { children, .. } => {
            lemma_flat_groups_max(children.0);
            lemma_flat_groups_max(children.1);
            let own = inner_distance(children.0, children.1);
            assert(flat_groups(t, Depth::MAX) == inner_nodes(t));
            assert forall|hid: Distance| #[trigger] member_groups(t, hid, Depth::MAX) == inner_nodes(t) by {
                assert(weakness(own, hid) <= Depth::MAX);
            }
        },
    }
}

/// A deeper flattening keeps more groups: flattening one tree with the depth `d1` gives no more
/// groups than with a depth `d2` at least as large, and with the largest depth every inner node
/// of the tree is a group of its own.
pub proof fn lemma_flatten_monotone_in_depth<P: Point>(
    t: BinTree<P>,
    d1: Depth,
    h1: HiearchyItem<P>,
    d2: Depth,
    h2: HiearchyItem<P>,
)
    requires
        d1 <= d2,
        is_flattened(h1, t, d1),
        is_flattened(h2, t, d2),
    ensures
        group_count(h1) <= group_count(h2),
        d2 == Depth::MAX ==> group_count(h2) == inner_nodes(t),
{
    lemma_flattened_groups(h1, t, d1);
    lemma_flattened_groups(h2, t, d2);
    lemma_flat_groups_monotone(t, d1, d2);
    lemma_flat_groups_max(t);
}

/// What flattening a subtree gives, with data useful for recursion.
struct FlattenRet<P> {
    /// 0, if it's not a group
    highest_inner_distance: Distance,
    last_point: P,
    first_point: P,
    flattened_group: HiearchyItem<P>,
    /// The subtree that was flattened.
    source: Ghost<BinTree<P>>,
}

spec fn flatten_ret_ok<P: Point>(r: FlattenRet<P>, t: BinTree<P>, depth: Depth) -> bool {
    &&& r.source@ == t
    &&& is_flattened(r.flattened_group, t, depth)
    &&& r.first_point == tree_points(t)[0]
    &&& r.last_point == tree_points(t).last()
    &&& r.highest_inner_distance == match t {
        BinTree::Leaf(_) => 0,
        BinTree::InnerNode { children, .. } => inner_distance(children.0, children.1),
    }
}

/// "Flatten" a binary tree of points so that only bigger spaces between points are separated to different groups
pub fn flatten<P: Point + Copy>(bintree: BinTree<P>, depth: Depth) -> (r: HiearchyItem<P>)
    requires
        inner_distances_positive(bintree),
    ensures
        is_flattened(r, bintree, depth),
        item_points(r) == tree_points(bintree),
{
    let r = flatten_inner(bintree, depth).flattened_group;
    proof {
        lemma_flattened_points(r, bintree, depth);
    }
    r
}

/// Flatten, but also return addidional data in [`FlattenRet`] useful for recursion
fn flatten_inner<P: Point + Copy>(bintree: BinTree<P>, depth: Depth) -> (r: FlattenRet<P>)
    requires
        inner_distances_positive(bintree),
    ensures
        flatten_ret_ok(r, bintree, depth),
    decreases bintree,
{
    let ghost source = bintree;
    proof {
        lemma_tree_points_nonempty(bintree);
    }
    match bintree {
        BinTree::InnerNode { children, data: _ } => {
            let (c0, c1) = *children;
            proof {
                lemma_tree_points_nonempty(c0);
                lemma_tree_points_nonempty(c1);
            }
            let first = flatten_inner(c0, depth);
            let second = flatten_inner(c1, depth);
            let highest_inner_distance = first.last_point.distance(&second.first_point);
            let first_point = first.first_point;
            let last_point = second.last_point;
            let mut final_group: Vec<HiearchyItem<P>> = Vec::new();
            dissolve_if_needed(first, &mut final_group, depth, highest_inner_distance);
            let ghost fg1 = final_group@;
            let ghost mid = final_group@.len();
            proof {
                assert(fg1.skip(0) =~= fg1);
            }
            dissolve_if_needed(second, &mut final_group, depth, highest_inner_distance);
            proof {
                assert(tree_points(source) == tree_points(c0) + tree_points(c1));
                let fg = final_group@;
                let k = member_count(c0, highest_inner_distance, depth);
                let s0 = fg.take(mid as int);
                let s1 = fg.skip(mid as int);
                assert(s0 == fg1);
                lemma_members_len(s0, c0, highest_inner_distance, depth);
                lemma_members_len(s1, c1, highest_inner_distance, depth);
                assert(fg.take(k as int) =~= s0);
                assert(fg.skip(k as int) =~= s1);
                assert(highest_inner_distance == inner_distance(c0, c1));
            }
            FlattenRet {
                highest_inner_distance,
                first_point,
                last_point,
                flattened_group: HiearchyItem::Group(final_group),
                source: Ghost(source),
            }
        },
        BinTree::Leaf(point) => FlattenRet {
            highest_inner_distance: 0,
            first_point: point,
            last_point: point,
            flattened_group: HiearchyItem::Item(point),
            source: Ghost(source),
        },
    }
}

fn dissolve_if_needed<P: Point>(
    group_to_dissolve: FlattenRet<P>,
    final_group: &mut Vec<HiearchyItem<P>>,
    depth: Depth,
    highest_inner_distance: Distance,
)
    requires
        highest_inner_distance > 0,
        flatten_ret_ok(group_to_dissolve, group_to_dissolve.source@, depth),
    ensures
        final(final_group)@.len() >= old(final_group)@.len(),
        final(final_group)@.take(old(final_group)@.len() as int) == old(final_group)@,
        are_members(
            final(final_group)@.skip(old(final_group)@.len() as int),
            group_to_dissolve.source@,
            highest_inner_distance,
            depth,
        ),
{
    let ghost t = group_to_dissolve.source@;
    // How "weak" is group
    let product: u128 = Depth::MAX as u128 * group_to_dissolve.highest_inner_distance as u128;
    let first_group_weakness = (product / highest_inner_distance as u128) as Depth;
    proof {
        assert(first_group_weakness == weakness(group_to_dissolve.highest_inner_distance, highest_inner_distance));
    }
    if first_group_weakness <= depth {
        let ghost h = group_to_dissolve.flattened_group;
        final_group.push(group_to_dissolve.flattened_group);
        proof {
            assert(final_group@.skip(old(final_group)@.len() as int) =~= seq![h]);
            assert(final_group@.take(old(final_group)@.len() as int) =~= old(final_group)@);
        }
    } else {
        match group_to_dissolve.flattened_group {
            HiearchyItem::Group(mut members) => {
                let ghost ms = members@;
                final_group.append(&mut members);
                proof {
                    assert(final_group@.skip(old(final_group)@.len() as int) =~= ms);
                    assert(final_group@.take(old(final_group)@.len() as int) =~= old(final_group)@);
                }
            },
            HiearchyItem::Item(_) => {
                // A point has no inner distance, so its weakness is zero and it is never dissolved.
                proof {
                    match t {
                        BinTree::Leaf(p) => {
                            assert(first_group_weakness == 0);
                        },
                        BinTree::InnerNode { .. } => {},
                    }
                }
            },
        }
    }
}

/// Sort points by the geogroup algorithm
pub fn sort<P: Point + Copy>(points: Vec<P>, depth: Depth) -> (r: HiearchyItem<P>)
    requires
        points.len() >= 1,
        forall|i: int| 0 <= i < points.len() - 1 ==> #[trigger] point_gap(points@, i) > 0,
    ensures
        item_points(r) == points@,
        forall|t: BinTree<P>|
            tree_points(t) == points@ && #[trigger] is_last_max_tree(t) ==> is_flattened(r, t, depth),
{
    let ghost pts = points@;
    let t = sort_to_binary_tree(points);
    proof {
        lemma_last_max_tree_positive(t);
    }
    let r = flatten(t, depth);
    proof {
        assert forall|t2: BinTree<P>|
            tree_points(t2) == pts && #[trigger] is_last_max_tree(t2) implies is_flattened(r, t2, depth) by {
            lemma_last_max_tree_unique(t, t2);
        }
    }
    r
}

/// In a tree split at the largest distances, every inner distance is positive when all
/// distances between neighbours are.
proof fn lemma_last_max_tree_positive<P: Point>(t: BinTree<P>)
    requires
        is_last_max_tree(t),
        forall|i: int| 0 <= i < tree_points(t).len() - 1 ==> #[trigger] point_gap(tree_points(t), i) > 0,
    ensures
        inner_distances_positive(t),
    decreases t,
{
    match t {
        BinTree::Leaf(_) => {},
        BinTree::InnerNode { children, .. } => {
            let l = tree_points(children.0);
            let r = tree_points(children.1);
            lemma_tree_points_nonempty(children.0);
            lemma_tree_points_nonempty(children.1);
            let all = tree_points(t);
            assert(all == l + r);
            assert(point_gap(all, l.len() - 1) > 0);
            assert(point_gap(all, l.len() - 1) == inner_distance(children.0, children.1));
            assert forall|i: int| 0 <= i < l.len() - 1 implies #[trigger] point_gap(l, i) > 0 by {
                assert(point_gap(all, i) == point_gap(l, i));
            }
            assert forall|i: int| 0 <= i < r.len() - 1 implies #[trigger] point_gap(r, i) > 0 by {
                assert(point_gap(all, l.len() + i) == point_gap(r, i));
            }
            lemma_last_max_tree_positive(children.0);
            lemma_last_max_tree_positive(children.1);
        },
    }
}

} // verus!
