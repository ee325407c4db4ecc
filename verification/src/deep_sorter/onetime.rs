//! Building the binary tree of items in one pass.

use vstd::prelude::*;
use itertools::Itertools;
use crate::bintree::{BinTree, BTInnerNode, HorizontalIdx, leaves, node_ids, lemma_leaves_nonempty};
use crate::common::{CameraId, Distance, Point, SortableItem, Time};

verus! {

/// Position of an item which is known to have one.
pub open spec fn item_pos<Item: SortableItem>(it: Item) -> Item::Position {
    match it.position() {
        Some(p) => p,
        None => arbitrary(),
    }
}

/// Distance between the positions of two items.
pub open spec fn item_distance<Item: SortableItem>(a: Item, b: Item) -> Distance {
    item_pos(a).spec_distance(&item_pos(b))
}

/// Every item of the sequence has a position.
pub open spec fn positions_known<Item: SortableItem>(s: Seq<Item>) -> bool {
    forall|i: int| 0 <= i < s.len() ==> (#[trigger] s[i]).position() is Some
}

/// The distance between the `i`-th and the next item of the sequence.
pub open spec fn gap_at<Item: SortableItem>(s: Seq<Item>, i: int) -> Distance {
    item_distance(s[i], s[i + 1])
}

/// All distances between neighbouring items of `s` are below `bound` (or equal to it, when not `strict`).
pub open spec fn gaps_below<Item: SortableItem>(s: Seq<Item>, bound: Distance, strict: bool) -> bool {
    forall|i: int|
        0 <= i < s.len() - 1 ==> if strict {
            #[trigger] gap_at(s, i) < bound
        } else {
            gap_at(s, i) <= bound
        }
}

/// The distance between the two children of an inner node: from the last item of the left
/// child to the first item of the right one.
pub open spec fn split_gap<Item: SortableItem, ND>(n: BTInnerNode<Item, ND>) -> Distance {
    item_distance(leaves(n.positioned_children.0).last(), leaves(n.positioned_children.1)[0])
}

/// Every inner node splits its items at the first largest distance between neighbouring items:
/// the distances inside the left child are all smaller and those inside the right child are
/// not larger.
pub open spec fn is_max_gap_tree<Item: SortableItem, ND>(t: BinTree<Item, ND>) -> bool
    decreases t,
{
    match t {
        BinTree::Leaf(..) => true,
        BinTree::InnerNode(n) => {
            &&& n.additional_middle_leaves@.len() == 0
            &&& gaps_below(leaves(n.positioned_children.0), split_gap(n), true)
            &&& gaps_below(leaves(n.positioned_children.1), split_gap(n), false)
            &&& is_max_gap_tree(n.positioned_children.0)
            &&& is_max_gap_tree(n.positioned_children.1)
        },
    }
}

/// The split distances of the inner nodes on the path from the root to the last item.
pub open spec fn spine_seps<Item: SortableItem, ND>(t: BinTree<Item, ND>) -> Seq<Distance>
    decreases t,
{
    match t {
        BinTree::Leaf(..) => Seq::empty(),
        BinTree::InnerNode(n) => seq![split_gap(n)] + spine_seps(n.positioned_children.1),
    }
}

/// `output` is `input` sorted by time, with items of equal time kept in their order.
pub open spec fn is_stable_sort_by_time<Item: SortableItem>(input: Seq<Item>, output: Seq<Item>) -> bool {
    exists|perm: Seq<int>|
        {
            &&& perm.len() == input.len()
            &&& output.len() == input.len()
            &&& forall|i: int| 0 <= i < perm.len() ==> 0 <= #[trigger] perm[i] < input.len()
            &&& forall|i: int, j: int| 0 <= i < j < perm.len() ==> perm[i] != perm[j]
            &&& forall|i: int| 0 <= i < perm.len() ==> output[i] == input[#[trigger] perm[i]]
            &&& forall|i: int, j: int|
                0 <= i < j < output.len() ==> (#[trigger] output[i]).time() <= (#[trigger] output[j]).time()
            &&& forall|i: int, j: int|
                0 <= i < j < output.len() && output[i].time() == output[j].time() ==> perm[i] < perm[j]
        }
}

/// The items of `s` which have a position, in their order.
pub open spec fn with_position<Item: SortableItem>(s: Seq<Item>) -> Seq<Item> {
    s.filter(|it: Item| it.position() is Some)
}

/// Sorts the items by time with `Itertools::sorted_by_key`.
///
/// The claim: the result holds the same items, ordered by [`SortableItem::get_time`],
/// and items of equal time keep their order (`sorted_by_key` is documented as a stable sort).
#[verifier::external_body]
fn sorted_by_time<Item: SortableItem>(items: Vec<Item>) -> (r: Vec<Item>)
    ensures
        is_stable_sort_by_time(items@, r@),
{
    items.into_iter().sorted_by_key(|it| it.get_time()).collect()
}

/// The path from the root to the last item, as recorded for the camera that took it.
#[derive(Clone, Copy)]
struct CameraPathComponent {
    pub child_index: HorizontalIdx,
    pub inner_separation: Distance,
}

/// The path matches the right-most branch of the tree: it always goes right and records the
/// split distance of every inner node it passes.
spec fn path_matches_spine<Item: SortableItem, ND>(
    path: Seq<CameraPathComponent>,
    t: BinTree<Item, ND>,
) -> bool {
    &&& path.len() == spine_seps(t).len()
    &&& forall|i: int|
        0 <= i < path.len() ==> (#[trigger] path[i]).child_index == HorizontalIdx::Right
            && path[i].inner_separation == spine_seps(t)[i]
}

proof fn lemma_spine_empty_is_leaf<Item: SortableItem, ND>(t: BinTree<Item, ND>)
    ensures
        spine_seps(t).len() == 0 <==> t is Leaf,
{
    match t {
        BinTree::Leaf(..) => {},
        BinTree::InnerNode(n) => {
            assert(spine_seps(t)[0] == split_gap(n));
        },
    }
}

/// In a max-gap tree no distance between neighbouring items exceeds the split distance of the root.
pub(crate) proof fn lemma_gaps_below_root<Item: SortableItem, ND>(n: BTInnerNode<Item, ND>)
    requires
        is_max_gap_tree(BinTree::InnerNode(n)),
    ensures
        gaps_below(leaves(BinTree::InnerNode(n)), split_gap(n), false),
{
    let l = leaves(n.positioned_children.0);
    let r = leaves(n.positioned_children.1);
    let s = leaves(BinTree::InnerNode(n));
    lemma_leaves_nonempty(n.positioned_children.0);
    lemma_leaves_nonempty(n.positioned_children.1);
    assert(n.additional_middle_leaves@.map_values(|p: (Item, u64)| p.0) =~= Seq::<Item>::empty());
    assert(s =~= l + r);
    assert forall|i: int| 0 <= i < s.len() - 1 implies gap_at(s, i) <= split_gap(n) by {
        if i < l.len() - 1 {
            assert(s[i] == l[i] && s[i + 1] == l[i + 1]);
            assert(gap_at(l, i) < split_gap(n));
        } else if i == l.len() - 1 {
            assert(s[i] == l.last() && s[i + 1] == r[0]);
        } else {
            let k = i - l.len();
            assert(s[i] == r[k] && s[i + 1] == r[k + 1]);
            assert(gap_at(r, k) <= split_gap(n));
        }
    }
}

/// Adds a new item right after the last item of the tree, as a sibling of the node reached by
/// following `path` from index `depth` to index `stop`.
fn insert_on_spine<Item: SortableItem>(
    tree: BinTree<Item, ()>,
    path: &Vec<CameraPathComponent>,
    depth: usize,
    stop: usize,
    leaf: BinTree<Item, ()>,
    node_id: u64,
    d: Distance,
) -> (r: BinTree<Item, ()>)
    requires
        depth <= stop <= path.len(),
        is_max_gap_tree(tree),
        positions_known(leaves(tree)),
        leaf is Leaf,
        positions_known(leaves(leaf)),
        path_matches_spine(path@.subrange(depth as int, path.len() as int), tree),
        d == item_distance(leaves(tree).last(), leaves(leaf)[0]),
        forall|j: int| depth <= j < stop ==> (#[trigger] path@[j]).inner_separation >= d,
        stop < path.len() ==> path@[stop as int].inner_separation < d,
    ensures
        leaves(r) == leaves(tree) + leaves(leaf),
        is_max_gap_tree(r),
        spine_seps(r) == spine_seps(tree).take(stop - depth).push(d),
        node_ids(r) == node_ids(tree).union(node_ids(leaf)).insert(node_id),
    decreases stop - depth,
{
    proof {
        lemma_leaves_nonempty(tree);
        lemma_spine_empty_is_leaf(tree);
    }
    if depth == stop {
        let ghost old_tree = tree;
        let middle: Vec<(Item, u64)> = Vec::new();
        let r = BinTree::InnerNode(
            BTInnerNode {
                positioned_children: Box::new((tree, leaf)),
                node_data: (),
                additional_middle_leaves: middle,
                node_id,
            },
        );
        proof {
            assert(middle@.map_values(|p: (Item, u64)| p.0) =~= Seq::<Item>::empty());
            assert(leaves(r) =~= leaves(old_tree) + leaves(leaf));
            let rn = r->InnerNode_0;
            assert(rn.positioned_children.0 == old_tree);
            assert(rn.positioned_children.1 == leaf);
            assert(split_gap(rn) == d);
            match old_tree {
                BinTree::Leaf(..) => {
                    assert(leaves(old_tree).len() == 1);
                },
                BinTree::InnerNode(n) => {
                    lemma_gaps_below_root(n);
                    assert(spine_seps(old_tree)[0] == split_gap(n));
                    assert(path@.subrange(depth as int, path.len() as int)[0] == path@[stop as int]);
                    assert(split_gap(n) < d);
                    let lv = leaves(old_tree);
                    assert forall|i: int| 0 <= i < lv.len() - 1 implies #[trigger] gap_at(lv, i) < d by {
                        assert(gap_at(lv, i) <= split_gap(n));
                    }
                },
            }
            assert(leaves(leaf).len() == 1);
            assert(gaps_below(leaves(leaf), d, false));
            assert(is_max_gap_tree(leaf));
            assert(middle@.len() == 0);
            assert(is_max_gap_tree(r));
            assert(spine_seps(leaf) =~= Seq::<Distance>::empty());
            assert(spine_seps(r) =~= spine_seps(old_tree).take(0).push(d));
            assert(middle@.map_values(|p: (Item, u64)| p.1).to_set() =~= Set::<u64>::empty());
            assert(node_ids(r) =~= node_ids(old_tree).union(node_ids(leaf)).insert(node_id));
        }
        r
    } else {
        match tree {
            BinTree::InnerNode(n) => {
                let ghost old_n = n;
                let BTInnerNode { positioned_children, node_data, additional_middle_leaves, node_id: nid } = n;
                let (left, right) = *positioned_children;
                proof {
                    let sub = path@.subrange(depth as int, path.len() as int);
                    assert(sub[0] == path@[depth as int]);
                    assert(spine_seps(BinTree::InnerNode(old_n))[0] == split_gap(old_n));
                    assert(path@.subrange(depth + 1, path.len() as int) =~= sub.drop_first());
                    assert(spine_seps(right) =~= spine_seps(BinTree::InnerNode(old_n)).drop_first());
                    lemma_leaves_nonempty(right);
                    lemma_leaves_nonempty(left);
                    assert(additional_middle_leaves@.map_values(|p: (Item, u64)| p.0) =~= Seq::<Item>::empty());
                    assert(leaves(BinTree::InnerNode(old_n)) =~= leaves(left) + leaves(right));
                    assert(leaves(BinTree::InnerNode(old_n)).last() == leaves(right).last());
                    assert forall|i: int| 0 <= i < leaves(right).len() implies (#[trigger] leaves(right)[i]).position() is Some by {
                        assert(leaves(right)[i] == leaves(BinTree::InnerNode(old_n))[leaves(left).len() + i]);
                    }
                    assert forall|i: int| 0 <= i < leaves(left).len() implies (#[trigger] leaves(left)[i]).position() is Some by {
                        assert(leaves(left)[i] == leaves(BinTree::InnerNode(old_n))[i]);
                    }
                }
                let new_right = insert_on_spine(right, path, depth + 1, stop, leaf, node_id, d);
                let r = BinTree::InnerNode(
                    BTInnerNode {
                        positioned_children: Box::new((left, new_right)),
                        node_data,
                        additional_middle_leaves,
                        node_id: nid,
                    },
                );
                proof {
                    let g = split_gap(old_n);
                    let rn = r->InnerNode_0;
                    lemma_leaves_nonempty(leaf);
                    assert(leaves(new_right)[0] == leaves(right)[0]);
                    assert(split_gap(rn) == g);
                    assert(additional_middle_leaves@.map_values(|p: (Item, u64)| p.0) =~= Seq::<Item>::empty());
                    assert(leaves(r) =~= leaves(BinTree::InnerNode(old_n)) + leaves(leaf));
                    let nr = leaves(new_right);
                    let rr = leaves(right);
                    assert forall|i: int| 0 <= i < nr.len() - 1 implies gap_at(nr, i) <= g by {
                        if i < rr.len() - 1 {
                            assert(nr[i] == rr[i] && nr[i + 1] == rr[i + 1]);
                            assert(gap_at(rr, i) <= g);
                        } else {
                            assert(nr[i] == rr.last());
                            assert(nr[i + 1] == leaves(leaf)[0]);
                            assert(path@[depth as int].inner_separation >= d);
                        }
                    }
                    assert(spine_seps(r) =~= spine_seps(BinTree::InnerNode(old_n)).take(stop - depth).push(d));
                    assert(is_max_gap_tree(r));
                    assert(additional_middle_leaves@.map_values(|p: (Item, u64)| p.1).to_set() =~= Set::<u64>::empty());
                    assert(node_ids(r) =~= node_ids(BinTree::InnerNode(old_n)).union(node_ids(leaf)).insert(node_id));
                }
                r
            },
            BinTree::Leaf(..) => {
                proof {
                    assert(path@.subrange(depth as int, path.len() as int).len() > 0);
                }
                tree
            },
        }
    }
}

/// Reverses a vector.
fn reversed<T>(v: Vec<T>) -> (r: Vec<T>)
    ensures
        r@ == v@.reverse(),
{
    let ghost orig = v@;
    let mut v = v;
    let mut r: Vec<T> = Vec::new();
    while v.len() > 0
        invariant
            orig == v@ + r@.reverse(),
        decreases v.len(),
    {
        let x = v.pop().unwrap();
        r.push(x);
        proof {
            assert(orig =~= v@ + r@.reverse());
        }
    }
    proof {
        assert(r@.reverse().reverse() =~= r@);
        assert(orig =~= r@.reverse());
        assert(orig.reverse() =~= r@);
    }
    r
}

/// Same as [`sort_to_binary_tree`], but assumes that the points are ordered.
///
/// The items must all have a position and must all come from the camera of the first item.
/// Leaf ids are the indices of the items, inner node ids follow after them.
pub fn sort_ordered_to_binary_tree<Item: SortableItem>(items: Vec<Item>) -> (tree: BinTree<Item, ()>)
    requires
        items.len() >= 1,
        2 * items.len() <= u64::MAX,
        positions_known(items@),
        forall|i: int| 0 <= i < items.len() ==> (#[trigger] items@[i]).camera() == items@[0].camera(),
    ensures
        leaves(tree) == items@,
        is_max_gap_tree(tree),
        node_ids(tree) == Set::new(|id: u64| id < 2 * items.len() - 1),
{
    let ghost orig = items@;
    let n = items.len();
    let mut rest = reversed(items);
    proof {
        assert(rest@.last() == orig[0]);
    }
    let first_point = rest.pop().unwrap();
    let first_pos = first_point.get_position().expect("to_binary_tree called with an item without position");
    let mut the_bintree: BinTree<Item, ()> = BinTree::Leaf(first_point, 0, ());
    let mut last_point = first_pos;
    let mut path_to_last_point: Vec<CameraPathComponent> = Vec::new();
    let mut i: usize = 1;
    proof {
        assert(leaves(the_bintree) =~= orig.take(1));
        assert(rest@.reverse() =~= orig.subrange(1, n as int)) by {
            assert(orig.reverse() =~= rest@.push(orig[0]));
        }
        assert(node_ids(the_bintree) =~= Set::new(|id: u64| id < 1 || (n <= id && id < n + 1 - 1)));
    }
    while rest.len() > 0
        invariant
            1 <= i <= n,
            n == orig.len(),
            2 * n <= u64::MAX,
            positions_known(orig),
            rest@.reverse() == orig.subrange(i as int, n as int),
            leaves(the_bintree) == orig.take(i as int),
            is_max_gap_tree(the_bintree),
            path_matches_spine(path_to_last_point@, the_bintree),
            last_point == item_pos(orig[i - 1]),
            node_ids(the_bintree) == Set::new(|id: u64| id < i || (n <= id && id < n + i - 1)),
        decreases rest.len(),
    {
        proof {
            assert(rest@.reverse().len() == rest.len());
            assert(rest@.reverse()[0] == rest@.last());
            assert(orig[i as int] == orig.subrange(i as int, n as int)[0]);
        }
        let item_to_append = rest.pop().unwrap();
        proof {
            assert(rest@.reverse() =~= orig.subrange(i + 1, n as int)) by {
                assert(orig.subrange(i as int, n as int) =~= seq![orig[i as int]] + orig.subrange(i + 1, n as int));
                assert(orig.subrange(i as int, n as int).drop_first() =~= orig.subrange(i + 1, n as int));
                assert(rest@.reverse() =~= orig.subrange(i as int, n as int).drop_first());
            }
        }
        let item_to_append_pos = item_to_append.get_position().expect("to_binary_tree called with an item without position");
        let distance_from_prev_point = last_point.distance(&item_to_append_pos);

        // Find the node closest to the root whose inner separation is lower than the distance
        // between the new item and the previous one.
        let mut stop: usize = 0;
        while stop < path_to_last_point.len() && !(path_to_last_point[stop].inner_separation < distance_from_prev_point)
            invariant
                stop <= path_to_last_point.len(),
                forall|j: int| 0 <= j < stop ==> (#[trigger] path_to_last_point@[j]).inner_separation >= distance_from_prev_point,
            decreases path_to_last_point.len() - stop,
        {
            stop = stop + 1;
        }

        let leaf = BinTree::Leaf(item_to_append, i as u64, ());
        proof {
            lemma_leaves_nonempty(the_bintree);
            assert(leaves(the_bintree).last() == orig[i - 1]);
            assert(path_to_last_point@.subrange(0, path_to_last_point.len() as int) =~= path_to_last_point@);
            assert(leaves(leaf) =~= seq![orig[i as int]]);
        }
        let ghost old_tree = the_bintree;
        the_bintree = insert_on_spine(the_bintree, &path_to_last_point, 0, stop, leaf, (n as u64) - 1 + (i as u64), distance_from_prev_point);

        path_to_last_point.truncate(stop);
        path_to_last_point.push(CameraPathComponent { child_index: HorizontalIdx::Right, inner_separation: distance_from_prev_point });
        last_point = item_to_append_pos;
        proof {
            assert(leaves(the_bintree) =~= orig.take(i + 1));
            assert(spine_seps(old_tree).take(stop as int) =~= spine_seps(old_tree).take(stop - 0));
            assert(node_ids(the_bintree) =~= Set::new(|id: u64| id < i + 1 || (n <= id && id < n + (i + 1) - 1)));
        }
        i = i + 1;
    }
    proof {
        assert(rest@.reverse().len() == 0);
        assert(orig.take(i as int) =~= orig);
        assert(node_ids(the_bintree) =~= Set::new(|id: u64| id < 2 * n - 1));
    }
    the_bintree
}

/// Sort points to binary tree.
///
/// The items without a position are left out; the others are ordered by time and split into
/// two groups at the largest distance between neighbours, recursively.
///
/// Requires at least one item with a position, and all items with a position from one camera.
pub fn sort_to_binary_tree<Item: SortableItem>(points: Vec<Item>) -> (tree: BinTree<Item, ()>)
    requires
        exists|i: int| 0 <= i < points.len() && (#[trigger] points@[i]).position() is Some,
        2 * points.len() <= u64::MAX,
        forall|i: int, j: int|
            0 <= i < points.len() && 0 <= j < points.len() && points@[i].position() is Some && points@[j].position() is Some
                ==> (#[trigger] points@[i]).camera() == (#[trigger] points@[j]).camera(),
    ensures
        is_stable_sort_by_time(with_position(points@), leaves(tree)),
        is_max_gap_tree(tree),
        node_ids(tree) == Set::new(|id: u64| id < 2 * leaves(tree).len() - 1),
{
    let ghost orig = points@;
    let mut kept: Vec<Item> = Vec::new();
    let mut points = points;
    let mut rest = reversed(points);
    let ghost mut taken: int = 0;
    proof {
        assert(rest@.reverse() =~= orig);
        reveal_with_fuel(Seq::filter, 1);
        assert(orig.take(0).filter(|it: Item| it.position() is Some) =~= kept@);
    }
    while rest.len() > 0
        invariant
            0 <= taken <= orig.len(),
            rest@.reverse() == orig.subrange(taken, orig.len() as int),
            kept@ == orig.take(taken).filter(|it: Item| it.position() is Some),
            positions_known(kept@),
            forall|i: int| 0 <= i < kept.len() ==> exists|j: int| 0 <= j < taken && (#[trigger] kept@[i]) == orig[j],
        decreases rest.len(),
    {
        proof {
            assert(rest@.reverse().len() == rest.len());
            assert(rest@.reverse()[0] == rest@.last());
            assert(orig[taken] == orig.subrange(taken, orig.len() as int)[0]);
        }
        let point = rest.pop().unwrap();
        proof {
            assert(rest@.reverse() =~= orig.subrange(taken + 1, orig.len() as int)) by {
                assert(rest@.reverse() =~= orig.subrange(taken, orig.len() as int).drop_first());
            }
            reveal_with_fuel(Seq::filter, 1);
            assert(orig.take(taken + 1).drop_last() =~= orig.take(taken));
        }
        let has_position = point.get_position().is_ok();
        if has_position {
            kept.push(point);
        }
        proof {
            taken = taken + 1;
            assert forall|i: int| 0 <= i < kept.len() implies exists|j: int| 0 <= j < taken && (#[trigger] kept@[i]) == orig[j] by {
                if i == kept.len() - 1 && has_position {
                    assert(kept@[i] == orig[taken - 1]);
                }
            }
        }
    }
    proof {
        assert(orig.take(taken) =~= orig);
        let w = choose|i: int| 0 <= i < orig.len() && (#[trigger] orig[i]).position() is Some;
        lemma_filter_keeps(orig, w);
    }
    let sorted = sorted_by_time(kept);
    proof {
        let perm = choose|perm: Seq<int>| {
            &&& perm.len() == kept@.len()
            &&& sorted@.len() == kept@.len()
            &&& forall|i: int| 0 <= i < perm.len() ==> 0 <= #[trigger] perm[i] < kept@.len()
            &&& forall|i: int, j: int| 0 <= i < j < perm.len() ==> perm[i] != perm[j]
            &&& forall|i: int| 0 <= i < perm.len() ==> sorted@[i] == kept@[#[trigger] perm[i]]
            &&& forall|i: int, j: int|
                0 <= i < j < sorted@.len() ==> (#[trigger] sorted@[i]).time() <= (#[trigger] sorted@[j]).time()
            &&& forall|i: int, j: int|
                0 <= i < j < sorted@.len() && sorted@[i].time() == sorted@[j].time() ==> perm[i] < perm[j]
        };
        assert forall|i: int| 0 <= i < sorted.len() implies (#[trigger] sorted@[i]).position() is Some by {
            assert(sorted@[i] == kept@[perm[i]]);
        }
        assert forall|i: int| 0 <= i < sorted.len() implies (#[trigger] sorted@[i]).camera() == sorted@[0].camera() by {
            let a = choose|j: int| 0 <= j < orig.len() && kept@[perm[i]] == orig[j];
            let b = choose|j: int| 0 <= j < orig.len() && kept@[perm[0]] == orig[j];
            assert(sorted@[i] == kept@[perm[i]]);
            assert(sorted@[0] == kept@[perm[0]]);
            assert(kept@[perm[i]].position() is Some);
            assert(kept@[perm[0]].position() is Some);
            assert(orig[a].camera() == orig[b].camera());
        }
    }
    sort_ordered_to_binary_tree(sorted)
}

/// An item with a position is kept by the filter, so the result is not empty.
proof fn lemma_filter_keeps<Item: SortableItem>(s: Seq<Item>, w: int)
    requires
        0 <= w < s.len(),
        s[w].position() is Some,
    ensures
        s.filter(|it: Item| it.position() is Some).len() >= 1,
    decreases s.len(),
{
    reveal_with_fuel(Seq::filter, 1);
    if w == s.len() - 1 {
    } else {
        lemma_filter_keeps(s.drop_last(), w);
        assert(s.drop_last()[w] == s[w]);
    }
}

} // verus!
