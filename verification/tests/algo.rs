use geogroup::algo::{flatten, sort, sort_to_binary_tree, BinTree, HiearchyItem};

fn item(p: u64) -> HiearchyItem<u64> {
    HiearchyItem::Item(p)
}

fn group(v: Vec<HiearchyItem<u64>>) -> HiearchyItem<u64> {
    HiearchyItem::Group(v)
}

fn points_of(t: &BinTree<u64>) -> Vec<u64> {
    match t {
        BinTree::Leaf(p) => vec![*p],
        BinTree::InnerNode { children, .. } => {
            let mut v = points_of(&children.0);
            v.extend(points_of(&children.1));
            v
        }
    }
}

#[test]
fn binary_tree_splits_at_the_last_largest_gap() {
    let t = sort_to_binary_tree(vec![0u64, 2, 3, 8, 9, 14]);
    match &t {
        BinTree::InnerNode { children, .. } => {
            assert_eq!(points_of(&children.0), vec![0, 2, 3, 8, 9]);
            assert_eq!(points_of(&children.1), vec![14]);
        }
        BinTree::Leaf(_) => panic!("expected a group"),
    }
}

#[test]
fn equal_gaps_split_at_the_last_one() {
    let t = sort_to_binary_tree(vec![0u64, 1, 2]);
    match &t {
        BinTree::InnerNode { children, .. } => {
            assert_eq!(points_of(&children.0), vec![0, 1]);
            assert_eq!(points_of(&children.1), vec![2]);
        }
        BinTree::Leaf(_) => panic!("expected a group"),
    }
}

#[test]
fn single_point_is_a_leaf() {
    let t = sort_to_binary_tree(vec![7u64]);
    assert!(matches!(t, BinTree::Leaf(7)));
    assert_eq!(flatten(t, 10), item(7));
}

#[test]
fn sort_dissolves_weak_groups() {
    let r = sort(vec![0u64, 2, 3, 8, 9, 14], 30000);
    assert_eq!(
        r,
        group(vec![group(vec![item(0), item(2), item(3)]), group(vec![item(8), item(9)]), item(14)])
    );
}

#[test]
fn sort_with_maximal_depth_keeps_every_group() {
    let r = sort(vec![0u64, 10, 11], u16::MAX);
    assert_eq!(r, group(vec![item(0), group(vec![item(10), item(11)])]));
}

#[test]
fn sort_with_zero_depth_keeps_only_points() {
    let r = sort(vec![0u64, 10, 11], 0);
    assert_eq!(r, group(vec![item(0), item(10), item(11)]));
}

fn count_groups(h: &HiearchyItem<u64>) -> usize {
    match h {
        HiearchyItem::Item(_) => 0,
        HiearchyItem::Group(v) => 1 + v.iter().map(count_groups).sum::<usize>(),
    }
}

#[test]
fn deeper_flattening_keeps_more_groups() {
    let points = vec![0u64, 2, 3, 8, 9, 14, 30, 31, 50];
    let mut last = 0;
    for depth in [0u16, 1000, 20000, 40000, 60000, u16::MAX] {
        let h = sort(points.clone(), depth);
        let n = count_groups(&h);
        assert!(n >= last, "depth {depth} gives {n} groups, fewer than {last}");
        last = n;
    }
    assert_eq!(count_groups(&sort(points.clone(), u16::MAX)), points.len() - 1);
}
