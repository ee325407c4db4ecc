use geogroup::bintree::HorizontalIdx;
use geogroup::common::{ConcreteSortableItem, ONE_METER_DISTANCE};
use geogroup::deep_sorter::{GroupInfo, StrengthInfo};
use geogroup::geogroup::{should_dissolve, NodeInfo, Params, Sorter, MAX_DEPTH};
use geogroup::hierarchy::concrete::{Group, Node};
use std::convert::Infallible;

type TestItem = ConcreteSortableItem<u64, String, Infallible>;
type TestSorter = Sorter<TestItem, u32, ()>;
type FinalGroup<'a> = Group<GroupInfo, &'a TestItem, NodeInfo<u32, ()>>;

fn new_item(time: i64, position: u64, id: &str) -> TestItem {
    ConcreteSortableItem { time, position: Ok(position), data: id.to_string() }
}

fn leaves(group: &FinalGroup) -> Vec<String> {
    let mut out = Vec::new();
    for child in &group.children {
        match child {
            Node::Group(sub) => out.extend(leaves(sub)),
            Node::Leaf(leaf) => out.push(leaf.leaf_data.data.clone()),
        }
    }
    out
}

fn items() -> Vec<TestItem> {
    vec![
        new_item(3, 12, "c"),
        new_item(1, 10, "a"),
        new_item(2, 11, "b"),
        new_item(4, 500, "d"),
        new_item(5, 501, "e"),
    ]
}

#[test]
fn default_params() {
    let p = Params::default();
    assert_eq!(p.depth, MAX_DEPTH / 2);
    assert_eq!(p.minimum_distance, 100 * ONE_METER_DISTANCE);
}

#[test]
fn hierarchy_keeps_items_in_time_order() {
    let sorter = TestSorter::new(items(), Params { depth: MAX_DEPTH, minimum_distance: 0 });
    let h = sorter.hierarchy(|_, _| MAX_DEPTH);
    assert_eq!(leaves(&h.root_group), vec!["a", "b", "c", "d", "e"]);
}

#[test]
fn large_minimum_distance_dissolves_every_group() {
    let sorter = TestSorter::new(items(), Params { depth: 0, minimum_distance: u64::MAX });
    let h = sorter.hierarchy(|_, _| MAX_DEPTH);
    let root = &h.root_group;
    assert_eq!(root.group_data.strength, StrengthInfo::Root);
    assert_eq!(root.children.len(), 5);
    for child in &root.children {
        match child {
            Node::Leaf(leaf) => {
                let path = &leaf.node_data.local_id_path;
                assert!(!path.is_empty());
                assert!(path.len() >= 2, "a leaf below dissolved groups carries their ids");
            }
            Node::Group(_) => panic!("every group should have been dissolved"),
        }
    }
    assert_eq!(leaves(root), vec!["a", "b", "c", "d", "e"]);
}

#[test]
fn strong_groups_stay() {
    let sorter = TestSorter::new(items(), Params { depth: MAX_DEPTH, minimum_distance: 0 });
    let h = sorter.hierarchy(|_, _| MAX_DEPTH);
    let root = &h.root_group;
    assert_eq!(root.children.len(), 2);
    assert_eq!(root.node_data.local_id_path, vec![HorizontalIdx::Left]);
    assert!(root.node_data.name.is_none());
    match &root.children[0] {
        Node::Group(g) => {
            assert_eq!(leaves(g), vec!["a", "b", "c"]);
            assert_eq!(g.node_data.local_id_path, vec![HorizontalIdx::Left]);
        }
        Node::Leaf(_) => panic!("expected a group"),
    }
}

#[test]
fn weak_groups_dissolve_by_depth() {
    // Every group gets strength 0, which is below `MAX_DEPTH - depth` for any depth below the maximum.
    let sorter = TestSorter::new(items(), Params { depth: 1, minimum_distance: 0 });
    let h = sorter.hierarchy(|_, _| 0);
    assert_eq!(h.root_group.children.len(), 5);
}

#[test]
fn dissolving_rules() {
    let known = |strength| GroupInfo {
        strength: StrengthInfo::Known { strength, parent_separation: 10, self_separation: 5 },
        separation: Some(5),
    };
    let params = Params { depth: 100, minimum_distance: 50 };
    // The parent's separation is below the minimum distance.
    assert!(should_dissolve(&known(MAX_DEPTH), Some(49), params));
    assert!(!should_dissolve(&known(MAX_DEPTH), Some(50), params));
    // The group is weaker than the depth asks for.
    assert!(should_dissolve(&known(MAX_DEPTH - 101), None, params));
    assert!(!should_dissolve(&known(MAX_DEPTH - 100), None, params));
    let other = |strength| GroupInfo { strength, separation: None };
    assert!(!should_dissolve(&other(StrengthInfo::Root), Some(0), params));
    assert!(should_dissolve(&other(StrengthInfo::LessThan2ChildrenWithLocation), None, params));
    assert!(!should_dissolve(&other(StrengthInfo::NoSiblings), Some(0), params));
}

#[test]
fn shared_deep_sorter_is_the_same() {
    let sorter = TestSorter::new(items(), Params::default());
    let shared = sorter.deep_sorter_rc();
    assert!(std::ptr::eq(&*shared, sorter.deep_sorter()));
}

#[test]
fn params_can_be_changed() {
    let mut sorter = TestSorter::new(items(), Params::default());
    sorter.params_mut().depth = 7;
    assert_eq!(sorter.params().depth, 7);
}

#[test]
fn close_items_stay_in_one_group() {
    let sorter = TestSorter::new(items(), Params { depth: MAX_DEPTH, minimum_distance: 5 });
    let h = sorter.hierarchy(|_, _| MAX_DEPTH);
    let root = &h.root_group;
    assert_eq!(root.children.len(), 2);
    match &root.children[0] {
        Node::Group(g) => {
            assert_eq!(g.children.len(), 3);
            assert!(g.children.iter().all(|c| matches!(c, Node::Leaf(_))));
            assert_eq!(leaves(g), vec!["a", "b", "c"]);
        }
        Node::Leaf(_) => panic!("expected a group"),
    }
}

fn paths(
    group: &FinalGroup,
    prefix: &[HorizontalIdx],
    out: &mut Vec<(String, Vec<HorizontalIdx>)>,
) {
    let mut here = prefix.to_vec();
    here.extend(group.node_data.local_id_path.iter().copied());
    for child in &group.children {
        match child {
            Node::Group(sub) => paths(sub, &here, out),
            Node::Leaf(leaf) => {
                let mut p = here.clone();
                p.extend(leaf.node_data.local_id_path.iter().copied());
                out.push((leaf.leaf_data.data.clone(), p));
            }
        }
    }
}

#[test]
fn identification_paths_do_not_depend_on_params() {
    let keep_all = TestSorter::new(items(), Params { depth: MAX_DEPTH, minimum_distance: 0 });
    let dissolve_all = TestSorter::new(items(), Params { depth: 0, minimum_distance: u64::MAX });
    let h1 = keep_all.hierarchy(|_, _| MAX_DEPTH);
    let h2 = dissolve_all.hierarchy(|_, _| MAX_DEPTH);
    let mut p1 = Vec::new();
    let mut p2 = Vec::new();
    paths(&h1.root_group, &[], &mut p1);
    paths(&h2.root_group, &[], &mut p2);
    assert_eq!(p1.len(), 5);
    assert_eq!(p1, p2);
    for i in 0..p1.len() {
        for j in 0..p1.len() {
            if i != j {
                assert_ne!(p1[i].1, p1[j].1, "every item has its own identification path");
            }
        }
    }
}

fn node_path(n: &Node<GroupInfo, &TestItem, NodeInfo<u32, ()>>) -> Vec<HorizontalIdx> {
    match n {
        Node::Group(g) => g.node_data.local_id_path.clone(),
        Node::Leaf(l) => l.node_data.local_id_path.clone(),
    }
}

fn check_prefix_free(group: &FinalGroup) {
    let paths: Vec<Vec<HorizontalIdx>> = group.children.iter().map(node_path).collect();
    for (i, a) in paths.iter().enumerate() {
        assert!(!a.is_empty());
        for (j, b) in paths.iter().enumerate() {
            if i != j {
                assert!(!(a.len() <= b.len() && b[..a.len()] == a[..]), "{a:?} is a prefix of {b:?}");
            }
        }
    }
    for child in &group.children {
        if let Node::Group(sub) = child {
            check_prefix_free(sub);
        }
    }
}

#[test]
fn sibling_paths_are_prefix_free() {
    let all_params = [
        Params { depth: MAX_DEPTH, minimum_distance: 0 },
        Params { depth: 0, minimum_distance: u64::MAX },
        Params { depth: MAX_DEPTH, minimum_distance: 5 },
        Params::default(),
    ];
    for params in all_params {
        let sorter = TestSorter::new(items(), params);
        let h = sorter.hierarchy(|_, _| MAX_DEPTH / 2);
        check_prefix_free(&h.root_group);
    }
}
