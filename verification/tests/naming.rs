use geogroup::common::ConcreteSortableItem;
use geogroup::deep_sorter::naming::{group_name, NamingErr, NamingRes};
use geogroup::deep_sorter::{DeepSorter, GroupInfo, NodeInfo};
use geogroup::hierarchy::concrete::{Group, Node};
use std::convert::Infallible;

type TestItem = ConcreteSortableItem<u64, String, Infallible>;
type NamingSorter = DeepSorter<TestItem, u32, NamingErr<String>>;
type DeepGroup<'a> = Group<GroupInfo, &'a TestItem, NodeInfo<'a, TestItem, u32, NamingErr<String>>>;
type Name = Option<Result<Vec<u32>, NamingErr<String>>>;

fn new_item(time: i64, position: u64, id: &str) -> TestItem {
    ConcreteSortableItem { time, position: Ok(position), data: id.to_string() }
}

fn leaf_name(item: &TestItem) -> Result<Vec<u32>, String> {
    match item.position {
        Ok(10) => Ok(vec![1, 2]),
        Ok(11) => Ok(vec![1, 3]),
        Ok(500) => Ok(vec![1, 4]),
        _ => Err(String::from("no tile")),
    }
}

fn ok_name(n: &Name) -> Option<Vec<u32>> {
    match n {
        Some(Ok(v)) => Some(v.clone()),
        _ => None,
    }
}

fn child_group<'a, 'b>(g: &'b DeepGroup<'a>, i: usize) -> &'b DeepGroup<'a> {
    match &g.children[i] {
        Node::Group(sub) => sub,
        Node::Leaf(_) => panic!("expected a group"),
    }
}

fn child_name(g: &DeepGroup, i: usize) -> Name {
    match &g.children[i] {
        Node::Group(sub) => sub.node_data.get_naming_data(),
        Node::Leaf(l) => l.node_data.get_naming_data(),
    }
}

#[test]
fn group_name_intersects_successful_names() {
    let names = vec![Some(vec![1u32, 2, 3]), None, Some(vec![2, 3, 4])];
    assert_eq!(group_name(&names), Some(vec![2, 3]));
}

#[test]
fn group_name_takes_the_next_name_while_empty() {
    let names = vec![Some(Vec::<u32>::new()), Some(vec![5])];
    assert_eq!(group_name(&names), Some(vec![5]));
}

#[test]
fn group_name_without_names_is_none() {
    let names: Vec<Option<Vec<u32>>> = vec![None, None];
    assert_eq!(group_name(&names), None);
    let empty: Vec<Option<Vec<u32>>> = Vec::new();
    assert_eq!(group_name(&empty), None);
}

#[test]
fn naming_result_as_option() {
    let already: NamingRes<u32, String> = NamingRes::AlreadyNamed(Some(vec![3]));
    assert_eq!(already.as_option(), Some(&vec![3]));
    assert_eq!(already.into_option(), Some(vec![3]));
    let failed: NamingRes<u32, String> = NamingRes::NewlyNamed(Err(NamingErr::ChildrenFailed));
    assert_eq!(failed.as_option(), None);
    assert_eq!(failed.into_option(), None);
    let newly: NamingRes<u32, String> = NamingRes::NewlyNamed(Ok(vec![1, 2]));
    assert_eq!(newly.into_option(), Some(vec![1, 2]));
}

#[test]
fn naming_stores_the_part_the_parent_lacks() {
    let mut sorter = NamingSorter::new(vec![
        new_item(1, 10, "a"),
        new_item(2, 11, "b"),
        new_item(3, 500, "c"),
    ]);
    sorter.try_naming(leaf_name);
    let h = sorter.deep_hierarchy(|_, _| 0);
    let root = &h.root_group;
    assert_eq!(ok_name(&root.node_data.get_naming_data()), Some(vec![1]));
    let left = child_group(root, 0);
    assert_eq!(ok_name(&left.node_data.get_naming_data()), Some(vec![]));
    assert_eq!(ok_name(&child_name(left, 0)), Some(vec![2]));
    assert_eq!(ok_name(&child_name(left, 1)), Some(vec![3]));
    assert_eq!(ok_name(&child_name(root, 1)), Some(vec![4]));
}

#[test]
fn failed_leaf_keeps_its_error() {
    let mut sorter = NamingSorter::new(vec![
        new_item(1, 10, "a"),
        new_item(2, 11, "b"),
        new_item(3, 900, "c"),
    ]);
    sorter.try_naming(leaf_name);
    let h = sorter.deep_hierarchy(|_, _| 0);
    let root = &h.root_group;
    assert_eq!(ok_name(&root.node_data.get_naming_data()), Some(vec![1]));
    match child_name(root, 1) {
        Some(Err(NamingErr::Leaf(e))) => assert_eq!(e, "no tile"),
        other => panic!("unexpected name {:?}", other),
    }
}

#[test]
fn every_leaf_failing_fails_the_group() {
    let mut sorter = NamingSorter::new(vec![new_item(1, 1, "a"), new_item(2, 2, "b")]);
    sorter.try_naming(leaf_name);
    let h = sorter.deep_hierarchy(|_, _| 0);
    assert!(matches!(h.root_group.node_data.get_naming_data(), Some(Err(NamingErr::ChildrenFailed))));
}

#[test]
fn naming_twice_changes_nothing() {
    let mut sorter = NamingSorter::new(vec![
        new_item(1, 10, "a"),
        new_item(2, 11, "b"),
        new_item(3, 500, "c"),
    ]);
    sorter.try_naming(leaf_name);
    sorter.try_naming(|_: &TestItem| Ok(vec![9]));
    let h = sorter.deep_hierarchy(|_, _| 0);
    assert_eq!(ok_name(&h.root_group.node_data.get_naming_data()), Some(vec![1]));
    assert_eq!(ok_name(&child_name(&h.root_group, 1)), Some(vec![4]));
}

#[test]
fn group_names_hold_no_item_twice() {
    let names = vec![Some(vec![1u32, 2, 3, 4]), None, Some(vec![4, 2, 9]), Some(vec![2, 4])];
    let name = group_name(&names).unwrap();
    assert_eq!(name, vec![2, 4]);
    for (i, a) in name.iter().enumerate() {
        assert!(!name[i + 1..].contains(a));
    }
}

#[test]
fn cloned_naming_result_keeps_its_name() {
    let results: Vec<NamingRes<u32, ()>> = vec![
        NamingRes::NewlyNamed(Ok(vec![1, 2])),
        NamingRes::NewlyNamed(Err(NamingErr::ChildrenFailed)),
        NamingRes::AlreadyNamed(Some(vec![3])),
        NamingRes::AlreadyNamed(None),
    ];
    for r in results {
        assert_eq!(r.clone().into_option(), r.as_option().cloned());
    }
}
