use geogroup::bintree::{BinTree, HorizontalIdx};
use geogroup::common::ConcreteSortableItem;
use geogroup::deep_sorter::onetime::{sort_ordered_to_binary_tree, sort_to_binary_tree};
use geogroup::deep_sorter::{DeepSorter, FirstLast, StaticNodeInfo};
use geogroup::type_level_logic::{False, TyOption};
use std::convert::Infallible;

type TestItem = ConcreteSortableItem<u64, &'static str, Infallible>;

fn item(time: i64, position: u64, name: &'static str) -> TestItem {
    ConcreteSortableItem { time, position: Ok(position), data: name }
}

fn names(t: &BinTree<TestItem, ()>) -> Vec<&'static str> {
    match t {
        BinTree::Leaf(i, _, _) => vec![i.data],
        BinTree::InnerNode(n) => {
            let mut v = names(&n.positioned_children.0);
            v.extend(n.additional_middle_leaves.iter().map(|(i, _)| i.data));
            v.extend(names(&n.positioned_children.1));
            v
        }
    }
}

fn ids(t: &BinTree<TestItem, ()>, out: &mut Vec<u64>) {
    out.push(t.id());
    if let BinTree::InnerNode(n) = t {
        ids(&n.positioned_children.0, out);
        ids(&n.positioned_children.1, out);
    }
}

#[test]
fn ordered_items_split_at_largest_gap() {
    let t = sort_ordered_to_binary_tree(vec![item(1, 0, "a"), item(2, 10, "b"), item(3, 11, "c"), item(4, 30, "d")]);
    assert_eq!(names(&t), vec!["a", "b", "c", "d"]);
    match &t {
        BinTree::InnerNode(n) => {
            assert_eq!(names(n.child(HorizontalIdx::Left)), vec!["a", "b", "c"]);
            assert_eq!(names(n.child(HorizontalIdx::Right)), vec!["d"]);
        }
        BinTree::Leaf(..) => panic!("expected a group"),
    }
    assert_eq!(t.get_leftmost_item().data, "a");
    assert_eq!(t.get_rightmost_item().data, "d");
    let mut all = Vec::new();
    ids(&t, &mut all);
    all.sort();
    assert_eq!(all, (0..7).collect::<Vec<u64>>());
}

#[test]
fn items_without_position_are_left_out() {
    let items: Vec<ConcreteSortableItem<u64, &'static str, ()>> = vec![
        ConcreteSortableItem { time: 3, position: Ok(5), data: "late" },
        ConcreteSortableItem { time: 2, position: Err(()), data: "lost" },
        ConcreteSortableItem { time: 1, position: Ok(4), data: "early" },
    ];
    let t = sort_to_binary_tree(items);
    let mut got = Vec::new();
    fn walk(t: &BinTree<ConcreteSortableItem<u64, &'static str, ()>, ()>, out: &mut Vec<&'static str>) {
        match t {
            BinTree::Leaf(i, _, _) => out.push(i.data),
            BinTree::InnerNode(n) => {
                walk(&n.positioned_children.0, out);
                walk(&n.positioned_children.1, out);
            }
        }
    }
    walk(&t, &mut got);
    assert_eq!(got, vec!["early", "late"]);
}

#[test]
fn single_item_sorter_has_no_groups() {
    let s: DeepSorter<TestItem, u32, ()> = DeepSorter::new(vec![item(1, 1, "only")]);
    assert!(!s.root_is_group());
    let s: DeepSorter<TestItem, u32, ()> = DeepSorter::new(vec![item(1, 1, "a"), item(2, 5, "b")]);
    assert!(s.root_is_group());
}

#[test]
fn first_and_last() {
    let fl = FirstLast::new_single(7u32);
    assert_eq!(fl.first, 7);
    assert_eq!(fl.last, 7);
}

#[test]
fn static_node_info_positions() {
    let info: StaticNodeInfo<TestItem, u32, (), False> = StaticNodeInfo {
        fl_time: FirstLast { first: 1, last: 2 },
        fl_pos: Ok(FirstLast { first: 10u64, last: 20 }),
        naming_data: None,
    };
    assert_eq!(info.fl_pos().last, 20);
    assert_eq!(info.fl_pos_opt().map(|fl| fl.first), Some(10));
    let general: StaticNodeInfo<TestItem, u32, (), String> = info.generalize_err();
    assert!(matches!(general.fl_pos, Ok(FirstLast { first: 10, last: 20 })));
    let unknown: StaticNodeInfo<TestItem, u32, (), String> = StaticNodeInfo {
        fl_time: FirstLast { first: 1, last: 2 },
        fl_pos: Err(String::from("no position")),
        naming_data: None,
    };
    assert!(unknown.fl_pos_opt().is_none());
}

#[test]
fn type_level_options() {
    let present: TyOption<u32, ()> = TyOption::Present(5, ());
    assert_eq!(*present.deref(), 5);
    assert_eq!(*present.as_ref().uwnrap_infallible(), 5);
    assert_eq!(present.uwnrap_infallible(), 5);
    let empty: TyOption<u32, False> = TyOption::new_empty();
    assert!(matches!(empty.as_ref(), TyOption::Empty(())));
}

#[test]
fn inner_node_indexing() {
    let mut t = sort_ordered_to_binary_tree(vec![item(1, 0, "a"), item(2, 10, "b"), item(3, 40, "c")]);
    match &mut t {
        BinTree::InnerNode(n) => {
            assert_eq!(names(&n[HorizontalIdx::Left]), vec!["a", "b"]);
            assert_eq!(names(&n[HorizontalIdx::Right]), vec!["c"]);
            let id = n.node_id;
            n[HorizontalIdx::Right] = BinTree::Leaf(item(5, 50, "z"), 99, ());
            assert_eq!(names(&n[HorizontalIdx::Right]), vec!["z"]);
            assert_eq!(names(&n[HorizontalIdx::Left]), vec!["a", "b"]);
            assert_eq!(n.node_id, id);
        }
        BinTree::Leaf(..) => panic!("expected an inner node"),
    }
}
