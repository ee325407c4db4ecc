use geogroup::hierarchy::concrete::{ConcreteHiearchy, Group, Leaf, Node};
use geogroup::hierarchy::lazy::{
    map_group_data, map_leaf_data, with_parent, AsGroupRef, AsGroupRefUtils, GroupRef, GroupRefUtils, LeafRef, LoadingResult, Mapper,
    NodeRef,
};
use geogroup::type_level_logic::False;

fn sample() -> Group<u32, &'static str, String> {
    Group::new(
        vec![
            Node::Leaf(Leaf::new("a leaf", String::from("leaf node"))),
            Node::Group(Group::new(Vec::new(), 7, String::from("a subgroup"))),
        ],
        3,
        String::from("root group"),
    )
}

#[test]
fn loading_result_ready() {
    let r: LoadingResult<u32, String, False> = LoadingResult::new_ok(5);
    let r = r.map(|x| x * 2);
    assert!(matches!(r.to_result(), Ok(10)));
}

#[test]
fn loading_result_keeps_loading() {
    let r: LoadingResult<u32, String, ()> = LoadingResult::Loading { message: String::from("wait"), guard: () };
    match r.map(|x| x + 1) {
        LoadingResult::Loading { message, .. } => assert_eq!(message, "wait"),
        LoadingResult::Ready(_) => panic!("should still be loading"),
    }
    let e: LoadingResult<u32, String, ()> = LoadingResult::Ready(Err(String::from("bad")));
    assert!(matches!(e.map(|x| x + 1), LoadingResult::Ready(Err(_))));
}

#[test]
fn concrete_group_as_group_ref() {
    let g = sample();
    let gr = &g;
    assert_eq!(*gr.group_metadata(), 3);
    assert_eq!(gr.node_metadata(), "root group");
    let children = GroupRef::get_children(&gr).unwrap();
    assert_eq!(children.len(), 2);
    match &children[0] {
        NodeRef::Leaf(l) => {
            assert_eq!(*l.leaf_metadata(), "a leaf");
            assert_eq!(l.node_metadata(), "leaf node");
        }
        NodeRef::Group(_) => panic!("expected a leaf"),
    }
    match &children[1] {
        NodeRef::Group(sub) => assert_eq!(*sub.group_metadata(), 7),
        NodeRef::Leaf(_) => panic!("expected a group"),
    }
}

#[test]
fn mapped_group_data() {
    let g = sample();
    let mapped = map_group_data(&g, |gr: &&Group<u32, &'static str, String>| gr.group_data * 10);
    assert_eq!(mapped.mapper.map_group_data(&&g), 30);
    let root = geogroup::hierarchy::lazy::map_as_groupref(mapped.original, &mapped.mapper);
    assert_eq!(root.group_metadata(), 30);
    let children = root.get_children().unwrap();
    match &children[1] {
        NodeRef::Group(sub) => assert_eq!(sub.group_metadata(), 70),
        NodeRef::Leaf(_) => panic!("expected a group"),
    }
    match &children[0] {
        NodeRef::Leaf(l) => assert_eq!(*l.leaf_metadata(), "a leaf"),
        NodeRef::Group(_) => panic!("expected a leaf"),
    }
}

#[test]
fn mapped_leaf_data() {
    let g = sample();
    let mapped = map_leaf_data(&g, |l: &&Leaf<&'static str, String>| l.leaf_data.len());
    let root = geogroup::hierarchy::lazy::map_as_groupref(mapped.original, &mapped.mapper);
    match &root.get_children().unwrap()[0] {
        NodeRef::Leaf(l) => assert_eq!(l.leaf_metadata(), 6),
        NodeRef::Group(_) => panic!("expected a leaf"),
    }
    assert_eq!(*root.group_metadata(), 3);
}

#[test]
fn children_know_their_parent() {
    let g = sample();
    let h = with_parent(&g);
    let root = h.root();
    assert!(root.node_metadata().parent.is_none());
    let children = root.get_children().unwrap();
    match &children[0] {
        NodeRef::Leaf(l) => {
            let parent = l.node_metadata().parent.unwrap();
            assert_eq!(parent.node_metadata(), "root group");
        }
        NodeRef::Group(_) => panic!("expected a leaf"),
    }
    match &children[1] {
        NodeRef::Group(sub) => {
            assert_eq!(*sub.group_metadata(), 7);
            assert_eq!(*sub.node_metadata().parent.unwrap().group_metadata(), 3);
        }
        NodeRef::Leaf(_) => panic!("expected a group"),
    }
    let again = (&g).with_parent();
    assert!(again.root().parent.is_none());
}

#[test]
fn concrete_hierarchy_root_and_utils() {
    let h = ConcreteHiearchy::new(sample());
    let hr = &h;
    assert_eq!(*AsGroupRef::root(&hr).group_metadata(), 3);

    let mapped = AsGroupRefUtils::map_group_data(&hr, |gr: &&Group<u32, &'static str, String>| gr.group_data + 1);
    let root = mapped.root();
    assert_eq!(root.group_metadata(), 4);
    match &root.get_children().unwrap()[1] {
        NodeRef::Group(sub) => assert_eq!(sub.group_metadata(), 8),
        NodeRef::Leaf(_) => panic!("expected a group"),
    }

    let mapped = AsGroupRefUtils::map_leaf_data(&hr, |l: &&Leaf<&'static str, String>| l.leaf_data.len() + 1);
    match &mapped.root().get_children().unwrap()[0] {
        NodeRef::Leaf(l) => assert_eq!(l.leaf_metadata(), 7),
        NodeRef::Group(_) => panic!("expected a leaf"),
    }

    let with = AsGroupRefUtils::with_parent(&hr);
    let root = with.root();
    assert!(root.parent.is_none());
    match &root.get_children().unwrap()[0] {
        NodeRef::Leaf(l) => assert_eq!(l.node_metadata().parent.unwrap().node_metadata(), "root group"),
        NodeRef::Group(_) => panic!("expected a leaf"),
    }
}

#[test]
fn group_ref_utils_mapping() {
    let g = sample();
    let mapped = (&g).map_leaf_data(|l: &&Leaf<&'static str, String>| l.leaf_data.to_uppercase());
    let root = (&g).map_as_groupref(&mapped.mapper);
    match &root.get_children().unwrap()[0] {
        NodeRef::Leaf(l) => assert_eq!(l.leaf_metadata(), "A LEAF"),
        NodeRef::Group(_) => panic!("expected a leaf"),
    }
    assert_eq!(*root.group_metadata(), 3);
    let copy = root.clone();
    assert_eq!(*copy.group_metadata(), 3);
    assert_eq!(copy.get_children().unwrap().len(), 2);
}
