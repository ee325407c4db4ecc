use geogroup::hierarchy::concrete::{ConcreteHiearchy, Group, Leaf, Node};

fn sample() -> ConcreteHiearchy<bool, i32, String> {
    ConcreteHiearchy::new(Group::new(
        vec![
            Node::new_leaf(Leaf::new(10, String::from("a leaf"))),
            Node::new_group(Group::new(Vec::new(), true, String::from("a subgroup"))),
        ],
        false,
        String::from("root group"),
    ))
}

#[test]
fn mod_test_concrete_hierarchy() {
    let hierarchy = sample();

    let collected = hierarchy.collect_to_concrete().unwrap();

    let str_leaf = String::from("a leaf");
    let str_subgroup = String::from("a subgroup");
    let str_root_group = String::from("root group");
    let target = ConcreteHiearchy::new(Group::new(
        vec![
            Node::new_leaf(Leaf::new(&10, &str_leaf)),
            Node::new_group(Group::new(Vec::new(), &true, &str_subgroup)),
        ],
        &false,
        &str_root_group,
    ));

    assert_eq!(collected, target);
}

#[test]
fn tests_test_concrete_hierarchy() {
    let hierarchy = sample();

    let collected = hierarchy.collect_to_concrete().unwrap();

    let str_leaf = String::from("a leaf");
    let str_subgroup = String::from("a subgroup");
    let str_root_group = String::from("root group");
    let target = ConcreteHiearchy::new(Group::new(
        vec![
            Node::new_leaf(Leaf::new(&10, &str_leaf)),
            Node::new_group(Group::new(Vec::new(), &true, &str_subgroup)),
        ],
        &false,
        &str_root_group,
    ));

    assert_eq!(collected, target);
}

#[test]
fn test_map_groups() {
    let hierarchy = sample();

    let binding = hierarchy.map_groups(|g, _| !g);
    let collected = binding.collect_to_concrete().unwrap();

    let str_leaf = String::from("a leaf");
    let str_subgroup = String::from("a subgroup");
    let str_root_group = String::from("root group");
    let target = ConcreteHiearchy::new(Group::new(
        vec![
            Node::new_leaf(Leaf::new(&10, &str_leaf)),
            Node::new_group(Group::new(Vec::new(), false, &str_subgroup)),
        ],
        true,
        &str_root_group,
    ));

    assert_eq!(collected, target);
}

#[test]
fn test_map_leaves() {
    let hierarchy = ConcreteHiearchy::new(Group::new(
        vec![
            Node::new_leaf(Leaf::new(10, String::from("a leaf"))),
            Node::new_group(Group::new(
                vec![Node::new_leaf(Leaf::new(20, String::from("nested leaf")))],
                true,
                String::from("a subgroup"),
            )),
        ],
        false,
        String::from("root group"),
    ));

    let binding = hierarchy.map_leaves(|leaf_data, _| leaf_data * 2);
    let collected = binding.collect_to_concrete().unwrap();

    let str_leaf = String::from("a leaf");
    let str_nested_leaf = String::from("nested leaf");
    let str_subgroup = String::from("a subgroup");
    let str_root_group = String::from("root group");
    let target = ConcreteHiearchy::new(Group::new(
        vec![
            Node::new_leaf(Leaf::new(20, &str_leaf)),
            Node::new_group(Group::new(
                vec![Node::new_leaf(Leaf::new(40, &str_nested_leaf))],
                &true,
                &str_subgroup,
            )),
        ],
        &false,
        &str_root_group,
    ));

    assert_eq!(collected, target);
}

#[test]
fn test_lazy_hierarchy() {}

#[test]
fn leaf_and_group_mutation() {
    let mut leaf = Leaf::new(1, String::from("n"));
    *leaf.leaf_data_mut() = 5;
    leaf.node_data_mut().push('x');
    assert_eq!(leaf, Leaf::new(5, String::from("nx")));

    let mut h = sample();
    *h.root_group_mut().group_data_mut() = true;
    h.root_group_mut().children_mut().pop();
    *h.root_group_mut().node_data_mut() = String::from("root");
    assert_eq!(h.root_group().children.len(), 1);
    assert_eq!(h.root_group().group_data, true);
    assert_eq!(h.root_group().node_data, "root");
}
