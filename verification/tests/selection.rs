use geogroup::backend::selection::{
    indices_to_node_data, indicies_to_selection, selection_to_indicies, selection_to_node_data, PathComponent,
};
use geogroup::hierarchy::concrete::{Group, Leaf, Node};

/// Node data: an optional identification path.
type G = Group<(), &'static str, Option<Vec<u8>>>;

fn leaf(name: &'static str, id: Option<Vec<u8>>) -> Node<(), &'static str, Option<Vec<u8>>> {
    Node::Leaf(Leaf::new(name, id))
}

fn group(children: Vec<Node<(), &'static str, Option<Vec<u8>>>>, id: Option<Vec<u8>>) -> Node<(), &'static str, Option<Vec<u8>>> {
    Node::Group(Group::new(children, (), id))
}

fn id_path(n: &Node<(), &'static str, Option<Vec<u8>>>) -> Option<Vec<u8>> {
    match n {
        Node::Group(g) => g.node_data.clone(),
        Node::Leaf(l) => l.node_data.clone(),
    }
}

fn sample() -> G {
    Group::new(
        vec![
            leaf("x", Some(vec![0])),
            group(
                vec![leaf("y", Some(vec![0, 0])), leaf("z", None), group(vec![leaf("w", Some(vec![5]))], Some(vec![1]))],
                Some(vec![1, 2]),
            ),
            leaf("v", None),
        ],
        (),
        None,
    )
}

#[test]
fn indices_become_id_paths() {
    let h = sample();
    let sel = indicies_to_selection(&h, id_path, &vec![1, 2, 0]);
    assert_eq!(
        sel,
        vec![
            PathComponent::IdPath(1),
            PathComponent::IdPath(2),
            PathComponent::IdPath(1),
            PathComponent::IdPath(5),
        ]
    );
}

#[test]
fn nodes_without_id_path_are_kept_by_index() {
    let h = sample();
    let sel = indicies_to_selection(&h, id_path, &vec![2]);
    assert_eq!(sel, vec![PathComponent::Index(2)]);
}

#[test]
fn out_of_range_index_ends_the_selection() {
    let h = sample();
    let sel = indicies_to_selection(&h, id_path, &vec![1, 7, 0]);
    assert_eq!(sel, vec![PathComponent::IdPath(1), PathComponent::IdPath(2)]);
}

#[test]
fn selection_becomes_indices() {
    let h = sample();
    let sel = vec![
        PathComponent::IdPath(1),
        PathComponent::IdPath(2),
        PathComponent::IdPath(1),
        PathComponent::IdPath(5),
    ];
    assert_eq!(selection_to_indicies(&h, id_path, &sel), vec![1, 2, 0]);
}

#[test]
fn selection_by_index() {
    let h = sample();
    let sel = vec![PathComponent::IdPath(1), PathComponent::IdPath(2), PathComponent::Index(1)];
    assert_eq!(selection_to_indicies(&h, id_path, &sel), vec![1, 1]);
}

#[test]
fn unmatched_selection_gives_no_index() {
    let h = sample();
    let sel = vec![PathComponent::IdPath(9)];
    assert_eq!(selection_to_indicies(&h, id_path, &sel), Vec::<usize>::new());
}

#[test]
fn selection_round_trip() {
    let h = sample();
    let indices = vec![1, 0];
    let sel = indicies_to_selection(&h, id_path, &indices);
    assert_eq!(selection_to_indicies(&h, id_path, &sel), indices);
}

#[test]
fn node_data_of_a_selection() {
    let h = sample();
    let sel = vec![PathComponent::IdPath(1), PathComponent::IdPath(2), PathComponent::IdPath(1)];
    assert_eq!(*selection_to_node_data(&h, id_path, &sel), Some(vec![1]));
    assert_eq!(*indices_to_node_data(&h, &vec![1, 0]), Some(vec![0, 0]));
    assert_eq!(*indices_to_node_data(&h, &vec![1, 9]), Some(vec![1, 2]));
    assert_eq!(*indices_to_node_data(&h, &vec![]), None);
}

#[test]
fn every_path_of_an_identified_hierarchy_round_trips() {
    let h: G = Group::new(
        vec![
            group(
                vec![leaf("a", Some(vec![0])), leaf("b", Some(vec![1, 0])), leaf("c", Some(vec![1, 1]))],
                Some(vec![0]),
            ),
            group(vec![group(vec![leaf("d", Some(vec![1]))], Some(vec![0, 1]))], Some(vec![1, 0])),
            leaf("e", Some(vec![1, 1])),
        ],
        (),
        Some(vec![0]),
    );
    let paths: Vec<Vec<usize>> = vec![
        vec![],
        vec![0],
        vec![0, 0],
        vec![0, 1],
        vec![0, 2],
        vec![1],
        vec![1, 0],
        vec![1, 0, 0],
        vec![2],
    ];
    for indices in paths {
        let sel = indicies_to_selection(&h, id_path, &indices);
        assert_eq!(selection_to_indicies(&h, id_path, &sel), indices);
    }
}

#[test]
fn a_child_without_id_path_is_entered() {
    let h: G = Group::new(
        vec![
            leaf("a", Some(vec![7])),
            group(vec![leaf("b", Some(vec![3])), leaf("c", Some(vec![4]))], None),
        ],
        (),
        None,
    );
    let sel = indicies_to_selection(&h, id_path, &vec![1, 1]);
    assert_eq!(sel, vec![PathComponent::Index(1), PathComponent::IdPath(4)]);
    assert_eq!(selection_to_indicies(&h, id_path, &sel), vec![1, 1]);
    assert_eq!(*selection_to_node_data(&h, id_path, &sel), Some(vec![4]));
}
