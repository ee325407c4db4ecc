//! A hierarchy which is entirely stored in memory.

use vstd::prelude::*;
use std::convert::Infallible;

verus! {

/// A node of a [`ConcreteHiearchy`]: either a group of nodes or a leaf.
#[derive(Debug, Eq, PartialEq)]
pub enum Node<G, L, N> {
    Group(Group<G, L, N>),
    Leaf(Leaf<L, N>),
}

impl<G, L, N> Node<G, L, N> {
    pub fn new_group(g: Group<G, L, N>) -> (r: Self)
        ensures
            r == Node::Group(g),
    {
        Node::Group(g)
    }

    pub fn new_leaf(l: Leaf<L, N>) -> (r: Self)
        ensures
            r == Node::<G, L, N>::Leaf(l),
    {
        Node::Leaf(l)
    }
}

/// A leaf: data of the leaf itself (`L`) and data every node has (`N`).
#[derive(Debug, Eq, PartialEq)]
pub struct Leaf<L, N> {
    pub leaf_data: L,
    pub node_data: N,
}

impl<L, N> Leaf<L, N> {
    pub fn new(leaf_data: L, node_data: N) -> (r: Self)
        ensures
            r.leaf_data == leaf_data,
            r.node_data == node_data,
    {
        Self { leaf_data, node_data }
    }

    pub fn leaf_data_mut(&mut self) -> (r: &mut L)
        ensures
            *r == old(self).leaf_data,
            final(self).leaf_data == *final(r),
            final(self).node_data == old(self).node_data,
    {
        &mut self.leaf_data
    }

    pub fn node_data_mut(&mut self) -> (r: &mut N)
        ensures
            *r == old(self).node_data,
            final(self).node_data == *final(r),
            final(self).leaf_data == old(self).leaf_data,
    {
        &mut self.node_data
    }

    /// Data of the leaf.
    pub fn leaf_metadata(&self) -> (r: &L)
        ensures
            *r == self.leaf_data,
    {
        &self.leaf_data
    }

    /// Data of the node.
    pub fn node_metadata(&self) -> (r: &N)
        ensures
            *r == self.node_data,
    {
        &self.node_data
    }
}

/// A group: its children, data of the group itself (`G`) and data every node has (`N`).
#[derive(Debug, Eq, PartialEq)]
pub struct Group<G, L, N> {
    pub children: Vec<Node<G, L, N>>,
    pub group_data: G,
    pub node_data: N,
}

impl<G, L, N> Group<G, L, N> {
    pub fn new(children: Vec<Node<G, L, N>>, group_data: G, node_data: N) -> (r: Self)
        ensures
            r.children == children,
            r.group_data == group_data,
            r.node_data == node_data,
    {
        Self { children, group_data, node_data }
    }

    pub fn children_mut(&mut self) -> (r: &mut Vec<Node<G, L, N>>)
        ensures
            *r == old(self).children,
            final(self).children == *final(r),
            final(self).group_data == old(self).group_data,
            final(self).node_data == old(self).node_data,
    {
        &mut self.children
    }

    pub fn group_data_mut(&mut self) -> (r: &mut G)
        ensures
            *r == old(self).group_data,
            final(self).group_data == *final(r),
            final(self).children == old(self).children,
            final(self).node_data == old(self).node_data,
    {
        &mut self.group_data
    }

    pub fn node_data_mut(&mut self) -> (r: &mut N)
        ensures
            *r == old(self).node_data,
            final(self).node_data == *final(r),
            final(self).children == old(self).children,
            final(self).group_data == old(self).group_data,
    {
        &mut self.node_data
    }

    /// The children of the group.
    pub fn get_children(&self) -> (r: &Vec<Node<G, L, N>>)
        ensures
            *r == self.children,
    {
        &self.children
    }

    /// Data of the group.
    pub fn group_metadata(&self) -> (r: &G)
        ensures
            *r == self.group_data,
    {
        &self.group_data
    }

    /// Data of the node.
    pub fn node_metadata(&self) -> (r: &N)
        ensures
            *r == self.node_data,
    {
        &self.node_data
    }
}

/// A hierarchy stored entirely in memory: its root group.
#[derive(Debug, Eq, PartialEq)]
pub struct ConcreteHiearchy<G, L, N> {
    pub root_group: Group<G, L, N>,
}

impl<G, L, N> ConcreteHiearchy<G, L, N> {
    pub fn new(root_group: Group<G, L, N>) -> (r: Self)
        ensures
            r.root_group == root_group,
    {
        Self { root_group }
    }

    pub fn root_group(&self) -> (r: &Group<G, L, N>)
        ensures
            *r == self.root_group,
    {
        &self.root_group
    }

    pub fn root_group_mut(&mut self) -> (r: &mut Group<G, L, N>)
        ensures
            *r == old(self).root_group,
            final(self).root_group == *final(r),
    {
        &mut self.root_group
    }
}

/// The leaves of a node, read from left to right.
pub open spec fn node_leaves<G, L, N>(n: Node<G, L, N>) -> Seq<L>
    decreases n,
{
    match n {
        Node::Leaf(l) => seq![l.leaf_data],
        Node::Group(g) => children_leaves(g.children@),
    }
}

/// The leaves of a sequence of nodes, read from left to right.
pub open spec fn children_leaves<G, L, N>(s: Seq<Node<G, L, N>>) -> Seq<L>
    decreases s,
{
    if s.len() == 0 {
        Seq::empty()
    } else {
        node_leaves(s[0]) + children_leaves(s.drop_first())
    }
}

proof fn lemma_children_leaves_push<G, L, N>(s: Seq<Node<G, L, N>>, x: Node<G, L, N>)
    ensures
        children_leaves(s.push(x)) == children_leaves(s) + node_leaves(x),
    decreases s.len(),
{
    let e = Seq::<Node<G, L, N>>::empty();
    if s.len() == 0 {
        assert(s.push(x).drop_first() =~= e);
        assert(children_leaves(e) =~= Seq::<L>::empty());
        assert(s.push(x)[0] == x);
        assert(children_leaves(s) =~= Seq::<L>::empty());
        assert(children_leaves(s.push(x)) =~= node_leaves(x));
    } else {
        assert(s.push(x).drop_first() =~= s.drop_first().push(x));
        lemma_children_leaves_push(s.drop_first(), x);
        assert(children_leaves(s.push(x)) =~= children_leaves(s) + node_leaves(x));
    }
}

/// The leaves of a single node, as a sequence of nodes.
pub proof fn lemma_children_leaves_single<G, L, N>(x: Node<G, L, N>)
    ensures
        children_leaves(seq![x]) == node_leaves(x),
{
    let e = Seq::<Node<G, L, N>>::empty();
    assert(seq![x] =~= e.push(x));
    lemma_children_leaves_push(e, x);
    assert(children_leaves(e) =~= Seq::<L>::empty());
    assert(Seq::<L>::empty() + node_leaves(x) =~= node_leaves(x));
}

/// The leaves of two sequences of nodes, one after the other, are the leaves of the first
/// followed by those of the second.
pub proof fn lemma_children_leaves_append<G, L, N>(s: Seq<Node<G, L, N>>, t: Seq<Node<G, L, N>>)
    ensures
        children_leaves(s + t) == children_leaves(s) + children_leaves(t),
    decreases t.len(),
{
    if t.len() == 0 {
        assert(s + t =~= s);
        assert(children_leaves(t) =~= Seq::<L>::empty());
        assert(children_leaves(s) + children_leaves(t) =~= children_leaves(s));
    } else {
        assert(s + t =~= (s + t.drop_last()).push(t.last()));
        assert(t =~= t.drop_last().push(t.last()));
        lemma_children_leaves_append(s, t.drop_last());
        lemma_children_leaves_push(s + t.drop_last(), t.last());
        lemma_children_leaves_push(t.drop_last(), t.last());
        assert(children_leaves(s + t) =~= children_leaves(s) + children_leaves(t));
    }
}

/// `b` has the shape of `a`; the data of each node of `b` is related to the data of the
/// matching node of `a` by `gr` (groups), `lr` (leaves) and `nr` (all nodes).
pub open spec fn node_corresponds<G, L, N, G2, L2, N2>(
    a: Node<G, L, N>,
    b: Node<G2, L2, N2>,
    gr: spec_fn(G, N, G2) -> bool,
    lr: spec_fn(L, N, L2) -> bool,
    nr: spec_fn(N, N2) -> bool,
) -> bool
    decreases a,
{
    match (a, b) {
        (Node::Group(ga), Node::Group(gb)) => group_corresponds(ga, gb, gr, lr, nr),
        (Node::Leaf(la), Node::Leaf(lb)) => lr(la.leaf_data, la.node_data, lb.leaf_data) && nr(
            la.node_data,
            lb.node_data,
        ),
        _ => false,
    }
}

/// [`node_corresponds`] for groups.
pub open spec fn group_corresponds<G, L, N, G2, L2, N2>(
    a: Group<G, L, N>,
    b: Group<G2, L2, N2>,
    gr: spec_fn(G, N, G2) -> bool,
    lr: spec_fn(L, N, L2) -> bool,
    nr: spec_fn(N, N2) -> bool,
) -> bool
    decreases a,
{
    &&& gr(a.group_data, a.node_data, b.group_data)
    &&& nr(a.node_data, b.node_data)
    &&& a.children@.len() == b.children@.len()
    &&& forall|i: int|
        0 <= i < a.children@.len() ==> node_corresponds(
            #[trigger] a.children@[i],
            b.children@[i],
            gr,
            lr,
            nr,
        )
}

/// Data of the collected hierarchy refers to the data of the original one.
pub open spec fn refers_group<'a, G, N>() -> spec_fn(G, N, &'a G) -> bool {
    |g: G, n: N, r: &'a G| *r == g
}

pub open spec fn refers_leaf<'a, L, N>() -> spec_fn(L, N, &'a L) -> bool {
    |l: L, n: N, r: &'a L| *r == l
}

pub open spec fn refers_node<'a, N>() -> spec_fn(N, &'a N) -> bool {
    |n: N, r: &'a N| *r == n
}

fn collect_node<'a, G, L, N>(n: &'a Node<G, L, N>) -> (r: Node<&'a G, &'a L, &'a N>)
    ensures
        node_corresponds(*n, r, refers_group(), refers_leaf(), refers_node()),
    decreases n, 1nat,
{
    match n {
        Node::Group(g) => Node::Group(collect_group(g)),
        Node::Leaf(l) => Node::Leaf(Leaf { leaf_data: &l.leaf_data, node_data: &l.node_data }),
    }
}

fn collect_group<'a, G, L, N>(g: &'a Group<G, L, N>) -> (r: Group<&'a G, &'a L, &'a N>)
    ensures
        group_corresponds(*g, r, refers_group(), refers_leaf(), refers_node()),
    decreases g, 0nat,
{
    let mut children: Vec<Node<&'a G, &'a L, &'a N>> = Vec::new();
    let len = g.children.len();
    for i in 0..len
        invariant
            len == g.children@.len(),
            children@.len() == i,
            forall|j: int|
                0 <= j < i ==> node_corresponds(
                    #[trigger] g.children@[j],
                    children@[j],
                    refers_group(),
                    refers_leaf(),
                    refers_node(),
                ),
    {
        proof {
            assert(decreases_to!(g => g.children@[i as int]));
        }
        children.push(collect_node(&g.children[i]));
    }
    Group { children, group_data: &g.group_data, node_data: &g.node_data }
}

impl<G, L, N> ConcreteHiearchy<G, L, N> {
    /// A hierarchy of references to the data of this one, of the same shape.
    pub fn collect_to_concrete(&self) -> (r: Result<ConcreteHiearchy<&G, &L, &N>, Infallible>)
        ensures
            r matches Ok(h) && group_corresponds(
                self.root_group,
                h.root_group,
                refers_group(),
                refers_leaf(),
                refers_node(),
            ),
    {
        Ok(ConcreteHiearchy { root_group: collect_group(&self.root_group) })
    }
}

/// A view of a [`ConcreteHiearchy`] in which the data of every group is mapped by a function.
pub struct MapGroups<'a, G, L, N, F> {
    pub original: &'a ConcreteHiearchy<G, L, N>,
    pub mapping: F,
}

/// A view of a [`ConcreteHiearchy`] in which the data of every leaf is mapped by a function.
pub struct MapLeaves<'a, G, L, N, F> {
    pub original: &'a ConcreteHiearchy<G, L, N>,
    pub mapping: F,
}

impl<G, L, N> ConcreteHiearchy<G, L, N> {
    /// Maps the data of every group by `mapping`, which gets the data of the group and of the node.
    pub fn map_groups<G2, F: Fn(&G, &N) -> G2>(&self, mapping: F) -> (r: MapGroups<'_, G, L, N, F>)
        ensures
            *r.original == *self,
            r.mapping == mapping,
    {
        MapGroups { original: self, mapping }
    }

    /// Maps the data of every leaf by `mapping`, which gets the data of the leaf and of the node.
    pub fn map_leaves<L2, F: Fn(&L, &N) -> L2>(&self, mapping: F) -> (r: MapLeaves<'_, G, L, N, F>)
        ensures
            *r.original == *self,
            r.mapping == mapping,
    {
        MapLeaves { original: self, mapping }
    }
}

/// Group data is what the mapping function returned for the original data.
pub open spec fn mapped_group<G, N, G2, F: Fn(&G, &N) -> G2>(f: F) -> spec_fn(G, N, G2) -> bool {
    |g: G, n: N, g2: G2| f.ensures((&g, &n), g2)
}

/// Leaf data is what the mapping function returned for the original data.
pub open spec fn mapped_leaf<L, N, L2, F: Fn(&L, &N) -> L2>(f: F) -> spec_fn(L, N, L2) -> bool {
    |l: L, n: N, l2: L2| f.ensures((&l, &n), l2)
}

fn map_groups_node<'a, G, L, N, G2, F: Fn(&G, &N) -> G2>(n: &'a Node<G, L, N>, f: &F) -> (r: Node<G2, &'a L, &'a N>)
    requires
        forall|g: &G, nd: &N| f.requires((g, nd)),
    ensures
        node_corresponds(*n, r, mapped_group(*f), refers_leaf(), refers_node()),
    decreases n, 1nat,
{
    match n {
        Node::Group(g) => Node::Group(map_groups_group(g, f)),
        Node::Leaf(l) => Node::Leaf(Leaf { leaf_data: &l.leaf_data, node_data: &l.node_data }),
    }
}

fn map_groups_group<'a, G, L, N, G2, F: Fn(&G, &N) -> G2>(g: &'a Group<G, L, N>, f: &F) -> (r: Group<G2, &'a L, &'a N>)
    requires
        forall|gd: &G, nd: &N| f.requires((gd, nd)),
    ensures
        group_corresponds(*g, r, mapped_group(*f), refers_leaf(), refers_node()),
    decreases g, 0nat,
{
    let mut children: Vec<Node<G2, &'a L, &'a N>> = Vec::new();
    let len = g.children.len();
    for i in 0..len
        invariant
            len == g.children@.len(),
            children@.len() == i,
            forall|gd: &G, nd: &N| f.requires((gd, nd)),
            forall|j: int|
                0 <= j < i ==> node_corresponds(
                    #[trigger] g.children@[j],
                    children@[j],
                    mapped_group(*f),
                    refers_leaf(),
                    refers_node(),
                ),
    {
        proof {
            assert(decreases_to!(g => g.children@[i as int]));
        }
        children.push(map_groups_node(&g.children[i], f));
    }
    let group_data = f(&g.group_data, &g.node_data);
    Group { children, group_data, node_data: &g.node_data }
}

fn map_leaves_node<'a, G, L, N, L2, F: Fn(&L, &N) -> L2>(n: &'a Node<G, L, N>, f: &F) -> (r: Node<&'a G, L2, &'a N>)
    requires
        forall|l: &L, nd: &N| f.requires((l, nd)),
    ensures
        node_corresponds(*n, r, refers_group(), mapped_leaf(*f), refers_node()),
    decreases n, 1nat,
{
    match n {
        Node::Group(g) => Node::Group(map_leaves_group(g, f)),
        Node::Leaf(l) => {
            let leaf_data = f(&l.leaf_data, &l.node_data);
            Node::Leaf(Leaf { leaf_data, node_data: &l.node_data })
        },
    }
}

fn map_leaves_group<'a, G, L, N, L2, F: Fn(&L, &N) -> L2>(g: &'a Group<G, L, N>, f: &F) -> (r: Group<&'a G, L2, &'a N>)
    requires
        forall|l: &L, nd: &N| f.requires((l, nd)),
    ensures
        group_corresponds(*g, r, refers_group(), mapped_leaf(*f), refers_node()),
    decreases g, 0nat,
{
    let mut children: Vec<Node<&'a G, L2, &'a N>> = Vec::new();
    let len = g.children.len();
    for i in 0..len
        invariant
            len == g.children@.len(),
            children@.len() == i,
            forall|l: &L, nd: &N| f.requires((l, nd)),
            forall|j: int|
                0 <= j < i ==> node_corresponds(
                    #[trigger] g.children@[j],
                    children@[j],
                    refers_group(),
                    mapped_leaf(*f),
                    refers_node(),
                ),
    {
        proof {
            assert(decreases_to!(g => g.children@[i as int]));
        }
        children.push(map_leaves_node(&g.children[i], f));
    }
    Group { children, group_data: &g.group_data, node_data: &g.node_data }
}

impl<'a, G, L, N, G2, F: Fn(&G, &N) -> G2> MapGroups<'a, G, L, N, F> {
    /// The mapped hierarchy: group data is mapped, leaf and node data refer to the original.
    pub fn collect_to_concrete(&self) -> (r: Result<ConcreteHiearchy<G2, &'a L, &'a N>, Infallible>)
        requires
            forall|g: &G, n: &N| self.mapping.requires((g, n)),
        ensures
            r matches Ok(h) && group_corresponds(
                self.original.root_group,
                h.root_group,
                mapped_group(self.mapping),
                refers_leaf(),
                refers_node(),
            ),
    {
        Ok(ConcreteHiearchy { root_group: map_groups_group(&self.original.root_group, &self.mapping) })
    }
}

impl<'a, G, L, N, L2, F: Fn(&L, &N) -> L2> MapLeaves<'a, G, L, N, F> {
    /// The mapped hierarchy: leaf data is mapped, group and node data refer to the original.
    pub fn collect_to_concrete(&self) -> (r: Result<ConcreteHiearchy<&'a G, L2, &'a N>, Infallible>)
        requires
            forall|l: &L, n: &N| self.mapping.requires((l, n)),
        ensures
            r matches Ok(h) && group_corresponds(
                self.original.root_group,
                h.root_group,
                refers_group(),
                mapped_leaf(self.mapping),
                refers_node(),
            ),
    {
        Ok(ConcreteHiearchy { root_group: map_leaves_group(&self.original.root_group, &self.mapping) })
    }
}

} // verus!
