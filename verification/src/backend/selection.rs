//! Selection of a node of a hierarchy, kept as a path that survives changes of the algorithm's
//! parameters: nodes with an identification path are found by it, others by their index.

use vstd::prelude::*;
use crate::hierarchy::concrete::{Group, Node};

verus! {

/// A part of the path to a selected node.
#[derive(PartialEq, Eq, Clone, Copy, Debug, Structural)]
pub enum PathComponent {
    /// An index in the parent
    Index(usize),
    /// An element from an identification path (`local_id_path` of the node data)
    IdPath(u8),
}

/// The identification path of a node as path components.
pub open spec fn id_components(path: Seq<u8>) -> Seq<PathComponent> {
    path.map_values(|id: u8| PathComponent::IdPath(id))
}

/// What a child at index `idx`, whose identification path is `p`, adds to a selection: its
/// identification path, or, having none, its index.
pub open spec fn child_components(p: Option<Vec<u8>>, idx: usize) -> Seq<PathComponent> {
    match p {
        Some(v) => id_components(v@),
        None => seq![PathComponent::Index(idx)],
    }
}

/// `out` is the selection of the node reached from the group `g` by the child indices `indices`;
/// `trace[k]` is what `f` gave for the child reached by the `k`-th index.
///
/// Each index enters the child it names, which adds its identification path or, having none,
/// its index. The selection ends where an index is out of range or a leaf was entered.
pub open spec fn indices_select<G, L, N, F: Fn(&Node<G, L, N>) -> Option<Vec<u8>>>(
    g: Group<G, L, N>,
    f: F,
    indices: Seq<usize>,
    out: Seq<PathComponent>,
    trace: Seq<Option<Vec<u8>>>,
) -> bool
    decreases indices.len(),
{
    if indices.len() == 0 || indices[0] >= g.children@.len() {
        out.len() == 0 && trace.len() == 0
    } else {
        let idx = indices[0];
        let child = g.children@[idx as int];
        let comp = child_components(trace[0], idx);
        let k = comp.len() as int;
        &&& trace.len() >= 1
        &&& f.ensures((&child,), trace[0])
        &&& k <= out.len()
        &&& out.take(k) == comp
        &&& match child {
            Node::Group(cg) => indices_select(cg, f, indices.drop_first(), out.skip(k), trace.drop_first()),
            Node::Leaf(_) => out.len() == k && trace.len() == 1,
        }
    }
}

/// Converts child indices to a selection in the form of [`PathComponent`]s (see
/// [`indices_select`]). The index path of the root itself is not part of the selection.
pub fn indicies_to_selection<G, L, N, F: Fn(&Node<G, L, N>) -> Option<Vec<u8>>>(
    hierarchy: &Group<G, L, N>,
    get_local_id_path: F,
    indices: &Vec<usize>,
) -> (r: Vec<PathComponent>)
    requires
        forall|n: &Node<G, L, N>| get_local_id_path.requires((n,)),
    ensures
        exists|trace: Seq<Option<Vec<u8>>>| #[trigger] indices_select(*hierarchy, get_local_id_path, indices@, r@, trace),
{
    let mut out: Vec<PathComponent> = Vec::new();
    let trace = select_from(hierarchy, &get_local_id_path, indices, 0, &mut out);
    proof {
        assert(indices@.skip(0) =~= indices@);
        assert(out@.skip(0) =~= out@);
    }
    out
}

/// Appends what the child at `idx` with identification path `p` adds to a selection.
fn push_components(p: &Option<Vec<u8>>, idx: usize, out: &mut Vec<PathComponent>)
    ensures
        final(out)@ == old(out)@ + child_components(*p, idx),
{
    match p {
        Some(path) => {
            let ghost old_out = out@;
            let mut j: usize = 0;
            while j < path.len()
                invariant
                    j <= path.len(),
                    out@ == old_out + id_components(path@).take(j as int),
                decreases path.len() - j,
            {
                out.push(PathComponent::IdPath(path[j]));
                proof {
                    assert(id_components(path@).take(j + 1) =~= id_components(path@).take(j as int).push(
                        PathComponent::IdPath(path@[j as int]),
                    ));
                }
                j = j + 1;
            }
            proof {
                assert(id_components(path@).take(path@.len() as int) =~= id_components(path@));
            }
        },
        None => {
            out.push(PathComponent::Index(idx));
            proof {
                assert(out@ =~= old(out)@ + seq![PathComponent::Index(idx)]);
            }
        },
    }
}

fn select_from<G, L, N, F: Fn(&Node<G, L, N>) -> Option<Vec<u8>>>(
    g: &Group<G, L, N>,
    f: &F,
    indices: &Vec<usize>,
    start: usize,
    out: &mut Vec<PathComponent>,
) -> (trace: Ghost<Seq<Option<Vec<u8>>>>)
    requires
        forall|n: &Node<G, L, N>| f.requires((n,)),
        start <= indices.len(),
    ensures
        final(out)@.len() >= old(out)@.len(),
        final(out)@.take(old(out)@.len() as int) == old(out)@,
        indices_select(*g, *f, indices@.skip(start as int), final(out)@.skip(old(out)@.len() as int), trace@),
    decreases indices.len() - start,
{
    let ghost old_out = out@;
    let ghost rest = indices@.skip(start as int);
    if start == indices.len() || indices[start] >= g.children.len() {
        proof {
            assert(out@.skip(old_out.len() as int) =~= Seq::<PathComponent>::empty());
            assert(out@.take(old_out.len() as int) =~= old_out);
        }
        return Ghost(Seq::empty());
    }
    let idx = indices[start];
    let child = &g.children[idx];
    let p = f(child);
    let ghost gp = p;
    proof {
        assert(rest[0] == idx);
        assert(rest.drop_first() =~= indices@.skip(start + 1));
    }
    push_components(&p, idx, out);
    let ghost mid = out@;
    let ghost comp = child_components(gp, idx);
    let ghost k = comp.len() as int;
    let ghost base = old_out.len() as int;
    proof {
        assert(mid.skip(base) =~= comp);
        assert(mid.take(base) =~= old_out);
    }
    match child {
        Node::Group(cg) => {
            let sub = select_from(cg, f, indices, start + 1, out);
            proof {
                assert forall|i: int| 0 <= i < mid.len() implies out@[i] == mid[i] by {
                    assert(out@.take(mid.len() as int)[i] == out@[i]);
                }
                assert(out@.take(base) =~= old_out);
                assert(out@.skip(base).take(k) =~= comp);
                assert(out@.skip(base).skip(k) =~= out@.skip(mid.len() as int));
            }
            let ghost t = seq![gp] + sub@;
            proof {
                assert(t.drop_first() =~= sub@);
                assert(indices_select(*g, *f, rest, out@.skip(old_out.len() as int), t));
            }
            Ghost(t)
        },
        Node::Leaf(_) => {
            proof {
                assert(out@.skip(base).take(k) =~= out@.skip(base));
            }
            let ghost t = seq![gp];
            proof {
                assert(indices_select(*g, *f, rest, out@.skip(old_out.len() as int), t));
            }
            Ghost(t)
        },
    }
}

/// The child at index `j`, whose identification path is `p`, matches the selection `sel` when
/// its identification path starts `sel`, or, having none, when `sel` starts with its index.
pub open spec fn child_matches(p: Option<Vec<u8>>, j: int, sel: Seq<PathComponent>) -> bool {
    match p {
        Some(v) => v@.len() <= sel.len() && sel.take(v@.len() as int) == id_components(v@),
        None => sel.len() >= 1 && sel[0] == PathComponent::Index(j as usize),
    }
}

/// How much of the selection a matching child with identification path `p` takes.
pub open spec fn consumed(p: Option<Vec<u8>>) -> int {
    match p {
        Some(v) => v@.len() as int,
        None => 1,
    }
}

/// `out` are the child indices of the node selected by `sel` from the group `g`; `trace[k]`
/// is what `f` gave for the children of the `k`-th group examined, up to the one that matched.
///
/// In each group the first child that [matches](child_matches) the selection is entered and
/// takes its part of the selection; the conversion ends at a leaf or where no child matches.
pub open spec fn selection_indices<G, L, N, F: Fn(&Node<G, L, N>) -> Option<Vec<u8>>>(
    g: Group<G, L, N>,
    f: F,
    sel: Seq<PathComponent>,
    out: Seq<usize>,
    trace: Seq<Seq<Option<Vec<u8>>>>,
) -> bool
    decreases g,
{
    let c = g.children@;
    let level = trace[0];
    &&& trace.len() >= 1
    &&& level.len() <= c.len()
    &&& forall|j: int| 0 <= j < level.len() ==> f.ensures((&c[j],), #[trigger] level[j])
    &&& forall|j: int| 0 <= j < level.len() - 1 ==> !child_matches(#[trigger] level[j], j, sel)
    &&& if level.len() > 0 && child_matches(level.last(), level.len() - 1, sel) {
        let m = level.len() - 1;
        &&& out.len() >= 1
        &&& out[0] == m
        &&& match c[m] {
            Node::Group(cg) => selection_indices(cg, f, sel.skip(consumed(level[m])), out.drop_first(), trace.drop_first()),
            Node::Leaf(_) => out.len() == 1 && trace.len() == 1,
        }
    } else {
        &&& level.len() == c.len()
        &&& out.len() == 0
        &&& trace.len() == 1
    }
}

/// Converts a selection in the form of [`PathComponent`]s to child indices (see
/// [`selection_indices`]).
pub fn selection_to_indicies<G, L, N, F: Fn(&Node<G, L, N>) -> Option<Vec<u8>>>(
    hierarchy: &Group<G, L, N>,
    get_local_id_path: F,
    selection: &Vec<PathComponent>,
) -> (r: Vec<usize>)
    requires
        forall|n: &Node<G, L, N>| get_local_id_path.requires((n,)),
    ensures
        exists|trace: Seq<Seq<Option<Vec<u8>>>>|
            #[trigger] selection_indices(*hierarchy, get_local_id_path, selection@, r@, trace),
{
    let mut out: Vec<usize> = Vec::new();
    let trace = indices_from(hierarchy, &get_local_id_path, selection, 0, &mut out);
    proof {
        assert(selection@.skip(0) =~= selection@);
        assert(out@.skip(0) =~= out@);
    }
    out
}

/// Whether the child at `j`, whose identification path is `p`, matches the selection from
/// `pos` on.
fn matches_selection(p: &Option<Vec<u8>>, j: usize, sel: &Vec<PathComponent>, pos: usize) -> (r: bool)
    requires
        pos <= sel.len(),
    ensures
        r == child_matches(*p, j as int, sel@.skip(pos as int)),
{
    let ghost s = sel@.skip(pos as int);
    match p {
        Some(v) => {
            let mut k: usize = 0;
            while k < v.len() && pos + k < sel.len() && sel[pos + k] == PathComponent::IdPath(v[k])
                invariant
                    k <= v.len(),
                    pos + k <= sel.len(),
                    s == sel@.skip(pos as int),
                    forall|i: int| 0 <= i < k ==> s[i] == PathComponent::IdPath(v@[i]),
                decreases v.len() - k,
            {
                k = k + 1;
            }
            if k == v.len() {
                proof {
                    assert(s.take(v@.len() as int) =~= id_components(v@));
                }
                true
            } else {
                proof {
                    if v@.len() <= s.len() {
                        assert(s.take(v@.len() as int)[k as int] != id_components(v@)[k as int]);
                    }
                }
                false
            }
        },
        None => pos < sel.len() && sel[pos] == PathComponent::Index(j),
    }
}

fn indices_from<G, L, N, F: Fn(&Node<G, L, N>) -> Option<Vec<u8>>>(
    g: &Group<G, L, N>,
    f: &F,
    sel: &Vec<PathComponent>,
    pos: usize,
    out: &mut Vec<usize>,
) -> (trace: Ghost<Seq<Seq<Option<Vec<u8>>>>>)
    requires
        forall|n: &Node<G, L, N>| f.requires((n,)),
        pos <= sel.len(),
    ensures
        final(out)@.len() >= old(out)@.len(),
        final(out)@.take(old(out)@.len() as int) == old(out)@,
        selection_indices(*g, *f, sel@.skip(pos as int), final(out)@.skip(old(out)@.len() as int), trace@),
    decreases g,
{
    let ghost old_out = out@;
    let ghost s = sel@.skip(pos as int);
    let ghost mut level: Seq<Option<Vec<u8>>> = Seq::empty();
    let mut j: usize = 0;
    while j < g.children.len()
        invariant
            forall|n: &Node<G, L, N>| f.requires((n,)),
            pos <= sel.len(),
            s == sel@.skip(pos as int),
            out@ == old_out,
            old(out)@ == old_out,
            j <= g.children@.len(),
            level.len() == j,
            forall|i: int| 0 <= i < j ==> f.ensures((&g.children@[i],), #[trigger] level[i]),
            forall|i: int| 0 <= i < j ==> !child_matches(#[trigger] level[i], i, s),
        decreases g.children@.len() - j,
    {
        let child = &g.children[j];
        let p = f(child);
        let matched = matches_selection(&p, j, sel, pos);
        proof {
            level = level.push(p);
        }
        if matched {
            out.push(j);
            let ghost mid = out@;
            let ghost lvl = level;
            let next = match &p {
                Some(v) => pos + v.len(),
                None => pos + 1,
            };
            match child {
                Node::Group(cg) => {
                    proof {
                        assert(decreases_to!(g => g.children@[j as int]));
                    }
                    let sub = indices_from(cg, f, sel, next, out);
                    let ghost t = seq![lvl] + sub@;
                    proof {
                        let base = old_out.len() as int;
                        assert forall|i: int| 0 <= i < mid.len() implies out@[i] == mid[i] by {
                            assert(out@.take(mid.len() as int)[i] == out@[i]);
                        }
                        assert(out@.take(base) =~= old_out);
                        assert(out@.skip(base).drop_first() =~= out@.skip(mid.len() as int));
                        assert(mid[base] == j);
                        assert(s.skip(consumed(p)) =~= sel@.skip(next as int));
                        assert(t.drop_first() =~= sub@);
                        assert(t[0] == lvl);
                        assert(lvl.last() == p);
                        assert(selection_indices(*g, *f, s, out@.skip(base), t));
                    }
                    return Ghost(t);
                },
                Node::Leaf(_) => {
                    let ghost t = seq![lvl];
                    proof {
                        let base = old_out.len() as int;
                        assert(out@.skip(base) =~= seq![j]);
                        assert(out@.take(base) =~= old_out);
                        assert(lvl.last() == p);
                        assert(selection_indices(*g, *f, s, out@.skip(base), t));
                    }
                    return Ghost(t);
                },
            }
        }
        j = j + 1;
    }
    let ghost t = seq![level];
    proof {
        assert(out@.skip(old_out.len() as int) =~= Seq::<usize>::empty());
        assert(out@.take(old_out.len() as int) =~= old_out);
        assert(selection_indices(*g, *f, s, out@.skip(old_out.len() as int), t));
    }
    Ghost(t)
}

/// The data of the node reached from the group `g` by the child indices `indices`: the walk
/// stops at a leaf, or where an index is out of range, and gives the data of the node it
/// stopped at.
pub open spec fn node_data_at<G, L, N>(g: Group<G, L, N>, indices: Seq<usize>) -> N
    decreases indices.len(),
{
    if indices.len() == 0 || indices[0] >= g.children@.len() {
        g.node_data
    } else {
        match g.children@[indices[0] as int] {
            Node::Group(cg) => node_data_at(cg, indices.drop_first()),
            Node::Leaf(l) => l.node_data,
        }
    }
}

/// The data of the node reached from `hierarchy` by the child indices `indices` (see
/// [`node_data_at`]).
pub fn indices_to_node_data<'a, G, L, N>(hierarchy: &'a Group<G, L, N>, indices: &Vec<usize>) -> (r: &'a N)
    ensures
        *r == node_data_at(*hierarchy, indices@),
{
    let mut current = hierarchy;
    let mut k: usize = 0;
    proof {
        assert(indices@.skip(0) =~= indices@);
    }
    while k < indices.len()
        invariant
            k <= indices.len(),
            node_data_at(*current, indices@.skip(k as int)) == node_data_at(*hierarchy, indices@),
        decreases indices.len() - k,
    {
        let idx = indices[k];
        proof {
            assert(indices@.skip(k as int)[0] == idx);
            assert(indices@.skip(k as int).drop_first() =~= indices@.skip(k + 1));
        }
        if idx >= current.children.len() {
            return &current.node_data;
        }
        match &current.children[idx] {
            Node::Group(cg) => {
                current = cg;
            },
            Node::Leaf(l) => {
                return &l.node_data;
            },
        }
        k = k + 1;
    }
    proof {
        assert(indices@.skip(k as int).len() == 0);
    }
    &current.node_data
}

/// The data of the node selected by `selection` (see [`selection_indices`] and
/// [`node_data_at`]).
pub fn selection_to_node_data<'a, G, L, N, F: Fn(&Node<G, L, N>) -> Option<Vec<u8>>>(
    hierarchy: &'a Group<G, L, N>,
    get_local_id_path: F,
    selection: &Vec<PathComponent>,
) -> (r: &'a N)
    requires
        forall|n: &Node<G, L, N>| get_local_id_path.requires((n,)),
    ensures
        exists|indices: Seq<usize>, trace: Seq<Seq<Option<Vec<u8>>>>|
            #[trigger] selection_indices(*hierarchy, get_local_id_path, selection@, indices, trace)
                && *r == node_data_at(*hierarchy, indices),
{
    let indices = selection_to_indicies(hierarchy, get_local_id_path, selection);
    indices_to_node_data(hierarchy, &indices)
}


/// `a` is a prefix of `b`.
pub open spec fn is_id_prefix(a: Seq<u8>, b: Seq<u8>) -> bool {
    a.len() <= b.len() && b.take(a.len() as int) == a
}

/// An identification path as a mathematical value.
pub open spec fn id_view(p: Option<Vec<u8>>) -> Option<Seq<u8>> {
    match p {
        Some(v) => Some(v@),
        None => None,
    }
}

/// `f` gives every node one identification path (or none), whenever it is asked.
pub open spec fn deterministic<G, L, N, F: Fn(&Node<G, L, N>) -> Option<Vec<u8>>>(f: F) -> bool {
    forall|n: &Node<G, L, N>, p: Option<Vec<u8>>, q: Option<Vec<u8>>|
        #![trigger f.ensures((n,), p), f.ensures((n,), q)]
        f.ensures((n,), p) && f.ensures((n,), q) ==> id_view(p) == id_view(q)
}

/// The siblings `c` can be told apart by their selections: the identification paths that `f`
/// gives them are non-empty, and none is a prefix of another's (siblings without one are told
/// apart by their index).
pub open spec fn distinguishable<G, L, N, F: Fn(&Node<G, L, N>) -> Option<Vec<u8>>>(c: Seq<Node<G, L, N>>, f: F) -> bool {
    &&& forall|i: int, p: Option<Vec<u8>>|
        0 <= i < c.len() && #[trigger] f.ensures((&c[i],), p) ==> (p matches Some(v) ==> v@.len() > 0)
    &&& forall|i: int, j: int, p: Option<Vec<u8>>, q: Option<Vec<u8>>|
        #![trigger f.ensures((&c[i],), p), f.ensures((&c[j],), q)]
        0 <= i < c.len() && 0 <= j < c.len() && i != j && f.ensures((&c[i],), p) && f.ensures((&c[j],), q)
            && p is Some && q is Some ==> !is_id_prefix(p->0@, q->0@)
}

/// `indices` lead from the group `g` through groups to a node, each index in range, and the
/// children of every group on the way, and of the group it ends at, are
/// [distinguishable](distinguishable).
pub open spec fn identified_path<G, L, N, F: Fn(&Node<G, L, N>) -> Option<Vec<u8>>>(
    g: Group<G, L, N>,
    f: F,
    indices: Seq<usize>,
) -> bool
    decreases indices.len(),
{
    &&& distinguishable(g.children@, f)
    &&& indices.len() == 0 || {
        &&& indices[0] < g.children@.len()
        &&& match g.children@[indices[0] as int] {
            Node::Group(cg) => identified_path(cg, f, indices.drop_first()),
            Node::Leaf(_) => indices.len() == 1,
        }
    }
}

proof fn lemma_common_prefix(w: Seq<u8>, v: Seq<u8>, sel: Seq<PathComponent>)
    requires
        w.len() <= v.len() <= sel.len(),
        sel.take(w.len() as int) == id_components(w),
        sel.take(v.len() as int) == id_components(v),
    ensures
        is_id_prefix(w, v),
{
    assert forall|i: int| 0 <= i < w.len() implies v[i] == w[i] by {
        assert(sel.take(w.len() as int)[i] == sel[i]);
        assert(sel.take(v.len() as int)[i] == sel[i]);
        assert(id_components(w)[i] == PathComponent::IdPath(w[i]));
        assert(id_components(v)[i] == PathComponent::IdPath(v[i]));
    }
    assert(v.take(w.len() as int) =~= w);
}

/// Two different siblings never both match one selection.
proof fn lemma_one_match<G, L, N, F: Fn(&Node<G, L, N>) -> Option<Vec<u8>>>(
    c: Seq<Node<G, L, N>>,
    f: F,
    i: int,
    p: Option<Vec<u8>>,
    j: int,
    q: Option<Vec<u8>>,
    sel: Seq<PathComponent>,
)
    requires
        distinguishable(c, f),
        c.len() <= usize::MAX,
        0 <= i < c.len(),
        0 <= j < c.len(),
        i != j,
        f.ensures((&c[i],), p),
        f.ensures((&c[j],), q),
        child_matches(p, i, sel),
    ensures
        !child_matches(q, j, sel),
{
    if child_matches(q, j, sel) {
        match (p, q) {
            (Some(v), Some(w)) => {
                if w@.len() <= v@.len() {
                    lemma_common_prefix(w@, v@, sel);
                } else {
                    lemma_common_prefix(v@, w@, sel);
                }
            },
            (Some(v), None) => {
                assert(sel.take(v@.len() as int)[0] == sel[0]);
                assert(id_components(v@)[0] == PathComponent::IdPath(v@[0]));
            },
            (None, Some(w)) => {
                assert(sel.take(w@.len() as int)[0] == sel[0]);
                assert(id_components(w@)[0] == PathComponent::IdPath(w@[0]));
            },
            (None, None) => {
                assert(i as usize == j as usize);
            },
        }
    }
}

/// A selection made of child indices leads back to them: where `f` gives each node one
/// identification path (or none) and, along the way, the children of each group can be told
/// apart, converting `indices` to a selection and that selection back to indices gives
/// `indices`.
pub proof fn lemma_selection_round_trip<G, L, N, F: Fn(&Node<G, L, N>) -> Option<Vec<u8>>>(
    g: Group<G, L, N>,
    f: F,
    indices: Seq<usize>,
    selection: Seq<PathComponent>,
    select_trace: Seq<Option<Vec<u8>>>,
    back: Seq<usize>,
    back_trace: Seq<Seq<Option<Vec<u8>>>>,
)
    requires
        deterministic(f),
        identified_path(g, f, indices),
        indices_select(g, f, indices, selection, select_trace),
        selection_indices(g, f, selection, back, back_trace),
    ensures
        back == indices,
    decreases indices.len(),
{
    let c = g.children@;
    let level = back_trace[0];
    if indices.len() == 0 {
        if level.len() > 0 && child_matches(level.last(), level.len() - 1, selection) {
            let m = level.len() - 1;
            assert(f.ensures((&c[m],), level[m]));
        }
        assert(back =~= indices);
    } else {
        let idx = indices[0] as int;
        let child = c[idx];
        let p = select_trace[0];
        assert(f.ensures((&child,), p));
        let k = child_components(p, idx as usize).len() as int;
        if p is None {
            assert(selection.take(1)[0] == selection[0]);
        }
        assert(child_matches(p, idx, selection));
        if !(level.len() > 0 && child_matches(level.last(), level.len() - 1, selection)) {
            assert(f.ensures((&c[idx],), level[idx]));
            assert(id_view(level[idx]) == id_view(p));
            assert(child_matches(level[idx], idx, selection));
            assert(false);
        }
        let m = level.len() - 1;
        assert(f.ensures((&c[m],), level[m]));
        if m != idx {
            if m < idx {
                assert(g.children@.len() == g.children.len());
                lemma_one_match(c, f, idx, p, m, level[m], selection);
                assert(false);
            } else {
                assert(f.ensures((&c[idx],), level[idx]));
                assert(id_view(level[idx]) == id_view(p));
                assert(child_matches(level[idx], idx, selection));
                assert(false);
            }
        }
        assert(id_view(level[m]) == id_view(p));
        assert(consumed(level[m]) == k);
        assert(back[0] == indices[0]);
        match child {
            Node::Group(cg) => {
                lemma_selection_round_trip(
                    cg,
                    f,
                    indices.drop_first(),
                    selection.skip(k),
                    select_trace.drop_first(),
                    back.drop_first(),
                    back_trace.drop_first(),
                );
                assert(back =~= seq![back[0]] + back.drop_first());
                assert(indices =~= seq![indices[0]] + indices.drop_first());
            },
            Node::Leaf(_) => {
                assert(back =~= indices);
            },
        }
    }
}

} // verus!
