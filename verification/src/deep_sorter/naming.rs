//! Naming the groups of a deep hierarchy from the names of their items.
//!
//! A leaf is named by a function given by the caller; a group's full name is what the full
//! names of its successfully named children have in common, and each child keeps only the part
//! of its full name that its parent does not already have.

use vstd::prelude::*;
use crate::bintree::{leaves, node_ids, BinTree, BTInnerNode};
use crate::deep_sorter::onetime::{is_max_gap_tree, split_gap};
use crate::common::SortableItem;
use crate::deep_sorter::{copy_vec, node_info_of, StaticNodeInfo};
use crate::type_level_logic::False;
use vstd::std_specs::cmp::PartialEqSpec;

verus! {

/// Why a node could not be named.
#[derive(Debug, Clone, Hash)]
pub enum NamingErr<LeafNamingError> {
    /// Couldn't name group, because no child has successful name
    ChildrenFailed,
    /// This is a leaf and the naming failed
    Leaf(LeafNamingError),
}

/// What naming a node gave.
#[derive(Debug)]
pub enum NamingRes<NDItem, LeafNameErr> {
    /// The node had been named before (the error of a failed naming is not repeated).
    AlreadyNamed(Option<Vec<NDItem>>),
    /// The node was named now.
    NewlyNamed(Result<Vec<NDItem>, NamingErr<LeafNameErr>>),
}

/// The full name a naming result gives, if it is a success.
pub open spec fn res_name<NDItem, E>(r: NamingRes<NDItem, E>) -> Option<Seq<NDItem>> {
    match r {
        NamingRes::AlreadyNamed(Some(v)) => Some(v@),
        NamingRes::AlreadyNamed(None) => None,
        NamingRes::NewlyNamed(Ok(v)) => Some(v@),
        NamingRes::NewlyNamed(Err(_)) => None,
    }
}

/// The name a naming result holds: the earlier name, or the new one if naming succeeded.
pub open spec fn name_option<NDItem, E>(r: NamingRes<NDItem, E>) -> Option<Vec<NDItem>> {
    match r {
        NamingRes::AlreadyNamed(inner) => inner,
        NamingRes::NewlyNamed(inner) => inner.ok(),
    }
}

impl<NDItem, LeafNameErr> NamingRes<NDItem, LeafNameErr> {
    /// The name, if the naming was a success.
    pub fn into_option(self) -> (r: Option<Vec<NDItem>>)
        ensures
            r == name_option(self),
    {
        match self {
            NamingRes::AlreadyNamed(inner) => inner,
            NamingRes::NewlyNamed(inner) => inner.ok(),
        }
    }

    /// The name, if the naming was a success.
    pub fn as_option(&self) -> (r: Option<&Vec<NDItem>>)
        ensures
            match r {
                Some(v) => name_option(*self) == Some(*v),
                None => name_option(*self) is None,
            },
    {
        match self {
            NamingRes::AlreadyNamed(inner) => inner.as_ref(),
            NamingRes::NewlyNamed(inner) => match inner {
                Ok(v) => Some(v),
                Err(_) => None,
            },
        }
    }
}

/// `b` is a clone of `a`: of the same length, each item a clone of the item at its place.
pub open spec fn vec_cloned<T: Clone>(a: Vec<T>, b: Vec<T>) -> bool {
    &&& a@.len() == b@.len()
    &&& forall|i: int| 0 <= i < a@.len() ==> vstd::pervasive::cloned(a@[i], #[trigger] b@[i])
}

/// `b` is a clone of `a`: the same variant, with the names cloned.
pub open spec fn res_cloned<NDItem: Clone, E>(a: NamingRes<NDItem, E>, b: NamingRes<NDItem, E>) -> bool {
    match (a, b) {
        (NamingRes::AlreadyNamed(Some(x)), NamingRes::AlreadyNamed(Some(y))) => vec_cloned(x, y),
        (NamingRes::AlreadyNamed(None), NamingRes::AlreadyNamed(None)) => true,
        (NamingRes::NewlyNamed(Ok(x)), NamingRes::NewlyNamed(Ok(y))) => vec_cloned(x, y),
        (NamingRes::NewlyNamed(Err(_)), NamingRes::NewlyNamed(Err(_))) => true,
        _ => false,
    }
}

impl<NDItem: Clone, LeafNameErr: Clone> Clone for NamingRes<NDItem, LeafNameErr> {
    fn clone(&self) -> (r: Self)
        ensures
            res_cloned(*self, r),
    {
        match self {
            NamingRes::AlreadyNamed(inner) => NamingRes::AlreadyNamed(
                match inner {
                    Some(v) => Some(v.clone()),
                    None => None,
                },
            ),
            NamingRes::NewlyNamed(inner) => NamingRes::NewlyNamed(
                match inner {
                    Ok(v) => Ok(v.clone()),
                    Err(e) => Err(e.clone()),
                },
            ),
        }
    }
}

/// Taking the name out of a clone gives a clone of the name borrowed from the original:
/// `r.clone().into_option()` agrees with `r.as_option().cloned()`.
pub proof fn lemma_clone_keeps_name<NDItem: Clone, E>(a: NamingRes<NDItem, E>, b: NamingRes<NDItem, E>)
    requires
        res_cloned(a, b),
    ensures
        match (name_option(a), name_option(b)) {
            (Some(x), Some(y)) => vec_cloned(x, y),
            (None, None) => true,
            _ => false,
        },
{
}

/// Some element of `s` is equal to `a`.
pub open spec fn contains_eq<T: PartialEq>(s: Seq<T>, a: T) -> bool {
    exists|i: int| 0 <= i < s.len() && a.eq_spec(&s[i])
}

/// The elements of `v` that are (`keep`) or are not (`!keep`) in `p`, in their order.
pub open spec fn filter_contained<T: PartialEq>(v: Seq<T>, p: Seq<T>, keep: bool) -> Seq<T> {
    v.filter(|a: T| contains_eq(p, a) == keep)
}

/// Adds `next` to the name `acc` of a group: what the two have in common, unless `acc` is
/// still empty, in which case `next` is taken as it is.
pub open spec fn intersect_names<T: PartialEq>(acc: Seq<T>, next: Seq<T>) -> Seq<T> {
    if acc.len() == 0 {
        next
    } else {
        filter_contained(acc, next, true)
    }
}

/// The full name of a group whose children have the names `names` ([`None`] for those that
/// could not be named): the first name, narrowed by each following one with
/// [`intersect_names`]; [`None`] when no child has a name.
pub open spec fn reduce_names<T: PartialEq>(names: Seq<Option<Seq<T>>>) -> Option<Seq<T>>
    decreases names.len(),
{
    if names.len() == 0 {
        None
    } else {
        match reduce_names(names.drop_last()) {
            None => names.last(),
            Some(acc) => match names.last() {
                None => Some(acc),
                Some(n) => Some(intersect_names(acc, n)),
            },
        }
    }
}

/// The view of an optional name.
pub open spec fn opt_view<T>(o: Option<Vec<T>>) -> Option<Seq<T>> {
    match o {
        Some(v) => Some(v@),
        None => None,
    }
}

proof fn lemma_filter_no_duplicates<T>(s: Seq<T>, pred: spec_fn(T) -> bool)
    requires
        s.no_duplicates(),
    ensures
        s.filter(pred).no_duplicates(),
    decreases s.len(),
{
    reveal_with_fuel(Seq::filter, 1);
    if s.len() > 0 {
        let rest = s.drop_last();
        assert forall|a: int, b: int| 0 <= a < rest.len() && 0 <= b < rest.len() && a != b implies rest[a] != rest[b] by {
            assert(rest[a] == s[a] && rest[b] == s[b]);
        }
        lemma_filter_no_duplicates(rest, pred);
        if pred(s.last()) {
            let f = rest.filter(pred);
            if f.contains(s.last()) {
                rest.lemma_filter_contains_rev(pred, s.last());
                let j = choose|j: int| 0 <= j < rest.len() && rest[j] == s.last();
                assert(s[j] == s[s.len() - 1]);
            }
            let g = f.push(s.last());
            assert forall|a: int, b: int| 0 <= a < g.len() && 0 <= b < g.len() && a != b implies g[a] != g[b] by {
                if a < f.len() && b < f.len() {
                } else if a < f.len() {
                    assert(f.contains(g[a]));
                } else {
                    assert(f.contains(g[b]));
                }
            }
        }
    }
}

/// Narrowing a name never repeats an item: the part of a name with no item twice that is (or
/// is not) in another name has no item twice.
pub proof fn lemma_narrowed_name_no_duplicates<T: PartialEq>(v: Seq<T>, p: Seq<T>, keep: bool)
    requires
        v.no_duplicates(),
    ensures
        filter_contained(v, p, keep).no_duplicates(),
{
    lemma_filter_no_duplicates(v, |a: T| contains_eq(p, a) == keep);
}

/// Whether `s` contains an element equal to `a`.
fn contains_item<T: PartialEq>(s: &Vec<T>, a: &T) -> (r: bool)
    requires
        T::obeys_eq_spec(),
    ensures
        r == contains_eq(s@, *a),
{
    let mut i: usize = 0;
    while i < s.len()
        invariant
            T::obeys_eq_spec(),
            i <= s.len(),
            forall|j: int| 0 <= j < i ==> !a.eq_spec(&s@[j]),
        decreases s.len() - i,
    {
        if *a == s[i] {
            return true;
        }
        i = i + 1;
    }
    false
}

/// The elements of `v` that are (`keep`) or are not (`!keep`) in `p`.
fn keep_contained<T: PartialEq + Copy>(v: &Vec<T>, p: &Vec<T>, keep: bool) -> (r: Vec<T>)
    requires
        T::obeys_eq_spec(),
    ensures
        r@ == filter_contained(v@, p@, keep),
        v@.no_duplicates() ==> r@.no_duplicates(),
{
    let mut r: Vec<T> = Vec::new();
    proof {
        reveal_with_fuel(Seq::filter, 1);
        assert(filter_contained(v@.take(0), p@, keep) =~= r@);
    }
    for i in 0..v.len()
        invariant
            T::obeys_eq_spec(),
            r@ == filter_contained(v@.take(i as int), p@, keep),
            v@.no_duplicates() ==> r@.no_duplicates(),
            forall|k: int| 0 <= k < r@.len() ==> v@.take(i as int).contains(#[trigger] r@[k]),
    {
        let c = contains_item(p, &v[i]);
        let ghost before = r@;
        let ghost x = v@[i as int];
        if c == keep {
            r.push(v[i]);
        }
        proof {
            reveal_with_fuel(Seq::filter, 1);
            let t0 = v@.take(i as int);
            let t1 = v@.take(i + 1);
            assert(t1.drop_last() =~= t0);
            assert(t1[i as int] == x);
            assert forall|k: int| 0 <= k < r@.len() implies t1.contains(#[trigger] r@[k]) by {
                if k < before.len() {
                    assert(r@[k] == before[k]);
                    let j = choose|j: int| 0 <= j < t0.len() && t0[j] == before[k];
                    assert(t1[j] == t0[j]);
                } else {
                    assert(t1[i as int] == r@[k]);
                }
            }
            if v@.no_duplicates() && c == keep {
                assert(!t0.contains(x)) by {
                    if t0.contains(x) {
                        let j = choose|j: int| 0 <= j < t0.len() && t0[j] == x;
                        assert(v@[j] == v@[i as int]);
                    }
                }
                assert forall|a: int, b: int| 0 <= a < r@.len() && 0 <= b < r@.len() && a != b implies r@[a] != r@[b] by {
                    if a < before.len() && b < before.len() {
                        assert(r@[a] == before[a] && r@[b] == before[b]);
                    } else if a < before.len() {
                        assert(r@[a] == before[a]);
                        assert(t0.contains(before[a]));
                    } else {
                        assert(r@[b] == before[b]);
                        assert(t0.contains(before[b]));
                    }
                }
            }
        }
    }
    proof {
        assert(v@.take(v.len() as int) =~= v@);
    }
    r
}

/// Adds `next` to the name `acc` of a group (see [`intersect_names`]).
fn intersect<T: PartialEq + Copy>(acc: Vec<T>, next: &Vec<T>) -> (r: Vec<T>)
    requires
        T::obeys_eq_spec(),
    ensures
        r@ == intersect_names(acc@, next@),
        acc@.no_duplicates() && next@.no_duplicates() ==> r@.no_duplicates(),
{
    if acc.len() == 0 {
        copy_vec(next)
    } else {
        keep_contained(&acc, next, true)
    }
}

/// The full name of a group whose children have the names `names` (see [`reduce_names`]).
pub fn group_name<T: PartialEq + Copy>(names: &Vec<Option<Vec<T>>>) -> (r: Option<Vec<T>>)
    requires
        T::obeys_eq_spec(),
    ensures
        opt_view(r) == reduce_names(names@.map_values(|o: Option<Vec<T>>| opt_view(o))),
        (forall|i: int| 0 <= i < names@.len() ==> (#[trigger] names@[i] matches Some(n) ==> n@.no_duplicates()))
            ==> (r matches Some(v) ==> v@.no_duplicates()),
{
    let ghost views = names@.map_values(|o: Option<Vec<T>>| opt_view(o));
    let mut acc: Option<Vec<T>> = None;
    proof {
        assert(views.take(0).len() == 0);
    }
    for i in 0..names.len()
        invariant
            T::obeys_eq_spec(),
            views == names@.map_values(|o: Option<Vec<T>>| opt_view(o)),
            opt_view(acc) == reduce_names(views.take(i as int)),
            (forall|j: int| 0 <= j < names@.len() ==> (#[trigger] names@[j] matches Some(n) ==> n@.no_duplicates()))
                ==> (acc matches Some(a) ==> a@.no_duplicates()),
    {
        proof {
            assert(views.take(i + 1).drop_last() =~= views.take(i as int));
            assert(views.take(i + 1).last() == opt_view(names@[i as int]));
        }
        match &names[i] {
            None => {},
            Some(n) => {
                acc = match acc {
                    None => Some(copy_vec(n)),
                    Some(a) => Some(intersect(a, n)),
                };
            },
        }
    }
    proof {
        assert(views.take(names.len() as int) =~= views);
    }
    acc
}

/// Naming data of a node of the sorted tree.
pub type NamingData<NDItem, E> = Option<Result<Vec<NDItem>, NamingErr<E>>>;

/// Static information of a node of the sorted tree.
pub type Info<Item, NDItem, E> = StaticNodeInfo<Item, NDItem, NamingErr<E>, False>;

/// The sorted tree whose nodes get named.
pub type NamedTree<Item, NDItem, E> = BinTree<Item, Info<Item, NDItem, E>>;

/// The view of naming data.
pub open spec fn naming_view<NDItem, E>(d: NamingData<NDItem, E>) -> Option<Result<Seq<NDItem>, NamingErr<E>>> {
    match d {
        None => None,
        Some(Ok(v)) => Some(Ok(v@)),
        Some(Err(e)) => Some(Err(e)),
    }
}

/// The naming data of the top node of a tree.
pub open spec fn top_naming<Item: SortableItem, NDItem, E>(t: NamedTree<Item, NDItem, E>) -> NamingData<NDItem, E> {
    node_info_of(t).naming_data
}

/// `b` is `a`, but for the naming data of its top node.
pub open spec fn retop<Item: SortableItem, NDItem, E>(a: NamedTree<Item, NDItem, E>, b: NamedTree<Item, NDItem, E>) -> bool {
    match (a, b) {
        (BinTree::Leaf(ia, ida, fa), BinTree::Leaf(ib, idb, fb)) => {
            &&& ia == ib
            &&& ida == idb
            &&& fa.fl_time == fb.fl_time
            &&& fa.fl_pos == fb.fl_pos
        },
        (BinTree::InnerNode(na), BinTree::InnerNode(nb)) => {
            &&& na.positioned_children == nb.positioned_children
            &&& na.additional_middle_leaves == nb.additional_middle_leaves
            &&& na.node_id == nb.node_id
            &&& na.node_data.fl_time == nb.node_data.fl_time
            &&& na.node_data.fl_pos == nb.node_data.fl_pos
        },
        _ => false,
    }
}

/// `b` is `a`, but for the naming data of its nodes.
pub open spec fn same_but_names<Item: SortableItem, NDItem, E>(a: NamedTree<Item, NDItem, E>, b: NamedTree<Item, NDItem, E>) -> bool
    decreases a,
{
    match (a, b) {
        (BinTree::Leaf(..), BinTree::Leaf(..)) => retop(a, b),
        (BinTree::InnerNode(na), BinTree::InnerNode(nb)) => {
            &&& na.additional_middle_leaves == nb.additional_middle_leaves
            &&& na.node_id == nb.node_id
            &&& na.node_data.fl_time == nb.node_data.fl_time
            &&& na.node_data.fl_pos == nb.node_data.fl_pos
            &&& same_but_names(na.positioned_children.0, nb.positioned_children.0)
            &&& same_but_names(na.positioned_children.1, nb.positioned_children.1)
        },
        _ => false,
    }
}

/// `res` tells that the node of information `info` had been named: its name, or [`None`] if
/// that naming failed.
pub open spec fn already_named<Item: SortableItem, NDItem, E>(res: NamingRes<NDItem, E>, info: Info<Item, NDItem, E>) -> bool {
    res matches NamingRes::AlreadyNamed(o) && match info.naming_data {
        Some(Ok(v)) => o matches Some(w) && w@ == v@,
        Some(Err(_)) => o is None,
        None => false,
    }
}

/// `r` is what the leaf naming function `f` gave for `item`, its error wrapped.
pub open spec fn leaf_named<Item, NDItem, E, F: Fn(&Item) -> Result<Vec<NDItem>, E>>(
    f: F,
    item: Item,
    r: Result<Vec<NDItem>, NamingErr<E>>,
) -> bool {
    exists|r0: Result<Vec<NDItem>, E>|
        #[trigger] f.ensures((&item,), r0) && match r0 {
            Ok(v) => r == Ok::<Vec<NDItem>, NamingErr<E>>(v),
            Err(e) => r == Err::<Vec<NDItem>, NamingErr<E>>(NamingErr::Leaf(e)),
        }
}

/// What a child whose naming gave `r` gets as its naming data, under a parent whose full name
/// is `full`: nothing new if it had been named before; otherwise the part of its full name
/// the parent's does not have, or its error.
pub open spec fn stored_naming<NDItem: PartialEq, E>(
    r: NamingRes<NDItem, E>,
    full: Option<Seq<NDItem>>,
    before: Option<Result<Seq<NDItem>, NamingErr<E>>>,
    after: Option<Result<Seq<NDItem>, NamingErr<E>>>,
) -> bool {
    match r {
        NamingRes::AlreadyNamed(_) => after == before,
        NamingRes::NewlyNamed(Ok(v)) => after == Some(Ok::<Seq<NDItem>, NamingErr<E>>(filter_contained(
            v@,
            full.unwrap(),
            false,
        ))),
        NamingRes::NewlyNamed(Err(e)) => after == Some(Err::<Seq<NDItem>, NamingErr<E>>(e)),
    }
}

/// What naming a group gives: its full name, or [`NamingErr::ChildrenFailed`] when no child
/// could be named.
pub open spec fn group_res<NDItem, E>(res: NamingRes<NDItem, E>, full: Option<Seq<NDItem>>) -> bool {
    res matches NamingRes::NewlyNamed(r) && match full {
        Some(p) => r matches Ok(v) && v@ == p,
        None => r matches Err(NamingErr::ChildrenFailed),
    }
}

/// The results the children of the groups gave when a tree was named, group by group.
pub enum NamingTrace<NDItem, E> {
    /// The node was a leaf, or had been named before.
    Done,
    /// The node was a group: the traces of its two children and what naming them gave.
    Split(Box<NamingTrace<NDItem, E>>, Box<NamingTrace<NDItem, E>>, NamingRes<NDItem, E>, NamingRes<NDItem, E>),
}

/// Naming the tree `old` with the leaf naming function `f` turned it into `new` and gave `res`;
/// `trace` records what the children of each named group gave.
///
/// A node that had been named is left as it is. A leaf is named by `f`. A group names its two
/// children; its full name is what their names have in common ([`reduce_names`]); each newly
/// named child stores the part of its name its parent does not have. The naming data of the top
/// node itself is left to its parent.
pub open spec fn naming_step<Item: SortableItem, NDItem: PartialEq, E, F: Fn(&Item) -> Result<Vec<NDItem>, E>>(
    old: NamedTree<Item, NDItem, E>,
    new: NamedTree<Item, NDItem, E>,
    res: NamingRes<NDItem, E>,
    f: F,
    trace: NamingTrace<NDItem, E>,
) -> bool
    decreases old,
{
    match old {
        BinTree::Leaf(item, _, info) => {
            &&& retop(old, new)
            &&& match info.naming_data {
                Some(_) => already_named(res, info),
                None => res matches NamingRes::NewlyNamed(r) && leaf_named(f, item, r),
            }
        },
        BinTree::InnerNode(bn) => match bn.node_data.naming_data {
            Some(_) => retop(old, new) && already_named(res, bn.node_data),
            None => new matches BinTree::InnerNode(nn) && trace matches NamingTrace::Split(tl, tr, rl, rr) && {
                let (ol, or) = *bn.positioned_children;
                let (nl, nr) = *nn.positioned_children;
                let full = reduce_names(seq![res_name(rl), res_name(rr)]);
                &&& nn.additional_middle_leaves == bn.additional_middle_leaves
                &&& nn.node_id == bn.node_id
                &&& nn.node_data.fl_time == bn.node_data.fl_time
                &&& nn.node_data.fl_pos == bn.node_data.fl_pos
                &&& naming_step(ol, nl, rl, f, *tl)
                &&& naming_step(or, nr, rr, f, *tr)
                &&& stored_naming(rl, full, naming_view(top_naming(ol)), naming_view(top_naming(nl)))
                &&& stored_naming(rr, full, naming_view(top_naming(or)), naming_view(top_naming(nr)))
                &&& group_res(res, full)
            },
        },
    }
}

/// Naming the tree `old` with the leaf naming function `f` turned it into `new` and gave `res`
/// (see [`naming_step`]).
pub open spec fn named_by<Item: SortableItem, NDItem: PartialEq, E, F: Fn(&Item) -> Result<Vec<NDItem>, E>>(
    old: NamedTree<Item, NDItem, E>,
    new: NamedTree<Item, NDItem, E>,
    res: NamingRes<NDItem, E>,
    f: F,
) -> bool {
    exists|trace: NamingTrace<NDItem, E>| #[trigger] naming_step(old, new, res, f, trace)
}

/// Naming data changed at the top node only keeps what naming did below.
pub(crate) proof fn lemma_naming_step_retop<Item: SortableItem, NDItem: PartialEq, E, F: Fn(&Item) -> Result<Vec<NDItem>, E>>(
    old: NamedTree<Item, NDItem, E>,
    x: NamedTree<Item, NDItem, E>,
    y: NamedTree<Item, NDItem, E>,
    res: NamingRes<NDItem, E>,
    f: F,
    trace: NamingTrace<NDItem, E>,
)
    requires
        naming_step(old, x, res, f, trace),
        retop(x, y),
    ensures
        naming_step(old, y, res, f, trace),
{
}

/// The name of a naming result, copied.
fn name_copy<NDItem: Copy, E>(r: &NamingRes<NDItem, E>) -> (o: Option<Vec<NDItem>>)
    ensures
        opt_view(o) == res_name(*r),
{
    match r.as_option() {
        Some(v) => Some(copy_vec(v)),
        None => None,
    }
}

/// What an already named node gives, or [`None`] if the node has not been named yet.
fn already<Item: SortableItem, NDItem: Copy, E>(info: &Info<Item, NDItem, E>) -> (r: Option<NamingRes<NDItem, E>>)
    ensures
        match info.naming_data {
            Some(_) => r matches Some(res) && already_named(res, *info),
            None => r is None,
        },
{
    match &info.naming_data {
        Some(Ok(v)) => Some(NamingRes::AlreadyNamed(Some(copy_vec(v)))),
        Some(Err(_)) => Some(NamingRes::AlreadyNamed(None)),
        None => None,
    }
}

/// Sets the naming data of the top node of `t`.
pub(crate) fn set_naming<Item: SortableItem, NDItem, E>(t: &mut NamedTree<Item, NDItem, E>, d: NamingData<NDItem, E>)
    ensures
        retop(*old(t), *final(t)),
        top_naming(*final(t)) == d,
{
    match t {
        BinTree::Leaf(_, _, info) => {
            info.naming_data = d;
        },
        BinTree::InnerNode(bn) => {
            bn.node_data.naming_data = d;
        },
    }
}

/// Stores in the child `t` what it keeps of its naming result `r` under a parent whose full
/// name is `full`.
fn store_child_name<Item: SortableItem, NDItem: PartialEq + Copy, E>(
    t: &mut NamedTree<Item, NDItem, E>,
    r: NamingRes<NDItem, E>,
    full: &Option<Vec<NDItem>>,
)
    requires
        NDItem::obeys_eq_spec(),
        r matches NamingRes::NewlyNamed(Ok(_)) ==> full is Some,
    ensures
        retop(*old(t), *final(t)),
        stored_naming(r, opt_view(*full), naming_view(top_naming(*old(t))), naming_view(top_naming(*final(t)))),
{
    match r {
        NamingRes::AlreadyNamed(_) => {},
        NamingRes::NewlyNamed(Ok(v)) => {
            let parent = match full {
                Some(p) => p,
                None => {
                    proof {
                        assert(false);
                    }
                    return;
                },
            };
            let kept = keep_contained(&v, parent, false);
            set_naming(t, Some(Ok(kept)));
        },
        NamingRes::NewlyNamed(Err(e)) => {
            set_naming(t, Some(Err(e)));
        },
    }
}

/// Names the tree `t`: see [`naming_step`].
pub(crate) fn name_tree<Item: SortableItem, NDItem: PartialEq + Copy, E, F: Fn(&Item) -> Result<Vec<NDItem>, E>>(
    t: &mut NamedTree<Item, NDItem, E>,
    f: &F,
) -> (rt: (NamingRes<NDItem, E>, Ghost<NamingTrace<NDItem, E>>))
    requires
        NDItem::obeys_eq_spec(),
        forall|it: &Item| f.requires((it,)),
    ensures
        naming_step(*old(t), *final(t), rt.0, *f, rt.1@),
        top_naming(*final(t)) == top_naming(*old(t)),
    decreases *old(t),
{
    match t {
        BinTree::Leaf(item, _, info) => {
            match already(info) {
                Some(r) => (r, Ghost(NamingTrace::Done)),
                None => {
                    let r0 = f(&*item);
                    let r = match r0 {
                        Ok(v) => Ok(v),
                        Err(e) => Err(NamingErr::Leaf(e)),
                    };
                    (NamingRes::NewlyNamed(r), Ghost(NamingTrace::Done))
                },
            }
        },
        BinTree::InnerNode(bn) => {
            match already(&bn.node_data) {
                Some(r) => (r, Ghost(NamingTrace::Done)),
                None => {
                    let ghost bn_old = *bn;
                    let (rl, tl) = name_tree(&mut bn.positioned_children.0, f);
                    let (rr, tr) = name_tree(&mut bn.positioned_children.1, f);
                    let ghost nl1 = bn.positioned_children.0;
                    let ghost nr1 = bn.positioned_children.1;
                    let mut names: Vec<Option<Vec<NDItem>>> = Vec::new();
                    names.push(name_copy(&rl));
                    names.push(name_copy(&rr));
                    let full = group_name(&names);
                    let ghost full_view = reduce_names(seq![res_name(rl), res_name(rr)]);
                    proof {
                        assert(names@.map_values(|o: Option<Vec<NDItem>>| opt_view(o)) =~= seq![res_name(rl), res_name(rr)]);
                        reveal_with_fuel(reduce_names, 3);
                        assert(seq![res_name(rl), res_name(rr)].drop_last() =~= seq![res_name(rl)]);
                        assert(seq![res_name(rl)].drop_last() =~= Seq::<Option<Seq<NDItem>>>::empty());
                    }
                    let ghost grl = rl;
                    let ghost grr = rr;
                    store_child_name(&mut bn.positioned_children.0, rl, &full);
                    store_child_name(&mut bn.positioned_children.1, rr, &full);
                    let res = NamingRes::NewlyNamed(
                        match full {
                            Some(n) => Ok(n),
                            None => Err(NamingErr::ChildrenFailed),
                        },
                    );
                    let ghost trace = NamingTrace::Split(Box::new(tl@), Box::new(tr@), grl, grr);
                    proof {
                        let nn = *bn;
                        lemma_naming_step_retop(bn_old.positioned_children.0, nl1, nn.positioned_children.0, grl, *f, tl@);
                        lemma_naming_step_retop(bn_old.positioned_children.1, nr1, nn.positioned_children.1, grr, *f, tr@);
                    }
                    (res, Ghost(trace))
                },
            }
        },
    }
}

/// Trees that differ at most in the naming data of their top node, which is the same, are equal.
pub(crate) proof fn lemma_retop_same_naming<Item: SortableItem, NDItem, E>(a: NamedTree<Item, NDItem, E>, b: NamedTree<Item, NDItem, E>)
    requires
        retop(a, b),
        top_naming(a) == top_naming(b),
    ensures
        a == b,
{
    match (a, b) {
        (BinTree::Leaf(_, _, fa), BinTree::Leaf(_, _, fb)) => {
            assert(fa == fb);
        },
        (BinTree::InnerNode(na), BinTree::InnerNode(nb)) => {
            assert(na.node_data == nb.node_data);
            assert(na == nb);
        },
        _ => {},
    }
}

proof fn lemma_same_but_names_refl<Item: SortableItem, NDItem, E>(a: NamedTree<Item, NDItem, E>)
    ensures
        same_but_names(a, a),
    decreases a,
{
    match a {
        BinTree::Leaf(..) => {},
        BinTree::InnerNode(n) => {
            lemma_same_but_names_refl(n.positioned_children.0);
            lemma_same_but_names_refl(n.positioned_children.1);
        },
    }
}

/// Naming changes nothing but naming data.
pub proof fn lemma_naming_keeps_tree<Item: SortableItem, NDItem: PartialEq, E, F: Fn(&Item) -> Result<Vec<NDItem>, E>>(
    old: NamedTree<Item, NDItem, E>,
    new: NamedTree<Item, NDItem, E>,
    res: NamingRes<NDItem, E>,
    f: F,
    trace: NamingTrace<NDItem, E>,
)
    requires
        naming_step(old, new, res, f, trace),
    ensures
        same_but_names(old, new),
    decreases old,
{
    match old {
        BinTree::Leaf(..) => {},
        BinTree::InnerNode(bn) => {
            if bn.node_data.naming_data is None {
                let nn = new->InnerNode_0;
                let tl = *trace->Split_0;
                let tr = *trace->Split_1;
                lemma_naming_keeps_tree(bn.positioned_children.0, nn.positioned_children.0, trace->Split_2, f, tl);
                lemma_naming_keeps_tree(bn.positioned_children.1, nn.positioned_children.1, trace->Split_3, f, tr);
            } else {
                lemma_same_but_names_refl(bn.positioned_children.0);
                lemma_same_but_names_refl(bn.positioned_children.1);
            }
        },
    }
}

/// Trees that differ only in naming data hold the same items, have the same ids and are split
/// at the same places.
pub proof fn lemma_same_but_names_tree<Item: SortableItem, NDItem, E>(a: NamedTree<Item, NDItem, E>, b: NamedTree<Item, NDItem, E>)
    requires
        same_but_names(a, b),
    ensures
        leaves(a) == leaves(b),
        node_ids(a) == node_ids(b),
        is_max_gap_tree(a) == is_max_gap_tree(b),
    decreases a,
{
    match a {
        BinTree::Leaf(..) => {},
        BinTree::InnerNode(na) => {
            let nb = b->InnerNode_0;
            lemma_same_but_names_tree(na.positioned_children.0, nb.positioned_children.0);
            lemma_same_but_names_tree(na.positioned_children.1, nb.positioned_children.1);
            assert(split_gap(na) == split_gap(nb));
        },
    }
}

} // verus!
