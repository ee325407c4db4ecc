//! A hierarchy read node by node: a group hands out its children on request.
//!
//! Conceptually similiar to an iterator, which may initialize its elements only _after_ an
//! attempt to read them.

use vstd::prelude::*;
use std::convert::Infallible;
use crate::hierarchy::concrete::{ConcreteHiearchy, Group, Leaf, Node};
use crate::type_level_logic::False;

verus! {

/// A reference to a leaf of a hierarchy.
pub trait LeafRef {
    /// Additional data related to a leaf
    type Metadata;
    /// Additional data related to every node in the hierarchy
    type NodeMetadata;

    fn leaf_metadata(&self) -> Self::Metadata;

    fn node_metadata(&self) -> Self::NodeMetadata;
}

/// A reference to a group of a hierarchy.
pub trait GroupRef: Sized {
    /// Additional data related to any node alongside [`GroupRef::LeafMetadata`] and [`GroupRef::GroupMetadata`]
    type NodeMetadata;
    /// Additional data related to a leaf. See also [`GroupRef::NodeMetadata`]
    type LeafMetadata;
    /// Additional data related to a group. See also [`GroupRef::NodeMetadata`]
    type GroupMetadata;
    /// Error encountered while trying to construct the group structure
    type StructureErr;
    /// The type of leaf reference
    type LeafRef: LeafRef<Metadata = Self::LeafMetadata, NodeMetadata = Self::NodeMetadata>;

    /// Returns children of a group.
    fn get_children(&self) -> Result<Vec<NodeRef<Self>>, Self::StructureErr>;

    /// The data of the group.
    fn group_metadata(&self) -> Self::GroupMetadata;

    /// The data every node has.
    fn node_metadata(&self) -> Self::NodeMetadata;
}

/// A reference to a node: a group or a leaf.
pub enum NodeRef<G: GroupRef> {
    Group(G),
    Leaf(G::LeafRef),
}

/// Something that has a root group.
pub trait AsGroupRef {
    /// The type of group reference this hierarchy provides
    type GroupRef: GroupRef;

    /// Get the root group of the hierarchy
    fn root(&self) -> Self::GroupRef;
}

/// Either `()`, for something that may happen, or [`False`], for something that cannot.
pub trait UnitOrNever {
}

impl UnitOrNever for () {
}

impl UnitOrNever for False {
}

/// A result that may not be ready yet.
pub enum LoadingResult<T, E, DoesLoading: UnitOrNever> {
    Ready(Result<T, E>),
    Loading { message: String, guard: DoesLoading },
}

impl<T, E> LoadingResult<T, E, False> {
    /// Never fails: a [`LoadingResult`] whose loading guard cannot exist is always
    /// [ready](LoadingResult::Ready).
    pub fn to_result(self) -> (r: Result<T, E>)
        ensures
            self == LoadingResult::<T, E, False>::Ready(r),
    {
        match self {
            LoadingResult::Loading { message: _, guard } => {
                proof {
                    use_type_invariant(&guard);
                }
                guard.absurd()
            },
            LoadingResult::Ready(r) => r,
        }
    }
}

impl<T, E, DoesLoading: UnitOrNever> LoadingResult<T, E, DoesLoading> {
    /// A ready success.
    pub fn new_ok(t: T) -> (r: Self)
        ensures
            r == LoadingResult::<T, E, DoesLoading>::Ready(Ok(t)),
    {
        Self::Ready(Result::Ok(t))
    }

    /// Maps a ready success by `f`; errors and loading stay as they are.
    pub fn map<U, F: FnOnce(T) -> U>(self, f: F) -> (r: LoadingResult<U, E, DoesLoading>)
        requires
            self matches LoadingResult::Ready(Ok(t)) ==> f.requires((t,)),
        ensures
            match self {
                LoadingResult::Ready(Ok(t)) => r matches LoadingResult::Ready(Ok(u)) && f.ensures((t,), u),
                LoadingResult::Ready(Err(e)) => r == LoadingResult::<U, E, DoesLoading>::Ready(Err(e)),
                LoadingResult::Loading { message, guard } => r == LoadingResult::<U, E, DoesLoading>::Loading {
                    message,
                    guard,
                },
            },
    {
        match self {
            LoadingResult::Ready(Ok(t)) => LoadingResult::Ready(Ok(f(t))),
            LoadingResult::Ready(Err(e)) => LoadingResult::Ready(Err(e)),
            LoadingResult::Loading { message, guard } => LoadingResult::Loading { message, guard },
        }
    }
}

impl<'a, L, N> LeafRef for &'a Leaf<L, N> {
    type Metadata = &'a L;

    type NodeMetadata = &'a N;

    fn leaf_metadata(&self) -> (r: &'a L)
        ensures
            *r == self.leaf_data,
    {
        &self.leaf_data
    }

    fn node_metadata(&self) -> (r: &'a N)
        ensures
            *r == self.node_data,
    {
        &self.node_data
    }
}

/// The children of a concrete group as node references.
fn concrete_children<'a, G, L, N>(g: &'a Group<G, L, N>) -> (r: Vec<NodeRef<&'a Group<G, L, N>>>)
    ensures
        r@.len() == g.children@.len(),
        forall|i: int| 0 <= i < r@.len() ==> match #[trigger] g.children@[i] {
            Node::Group(cg) => r@[i] matches NodeRef::Group(rg) && *rg == cg,
            Node::Leaf(cl) => r@[i] matches NodeRef::Leaf(rl) && *rl == cl,
        },
{
    let mut r: Vec<NodeRef<&'a Group<G, L, N>>> = Vec::new();
    for i in 0..g.children.len()
        invariant
            r@.len() == i,
            forall|k: int| 0 <= k < i ==> match #[trigger] g.children@[k] {
                Node::Group(cg) => r@[k] matches NodeRef::Group(rg) && *rg == cg,
                Node::Leaf(cl) => r@[k] matches NodeRef::Leaf(rl) && *rl == cl,
            },
    {
        match &g.children[i] {
            Node::Group(cg) => r.push(NodeRef::Group(cg)),
            Node::Leaf(cl) => r.push(NodeRef::Leaf(cl)),
        }
    }
    r
}

impl<'a, G, L, N> GroupRef for &'a Group<G, L, N> {
    type NodeMetadata = &'a N;

    type LeafMetadata = &'a L;

    type GroupMetadata = &'a G;

    type StructureErr = Infallible;

    type LeafRef = &'a Leaf<L, N>;

    fn get_children(&self) -> (r: Result<Vec<NodeRef<&'a Group<G, L, N>>>, Infallible>)
        ensures
            r matches Ok(v) && v@.len() == self.children@.len() && forall|i: int|
                0 <= i < v@.len() ==> match #[trigger] self.children@[i] {
                    Node::Group(cg) => v@[i] matches NodeRef::Group(rg) && *rg == cg,
                    Node::Leaf(cl) => v@[i] matches NodeRef::Leaf(rl) && *rl == cl,
                },
    {
        Ok(concrete_children(*self))
    }

    fn group_metadata(&self) -> (r: &'a G)
        ensures
            *r == self.group_data,
    {
        &self.group_data
    }

    fn node_metadata(&self) -> (r: &'a N)
        ensures
            *r == self.node_data,
    {
        &self.node_data
    }
}

impl<'a, G, L, N> AsGroupRef for &'a ConcreteHiearchy<G, L, N> {
    type GroupRef = &'a Group<G, L, N>;

    fn root(&self) -> (r: &'a Group<G, L, N>)
        ensures
            *r == self.root_group,
    {
        &self.root_group
    }
}

/// How to map the data of a hierarchy to new data.
pub trait Mapper<OrigGr: GroupRef> {
    type GroupDataNew;
    type LeafDataNew;
    type NodeDataNew;

    /// The mapper can map the data of the group `group_ref`.
    spec fn maps_group(&self, group_ref: &OrigGr) -> bool;

    /// The mapper can map the data of the leaf `leaf_ref`.
    spec fn maps_leaf(&self, leaf_ref: &OrigGr::LeafRef) -> bool;

    /// `r` is group data the mapper may give for the group `group_ref`.
    spec fn group_data_of(&self, group_ref: &OrigGr, r: Self::GroupDataNew) -> bool;

    /// `r` is leaf data the mapper may give for the leaf `leaf_ref`.
    spec fn leaf_data_of(&self, leaf_ref: &OrigGr::LeafRef, r: Self::LeafDataNew) -> bool;

    /// `r` is node data the mapper may give for the group `group_ref`.
    spec fn group_node_data_of(&self, group_ref: &OrigGr, r: Self::NodeDataNew) -> bool;

    /// `r` is node data the mapper may give for the leaf `leaf_ref`.
    spec fn leaf_node_data_of(&self, leaf_ref: &OrigGr::LeafRef, r: Self::NodeDataNew) -> bool;

    /// Transform group metadata into the new group data type.
    fn map_group_data(&self, group_ref: &OrigGr) -> (r: Self::GroupDataNew)
        requires
            self.maps_group(group_ref),
        ensures
            self.group_data_of(group_ref, r),
    ;

    /// Transform leaf metadata into the new leaf data type.
    fn map_leaf_data(&self, leaf_ref: &OrigGr::LeafRef) -> (r: Self::LeafDataNew)
        requires
            self.maps_leaf(leaf_ref),
        ensures
            self.leaf_data_of(leaf_ref, r),
    ;

    /// Transform group metadata into node data for group nodes.
    fn map_group_node_data(&self, group_ref: &OrigGr) -> (r: Self::NodeDataNew)
        requires
            self.maps_group(group_ref),
        ensures
            self.group_node_data_of(group_ref, r),
    ;

    /// Transform leaf metadata into node data for leaf nodes.
    fn map_leaf_node_data(&self, leaf_ref: &OrigGr::LeafRef) -> (r: Self::NodeDataNew)
        requires
            self.maps_leaf(leaf_ref),
        ensures
            self.leaf_node_data_of(leaf_ref, r),
    ;
}

/// The mapper `m` can map the data of every node.
pub open spec fn maps_all<OrigGr: GroupRef, M: Mapper<OrigGr>>(m: M) -> bool {
    &&& forall|g: &OrigGr| #[trigger] m.maps_group(g)
    &&& forall|l: &OrigGr::LeafRef| #[trigger] m.maps_leaf(l)
}

/// A [`Mapper`] that only transforms group data.
pub struct GroupDataMapper<F> {
    map_fn: F,
}

impl<F> GroupDataMapper<F> {
    /// The transformation function.
    pub closed spec fn function(&self) -> F {
        self.map_fn
    }

    /// Creates a new `GroupDataMapper` with the given transformation function.
    pub fn new(map_fn: F) -> (r: Self)
        ensures
            r.function() == map_fn,
    {
        Self { map_fn }
    }
}

impl<OrigGr: GroupRef, GroupDataNew, F: Fn(&OrigGr) -> GroupDataNew> Mapper<OrigGr> for GroupDataMapper<F> {
    type GroupDataNew = GroupDataNew;

    type LeafDataNew = OrigGr::LeafMetadata;

    type NodeDataNew = OrigGr::NodeMetadata;

    open spec fn maps_group(&self, group_ref: &OrigGr) -> bool {
        self.function().requires((group_ref,))
    }

    open spec fn maps_leaf(&self, leaf_ref: &OrigGr::LeafRef) -> bool {
        true
    }

    open spec fn group_data_of(&self, group_ref: &OrigGr, r: GroupDataNew) -> bool {
        self.function().ensures((group_ref,), r)
    }

    open spec fn leaf_data_of(&self, leaf_ref: &OrigGr::LeafRef, r: OrigGr::LeafMetadata) -> bool {
        call_ensures(OrigGr::LeafRef::leaf_metadata, (leaf_ref,), r)
    }

    open spec fn group_node_data_of(&self, group_ref: &OrigGr, r: OrigGr::NodeMetadata) -> bool {
        call_ensures(OrigGr::node_metadata, (group_ref,), r)
    }

    open spec fn leaf_node_data_of(&self, leaf_ref: &OrigGr::LeafRef, r: OrigGr::NodeMetadata) -> bool {
        call_ensures(OrigGr::LeafRef::node_metadata, (leaf_ref,), r)
    }

    fn map_group_data(&self, group_ref: &OrigGr) -> (r: GroupDataNew) {
        (self.map_fn)(group_ref)
    }

    fn map_leaf_data(&self, leaf_ref: &OrigGr::LeafRef) -> (r: OrigGr::LeafMetadata) {
        leaf_ref.leaf_metadata()
    }

    fn map_group_node_data(&self, group_ref: &OrigGr) -> (r: OrigGr::NodeMetadata) {
        group_ref.node_metadata()
    }

    fn map_leaf_node_data(&self, leaf_ref: &OrigGr::LeafRef) -> (r: OrigGr::NodeMetadata) {
        leaf_ref.node_metadata()
    }
}

/// A [`Mapper`] that only transforms leaf data.
pub struct LeafDataMapper<F> {
    map_fn: F,
}

impl<F> LeafDataMapper<F> {
    /// The transformation function.
    pub closed spec fn function(&self) -> F {
        self.map_fn
    }

    /// Creates a new `LeafDataMapper` with the given transformation function.
    pub fn new(map_fn: F) -> (r: Self)
        ensures
            r.function() == map_fn,
    {
        Self { map_fn }
    }
}

impl<
    OrigGr: GroupRef<LeafRef = Lf>,
    Lf: LeafRef<Metadata = OrigGr::LeafMetadata, NodeMetadata = OrigGr::NodeMetadata>,
    LeafDataNew,
    F: Fn(&Lf) -> LeafDataNew,
> Mapper<OrigGr> for LeafDataMapper<F> {
    type GroupDataNew = OrigGr::GroupMetadata;

    type LeafDataNew = LeafDataNew;

    type NodeDataNew = OrigGr::NodeMetadata;

    open spec fn maps_group(&self, group_ref: &OrigGr) -> bool {
        true
    }

    open spec fn maps_leaf(&self, leaf_ref: &Lf) -> bool {
        self.function().requires((leaf_ref,))
    }

    open spec fn group_data_of(&self, group_ref: &OrigGr, r: OrigGr::GroupMetadata) -> bool {
        call_ensures(OrigGr::group_metadata, (group_ref,), r)
    }

    open spec fn leaf_data_of(&self, leaf_ref: &Lf, r: LeafDataNew) -> bool {
        self.function().ensures((leaf_ref,), r)
    }

    open spec fn group_node_data_of(&self, group_ref: &OrigGr, r: OrigGr::NodeMetadata) -> bool {
        call_ensures(OrigGr::node_metadata, (group_ref,), r)
    }

    open spec fn leaf_node_data_of(&self, leaf_ref: &Lf, r: OrigGr::NodeMetadata) -> bool {
        call_ensures(Lf::node_metadata, (leaf_ref,), r)
    }

    fn map_group_data(&self, group_ref: &OrigGr) -> (r: OrigGr::GroupMetadata) {
        group_ref.group_metadata()
    }

    fn map_leaf_data(&self, leaf_ref: &Lf) -> (r: LeafDataNew) {
        (self.map_fn)(leaf_ref)
    }

    fn map_group_node_data(&self, group_ref: &OrigGr) -> (r: OrigGr::NodeMetadata) {
        group_ref.node_metadata()
    }

    fn map_leaf_node_data(&self, leaf_ref: &Lf) -> (r: OrigGr::NodeMetadata) {
        leaf_ref.node_metadata()
    }
}

/// A group whose data is mapped by a [`Mapper`] it refers to.
pub struct MappedGroupRef<'m, OrigGr: GroupRef, M: Mapper<OrigGr>> {
    this: OrigGr,
    mapper: &'m M,
}

impl<'m, OrigGr: GroupRef, M: Mapper<OrigGr>> MappedGroupRef<'m, OrigGr, M> {
    #[verifier::type_invariant]
    spec fn mapper_maps_all(self) -> bool {
        maps_all::<OrigGr, M>(*self.mapper)
    }

    /// The original group.
    pub closed spec fn original(&self) -> OrigGr {
        self.this
    }

    /// The mapper.
    pub closed spec fn spec_mapper(&self) -> M {
        *self.mapper
    }
}

impl<'m, OrigGr: GroupRef + Clone, M: Mapper<OrigGr>> Clone for MappedGroupRef<'m, OrigGr, M> {
    fn clone(&self) -> (r: Self)
        ensures
            vstd::pervasive::cloned(self.original(), r.original()),
            r.spec_mapper() == self.spec_mapper(),
    {
        proof {
            use_type_invariant(self);
        }
        MappedGroupRef { this: self.this.clone(), mapper: self.mapper }
    }
}

/// A leaf whose data is mapped by a [`Mapper`] it refers to.
pub struct MappedLeafRef<'m, OrigGr: GroupRef, M: Mapper<OrigGr>> {
    this: OrigGr::LeafRef,
    mapper: &'m M,
}

impl<'m, OrigGr: GroupRef, M: Mapper<OrigGr>> MappedLeafRef<'m, OrigGr, M> {
    #[verifier::type_invariant]
    spec fn mapper_maps_all(self) -> bool {
        maps_all::<OrigGr, M>(*self.mapper)
    }

    /// The original leaf.
    pub closed spec fn original(&self) -> OrigGr::LeafRef {
        self.this
    }

    /// The mapper.
    pub closed spec fn spec_mapper(&self) -> M {
        *self.mapper
    }
}

impl<'m, OrigGr: GroupRef, M: Mapper<OrigGr>> LeafRef for MappedLeafRef<'m, OrigGr, M> {
    type Metadata = M::LeafDataNew;

    type NodeMetadata = M::NodeDataNew;

    fn leaf_metadata(&self) -> (r: M::LeafDataNew)
        ensures
            call_ensures(M::map_leaf_data, (&self.spec_mapper(), &self.original()), r),
    {
        proof {
            use_type_invariant(self);
        }
        self.mapper.map_leaf_data(&self.this)
    }

    fn node_metadata(&self) -> (r: M::NodeDataNew)
        ensures
            call_ensures(M::map_leaf_node_data, (&self.spec_mapper(), &self.original()), r),
    {
        proof {
            use_type_invariant(self);
        }
        self.mapper.map_leaf_node_data(&self.this)
    }
}

impl<'m, OrigGr: GroupRef, M: Mapper<OrigGr>> GroupRef for MappedGroupRef<'m, OrigGr, M> {
    type NodeMetadata = M::NodeDataNew;

    type LeafMetadata = M::LeafDataNew;

    type GroupMetadata = M::GroupDataNew;

    type StructureErr = OrigGr::StructureErr;

    type LeafRef = MappedLeafRef<'m, OrigGr, M>;

    fn get_children(&self) -> (r: Result<Vec<NodeRef<Self>>, OrigGr::StructureErr>)
        ensures
            exists|orig: Result<Vec<NodeRef<OrigGr>>, OrigGr::StructureErr>|
                #[trigger] call_ensures(OrigGr::get_children, (&self.original(),), orig) && match orig {
                    Err(e) => r == Err::<Vec<NodeRef<Self>>, OrigGr::StructureErr>(e),
                    Ok(children) => r matches Ok(mapped) && mapped@.len() == children@.len() && forall|i: int|
                        0 <= i < children@.len() ==> maps_node(#[trigger] children@[i], mapped@[i], self.spec_mapper()),
                },
    {
        proof {
            use_type_invariant(self);
        }
        let orig = self.this.get_children();
        let ghost gorig = orig;
        assert(call_ensures(OrigGr::get_children, (&self.original(),), gorig));
        match orig {
            Err(e) => Err(e),
            Ok(children) => {
                let ghost v0 = children;
                let ghost all = children@;
                let mut children = children;
                let mut rest: Vec<NodeRef<OrigGr>> = Vec::new();
                while children.len() > 0
                    invariant
                        all == children@ + rest@.reverse(),
                    decreases children.len(),
                {
                    let child = children.pop().unwrap();
                    rest.push(child);
                    proof {
                        assert(all =~= children@ + rest@.reverse());
                    }
                }
                proof {
                    assert(all =~= rest@.reverse());
                }
                let mut mapped: Vec<NodeRef<Self>> = Vec::new();
                while rest.len() > 0
                    invariant
                        maps_all::<OrigGr, M>(*self.mapper),
                        all.len() == mapped@.len() + rest@.len(),
                        forall|i: int| 0 <= i < mapped@.len() ==> maps_node(#[trigger] all[i], mapped@[i], *self.mapper),
                        forall|i: int| 0 <= i < rest@.len() ==> all[mapped@.len() + i] == #[trigger] rest@.reverse()[i],
                    decreases rest.len(),
                {
                    let ghost before = rest@;
                    let child = rest.pop().unwrap();
                    proof {
                        assert(before.reverse()[0] == child);
                        assert forall|i: int| 0 <= i < rest@.len() implies all[mapped@.len() + 1 + i] == #[trigger] rest@.reverse()[i] by {
                            assert(rest@.reverse()[i] == before.reverse()[i + 1]);
                        }
                    }
                    let m = match child {
                        NodeRef::Group(group) => NodeRef::Group(MappedGroupRef { this: group, mapper: self.mapper }),
                        NodeRef::Leaf(leaf) => NodeRef::Leaf(MappedLeafRef { this: leaf, mapper: self.mapper }),
                    };
                    mapped.push(m);
                }
                proof {
                    assert(mapped@.len() == all.len());
                    assert(gorig == Ok::<Vec<NodeRef<OrigGr>>, OrigGr::StructureErr>(v0));
                    assert forall|i: int| 0 <= i < v0@.len() implies maps_node(#[trigger] v0@[i], mapped@[i], self.spec_mapper()) by {
                        assert(all[i] == v0@[i]);
                    }
                }
                Ok(mapped)
            },
        }
    }

    fn group_metadata(&self) -> (r: M::GroupDataNew)
        ensures
            call_ensures(M::map_group_data, (&self.spec_mapper(), &self.original()), r),
    {
        proof {
            use_type_invariant(self);
        }
        self.mapper.map_group_data(&self.this)
    }

    fn node_metadata(&self) -> (r: M::NodeDataNew)
        ensures
            call_ensures(M::map_group_node_data, (&self.spec_mapper(), &self.original()), r),
    {
        proof {
            use_type_invariant(self);
        }
        self.mapper.map_group_node_data(&self.this)
    }
}

/// `m` is the node `n` with its data mapped by `mapper`.
pub open spec fn maps_node<'m, OrigGr: GroupRef, M: Mapper<OrigGr>>(
    n: NodeRef<OrigGr>,
    m: NodeRef<MappedGroupRef<'m, OrigGr, M>>,
    mapper: M,
) -> bool {
    match n {
        NodeRef::Group(g) => m matches NodeRef::Group(mg) && mg.original() == g && mg.spec_mapper() == mapper,
        NodeRef::Leaf(l) => m matches NodeRef::Leaf(ml) && ml.original() == l && ml.spec_mapper() == mapper,
    }
}

/// A hierarchy whose data is mapped by a [`Mapper`]: it owns the original root and the mapper.
pub struct AsMappedGroupRef<OrigGr: GroupRef, M: Mapper<OrigGr>> {
    pub original: OrigGr,
    pub mapper: M,
}

impl<OrigGr: GroupRef + Clone, M: Mapper<OrigGr>> AsMappedGroupRef<OrigGr, M> {
    /// The root of the mapped hierarchy: a clone of the original root, mapped by this
    /// hierarchy's mapper.
    pub fn root(&self) -> (r: MappedGroupRef<'_, OrigGr, M>)
        requires
            maps_all::<OrigGr, M>(self.mapper),
        ensures
            vstd::pervasive::cloned(self.original, r.original()),
            r.spec_mapper() == self.mapper,
    {
        MappedGroupRef { this: self.original.clone(), mapper: &self.mapper }
    }
}

/// The group `gr` with its data mapped by `mapper`.
pub fn map<OrigGr: GroupRef, M: Mapper<OrigGr>>(gr: OrigGr, mapper: M) -> (r: AsMappedGroupRef<OrigGr, M>)
    ensures
        r.original == gr,
        r.mapper == mapper,
{
    AsMappedGroupRef { original: gr, mapper }
}

/// The group `gr` with its data mapped by `mapper`, which it refers to.
pub fn map_as_groupref<'m, OrigGr: GroupRef, M: Mapper<OrigGr>>(gr: OrigGr, mapper: &'m M) -> (r: MappedGroupRef<'m, OrigGr, M>)
    requires
        maps_all::<OrigGr, M>(*mapper),
    ensures
        r.original() == gr,
        r.spec_mapper() == *mapper,
{
    MappedGroupRef { this: gr, mapper }
}

/// Creates a mapped hierarchy that transforms group data by `fun`.
pub fn map_group_data<OrigGr: GroupRef, GroupDataNew, F: Fn(&OrigGr) -> GroupDataNew>(
    gr: OrigGr,
    fun: F,
) -> (r: AsMappedGroupRef<OrigGr, GroupDataMapper<F>>)
    ensures
        r.original == gr,
        r.mapper.function() == fun,
{
    AsMappedGroupRef { original: gr, mapper: GroupDataMapper::new(fun) }
}

/// Creates a mapped hierarchy that transforms leaf data by `fun`.
pub fn map_leaf_data<OrigGr: GroupRef, LeafDataNew, F: Fn(&OrigGr::LeafRef) -> LeafDataNew>(
    gr: OrigGr,
    fun: F,
) -> (r: AsMappedGroupRef<OrigGr, LeafDataMapper<F>>)
    ensures
        r.original == gr,
        r.mapper.function() == fun,
{
    AsMappedGroupRef { original: gr, mapper: LeafDataMapper::new(fun) }
}

/// A hierarchy in which every node knows its parent group.
pub struct WithParent<G: GroupRef>(pub G);

/// The hierarchy of `hiearchy` in which every node knows its parent group.
pub fn with_parent<H: GroupRef>(hiearchy: H) -> (r: WithParent<H>)
    ensures
        r.0 == hiearchy,
{
    WithParent(hiearchy)
}

/// A group that knows its parent group ([`None`] for the root).
pub struct WithParentGroupRef<G: GroupRef> {
    pub this: G,
    pub parent: Option<G>,
}

/// The data of a node that knows its parent group.
pub struct WithParentNodeMetadata<G: GroupRef> {
    pub data: G::NodeMetadata,
    pub parent: Option<G>,
}

/// A leaf that knows its parent group.
pub struct WithParentLeafRef<G: GroupRef> {
    pub this: G::LeafRef,
    pub parent: Option<G>,
}

/// `b` is `a` clone, or both are [`None`].
pub open spec fn cloned_opt<G: Clone>(a: Option<G>, b: Option<G>) -> bool {
    match a {
        Some(x) => b matches Some(y) && vstd::pervasive::cloned(x, y),
        None => b is None,
    }
}

impl<G: GroupRef + Clone> AsGroupRef for WithParent<G> {
    type GroupRef = WithParentGroupRef<G>;

    fn root(&self) -> (r: WithParentGroupRef<G>)
        ensures
            vstd::pervasive::cloned(self.0, r.this),
            r.parent is None,
    {
        WithParentGroupRef { this: self.0.clone(), parent: None }
    }
}

impl<G: GroupRef + Clone> LeafRef for WithParentLeafRef<G> {
    type Metadata = G::LeafMetadata;

    type NodeMetadata = WithParentNodeMetadata<G>;

    fn leaf_metadata(&self) -> (r: G::LeafMetadata)
        ensures
            call_ensures(G::LeafRef::leaf_metadata, (&self.this,), r),
    {
        self.this.leaf_metadata()
    }

    fn node_metadata(&self) -> (r: WithParentNodeMetadata<G>)
        ensures
            call_ensures(G::LeafRef::node_metadata, (&self.this,), r.data),
            cloned_opt(self.parent, r.parent),
    {
        WithParentNodeMetadata { data: self.this.node_metadata(), parent: self.parent.clone() }
    }
}

/// `m` is the child `n` of the group `parent`, knowing its parent.
pub open spec fn with_parent_node<G: GroupRef + Clone>(n: NodeRef<G>, m: NodeRef<WithParentGroupRef<G>>, parent: G) -> bool {
    match n {
        NodeRef::Group(g) => m matches NodeRef::Group(wg) && wg.this == g && cloned_opt(Some(parent), wg.parent),
        NodeRef::Leaf(l) => m matches NodeRef::Leaf(wl) && wl.this == l && cloned_opt(Some(parent), wl.parent),
    }
}

impl<G: GroupRef + Clone> GroupRef for WithParentGroupRef<G> {
    type NodeMetadata = WithParentNodeMetadata<G>;

    type LeafMetadata = G::LeafMetadata;

    type GroupMetadata = G::GroupMetadata;

    type StructureErr = G::StructureErr;

    type LeafRef = WithParentLeafRef<G>;

    fn get_children(&self) -> (r: Result<Vec<NodeRef<Self>>, G::StructureErr>)
        ensures
            exists|orig: Result<Vec<NodeRef<G>>, G::StructureErr>|
                #[trigger] call_ensures(G::get_children, (&self.this,), orig) && match orig {
                    Err(e) => r == Err::<Vec<NodeRef<Self>>, G::StructureErr>(e),
                    Ok(children) => r matches Ok(with) && with@.len() == children@.len() && forall|i: int|
                        0 <= i < children@.len() ==> with_parent_node(#[trigger] children@[i], with@[i], self.this),
                },
    {
        let orig = self.this.get_children();
        let ghost gorig = orig;
        assert(call_ensures(G::get_children, (&self.this,), gorig));
        match orig {
            Err(e) => Err(e),
            Ok(children) => {
                let ghost v0 = children;
                let ghost all = children@;
                let mut children = children;
                let mut rest: Vec<NodeRef<G>> = Vec::new();
                while children.len() > 0
                    invariant
                        all == children@ + rest@.reverse(),
                    decreases children.len(),
                {
                    let child = children.pop().unwrap();
                    rest.push(child);
                    proof {
                        assert(all =~= children@ + rest@.reverse());
                    }
                }
                proof {
                    assert(all =~= rest@.reverse());
                }
                let mut with: Vec<NodeRef<Self>> = Vec::new();
                while rest.len() > 0
                    invariant
                        all.len() == with@.len() + rest@.len(),
                        forall|i: int| 0 <= i < with@.len() ==> with_parent_node(#[trigger] all[i], with@[i], self.this),
                        forall|i: int| 0 <= i < rest@.len() ==> all[with@.len() + i] == #[trigger] rest@.reverse()[i],
                    decreases rest.len(),
                {
                    let ghost before = rest@;
                    let child = rest.pop().unwrap();
                    proof {
                        assert(before.reverse()[0] == child);
                        assert forall|i: int| 0 <= i < rest@.len() implies all[with@.len() + 1 + i] == #[trigger] rest@.reverse()[i] by {
                            assert(rest@.reverse()[i] == before.reverse()[i + 1]);
                        }
                    }
                    let parent = Some(self.this.clone());
                    let w = match child {
                        NodeRef::Group(group) => NodeRef::Group(WithParentGroupRef { this: group, parent }),
                        NodeRef::Leaf(leaf) => NodeRef::Leaf(WithParentLeafRef { this: leaf, parent }),
                    };
                    with.push(w);
                }
                proof {
                    assert(gorig == Ok::<Vec<NodeRef<G>>, G::StructureErr>(v0));
                    assert forall|i: int| 0 <= i < v0@.len() implies with_parent_node(#[trigger] v0@[i], with@[i], self.this) by {
                        assert(all[i] == v0@[i]);
                    }
                }
                Ok(with)
            },
        }
    }

    fn group_metadata(&self) -> (r: G::GroupMetadata)
        ensures
            call_ensures(G::group_metadata, (&self.this,), r),
    {
        self.this.group_metadata()
    }

    fn node_metadata(&self) -> (r: WithParentNodeMetadata<G>)
        ensures
            call_ensures(G::node_metadata, (&self.this,), r.data),
            cloned_opt(self.parent, r.parent),
    {
        WithParentNodeMetadata { data: self.this.node_metadata(), parent: self.parent.clone() }
    }
}

/// Convenience methods of every group reference.
pub trait GroupRefUtils: GroupRef {
    /// The group with its data mapped by `mapper`.
    fn map<M: Mapper<Self>>(self, mapper: M) -> (r: AsMappedGroupRef<Self, M>)
        ensures
            r.original == self,
            r.mapper == mapper,
    {
        map(self, mapper)
    }

    /// The group with its group data mapped by `fun`.
    fn map_group_data<GroupDataNew, F: Fn(&Self) -> GroupDataNew>(self, fun: F) -> (r: AsMappedGroupRef<
        Self,
        GroupDataMapper<F>,
    >)
        ensures
            r.original == self,
            r.mapper.function() == fun,
    {
        map_group_data(self, fun)
    }

    /// The group with its data mapped by `mapper`, which it refers to.
    fn map_as_groupref<'m, M: Mapper<Self>>(self, mapper: &'m M) -> (r: MappedGroupRef<'m, Self, M>)
        requires
            maps_all::<Self, M>(*mapper),
        ensures
            r.original() == self,
            r.spec_mapper() == *mapper,
    {
        map_as_groupref(self, mapper)
    }

    /// The group with its leaf data mapped by `fun`.
    fn map_leaf_data<LeafDataNew, F: Fn(&Self::LeafRef) -> LeafDataNew>(self, fun: F) -> (r: AsMappedGroupRef<
        Self,
        LeafDataMapper<F>,
    >)
        ensures
            r.original == self,
            r.mapper.function() == fun,
    {
        map_leaf_data(self, fun)
    }

    /// The group, every node of which knows its parent.
    fn with_parent(self) -> (r: WithParent<Self>)
        ensures
            r.0 == self,
    {
        with_parent(self)
    }
}

impl<T: GroupRef> GroupRefUtils for T {
}

/// Convenience methods of everything that has a root group: each works on the root.
pub trait AsGroupRefUtils: AsGroupRef {
    /// The root group with its group data mapped by `fun`.
    fn map_group_data<GroupDataNew, F: Fn(&Self::GroupRef) -> GroupDataNew>(&self, fun: F) -> (r: AsMappedGroupRef<
        Self::GroupRef,
        GroupDataMapper<F>,
    >)
        ensures
            call_ensures(Self::root, (self,), r.original),
            r.mapper.function() == fun,
    {
        map_group_data(self.root(), fun)
    }

    /// The root group with its leaf data mapped by `fun`.
    fn map_leaf_data<LeafDataNew, F: Fn(&<Self::GroupRef as GroupRef>::LeafRef) -> LeafDataNew>(
        &self,
        fun: F,
    ) -> (r: AsMappedGroupRef<Self::GroupRef, LeafDataMapper<F>>)
        ensures
            call_ensures(Self::root, (self,), r.original),
            r.mapper.function() == fun,
    {
        map_leaf_data(self.root(), fun)
    }

    /// The root group, every node of which knows its parent.
    fn with_parent(&self) -> (r: WithParent<Self::GroupRef>)
        ensures
            call_ensures(Self::root, (self,), r.0),
    {
        with_parent(self.root())
    }
}

impl<T: AsGroupRef> AsGroupRefUtils for T {
}

/// Convenience methods of hierarchies whose nodes know their parent.
pub trait WithParentUtils<G: GroupRef>: GroupRef<NodeMetadata = WithParentNodeMetadata<G>> {
}

impl<G: GroupRef, T: GroupRef<NodeMetadata = WithParentNodeMetadata<G>>> WithParentUtils<G> for T {
}

} // verus!
