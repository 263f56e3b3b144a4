//! Data: typed values that the skillset publishes.

use crate::model::expr::type_info;
use crate::model::identity::{Id, Named, NamingView};
use crate::model::reference::{lemma_unknown_among, Reference, ReferenceView};
use crate::model::resolve::{Kept, Namespaces, Typed};
use crate::model::rl_type::TypeId;
use crate::parser::error::{in_place, RlError, RlErrorView};
use crate::parser::position::{Position, PositionView};
use std::time::Duration;
use vstd::hash_map::StringHashMap;
use vstd::prelude::*;
use vstd::string::StringExecFns;

verus! {

/// Identifier of a data item: its index among the data of the skillset.
#[derive(Clone, Copy, PartialEq, Eq, Structural, Debug, Hash)]
pub struct DataId(pub usize);

impl Id for DataId {
    open spec fn spec_default() -> Self {
        DataId(0)
    }

    open spec fn spec_index(&self) -> usize {
        self.0
    }

    fn default() -> (r: Self) {
        DataId(0)
    }

    fn index(&self) -> (r: usize) {
        self.0
    }
}

/// Mathematical model of a [`Data`].
pub struct DataView {
    pub id: DataId,
    pub name: Seq<char>,
    pub rl_type: ReferenceView<TypeId>,
    pub period: Option<Duration>,
    pub position: Option<PositionView>,
}

/// A data item: a named value of a declared type, published with a period
/// if it has one.
#[derive(Debug)]
pub struct Data {
    id: DataId,
    name: String,
    rl_type: Reference<TypeId>,
    period: Option<Duration>,
    position: Option<Position>,
}

impl Clone for Data {
    fn clone(&self) -> (r: Self)
        ensures
            r@ == self@,
    {
        Data {
            id: self.id,
            name: self.name.clone(),
            rl_type: self.rl_type.clone(),
            period: self.period,
            position: self.position.clone(),
        }
    }
}

impl View for Data {
    type V = DataView;

    closed spec fn view(&self) -> DataView {
        DataView {
            id: self.id,
            name: self.name@,
            rl_type: self.rl_type@,
            period: self.period,
            position: self.position.deep_view(),
        }
    }
}

impl DeepView for Data {
    type V = DataView;

    open spec fn deep_view(&self) -> DataView {
        self@
    }
}

impl DataView {
    /// The names of types that are used and not resolved, each with the
    /// place of its use.
    pub open spec fn type_uses(self) -> Set<NamingView> {
        self.rl_type.uses()
    }

    /// The data item `after` is this one, but that names may have been
    /// resolved, each to the identifier that its namespace among `spaces`
    /// gives it.
    pub open spec fn kept(self, after: DataView, spaces: Namespaces) -> bool {
        &&& after.id == self.id
        &&& after.name == self.name
        &&& after.period == self.period
        &&& after.position == self.position
        &&& self.rl_type.kept(after.rl_type, spaces.types)
    }

    /// Every resolved reference to a type stands for one of `ids`.
    pub open spec fn types_among(self, ids: Set<TypeId>) -> bool {
        self.rl_type.among(ids)
    }

    /// Every reference to a type is resolved.
    pub open spec fn types_resolved(self) -> bool {
        self.rl_type is Resolved
    }

    /// The data item with its type resolved against `map`, or the error of
    /// the reference when `map` does not know it.
    pub open spec fn resolve_type(self, map: Map<Seq<char>, TypeId>) -> Result<
        DataView,
        RlErrorView,
    > {
        match self.rl_type.resolve(map, type_info()) {
            Err(e) => Err(e),
            Ok(rl_type) => Ok(DataView { rl_type, ..self }),
        }
    }
}

impl Data {
    /// A data item named `name`, declared at `position`, not yet inserted.
    pub fn new(
        name: &str,
        rl_type: Reference<TypeId>,
        period: Option<Duration>,
        position: Option<Position>,
    ) -> (r: Self)
        ensures
            r@ == (DataView {
                id: DataId::spec_default(),
                name: name@,
                rl_type: rl_type@,
                period,
                position: position.deep_view(),
            }),
    {
        Data { id: DataId::default(), name: String::from_str(name), rl_type, period, position }
    }

    pub fn rl_type(&self) -> (r: &Reference<TypeId>)
        ensures
            r@ == self@.rl_type,
    {
        &self.rl_type
    }

    /// Makes the data item's type the type `id`.
    pub fn set_type(&mut self, id: TypeId)
        ensures
            final(self)@ == (DataView { rl_type: ReferenceView::Resolved(id), ..old(self)@ }),
    {
        self.rl_type = Reference::Resolved(id);
    }

    pub fn period(&self) -> (r: Option<Duration>)
        ensures
            r == self@.period,
    {
        self.period
    }

    /// Resolves the data item's type.
    pub fn resolve_type(&mut self, map: &StringHashMap<TypeId>) -> (r: Result<(), RlError>)
        ensures
            in_place(old(self)@.resolve_type(map@), final(self)@, r),
            old(self)@.kept(final(self)@, Namespaces::only_types(map@)),
            r is Err ==> final(self)@ == old(self)@,
    {
        proof {
            Data::lemma_kept(
                old(self)@,
                old(self)@,
                old(self)@,
                Namespaces::only_types(map@),
                Namespaces::only_types(map@),
            );
        }
        self.rl_type.resolve_in_place(map, "type")
    }
}

impl Named<DataId> for Data {
    open spec fn spec_id(&self) -> DataId {
        self@.id
    }

    open spec fn spec_name(&self) -> Seq<char> {
        self@.name
    }

    open spec fn spec_position(&self) -> Option<PositionView> {
        self@.position
    }

    fn id(&self) -> (r: DataId) {
        self.id
    }

    fn set_id(&mut self, id: DataId)
        ensures
            final(self)@ == (DataView { id, ..old(self)@ }),
    {
        self.id = id;
    }

    fn name(&self) -> (r: &str) {
        self.name.as_str()
    }

    fn position(&self) -> (r: Option<Position>) {
        self.position.clone()
    }
}

impl Kept for Data {
    open spec fn kept(before: DataView, after: DataView, spaces: Namespaces) -> bool {
        before.kept(after, spaces)
    }

    proof fn lemma_kept(
        a: DataView,
        b: DataView,
        c: DataView,
        spaces: Namespaces,
        wider: Namespaces,
    ) {
    }
}

impl Typed for Data {
    open spec fn type_pass(v: DataView, map: Map<Seq<char>, TypeId>) -> Result<
        DataView,
        RlErrorView,
    > {
        v.resolve_type(map)
    }

    open spec fn types_resolved(v: DataView) -> bool {
        v.types_resolved()
    }

    open spec fn types_among(v: DataView, ids: Set<TypeId>) -> bool {
        v.types_among(ids)
    }

    proof fn lemma_types_among(v: DataView, types: Map<Seq<char>, TypeId>, ids: Set<TypeId>) {
    }

    proof fn lemma_type_pass(v: DataView, types: Map<Seq<char>, TypeId>) {
    }

    proof fn lemma_type_pass_kept(v: DataView, types: Map<Seq<char>, TypeId>) {
        Data::lemma_kept(v, v, v, Namespaces::only_types(types), Namespaces::only_types(types));
    }

    open spec fn type_uses(v: DataView) -> Set<NamingView> {
        v.type_uses()
    }

    proof fn lemma_type_uses(v: DataView, types: Map<Seq<char>, TypeId>) {
        v.rl_type.lemma_uses(types, type_info());
        if v.rl_type.resolve(types, type_info()) is Err {
            lemma_unknown_among(
                v.rl_type.uses(),
                v.type_uses(),
                types,
                type_info(),
                v.rl_type.resolve(types, type_info())->Err_0,
            );
        }
    }

    fn resolve_type(&mut self, map: &StringHashMap<TypeId>) -> (r: Result<(), RlError>) {
        Data::resolve_type(self, map)
    }
}

} // verus!
