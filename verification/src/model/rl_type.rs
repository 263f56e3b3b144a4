//! Declared types.

use crate::model::identity::{Id, Named};
use crate::parser::position::{Position, PositionView};
use vstd::prelude::*;
use vstd::string::StringExecFns;

verus! {

/// Identifier of a type: its index among the types of the skillset.
#[derive(Clone, Copy, PartialEq, Eq, Structural, Debug, Hash)]
pub struct TypeId(pub usize);

impl Id for TypeId {
    open spec fn spec_default() -> Self {
        TypeId(0)
    }

    open spec fn spec_index(&self) -> usize {
        self.0
    }

    fn default() -> (r: Self) {
        TypeId(0)
    }

    fn index(&self) -> (r: usize) {
        self.0
    }
}

/// Mathematical model of an [`RlType`].
pub struct RlTypeView {
    pub id: TypeId,
    pub name: Seq<char>,
    pub position: Option<PositionView>,
}

/// A declared type. Types are opaque: only their names matter.
#[derive(Debug)]
pub struct RlType {
    id: TypeId,
    name: String,
    position: Option<Position>,
}

impl View for RlType {
    type V = RlTypeView;

    closed spec fn view(&self) -> RlTypeView {
        RlTypeView { id: self.id, name: self.name@, position: self.position.deep_view() }
    }
}

impl DeepView for RlType {
    type V = RlTypeView;

    open spec fn deep_view(&self) -> RlTypeView {
        self@
    }
}

impl Clone for RlType {
    fn clone(&self) -> (r: Self)
        ensures
            r@ == self@,
    {
        RlType { id: self.id, name: self.name.clone(), position: self.position.clone() }
    }
}

impl RlType {
    /// A type named `name`, declared at `position`, not yet inserted.
    pub fn new(name: &str, position: Option<Position>) -> (r: Self)
        ensures
            r@ == (RlTypeView {
                id: TypeId::spec_default(),
                name: name@,
                position: position.deep_view(),
            }),
    {
        RlType { id: TypeId::default(), name: String::from_str(name), position }
    }
}

impl Named<TypeId> for RlType {
    open spec fn spec_id(&self) -> TypeId {
        self@.id
    }

    open spec fn spec_name(&self) -> Seq<char> {
        self@.name
    }

    open spec fn spec_position(&self) -> Option<PositionView> {
        self@.position
    }

    fn id(&self) -> (r: TypeId) {
        self.id
    }

    fn set_id(&mut self, id: TypeId)
        ensures
            final(self)@ == (RlTypeView { id, ..old(self)@ }),
    {
        self.id = id;
    }

    fn name(&self) -> (r: &str) {
        self.name.as_str()
    }

    fn position(&self) -> (r: Option<Position>) {
        self.position.clone()
    }
}

} // verus!
