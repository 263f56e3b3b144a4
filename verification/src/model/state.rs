//! The states of a resource.

use crate::model::identity::{Id, Named};
use crate::model::resource::ResourceId;
use crate::parser::position::{Position, PositionView};
use vstd::prelude::*;
use vstd::string::StringExecFns;

verus! {

/// Identifier of a state: the resource that owns it, and its index among
/// that resource's states.
#[derive(Clone, Copy, PartialEq, Eq, Structural, Debug, Hash)]
pub struct StateId(pub ResourceId, pub usize);

impl Id for StateId {
    open spec fn spec_default() -> Self {
        StateId(ResourceId::spec_default(), 0)
    }

    open spec fn spec_index(&self) -> usize {
        self.1
    }

    fn default() -> (r: Self) {
        StateId(ResourceId::default(), 0)
    }

    fn index(&self) -> (r: usize) {
        self.1
    }
}

impl StateId {
    /// The resource that owns the state.
    pub fn resource(&self) -> (r: ResourceId)
        ensures
            r == self.0,
    {
        self.0
    }
}

/// Mathematical model of a [`State`].
pub struct StateView {
    pub id: StateId,
    pub name: Seq<char>,
    pub position: Option<PositionView>,
}

/// One state of a resource.
#[derive(Debug)]
pub struct State {
    id: StateId,
    name: String,
    position: Option<Position>,
}

impl View for State {
    type V = StateView;

    closed spec fn view(&self) -> StateView {
        StateView { id: self.id, name: self.name@, position: self.position.deep_view() }
    }
}

impl DeepView for State {
    type V = StateView;

    open spec fn deep_view(&self) -> StateView {
        self@
    }
}

impl Clone for State {
    fn clone(&self) -> (r: Self)
        ensures
            r@ == self@,
    {
        State { id: self.id, name: self.name.clone(), position: self.position.clone() }
    }
}

impl State {
    /// A state named `name`, declared at `position`, not yet inserted.
    pub fn new(name: &str, position: Option<Position>) -> (r: Self)
        ensures
            r@ == (StateView {
                id: StateId::spec_default(),
                name: name@,
                position: position.deep_view(),
            }),
    {
        State { id: StateId::default(), name: String::from_str(name), position }
    }
}

impl State {
    /// Whether the state is named `name`.
    pub fn has_name(&self, name: &String) -> (r: bool)
        ensures
            r == (self@.name == name@),
    {
        self.name == *name
    }
}

impl Named<StateId> for State {
    open spec fn spec_id(&self) -> StateId {
        self@.id
    }

    open spec fn spec_name(&self) -> Seq<char> {
        self@.name
    }

    open spec fn spec_position(&self) -> Option<PositionView> {
        self@.position
    }

    fn id(&self) -> (r: StateId) {
        self.id
    }

    fn set_id(&mut self, id: StateId)
        ensures
            final(self)@ == (StateView { id, ..old(self)@ }),
    {
        self.id = id;
    }

    fn name(&self) -> (r: &str) {
        self.name.as_str()
    }

    fn position(&self) -> (r: Option<Position>) {
        self.position.clone()
    }
}

} // verus!
