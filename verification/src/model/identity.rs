//! Identity and naming, shared by every entity.

use crate::parser::position::{Position, PositionView};
use vstd::hash_map::StringHashMap;
use vstd::prelude::*;
use vstd::string::StringExecFns;

verus! {

/// A name together with the place where it was declared, if known.
pub type Naming = (String, Option<Position>);

/// Mathematical model of a [`Naming`].
pub type NamingView = (Seq<char>, Option<PositionView>);

/// A namespace: the identifiers of one kind of entity, by name.
pub type NameMap<I> = StringHashMap<I>;

/// An identifier: a handle on an entity, valid within the entity's owner.
pub trait Id: Copy {
    /// The placeholder that an entity carries until its owner inserts it.
    spec fn spec_default() -> Self;

    /// The entity's index in the sequence that owns it.
    spec fn spec_index(&self) -> usize;

    fn default() -> (r: Self)
        ensures
            r == Self::spec_default(),
    ;

    fn index(&self) -> (r: usize)
        ensures
            r == self.spec_index(),
    ;
}

/// What every entity offers: an identifier that its owner assigns, a name,
/// and the place of its declaration.
pub trait Named<I: Id> {
    spec fn spec_id(&self) -> I;

    spec fn spec_name(&self) -> Seq<char>;

    spec fn spec_position(&self) -> Option<PositionView>;

    fn id(&self) -> (r: I)
        ensures
            r == self.spec_id(),
    ;

    /// Assigns the identifier. Only the owner of an entity calls this: once
    /// when it inserts the entity, and again when its own identifier changes.
    fn set_id(&mut self, id: I)
        ensures
            final(self).spec_id() == id,
            final(self).spec_name() == old(self).spec_name(),
            final(self).spec_position() == old(self).spec_position(),
    ;

    fn name(&self) -> (r: &str)
        ensures
            r@ == self.spec_name(),
    ;

    fn position(&self) -> (r: Option<Position>)
        ensures
            r.deep_view() == self.spec_position(),
    ;

    /// The entity's entry in a namespace: its name and position.
    fn naming(&self) -> (r: Naming)
        ensures
            r.deep_view() == (self.spec_name(), self.spec_position()),
    {
        (String::from_str(self.name()), self.position())
    }
}

/// An owner that finds the entities of type `T` that it holds by their
/// identifiers of kind `I`.
pub trait GetFromId<I: Id, T: DeepView> {
    spec fn spec_get(&self, id: I) -> Option<T::V>;

    fn get(&self, id: I) -> (r: Option<&T>)
        ensures
            r.deep_view() == self.spec_get(id),
    ;
}

} // verus!
