//! The resolution hooks that every entity with references offers, and the
//! passes over sequences of such entities.

use crate::model::deep::{
    all_ok, lemma_first_failure_exists, lemma_sequence_fails, lemma_sequence_succeeds, sequence,
};
use crate::model::expr::{resource_info, state_info, type_info};
use crate::model::identity::NamingView;
use crate::model::reference::{decided, map_among};
use crate::model::resource::ResourceId;
use crate::model::rl_type::TypeId;
use crate::model::state::StateId;
use crate::parser::error::{in_place, quoted, RlError, RlErrorView};
use vstd::hash_map::StringHashMap;
use vstd::prelude::*;

verus! {

/// The namespaces that a pass resolves names against: one for each kind of
/// reference that the pass may resolve, none for a kind that it leaves alone.
pub struct Namespaces {
    pub types: Option<Map<Seq<char>, TypeId>>,
    pub resources: Option<Map<Seq<char>, ResourceId>>,
    pub states: Option<Map<Seq<char>, StateId>>,
}

impl Namespaces {
    /// The namespace of the types, and no other.
    pub open spec fn only_types(types: Map<Seq<char>, TypeId>) -> Namespaces {
        Namespaces { types: Some(types), resources: None, states: None }
    }

    /// The namespace of the resources, and no other.
    pub open spec fn only_resources(resources: Map<Seq<char>, ResourceId>) -> Namespaces {
        Namespaces { types: None, resources: Some(resources), states: None }
    }

    /// The namespace of the states, and no other.
    pub open spec fn only_states(states: Map<Seq<char>, StateId>) -> Namespaces {
        Namespaces { types: None, resources: None, states: Some(states) }
    }

    /// The three namespaces.
    pub open spec fn all(
        types: Map<Seq<char>, TypeId>,
        resources: Map<Seq<char>, ResourceId>,
        states: Map<Seq<char>, StateId>,
    ) -> Namespaces {
        Namespaces { types: Some(types), resources: Some(resources), states: Some(states) }
    }

    /// Every namespace that is here is in `wider` too.
    pub open spec fn within(self, wider: Namespaces) -> bool {
        &&& self.types is Some ==> wider.types == self.types
        &&& self.resources is Some ==> wider.resources == self.resources
        &&& self.states is Some ==> wider.states == self.states
    }
}

/// An entity of which resolution changes nothing but references.
pub trait Kept: DeepView + Sized {
    /// The entity `after` is the entity `before`, but that names may have
    /// been resolved, each to the identifier that its namespace among
    /// `spaces` gives it. No entity was added, removed or moved, each has the
    /// identifier, the name and the position it had, and no reference that
    /// was resolved has been rewritten.
    spec fn kept(before: Self::V, after: Self::V, spaces: Namespaces) -> bool;

    /// An entity is kept by doing nothing; what is kept twice is kept; and
    /// what is kept under some namespaces is kept under more.
    proof fn lemma_kept(a: Self::V, b: Self::V, c: Self::V, spaces: Namespaces, wider: Namespaces)
        ensures
            Self::kept(a, a, spaces),
            Self::kept(a, b, spaces) && Self::kept(b, c, spaces) ==> Self::kept(a, c, spaces),
            Self::kept(a, b, spaces) && spaces.within(wider) ==> Self::kept(a, b, wider),
    ;
}

/// An entity that holds references to resources and states, directly or in
/// the entities it owns.
pub trait Resolvable: Kept {
    /// The entity after its references to resources were resolved against
    /// `map`, or the error of the first reference that `map` does not know.
    spec fn resource_pass(v: Self::V, map: Map<Seq<char>, ResourceId>) -> Result<
        Self::V,
        RlErrorView,
    >;

    /// The entity after its references to states were resolved against
    /// `map`, or the error of the first reference that `map` does not know.
    spec fn state_pass(v: Self::V, map: Map<Seq<char>, StateId>) -> Result<Self::V, RlErrorView>;

    /// Every reference to a resource in the entity is resolved.
    spec fn resources_resolved(v: Self::V) -> bool;

    /// Every reference to a state in the entity is resolved.
    spec fn states_resolved(v: Self::V) -> bool;

    /// What the passes achieve. A pass that succeeds leaves every reference
    /// of its kind resolved and does not touch the references of the other
    /// kind; and an entity whose references of a kind are all resolved
    /// passes unchanged, whatever the namespace holds.
    proof fn lemma_passes(
        v: Self::V,
        resources: Map<Seq<char>, ResourceId>,
        states: Map<Seq<char>, StateId>,
    )
        ensures
            Self::resource_pass(v, resources) matches Ok(w) ==> Self::resources_resolved(w) && (
            Self::states_resolved(w) <==> Self::states_resolved(v)),
            Self::state_pass(v, states) matches Ok(w) ==> Self::states_resolved(w) && (
            Self::resources_resolved(w) <==> Self::resources_resolved(v)),
            Self::resources_resolved(v) ==> Self::resource_pass(v, resources) == Ok::<
                Self::V,
                RlErrorView,
            >(v),
            Self::states_resolved(v) ==> Self::state_pass(v, states) == Ok::<Self::V, RlErrorView>(
                v,
            ),
    ;

    /// Every resolved reference to a resource in the entity stands for one
    /// of `ids`.
    spec fn resources_among(v: Self::V, ids: Set<ResourceId>) -> bool;

    /// Every resolved reference to a state in the entity stands for one of
    /// `ids`.
    spec fn states_among(v: Self::V, ids: Set<StateId>) -> bool;

    /// What the passes keep. Where the resolved references stand for
    /// identifiers among `ids`, and the namespace gives no others, they
    /// still do after the pass; and a pass does not touch the references of
    /// the other kind.
    proof fn lemma_among(
        v: Self::V,
        resources: Map<Seq<char>, ResourceId>,
        states: Map<Seq<char>, StateId>,
        resource_ids: Set<ResourceId>,
        state_ids: Set<StateId>,
    )
        ensures
            Self::resource_pass(v, resources) matches Ok(w) ==> (Self::states_among(w, state_ids)
                <==> Self::states_among(v, state_ids)) && (Self::resources_among(v, resource_ids)
                && map_among(resources, resource_ids) ==> Self::resources_among(w, resource_ids)),
            Self::state_pass(v, states) matches Ok(w) ==> (Self::resources_among(w, resource_ids)
                <==> Self::resources_among(v, resource_ids)) && (Self::states_among(v, state_ids)
                && map_among(states, state_ids) ==> Self::states_among(w, state_ids)),
    ;

    /// A pass that succeeds keeps the entity: it resolves names against its
    /// namespace and changes nothing else.
    proof fn lemma_pass_kept(
        v: Self::V,
        resources: Map<Seq<char>, ResourceId>,
        states: Map<Seq<char>, StateId>,
    )
        ensures
            Self::resource_pass(v, resources) matches Ok(w) ==> Self::kept(
                v,
                w,
                Namespaces::only_resources(resources),
            ),
            Self::state_pass(v, states) matches Ok(w) ==> Self::kept(
                v,
                w,
                Namespaces::only_states(states),
            ),
    ;

    /// The names of resources that the entity uses and has not resolved,
    /// each with the place of its use.
    spec fn resource_uses(v: Self::V) -> Set<NamingView>;

    /// The names of states that the entity uses and has not resolved, each
    /// with the place of its use.
    spec fn state_uses(v: Self::V) -> Set<NamingView>;

    /// When a pass succeeds. It succeeds exactly when the namespace knows
    /// every name of its kind that the entity uses; else it fails with the
    /// error of a name that the entity uses and the namespace does not know.
    /// A pass that succeeds leaves the names of the other kind in use.
    proof fn lemma_uses(
        v: Self::V,
        resources: Map<Seq<char>, ResourceId>,
        states: Map<Seq<char>, StateId>,
    )
        ensures
            decided(
                Self::resource_pass(v, resources),
                Self::resource_uses(v),
                resources,
                resource_info(),
            ),
            decided(Self::state_pass(v, states), Self::state_uses(v), states, state_info()),
            Self::resource_pass(v, resources) matches Ok(w) ==> Self::state_uses(w)
                == Self::state_uses(v),
            Self::state_pass(v, states) matches Ok(w) ==> Self::resource_uses(w)
                == Self::resource_uses(v),
    ;

    fn resolve_resource(&mut self, map: &StringHashMap<ResourceId>) -> (r: Result<(), RlError>)
        ensures
            in_place(Self::resource_pass(old(self).deep_view(), map@), final(self).deep_view(), r),
            Self::kept(
                old(self).deep_view(),
                final(self).deep_view(),
                Namespaces::only_resources(map@),
            ),
    ;

    fn resolve_state(&mut self, map: &StringHashMap<StateId>) -> (r: Result<(), RlError>)
        ensures
            in_place(Self::state_pass(old(self).deep_view(), map@), final(self).deep_view(), r),
            Self::kept(
                old(self).deep_view(),
                final(self).deep_view(),
                Namespaces::only_states(map@),
            ),
    ;
}

/// An entity that holds references to types, directly or in the entities it
/// owns.
pub trait Typed: Kept {
    /// The entity after its references to types were resolved against `map`,
    /// or the error of the first reference that `map` does not know.
    spec fn type_pass(v: Self::V, map: Map<Seq<char>, TypeId>) -> Result<Self::V, RlErrorView>;

    /// Every reference to a type in the entity is resolved.
    spec fn types_resolved(v: Self::V) -> bool;

    /// What the pass achieves. A pass that succeeds leaves every reference
    /// to a type resolved; and an entity whose references to types are all
    /// resolved passes unchanged, whatever the namespace holds.
    proof fn lemma_type_pass(v: Self::V, types: Map<Seq<char>, TypeId>)
        ensures
            Self::type_pass(v, types) matches Ok(w) ==> Self::types_resolved(w),
            Self::types_resolved(v) ==> Self::type_pass(v, types) == Ok::<Self::V, RlErrorView>(v),
    ;

    /// Every resolved reference to a type in the entity stands for one of
    /// `ids`.
    spec fn types_among(v: Self::V, ids: Set<TypeId>) -> bool;

    /// What the pass keeps. Where the resolved references stand for
    /// identifiers among `ids`, and the namespace gives no others, they
    /// still do after the pass.
    proof fn lemma_types_among(v: Self::V, types: Map<Seq<char>, TypeId>, ids: Set<TypeId>)
        ensures
            Self::type_pass(v, types) matches Ok(w) ==> (Self::types_among(v, ids) && map_among(
                types,
                ids,
            ) ==> Self::types_among(w, ids)),
    ;

    /// A pass that succeeds keeps the entity: it resolves names against its
    /// namespace and changes nothing else.
    proof fn lemma_type_pass_kept(v: Self::V, types: Map<Seq<char>, TypeId>)
        ensures
            Self::type_pass(v, types) matches Ok(w) ==> Self::kept(
                v,
                w,
                Namespaces::only_types(types),
            ),
    ;

    /// The names of types that the entity uses and has not resolved, each
    /// with the place of its use.
    spec fn type_uses(v: Self::V) -> Set<NamingView>;

    /// When the pass succeeds. It succeeds exactly when the namespace knows
    /// every name of a type that the entity uses; else it fails with the
    /// error of a name that the entity uses and the namespace does not know.
    proof fn lemma_type_uses(v: Self::V, types: Map<Seq<char>, TypeId>)
        ensures
            decided(Self::type_pass(v, types), Self::type_uses(v), types, type_info()),
    ;

    fn resolve_type(&mut self, map: &StringHashMap<TypeId>) -> (r: Result<(), RlError>)
        ensures
            in_place(Self::type_pass(old(self).deep_view(), map@), final(self).deep_view(), r),
            Self::kept(
                old(self).deep_view(),
                final(self).deep_view(),
                Namespaces::only_types(map@),
            ),
    ;
}

/// The sequence `after` holds the entities of `before`, each in its place
/// and kept.
pub open spec fn all_kept<T: Kept>(
    before: Seq<T::V>,
    after: Seq<T::V>,
    spaces: Namespaces,
) -> bool {
    &&& after.len() == before.len()
    &&& forall|i: int|
        #![trigger before[i]]
        #![trigger after[i]]
        0 <= i < before.len() ==> T::kept(before[i], after[i], spaces)
}

/// The entity is there after exactly when it was there before, and is kept.
pub open spec fn opt_kept<T: Kept>(
    before: Option<T::V>,
    after: Option<T::V>,
    spaces: Namespaces,
) -> bool {
    match (before, after) {
        (None, None) => true,
        (Some(a), Some(b)) => T::kept(a, b, spaces),
        _ => false,
    }
}

/// What holds of keeping an entity holds of keeping a sequence of them.
pub proof fn lemma_all_kept<T: Kept>(
    a: Seq<T::V>,
    b: Seq<T::V>,
    c: Seq<T::V>,
    spaces: Namespaces,
    wider: Namespaces,
)
    ensures
        all_kept::<T>(a, a, spaces),
        all_kept::<T>(a, b, spaces) && all_kept::<T>(b, c, spaces) ==> all_kept::<T>(a, c, spaces),
        all_kept::<T>(a, b, spaces) && spaces.within(wider) ==> all_kept::<T>(a, b, wider),
{
    assert forall|i: int| 0 <= i < a.len() implies T::kept(a[i], a[i], spaces) by {
        T::lemma_kept(a[i], a[i], a[i], spaces, wider);
    }
    if all_kept::<T>(a, b, spaces) {
        if all_kept::<T>(b, c, spaces) {
            assert forall|i: int| 0 <= i < a.len() implies T::kept(a[i], c[i], spaces) by {
                T::lemma_kept(a[i], b[i], c[i], spaces, wider);
            }
        }
        if spaces.within(wider) {
            assert forall|i: int| 0 <= i < a.len() implies T::kept(a[i], b[i], wider) by {
                T::lemma_kept(a[i], b[i], b[i], spaces, wider);
            }
        }
    }
}

/// What holds of keeping an entity holds of keeping one that may be absent.
pub proof fn lemma_opt_kept<T: Kept>(
    a: Option<T::V>,
    b: Option<T::V>,
    c: Option<T::V>,
    spaces: Namespaces,
    wider: Namespaces,
)
    ensures
        opt_kept::<T>(a, a, spaces),
        opt_kept::<T>(a, b, spaces) && opt_kept::<T>(b, c, spaces) ==> opt_kept::<T>(a, c, spaces),
        opt_kept::<T>(a, b, spaces) && spaces.within(wider) ==> opt_kept::<T>(a, b, wider),
{
    if let Some(x) = a {
        T::lemma_kept(x, x, x, spaces, wider);
        if let Some(y) = b {
            T::lemma_kept(x, y, y, spaces, wider);
            if let Some(z) = c {
                T::lemma_kept(x, y, z, spaces, wider);
            }
        }
    }
}

/// The resource pass over a sequence of entities, in order.
pub open spec fn resource_pass_all<T: Resolvable>(
    items: Seq<T::V>,
    map: Map<Seq<char>, ResourceId>,
) -> Result<Seq<T::V>, RlErrorView> {
    sequence(items.map_values(|v: T::V| T::resource_pass(v, map)))
}

/// The state pass over a sequence of entities, in order.
pub open spec fn state_pass_all<T: Resolvable>(
    items: Seq<T::V>,
    map: Map<Seq<char>, StateId>,
) -> Result<Seq<T::V>, RlErrorView> {
    sequence(items.map_values(|v: T::V| T::state_pass(v, map)))
}

/// The type pass over a sequence of entities, in order.
pub open spec fn type_pass_all<T: Typed>(items: Seq<T::V>, map: Map<Seq<char>, TypeId>) -> Result<
    Seq<T::V>,
    RlErrorView,
> {
    sequence(items.map_values(|v: T::V| T::type_pass(v, map)))
}

/// The resource pass over an entity that may be absent.
pub open spec fn resource_pass_opt<T: Resolvable>(
    item: Option<T::V>,
    map: Map<Seq<char>, ResourceId>,
) -> Result<Option<T::V>, RlErrorView> {
    match item {
        None => Ok(None),
        Some(v) => match T::resource_pass(v, map) {
            Ok(v) => Ok(Some(v)),
            Err(e) => Err(e),
        },
    }
}

/// The state pass over an entity that may be absent.
pub open spec fn state_pass_opt<T: Resolvable>(
    item: Option<T::V>,
    map: Map<Seq<char>, StateId>,
) -> Result<Option<T::V>, RlErrorView> {
    match item {
        None => Ok(None),
        Some(v) => match T::state_pass(v, map) {
            Ok(v) => Ok(Some(v)),
            Err(e) => Err(e),
        },
    }
}

/// The type pass over an entity that may be absent.
pub open spec fn type_pass_opt<T: Typed>(
    item: Option<T::V>,
    map: Map<Seq<char>, TypeId>,
) -> Result<Option<T::V>, RlErrorView> {
    match item {
        None => Ok(None),
        Some(v) => match T::type_pass(v, map) {
            Ok(v) => Ok(Some(v)),
            Err(e) => Err(e),
        },
    }
}

/// Every entity of the sequence has its references to resources resolved.
pub open spec fn all_resources_resolved<T: Resolvable>(items: Seq<T::V>) -> bool {
    forall|i: int| 0 <= i < items.len() ==> T::resources_resolved(#[trigger] items[i])
}

/// Every entity of the sequence has its references to states resolved.
pub open spec fn all_states_resolved<T: Resolvable>(items: Seq<T::V>) -> bool {
    forall|i: int| 0 <= i < items.len() ==> T::states_resolved(#[trigger] items[i])
}

/// Every entity of the sequence has its references to types resolved.
pub open spec fn all_types_resolved<T: Typed>(items: Seq<T::V>) -> bool {
    forall|i: int| 0 <= i < items.len() ==> T::types_resolved(#[trigger] items[i])
}

/// The entity, if it is there, has its references to resources resolved.
pub open spec fn opt_resources_resolved<T: Resolvable>(item: Option<T::V>) -> bool {
    match item {
        Some(v) => T::resources_resolved(v),
        None => true,
    }
}

/// The entity, if it is there, has its references to states resolved.
pub open spec fn opt_states_resolved<T: Resolvable>(item: Option<T::V>) -> bool {
    match item {
        Some(v) => T::states_resolved(v),
        None => true,
    }
}

/// The entity, if it is there, has its references to types resolved.
pub open spec fn opt_types_resolved<T: Typed>(item: Option<T::V>) -> bool {
    match item {
        Some(v) => T::types_resolved(v),
        None => true,
    }
}

/// A pass over a sequence that succeeds is the pass over each entity, in
/// its place.
pub proof fn lemma_sequence_pointwise<T, E>(outcomes: Seq<Result<T, E>>)
    requires
        sequence(outcomes) is Ok,
    ensures
        sequence(outcomes)->Ok_0.len() == outcomes.len(),
        forall|i: int|
            0 <= i < outcomes.len() ==> (#[trigger] outcomes[i]) == Ok::<T, E>(
                sequence(outcomes)->Ok_0[i],
            ),
{
    assert(all_ok(outcomes));
}

/// What the passes achieve on a sequence of entities: what they achieve on
/// each.
pub proof fn lemma_passes_all<T: Resolvable>(
    items: Seq<T::V>,
    resources: Map<Seq<char>, ResourceId>,
    states: Map<Seq<char>, StateId>,
)
    ensures
        resource_pass_all::<T>(items, resources) matches Ok(w) ==> w.len() == items.len()
            && all_resources_resolved::<T>(w) && (all_states_resolved::<T>(w)
            <==> all_states_resolved::<T>(items)),
        state_pass_all::<T>(items, states) matches Ok(w) ==> w.len() == items.len()
            && all_states_resolved::<T>(w) && (all_resources_resolved::<T>(w)
            <==> all_resources_resolved::<T>(items)),
        all_resources_resolved::<T>(items) ==> resource_pass_all::<T>(items, resources) == Ok::<
            Seq<T::V>,
            RlErrorView,
        >(items),
        all_states_resolved::<T>(items) ==> state_pass_all::<T>(items, states) == Ok::<
            Seq<T::V>,
            RlErrorView,
        >(items),
{
    let by_resource = items.map_values(|v: T::V| T::resource_pass(v, resources));
    let by_state = items.map_values(|v: T::V| T::state_pass(v, states));
    if resource_pass_all::<T>(items, resources) is Ok {
        let w = resource_pass_all::<T>(items, resources)->Ok_0;
        lemma_sequence_pointwise(by_resource);
        assert forall|i: int| 0 <= i < items.len() implies T::resources_resolved(
            #[trigger] w[i],
        ) && (T::states_resolved(w[i]) <==> T::states_resolved(items[i])) by {
            T::lemma_passes(items[i], resources, states);
            assert(by_resource[i] == T::resource_pass(items[i], resources));
        }
        if all_states_resolved::<T>(items) {
            assert forall|i: int| 0 <= i < w.len() implies T::states_resolved(#[trigger] w[i]) by {
                assert(T::states_resolved(items[i]));
            }
        }
        if all_states_resolved::<T>(w) {
            assert forall|i: int| 0 <= i < items.len() implies T::states_resolved(
                #[trigger] items[i],
            ) by {
                assert(T::states_resolved(w[i]));
            }
        }
    }
    if state_pass_all::<T>(items, states) is Ok {
        let w = state_pass_all::<T>(items, states)->Ok_0;
        lemma_sequence_pointwise(by_state);
        assert forall|i: int| 0 <= i < items.len() implies T::states_resolved(#[trigger] w[i]) && (
        T::resources_resolved(w[i]) <==> T::resources_resolved(items[i])) by {
            T::lemma_passes(items[i], resources, states);
            assert(by_state[i] == T::state_pass(items[i], states));
        }
        if all_resources_resolved::<T>(items) {
            assert forall|i: int| 0 <= i < w.len() implies T::resources_resolved(
                #[trigger] w[i],
            ) by {
                assert(T::resources_resolved(items[i]));
            }
        }
        if all_resources_resolved::<T>(w) {
            assert forall|i: int| 0 <= i < items.len() implies T::resources_resolved(
                #[trigger] items[i],
            ) by {
                assert(T::resources_resolved(w[i]));
            }
        }
    }
    if all_resources_resolved::<T>(items) {
        assert forall|i: int| 0 <= i < items.len() implies #[trigger] by_resource[i] == Ok::<
            T::V,
            RlErrorView,
        >(items[i]) by {
            T::lemma_passes(items[i], resources, states);
        }
        lemma_sequence_succeeds(by_resource, items);
    }
    if all_states_resolved::<T>(items) {
        assert forall|i: int| 0 <= i < items.len() implies #[trigger] by_state[i] == Ok::<
            T::V,
            RlErrorView,
        >(items[i]) by {
            T::lemma_passes(items[i], resources, states);
        }
        lemma_sequence_succeeds(by_state, items);
    }
}

/// What the passes achieve on an entity that may be absent.
pub proof fn lemma_passes_opt<T: Resolvable>(
    item: Option<T::V>,
    resources: Map<Seq<char>, ResourceId>,
    states: Map<Seq<char>, StateId>,
)
    ensures
        resource_pass_opt::<T>(item, resources) matches Ok(w) ==> opt_resources_resolved::<T>(w)
            && (opt_states_resolved::<T>(w) <==> opt_states_resolved::<T>(item)),
        state_pass_opt::<T>(item, states) matches Ok(w) ==> opt_states_resolved::<T>(w) && (
        opt_resources_resolved::<T>(w) <==> opt_resources_resolved::<T>(item)),
        opt_resources_resolved::<T>(item) ==> resource_pass_opt::<T>(item, resources) == Ok::<
            Option<T::V>,
            RlErrorView,
        >(item),
        opt_states_resolved::<T>(item) ==> state_pass_opt::<T>(item, states) == Ok::<
            Option<T::V>,
            RlErrorView,
        >(item),
{
    if let Some(v) = item {
        T::lemma_passes(v, resources, states);
    }
}

/// What the type pass achieves on a sequence of entities: what it achieves
/// on each.
pub proof fn lemma_type_pass_all<T: Typed>(items: Seq<T::V>, types: Map<Seq<char>, TypeId>)
    ensures
        type_pass_all::<T>(items, types) matches Ok(w) ==> w.len() == items.len()
            && all_types_resolved::<T>(w),
        all_types_resolved::<T>(items) ==> type_pass_all::<T>(items, types) == Ok::<
            Seq<T::V>,
            RlErrorView,
        >(items),
{
    let outcomes = items.map_values(|v: T::V| T::type_pass(v, types));
    if type_pass_all::<T>(items, types) is Ok {
        let w = type_pass_all::<T>(items, types)->Ok_0;
        lemma_sequence_pointwise(outcomes);
        assert forall|i: int| 0 <= i < items.len() implies T::types_resolved(#[trigger] w[i]) by {
            T::lemma_type_pass(items[i], types);
            assert(outcomes[i] == T::type_pass(items[i], types));
        }
    }
    if all_types_resolved::<T>(items) {
        assert forall|i: int| 0 <= i < items.len() implies #[trigger] outcomes[i] == Ok::<
            T::V,
            RlErrorView,
        >(items[i]) by {
            T::lemma_type_pass(items[i], types);
        }
        lemma_sequence_succeeds(outcomes, items);
    }
}

/// What the type pass achieves on an entity that may be absent.
pub proof fn lemma_type_pass_opt<T: Typed>(item: Option<T::V>, types: Map<Seq<char>, TypeId>)
    ensures
        type_pass_opt::<T>(item, types) matches Ok(w) ==> opt_types_resolved::<T>(w),
        opt_types_resolved::<T>(item) ==> type_pass_opt::<T>(item, types) == Ok::<
            Option<T::V>,
            RlErrorView,
        >(item),
{
    if let Some(v) = item {
        T::lemma_type_pass(v, types);
    }
}

/// Every entity of the sequence has its resolved references to resources
/// among `ids`.
pub open spec fn all_resources_among<T: Resolvable>(
    items: Seq<T::V>,
    ids: Set<ResourceId>,
) -> bool {
    forall|i: int| 0 <= i < items.len() ==> T::resources_among(#[trigger] items[i], ids)
}

/// Every entity of the sequence has its resolved references to states among
/// `ids`.
pub open spec fn all_states_among<T: Resolvable>(items: Seq<T::V>, ids: Set<StateId>) -> bool {
    forall|i: int| 0 <= i < items.len() ==> T::states_among(#[trigger] items[i], ids)
}

/// Every entity of the sequence has its resolved references to types among
/// `ids`.
pub open spec fn all_types_among<T: Typed>(items: Seq<T::V>, ids: Set<TypeId>) -> bool {
    forall|i: int| 0 <= i < items.len() ==> T::types_among(#[trigger] items[i], ids)
}

/// The entity, if it is there, has its resolved references to resources
/// among `ids`.
pub open spec fn opt_resources_among<T: Resolvable>(
    item: Option<T::V>,
    ids: Set<ResourceId>,
) -> bool {
    match item {
        Some(v) => T::resources_among(v, ids),
        None => true,
    }
}

/// The entity, if it is there, has its resolved references to states among
/// `ids`.
pub open spec fn opt_states_among<T: Resolvable>(item: Option<T::V>, ids: Set<StateId>) -> bool {
    match item {
        Some(v) => T::states_among(v, ids),
        None => true,
    }
}

/// The entity, if it is there, has its resolved references to types among
/// `ids`.
pub open spec fn opt_types_among<T: Typed>(item: Option<T::V>, ids: Set<TypeId>) -> bool {
    match item {
        Some(v) => T::types_among(v, ids),
        None => true,
    }
}

/// What the passes keep on a sequence of entities: what they keep on each.
pub proof fn lemma_among_all<T: Resolvable>(
    items: Seq<T::V>,
    resources: Map<Seq<char>, ResourceId>,
    states: Map<Seq<char>, StateId>,
    resource_ids: Set<ResourceId>,
    state_ids: Set<StateId>,
)
    ensures
        resource_pass_all::<T>(items, resources) matches Ok(w) ==> (all_states_among::<T>(
            w,
            state_ids,
        ) <==> all_states_among::<T>(items, state_ids)) && (all_resources_among::<T>(
            items,
            resource_ids,
        ) && map_among(resources, resource_ids) ==> all_resources_among::<T>(w, resource_ids)),
        state_pass_all::<T>(items, states) matches Ok(w) ==> (all_resources_among::<T>(
            w,
            resource_ids,
        ) <==> all_resources_among::<T>(items, resource_ids)) && (all_states_among::<T>(
            items,
            state_ids,
        ) && map_among(states, state_ids) ==> all_states_among::<T>(w, state_ids)),
{
    if resource_pass_all::<T>(items, resources) is Ok {
        let w = resource_pass_all::<T>(items, resources)->Ok_0;
        let outcomes = items.map_values(|v: T::V| T::resource_pass(v, resources));
        lemma_sequence_pointwise(outcomes);
        assert forall|i: int| 0 <= i < items.len() implies (T::states_among(
            #[trigger] w[i],
            state_ids,
        ) <==> T::states_among(items[i], state_ids)) && (T::resources_among(items[i], resource_ids)
            && map_among(resources, resource_ids) ==> T::resources_among(w[i], resource_ids)) by {
            T::lemma_among(items[i], resources, states, resource_ids, state_ids);
            assert(outcomes[i] == T::resource_pass(items[i], resources));
        }
        if all_states_among::<T>(items, state_ids) {
            assert forall|i: int| 0 <= i < w.len() implies T::states_among(
                #[trigger] w[i],
                state_ids,
            ) by {
                assert(T::states_among(items[i], state_ids));
            }
        }
        if all_states_among::<T>(w, state_ids) {
            assert forall|i: int| 0 <= i < items.len() implies T::states_among(
                #[trigger] items[i],
                state_ids,
            ) by {
                assert(T::states_among(w[i], state_ids));
            }
        }
        if all_resources_among::<T>(items, resource_ids) && map_among(resources, resource_ids) {
            assert forall|i: int| 0 <= i < w.len() implies T::resources_among(
                #[trigger] w[i],
                resource_ids,
            ) by {
                assert(T::resources_among(items[i], resource_ids));
            }
        }
    }
    if state_pass_all::<T>(items, states) is Ok {
        let w = state_pass_all::<T>(items, states)->Ok_0;
        let outcomes = items.map_values(|v: T::V| T::state_pass(v, states));
        lemma_sequence_pointwise(outcomes);
        assert forall|i: int| 0 <= i < items.len() implies (T::resources_among(
            #[trigger] w[i],
            resource_ids,
        ) <==> T::resources_among(items[i], resource_ids)) && (T::states_among(items[i], state_ids)
            && map_among(states, state_ids) ==> T::states_among(w[i], state_ids)) by {
            T::lemma_among(items[i], resources, states, resource_ids, state_ids);
            assert(outcomes[i] == T::state_pass(items[i], states));
        }
        if all_resources_among::<T>(items, resource_ids) {
            assert forall|i: int| 0 <= i < w.len() implies T::resources_among(
                #[trigger] w[i],
                resource_ids,
            ) by {
                assert(T::resources_among(items[i], resource_ids));
            }
        }
        if all_resources_among::<T>(w, resource_ids) {
            assert forall|i: int| 0 <= i < items.len() implies T::resources_among(
                #[trigger] items[i],
                resource_ids,
            ) by {
                assert(T::resources_among(w[i], resource_ids));
            }
        }
        if all_states_among::<T>(items, state_ids) && map_among(states, state_ids) {
            assert forall|i: int| 0 <= i < w.len() implies T::states_among(
                #[trigger] w[i],
                state_ids,
            ) by {
                assert(T::states_among(items[i], state_ids));
            }
        }
    }
}

/// What the passes keep on an entity that may be absent.
pub proof fn lemma_among_opt<T: Resolvable>(
    item: Option<T::V>,
    resources: Map<Seq<char>, ResourceId>,
    states: Map<Seq<char>, StateId>,
    resource_ids: Set<ResourceId>,
    state_ids: Set<StateId>,
)
    ensures
        resource_pass_opt::<T>(item, resources) matches Ok(w) ==> (opt_states_among::<T>(
            w,
            state_ids,
        ) <==> opt_states_among::<T>(item, state_ids)) && (opt_resources_among::<T>(
            item,
            resource_ids,
        ) && map_among(resources, resource_ids) ==> opt_resources_among::<T>(w, resource_ids)),
        state_pass_opt::<T>(item, states) matches Ok(w) ==> (opt_resources_among::<T>(
            w,
            resource_ids,
        ) <==> opt_resources_among::<T>(item, resource_ids)) && (opt_states_among::<T>(
            item,
            state_ids,
        ) && map_among(states, state_ids) ==> opt_states_among::<T>(w, state_ids)),
{
    if let Some(v) = item {
        T::lemma_among(v, resources, states, resource_ids, state_ids);
    }
}

/// What the type pass keeps on a sequence of entities: what it keeps on
/// each.
pub proof fn lemma_types_among_all<T: Typed>(
    items: Seq<T::V>,
    types: Map<Seq<char>, TypeId>,
    ids: Set<TypeId>,
)
    ensures
        type_pass_all::<T>(items, types) matches Ok(w) ==> (all_types_among::<T>(items, ids)
            && map_among(types, ids) ==> all_types_among::<T>(w, ids)),
{
    if type_pass_all::<T>(items, types) is Ok && all_types_among::<T>(items, ids) && map_among(
        types,
        ids,
    ) {
        let w = type_pass_all::<T>(items, types)->Ok_0;
        let outcomes = items.map_values(|v: T::V| T::type_pass(v, types));
        lemma_sequence_pointwise(outcomes);
        assert forall|i: int| 0 <= i < w.len() implies T::types_among(#[trigger] w[i], ids) by {
            T::lemma_types_among(items[i], types, ids);
            assert(outcomes[i] == T::type_pass(items[i], types));
            assert(T::types_among(items[i], ids));
        }
    }
}

/// What the type pass keeps on an entity that may be absent.
pub proof fn lemma_types_among_opt<T: Typed>(
    item: Option<T::V>,
    types: Map<Seq<char>, TypeId>,
    ids: Set<TypeId>,
)
    ensures
        type_pass_opt::<T>(item, types) matches Ok(w) ==> (opt_types_among::<T>(item, ids)
            && map_among(types, ids) ==> opt_types_among::<T>(w, ids)),
{
    if let Some(v) = item {
        T::lemma_types_among(v, types, ids);
    }
}

/// The names of resources that the entities of the sequence use.
pub open spec fn all_resource_uses<T: Resolvable>(items: Seq<T::V>) -> Set<NamingView> {
    Set::new(
        |u: NamingView|
            exists|i: int| 0 <= i < items.len()
                && #[trigger] T::resource_uses(items[i]).contains(u),
    )
}

/// The names of resources that the entity uses, if it is there.
pub open spec fn opt_resource_uses<T: Resolvable>(item: Option<T::V>) -> Set<NamingView> {
    match item {
        Some(v) => T::resource_uses(v),
        None => Set::empty(),
    }
}

/// The names of states that the entities of the sequence use.
pub open spec fn all_state_uses<T: Resolvable>(items: Seq<T::V>) -> Set<NamingView> {
    Set::new(
        |u: NamingView|
            exists|i: int| 0 <= i < items.len() && #[trigger] T::state_uses(items[i]).contains(u),
    )
}

/// The names of states that the entity uses, if it is there.
pub open spec fn opt_state_uses<T: Resolvable>(item: Option<T::V>) -> Set<NamingView> {
    match item {
        Some(v) => T::state_uses(v),
        None => Set::empty(),
    }
}

/// The names of types that the entities of the sequence use.
pub open spec fn all_type_uses<T: Typed>(items: Seq<T::V>) -> Set<NamingView> {
    Set::new(
        |u: NamingView|
            exists|i: int| 0 <= i < items.len() && #[trigger] T::type_uses(items[i]).contains(u),
    )
}

/// The names of types that the entity uses, if it is there.
pub open spec fn opt_type_uses<T: Typed>(item: Option<T::V>) -> Set<NamingView> {
    match item {
        Some(v) => T::type_uses(v),
        None => Set::empty(),
    }
}

/// Sequences whose entities use the same names of resources, place by place,
/// use the same names of resources.
pub proof fn lemma_same_resource_uses<T: Resolvable>(a: Seq<T::V>, b: Seq<T::V>)
    requires
        a.len() == b.len(),
        forall|i: int| 0 <= i < a.len()
            ==> T::resource_uses(#[trigger] a[i]) == T::resource_uses(b[i]),
    ensures
        all_resource_uses::<T>(a) == all_resource_uses::<T>(b),
{
    assert forall|u: NamingView| all_resource_uses::<T>(a).contains(u) <==> all_resource_uses::<T>(
        b,
    ).contains(u) by {
        if all_resource_uses::<T>(a).contains(u) {
            let i = choose|i: int| 0 <= i < a.len()
                && #[trigger] T::resource_uses(a[i]).contains(u);
            assert(T::resource_uses(a[i]) == T::resource_uses(b[i]));
            assert(T::resource_uses(b[i]).contains(u));
        }
        if all_resource_uses::<T>(b).contains(u) {
            let i = choose|i: int| 0 <= i < b.len()
                && #[trigger] T::resource_uses(b[i]).contains(u);
            assert(T::resource_uses(a[i]) == T::resource_uses(b[i]));
            assert(T::resource_uses(a[i]).contains(u));
        }
    }
    assert(all_resource_uses::<T>(a) =~= all_resource_uses::<T>(b));
}

/// Sequences whose entities use the same names of states, place by place,
/// use the same names of states.
pub proof fn lemma_same_state_uses<T: Resolvable>(a: Seq<T::V>, b: Seq<T::V>)
    requires
        a.len() == b.len(),
        forall|i: int| 0 <= i < a.len() ==> T::state_uses(#[trigger] a[i]) == T::state_uses(b[i]),
    ensures
        all_state_uses::<T>(a) == all_state_uses::<T>(b),
{
    assert forall|u: NamingView| all_state_uses::<T>(a).contains(u) <==> all_state_uses::<T>(
        b,
    ).contains(u) by {
        if all_state_uses::<T>(a).contains(u) {
            let i = choose|i: int| 0 <= i < a.len() && #[trigger] T::state_uses(a[i]).contains(u);
            assert(T::state_uses(a[i]) == T::state_uses(b[i]));
            assert(T::state_uses(b[i]).contains(u));
        }
        if all_state_uses::<T>(b).contains(u) {
            let i = choose|i: int| 0 <= i < b.len() && #[trigger] T::state_uses(b[i]).contains(u);
            assert(T::state_uses(a[i]) == T::state_uses(b[i]));
            assert(T::state_uses(a[i]).contains(u));
        }
    }
    assert(all_state_uses::<T>(a) =~= all_state_uses::<T>(b));
}

/// When a pass over a sequence of entities succeeds: when the namespace
/// knows every name that any of them uses.
pub proof fn lemma_uses_all<T: Resolvable>(
    items: Seq<T::V>,
    resources: Map<Seq<char>, ResourceId>,
    states: Map<Seq<char>, StateId>,
)
    ensures
        decided(
            resource_pass_all::<T>(items, resources),
            all_resource_uses::<T>(items),
            resources,
            resource_info(),
        ),
        decided(
            state_pass_all::<T>(items, states),
            all_state_uses::<T>(items),
            states,
            state_info(),
        ),
        resource_pass_all::<T>(items, resources) matches Ok(w) ==> all_state_uses::<T>(w)
            == all_state_uses::<T>(items),
        state_pass_all::<T>(items, states) matches Ok(w) ==> all_resource_uses::<T>(w)
            == all_resource_uses::<T>(items),
{
    lemma_resource_uses_all::<T>(items, resources, states);
    lemma_state_uses_all::<T>(items, resources, states);
    if resource_pass_all::<T>(items, resources) is Ok {
        let w = resource_pass_all::<T>(items, resources)->Ok_0;
        let by_resource = items.map_values(|v: T::V| T::resource_pass(v, resources));
        lemma_sequence_pointwise(by_resource);
        assert forall|i: int| 0 <= i < items.len() implies T::state_uses(#[trigger] w[i])
            == T::state_uses(items[i]) by {
            T::lemma_uses(items[i], resources, states);
            assert(by_resource[i] == T::resource_pass(items[i], resources));
        }
        assert(all_state_uses::<T>(w) =~= all_state_uses::<T>(items)) by {
            assert forall|u: NamingView| all_state_uses::<T>(w).contains(u)
                <==> all_state_uses::<T>(items).contains(u) by {
                if all_state_uses::<T>(w).contains(u) {
                    let i = choose|i: int|
                        0 <= i < w.len() && #[trigger] T::state_uses(w[i]).contains(u);
                    assert(T::state_uses(items[i]).contains(u));
                }
                if all_state_uses::<T>(items).contains(u) {
                    let i = choose|i: int|
                        0 <= i < items.len() && #[trigger] T::state_uses(items[i]).contains(u);
                    assert(T::state_uses(w[i]).contains(u));
                }
            }
        }
    }
    if state_pass_all::<T>(items, states) is Ok {
        let w = state_pass_all::<T>(items, states)->Ok_0;
        let by_state = items.map_values(|v: T::V| T::state_pass(v, states));
        lemma_sequence_pointwise(by_state);
        assert forall|i: int| 0 <= i < items.len() implies T::resource_uses(#[trigger] w[i])
            == T::resource_uses(items[i]) by {
            T::lemma_uses(items[i], resources, states);
            assert(by_state[i] == T::state_pass(items[i], states));
        }
        assert(all_resource_uses::<T>(w) =~= all_resource_uses::<T>(items)) by {
            assert forall|u: NamingView| all_resource_uses::<T>(w).contains(u)
                <==> all_resource_uses::<T>(items).contains(u) by {
                if all_resource_uses::<T>(w).contains(u) {
                    let i = choose|i: int|
                        0 <= i < w.len() && #[trigger] T::resource_uses(w[i]).contains(u);
                    assert(T::resource_uses(items[i]).contains(u));
                }
                if all_resource_uses::<T>(items).contains(u) {
                    let i = choose|i: int|
                        0 <= i < items.len() && #[trigger] T::resource_uses(items[i]).contains(u);
                    assert(T::resource_uses(w[i]).contains(u));
                }
            }
        }
    }
}

/// The resource pass over a sequence is decided by the names it uses.
proof fn lemma_resource_uses_all<T: Resolvable>(
    items: Seq<T::V>,
    resources: Map<Seq<char>, ResourceId>,
    states: Map<Seq<char>, StateId>,
)
    ensures
        decided(
            resource_pass_all::<T>(items, resources),
            all_resource_uses::<T>(items),
            resources,
            resource_info(),
        ),
{
    let outcomes = items.map_values(|v: T::V| T::resource_pass(v, resources));
    let uses = all_resource_uses::<T>(items);
    if all_ok(outcomes) {
        assert forall|u: NamingView| #[trigger] uses.contains(u) implies resources.contains_key(
            u.0,
        ) by {
            let i = choose|i: int|
                0 <= i < items.len() && #[trigger] T::resource_uses(items[i]).contains(u);
            T::lemma_uses(items[i], resources, states);
            assert(outcomes[i] is Ok);
        }
    } else {
        let i = choose|i: int| 0 <= i < outcomes.len() && !((#[trigger] outcomes[i]) is Ok);
        let k = lemma_first_failure_exists(outcomes, i);
        T::lemma_uses(items[k], resources, states);
        let e = outcomes[k]->Err_0;
        let u = choose|u: NamingView|
            #[trigger] T::resource_uses(items[k]).contains(u) && !resources.contains_key(u.0)
                && e == (
            RlErrorView::Resolve { element: quoted(resource_info(), u.0), position: u.1 });
        assert(uses.contains(u));
    }
}

/// The state pass over a sequence is decided by the names it uses.
proof fn lemma_state_uses_all<T: Resolvable>(
    items: Seq<T::V>,
    resources: Map<Seq<char>, ResourceId>,
    states: Map<Seq<char>, StateId>,
)
    ensures
        decided(
            state_pass_all::<T>(items, states),
            all_state_uses::<T>(items),
            states,
            state_info(),
        ),
{
    let outcomes = items.map_values(|v: T::V| T::state_pass(v, states));
    let uses = all_state_uses::<T>(items);
    if all_ok(outcomes) {
        assert forall|u: NamingView| #[trigger] uses.contains(u) implies states.contains_key(
            u.0,
        ) by {
            let i = choose|i: int|
                0 <= i < items.len() && #[trigger] T::state_uses(items[i]).contains(u);
            T::lemma_uses(items[i], resources, states);
            assert(outcomes[i] is Ok);
        }
    } else {
        let i = choose|i: int| 0 <= i < outcomes.len() && !((#[trigger] outcomes[i]) is Ok);
        let k = lemma_first_failure_exists(outcomes, i);
        T::lemma_uses(items[k], resources, states);
        let e = outcomes[k]->Err_0;
        let u = choose|u: NamingView|
            #[trigger] T::state_uses(items[k]).contains(u) && !states.contains_key(u.0) && e == (
            RlErrorView::Resolve { element: quoted(state_info(), u.0), position: u.1 });
        assert(uses.contains(u));
    }
}

/// When the type pass over a sequence of entities succeeds: when the
/// namespace knows every name that any of them uses.
pub proof fn lemma_type_uses_all<T: Typed>(items: Seq<T::V>, types: Map<Seq<char>, TypeId>)
    ensures
        decided(type_pass_all::<T>(items, types), all_type_uses::<T>(items), types, type_info()),
{
    let outcomes = items.map_values(|v: T::V| T::type_pass(v, types));
    let uses = all_type_uses::<T>(items);
    if all_ok(outcomes) {
        assert forall|u: NamingView| #[trigger] uses.contains(u) implies types.contains_key(
            u.0,
        ) by {
            let i = choose|i: int|
                0 <= i < items.len() && #[trigger] T::type_uses(items[i]).contains(u);
            T::lemma_type_uses(items[i], types);
            assert(outcomes[i] is Ok);
        }
    } else {
        let i = choose|i: int| 0 <= i < outcomes.len() && !((#[trigger] outcomes[i]) is Ok);
        let k = lemma_first_failure_exists(outcomes, i);
        T::lemma_type_uses(items[k], types);
        let e = outcomes[k]->Err_0;
        let u = choose|u: NamingView|
            #[trigger] T::type_uses(items[k]).contains(u) && !types.contains_key(u.0) && e == (
            RlErrorView::Resolve { element: quoted(type_info(), u.0), position: u.1 });
        assert(uses.contains(u));
    }
}

/// When a pass over an entity that may be absent succeeds.
pub proof fn lemma_uses_opt<T: Resolvable>(
    item: Option<T::V>,
    resources: Map<Seq<char>, ResourceId>,
    states: Map<Seq<char>, StateId>,
)
    ensures
        decided(
            resource_pass_opt::<T>(item, resources),
            opt_resource_uses::<T>(item),
            resources,
            resource_info(),
        ),
        decided(state_pass_opt::<T>(item, states), opt_state_uses::<T>(item), states, state_info()),
        resource_pass_opt::<T>(item, resources) matches Ok(w) ==> opt_state_uses::<T>(w)
            == opt_state_uses::<T>(item),
        state_pass_opt::<T>(item, states) matches Ok(w) ==> opt_resource_uses::<T>(w)
            == opt_resource_uses::<T>(item),
{
    if let Some(v) = item {
        T::lemma_uses(v, resources, states);
    }
}

/// When the type pass over an entity that may be absent succeeds.
pub proof fn lemma_type_uses_opt<T: Typed>(item: Option<T::V>, types: Map<Seq<char>, TypeId>)
    ensures
        decided(type_pass_opt::<T>(item, types), opt_type_uses::<T>(item), types, type_info()),
{
    if let Some(v) = item {
        T::lemma_type_uses(v, types);
    }
}

/// A pass over a sequence of entities that succeeds keeps each of them.
pub proof fn lemma_pass_kept_all<T: Resolvable>(
    items: Seq<T::V>,
    resources: Map<Seq<char>, ResourceId>,
    states: Map<Seq<char>, StateId>,
)
    ensures
        resource_pass_all::<T>(items, resources) matches Ok(w) ==> all_kept::<T>(
            items,
            w,
            Namespaces::only_resources(resources),
        ),
        state_pass_all::<T>(items, states) matches Ok(w) ==> all_kept::<T>(
            items,
            w,
            Namespaces::only_states(states),
        ),
{
    if resource_pass_all::<T>(items, resources) is Ok {
        let w = resource_pass_all::<T>(items, resources)->Ok_0;
        let outcomes = items.map_values(|v: T::V| T::resource_pass(v, resources));
        lemma_sequence_pointwise(outcomes);
        assert forall|i: int| 0 <= i < items.len() implies T::kept(
            items[i],
            w[i],
            Namespaces::only_resources(resources),
        ) by {
            T::lemma_pass_kept(items[i], resources, states);
            assert(outcomes[i] == T::resource_pass(items[i], resources));
        }
    }
    if state_pass_all::<T>(items, states) is Ok {
        let w = state_pass_all::<T>(items, states)->Ok_0;
        let outcomes = items.map_values(|v: T::V| T::state_pass(v, states));
        lemma_sequence_pointwise(outcomes);
        assert forall|i: int| 0 <= i < items.len() implies T::kept(
            items[i],
            w[i],
            Namespaces::only_states(states),
        ) by {
            T::lemma_pass_kept(items[i], resources, states);
            assert(outcomes[i] == T::state_pass(items[i], states));
        }
    }
}

/// A pass over an entity that may be absent keeps it, when it succeeds.
pub proof fn lemma_pass_kept_opt<T: Resolvable>(
    item: Option<T::V>,
    resources: Map<Seq<char>, ResourceId>,
    states: Map<Seq<char>, StateId>,
)
    ensures
        resource_pass_opt::<T>(item, resources) matches Ok(w) ==> opt_kept::<T>(
            item,
            w,
            Namespaces::only_resources(resources),
        ),
        state_pass_opt::<T>(item, states) matches Ok(w) ==> opt_kept::<T>(
            item,
            w,
            Namespaces::only_states(states),
        ),
{
    if let Some(v) = item {
        T::lemma_pass_kept(v, resources, states);
    }
}

/// The type pass over a sequence of entities that succeeds keeps each of
/// them.
pub proof fn lemma_type_pass_kept_all<T: Typed>(items: Seq<T::V>, types: Map<Seq<char>, TypeId>)
    ensures
        type_pass_all::<T>(items, types) matches Ok(w) ==> all_kept::<T>(
            items,
            w,
            Namespaces::only_types(types),
        ),
{
    if type_pass_all::<T>(items, types) is Ok {
        let w = type_pass_all::<T>(items, types)->Ok_0;
        let outcomes = items.map_values(|v: T::V| T::type_pass(v, types));
        lemma_sequence_pointwise(outcomes);
        assert forall|i: int| 0 <= i < items.len() implies T::kept(
            items[i],
            w[i],
            Namespaces::only_types(types),
        ) by {
            T::lemma_type_pass_kept(items[i], types);
            assert(outcomes[i] == T::type_pass(items[i], types));
        }
    }
}

/// The type pass over an entity that may be absent keeps it, when it
/// succeeds.
pub proof fn lemma_type_pass_kept_opt<T: Typed>(item: Option<T::V>, types: Map<Seq<char>, TypeId>)
    ensures
        type_pass_opt::<T>(item, types) matches Ok(w) ==> opt_kept::<T>(
            item,
            w,
            Namespaces::only_types(types),
        ),
{
    if let Some(v) = item {
        T::lemma_type_pass_kept(v, types);
    }
}

/// Resolves the references to resources of every entity in `items`, in
/// order, and stops at the first entity that fails.
pub fn resolve_resource_all<T: Resolvable>(
    items: &mut Vec<T>,
    map: &StringHashMap<ResourceId>,
) -> (r: Result<(), RlError>)
    ensures
        in_place(
            resource_pass_all::<T>(old(items).deep_view(), map@),
            final(items).deep_view(),
            r,
        ),
        all_kept::<T>(
            old(items).deep_view(),
            final(items).deep_view(),
            Namespaces::only_resources(map@),
        ),
{
    let ghost before = old(items).deep_view();
    let ghost outcomes = before.map_values(|v: T::V| T::resource_pass(v, map@));
    let mut i: usize = 0;
    while i < items.len()
        invariant
            0 <= i <= items.len(),
            items.len() == before.len(),
            before == old(items).deep_view(),
            outcomes == before.map_values(|v: T::V| T::resource_pass(v, map@)),
            forall|k: int| 0 <= k < i ==> #[trigger] outcomes[k] == Ok::<T::V, RlErrorView>(
                items.deep_view()[k],
            ),
            forall|k: int|
                0 <= k < i ==> T::kept(
                    before[k],
                    #[trigger] items.deep_view()[k],
                    Namespaces::only_resources(map@),
                ),
            forall|k: int| i <= k < items.len() ==> #[trigger] items.deep_view()[k] == before[k],
        decreases items.len() - i,
    {
        let ghost previous = items.deep_view();
        proof {
            assert(previous[i as int] == before[i as int]);
            assert(outcomes[i as int] == T::resource_pass(before[i as int], map@));
        }
        let outcome = items[i].resolve_resource(map);
        proof {
            assert forall|k: int| 0 <= k < items.len()
                && k != i implies #[trigger] items.deep_view()[k]
                == previous[k] by {}
            assert(T::kept(
                before[i as int],
                items.deep_view()[i as int],
                Namespaces::only_resources(map@),
            ));
        }
        match outcome {
            Ok(()) => {},
            Err(e) => {
                proof {
                    lemma_sequence_fails(outcomes, i as int);
                    let now = items.deep_view();
                    assert forall|k: int| 0 <= k < before.len() implies T::kept(
                        before[k],
                        now[k],
                        Namespaces::only_resources(map@),
                    ) by {
                        T::lemma_kept(
                            before[k],
                            before[k],
                            before[k],
                            Namespaces::only_resources(map@),
                            Namespaces::only_resources(map@),
                        );
                    }
                }
                return Err(e);
            },
        }
        i = i + 1;
    }
    proof {
        lemma_sequence_succeeds(outcomes, items.deep_view());
    }
    Ok(())
}

/// Resolves the references to states of every entity in `items`, in
/// order, and stops at the first entity that fails.
pub fn resolve_state_all<T: Resolvable>(
    items: &mut Vec<T>,
    map: &StringHashMap<StateId>,
) -> (r: Result<(), RlError>)
    ensures
        in_place(
            state_pass_all::<T>(old(items).deep_view(), map@),
            final(items).deep_view(),
            r,
        ),
        all_kept::<T>(
            old(items).deep_view(),
            final(items).deep_view(),
            Namespaces::only_states(map@),
        ),
{
    let ghost before = old(items).deep_view();
    let ghost outcomes = before.map_values(|v: T::V| T::state_pass(v, map@));
    let mut i: usize = 0;
    while i < items.len()
        invariant
            0 <= i <= items.len(),
            items.len() == before.len(),
            before == old(items).deep_view(),
            outcomes == before.map_values(|v: T::V| T::state_pass(v, map@)),
            forall|k: int| 0 <= k < i ==> #[trigger] outcomes[k] == Ok::<T::V, RlErrorView>(
                items.deep_view()[k],
            ),
            forall|k: int|
                0 <= k < i ==> T::kept(
                    before[k],
                    #[trigger] items.deep_view()[k],
                    Namespaces::only_states(map@),
                ),
            forall|k: int| i <= k < items.len() ==> #[trigger] items.deep_view()[k] == before[k],
        decreases items.len() - i,
    {
        let ghost previous = items.deep_view();
        proof {
            assert(previous[i as int] == before[i as int]);
            assert(outcomes[i as int] == T::state_pass(before[i as int], map@));
        }
        let outcome = items[i].resolve_state(map);
        proof {
            assert forall|k: int| 0 <= k < items.len()
                && k != i implies #[trigger] items.deep_view()[k]
                == previous[k] by {}
            assert(T::kept(
                before[i as int],
                items.deep_view()[i as int],
                Namespaces::only_states(map@),
            ));
        }
        match outcome {
            Ok(()) => {},
            Err(e) => {
                proof {
                    lemma_sequence_fails(outcomes, i as int);
                    let now = items.deep_view();
                    assert forall|k: int| 0 <= k < before.len() implies T::kept(
                        before[k],
                        now[k],
                        Namespaces::only_states(map@),
                    ) by {
                        T::lemma_kept(
                            before[k],
                            before[k],
                            before[k],
                            Namespaces::only_states(map@),
                            Namespaces::only_states(map@),
                        );
                    }
                }
                return Err(e);
            },
        }
        i = i + 1;
    }
    proof {
        lemma_sequence_succeeds(outcomes, items.deep_view());
    }
    Ok(())
}

/// Resolves the references to types of every entity in `items`, in
/// order, and stops at the first entity that fails.
pub fn resolve_type_all<T: Typed>(
    items: &mut Vec<T>,
    map: &StringHashMap<TypeId>,
) -> (r: Result<(), RlError>)
    ensures
        in_place(
            type_pass_all::<T>(old(items).deep_view(), map@),
            final(items).deep_view(),
            r,
        ),
        all_kept::<T>(
            old(items).deep_view(),
            final(items).deep_view(),
            Namespaces::only_types(map@),
        ),
{
    let ghost before = old(items).deep_view();
    let ghost outcomes = before.map_values(|v: T::V| T::type_pass(v, map@));
    let mut i: usize = 0;
    while i < items.len()
        invariant
            0 <= i <= items.len(),
            items.len() == before.len(),
            before == old(items).deep_view(),
            outcomes == before.map_values(|v: T::V| T::type_pass(v, map@)),
            forall|k: int| 0 <= k < i ==> #[trigger] outcomes[k] == Ok::<T::V, RlErrorView>(
                items.deep_view()[k],
            ),
            forall|k: int|
                0 <= k < i ==> T::kept(
                    before[k],
                    #[trigger] items.deep_view()[k],
                    Namespaces::only_types(map@),
                ),
            forall|k: int| i <= k < items.len() ==> #[trigger] items.deep_view()[k] == before[k],
        decreases items.len() - i,
    {
        let ghost previous = items.deep_view();
        proof {
            assert(previous[i as int] == before[i as int]);
            assert(outcomes[i as int] == T::type_pass(before[i as int], map@));
        }
        let outcome = items[i].resolve_type(map);
        proof {
            assert forall|k: int| 0 <= k < items.len()
                && k != i implies #[trigger] items.deep_view()[k]
                == previous[k] by {}
            assert(T::kept(
                before[i as int],
                items.deep_view()[i as int],
                Namespaces::only_types(map@),
            ));
        }
        match outcome {
            Ok(()) => {},
            Err(e) => {
                proof {
                    lemma_sequence_fails(outcomes, i as int);
                    let now = items.deep_view();
                    assert forall|k: int| 0 <= k < before.len() implies T::kept(
                        before[k],
                        now[k],
                        Namespaces::only_types(map@),
                    ) by {
                        T::lemma_kept(
                            before[k],
                            before[k],
                            before[k],
                            Namespaces::only_types(map@),
                            Namespaces::only_types(map@),
                        );
                    }
                }
                return Err(e);
            },
        }
        i = i + 1;
    }
    proof {
        lemma_sequence_succeeds(outcomes, items.deep_view());
    }
    Ok(())
}

/// Resolves the references to resources of `item`, if it is there.
pub fn resolve_resource_opt<T: Resolvable>(
    item: &mut Option<T>,
    map: &StringHashMap<ResourceId>,
) -> (r: Result<(), RlError>)
    ensures
        in_place(
            resource_pass_opt::<T>(old(item).deep_view(), map@),
            final(item).deep_view(),
            r,
        ),
        opt_kept::<T>(
            old(item).deep_view(),
            final(item).deep_view(),
            Namespaces::only_resources(map@),
        ),
{
    match item {
        Some(inner) => inner.resolve_resource(map),
        None => Ok(()),
    }
}

/// Resolves the references to states of `item`, if it is there.
pub fn resolve_state_opt<T: Resolvable>(
    item: &mut Option<T>,
    map: &StringHashMap<StateId>,
) -> (r: Result<(), RlError>)
    ensures
        in_place(
            state_pass_opt::<T>(old(item).deep_view(), map@),
            final(item).deep_view(),
            r,
        ),
        opt_kept::<T>(
            old(item).deep_view(),
            final(item).deep_view(),
            Namespaces::only_states(map@),
        ),
{
    match item {
        Some(inner) => inner.resolve_state(map),
        None => Ok(()),
    }
}

/// Resolves the references to types of `item`, if it is there.
pub fn resolve_type_opt<T: Typed>(
    item: &mut Option<T>,
    map: &StringHashMap<TypeId>,
) -> (r: Result<(), RlError>)
    ensures
        in_place(
            type_pass_opt::<T>(old(item).deep_view(), map@),
            final(item).deep_view(),
            r,
        ),
        opt_kept::<T>(old(item).deep_view(), final(item).deep_view(), Namespaces::only_types(map@)),
{
    match item {
        Some(inner) => inner.resolve_type(map),
        None => Ok(()),
    }
}

} // verus!
