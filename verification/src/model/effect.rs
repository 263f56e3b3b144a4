//! Effects: assignments of a state to a resource.

use crate::model::expr::{resource_info, state_info};
use crate::model::identity::NamingView;
use crate::model::reference::{lemma_unknown_among, Reference, ReferenceView};
use crate::model::resolve::{Kept, Namespaces, Resolvable};
use crate::model::resource::ResourceId;
use crate::model::state::StateId;
use crate::parser::error::{in_place, RlError, RlErrorView};
use vstd::hash_map::StringHashMap;
use vstd::prelude::*;

verus! {

/// Mathematical model of an [`Effect`].
pub struct EffectView {
    pub resource: ReferenceView<ResourceId>,
    pub state: ReferenceView<StateId>,
}

/// An effect: the resource moves to the state.
#[derive(Debug, PartialEq, Eq)]
pub struct Effect {
    resource: Reference<ResourceId>,
    state: Reference<StateId>,
}

impl Clone for Effect {
    fn clone(&self) -> (r: Self)
        ensures
            r@ == self@,
    {
        Effect {
            resource: self.resource.clone(),
            state: self.state.clone(),
        }
    }
}

impl View for Effect {
    type V = EffectView;

    closed spec fn view(&self) -> EffectView {
        EffectView { resource: self.resource@, state: self.state@ }
    }
}

impl DeepView for Effect {
    type V = EffectView;

    open spec fn deep_view(&self) -> EffectView {
        self@
    }
}

impl EffectView {
    /// The names of resources that are used and not resolved, each with the
    /// place of its use.
    pub open spec fn resource_uses(self) -> Set<NamingView> {
        self.resource.uses()
    }

    /// The names of states that are used and not resolved, each with the
    /// place of its use.
    pub open spec fn state_uses(self) -> Set<NamingView> {
        self.state.uses()
    }

    /// The effect `after` is this one, but that names may have been resolved,
    /// each to the identifier that its namespace among `spaces` gives it.
    pub open spec fn kept(self, after: EffectView, spaces: Namespaces) -> bool {
        &&& self.resource.kept(after.resource, spaces.resources)
        &&& self.state.kept(after.state, spaces.states)
    }

    /// Every resolved reference to a resource stands for one of `ids`.
    pub open spec fn resources_among(self, ids: Set<ResourceId>) -> bool {
        self.resource.among(ids)
    }

    /// Every resolved reference to a state stands for one of `ids`.
    pub open spec fn states_among(self, ids: Set<StateId>) -> bool {
        self.state.among(ids)
    }

    /// Every reference to a resource is resolved.
    pub open spec fn resources_resolved(self) -> bool {
        self.resource is Resolved
    }

    /// Every reference to a state is resolved.
    pub open spec fn states_resolved(self) -> bool {
        self.state is Resolved
    }

    /// The effect with its resource resolved against `map`, or the error of
    /// the reference when `map` does not know it.
    pub open spec fn resolve_resource(self, map: Map<Seq<char>, ResourceId>) -> Result<
        EffectView,
        RlErrorView,
    > {
        match self.resource.resolve(map, resource_info()) {
            Ok(resource) => Ok(EffectView { resource, ..self }),
            Err(e) => Err(e),
        }
    }

    /// The effect with its state resolved against `map`, or the error of the
    /// reference when `map` does not know it.
    pub open spec fn resolve_state(self, map: Map<Seq<char>, StateId>) -> Result<
        EffectView,
        RlErrorView,
    > {
        match self.state.resolve(map, state_info()) {
            Ok(state) => Ok(EffectView { state, ..self }),
            Err(e) => Err(e),
        }
    }
}

impl Effect {
    pub fn new(resource: Reference<ResourceId>, state: Reference<StateId>) -> (r: Self)
        ensures
            r@ == (EffectView { resource: resource@, state: state@ }),
    {
        Effect { resource, state }
    }

    /// The resource that the effect acts on.
    pub fn resource(&self) -> (r: &Reference<ResourceId>)
        ensures
            r@ == self@.resource,
    {
        &self.resource
    }

    /// The state that the resource moves to.
    pub fn state(&self) -> (r: &Reference<StateId>)
        ensures
            r@ == self@.state,
    {
        &self.state
    }

    pub fn resolve_resource(&mut self, map: &StringHashMap<ResourceId>) -> (r: Result<(), RlError>)
        ensures
            in_place(old(self)@.resolve_resource(map@), final(self)@, r),
            old(self)@.kept(final(self)@, Namespaces::only_resources(map@)),
            r is Err ==> final(self)@ == old(self)@,
    {
        proof {
            Effect::lemma_kept(
                old(self)@,
                old(self)@,
                old(self)@,
                Namespaces::only_resources(map@),
                Namespaces::only_resources(map@),
            );
        }
        self.resource.resolve_in_place(map, "resource")
    }

    pub fn resolve_state(&mut self, map: &StringHashMap<StateId>) -> (r: Result<(), RlError>)
        ensures
            in_place(old(self)@.resolve_state(map@), final(self)@, r),
            old(self)@.kept(final(self)@, Namespaces::only_states(map@)),
            r is Err ==> final(self)@ == old(self)@,
    {
        proof {
            Effect::lemma_kept(
                old(self)@,
                old(self)@,
                old(self)@,
                Namespaces::only_states(map@),
                Namespaces::only_states(map@),
            );
        }
        self.state.resolve_in_place(map, "state")
    }
}

impl Kept for Effect {
    open spec fn kept(before: EffectView, after: EffectView, spaces: Namespaces) -> bool {
        before.kept(after, spaces)
    }

    proof fn lemma_kept(
        a: EffectView,
        b: EffectView,
        c: EffectView,
        spaces: Namespaces,
        wider: Namespaces,
    ) {
    }
}

impl Resolvable for Effect {
    open spec fn resource_pass(v: EffectView, map: Map<Seq<char>, ResourceId>) -> Result<
        EffectView,
        RlErrorView,
    > {
        v.resolve_resource(map)
    }

    open spec fn state_pass(v: EffectView, map: Map<Seq<char>, StateId>) -> Result<
        EffectView,
        RlErrorView,
    > {
        v.resolve_state(map)
    }

    open spec fn resources_resolved(v: EffectView) -> bool {
        v.resources_resolved()
    }

    open spec fn states_resolved(v: EffectView) -> bool {
        v.states_resolved()
    }

    open spec fn resources_among(v: EffectView, ids: Set<ResourceId>) -> bool {
        v.resources_among(ids)
    }

    open spec fn states_among(v: EffectView, ids: Set<StateId>) -> bool {
        v.states_among(ids)
    }

    proof fn lemma_among(
        v: EffectView,
        resources: Map<Seq<char>, ResourceId>,
        states: Map<Seq<char>, StateId>,
        resource_ids: Set<ResourceId>,
        state_ids: Set<StateId>,
    ) {
    }

    proof fn lemma_passes(
        v: EffectView,
        resources: Map<Seq<char>, ResourceId>,
        states: Map<Seq<char>, StateId>,
    ) {
    }

    proof fn lemma_pass_kept(
        v: EffectView,
        resources: Map<Seq<char>, ResourceId>,
        states: Map<Seq<char>, StateId>,
    ) {
        Effect::lemma_kept(
            v,
            v,
            v,
            Namespaces::only_resources(resources),
            Namespaces::only_resources(resources),
        );
        Effect::lemma_kept(
            v,
            v,
            v,
            Namespaces::only_states(states),
            Namespaces::only_states(states),
        );
    }

    open spec fn resource_uses(v: EffectView) -> Set<NamingView> {
        v.resource_uses()
    }

    open spec fn state_uses(v: EffectView) -> Set<NamingView> {
        v.state_uses()
    }

    proof fn lemma_uses(
        v: EffectView,
        resources: Map<Seq<char>, ResourceId>,
        states: Map<Seq<char>, StateId>,
    ) {
        v.resource.lemma_uses(resources, resource_info());
        v.state.lemma_uses(states, state_info());
        if v.resource.resolve(resources, resource_info()) is Err {
            lemma_unknown_among(
                v.resource.uses(),
                v.resource_uses(),
                resources,
                resource_info(),
                v.resource.resolve(resources, resource_info())->Err_0,
            );
        }
        if v.state.resolve(states, state_info()) is Err {
            lemma_unknown_among(
                v.state.uses(),
                v.state_uses(),
                states,
                state_info(),
                v.state.resolve(states, state_info())->Err_0,
            );
        }
    }

    fn resolve_resource(&mut self, map: &StringHashMap<ResourceId>) -> (r: Result<(), RlError>) {
        Effect::resolve_resource(self, map)
    }

    fn resolve_state(&mut self, map: &StringHashMap<StateId>) -> (r: Result<(), RlError>) {
        Effect::resolve_state(self, map)
    }
}

} // verus!
