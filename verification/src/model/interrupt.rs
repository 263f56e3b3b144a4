//! What holds and what happens when a skill is interrupted.

use crate::model::effect::{Effect, EffectView};
use crate::model::expr::{resource_info, state_info};
use crate::model::identity::NamingView;
use crate::model::postcondition::{Postcondition, PostconditionView};
use crate::model::reference::lemma_unknown_among;
use crate::model::resolve::{
    all_kept, all_resource_uses, all_resources_among, all_resources_resolved, all_state_uses,
    all_states_among, all_states_resolved, lemma_all_kept, lemma_among_all, lemma_pass_kept_all,
    lemma_passes_all, lemma_uses_all, resolve_resource_all, resolve_state_all, resource_pass_all,
    state_pass_all, Kept, Namespaces, Resolvable,
};
use crate::model::resource::ResourceId;
use crate::model::state::StateId;
use crate::parser::error::{in_place, RlError, RlErrorView};
use crate::parser::position::{Position, PositionView};
use vstd::hash_map::StringHashMap;
use vstd::prelude::*;

verus! {

/// Mathematical model of an [`Interrupt`].
pub struct InterruptView {
    pub effects: Seq<EffectView>,
    pub postconditions: Seq<PostconditionView>,
    pub position: Option<PositionView>,
}

/// The interruption of a skill: the postconditions that then hold and the
/// effects that then apply.
#[derive(Debug)]
pub struct Interrupt {
    effects: Vec<Effect>,
    postconditions: Vec<Postcondition>,
    position: Option<Position>,
}

impl Clone for Interrupt {
    fn clone(&self) -> (r: Self)
        ensures
            r@ == self@,
    {
        let effects = self.effects.clone();
        proof {
            assert(effects.deep_view() =~= self.effects.deep_view());
        }
        let postconditions = self.postconditions.clone();
        proof {
            assert(postconditions.deep_view() =~= self.postconditions.deep_view());
        }
        Interrupt {
            effects,
            postconditions,
            position: self.position.clone(),
        }
    }
}

impl View for Interrupt {
    type V = InterruptView;

    closed spec fn view(&self) -> InterruptView {
        InterruptView {
            effects: self.effects.deep_view(),
            postconditions: self.postconditions.deep_view(),
            position: self.position.deep_view(),
        }
    }
}

impl DeepView for Interrupt {
    type V = InterruptView;

    open spec fn deep_view(&self) -> InterruptView {
        self@
    }
}

impl InterruptView {
    /// The names of resources that are used and not resolved, each with the
    /// place of its use.
    pub open spec fn resource_uses(self) -> Set<NamingView> {
        all_resource_uses::<Effect>(self.effects)
            + all_resource_uses::<Postcondition>(self.postconditions)
    }

    /// The names of states that are used and not resolved, each with the
    /// place of its use.
    pub open spec fn state_uses(self) -> Set<NamingView> {
        all_state_uses::<Effect>(self.effects)
            + all_state_uses::<Postcondition>(self.postconditions)
    }

    /// The interrupt `after` is this one, but that names may have been
    /// resolved, each to the identifier that its namespace among `spaces`
    /// gives it.
    pub open spec fn kept(self, after: InterruptView, spaces: Namespaces) -> bool {
        &&& after.position == self.position
        &&& all_kept::<Effect>(self.effects, after.effects, spaces)
        &&& all_kept::<Postcondition>(self.postconditions, after.postconditions, spaces)
    }

    /// Every resolved reference to a resource stands for one of `ids`.
    pub open spec fn resources_among(self, ids: Set<ResourceId>) -> bool {
        &&& all_resources_among::<Effect>(self.effects, ids)
        &&& all_resources_among::<Postcondition>(self.postconditions, ids)
    }

    /// Every resolved reference to a state stands for one of `ids`.
    pub open spec fn states_among(self, ids: Set<StateId>) -> bool {
        &&& all_states_among::<Effect>(self.effects, ids)
        &&& all_states_among::<Postcondition>(self.postconditions, ids)
    }

    /// Every reference to a resource is resolved.
    pub open spec fn resources_resolved(self) -> bool {
        &&& all_resources_resolved::<Effect>(self.effects)
        &&& all_resources_resolved::<Postcondition>(self.postconditions)
    }

    /// Every reference to a state is resolved.
    pub open spec fn states_resolved(self) -> bool {
        &&& all_states_resolved::<Effect>(self.effects)
        &&& all_states_resolved::<Postcondition>(self.postconditions)
    }

    /// The interrupt after the resource pass: first the effects, then the
    /// postconditions, each in order.
    pub open spec fn resolve_resource(self, map: Map<Seq<char>, ResourceId>) -> Result<
        InterruptView,
        RlErrorView,
    > {
        match resource_pass_all::<Effect>(self.effects, map) {
            Err(e) => Err(e),
            Ok(effects) => match resource_pass_all::<Postcondition>(self.postconditions, map) {
                Err(e) => Err(e),
                Ok(postconditions) => Ok(InterruptView { effects, postconditions, ..self }),
            },
        }
    }

    /// The interrupt after the state pass: first the effects, then the
    /// postconditions, each in order.
    pub open spec fn resolve_state(self, map: Map<Seq<char>, StateId>) -> Result<
        InterruptView,
        RlErrorView,
    > {
        match state_pass_all::<Effect>(self.effects, map) {
            Err(e) => Err(e),
            Ok(effects) => match state_pass_all::<Postcondition>(self.postconditions, map) {
                Err(e) => Err(e),
                Ok(postconditions) => Ok(InterruptView { effects, postconditions, ..self }),
            },
        }
    }
}

impl Interrupt {
    pub fn new(
        postconditions: Vec<Postcondition>,
        effects: Vec<Effect>,
        position: Option<Position>,
    ) -> (r: Self)
        ensures
            r@ == (InterruptView {
                effects: effects.deep_view(),
                postconditions: postconditions.deep_view(),
                position: position.deep_view(),
            }),
    {
        Interrupt { effects, postconditions, position }
    }

    pub fn postconditions(&self) -> (r: &Vec<Postcondition>)
        ensures
            r.deep_view() == self@.postconditions,
    {
        &self.postconditions
    }

    pub fn effects(&self) -> (r: &Vec<Effect>)
        ensures
            r.deep_view() == self@.effects,
    {
        &self.effects
    }

    pub fn position(&self) -> (r: Option<Position>)
        ensures
            r.deep_view() == self@.position,
    {
        self.position.clone()
    }

    /// Resolves the references to resources, first in the effects, then in
    /// the postconditions.
    pub fn resolve_resource(&mut self, map: &StringHashMap<ResourceId>) -> (r: Result<(), RlError>)
        ensures
            in_place(old(self)@.resolve_resource(map@), final(self)@, r),
            old(self)@.kept(final(self)@, Namespaces::only_resources(map@)),
    {
        proof {
            Interrupt::lemma_kept(
                old(self)@,
                old(self)@,
                old(self)@,
                Namespaces::only_resources(map@),
                Namespaces::only_resources(map@),
            );
        }
        match resolve_resource_all(&mut self.effects, map) {
            Ok(()) => {},
            Err(e) => {
                return Err(e);
            },
        }
        resolve_resource_all(&mut self.postconditions, map)
    }

    /// Resolves the references to states, first in the effects, then in the
    /// postconditions.
    pub fn resolve_state(&mut self, map: &StringHashMap<StateId>) -> (r: Result<(), RlError>)
        ensures
            in_place(old(self)@.resolve_state(map@), final(self)@, r),
            old(self)@.kept(final(self)@, Namespaces::only_states(map@)),
    {
        proof {
            Interrupt::lemma_kept(
                old(self)@,
                old(self)@,
                old(self)@,
                Namespaces::only_states(map@),
                Namespaces::only_states(map@),
            );
        }
        match resolve_state_all(&mut self.effects, map) {
            Ok(()) => {},
            Err(e) => {
                return Err(e);
            },
        }
        resolve_state_all(&mut self.postconditions, map)
    }
}

impl Kept for Interrupt {
    open spec fn kept(before: InterruptView, after: InterruptView, spaces: Namespaces) -> bool {
        before.kept(after, spaces)
    }

    proof fn lemma_kept(
        a: InterruptView,
        b: InterruptView,
        c: InterruptView,
        spaces: Namespaces,
        wider: Namespaces,
    ) {
        lemma_all_kept::<Effect>(a.effects, b.effects, c.effects, spaces, wider);
        lemma_all_kept::<Postcondition>(
            a.postconditions,
            b.postconditions,
            c.postconditions,
            spaces,
            wider,
        );
    }
}

impl Resolvable for Interrupt {
    open spec fn resource_pass(v: InterruptView, map: Map<Seq<char>, ResourceId>) -> Result<
        InterruptView,
        RlErrorView,
    > {
        v.resolve_resource(map)
    }

    open spec fn state_pass(v: InterruptView, map: Map<Seq<char>, StateId>) -> Result<
        InterruptView,
        RlErrorView,
    > {
        v.resolve_state(map)
    }

    open spec fn resources_resolved(v: InterruptView) -> bool {
        v.resources_resolved()
    }

    open spec fn states_resolved(v: InterruptView) -> bool {
        v.states_resolved()
    }

    open spec fn resources_among(v: InterruptView, ids: Set<ResourceId>) -> bool {
        v.resources_among(ids)
    }

    open spec fn states_among(v: InterruptView, ids: Set<StateId>) -> bool {
        v.states_among(ids)
    }

    proof fn lemma_among(
        v: InterruptView,
        resources: Map<Seq<char>, ResourceId>,
        states: Map<Seq<char>, StateId>,
        resource_ids: Set<ResourceId>,
        state_ids: Set<StateId>,
    ) {
        lemma_among_all::<Effect>(v.effects, resources, states, resource_ids, state_ids);
        lemma_among_all::<Postcondition>(
            v.postconditions,
            resources,
            states,
            resource_ids,
            state_ids,
        );
    }

    proof fn lemma_passes(
        v: InterruptView,
        resources: Map<Seq<char>, ResourceId>,
        states: Map<Seq<char>, StateId>,
    ) {
        lemma_passes_all::<Effect>(v.effects, resources, states);
        lemma_passes_all::<Postcondition>(v.postconditions, resources, states);
    }

    proof fn lemma_pass_kept(
        v: InterruptView,
        resources: Map<Seq<char>, ResourceId>,
        states: Map<Seq<char>, StateId>,
    ) {
        Interrupt::lemma_kept(
            v,
            v,
            v,
            Namespaces::only_resources(resources),
            Namespaces::only_resources(resources),
        );
        Interrupt::lemma_kept(
            v,
            v,
            v,
            Namespaces::only_states(states),
            Namespaces::only_states(states),
        );
        lemma_pass_kept_all::<Effect>(v.effects, resources, states);
        lemma_pass_kept_all::<Postcondition>(v.postconditions, resources, states);
    }

    open spec fn resource_uses(v: InterruptView) -> Set<NamingView> {
        v.resource_uses()
    }

    open spec fn state_uses(v: InterruptView) -> Set<NamingView> {
        v.state_uses()
    }

    proof fn lemma_uses(
        v: InterruptView,
        resources: Map<Seq<char>, ResourceId>,
        states: Map<Seq<char>, StateId>,
    ) {
        lemma_uses_all::<Effect>(v.effects, resources, states);
        lemma_uses_all::<Postcondition>(v.postconditions, resources, states);
        if resource_pass_all::<Effect>(v.effects, resources) is Err {
            lemma_unknown_among(
                all_resource_uses::<Effect>(v.effects),
                v.resource_uses(),
                resources,
                resource_info(),
                resource_pass_all::<Effect>(v.effects, resources)->Err_0,
            );
        } else if resource_pass_all::<Postcondition>(v.postconditions, resources) is Err {
            lemma_unknown_among(
                all_resource_uses::<Postcondition>(v.postconditions),
                v.resource_uses(),
                resources,
                resource_info(),
                resource_pass_all::<Postcondition>(v.postconditions, resources)->Err_0,
            );
        }
        if state_pass_all::<Effect>(v.effects, states) is Err {
            lemma_unknown_among(
                all_state_uses::<Effect>(v.effects),
                v.state_uses(),
                states,
                state_info(),
                state_pass_all::<Effect>(v.effects, states)->Err_0,
            );
        } else if state_pass_all::<Postcondition>(v.postconditions, states) is Err {
            lemma_unknown_among(
                all_state_uses::<Postcondition>(v.postconditions),
                v.state_uses(),
                states,
                state_info(),
                state_pass_all::<Postcondition>(v.postconditions, states)->Err_0,
            );
        }
    }

    fn resolve_resource(&mut self, map: &StringHashMap<ResourceId>) -> (r: Result<(), RlError>) {
        Interrupt::resolve_resource(self, map)
    }

    fn resolve_state(&mut self, map: &StringHashMap<StateId>) -> (r: Result<(), RlError>) {
        Interrupt::resolve_state(self, map)
    }
}

} // verus!
