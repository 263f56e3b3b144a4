//! The ways in which a skill ends: successes and failures.

use crate::model::effect::{Effect, EffectView};
use crate::model::expr::{resource_info, state_info};
use crate::model::identity::{Id, Named, NamingView};
use crate::model::postcondition::{Postcondition, PostconditionView};
use crate::model::reference::lemma_unknown_among;
use crate::model::resolve::{
    all_kept, all_resource_uses, all_resources_among, all_resources_resolved, all_state_uses,
    all_states_among, all_states_resolved, lemma_all_kept, lemma_among_all, lemma_pass_kept_all,
    lemma_passes_all, lemma_uses_all, resolve_resource_all, resolve_state_all, resource_pass_all,
    state_pass_all, Kept, Namespaces, Resolvable,
};
use crate::model::resource::ResourceId;
use crate::model::skill::SkillId;
use crate::model::state::StateId;
use crate::parser::error::{in_place, RlError, RlErrorView};
use crate::parser::position::{Position, PositionView};
use vstd::hash_map::StringHashMap;
use vstd::prelude::*;
use vstd::string::StringExecFns;

verus! {

/// The identifiers of the ways in which a skill ends.
pub trait TerminateId: Id {
}

/// Identifier of a success: the skill that owns it, and its index among that
/// skill's successes.
#[derive(Clone, Copy, PartialEq, Eq, Structural, Debug, Hash)]
pub struct SuccessId(pub SkillId, pub usize);

impl Id for SuccessId {
    open spec fn spec_default() -> Self {
        SuccessId(SkillId::spec_default(), 0)
    }

    open spec fn spec_index(&self) -> usize {
        self.1
    }

    fn default() -> (r: Self) {
        SuccessId(SkillId::default(), 0)
    }

    fn index(&self) -> (r: usize) {
        self.1
    }
}

impl SuccessId {
    /// The skill that owns the success.
    pub fn skill(&self) -> (r: SkillId)
        ensures
            r == self.0,
    {
        self.0
    }
}

impl TerminateId for SuccessId {
}

/// Identifier of a failure: the skill that owns it, and its index among that
/// skill's failures.
#[derive(Clone, Copy, PartialEq, Eq, Structural, Debug, Hash)]
pub struct FailureId(pub SkillId, pub usize);

impl Id for FailureId {
    open spec fn spec_default() -> Self {
        FailureId(SkillId::spec_default(), 0)
    }

    open spec fn spec_index(&self) -> usize {
        self.1
    }

    fn default() -> (r: Self) {
        FailureId(SkillId::default(), 0)
    }

    fn index(&self) -> (r: usize) {
        self.1
    }
}

impl FailureId {
    /// The skill that owns the failure.
    pub fn skill(&self) -> (r: SkillId)
        ensures
            r == self.0,
    {
        self.0
    }
}

impl TerminateId for FailureId {
}

/// A way in which a skill ends well.
pub type Success = Terminate<SuccessId>;

/// A way in which a skill ends badly.
pub type Failure = Terminate<FailureId>;

/// Mathematical model of a [`Terminate`].
pub struct TerminateView<I> {
    pub id: I,
    pub name: Seq<char>,
    pub postconditions: Seq<PostconditionView>,
    pub effects: Seq<EffectView>,
    pub position: Option<PositionView>,
}

/// A way in which a skill ends: the postconditions that then hold and the
/// effects that then apply.
#[derive(Debug)]
pub struct Terminate<I: TerminateId> {
    id: I,
    name: String,
    postconditions: Vec<Postcondition>,
    effects: Vec<Effect>,
    position: Option<Position>,
}

impl<I: TerminateId> Clone for Terminate<I> {
    fn clone(&self) -> (r: Self)
        ensures
            r@ == self@,
    {
        let postconditions = self.postconditions.clone();
        proof {
            assert(postconditions.deep_view() =~= self.postconditions.deep_view());
        }
        let effects = self.effects.clone();
        proof {
            assert(effects.deep_view() =~= self.effects.deep_view());
        }
        Terminate {
            id: self.id,
            name: self.name.clone(),
            postconditions,
            effects,
            position: self.position.clone(),
        }
    }
}

impl<I: TerminateId> View for Terminate<I> {
    type V = TerminateView<I>;

    closed spec fn view(&self) -> TerminateView<I> {
        TerminateView {
            id: self.id,
            name: self.name@,
            postconditions: self.postconditions.deep_view(),
            effects: self.effects.deep_view(),
            position: self.position.deep_view(),
        }
    }
}

impl<I: TerminateId> DeepView for Terminate<I> {
    type V = TerminateView<I>;

    open spec fn deep_view(&self) -> TerminateView<I> {
        self@
    }
}

impl<I> TerminateView<I> {
    /// The names of resources that are used and not resolved, each with the
    /// place of its use.
    pub open spec fn resource_uses(self) -> Set<NamingView> {
        all_resource_uses::<Effect>(self.effects)
            + all_resource_uses::<Postcondition>(self.postconditions)
    }

    /// The names of states that are used and not resolved, each with the
    /// place of its use.
    pub open spec fn state_uses(self) -> Set<NamingView> {
        all_state_uses::<Effect>(self.effects)
            + all_state_uses::<Postcondition>(self.postconditions)
    }

    /// The outcome `after` is this one, but that names may have been resolved,
    /// each to the identifier that its namespace among `spaces` gives it.
    pub open spec fn kept(self, after: TerminateView<I>, spaces: Namespaces) -> bool {
        &&& after.id == self.id
        &&& after.name == self.name
        &&& after.position == self.position
        &&& all_kept::<Postcondition>(self.postconditions, after.postconditions, spaces)
        &&& all_kept::<Effect>(self.effects, after.effects, spaces)
    }

    /// Every resolved reference to a resource stands for one of `ids`.
    pub open spec fn resources_among(self, ids: Set<ResourceId>) -> bool {
        &&& all_resources_among::<Effect>(self.effects, ids)
        &&& all_resources_among::<Postcondition>(self.postconditions, ids)
    }

    /// Every resolved reference to a state stands for one of `ids`.
    pub open spec fn states_among(self, ids: Set<StateId>) -> bool {
        &&& all_states_among::<Effect>(self.effects, ids)
        &&& all_states_among::<Postcondition>(self.postconditions, ids)
    }

    /// Every reference to a resource is resolved.
    pub open spec fn resources_resolved(self) -> bool {
        &&& all_resources_resolved::<Effect>(self.effects)
        &&& all_resources_resolved::<Postcondition>(self.postconditions)
    }

    /// Every reference to a state is resolved.
    pub open spec fn states_resolved(self) -> bool {
        &&& all_states_resolved::<Effect>(self.effects)
        &&& all_states_resolved::<Postcondition>(self.postconditions)
    }

    /// The outcome after the resource pass: first the effects, then the
    /// postconditions, each in order.
    pub open spec fn resolve_resource(self, map: Map<Seq<char>, ResourceId>) -> Result<
        TerminateView<I>,
        RlErrorView,
    > {
        match resource_pass_all::<Effect>(self.effects, map) {
            Err(e) => Err(e),
            Ok(effects) => match resource_pass_all::<Postcondition>(self.postconditions, map) {
                Err(e) => Err(e),
                Ok(postconditions) => Ok(TerminateView { effects, postconditions, ..self }),
            },
        }
    }

    /// The outcome after the state pass: first the effects, then the
    /// postconditions, each in order.
    pub open spec fn resolve_state(self, map: Map<Seq<char>, StateId>) -> Result<
        TerminateView<I>,
        RlErrorView,
    > {
        match state_pass_all::<Effect>(self.effects, map) {
            Err(e) => Err(e),
            Ok(effects) => match state_pass_all::<Postcondition>(self.postconditions, map) {
                Err(e) => Err(e),
                Ok(postconditions) => Ok(TerminateView { effects, postconditions, ..self }),
            },
        }
    }
}

impl<I: TerminateId> Terminate<I> {
    /// An outcome named `name`, declared at `position`, not yet inserted.
    pub fn new(
        name: &str,
        postconditions: Vec<Postcondition>,
        effects: Vec<Effect>,
        position: Option<Position>,
    ) -> (r: Self)
        ensures
            r@ == (TerminateView {
                id: I::spec_default(),
                name: name@,
                postconditions: postconditions.deep_view(),
                effects: effects.deep_view(),
                position: position.deep_view(),
            }),
    {
        Terminate {
            id: I::default(),
            name: String::from_str(name),
            postconditions,
            effects,
            position,
        }
    }

    pub fn postconditions(&self) -> (r: &Vec<Postcondition>)
        ensures
            r.deep_view() == self@.postconditions,
    {
        &self.postconditions
    }

    pub fn effects(&self) -> (r: &Vec<Effect>)
        ensures
            r.deep_view() == self@.effects,
    {
        &self.effects
    }

    /// Resolves the references to resources, first in the effects, then in
    /// the postconditions.
    pub fn resolve_resource(&mut self, map: &StringHashMap<ResourceId>) -> (r: Result<(), RlError>)
        ensures
            in_place(old(self)@.resolve_resource(map@), final(self)@, r),
            old(self)@.kept(final(self)@, Namespaces::only_resources(map@)),
    {
        proof {
            Terminate::<I>::lemma_kept(
                old(self)@,
                old(self)@,
                old(self)@,
                Namespaces::only_resources(map@),
                Namespaces::only_resources(map@),
            );
        }
        match resolve_resource_all(&mut self.effects, map) {
            Ok(()) => {},
            Err(e) => {
                return Err(e);
            },
        }
        resolve_resource_all(&mut self.postconditions, map)
    }

    /// Resolves the references to states, first in the effects, then in the
    /// postconditions.
    pub fn resolve_state(&mut self, map: &StringHashMap<StateId>) -> (r: Result<(), RlError>)
        ensures
            in_place(old(self)@.resolve_state(map@), final(self)@, r),
            old(self)@.kept(final(self)@, Namespaces::only_states(map@)),
    {
        proof {
            Terminate::<I>::lemma_kept(
                old(self)@,
                old(self)@,
                old(self)@,
                Namespaces::only_states(map@),
                Namespaces::only_states(map@),
            );
        }
        match resolve_state_all(&mut self.effects, map) {
            Ok(()) => {},
            Err(e) => {
                return Err(e);
            },
        }
        resolve_state_all(&mut self.postconditions, map)
    }
}

impl<I: TerminateId> Named<I> for Terminate<I> {
    open spec fn spec_id(&self) -> I {
        self@.id
    }

    open spec fn spec_name(&self) -> Seq<char> {
        self@.name
    }

    open spec fn spec_position(&self) -> Option<PositionView> {
        self@.position
    }

    fn id(&self) -> (r: I) {
        self.id
    }

    fn set_id(&mut self, id: I)
        ensures
            final(self)@ == (TerminateView { id, ..old(self)@ }),
    {
        self.id = id;
    }

    fn name(&self) -> (r: &str) {
        self.name.as_str()
    }

    fn position(&self) -> (r: Option<Position>) {
        self.position.clone()
    }
}

impl<I: TerminateId> Kept for Terminate<I> {
    open spec fn kept(
        before: TerminateView<I>,
        after: TerminateView<I>,
        spaces: Namespaces,
    ) -> bool {
        before.kept(after, spaces)
    }

    proof fn lemma_kept(
        a: TerminateView<I>,
        b: TerminateView<I>,
        c: TerminateView<I>,
        spaces: Namespaces,
        wider: Namespaces,
    ) {
        lemma_all_kept::<Postcondition>(
            a.postconditions,
            b.postconditions,
            c.postconditions,
            spaces,
            wider,
        );
        lemma_all_kept::<Effect>(a.effects, b.effects, c.effects, spaces, wider);
    }
}

impl<I: TerminateId> Resolvable for Terminate<I> {
    open spec fn resource_pass(v: TerminateView<I>, map: Map<Seq<char>, ResourceId>) -> Result<
        TerminateView<I>,
        RlErrorView,
    > {
        v.resolve_resource(map)
    }

    open spec fn state_pass(v: TerminateView<I>, map: Map<Seq<char>, StateId>) -> Result<
        TerminateView<I>,
        RlErrorView,
    > {
        v.resolve_state(map)
    }

    open spec fn resources_resolved(v: TerminateView<I>) -> bool {
        v.resources_resolved()
    }

    open spec fn states_resolved(v: TerminateView<I>) -> bool {
        v.states_resolved()
    }

    open spec fn resources_among(v: TerminateView<I>, ids: Set<ResourceId>) -> bool {
        v.resources_among(ids)
    }

    open spec fn states_among(v: TerminateView<I>, ids: Set<StateId>) -> bool {
        v.states_among(ids)
    }

    proof fn lemma_among(
        v: TerminateView<I>,
        resources: Map<Seq<char>, ResourceId>,
        states: Map<Seq<char>, StateId>,
        resource_ids: Set<ResourceId>,
        state_ids: Set<StateId>,
    ) {
        lemma_among_all::<Effect>(v.effects, resources, states, resource_ids, state_ids);
        lemma_among_all::<Postcondition>(
            v.postconditions,
            resources,
            states,
            resource_ids,
            state_ids,
        );
    }

    proof fn lemma_passes(
        v: TerminateView<I>,
        resources: Map<Seq<char>, ResourceId>,
        states: Map<Seq<char>, StateId>,
    ) {
        lemma_passes_all::<Effect>(v.effects, resources, states);
        lemma_passes_all::<Postcondition>(v.postconditions, resources, states);
    }

    proof fn lemma_pass_kept(
        v: TerminateView<I>,
        resources: Map<Seq<char>, ResourceId>,
        states: Map<Seq<char>, StateId>,
    ) {
        Terminate::<I>::lemma_kept(
            v,
            v,
            v,
            Namespaces::only_resources(resources),
            Namespaces::only_resources(resources),
        );
        Terminate::<I>::lemma_kept(
            v,
            v,
            v,
            Namespaces::only_states(states),
            Namespaces::only_states(states),
        );
        lemma_pass_kept_all::<Effect>(v.effects, resources, states);
        lemma_pass_kept_all::<Postcondition>(v.postconditions, resources, states);
    }

    open spec fn resource_uses(v: TerminateView<I>) -> Set<NamingView> {
        v.resource_uses()
    }

    open spec fn state_uses(v: TerminateView<I>) -> Set<NamingView> {
        v.state_uses()
    }

    proof fn lemma_uses(
        v: TerminateView<I>,
        resources: Map<Seq<char>, ResourceId>,
        states: Map<Seq<char>, StateId>,
    ) {
        lemma_uses_all::<Effect>(v.effects, resources, states);
        lemma_uses_all::<Postcondition>(v.postconditions, resources, states);
        if resource_pass_all::<Effect>(v.effects, resources) is Err {
            lemma_unknown_among(
                all_resource_uses::<Effect>(v.effects),
                v.resource_uses(),
                resources,
                resource_info(),
                resource_pass_all::<Effect>(v.effects, resources)->Err_0,
            );
        } else if resource_pass_all::<Postcondition>(v.postconditions, resources) is Err {
            lemma_unknown_among(
                all_resource_uses::<Postcondition>(v.postconditions),
                v.resource_uses(),
                resources,
                resource_info(),
                resource_pass_all::<Postcondition>(v.postconditions, resources)->Err_0,
            );
        }
        if state_pass_all::<Effect>(v.effects, states) is Err {
            lemma_unknown_among(
                all_state_uses::<Effect>(v.effects),
                v.state_uses(),
                states,
                state_info(),
                state_pass_all::<Effect>(v.effects, states)->Err_0,
            );
        } else if state_pass_all::<Postcondition>(v.postconditions, states) is Err {
            lemma_unknown_among(
                all_state_uses::<Postcondition>(v.postconditions),
                v.state_uses(),
                states,
                state_info(),
                state_pass_all::<Postcondition>(v.postconditions, states)->Err_0,
            );
        }
    }

    fn resolve_resource(&mut self, map: &StringHashMap<ResourceId>) -> (r: Result<(), RlError>) {
        Terminate::<I>::resolve_resource(self, map)
    }

    fn resolve_state(&mut self, map: &StringHashMap<StateId>) -> (r: Result<(), RlError>) {
        Terminate::<I>::resolve_state(self, map)
    }
}

} // verus!
