//! Invariants of a skill: guards that must hold while the skill runs.

use crate::model::effect::{Effect, EffectView};
use crate::model::expr::{resource_info, state_info, Expr, ExprView};
use crate::model::identity::{Id, Named, NamingView};
use crate::model::reference::lemma_unknown_among;
use crate::model::resolve::{
    all_kept, all_resource_uses, all_resources_among, all_resources_resolved, all_state_uses,
    all_states_among, all_states_resolved, lemma_all_kept, lemma_among_all, lemma_pass_kept_all,
    lemma_passes_all, lemma_uses_all, resolve_resource_all, resolve_state_all, resource_pass_all,
    state_pass_all, Kept, Namespaces, Resolvable,
};
use crate::model::resource::ResourceId;
use crate::model::skill::SkillId;
use crate::model::state::StateId;
use crate::parser::error::{in_place, RlError, RlErrorView};
use crate::parser::position::{Position, PositionView};
use vstd::hash_map::StringHashMap;
use vstd::prelude::*;
use vstd::string::StringExecFns;

verus! {

/// Identifier of an invariant: the skill that owns it, and its index among
/// that skill's invariants.
#[derive(Clone, Copy, PartialEq, Eq, Structural, Debug, Hash)]
pub struct InvariantId(pub SkillId, pub usize);

impl Id for InvariantId {
    open spec fn spec_default() -> Self {
        InvariantId(SkillId::spec_default(), 0)
    }

    open spec fn spec_index(&self) -> usize {
        self.1
    }

    fn default() -> (r: Self) {
        InvariantId(SkillId::default(), 0)
    }

    fn index(&self) -> (r: usize) {
        self.1
    }
}

impl InvariantId {
    /// The skill that owns the invariant.
    pub fn skill(&self) -> (r: SkillId)
        ensures
            r == self.0,
    {
        self.0
    }
}

/// Mathematical model of an [`Invariant`].
pub struct InvariantView {
    pub id: InvariantId,
    pub name: Seq<char>,
    pub guard: ExprView,
    pub effects: Seq<EffectView>,
    pub position: Option<PositionView>,
}

/// An invariant: while the skill runs the guard must hold; when it breaks,
/// the effects apply.
#[derive(Debug)]
pub struct Invariant {
    id: InvariantId,
    name: String,
    guard: Expr,
    effects: Vec<Effect>,
    position: Option<Position>,
}

impl Clone for Invariant {
    fn clone(&self) -> (r: Self)
        ensures
            r@ == self@,
    {
        let effects = self.effects.clone();
        proof {
            assert(effects.deep_view() =~= self.effects.deep_view());
        }
        Invariant {
            id: self.id,
            name: self.name.clone(),
            guard: self.guard.clone(),
            effects,
            position: self.position.clone(),
        }
    }
}

impl View for Invariant {
    type V = InvariantView;

    closed spec fn view(&self) -> InvariantView {
        InvariantView {
            id: self.id,
            name: self.name@,
            guard: self.guard@,
            effects: self.effects.deep_view(),
            position: self.position.deep_view(),
        }
    }
}

impl DeepView for Invariant {
    type V = InvariantView;

    open spec fn deep_view(&self) -> InvariantView {
        self@
    }
}

impl InvariantView {
    /// The names of resources that are used and not resolved, each with the
    /// place of its use.
    pub open spec fn resource_uses(self) -> Set<NamingView> {
        self.guard.resource_uses() + all_resource_uses::<Effect>(self.effects)
    }

    /// The names of states that are used and not resolved, each with the
    /// place of its use.
    pub open spec fn state_uses(self) -> Set<NamingView> {
        self.guard.state_uses() + all_state_uses::<Effect>(self.effects)
    }

    /// The invariant `after` is this one, but that names may have been
    /// resolved, each to the identifier that its namespace among `spaces`
    /// gives it.
    pub open spec fn kept(self, after: InvariantView, spaces: Namespaces) -> bool {
        &&& after.id == self.id
        &&& after.name == self.name
        &&& after.position == self.position
        &&& self.guard.kept(after.guard, spaces)
        &&& all_kept::<Effect>(self.effects, after.effects, spaces)
    }

    /// Every resolved reference to a resource stands for one of `ids`.
    pub open spec fn resources_among(self, ids: Set<ResourceId>) -> bool {
        &&& self.guard.resources_among(ids)
        &&& all_resources_among::<Effect>(self.effects, ids)
    }

    /// Every resolved reference to a state stands for one of `ids`.
    pub open spec fn states_among(self, ids: Set<StateId>) -> bool {
        &&& self.guard.states_among(ids)
        &&& all_states_among::<Effect>(self.effects, ids)
    }

    /// Every reference to a resource is resolved.
    pub open spec fn resources_resolved(self) -> bool {
        &&& self.guard.resources_resolved()
        &&& all_resources_resolved::<Effect>(self.effects)
    }

    /// Every reference to a state is resolved.
    pub open spec fn states_resolved(self) -> bool {
        &&& self.guard.states_resolved()
        &&& all_states_resolved::<Effect>(self.effects)
    }

    /// The invariant after the resource pass: first the guard, then the
    /// effects in order. The first reference that fails gives the error.
    pub open spec fn resolve_resource(self, map: Map<Seq<char>, ResourceId>) -> Result<
        InvariantView,
        RlErrorView,
    > {
        match self.guard.resolve_resource(map) {
            Err(e) => Err(e),
            Ok(guard) => match resource_pass_all::<Effect>(self.effects, map) {
                Err(e) => Err(e),
                Ok(effects) => Ok(InvariantView { guard, effects, ..self }),
            },
        }
    }

    /// The invariant after the state pass: first the guard, then the effects
    /// in order. The first reference that fails gives the error.
    pub open spec fn resolve_state(self, map: Map<Seq<char>, StateId>) -> Result<
        InvariantView,
        RlErrorView,
    > {
        match self.guard.resolve_state(map) {
            Err(e) => Err(e),
            Ok(guard) => match state_pass_all::<Effect>(self.effects, map) {
                Err(e) => Err(e),
                Ok(effects) => Ok(InvariantView { guard, effects, ..self }),
            },
        }
    }
}

impl Invariant {
    /// An invariant named `name`, declared at `position`, not yet inserted.
    pub fn new(name: &str, guard: Expr, effects: Vec<Effect>, position: Option<Position>) -> (r:
        Self)
        ensures
            r@ == (InvariantView {
                id: InvariantId::spec_default(),
                name: name@,
                guard: guard@,
                effects: effects.deep_view(),
                position: position.deep_view(),
            }),
    {
        Invariant {
            id: InvariantId::default(),
            name: String::from_str(name),
            guard,
            effects,
            position,
        }
    }

    pub fn guard(&self) -> (r: &Expr)
        ensures
            r@ == self@.guard,
    {
        &self.guard
    }

    pub fn effects(&self) -> (r: &Vec<Effect>)
        ensures
            r.deep_view() == self@.effects,
    {
        &self.effects
    }

    pub fn resolve_resource(&mut self, map: &StringHashMap<ResourceId>) -> (r: Result<(), RlError>)
        ensures
            in_place(old(self)@.resolve_resource(map@), final(self)@, r),
            old(self)@.kept(final(self)@, Namespaces::only_resources(map@)),
    {
        proof {
            Invariant::lemma_kept(
                old(self)@,
                old(self)@,
                old(self)@,
                Namespaces::only_resources(map@),
                Namespaces::only_resources(map@),
            );
        }
        match self.guard.resolve_resource(map) {
            Ok(()) => {},
            Err(e) => {
                return Err(e);
            },
        }
        resolve_resource_all(&mut self.effects, map)
    }

    pub fn resolve_state(&mut self, map: &StringHashMap<StateId>) -> (r: Result<(), RlError>)
        ensures
            in_place(old(self)@.resolve_state(map@), final(self)@, r),
            old(self)@.kept(final(self)@, Namespaces::only_states(map@)),
    {
        proof {
            Invariant::lemma_kept(
                old(self)@,
                old(self)@,
                old(self)@,
                Namespaces::only_states(map@),
                Namespaces::only_states(map@),
            );
        }
        match self.guard.resolve_state(map) {
            Ok(()) => {},
            Err(e) => {
                return Err(e);
            },
        }
        resolve_state_all(&mut self.effects, map)
    }
}

impl Named<InvariantId> for Invariant {
    open spec fn spec_id(&self) -> InvariantId {
        self@.id
    }

    open spec fn spec_name(&self) -> Seq<char> {
        self@.name
    }

    open spec fn spec_position(&self) -> Option<PositionView> {
        self@.position
    }

    fn id(&self) -> (r: InvariantId) {
        self.id
    }

    fn set_id(&mut self, id: InvariantId)
        ensures
            final(self)@ == (InvariantView { id, ..old(self)@ }),
    {
        self.id = id;
    }

    fn name(&self) -> (r: &str) {
        self.name.as_str()
    }

    fn position(&self) -> (r: Option<Position>) {
        self.position.clone()
    }
}

impl Kept for Invariant {
    open spec fn kept(before: InvariantView, after: InvariantView, spaces: Namespaces) -> bool {
        before.kept(after, spaces)
    }

    proof fn lemma_kept(
        a: InvariantView,
        b: InvariantView,
        c: InvariantView,
        spaces: Namespaces,
        wider: Namespaces,
    ) {
        Expr::lemma_kept(a.guard, b.guard, c.guard, spaces, wider);
        lemma_all_kept::<Effect>(a.effects, b.effects, c.effects, spaces, wider);
    }
}

impl Resolvable for Invariant {
    open spec fn resource_pass(v: InvariantView, map: Map<Seq<char>, ResourceId>) -> Result<
        InvariantView,
        RlErrorView,
    > {
        v.resolve_resource(map)
    }

    open spec fn state_pass(v: InvariantView, map: Map<Seq<char>, StateId>) -> Result<
        InvariantView,
        RlErrorView,
    > {
        v.resolve_state(map)
    }

    open spec fn resources_resolved(v: InvariantView) -> bool {
        v.resources_resolved()
    }

    open spec fn states_resolved(v: InvariantView) -> bool {
        v.states_resolved()
    }

    open spec fn resources_among(v: InvariantView, ids: Set<ResourceId>) -> bool {
        v.resources_among(ids)
    }

    open spec fn states_among(v: InvariantView, ids: Set<StateId>) -> bool {
        v.states_among(ids)
    }

    proof fn lemma_among(
        v: InvariantView,
        resources: Map<Seq<char>, ResourceId>,
        states: Map<Seq<char>, StateId>,
        resource_ids: Set<ResourceId>,
        state_ids: Set<StateId>,
    ) {
        Expr::lemma_among(v.guard, resources, states, resource_ids, state_ids);
        lemma_among_all::<Effect>(v.effects, resources, states, resource_ids, state_ids);
    }

    proof fn lemma_passes(
        v: InvariantView,
        resources: Map<Seq<char>, ResourceId>,
        states: Map<Seq<char>, StateId>,
    ) {
        Expr::lemma_passes(v.guard, resources, states);
        lemma_passes_all::<Effect>(v.effects, resources, states);
    }

    proof fn lemma_pass_kept(
        v: InvariantView,
        resources: Map<Seq<char>, ResourceId>,
        states: Map<Seq<char>, StateId>,
    ) {
        Invariant::lemma_kept(
            v,
            v,
            v,
            Namespaces::only_resources(resources),
            Namespaces::only_resources(resources),
        );
        Invariant::lemma_kept(
            v,
            v,
            v,
            Namespaces::only_states(states),
            Namespaces::only_states(states),
        );
        Expr::lemma_pass_kept(v.guard, resources, states);
        lemma_pass_kept_all::<Effect>(v.effects, resources, states);
    }

    open spec fn resource_uses(v: InvariantView) -> Set<NamingView> {
        v.resource_uses()
    }

    open spec fn state_uses(v: InvariantView) -> Set<NamingView> {
        v.state_uses()
    }

    proof fn lemma_uses(
        v: InvariantView,
        resources: Map<Seq<char>, ResourceId>,
        states: Map<Seq<char>, StateId>,
    ) {
        Expr::lemma_uses(v.guard, resources, states);
        lemma_uses_all::<Effect>(v.effects, resources, states);
        if Expr::resource_pass(v.guard, resources) is Err {
            lemma_unknown_among(
                Expr::resource_uses(v.guard),
                v.resource_uses(),
                resources,
                resource_info(),
                Expr::resource_pass(v.guard, resources)->Err_0,
            );
        } else if resource_pass_all::<Effect>(v.effects, resources) is Err {
            lemma_unknown_among(
                all_resource_uses::<Effect>(v.effects),
                v.resource_uses(),
                resources,
                resource_info(),
                resource_pass_all::<Effect>(v.effects, resources)->Err_0,
            );
        }
        if Expr::state_pass(v.guard, states) is Err {
            lemma_unknown_among(
                Expr::state_uses(v.guard),
                v.state_uses(),
                states,
                state_info(),
                Expr::state_pass(v.guard, states)->Err_0,
            );
        } else if state_pass_all::<Effect>(v.effects, states) is Err {
            lemma_unknown_among(
                all_state_uses::<Effect>(v.effects),
                v.state_uses(),
                states,
                state_info(),
                state_pass_all::<Effect>(v.effects, states)->Err_0,
            );
        }
    }

    fn resolve_resource(&mut self, map: &StringHashMap<ResourceId>) -> (r: Result<(), RlError>) {
        Invariant::resolve_resource(self, map)
    }

    fn resolve_state(&mut self, map: &StringHashMap<StateId>) -> (r: Result<(), RlError>) {
        Invariant::resolve_state(self, map)
    }
}

} // verus!
