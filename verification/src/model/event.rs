//! Events: reactive rules that stand apart from any skill.

use crate::model::effect::{Effect, EffectView};
use crate::model::expr::{resource_info, state_info, Expr, ExprView};
use crate::model::identity::{Id, Named, NamingView};
use crate::model::reference::lemma_unknown_among;
use crate::model::resolve::{
    all_kept, all_resource_uses, all_resources_among, all_resources_resolved, all_state_uses,
    all_states_among, all_states_resolved, lemma_all_kept, lemma_among_all, lemma_among_opt,
    lemma_opt_kept, lemma_pass_kept_all, lemma_pass_kept_opt, lemma_passes_all, lemma_passes_opt,
    lemma_uses_all, lemma_uses_opt, opt_kept, opt_resource_uses, opt_resources_among,
    opt_resources_resolved, opt_state_uses, opt_states_among, opt_states_resolved,
    resolve_resource_all, resolve_resource_opt, resolve_state_all, resolve_state_opt,
    resource_pass_all, resource_pass_opt, state_pass_all, state_pass_opt, Kept, Namespaces,
    Resolvable,
};
use crate::model::resource::ResourceId;
use crate::model::state::StateId;
use crate::parser::error::{in_place, RlError, RlErrorView};
use crate::parser::position::{Position, PositionView};
use vstd::hash_map::StringHashMap;
use vstd::prelude::*;
use vstd::string::StringExecFns;

verus! {

/// Identifier of an event: its index among the events of the skillset.
#[derive(Clone, Copy, PartialEq, Eq, Structural, Debug, Hash)]
pub struct EventId(pub usize);

impl Id for EventId {
    open spec fn spec_default() -> Self {
        EventId(0)
    }

    open spec fn spec_index(&self) -> usize {
        self.0
    }

    fn default() -> (r: Self) {
        EventId(0)
    }

    fn index(&self) -> (r: usize) {
        self.0
    }
}

/// Mathematical model of an [`Event`].
pub struct EventView {
    pub id: EventId,
    pub name: Seq<char>,
    pub guard: Option<ExprView>,
    pub effects: Seq<EffectView>,
    pub position: Option<PositionView>,
}

/// An event: when it occurs and its guard holds, its effects apply.
#[derive(Debug)]
pub struct Event {
    id: EventId,
    name: String,
    guard: Option<Expr>,
    effects: Vec<Effect>,
    position: Option<Position>,
}

impl Clone for Event {
    fn clone(&self) -> (r: Self)
        ensures
            r@ == self@,
    {
        let effects = self.effects.clone();
        proof {
            assert(effects.deep_view() =~= self.effects.deep_view());
        }
        Event {
            id: self.id,
            name: self.name.clone(),
            guard: self.guard.clone(),
            effects,
            position: self.position.clone(),
        }
    }
}

impl View for Event {
    type V = EventView;

    closed spec fn view(&self) -> EventView {
        EventView {
            id: self.id,
            name: self.name@,
            guard: self.guard.deep_view(),
            effects: self.effects.deep_view(),
            position: self.position.deep_view(),
        }
    }
}

impl DeepView for Event {
    type V = EventView;

    open spec fn deep_view(&self) -> EventView {
        self@
    }
}

impl EventView {
    /// The names of resources that are used and not resolved, each with the
    /// place of its use.
    pub open spec fn resource_uses(self) -> Set<NamingView> {
        opt_resource_uses::<Expr>(self.guard) + all_resource_uses::<Effect>(self.effects)
    }

    /// The names of states that are used and not resolved, each with the
    /// place of its use.
    pub open spec fn state_uses(self) -> Set<NamingView> {
        opt_state_uses::<Expr>(self.guard) + all_state_uses::<Effect>(self.effects)
    }

    /// The event `after` is this one, but that names may have been resolved,
    /// each to the identifier that its namespace among `spaces` gives it.
    pub open spec fn kept(self, after: EventView, spaces: Namespaces) -> bool {
        &&& after.id == self.id
        &&& after.name == self.name
        &&& after.position == self.position
        &&& opt_kept::<Expr>(self.guard, after.guard, spaces)
        &&& all_kept::<Effect>(self.effects, after.effects, spaces)
    }

    /// Every resolved reference to a resource stands for one of `ids`.
    pub open spec fn resources_among(self, ids: Set<ResourceId>) -> bool {
        &&& opt_resources_among::<Expr>(self.guard, ids)
        &&& all_resources_among::<Effect>(self.effects, ids)
    }

    /// Every resolved reference to a state stands for one of `ids`.
    pub open spec fn states_among(self, ids: Set<StateId>) -> bool {
        &&& opt_states_among::<Expr>(self.guard, ids)
        &&& all_states_among::<Effect>(self.effects, ids)
    }

    /// Every reference to a resource is resolved.
    pub open spec fn resources_resolved(self) -> bool {
        &&& opt_resources_resolved::<Expr>(self.guard)
        &&& all_resources_resolved::<Effect>(self.effects)
    }

    /// Every reference to a state is resolved.
    pub open spec fn states_resolved(self) -> bool {
        &&& opt_states_resolved::<Expr>(self.guard)
        &&& all_states_resolved::<Effect>(self.effects)
    }

    /// The event after the resource pass: first the guard, if there is one,
    /// then the effects in order.
    pub open spec fn resolve_resource(self, map: Map<Seq<char>, ResourceId>) -> Result<
        EventView,
        RlErrorView,
    > {
        match resource_pass_opt::<Expr>(self.guard, map) {
            Err(e) => Err(e),
            Ok(guard) => match resource_pass_all::<Effect>(self.effects, map) {
                Err(e) => Err(e),
                Ok(effects) => Ok(EventView { guard, effects, ..self }),
            },
        }
    }

    /// The event after the state pass: first the guard, if there is one, then
    /// the effects in order.
    pub open spec fn resolve_state(self, map: Map<Seq<char>, StateId>) -> Result<
        EventView,
        RlErrorView,
    > {
        match state_pass_opt::<Expr>(self.guard, map) {
            Err(e) => Err(e),
            Ok(guard) => match state_pass_all::<Effect>(self.effects, map) {
                Err(e) => Err(e),
                Ok(effects) => Ok(EventView { guard, effects, ..self }),
            },
        }
    }
}

impl Event {
    /// An event named `name`, declared at `position`, not yet inserted.
    pub fn new(
        name: &str,
        guard: Option<Expr>,
        effects: Vec<Effect>,
        position: Option<Position>,
    ) -> (r:
        Self)
        ensures
            r@ == (EventView {
                id: EventId::spec_default(),
                name: name@,
                guard: guard.deep_view(),
                effects: effects.deep_view(),
                position: position.deep_view(),
            }),
    {
        Event { id: EventId::default(), name: String::from_str(name), guard, effects, position }
    }

    pub fn guard(&self) -> (r: &Option<Expr>)
        ensures
            r.deep_view() == self@.guard,
    {
        &self.guard
    }

    pub fn effects(&self) -> (r: &Vec<Effect>)
        ensures
            r.deep_view() == self@.effects,
    {
        &self.effects
    }

    /// Resolves the references to resources, first in the guard, then in the
    /// effects.
    pub fn resolve_resource(&mut self, map: &StringHashMap<ResourceId>) -> (r: Result<(), RlError>)
        ensures
            in_place(old(self)@.resolve_resource(map@), final(self)@, r),
            old(self)@.kept(final(self)@, Namespaces::only_resources(map@)),
    {
        proof {
            Event::lemma_kept(
                old(self)@,
                old(self)@,
                old(self)@,
                Namespaces::only_resources(map@),
                Namespaces::only_resources(map@),
            );
        }
        match resolve_resource_opt(&mut self.guard, map) {
            Ok(()) => {},
            Err(e) => {
                return Err(e);
            },
        }
        resolve_resource_all(&mut self.effects, map)
    }

    /// Resolves the references to states, first in the guard, then in the
    /// effects.
    pub fn resolve_state(&mut self, map: &StringHashMap<StateId>) -> (r: Result<(), RlError>)
        ensures
            in_place(old(self)@.resolve_state(map@), final(self)@, r),
            old(self)@.kept(final(self)@, Namespaces::only_states(map@)),
    {
        proof {
            Event::lemma_kept(
                old(self)@,
                old(self)@,
                old(self)@,
                Namespaces::only_states(map@),
                Namespaces::only_states(map@),
            );
        }
        match resolve_state_opt(&mut self.guard, map) {
            Ok(()) => {},
            Err(e) => {
                return Err(e);
            },
        }
        resolve_state_all(&mut self.effects, map)
    }
}

impl Named<EventId> for Event {
    open spec fn spec_id(&self) -> EventId {
        self@.id
    }

    open spec fn spec_name(&self) -> Seq<char> {
        self@.name
    }

    open spec fn spec_position(&self) -> Option<PositionView> {
        self@.position
    }

    fn id(&self) -> (r: EventId) {
        self.id
    }

    fn set_id(&mut self, id: EventId)
        ensures
            final(self)@ == (EventView { id, ..old(self)@ }),
    {
        self.id = id;
    }

    fn name(&self) -> (r: &str) {
        self.name.as_str()
    }

    fn position(&self) -> (r: Option<Position>) {
        self.position.clone()
    }
}

impl Kept for Event {
    open spec fn kept(before: EventView, after: EventView, spaces: Namespaces) -> bool {
        before.kept(after, spaces)
    }

    proof fn lemma_kept(
        a: EventView,
        b: EventView,
        c: EventView,
        spaces: Namespaces,
        wider: Namespaces,
    ) {
        lemma_opt_kept::<Expr>(a.guard, b.guard, c.guard, spaces, wider);
        lemma_all_kept::<Effect>(a.effects, b.effects, c.effects, spaces, wider);
    }
}

impl Resolvable for Event {
    open spec fn resource_pass(v: EventView, map: Map<Seq<char>, ResourceId>) -> Result<
        EventView,
        RlErrorView,
    > {
        v.resolve_resource(map)
    }

    open spec fn state_pass(v: EventView, map: Map<Seq<char>, StateId>) -> Result<
        EventView,
        RlErrorView,
    > {
        v.resolve_state(map)
    }

    open spec fn resources_resolved(v: EventView) -> bool {
        v.resources_resolved()
    }

    open spec fn states_resolved(v: EventView) -> bool {
        v.states_resolved()
    }

    open spec fn resources_among(v: EventView, ids: Set<ResourceId>) -> bool {
        v.resources_among(ids)
    }

    open spec fn states_among(v: EventView, ids: Set<StateId>) -> bool {
        v.states_among(ids)
    }

    proof fn lemma_among(
        v: EventView,
        resources: Map<Seq<char>, ResourceId>,
        states: Map<Seq<char>, StateId>,
        resource_ids: Set<ResourceId>,
        state_ids: Set<StateId>,
    ) {
        lemma_among_opt::<Expr>(v.guard, resources, states, resource_ids, state_ids);
        lemma_among_all::<Effect>(v.effects, resources, states, resource_ids, state_ids);
    }

    proof fn lemma_passes(
        v: EventView,
        resources: Map<Seq<char>, ResourceId>,
        states: Map<Seq<char>, StateId>,
    ) {
        lemma_passes_opt::<Expr>(v.guard, resources, states);
        lemma_passes_all::<Effect>(v.effects, resources, states);
    }

    proof fn lemma_pass_kept(
        v: EventView,
        resources: Map<Seq<char>, ResourceId>,
        states: Map<Seq<char>, StateId>,
    ) {
        Event::lemma_kept(
            v,
            v,
            v,
            Namespaces::only_resources(resources),
            Namespaces::only_resources(resources),
        );
        Event::lemma_kept(
            v,
            v,
            v,
            Namespaces::only_states(states),
            Namespaces::only_states(states),
        );
        lemma_pass_kept_opt::<Expr>(v.guard, resources, states);
        lemma_pass_kept_all::<Effect>(v.effects, resources, states);
    }

    open spec fn resource_uses(v: EventView) -> Set<NamingView> {
        v.resource_uses()
    }

    open spec fn state_uses(v: EventView) -> Set<NamingView> {
        v.state_uses()
    }

    proof fn lemma_uses(
        v: EventView,
        resources: Map<Seq<char>, ResourceId>,
        states: Map<Seq<char>, StateId>,
    ) {
        lemma_uses_opt::<Expr>(v.guard, resources, states);
        lemma_uses_all::<Effect>(v.effects, resources, states);
        if resource_pass_opt::<Expr>(v.guard, resources) is Err {
            lemma_unknown_among(
                opt_resource_uses::<Expr>(v.guard),
                v.resource_uses(),
                resources,
                resource_info(),
                resource_pass_opt::<Expr>(v.guard, resources)->Err_0,
            );
        } else if resource_pass_all::<Effect>(v.effects, resources) is Err {
            lemma_unknown_among(
                all_resource_uses::<Effect>(v.effects),
                v.resource_uses(),
                resources,
                resource_info(),
                resource_pass_all::<Effect>(v.effects, resources)->Err_0,
            );
        }
        if state_pass_opt::<Expr>(v.guard, states) is Err {
            lemma_unknown_among(
                opt_state_uses::<Expr>(v.guard),
                v.state_uses(),
                states,
                state_info(),
                state_pass_opt::<Expr>(v.guard, states)->Err_0,
            );
        } else if state_pass_all::<Effect>(v.effects, states) is Err {
            lemma_unknown_among(
                all_state_uses::<Effect>(v.effects),
                v.state_uses(),
                states,
                state_info(),
                state_pass_all::<Effect>(v.effects, states)->Err_0,
            );
        }
    }

    fn resolve_resource(&mut self, map: &StringHashMap<ResourceId>) -> (r: Result<(), RlError>) {
        Event::resolve_resource(self, map)
    }

    fn resolve_state(&mut self, map: &StringHashMap<StateId>) -> (r: Result<(), RlError>) {
        Event::resolve_state(self, map)
    }
}

} // verus!
