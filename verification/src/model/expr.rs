//! Guards: boolean expressions over the states of resources.

use crate::model::identity::NamingView;
use crate::model::reference::{decided, lemma_unknown_among, map_among, Reference, ReferenceView};
use crate::model::resolve::{Kept, Namespaces, Resolvable};
use crate::model::resource::ResourceId;
use crate::model::state::StateId;
use crate::parser::error::{in_place, RlError, RlErrorView};
use vstd::hash_map::StringHashMap;
use vstd::prelude::*;

verus! {

/// Mathematical model of an [`Expr`].
pub enum ExprView {
    True,
    False,
    ResourceEq(ReferenceView<ResourceId>, ReferenceView<StateId>),
    ResourceNe(ReferenceView<ResourceId>, ReferenceView<StateId>),
    Not(Box<ExprView>),
    And(Box<ExprView>, Box<ExprView>),
    Or(Box<ExprView>, Box<ExprView>),
    Implies(Box<ExprView>, Box<ExprView>),
}

/// A guard. Its leaves compare a resource with one of its states.
#[derive(Debug, PartialEq, Eq)]
pub enum Expr {
    True,
    False,
    /// The resource is in the state.
    ResourceEq(Reference<ResourceId>, Reference<StateId>),
    /// The resource is not in the state.
    ResourceNe(Reference<ResourceId>, Reference<StateId>),
    Not(Box<Expr>),
    And(Box<Expr>, Box<Expr>),
    Or(Box<Expr>, Box<Expr>),
    Implies(Box<Expr>, Box<Expr>),
}

impl Expr {
    /// The model of the guard: the same tree over the models of its
    /// references.
    pub open spec fn model(&self) -> ExprView
        decreases self,
    {
        match self {
            Expr::True => ExprView::True,
            Expr::False => ExprView::False,
            Expr::ResourceEq(resource, state) => ExprView::ResourceEq(resource@, state@),
            Expr::ResourceNe(resource, state) => ExprView::ResourceNe(resource@, state@),
            Expr::Not(e) => ExprView::Not(Box::new(e.model())),
            Expr::And(a, b) => ExprView::And(Box::new(a.model()), Box::new(b.model())),
            Expr::Or(a, b) => ExprView::Or(Box::new(a.model()), Box::new(b.model())),
            Expr::Implies(a, b) => ExprView::Implies(Box::new(a.model()), Box::new(b.model())),
        }
    }
}

impl Expr {
    /// A copy of the guard.
    pub fn copy(&self) -> (r: Self)
        ensures
            r == *self,
        decreases self,
    {
        match self {
            Expr::True => Expr::True,
            Expr::False => Expr::False,
            Expr::ResourceEq(resource, state) => Expr::ResourceEq(resource.clone(), state.clone()),
            Expr::ResourceNe(resource, state) => Expr::ResourceNe(resource.clone(), state.clone()),
            Expr::Not(e) => Expr::Not(Box::new(e.copy())),
            Expr::And(a, b) => Expr::And(Box::new(a.copy()), Box::new(b.copy())),
            Expr::Or(a, b) => Expr::Or(Box::new(a.copy()), Box::new(b.copy())),
            Expr::Implies(a, b) => Expr::Implies(Box::new(a.copy()), Box::new(b.copy())),
        }
    }
}

impl Clone for Expr {
    fn clone(&self) -> (r: Self)
        ensures
            r == *self,
    {
        self.copy()
    }
}

impl View for Expr {
    type V = ExprView;

    open spec fn view(&self) -> ExprView {
        self.model()
    }
}

impl DeepView for Expr {
    type V = ExprView;

    open spec fn deep_view(&self) -> ExprView {
        self@
    }
}

/// The outcome of two steps of which the second runs only when the first
/// succeeds.
pub open spec fn both<A, B, E>(first: Result<A, E>, second: Result<B, E>) -> Result<(A, B), E> {
    match first {
        Err(e) => Err(e),
        Ok(a) => match second {
            Err(e) => Err(e),
            Ok(b) => Ok((a, b)),
        },
    }
}

/// What a reference to a resource is called in an error.
pub open spec fn resource_info() -> Seq<char> {
    "resource"@
}

/// What a reference to a state is called in an error.
pub open spec fn state_info() -> Seq<char> {
    "state"@
}

/// What a reference to a type is called in an error.
pub open spec fn type_info() -> Seq<char> {
    "type"@
}

impl ExprView {
    /// The names of resources that the guard uses and has not resolved, each
    /// with the place of its use.
    pub open spec fn resource_uses(self) -> Set<NamingView>
        decreases self,
    {
        match self {
            ExprView::True => Set::empty(),
            ExprView::False => Set::empty(),
            ExprView::ResourceEq(resource, state) => resource.uses(),
            ExprView::ResourceNe(resource, state) => resource.uses(),
            ExprView::Not(e) => e.resource_uses(),
            ExprView::And(a, b) => a.resource_uses() + b.resource_uses(),
            ExprView::Or(a, b) => a.resource_uses() + b.resource_uses(),
            ExprView::Implies(a, b) => a.resource_uses() + b.resource_uses(),
        }
    }

    /// The names of states that the guard uses and has not resolved, each
    /// with the place of its use.
    pub open spec fn state_uses(self) -> Set<NamingView>
        decreases self,
    {
        match self {
            ExprView::True => Set::empty(),
            ExprView::False => Set::empty(),
            ExprView::ResourceEq(resource, state) => state.uses(),
            ExprView::ResourceNe(resource, state) => state.uses(),
            ExprView::Not(e) => e.state_uses(),
            ExprView::And(a, b) => a.state_uses() + b.state_uses(),
            ExprView::Or(a, b) => a.state_uses() + b.state_uses(),
            ExprView::Implies(a, b) => a.state_uses() + b.state_uses(),
        }
    }

    /// When a pass over a guard succeeds. It succeeds exactly when the
    /// namespace knows every name of its kind that the guard uses; else it
    /// fails with the error of a name that the guard uses and the namespace
    /// does not know. A pass that succeeds leaves the names of the other
    /// kind in use.
    pub proof fn lemma_uses(
        self,
        resources: Map<Seq<char>, ResourceId>,
        states: Map<Seq<char>, StateId>,
    )
        ensures
            decided(
                self.resolve_resource(resources),
                self.resource_uses(),
                resources,
                resource_info(),
            ),
            decided(self.resolve_state(states), self.state_uses(), states, state_info()),
            self.resolve_resource(resources) matches Ok(w) ==> w.state_uses() == self.state_uses(),
            self.resolve_state(states) matches Ok(w) ==> w.resource_uses() == self.resource_uses(),
        decreases self,
    {
        match self {
            ExprView::ResourceEq(resource, state) => {
                resource.lemma_uses(resources, resource_info());
                state.lemma_uses(states, state_info());
            },
            ExprView::ResourceNe(resource, state) => {
                resource.lemma_uses(resources, resource_info());
                state.lemma_uses(states, state_info());
            },
            ExprView::Not(e) => {
                e.lemma_uses(resources, states);
            },
            ExprView::And(a, b) => {
                a.lemma_uses(resources, states);
                b.lemma_uses(resources, states);
                if a.resolve_resource(resources) is Err {
                    lemma_unknown_among(
                        a.resource_uses(),
                        self.resource_uses(),
                        resources,
                        resource_info(),
                        a.resolve_resource(resources)->Err_0,
                    );
                } else if b.resolve_resource(resources) is Err {
                    lemma_unknown_among(
                        b.resource_uses(),
                        self.resource_uses(),
                        resources,
                        resource_info(),
                        b.resolve_resource(resources)->Err_0,
                    );
                }
                if a.resolve_state(states) is Err {
                    lemma_unknown_among(
                        a.state_uses(),
                        self.state_uses(),
                        states,
                        state_info(),
                        a.resolve_state(states)->Err_0,
                    );
                } else if b.resolve_state(states) is Err {
                    lemma_unknown_among(
                        b.state_uses(),
                        self.state_uses(),
                        states,
                        state_info(),
                        b.resolve_state(states)->Err_0,
                    );
                }
            },
            ExprView::Or(a, b) => {
                a.lemma_uses(resources, states);
                b.lemma_uses(resources, states);
                if a.resolve_resource(resources) is Err {
                    lemma_unknown_among(
                        a.resource_uses(),
                        self.resource_uses(),
                        resources,
                        resource_info(),
                        a.resolve_resource(resources)->Err_0,
                    );
                } else if b.resolve_resource(resources) is Err {
                    lemma_unknown_among(
                        b.resource_uses(),
                        self.resource_uses(),
                        resources,
                        resource_info(),
                        b.resolve_resource(resources)->Err_0,
                    );
                }
                if a.resolve_state(states) is Err {
                    lemma_unknown_among(
                        a.state_uses(),
                        self.state_uses(),
                        states,
                        state_info(),
                        a.resolve_state(states)->Err_0,
                    );
                } else if b.resolve_state(states) is Err {
                    lemma_unknown_among(
                        b.state_uses(),
                        self.state_uses(),
                        states,
                        state_info(),
                        b.resolve_state(states)->Err_0,
                    );
                }
            },
            ExprView::Implies(a, b) => {
                a.lemma_uses(resources, states);
                b.lemma_uses(resources, states);
                if a.resolve_resource(resources) is Err {
                    lemma_unknown_among(
                        a.resource_uses(),
                        self.resource_uses(),
                        resources,
                        resource_info(),
                        a.resolve_resource(resources)->Err_0,
                    );
                } else if b.resolve_resource(resources) is Err {
                    lemma_unknown_among(
                        b.resource_uses(),
                        self.resource_uses(),
                        resources,
                        resource_info(),
                        b.resolve_resource(resources)->Err_0,
                    );
                }
                if a.resolve_state(states) is Err {
                    lemma_unknown_among(
                        a.state_uses(),
                        self.state_uses(),
                        states,
                        state_info(),
                        a.resolve_state(states)->Err_0,
                    );
                } else if b.resolve_state(states) is Err {
                    lemma_unknown_among(
                        b.state_uses(),
                        self.state_uses(),
                        states,
                        state_info(),
                        b.resolve_state(states)->Err_0,
                    );
                }
            },
            _ => {},
        }
    }

    /// The guard `after` is this one, but that names may have been resolved,
    /// each to the identifier that its namespace among `spaces` gives it: the
    /// same tree, with each reference kept.
    pub open spec fn kept(self, after: ExprView, spaces: Namespaces) -> bool
        decreases self,
    {
        match (self, after) {
            (ExprView::True, ExprView::True) => true,
            (ExprView::False, ExprView::False) => true,
            (ExprView::ResourceEq(r, s), ExprView::ResourceEq(q, t)) => r.kept(q, spaces.resources)
                && s.kept(t, spaces.states),
            (ExprView::ResourceNe(r, s), ExprView::ResourceNe(q, t)) => r.kept(q, spaces.resources)
                && s.kept(t, spaces.states),
            (ExprView::Not(a), ExprView::Not(x)) => a.kept(*x, spaces),
            (ExprView::And(a, b), ExprView::And(x, y)) => a.kept(*x, spaces) && b.kept(*y, spaces),
            (ExprView::Or(a, b), ExprView::Or(x, y)) => a.kept(*x, spaces) && b.kept(*y, spaces),
            (ExprView::Implies(a, b), ExprView::Implies(x, y)) => a.kept(*x, spaces) && b.kept(
                *y,
                spaces,
            ),
            _ => false,
        }
    }

    /// A pass that succeeds keeps the guard: it resolves names against its
    /// namespace and changes nothing else.
    pub proof fn lemma_pass_kept(
        self,
        resources: Map<Seq<char>, ResourceId>,
        states: Map<Seq<char>, StateId>,
    )
        ensures
            self.resolve_resource(resources) matches Ok(w) ==> self.kept(
                w,
                Namespaces::only_resources(resources),
            ),
            self.resolve_state(states) matches Ok(w) ==> self.kept(
                w,
                Namespaces::only_states(states),
            ),
        decreases self,
    {
        match self {
            ExprView::Not(e) => {
                e.lemma_pass_kept(resources, states);
            },
            ExprView::And(a, b) => {
                a.lemma_pass_kept(resources, states);
                b.lemma_pass_kept(resources, states);
            },
            ExprView::Or(a, b) => {
                a.lemma_pass_kept(resources, states);
                b.lemma_pass_kept(resources, states);
            },
            ExprView::Implies(a, b) => {
                a.lemma_pass_kept(resources, states);
                b.lemma_pass_kept(resources, states);
            },
            _ => {},
        }
    }

    /// A guard is kept by doing nothing.
    pub proof fn lemma_kept_same(self, spaces: Namespaces)
        ensures
            self.kept(self, spaces),
        decreases self,
    {
        match self {
            ExprView::Not(a) => {
                a.lemma_kept_same(spaces);
            },
            ExprView::And(a, b) => {
                a.lemma_kept_same(spaces);
                b.lemma_kept_same(spaces);
            },
            ExprView::Or(a, b) => {
                a.lemma_kept_same(spaces);
                b.lemma_kept_same(spaces);
            },
            ExprView::Implies(a, b) => {
                a.lemma_kept_same(spaces);
                b.lemma_kept_same(spaces);
            },
            _ => {},
        }
    }

    /// A guard that is kept under some namespaces is kept under more.
    pub proof fn lemma_kept_wider(self, after: ExprView, spaces: Namespaces, wider: Namespaces)
        requires
            self.kept(after, spaces),
            spaces.within(wider),
        ensures
            self.kept(after, wider),
        decreases self,
    {
        match (self, after) {
            (ExprView::Not(a), ExprView::Not(x)) => {
                a.lemma_kept_wider(*x, spaces, wider);
            },
            (ExprView::And(a, b), ExprView::And(x, y)) => {
                a.lemma_kept_wider(*x, spaces, wider);
                b.lemma_kept_wider(*y, spaces, wider);
            },
            (ExprView::Or(a, b), ExprView::Or(x, y)) => {
                a.lemma_kept_wider(*x, spaces, wider);
                b.lemma_kept_wider(*y, spaces, wider);
            },
            (ExprView::Implies(a, b), ExprView::Implies(x, y)) => {
                a.lemma_kept_wider(*x, spaces, wider);
                b.lemma_kept_wider(*y, spaces, wider);
            },
            _ => {},
        }
    }

    /// A guard that is kept twice is kept.
    pub proof fn lemma_kept_twice(self, between: ExprView, after: ExprView, spaces: Namespaces)
        requires
            self.kept(between, spaces),
            between.kept(after, spaces),
        ensures
            self.kept(after, spaces),
        decreases self,
    {
        match (self, between, after) {
            (ExprView::Not(a), ExprView::Not(m), ExprView::Not(x)) => {
                a.lemma_kept_twice(*m, *x, spaces);
            },
            (ExprView::And(a, b), ExprView::And(m, n), ExprView::And(x, y)) => {
                a.lemma_kept_twice(*m, *x, spaces);
                b.lemma_kept_twice(*n, *y, spaces);
            },
            (ExprView::Or(a, b), ExprView::Or(m, n), ExprView::Or(x, y)) => {
                a.lemma_kept_twice(*m, *x, spaces);
                b.lemma_kept_twice(*n, *y, spaces);
            },
            (ExprView::Implies(a, b), ExprView::Implies(m, n), ExprView::Implies(x, y)) => {
                a.lemma_kept_twice(*m, *x, spaces);
                b.lemma_kept_twice(*n, *y, spaces);
            },
            _ => {},
        }
    }

    /// Every resolved reference to a resource in the guard stands for one
    /// of `ids`.
    pub open spec fn resources_among(self, ids: Set<ResourceId>) -> bool
        decreases self,
    {
        match self {
            ExprView::True => true,
            ExprView::False => true,
            ExprView::ResourceEq(resource, _) => resource.among(ids),
            ExprView::ResourceNe(resource, _) => resource.among(ids),
            ExprView::Not(e) => e.resources_among(ids),
            ExprView::And(a, b) => a.resources_among(ids) && b.resources_among(ids),
            ExprView::Or(a, b) => a.resources_among(ids) && b.resources_among(ids),
            ExprView::Implies(a, b) => a.resources_among(ids) && b.resources_among(ids),
        }
    }

    /// Every resolved reference to a state in the guard stands for one of
    /// `ids`.
    pub open spec fn states_among(self, ids: Set<StateId>) -> bool
        decreases self,
    {
        match self {
            ExprView::True => true,
            ExprView::False => true,
            ExprView::ResourceEq(_, state) => state.among(ids),
            ExprView::ResourceNe(_, state) => state.among(ids),
            ExprView::Not(e) => e.states_among(ids),
            ExprView::And(a, b) => a.states_among(ids) && b.states_among(ids),
            ExprView::Or(a, b) => a.states_among(ids) && b.states_among(ids),
            ExprView::Implies(a, b) => a.states_among(ids) && b.states_among(ids),
        }
    }

    /// What the passes keep on a guard. Where the resolved references stand
    /// for identifiers among `ids`, and the namespace gives no others, they
    /// still do after the pass; and a pass does not touch the references of
    /// the other kind.
    pub proof fn lemma_among(
        self,
        resources: Map<Seq<char>, ResourceId>,
        states: Map<Seq<char>, StateId>,
        resource_ids: Set<ResourceId>,
        state_ids: Set<StateId>,
    )
        ensures
            self.resolve_resource(resources) matches Ok(w) ==> (w.states_among(state_ids)
                <==> self.states_among(state_ids)) && (self.resources_among(resource_ids)
                && map_among(resources, resource_ids) ==> w.resources_among(resource_ids)),
            self.resolve_state(states) matches Ok(w) ==> (w.resources_among(resource_ids)
                <==> self.resources_among(resource_ids)) && (self.states_among(state_ids)
                && map_among(states, state_ids) ==> w.states_among(state_ids)),
        decreases self,
    {
        match self {
            ExprView::Not(e) => {
                e.lemma_among(resources, states, resource_ids, state_ids);
            },
            ExprView::And(a, b) => {
                a.lemma_among(resources, states, resource_ids, state_ids);
                b.lemma_among(resources, states, resource_ids, state_ids);
            },
            ExprView::Or(a, b) => {
                a.lemma_among(resources, states, resource_ids, state_ids);
                b.lemma_among(resources, states, resource_ids, state_ids);
            },
            ExprView::Implies(a, b) => {
                a.lemma_among(resources, states, resource_ids, state_ids);
                b.lemma_among(resources, states, resource_ids, state_ids);
            },
            _ => {},
        }
    }

    /// Every reference to a resource in the guard is resolved.
    pub open spec fn resources_resolved(self) -> bool
        decreases self,
    {
        match self {
            ExprView::True => true,
            ExprView::False => true,
            ExprView::ResourceEq(resource, _) => resource is Resolved,
            ExprView::ResourceNe(resource, _) => resource is Resolved,
            ExprView::Not(e) => e.resources_resolved(),
            ExprView::And(a, b) => a.resources_resolved() && b.resources_resolved(),
            ExprView::Or(a, b) => a.resources_resolved() && b.resources_resolved(),
            ExprView::Implies(a, b) => a.resources_resolved() && b.resources_resolved(),
        }
    }

    /// Every reference to a state in the guard is resolved.
    pub open spec fn states_resolved(self) -> bool
        decreases self,
    {
        match self {
            ExprView::True => true,
            ExprView::False => true,
            ExprView::ResourceEq(_, state) => state is Resolved,
            ExprView::ResourceNe(_, state) => state is Resolved,
            ExprView::Not(e) => e.states_resolved(),
            ExprView::And(a, b) => a.states_resolved() && b.states_resolved(),
            ExprView::Or(a, b) => a.states_resolved() && b.states_resolved(),
            ExprView::Implies(a, b) => a.states_resolved() && b.states_resolved(),
        }
    }

    /// What the passes achieve on a guard. A pass that succeeds leaves every
    /// reference of its kind resolved and does not touch the references of
    /// the other kind; and a guard whose references of a kind are all
    /// resolved passes unchanged, whatever the namespace holds.
    pub proof fn lemma_passes(
        self,
        resources: Map<Seq<char>, ResourceId>,
        states: Map<Seq<char>, StateId>,
    )
        ensures
            self.resolve_resource(resources) matches Ok(w) ==> w.resources_resolved() && (
            w.states_resolved() <==> self.states_resolved()),
            self.resolve_state(states) matches Ok(w) ==> w.states_resolved() && (
            w.resources_resolved() <==> self.resources_resolved()),
            self.resources_resolved() ==> self.resolve_resource(resources) == Ok::<
                ExprView,
                RlErrorView,
            >(self),
            self.states_resolved() ==> self.resolve_state(states) == Ok::<ExprView, RlErrorView>(
                self,
            ),
        decreases self,
    {
        match self {
            ExprView::Not(e) => {
                e.lemma_passes(resources, states);
            },
            ExprView::And(a, b) => {
                a.lemma_passes(resources, states);
                b.lemma_passes(resources, states);
            },
            ExprView::Or(a, b) => {
                a.lemma_passes(resources, states);
                b.lemma_passes(resources, states);
            },
            ExprView::Implies(a, b) => {
                a.lemma_passes(resources, states);
                b.lemma_passes(resources, states);
            },
            _ => {},
        }
    }

    /// The guard with its references to resources resolved against `map`,
    /// or the error of the leftmost reference that `map` does not know.
    pub open spec fn resolve_resource(self, map: Map<Seq<char>, ResourceId>) -> Result<
        ExprView,
        RlErrorView,
    >
        decreases self,
    {
        match self {
            ExprView::True => Ok(self),
            ExprView::False => Ok(self),
            ExprView::ResourceEq(resource, state) => match resource.resolve(map, resource_info()) {
                Ok(resource) => Ok(ExprView::ResourceEq(resource, state)),
                Err(e) => Err(e),
            },
            ExprView::ResourceNe(resource, state) => match resource.resolve(map, resource_info()) {
                Ok(resource) => Ok(ExprView::ResourceNe(resource, state)),
                Err(e) => Err(e),
            },
            ExprView::Not(e) => match e.resolve_resource(map) {
                Ok(e) => Ok(ExprView::Not(Box::new(e))),
                Err(e) => Err(e),
            },
            ExprView::And(a, b) => match both(a.resolve_resource(map), b.resolve_resource(map)) {
                Ok((a, b)) => Ok(ExprView::And(Box::new(a), Box::new(b))),
                Err(e) => Err(e),
            },
            ExprView::Or(a, b) => match both(a.resolve_resource(map), b.resolve_resource(map)) {
                Ok((a, b)) => Ok(ExprView::Or(Box::new(a), Box::new(b))),
                Err(e) => Err(e),
            },
            ExprView::Implies(a, b) => match both(
                a.resolve_resource(map),
                b.resolve_resource(map),
            ) {
                Ok((a, b)) => Ok(ExprView::Implies(Box::new(a), Box::new(b))),
                Err(e) => Err(e),
            },
        }
    }

    /// The guard with its references to states resolved against `map`, or
    /// the error of the leftmost reference that `map` does not know.
    pub open spec fn resolve_state(self, map: Map<Seq<char>, StateId>) -> Result<
        ExprView,
        RlErrorView,
    >
        decreases self,
    {
        match self {
            ExprView::True => Ok(self),
            ExprView::False => Ok(self),
            ExprView::ResourceEq(resource, state) => match state.resolve(map, state_info()) {
                Ok(state) => Ok(ExprView::ResourceEq(resource, state)),
                Err(e) => Err(e),
            },
            ExprView::ResourceNe(resource, state) => match state.resolve(map, state_info()) {
                Ok(state) => Ok(ExprView::ResourceNe(resource, state)),
                Err(e) => Err(e),
            },
            ExprView::Not(e) => match e.resolve_state(map) {
                Ok(e) => Ok(ExprView::Not(Box::new(e))),
                Err(e) => Err(e),
            },
            ExprView::And(a, b) => match both(a.resolve_state(map), b.resolve_state(map)) {
                Ok((a, b)) => Ok(ExprView::And(Box::new(a), Box::new(b))),
                Err(e) => Err(e),
            },
            ExprView::Or(a, b) => match both(a.resolve_state(map), b.resolve_state(map)) {
                Ok((a, b)) => Ok(ExprView::Or(Box::new(a), Box::new(b))),
                Err(e) => Err(e),
            },
            ExprView::Implies(a, b) => match both(a.resolve_state(map), b.resolve_state(map)) {
                Ok((a, b)) => Ok(ExprView::Implies(Box::new(a), Box::new(b))),
                Err(e) => Err(e),
            },
        }
    }
}

impl Expr {
    /// Resolves every reference to a resource in the guard, from left to
    /// right, and stops at the first that fails.
    pub fn resolve_resource(&mut self, map: &StringHashMap<ResourceId>) -> (r: Result<(), RlError>)
        ensures
            in_place(old(self)@.resolve_resource(map@), final(self)@, r),
            old(self)@.kept(final(self)@, Namespaces::only_resources(map@)),
        decreases *old(self),
    {
        proof {
            old(self)@.lemma_kept_same(Namespaces::only_resources(map@));
        }
        match self {
            Expr::True => Ok(()),
            Expr::False => Ok(()),
            Expr::ResourceEq(resource, _) => resource.resolve_in_place(map, "resource"),
            Expr::ResourceNe(resource, _) => resource.resolve_in_place(map, "resource"),
            Expr::Not(e) => e.resolve_resource(map),
            Expr::And(a, b) => {
                match a.resolve_resource(map) {
                    Ok(()) => b.resolve_resource(map),
                    Err(e) => Err(e),
                }
            },
            Expr::Or(a, b) => {
                match a.resolve_resource(map) {
                    Ok(()) => b.resolve_resource(map),
                    Err(e) => Err(e),
                }
            },
            Expr::Implies(a, b) => {
                match a.resolve_resource(map) {
                    Ok(()) => b.resolve_resource(map),
                    Err(e) => Err(e),
                }
            },
        }
    }

    /// Resolves every reference to a state in the guard, from left to right,
    /// and stops at the first that fails.
    pub fn resolve_state(&mut self, map: &StringHashMap<StateId>) -> (r: Result<(), RlError>)
        ensures
            in_place(old(self)@.resolve_state(map@), final(self)@, r),
            old(self)@.kept(final(self)@, Namespaces::only_states(map@)),
        decreases *old(self),
    {
        proof {
            old(self)@.lemma_kept_same(Namespaces::only_states(map@));
        }
        match self {
            Expr::True => Ok(()),
            Expr::False => Ok(()),
            Expr::ResourceEq(_, state) => state.resolve_in_place(map, "state"),
            Expr::ResourceNe(_, state) => state.resolve_in_place(map, "state"),
            Expr::Not(e) => e.resolve_state(map),
            Expr::And(a, b) => {
                match a.resolve_state(map) {
                    Ok(()) => b.resolve_state(map),
                    Err(e) => Err(e),
                }
            },
            Expr::Or(a, b) => {
                match a.resolve_state(map) {
                    Ok(()) => b.resolve_state(map),
                    Err(e) => Err(e),
                }
            },
            Expr::Implies(a, b) => {
                match a.resolve_state(map) {
                    Ok(()) => b.resolve_state(map),
                    Err(e) => Err(e),
                }
            },
        }
    }
}

impl Kept for Expr {
    open spec fn kept(before: ExprView, after: ExprView, spaces: Namespaces) -> bool {
        before.kept(after, spaces)
    }

    proof fn lemma_kept(
        a: ExprView,
        b: ExprView,
        c: ExprView,
        spaces: Namespaces,
        wider: Namespaces,
    ) {
        a.lemma_kept_same(spaces);
        if a.kept(b, spaces) {
            if b.kept(c, spaces) {
                a.lemma_kept_twice(b, c, spaces);
            }
            if spaces.within(wider) {
                a.lemma_kept_wider(b, spaces, wider);
            }
        }
    }
}

impl Resolvable for Expr {
    open spec fn resource_pass(v: ExprView, map: Map<Seq<char>, ResourceId>) -> Result<
        ExprView,
        RlErrorView,
    > {
        v.resolve_resource(map)
    }

    open spec fn state_pass(v: ExprView, map: Map<Seq<char>, StateId>) -> Result<
        ExprView,
        RlErrorView,
    > {
        v.resolve_state(map)
    }

    open spec fn resources_resolved(v: ExprView) -> bool {
        v.resources_resolved()
    }

    open spec fn states_resolved(v: ExprView) -> bool {
        v.states_resolved()
    }

    open spec fn resources_among(v: ExprView, ids: Set<ResourceId>) -> bool {
        v.resources_among(ids)
    }

    open spec fn states_among(v: ExprView, ids: Set<StateId>) -> bool {
        v.states_among(ids)
    }

    proof fn lemma_among(
        v: ExprView,
        resources: Map<Seq<char>, ResourceId>,
        states: Map<Seq<char>, StateId>,
        resource_ids: Set<ResourceId>,
        state_ids: Set<StateId>,
    ) {
        v.lemma_among(resources, states, resource_ids, state_ids);
    }

    proof fn lemma_passes(
        v: ExprView,
        resources: Map<Seq<char>, ResourceId>,
        states: Map<Seq<char>, StateId>,
    ) {
        v.lemma_passes(resources, states);
    }

    proof fn lemma_pass_kept(
        v: ExprView,
        resources: Map<Seq<char>, ResourceId>,
        states: Map<Seq<char>, StateId>,
    ) {
        v.lemma_pass_kept(resources, states);
    }

    open spec fn resource_uses(v: ExprView) -> Set<NamingView> {
        v.resource_uses()
    }

    open spec fn state_uses(v: ExprView) -> Set<NamingView> {
        v.state_uses()
    }

    proof fn lemma_uses(
        v: ExprView,
        resources: Map<Seq<char>, ResourceId>,
        states: Map<Seq<char>, StateId>,
    ) {
        v.lemma_uses(resources, states);
    }

    fn resolve_resource(&mut self, map: &StringHashMap<ResourceId>) -> (r: Result<(), RlError>) {
        Expr::resolve_resource(self, map)
    }

    fn resolve_state(&mut self, map: &StringHashMap<StateId>) -> (r: Result<(), RlError>) {
        Expr::resolve_state(self, map)
    }
}

} // verus!
