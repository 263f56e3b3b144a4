//! Preconditions of a skill: guards that must hold when the skill starts.

use crate::model::expr::{resource_info, state_info, Expr, ExprView};
use crate::model::identity::{Id, Named, NamingView};
use crate::model::reference::lemma_unknown_among;
use crate::model::resolve::{Kept, Namespaces, Resolvable};
use crate::model::resource::ResourceId;
use crate::model::skill::SkillId;
use crate::model::state::StateId;
use crate::parser::error::{in_place, RlError, RlErrorView};
use crate::parser::position::{Position, PositionView};
use vstd::hash_map::StringHashMap;
use vstd::prelude::*;
use vstd::string::StringExecFns;

verus! {

/// Identifier of a precondition: the skill that owns it, and its index among
/// that skill's preconditions.
#[derive(Clone, Copy, PartialEq, Eq, Structural, Debug, Hash)]
pub struct PreconditionId(pub SkillId, pub usize);

impl Id for PreconditionId {
    open spec fn spec_default() -> Self {
        PreconditionId(SkillId::spec_default(), 0)
    }

    open spec fn spec_index(&self) -> usize {
        self.1
    }

    fn default() -> (r: Self) {
        PreconditionId(SkillId::default(), 0)
    }

    fn index(&self) -> (r: usize) {
        self.1
    }
}

impl PreconditionId {
    /// The skill that owns the precondition.
    pub fn skill(&self) -> (r: SkillId)
        ensures
            r == self.0,
    {
        self.0
    }
}

/// Mathematical model of a [`Precondition`].
pub struct PreconditionView {
    pub id: PreconditionId,
    pub name: Seq<char>,
    pub expr: ExprView,
    pub position: Option<PositionView>,
}

/// A precondition: a named guard that must hold for the skill to start.
#[derive(Debug)]
pub struct Precondition {
    id: PreconditionId,
    name: String,
    expr: Expr,
    position: Option<Position>,
}

impl Clone for Precondition {
    fn clone(&self) -> (r: Self)
        ensures
            r@ == self@,
    {
        Precondition {
            id: self.id,
            name: self.name.clone(),
            expr: self.expr.clone(),
            position: self.position.clone(),
        }
    }
}

impl View for Precondition {
    type V = PreconditionView;

    closed spec fn view(&self) -> PreconditionView {
        PreconditionView {
            id: self.id,
            name: self.name@,
            expr: self.expr@,
            position: self.position.deep_view(),
        }
    }
}

impl DeepView for Precondition {
    type V = PreconditionView;

    open spec fn deep_view(&self) -> PreconditionView {
        self@
    }
}

impl PreconditionView {
    /// The names of resources that are used and not resolved, each with the
    /// place of its use.
    pub open spec fn resource_uses(self) -> Set<NamingView> {
        self.expr.resource_uses()
    }

    /// The names of states that are used and not resolved, each with the
    /// place of its use.
    pub open spec fn state_uses(self) -> Set<NamingView> {
        self.expr.state_uses()
    }

    /// The precondition `after` is this one, but that names may have been
    /// resolved, each to the identifier that its namespace among `spaces`
    /// gives it.
    pub open spec fn kept(self, after: PreconditionView, spaces: Namespaces) -> bool {
        &&& after.id == self.id
        &&& after.name == self.name
        &&& after.position == self.position
        &&& self.expr.kept(after.expr, spaces)
    }

    /// Every resolved reference to a resource stands for one of `ids`.
    pub open spec fn resources_among(self, ids: Set<ResourceId>) -> bool {
        self.expr.resources_among(ids)
    }

    /// Every resolved reference to a state stands for one of `ids`.
    pub open spec fn states_among(self, ids: Set<StateId>) -> bool {
        self.expr.states_among(ids)
    }

    /// Every reference to a resource is resolved.
    pub open spec fn resources_resolved(self) -> bool {
        self.expr.resources_resolved()
    }

    /// Every reference to a state is resolved.
    pub open spec fn states_resolved(self) -> bool {
        self.expr.states_resolved()
    }

    /// The precondition after the resource pass over its expression.
    pub open spec fn resolve_resource(self, map: Map<Seq<char>, ResourceId>) -> Result<
        PreconditionView,
        RlErrorView,
    > {
        match self.expr.resolve_resource(map) {
            Err(e) => Err(e),
            Ok(expr) => Ok(PreconditionView { expr, ..self }),
        }
    }

    /// The precondition after the state pass over its expression.
    pub open spec fn resolve_state(self, map: Map<Seq<char>, StateId>) -> Result<
        PreconditionView,
        RlErrorView,
    > {
        match self.expr.resolve_state(map) {
            Err(e) => Err(e),
            Ok(expr) => Ok(PreconditionView { expr, ..self }),
        }
    }
}

impl Precondition {
    /// A precondition named `name`, declared at `position`, not yet inserted.
    pub fn new(name: &str, expr: Expr, position: Option<Position>) -> (r: Self)
        ensures
            r@ == (PreconditionView {
                id: PreconditionId::spec_default(),
                name: name@,
                expr: expr@,
                position: position.deep_view(),
            }),
    {
        Precondition { id: PreconditionId::default(), name: String::from_str(name), expr, position }
    }

    pub fn expr(&self) -> (r: &Expr)
        ensures
            r@ == self@.expr,
    {
        &self.expr
    }

    /// Resolves the references to resources in the expression.
    pub fn resolve_resource(&mut self, map: &StringHashMap<ResourceId>) -> (r: Result<(), RlError>)
        ensures
            in_place(old(self)@.resolve_resource(map@), final(self)@, r),
            old(self)@.kept(final(self)@, Namespaces::only_resources(map@)),
    {
        proof {
            Precondition::lemma_kept(
                old(self)@,
                old(self)@,
                old(self)@,
                Namespaces::only_resources(map@),
                Namespaces::only_resources(map@),
            );
        }
        self.expr.resolve_resource(map)
    }

    /// Resolves the references to states in the expression.
    pub fn resolve_state(&mut self, map: &StringHashMap<StateId>) -> (r: Result<(), RlError>)
        ensures
            in_place(old(self)@.resolve_state(map@), final(self)@, r),
            old(self)@.kept(final(self)@, Namespaces::only_states(map@)),
    {
        proof {
            Precondition::lemma_kept(
                old(self)@,
                old(self)@,
                old(self)@,
                Namespaces::only_states(map@),
                Namespaces::only_states(map@),
            );
        }
        self.expr.resolve_state(map)
    }
}

impl Named<PreconditionId> for Precondition {
    open spec fn spec_id(&self) -> PreconditionId {
        self@.id
    }

    open spec fn spec_name(&self) -> Seq<char> {
        self@.name
    }

    open spec fn spec_position(&self) -> Option<PositionView> {
        self@.position
    }

    fn id(&self) -> (r: PreconditionId) {
        self.id
    }

    fn set_id(&mut self, id: PreconditionId)
        ensures
            final(self)@ == (PreconditionView { id, ..old(self)@ }),
    {
        self.id = id;
    }

    fn name(&self) -> (r: &str) {
        self.name.as_str()
    }

    fn position(&self) -> (r: Option<Position>) {
        self.position.clone()
    }
}

impl Kept for Precondition {
    open spec fn kept(
        before: PreconditionView,
        after: PreconditionView,
        spaces: Namespaces,
    ) -> bool {
        before.kept(after, spaces)
    }

    proof fn lemma_kept(
        a: PreconditionView,
        b: PreconditionView,
        c: PreconditionView,
        spaces: Namespaces,
        wider: Namespaces,
    ) {
        Expr::lemma_kept(a.expr, b.expr, c.expr, spaces, wider);
    }
}

impl Resolvable for Precondition {
    open spec fn resource_pass(v: PreconditionView, map: Map<Seq<char>, ResourceId>) -> Result<
        PreconditionView,
        RlErrorView,
    > {
        v.resolve_resource(map)
    }

    open spec fn state_pass(v: PreconditionView, map: Map<Seq<char>, StateId>) -> Result<
        PreconditionView,
        RlErrorView,
    > {
        v.resolve_state(map)
    }

    open spec fn resources_resolved(v: PreconditionView) -> bool {
        v.resources_resolved()
    }

    open spec fn states_resolved(v: PreconditionView) -> bool {
        v.states_resolved()
    }

    open spec fn resources_among(v: PreconditionView, ids: Set<ResourceId>) -> bool {
        v.resources_among(ids)
    }

    open spec fn states_among(v: PreconditionView, ids: Set<StateId>) -> bool {
        v.states_among(ids)
    }

    proof fn lemma_among(
        v: PreconditionView,
        resources: Map<Seq<char>, ResourceId>,
        states: Map<Seq<char>, StateId>,
        resource_ids: Set<ResourceId>,
        state_ids: Set<StateId>,
    ) {
        Expr::lemma_among(v.expr, resources, states, resource_ids, state_ids);
    }

    proof fn lemma_passes(
        v: PreconditionView,
        resources: Map<Seq<char>, ResourceId>,
        states: Map<Seq<char>, StateId>,
    ) {
        Expr::lemma_passes(v.expr, resources, states);
    }

    proof fn lemma_pass_kept(
        v: PreconditionView,
        resources: Map<Seq<char>, ResourceId>,
        states: Map<Seq<char>, StateId>,
    ) {
        Precondition::lemma_kept(
            v,
            v,
            v,
            Namespaces::only_resources(resources),
            Namespaces::only_resources(resources),
        );
        Precondition::lemma_kept(
            v,
            v,
            v,
            Namespaces::only_states(states),
            Namespaces::only_states(states),
        );
        Expr::lemma_pass_kept(v.expr, resources, states);
    }

    open spec fn resource_uses(v: PreconditionView) -> Set<NamingView> {
        v.resource_uses()
    }

    open spec fn state_uses(v: PreconditionView) -> Set<NamingView> {
        v.state_uses()
    }

    proof fn lemma_uses(
        v: PreconditionView,
        resources: Map<Seq<char>, ResourceId>,
        states: Map<Seq<char>, StateId>,
    ) {
        Expr::lemma_uses(v.expr, resources, states);
        if Expr::resource_pass(v.expr, resources) is Err {
            lemma_unknown_among(
                Expr::resource_uses(v.expr),
                v.resource_uses(),
                resources,
                resource_info(),
                Expr::resource_pass(v.expr, resources)->Err_0,
            );
        }
        if Expr::state_pass(v.expr, states) is Err {
            lemma_unknown_among(
                Expr::state_uses(v.expr),
                v.state_uses(),
                states,
                state_info(),
                Expr::state_pass(v.expr, states)->Err_0,
            );
        }
    }

    fn resolve_resource(&mut self, map: &StringHashMap<ResourceId>) -> (r: Result<(), RlError>) {
        Precondition::resolve_resource(self, map)
    }

    fn resolve_state(&mut self, map: &StringHashMap<StateId>) -> (r: Result<(), RlError>) {
        Precondition::resolve_state(self, map)
    }
}

} // verus!
