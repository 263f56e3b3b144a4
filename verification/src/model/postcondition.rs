//! Postconditions: guards that hold when a skill has ended.

use crate::model::expr::{resource_info, state_info, Expr, ExprView};
use crate::model::identity::{Id, Named, NamingView};
use crate::model::reference::lemma_unknown_among;
use crate::model::resolve::{Kept, Namespaces, Resolvable};
use crate::model::resource::ResourceId;
use crate::model::state::StateId;
use crate::parser::error::{in_place, RlError, RlErrorView};
use crate::parser::position::{Position, PositionView};
use vstd::hash_map::StringHashMap;
use vstd::prelude::*;
use vstd::string::StringExecFns;

verus! {

/// Identifier of a postcondition: its index in the sequence that owns it.
#[derive(Clone, Copy, PartialEq, Eq, Structural, Debug, Hash)]
pub struct PostconditionId(pub usize);

impl Id for PostconditionId {
    open spec fn spec_default() -> Self {
        PostconditionId(0)
    }

    open spec fn spec_index(&self) -> usize {
        self.0
    }

    fn default() -> (r: Self) {
        PostconditionId(0)
    }

    fn index(&self) -> (r: usize) {
        self.0
    }
}

/// Mathematical model of a [`Postcondition`].
pub struct PostconditionView {
    pub id: PostconditionId,
    pub name: Seq<char>,
    pub expr: ExprView,
    pub position: Option<PositionView>,
}

/// A postcondition: a named guard that holds once the skill has ended in the
/// way that owns it.
#[derive(Debug)]
pub struct Postcondition {
    id: PostconditionId,
    name: String,
    expr: Expr,
    position: Option<Position>,
}

impl Clone for Postcondition {
    fn clone(&self) -> (r: Self)
        ensures
            r@ == self@,
    {
        Postcondition {
            id: self.id,
            name: self.name.clone(),
            expr: self.expr.clone(),
            position: self.position.clone(),
        }
    }
}

impl View for Postcondition {
    type V = PostconditionView;

    closed spec fn view(&self) -> PostconditionView {
        PostconditionView {
            id: self.id,
            name: self.name@,
            expr: self.expr@,
            position: self.position.deep_view(),
        }
    }
}

impl DeepView for Postcondition {
    type V = PostconditionView;

    open spec fn deep_view(&self) -> PostconditionView {
        self@
    }
}

impl PostconditionView {
    /// The names of resources that are used and not resolved, each with the
    /// place of its use.
    pub open spec fn resource_uses(self) -> Set<NamingView> {
        self.expr.resource_uses()
    }

    /// The names of states that are used and not resolved, each with the
    /// place of its use.
    pub open spec fn state_uses(self) -> Set<NamingView> {
        self.expr.state_uses()
    }

    /// The postcondition `after` is this one, but that names may have been
    /// resolved, each to the identifier that its namespace among `spaces`
    /// gives it.
    pub open spec fn kept(self, after: PostconditionView, spaces: Namespaces) -> bool {
        &&& after.id == self.id
        &&& after.name == self.name
        &&& after.position == self.position
        &&& self.expr.kept(after.expr, spaces)
    }

    /// Every resolved reference to a resource stands for one of `ids`.
    pub open spec fn resources_among(self, ids: Set<ResourceId>) -> bool {
        self.expr.resources_among(ids)
    }

    /// Every resolved reference to a state stands for one of `ids`.
    pub open spec fn states_among(self, ids: Set<StateId>) -> bool {
        self.expr.states_among(ids)
    }

    /// Every reference to a resource is resolved.
    pub open spec fn resources_resolved(self) -> bool {
        self.expr.resources_resolved()
    }

    /// Every reference to a state is resolved.
    pub open spec fn states_resolved(self) -> bool {
        self.expr.states_resolved()
    }

    /// The postcondition after the resource pass over its expression.
    pub open spec fn resolve_resource(self, map: Map<Seq<char>, ResourceId>) -> Result<
        PostconditionView,
        RlErrorView,
    > {
        match self.expr.resolve_resource(map) {
            Err(e) => Err(e),
            Ok(expr) => Ok(PostconditionView { expr, ..self }),
        }
    }

    /// The postcondition after the state pass over its expression.
    pub open spec fn resolve_state(self, map: Map<Seq<char>, StateId>) -> Result<
        PostconditionView,
        RlErrorView,
    > {
        match self.expr.resolve_state(map) {
            Err(e) => Err(e),
            Ok(expr) => Ok(PostconditionView { expr, ..self }),
        }
    }
}

impl Postcondition {
    /// A postcondition named `name`, declared at `position`, not yet inserted.
    pub fn new(name: &str, expr: Expr, position: Option<Position>) -> (r: Self)
        ensures
            r@ == (PostconditionView {
                id: PostconditionId::spec_default(),
                name: name@,
                expr: expr@,
                position: position.deep_view(),
            }),
    {
        Postcondition {
            id: PostconditionId::default(),
            name: String::from_str(name),
            expr,
            position,
        }
    }

    pub fn expr(&self) -> (r: &Expr)
        ensures
            r@ == self@.expr,
    {
        &self.expr
    }

    /// Resolves the references to resources in the expression.
    pub fn resolve_resource(&mut self, map: &StringHashMap<ResourceId>) -> (r: Result<(), RlError>)
        ensures
            in_place(old(self)@.resolve_resource(map@), final(self)@, r),
            old(self)@.kept(final(self)@, Namespaces::only_resources(map@)),
    {
        proof {
            Postcondition::lemma_kept(
                old(self)@,
                old(self)@,
                old(self)@,
                Namespaces::only_resources(map@),
                Namespaces::only_resources(map@),
            );
        }
        self.expr.resolve_resource(map)
    }

    /// Resolves the references to states in the expression.
    pub fn resolve_state(&mut self, map: &StringHashMap<StateId>) -> (r: Result<(), RlError>)
        ensures
            in_place(old(self)@.resolve_state(map@), final(self)@, r),
            old(self)@.kept(final(self)@, Namespaces::only_states(map@)),
    {
        proof {
            Postcondition::lemma_kept(
                old(self)@,
                old(self)@,
                old(self)@,
                Namespaces::only_states(map@),
                Namespaces::only_states(map@),
            );
        }
        self.expr.resolve_state(map)
    }
}

impl Named<PostconditionId> for Postcondition {
    open spec fn spec_id(&self) -> PostconditionId {
        self@.id
    }

    open spec fn spec_name(&self) -> Seq<char> {
        self@.name
    }

    open spec fn spec_position(&self) -> Option<PositionView> {
        self@.position
    }

    fn id(&self) -> (r: PostconditionId) {
        self.id
    }

    fn set_id(&mut self, id: PostconditionId)
        ensures
            final(self)@ == (PostconditionView { id, ..old(self)@ }),
    {
        self.id = id;
    }

    fn name(&self) -> (r: &str) {
        self.name.as_str()
    }

    fn position(&self) -> (r: Option<Position>) {
        self.position.clone()
    }
}

impl Kept for Postcondition {
    open spec fn kept(
        before: PostconditionView,
        after: PostconditionView,
        spaces: Namespaces,
    ) -> bool {
        before.kept(after, spaces)
    }

    proof fn lemma_kept(
        a: PostconditionView,
        b: PostconditionView,
        c: PostconditionView,
        spaces: Namespaces,
        wider: Namespaces,
    ) {
        Expr::lemma_kept(a.expr, b.expr, c.expr, spaces, wider);
    }
}

impl Resolvable for Postcondition {
    open spec fn resource_pass(v: PostconditionView, map: Map<Seq<char>, ResourceId>) -> Result<
        PostconditionView,
        RlErrorView,
    > {
        v.resolve_resource(map)
    }

    open spec fn state_pass(v: PostconditionView, map: Map<Seq<char>, StateId>) -> Result<
        PostconditionView,
        RlErrorView,
    > {
        v.resolve_state(map)
    }

    open spec fn resources_resolved(v: PostconditionView) -> bool {
        v.resources_resolved()
    }

    open spec fn states_resolved(v: PostconditionView) -> bool {
        v.states_resolved()
    }

    open spec fn resources_among(v: PostconditionView, ids: Set<ResourceId>) -> bool {
        v.resources_among(ids)
    }

    open spec fn states_among(v: PostconditionView, ids: Set<StateId>) -> bool {
        v.states_among(ids)
    }

    proof fn lemma_among(
        v: PostconditionView,
        resources: Map<Seq<char>, ResourceId>,
        states: Map<Seq<char>, StateId>,
        resource_ids: Set<ResourceId>,
        state_ids: Set<StateId>,
    ) {
        Expr::lemma_among(v.expr, resources, states, resource_ids, state_ids);
    }

    proof fn lemma_passes(
        v: PostconditionView,
        resources: Map<Seq<char>, ResourceId>,
        states: Map<Seq<char>, StateId>,
    ) {
        Expr::lemma_passes(v.expr, resources, states);
    }

    proof fn lemma_pass_kept(
        v: PostconditionView,
        resources: Map<Seq<char>, ResourceId>,
        states: Map<Seq<char>, StateId>,
    ) {
        Postcondition::lemma_kept(
            v,
            v,
            v,
            Namespaces::only_resources(resources),
            Namespaces::only_resources(resources),
        );
        Postcondition::lemma_kept(
            v,
            v,
            v,
            Namespaces::only_states(states),
            Namespaces::only_states(states),
        );
        Expr::lemma_pass_kept(v.expr, resources, states);
    }

    open spec fn resource_uses(v: PostconditionView) -> Set<NamingView> {
        v.resource_uses()
    }

    open spec fn state_uses(v: PostconditionView) -> Set<NamingView> {
        v.state_uses()
    }

    proof fn lemma_uses(
        v: PostconditionView,
        resources: Map<Seq<char>, ResourceId>,
        states: Map<Seq<char>, StateId>,
    ) {
        Expr::lemma_uses(v.expr, resources, states);
        if Expr::resource_pass(v.expr, resources) is Err {
            lemma_unknown_among(
                Expr::resource_uses(v.expr),
                v.resource_uses(),
                resources,
                resource_info(),
                Expr::resource_pass(v.expr, resources)->Err_0,
            );
        }
        if Expr::state_pass(v.expr, states) is Err {
            lemma_unknown_among(
                Expr::state_uses(v.expr),
                v.state_uses(),
                states,
                state_info(),
                Expr::state_pass(v.expr, states)->Err_0,
            );
        }
    }

    fn resolve_resource(&mut self, map: &StringHashMap<ResourceId>) -> (r: Result<(), RlError>) {
        Postcondition::resolve_resource(self, map)
    }

    fn resolve_state(&mut self, map: &StringHashMap<StateId>) -> (r: Result<(), RlError>) {
        Postcondition::resolve_state(self, map)
    }
}

} // verus!
