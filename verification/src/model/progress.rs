//! Progress reports of a running skill.

use crate::model::expr::type_info;
use crate::model::identity::NamingView;
use crate::model::reference::lemma_unknown_among;
use crate::model::resolve::{
    all_kept, all_type_uses, all_types_among, all_types_resolved, lemma_all_kept,
    lemma_type_pass_all, lemma_type_pass_kept_all, lemma_type_uses_all, lemma_types_among_all,
    resolve_type_all, type_pass_all, Kept, Namespaces, Typed,
};
use crate::model::rl_type::TypeId;
use crate::model::variable::{Variable, VariableView};
use crate::parser::error::{in_place, RlError, RlErrorView};
use crate::parser::position::{Position, PositionView};
use std::time::Duration;
use vstd::hash_map::StringHashMap;
use vstd::prelude::*;

verus! {

/// Mathematical model of a [`Progress`].
pub struct ProgressView {
    pub period: Duration,
    pub message: Seq<VariableView>,
    pub position: Option<PositionView>,
}

/// The progress report of a skill: the values it publishes while it runs,
/// and how often.
#[derive(Debug)]
pub struct Progress {
    period: Duration,
    message: Vec<Variable>,
    position: Option<Position>,
}

impl Clone for Progress {
    fn clone(&self) -> (r: Self)
        ensures
            r@ == self@,
    {
        let message = self.message.clone();
        proof {
            assert(message.deep_view() =~= self.message.deep_view());
        }
        Progress {
            period: self.period,
            message,
            position: self.position.clone(),
        }
    }
}

impl View for Progress {
    type V = ProgressView;

    closed spec fn view(&self) -> ProgressView {
        ProgressView {
            period: self.period,
            message: self.message.deep_view(),
            position: self.position.deep_view(),
        }
    }
}

impl DeepView for Progress {
    type V = ProgressView;

    open spec fn deep_view(&self) -> ProgressView {
        self@
    }
}

impl ProgressView {
    /// The names of types that are used and not resolved, each with the
    /// place of its use.
    pub open spec fn type_uses(self) -> Set<NamingView> {
        all_type_uses::<Variable>(self.message)
    }

    /// The report `after` is this one, but that names may have been resolved,
    /// each to the identifier that its namespace among `spaces` gives it.
    pub open spec fn kept(self, after: ProgressView, spaces: Namespaces) -> bool {
        &&& after.period == self.period
        &&& after.position == self.position
        &&& all_kept::<Variable>(self.message, after.message, spaces)
    }

    /// Every resolved reference to a type stands for one of `ids`.
    pub open spec fn types_among(self, ids: Set<TypeId>) -> bool {
        all_types_among::<Variable>(self.message, ids)
    }

    /// Every reference to a type is resolved.
    pub open spec fn types_resolved(self) -> bool {
        all_types_resolved::<Variable>(self.message)
    }

    /// The report after the type pass over its values, in order.
    pub open spec fn resolve_type(self, map: Map<Seq<char>, TypeId>) -> Result<
        ProgressView,
        RlErrorView,
    > {
        match type_pass_all::<Variable>(self.message, map) {
            Err(e) => Err(e),
            Ok(message) => Ok(ProgressView { message, ..self }),
        }
    }
}

impl Progress {
    pub fn new(period: Duration, message: Vec<Variable>, position: Option<Position>) -> (r: Self)
        ensures
            r@ == (ProgressView {
                period,
                message: message.deep_view(),
                position: position.deep_view(),
            }),
    {
        Progress { period, message, position }
    }

    pub fn period(&self) -> (r: Duration)
        ensures
            r == self@.period,
    {
        self.period
    }

    pub fn message(&self) -> (r: &Vec<Variable>)
        ensures
            r.deep_view() == self@.message,
    {
        &self.message
    }

    pub fn position(&self) -> (r: Option<Position>)
        ensures
            r.deep_view() == self@.position,
    {
        self.position.clone()
    }

    /// Resolves the types of the values of the report.
    pub fn resolve_type(&mut self, map: &StringHashMap<TypeId>) -> (r: Result<(), RlError>)
        ensures
            in_place(old(self)@.resolve_type(map@), final(self)@, r),
            old(self)@.kept(final(self)@, Namespaces::only_types(map@)),
    {
        proof {
            Progress::lemma_kept(
                old(self)@,
                old(self)@,
                old(self)@,
                Namespaces::only_types(map@),
                Namespaces::only_types(map@),
            );
        }
        resolve_type_all(&mut self.message, map)
    }
}

impl Kept for Progress {
    open spec fn kept(before: ProgressView, after: ProgressView, spaces: Namespaces) -> bool {
        before.kept(after, spaces)
    }

    proof fn lemma_kept(
        a: ProgressView,
        b: ProgressView,
        c: ProgressView,
        spaces: Namespaces,
        wider: Namespaces,
    ) {
        lemma_all_kept::<Variable>(a.message, b.message, c.message, spaces, wider);
    }
}

impl Typed for Progress {
    open spec fn type_pass(v: ProgressView, map: Map<Seq<char>, TypeId>) -> Result<
        ProgressView,
        RlErrorView,
    > {
        v.resolve_type(map)
    }

    open spec fn types_resolved(v: ProgressView) -> bool {
        v.types_resolved()
    }

    open spec fn types_among(v: ProgressView, ids: Set<TypeId>) -> bool {
        v.types_among(ids)
    }

    proof fn lemma_types_among(v: ProgressView, types: Map<Seq<char>, TypeId>, ids: Set<TypeId>) {
        lemma_types_among_all::<Variable>(v.message, types, ids);
    }

    proof fn lemma_type_pass(v: ProgressView, types: Map<Seq<char>, TypeId>) {
        lemma_type_pass_all::<Variable>(v.message, types);
    }

    proof fn lemma_type_pass_kept(v: ProgressView, types: Map<Seq<char>, TypeId>) {
        Progress::lemma_kept(v, v, v, Namespaces::only_types(types), Namespaces::only_types(types));
        lemma_type_pass_kept_all::<Variable>(v.message, types);
    }

    open spec fn type_uses(v: ProgressView) -> Set<NamingView> {
        v.type_uses()
    }

    proof fn lemma_type_uses(v: ProgressView, types: Map<Seq<char>, TypeId>) {
        lemma_type_uses_all::<Variable>(v.message, types);
        if type_pass_all::<Variable>(v.message, types) is Err {
            lemma_unknown_among(
                all_type_uses::<Variable>(v.message),
                v.type_uses(),
                types,
                type_info(),
                type_pass_all::<Variable>(v.message, types)->Err_0,
            );
        }
    }

    fn resolve_type(&mut self, map: &StringHashMap<TypeId>) -> (r: Result<(), RlError>) {
        Progress::resolve_type(self, map)
    }
}

} // verus!
