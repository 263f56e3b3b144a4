//! Typed variables: the inputs and outputs of a skill.

use crate::model::deep::{lemma_deep_empty, lemma_deep_push};
use crate::model::expr::type_info;
use crate::model::identity::{Naming, NamingView};
use crate::model::reference::{lemma_unknown_among, Reference, ReferenceView};
use crate::model::resolve::{Kept, Namespaces, Typed};
use crate::model::rl_type::TypeId;
use crate::parser::error::{in_place, RlError, RlErrorView};
use crate::parser::position::{Position, PositionView};
use vstd::hash_map::StringHashMap;
use vstd::prelude::*;
use vstd::string::StringExecFns;

verus! {

/// Mathematical model of a [`Variable`].
pub struct VariableView {
    pub name: Seq<char>,
    pub rl_type: ReferenceView<TypeId>,
    pub position: Option<PositionView>,
}

/// A named value of a declared type.
#[derive(Debug)]
pub struct Variable {
    name: String,
    rl_type: Reference<TypeId>,
    position: Option<Position>,
}

impl Clone for Variable {
    fn clone(&self) -> (r: Self)
        ensures
            r@ == self@,
    {
        Variable {
            name: self.name.clone(),
            rl_type: self.rl_type.clone(),
            position: self.position.clone(),
        }
    }
}

impl View for Variable {
    type V = VariableView;

    closed spec fn view(&self) -> VariableView {
        VariableView {
            name: self.name@,
            rl_type: self.rl_type@,
            position: self.position.deep_view(),
        }
    }
}

impl DeepView for Variable {
    type V = VariableView;

    open spec fn deep_view(&self) -> VariableView {
        self@
    }
}

impl VariableView {
    /// The names of types that are used and not resolved, each with the
    /// place of its use.
    pub open spec fn type_uses(self) -> Set<NamingView> {
        self.rl_type.uses()
    }

    /// The variable `after` is this one, but that names may have been
    /// resolved, each to the identifier that its namespace among `spaces`
    /// gives it.
    pub open spec fn kept(self, after: VariableView, spaces: Namespaces) -> bool {
        &&& after.name == self.name
        &&& after.position == self.position
        &&& self.rl_type.kept(after.rl_type, spaces.types)
    }

    /// Every resolved reference to a type stands for one of `ids`.
    pub open spec fn types_among(self, ids: Set<TypeId>) -> bool {
        self.rl_type.among(ids)
    }

    /// Every reference to a type is resolved.
    pub open spec fn types_resolved(self) -> bool {
        self.rl_type is Resolved
    }

    /// The variable with its type resolved against `map`, or the error of
    /// the reference when `map` does not know it.
    pub open spec fn resolve_type(self, map: Map<Seq<char>, TypeId>) -> Result<
        VariableView,
        RlErrorView,
    > {
        match self.rl_type.resolve(map, type_info()) {
            Err(e) => Err(e),
            Ok(rl_type) => Ok(VariableView { rl_type, ..self }),
        }
    }
}

impl Variable {
    /// A variable named `name` of the type `rl_type`, declared at `position`.
    pub fn new(name: &str, rl_type: Reference<TypeId>, position: Option<Position>) -> (r: Self)
        ensures
            r@ == (VariableView {
                name: name@,
                rl_type: rl_type@,
                position: position.deep_view(),
            }),
    {
        Variable { name: String::from_str(name), rl_type, position }
    }

    pub fn name(&self) -> (r: &str)
        ensures
            r@ == self@.name,
    {
        self.name.as_str()
    }

    pub fn rl_type(&self) -> (r: &Reference<TypeId>)
        ensures
            r@ == self@.rl_type,
    {
        &self.rl_type
    }

    pub fn position(&self) -> (r: Option<Position>)
        ensures
            r.deep_view() == self@.position,
    {
        self.position.clone()
    }

    /// The variable's entry in a namespace: its name and position.
    pub fn naming(&self) -> (r: Naming)
        ensures
            r.deep_view() == (self@.name, self@.position),
    {
        (self.name.clone(), self.position.clone())
    }

    /// Resolves the variable's type.
    pub fn resolve_type(&mut self, map: &StringHashMap<TypeId>) -> (r: Result<(), RlError>)
        ensures
            in_place(old(self)@.resolve_type(map@), final(self)@, r),
            old(self)@.kept(final(self)@, Namespaces::only_types(map@)),
            r is Err ==> final(self)@ == old(self)@,
    {
        proof {
            Variable::lemma_kept(
                old(self)@,
                old(self)@,
                old(self)@,
                Namespaces::only_types(map@),
                Namespaces::only_types(map@),
            );
        }
        self.rl_type.resolve_in_place(map, "type")
    }
}

impl Kept for Variable {
    open spec fn kept(before: VariableView, after: VariableView, spaces: Namespaces) -> bool {
        before.kept(after, spaces)
    }

    proof fn lemma_kept(
        a: VariableView,
        b: VariableView,
        c: VariableView,
        spaces: Namespaces,
        wider: Namespaces,
    ) {
    }
}

impl Typed for Variable {
    open spec fn type_pass(v: VariableView, map: Map<Seq<char>, TypeId>) -> Result<
        VariableView,
        RlErrorView,
    > {
        v.resolve_type(map)
    }

    open spec fn types_resolved(v: VariableView) -> bool {
        v.types_resolved()
    }

    open spec fn types_among(v: VariableView, ids: Set<TypeId>) -> bool {
        v.types_among(ids)
    }

    proof fn lemma_types_among(v: VariableView, types: Map<Seq<char>, TypeId>, ids: Set<TypeId>) {
    }

    proof fn lemma_type_pass(v: VariableView, types: Map<Seq<char>, TypeId>) {
    }

    proof fn lemma_type_pass_kept(v: VariableView, types: Map<Seq<char>, TypeId>) {
        Variable::lemma_kept(v, v, v, Namespaces::only_types(types), Namespaces::only_types(types));
    }

    open spec fn type_uses(v: VariableView) -> Set<NamingView> {
        v.type_uses()
    }

    proof fn lemma_type_uses(v: VariableView, types: Map<Seq<char>, TypeId>) {
        v.rl_type.lemma_uses(types, type_info());
        if v.rl_type.resolve(types, type_info()) is Err {
            lemma_unknown_among(
                v.rl_type.uses(),
                v.type_uses(),
                types,
                type_info(),
                v.rl_type.resolve(types, type_info())->Err_0,
            );
        }
    }

    fn resolve_type(&mut self, map: &StringHashMap<TypeId>) -> (r: Result<(), RlError>) {
        Variable::resolve_type(self, map)
    }
}

/// The names and positions of a sequence of variables, in order.
pub open spec fn variable_namings(variables: Seq<VariableView>) -> Seq<NamingView> {
    variables.map_values(|v: VariableView| (v.name, v.position))
}

/// The names of `variables` with their positions, in order.
pub fn variable_naming(variables: &Vec<Variable>) -> (r: Vec<Naming>)
    ensures
        r.deep_view() == variable_namings(variables.deep_view()),
{
    let ghost model = variable_namings(variables.deep_view());
    let mut names: Vec<Naming> = Vec::new();
    let mut i: usize = 0;
    proof {
        lemma_deep_empty(names);
    }
    while i < variables.len()
        invariant
            0 <= i <= variables.len(),
            model == variable_namings(variables.deep_view()),
            names.deep_view() == model.take(i as int),
        decreases variables.len() - i,
    {
        let entry = variables[i].naming();
        let ghost before = names;
        names.push(entry);
        proof {
            lemma_deep_push(before, names, entry);
            assert(model.take(i as int).push(entry.deep_view()) =~= model.take(i as int + 1));
        }
        i = i + 1;
    }
    proof {
        assert(model.take(i as int) =~= model);
    }
    names
}

} // verus!
