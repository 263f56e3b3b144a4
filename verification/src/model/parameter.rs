//! Parameters: variables that carry an identifier of their own.

use crate::model::expr::type_info;
use crate::model::identity::{Id, Named, NamingView};
use crate::model::reference::lemma_unknown_among;
use crate::model::resolve::{Kept, Namespaces, Typed};
use crate::model::rl_type::TypeId;
use crate::model::skill::SkillId;
use crate::model::variable::{Variable, VariableView};
use crate::parser::error::{in_place, RlError, RlErrorView};
use crate::parser::position::{Position, PositionView};
use vstd::hash_map::StringHashMap;
use vstd::prelude::*;

verus! {

/// Mathematical model of a [`Parameter`].
pub struct ParameterView<I> {
    pub id: I,
    pub variable: VariableView,
}

/// A variable with an identifier of kind `I`.
#[derive(Debug)]
pub struct Parameter<I: Id> {
    id: I,
    variable: Variable,
}

impl<I: Id> Clone for Parameter<I> {
    fn clone(&self) -> (r: Self)
        ensures
            r@ == self@,
    {
        Parameter {
            id: self.id,
            variable: self.variable.clone(),
        }
    }
}

impl<I: Id> View for Parameter<I> {
    type V = ParameterView<I>;

    closed spec fn view(&self) -> ParameterView<I> {
        ParameterView { id: self.id, variable: self.variable@ }
    }
}

impl<I: Id> DeepView for Parameter<I> {
    type V = ParameterView<I>;

    open spec fn deep_view(&self) -> ParameterView<I> {
        self@
    }
}

impl<I> ParameterView<I> {
    /// The names of types that are used and not resolved, each with the
    /// place of its use.
    pub open spec fn type_uses(self) -> Set<NamingView> {
        self.variable.type_uses()
    }

    /// The parameter `after` is this one, but that names may have been
    /// resolved, each to the identifier that its namespace among `spaces`
    /// gives it.
    pub open spec fn kept(self, after: ParameterView<I>, spaces: Namespaces) -> bool {
        &&& after.id == self.id
        &&& self.variable.kept(after.variable, spaces)
    }

    /// Every resolved reference to a type stands for one of `ids`.
    pub open spec fn types_among(self, ids: Set<TypeId>) -> bool {
        self.variable.types_among(ids)
    }

    /// Every reference to a type is resolved.
    pub open spec fn types_resolved(self) -> bool {
        self.variable.types_resolved()
    }

    /// The parameter with the type of its variable resolved against `map`,
    /// or the error of the reference when `map` does not know it.
    pub open spec fn resolve_type(self, map: Map<Seq<char>, TypeId>) -> Result<
        ParameterView<I>,
        RlErrorView,
    > {
        match self.variable.resolve_type(map) {
            Err(e) => Err(e),
            Ok(variable) => Ok(ParameterView { variable, ..self }),
        }
    }
}

impl<I: Id> Parameter<I> {
    /// A parameter for `variable`, not yet inserted.
    pub fn new(variable: Variable) -> (r: Self)
        ensures
            r@ == (ParameterView { id: I::spec_default(), variable: variable@ }),
    {
        Parameter { id: I::default(), variable }
    }

    pub fn variable(&self) -> (r: &Variable)
        ensures
            r@ == self@.variable,
    {
        &self.variable
    }

    /// Resolves the type of the parameter's variable.
    pub fn resolve_type(&mut self, map: &StringHashMap<TypeId>) -> (r: Result<(), RlError>)
        ensures
            in_place(old(self)@.resolve_type(map@), final(self)@, r),
            old(self)@.kept(final(self)@, Namespaces::only_types(map@)),
            r is Err ==> final(self)@ == old(self)@,
    {
        proof {
            Parameter::<I>::lemma_kept(
                old(self)@,
                old(self)@,
                old(self)@,
                Namespaces::only_types(map@),
                Namespaces::only_types(map@),
            );
        }
        self.variable.resolve_type(map)
    }
}

impl<I: Id> Named<I> for Parameter<I> {
    open spec fn spec_id(&self) -> I {
        self@.id
    }

    open spec fn spec_name(&self) -> Seq<char> {
        self@.variable.name
    }

    open spec fn spec_position(&self) -> Option<PositionView> {
        self@.variable.position
    }

    fn id(&self) -> (r: I) {
        self.id
    }

    fn set_id(&mut self, id: I)
        ensures
            final(self)@ == (ParameterView { id, ..old(self)@ }),
    {
        self.id = id;
    }

    fn name(&self) -> (r: &str) {
        self.variable.name()
    }

    fn position(&self) -> (r: Option<Position>) {
        self.variable.position()
    }
}

impl<I: Id> Kept for Parameter<I> {
    open spec fn kept(
        before: ParameterView<I>,
        after: ParameterView<I>,
        spaces: Namespaces,
    ) -> bool {
        before.kept(after, spaces)
    }

    proof fn lemma_kept(
        a: ParameterView<I>,
        b: ParameterView<I>,
        c: ParameterView<I>,
        spaces: Namespaces,
        wider: Namespaces,
    ) {
        Variable::lemma_kept(a.variable, b.variable, c.variable, spaces, wider);
    }
}

impl<I: Id> Typed for Parameter<I> {
    open spec fn type_pass(v: ParameterView<I>, map: Map<Seq<char>, TypeId>) -> Result<
        ParameterView<I>,
        RlErrorView,
    > {
        v.resolve_type(map)
    }

    open spec fn types_resolved(v: ParameterView<I>) -> bool {
        v.types_resolved()
    }

    open spec fn types_among(v: ParameterView<I>, ids: Set<TypeId>) -> bool {
        v.types_among(ids)
    }

    proof fn lemma_types_among(
        v: ParameterView<I>,
        types: Map<Seq<char>, TypeId>,
        ids: Set<TypeId>,
    ) {
        Variable::lemma_types_among(v.variable, types, ids);
    }

    proof fn lemma_type_pass(v: ParameterView<I>, types: Map<Seq<char>, TypeId>) {
        Variable::lemma_type_pass(v.variable, types);
    }

    proof fn lemma_type_pass_kept(v: ParameterView<I>, types: Map<Seq<char>, TypeId>) {
        Parameter::<I>::lemma_kept(
            v,
            v,
            v,
            Namespaces::only_types(types),
            Namespaces::only_types(types),
        );
        Variable::lemma_type_pass_kept(v.variable, types);
    }

    open spec fn type_uses(v: ParameterView<I>) -> Set<NamingView> {
        v.type_uses()
    }

    proof fn lemma_type_uses(v: ParameterView<I>, types: Map<Seq<char>, TypeId>) {
        Variable::lemma_type_uses(v.variable, types);
        if Variable::type_pass(v.variable, types) is Err {
            lemma_unknown_among(
                Variable::type_uses(v.variable),
                v.type_uses(),
                types,
                type_info(),
                Variable::type_pass(v.variable, types)->Err_0,
            );
        }
    }

    fn resolve_type(&mut self, map: &StringHashMap<TypeId>) -> (r: Result<(), RlError>) {
        Parameter::<I>::resolve_type(self, map)
    }
}

/// Identifier of a skillset.
#[derive(Clone, Copy, PartialEq, Eq, Structural, Debug, Hash)]
pub struct SkillsetId(pub usize);

impl Id for SkillsetId {
    open spec fn spec_default() -> Self {
        SkillsetId(0)
    }

    open spec fn spec_index(&self) -> usize {
        self.0
    }

    fn default() -> (r: Self) {
        SkillsetId(0)
    }

    fn index(&self) -> (r: usize) {
        self.0
    }
}

/// Identifier of a parameter of a skillset: the skillset, and the parameter's
/// index among its parameters.
#[derive(Clone, Copy, PartialEq, Eq, Structural, Debug, Hash)]
pub struct SkillsetParameterId(pub SkillsetId, pub usize);

impl Id for SkillsetParameterId {
    open spec fn spec_default() -> Self {
        SkillsetParameterId(SkillsetId::spec_default(), 0)
    }

    open spec fn spec_index(&self) -> usize {
        self.1
    }

    fn default() -> (r: Self) {
        SkillsetParameterId(SkillsetId::default(), 0)
    }

    fn index(&self) -> (r: usize) {
        self.1
    }
}

impl SkillsetParameterId {
    /// The skillset that owns the parameter.
    pub fn skillset(&self) -> (r: SkillsetId)
        ensures
            r == self.0,
    {
        self.0
    }
}

/// A parameter of a skillset.
pub type SkillsetParameter = Parameter<SkillsetParameterId>;

/// Identifier of a parameter of a skill: the skill, and the parameter's index
/// among its parameters.
#[derive(Clone, Copy, PartialEq, Eq, Structural, Debug, Hash)]
pub struct SkillParameterId(pub SkillId, pub usize);

impl Id for SkillParameterId {
    open spec fn spec_default() -> Self {
        SkillParameterId(SkillId::spec_default(), 0)
    }

    open spec fn spec_index(&self) -> usize {
        self.1
    }

    fn default() -> (r: Self) {
        SkillParameterId(SkillId::default(), 0)
    }

    fn index(&self) -> (r: usize) {
        self.1
    }
}

impl SkillParameterId {
    /// The skill that owns the parameter.
    pub fn skill(&self) -> (r: SkillId)
        ensures
            r == self.0,
    {
        self.0
    }
}

/// A parameter of a skill.
pub type SkillParameter = Parameter<SkillParameterId>;

} // verus!
