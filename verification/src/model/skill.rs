//! Skills: named behaviours with preconditions, start effects, invariants,
//! an interrupt and outcomes.

use crate::model::deep::{
    first_error, lemma_deep_empty, lemma_deep_index, lemma_deep_push, lemma_first_error,
    lemma_first_report_exists,
};
use crate::model::effect::{Effect, EffectView};
use crate::model::expr::{resource_info, state_info, type_info};
use crate::model::identity::{GetFromId, Id, Named, Naming, NamingView};
use crate::model::interrupt::{Interrupt, InterruptView};
use crate::model::invariants::{Invariant, InvariantId, InvariantView};
use crate::model::naming::{
    check_duplicate, duplicate_error, lemma_clash_with_global_fails, merge_naming, naming_all,
    namings,
};
use crate::model::precondition::{Precondition, PreconditionId, PreconditionView};
use crate::model::progress::{Progress, ProgressView};
use crate::model::reference::lemma_unknown_among;
use crate::model::resolve::{
    all_kept, all_resource_uses, all_resources_among, all_resources_resolved, all_state_uses,
    all_states_among, all_states_resolved, all_type_uses, all_types_among, all_types_resolved,
    lemma_all_kept, lemma_among_all, lemma_among_opt, lemma_opt_kept, lemma_pass_kept_all,
    lemma_pass_kept_opt, lemma_passes_all, lemma_passes_opt, lemma_sequence_pointwise,
    lemma_type_pass_all, lemma_type_pass_kept_all, lemma_type_pass_kept_opt, lemma_type_pass_opt,
    lemma_type_uses_all, lemma_type_uses_opt, lemma_types_among_all, lemma_types_among_opt,
    lemma_uses_all, lemma_uses_opt, opt_kept, opt_resource_uses, opt_resources_among,
    opt_resources_resolved, opt_state_uses, opt_states_among, opt_states_resolved, opt_type_uses,
    opt_types_among, opt_types_resolved, resolve_resource_all, resolve_resource_opt,
    resolve_state_all, resolve_state_opt, resolve_type_all, resolve_type_opt, resource_pass_all,
    resource_pass_opt, state_pass_all, state_pass_opt, type_pass_all, type_pass_opt, Kept,
    Namespaces, Resolvable, Typed,
};
use crate::model::resource::ResourceId;
use crate::model::rl_type::TypeId;
use crate::model::skillset::Skillset;
use crate::model::state::StateId;
use crate::model::terminate::{Failure, FailureId, Success, SuccessId, TerminateView};
use crate::model::variable::{variable_naming, variable_namings, Variable, VariableView};
use crate::parser::error::{checked, in_place, RlError, RlErrorView};
use crate::parser::position::{Position, PositionView};
use vstd::hash_map::StringHashMap;
use vstd::prelude::*;
use vstd::string::StringExecFns;

verus! {

/// Identifier of a skill: its index among the skills of the skillset.
#[derive(Clone, Copy, PartialEq, Eq, Structural, Debug, Hash)]
pub struct SkillId(pub usize);

impl Id for SkillId {
    open spec fn spec_default() -> Self {
        SkillId(0)
    }

    open spec fn spec_index(&self) -> usize {
        self.0
    }

    fn default() -> (r: Self) {
        SkillId(0)
    }

    fn index(&self) -> (r: usize) {
        self.0
    }
}

/// Mathematical model of a [`Skill`].
pub struct SkillView {
    pub id: SkillId,
    pub name: Seq<char>,
    pub inputs: Seq<VariableView>,
    pub outputs: Seq<VariableView>,
    pub preconditions: Seq<PreconditionView>,
    pub start: Seq<EffectView>,
    pub invariants: Seq<InvariantView>,
    pub progress: Option<ProgressView>,
    pub interrupt: Option<InterruptView>,
    pub successes: Seq<TerminateView<SuccessId>>,
    pub failures: Seq<TerminateView<FailureId>>,
    pub position: Option<PositionView>,
}

/// A skill. It owns its preconditions, invariants, successes and failures,
/// whose identifiers name it as their owner.
#[derive(Debug)]
pub struct Skill {
    id: SkillId,
    name: String,
    inputs: Vec<Variable>,
    outputs: Vec<Variable>,
    preconditions: Vec<Precondition>,
    start: Vec<Effect>,
    invariants: Vec<Invariant>,
    progress: Option<Progress>,
    interrupt: Option<Interrupt>,
    successes: Vec<Success>,
    failures: Vec<Failure>,
    position: Option<Position>,
}

impl Clone for Skill {
    fn clone(&self) -> (r: Self)
        ensures
            r@ == self@,
    {
        let inputs = self.inputs.clone();
        proof {
            assert(inputs.deep_view() =~= self.inputs.deep_view());
        }
        let outputs = self.outputs.clone();
        proof {
            assert(outputs.deep_view() =~= self.outputs.deep_view());
        }
        let preconditions = self.preconditions.clone();
        proof {
            assert(preconditions.deep_view() =~= self.preconditions.deep_view());
        }
        let start = self.start.clone();
        proof {
            assert(start.deep_view() =~= self.start.deep_view());
        }
        let invariants = self.invariants.clone();
        proof {
            assert(invariants.deep_view() =~= self.invariants.deep_view());
        }
        let successes = self.successes.clone();
        proof {
            assert(successes.deep_view() =~= self.successes.deep_view());
        }
        let failures = self.failures.clone();
        proof {
            assert(failures.deep_view() =~= self.failures.deep_view());
        }
        Skill {
            id: self.id,
            name: self.name.clone(),
            inputs,
            outputs,
            preconditions,
            start,
            invariants,
            progress: self.progress.clone(),
            interrupt: self.interrupt.clone(),
            successes,
            failures,
            position: self.position.clone(),
        }
    }
}

impl View for Skill {
    type V = SkillView;

    closed spec fn view(&self) -> SkillView {
        SkillView {
            id: self.id,
            name: self.name@,
            inputs: self.inputs.deep_view(),
            outputs: self.outputs.deep_view(),
            preconditions: self.preconditions.deep_view(),
            start: self.start.deep_view(),
            invariants: self.invariants.deep_view(),
            progress: self.progress.deep_view(),
            interrupt: self.interrupt.deep_view(),
            successes: self.successes.deep_view(),
            failures: self.failures.deep_view(),
            position: self.position.deep_view(),
        }
    }
}

impl DeepView for Skill {
    type V = SkillView;

    open spec fn deep_view(&self) -> SkillView {
        self@
    }
}

impl SkillView {
    /// The names of types that are used and not resolved, each with the
    /// place of its use.
    pub open spec fn type_uses(self) -> Set<NamingView> {
        all_type_uses::<Variable>(self.inputs) + all_type_uses::<Variable>(self.outputs)
            + opt_type_uses::<Progress>(self.progress)
    }

    /// The names of resources that are used and not resolved, each with the
    /// place of its use.
    pub open spec fn resource_uses(self) -> Set<NamingView> {
        all_resource_uses::<Precondition>(self.preconditions)
            + all_resource_uses::<Effect>(self.start)
            + all_resource_uses::<Invariant>(self.invariants)
            + opt_resource_uses::<Interrupt>(self.interrupt)
            + all_resource_uses::<Success>(self.successes)
            + all_resource_uses::<Failure>(self.failures)
    }

    /// The names of states that are used and not resolved, each with the
    /// place of its use.
    pub open spec fn state_uses(self) -> Set<NamingView> {
        all_state_uses::<Precondition>(self.preconditions) + all_state_uses::<Effect>(self.start)
            + all_state_uses::<Invariant>(self.invariants)
            + opt_state_uses::<Interrupt>(self.interrupt)
            + all_state_uses::<Success>(self.successes)
            + all_state_uses::<Failure>(self.failures)
    }

    /// The skill `after` is this one, but that names may have been resolved,
    /// each to the identifier that its namespace among `spaces` gives it.
    pub open spec fn kept(self, after: SkillView, spaces: Namespaces) -> bool {
        &&& after.id == self.id
        &&& after.name == self.name
        &&& after.position == self.position
        &&& all_kept::<Variable>(self.inputs, after.inputs, spaces)
        &&& all_kept::<Variable>(self.outputs, after.outputs, spaces)
        &&& all_kept::<Precondition>(self.preconditions, after.preconditions, spaces)
        &&& all_kept::<Effect>(self.start, after.start, spaces)
        &&& all_kept::<Invariant>(self.invariants, after.invariants, spaces)
        &&& opt_kept::<Progress>(self.progress, after.progress, spaces)
        &&& opt_kept::<Interrupt>(self.interrupt, after.interrupt, spaces)
        &&& all_kept::<Success>(self.successes, after.successes, spaces)
        &&& all_kept::<Failure>(self.failures, after.failures, spaces)
    }

    /// Every resolved reference to a type stands for one of `ids`.
    pub open spec fn types_among(self, ids: Set<TypeId>) -> bool {
        &&& all_types_among::<Variable>(self.inputs, ids)
        &&& all_types_among::<Variable>(self.outputs, ids)
        &&& opt_types_among::<Progress>(self.progress, ids)
    }

    /// Every resolved reference to a resource stands for one of `ids`.
    pub open spec fn resources_among(self, ids: Set<ResourceId>) -> bool {
        &&& all_resources_among::<Precondition>(self.preconditions, ids)
        &&& all_resources_among::<Effect>(self.start, ids)
        &&& all_resources_among::<Invariant>(self.invariants, ids)
        &&& opt_resources_among::<Interrupt>(self.interrupt, ids)
        &&& all_resources_among::<Success>(self.successes, ids)
        &&& all_resources_among::<Failure>(self.failures, ids)
    }

    /// Every resolved reference to a state stands for one of `ids`.
    pub open spec fn states_among(self, ids: Set<StateId>) -> bool {
        &&& all_states_among::<Precondition>(self.preconditions, ids)
        &&& all_states_among::<Effect>(self.start, ids)
        &&& all_states_among::<Invariant>(self.invariants, ids)
        &&& opt_states_among::<Interrupt>(self.interrupt, ids)
        &&& all_states_among::<Success>(self.successes, ids)
        &&& all_states_among::<Failure>(self.failures, ids)
    }

    /// Every reference to a type is resolved.
    pub open spec fn types_resolved(self) -> bool {
        &&& all_types_resolved::<Variable>(self.inputs)
        &&& all_types_resolved::<Variable>(self.outputs)
        &&& opt_types_resolved::<Progress>(self.progress)
    }

    /// Every reference to a resource is resolved.
    pub open spec fn resources_resolved(self) -> bool {
        &&& all_resources_resolved::<Precondition>(self.preconditions)
        &&& all_resources_resolved::<Effect>(self.start)
        &&& all_resources_resolved::<Invariant>(self.invariants)
        &&& opt_resources_resolved::<Interrupt>(self.interrupt)
        &&& all_resources_resolved::<Success>(self.successes)
        &&& all_resources_resolved::<Failure>(self.failures)
    }

    /// Every reference to a state is resolved.
    pub open spec fn states_resolved(self) -> bool {
        &&& all_states_resolved::<Precondition>(self.preconditions)
        &&& all_states_resolved::<Effect>(self.start)
        &&& all_states_resolved::<Invariant>(self.invariants)
        &&& opt_states_resolved::<Interrupt>(self.interrupt)
        &&& all_states_resolved::<Success>(self.successes)
        &&& all_states_resolved::<Failure>(self.failures)
    }

    /// Every precondition, invariant, success and failure carries the
    /// identifier that its place gives it: this skill, and its index, which
    /// fits the machine's word.
    pub open spec fn wf(self) -> bool {
        &&& self.preconditions.len() <= usize::MAX
        &&& forall|i: int|
            0 <= i < self.preconditions.len()
                ==> (#[trigger] self.preconditions[i]).id == PreconditionId(
                self.id,
                i as usize,
            )
        &&& self.invariants.len() <= usize::MAX
        &&& forall|i: int|
            0 <= i < self.invariants.len() ==> (#[trigger] self.invariants[i]).id == InvariantId(
                self.id,
                i as usize,
            )
        &&& self.successes.len() <= usize::MAX
        &&& forall|i: int|
            0 <= i < self.successes.len() ==> (#[trigger] self.successes[i]).id == SuccessId(
                self.id,
                i as usize,
            )
        &&& self.failures.len() <= usize::MAX
        &&& forall|i: int|
            0 <= i < self.failures.len() ==> (#[trigger] self.failures[i]).id == FailureId(
                self.id,
                i as usize,
            )
    }

    /// The skill under the identifier `id`: each precondition, invariant,
    /// success and failure keeps its index and names `id` as its owner.
    pub open spec fn reparent(self, id: SkillId) -> SkillView {
        SkillView {
            id,
            preconditions: self.preconditions.map_values(|x: PreconditionView| PreconditionView {
                id: PreconditionId(id, x.id.1),
                ..x
            }),
            invariants: self.invariants.map_values(|x: InvariantView| InvariantView {
                id: InvariantId(id, x.id.1),
                ..x
            }),
            successes: self.successes.map_values(|x: TerminateView<SuccessId>| TerminateView {
                id: SuccessId(id, x.id.1),
                ..x
            }),
            failures: self.failures.map_values(|x: TerminateView<FailureId>| TerminateView {
                id: FailureId(id, x.id.1),
                ..x
            }),
            ..self
        }
    }

    /// The precondition that `id` stands for: the one at its index, provided that
    /// `id` names this skill as the owner.
    pub open spec fn get_precondition(self, id: PreconditionId) -> Option<PreconditionView> {
        if id.0 == self.id && id.1 < self.preconditions.len() {
            Some(self.preconditions[id.1 as int])
        } else {
            None
        }
    }

    /// The invariant that `id` stands for: the one at its index, provided that
    /// `id` names this skill as the owner.
    pub open spec fn get_invariant(self, id: InvariantId) -> Option<InvariantView> {
        if id.0 == self.id && id.1 < self.invariants.len() {
            Some(self.invariants[id.1 as int])
        } else {
            None
        }
    }

    /// The success that `id` stands for: the one at its index, provided that
    /// `id` names this skill as the owner.
    pub open spec fn get_success(self, id: SuccessId) -> Option<TerminateView<SuccessId>> {
        if id.0 == self.id && id.1 < self.successes.len() {
            Some(self.successes[id.1 as int])
        } else {
            None
        }
    }

    /// The failure that `id` stands for: the one at its index, provided that
    /// `id` names this skill as the owner.
    pub open spec fn get_failure(self, id: FailureId) -> Option<TerminateView<FailureId>> {
        if id.0 == self.id && id.1 < self.failures.len() {
            Some(self.failures[id.1 as int])
        } else {
            None
        }
    }

    /// The inputs by name and position, in order.
    pub open spec fn input_naming(self) -> Seq<NamingView> {
        variable_namings(self.inputs)
    }

    /// The outputs by name and position, in order.
    pub open spec fn output_naming(self) -> Seq<NamingView> {
        variable_namings(self.outputs)
    }

    /// The preconditions by name and position, in order.
    pub open spec fn precondition_naming(self) -> Seq<NamingView> {
        self.preconditions.map_values(|x: PreconditionView| (x.name, x.position))
    }

    /// The invariants by name and position, in order.
    pub open spec fn invariant_naming(self) -> Seq<NamingView> {
        self.invariants.map_values(|x: InvariantView| (x.name, x.position))
    }

    /// The successes by name and position, in order.
    pub open spec fn success_naming(self) -> Seq<NamingView> {
        self.successes.map_values(|x: TerminateView<SuccessId>| (x.name, x.position))
    }

    /// The failures by name and position, in order.
    pub open spec fn failure_naming(self) -> Seq<NamingView> {
        self.failures.map_values(|x: TerminateView<FailureId>| (x.name, x.position))
    }

    /// Under a new identifier every precondition, invariant, success and
    /// failure names that identifier as its owner, and a well-formed skill
    /// stays well formed.
    pub proof fn lemma_reparent(self, id: SkillId)
        ensures
            forall|i: int|
                0 <= i < self.preconditions.len() ==> (#[trigger] self.reparent(
                    id,
                ).preconditions[i]).id.0 == id,
            forall|i: int|
                0 <= i < self.invariants.len() ==> (#[trigger] self.reparent(id).invariants[i]).id.0
                    == id,
            forall|i: int|
                0 <= i < self.successes.len() ==> (#[trigger] self.reparent(id).successes[i]).id.0
                    == id,
            forall|i: int|
                0 <= i < self.failures.len() ==> (#[trigger] self.reparent(id).failures[i]).id.0
                    == id,
            self.wf() ==> self.reparent(id).wf(),
    {
    }

    /// What is kept of a skill keeps its shape: the parts have the length
    /// they had, each entity has its identifier, its name and its position,
    /// the local namespaces are as they were, and a well-formed skill is
    /// still well formed.
    pub proof fn lemma_kept_shape(self, after: SkillView, spaces: Namespaces)
        requires
            self.kept(after, spaces),
        ensures
            after.inputs.len() == self.inputs.len(),
            after.outputs.len() == self.outputs.len(),
            after.preconditions.len() == self.preconditions.len(),
            after.start.len() == self.start.len(),
            after.invariants.len() == self.invariants.len(),
            after.successes.len() == self.successes.len(),
            after.failures.len() == self.failures.len(),
            after.progress is Some <==> self.progress is Some,
            after.interrupt is Some <==> self.interrupt is Some,
            after.input_naming() == self.input_naming(),
            after.output_naming() == self.output_naming(),
            after.precondition_naming() == self.precondition_naming(),
            after.invariant_naming() == self.invariant_naming(),
            after.success_naming() == self.success_naming(),
            after.failure_naming() == self.failure_naming(),
            forall|types: Seq<NamingView>| after.duplicate_error(types)
                == self.duplicate_error(types),
            self.wf() ==> after.wf(),
    {
        assert(after.input_naming() =~= self.input_naming());
        assert(after.output_naming() =~= self.output_naming());
        assert(after.precondition_naming() =~= self.precondition_naming());
        assert(after.invariant_naming() =~= self.invariant_naming());
        assert(after.success_naming() =~= self.success_naming());
        assert(after.failure_naming() =~= self.failure_naming());
        assert forall|types: Seq<NamingView>| after.duplicate_error(types) == self.duplicate_error(
            types,
        ) by {
            assert(after.duplicate_checks(types) =~= self.duplicate_checks(types));
        }
    }

    /// The passes keep apart. A pass that succeeds changes no reference of
    /// another kind, gives no entity another identifier, and adds, removes
    /// or moves none: a well-formed skill stays well formed.
    pub proof fn lemma_passes_apart(
        self,
        types: Map<Seq<char>, TypeId>,
        resources: Map<Seq<char>, ResourceId>,
        states: Map<Seq<char>, StateId>,
    )
        ensures
            self.resolve_type(types) matches Ok(w) ==> w == (SkillView {
                inputs: w.inputs,
                outputs: w.outputs,
                progress: w.progress,
                ..self
            }),
            self.resolve_resource(resources) matches Ok(w) ==> w.id == self.id && w.name
                == self.name && w.position == self.position && w.inputs == self.inputs
                && w.outputs == self.outputs && w.progress == self.progress && (self.wf()
                ==> w.wf()),
            self.resolve_state(states) matches Ok(w) ==> w.id == self.id && w.name == self.name
                && w.position == self.position && w.inputs == self.inputs && w.outputs
                == self.outputs && w.progress == self.progress && (self.wf() ==> w.wf()),
    {
        if self.resolve_resource(resources) is Ok {
            let w = self.resolve_resource(resources)->Ok_0;
            lemma_sequence_pointwise(
                self.preconditions.map_values(
                    |v: PreconditionView| Precondition::resource_pass(v, resources),
                ),
            );
            lemma_sequence_pointwise(
                self.invariants.map_values(|v: InvariantView| Invariant::resource_pass(
                    v,
                    resources,
                )),
            );
            lemma_sequence_pointwise(
                self.successes.map_values(
                    |v: TerminateView<SuccessId>| Success::resource_pass(v, resources),
                ),
            );
            lemma_sequence_pointwise(
                self.failures.map_values(
                    |v: TerminateView<FailureId>| Failure::resource_pass(v, resources),
                ),
            );
            if self.wf() {
                assert forall|i: int| 0 <= i < w.preconditions.len() implies (
                #[trigger] w.preconditions[i]).id == PreconditionId(w.id, i as usize) by {
                    assert(self.preconditions[i].id == PreconditionId(self.id, i as usize));
                }
                assert forall|i: int| 0 <= i < w.invariants.len() implies (
                #[trigger] w.invariants[i]).id == InvariantId(w.id, i as usize) by {
                    assert(self.invariants[i].id == InvariantId(self.id, i as usize));
                }
                assert forall|i: int| 0 <= i < w.successes.len() implies (
                #[trigger] w.successes[i]).id == SuccessId(w.id, i as usize) by {
                    assert(self.successes[i].id == SuccessId(self.id, i as usize));
                }
                assert forall|i: int| 0 <= i < w.failures.len() implies (
                #[trigger] w.failures[i]).id == FailureId(w.id, i as usize) by {
                    assert(self.failures[i].id == FailureId(self.id, i as usize));
                }
            }
        }
        if self.resolve_state(states) is Ok {
            let w = self.resolve_state(states)->Ok_0;
            lemma_sequence_pointwise(
                self.preconditions.map_values(
                    |v: PreconditionView| Precondition::state_pass(v, states),
                ),
            );
            lemma_sequence_pointwise(
                self.invariants.map_values(|v: InvariantView| Invariant::state_pass(v, states)),
            );
            lemma_sequence_pointwise(
                self.successes.map_values(
                    |v: TerminateView<SuccessId>| Success::state_pass(v, states),
                ),
            );
            lemma_sequence_pointwise(
                self.failures.map_values(
                    |v: TerminateView<FailureId>| Failure::state_pass(v, states),
                ),
            );
            if self.wf() {
                assert forall|i: int| 0 <= i < w.preconditions.len() implies (
                #[trigger] w.preconditions[i]).id == PreconditionId(w.id, i as usize) by {
                    assert(self.preconditions[i].id == PreconditionId(self.id, i as usize));
                }
                assert forall|i: int| 0 <= i < w.invariants.len() implies (
                #[trigger] w.invariants[i]).id == InvariantId(w.id, i as usize) by {
                    assert(self.invariants[i].id == InvariantId(self.id, i as usize));
                }
                assert forall|i: int| 0 <= i < w.successes.len() implies (
                #[trigger] w.successes[i]).id == SuccessId(w.id, i as usize) by {
                    assert(self.successes[i].id == SuccessId(self.id, i as usize));
                }
                assert forall|i: int| 0 <= i < w.failures.len() implies (
                #[trigger] w.failures[i]).id == FailureId(w.id, i as usize) by {
                    assert(self.failures[i].id == FailureId(self.id, i as usize));
                }
            }
        }
    }

    /// A local name that is also the name of a type makes the check of the
    /// skill fail, whichever of the six local namespaces holds it; here the
    /// namespace is that of the inputs.
    pub proof fn lemma_input_named_like_type_fails(self, types: Seq<NamingView>, t: int, i: int)
        requires
            0 <= t < types.len(),
            0 <= i < self.inputs.len(),
            types[t].0 == self.inputs[i].name,
        ensures
            self.duplicate_error(types) is Some,
    {
        lemma_clash_with_global_fails(types, self.input_naming(), t, i);
        let checks = self.duplicate_checks(types);
        assert(checks[0] is Some);
        let k = lemma_first_report_exists(checks, 0);
    }

    /// The six checks of the skill: each of its local namespaces, behind
    /// the namespace `types` of the declared types, is checked for duplicates
    /// on its own. Inputs come first, then outputs, preconditions,
    /// invariants, successes and failures.
    pub open spec fn duplicate_checks(self, types: Seq<NamingView>) -> Seq<Option<RlErrorView>> {
        seq![
            duplicate_error(types + self.input_naming()),
            duplicate_error(types + self.output_naming()),
            duplicate_error(types + self.precondition_naming()),
            duplicate_error(types + self.invariant_naming()),
            duplicate_error(types + self.success_naming()),
            duplicate_error(types + self.failure_naming()),
        ]
    }

    /// The error of the first of the six checks that fails, if any does.
    pub open spec fn duplicate_error(self, types: Seq<NamingView>) -> Option<RlErrorView> {
        first_error(self.duplicate_checks(types))
    }

    /// The skill after the type pass over the inputs, the outputs and the
    /// progress report. When a reference fails, the error is that of the first
    /// of these parts, in this order, in which one fails.
    pub open spec fn resolve_type(self, map: Map<Seq<char>, TypeId>) -> Result<
        SkillView,
        RlErrorView,
    > {
        let inputs = type_pass_all::<Variable>(self.inputs, map);
        let outputs = type_pass_all::<Variable>(self.outputs, map);
        let progress = type_pass_opt::<Progress>(self.progress, map);
        if inputs is Err {
            Err(inputs->Err_0)
        } else if outputs is Err {
            Err(outputs->Err_0)
        } else if progress is Err {
            Err(progress->Err_0)
        } else {
            Ok(
                SkillView {
                    inputs: inputs->Ok_0,
                    outputs: outputs->Ok_0,
                    progress: progress->Ok_0,
                    ..self
                },
            )
        }
    }

    /// The skill after the resource pass over the preconditions, the start
    /// effects, the invariants, the interrupt, the successes and the failures.
    /// When a reference fails, the error is that of the first of these parts,
    /// in this order, in which one fails.
    pub open spec fn resolve_resource(self, map: Map<Seq<char>, ResourceId>) -> Result<
        SkillView,
        RlErrorView,
    > {
        let preconditions = resource_pass_all::<Precondition>(self.preconditions, map);
        let start = resource_pass_all::<Effect>(self.start, map);
        let invariants = resource_pass_all::<Invariant>(self.invariants, map);
        let interrupt = resource_pass_opt::<Interrupt>(self.interrupt, map);
        let successes = resource_pass_all::<Success>(self.successes, map);
        let failures = resource_pass_all::<Failure>(self.failures, map);
        if preconditions is Err {
            Err(preconditions->Err_0)
        } else if start is Err {
            Err(start->Err_0)
        } else if invariants is Err {
            Err(invariants->Err_0)
        } else if interrupt is Err {
            Err(interrupt->Err_0)
        } else if successes is Err {
            Err(successes->Err_0)
        } else if failures is Err {
            Err(failures->Err_0)
        } else {
            Ok(
                SkillView {
                    preconditions: preconditions->Ok_0,
                    start: start->Ok_0,
                    invariants: invariants->Ok_0,
                    interrupt: interrupt->Ok_0,
                    successes: successes->Ok_0,
                    failures: failures->Ok_0,
                    ..self
                },
            )
        }
    }

    /// The skill after the state pass over the preconditions, the start
    /// effects, the invariants, the interrupt, the successes and the failures.
    /// When a reference fails, the error is that of the first of these parts,
    /// in this order, in which one fails.
    pub open spec fn resolve_state(self, map: Map<Seq<char>, StateId>) -> Result<
        SkillView,
        RlErrorView,
    > {
        let preconditions = state_pass_all::<Precondition>(self.preconditions, map);
        let start = state_pass_all::<Effect>(self.start, map);
        let invariants = state_pass_all::<Invariant>(self.invariants, map);
        let interrupt = state_pass_opt::<Interrupt>(self.interrupt, map);
        let successes = state_pass_all::<Success>(self.successes, map);
        let failures = state_pass_all::<Failure>(self.failures, map);
        if preconditions is Err {
            Err(preconditions->Err_0)
        } else if start is Err {
            Err(start->Err_0)
        } else if invariants is Err {
            Err(invariants->Err_0)
        } else if interrupt is Err {
            Err(interrupt->Err_0)
        } else if successes is Err {
            Err(successes->Err_0)
        } else if failures is Err {
            Err(failures->Err_0)
        } else {
            Ok(
                SkillView {
                    preconditions: preconditions->Ok_0,
                    start: start->Ok_0,
                    invariants: invariants->Ok_0,
                    interrupt: interrupt->Ok_0,
                    successes: successes->Ok_0,
                    failures: failures->Ok_0,
                    ..self
                },
            )
        }
    }
}

impl Skill {
    /// A skill named `name`, declared at `position`, not yet inserted, with
    /// nothing in it.
    pub fn new(name: &str, position: Option<Position>) -> (r: Self)
        ensures
            r@ == (SkillView {
                id: SkillId::spec_default(),
                name: name@,
                inputs: Seq::empty(),
                outputs: Seq::empty(),
                preconditions: Seq::empty(),
                start: Seq::empty(),
                invariants: Seq::empty(),
                progress: None,
                interrupt: None,
                successes: Seq::empty(),
                failures: Seq::empty(),
                position: position.deep_view(),
            }),
            r@.wf(),
    {
        let inputs: Vec<Variable> = Vec::new();
        let outputs: Vec<Variable> = Vec::new();
        let preconditions: Vec<Precondition> = Vec::new();
        let start: Vec<Effect> = Vec::new();
        let invariants: Vec<Invariant> = Vec::new();
        let successes: Vec<Success> = Vec::new();
        let failures: Vec<Failure> = Vec::new();
        proof {
            lemma_deep_empty(inputs);
            lemma_deep_empty(outputs);
            lemma_deep_empty(preconditions);
            lemma_deep_empty(start);
            lemma_deep_empty(invariants);
            lemma_deep_empty(successes);
            lemma_deep_empty(failures);
        }
        Skill {
            id: SkillId::default(),
            name: String::from_str(name),
            inputs,
            outputs,
            preconditions,
            start,
            invariants,
            progress: None,
            interrupt: None,
            successes,
            failures,
            position,
        }
    }

    pub fn inputs(&self) -> (r: &Vec<Variable>)
        ensures
            r.deep_view() == self@.inputs,
    {
        &self.inputs
    }

    /// Inserts `input` behind the inputs that are there.
    pub fn add_input(&mut self, input: Variable)
        ensures
            final(self)@ == (SkillView { inputs: old(self)@.inputs.push(input@), ..old(self)@ }),
    {
        let ghost before = self.inputs;
        self.inputs.push(input);
        proof {
            lemma_deep_push(before, self.inputs, input);
        }
    }

    pub fn outputs(&self) -> (r: &Vec<Variable>)
        ensures
            r.deep_view() == self@.outputs,
    {
        &self.outputs
    }

    /// Inserts `output` behind the outputs that are there.
    pub fn add_output(&mut self, output: Variable)
        ensures
            final(self)@ == (SkillView { outputs: old(self)@.outputs.push(output@), ..old(self)@ }),
    {
        let ghost before = self.outputs;
        self.outputs.push(output);
        proof {
            lemma_deep_push(before, self.outputs, output);
        }
    }

    pub fn preconditions(&self) -> (r: &Vec<Precondition>)
        ensures
            r.deep_view() == self@.preconditions,
    {
        &self.preconditions
    }

    /// Inserts `precondition` behind the preconditions that are there, and gives it its
    /// identifier: this skill and its index.
    pub fn add_precondition(&mut self, precondition: Precondition) -> (id: PreconditionId)
        ensures
            id == PreconditionId(old(self)@.id, old(self)@.preconditions.len() as usize),
            final(self)@ == (SkillView {
                preconditions: old(self)@.preconditions.push(PreconditionView {
                    id,
                    ..precondition@
                }),
                ..old(self)@
            }),
            old(self)@.wf() ==> final(self)@.wf(),
    {
        let id = PreconditionId(self.id, self.preconditions.len());
        let mut precondition = precondition;
        precondition.set_id(id);
        let ghost before = self.preconditions;
        self.preconditions.push(precondition);
        proof {
            lemma_deep_push(before, self.preconditions, precondition);
            assert(self.preconditions.deep_view().len() == self.preconditions.len());
        }
        id
    }

    /// The precondition that `id` stands for, if `id` names this skill as the
    /// owner and a precondition stands at its index.
    pub fn get_precondition(&self, id: PreconditionId) -> (r: Option<&Precondition>)
        ensures
            r.deep_view() == self@.get_precondition(id),
    {
        let PreconditionId(skill_id, index) = id;
        if self.id != skill_id {
            None
        } else if index < self.preconditions.len() {
            proof {
                lemma_deep_index(self.preconditions, index as int);
            }
            Some(&self.preconditions[index])
        } else {
            None
        }
    }

    /// The effects that apply when the skill starts.
    pub fn start(&self) -> (r: &Vec<Effect>)
        ensures
            r.deep_view() == self@.start,
    {
        &self.start
    }

    pub fn set_start(&mut self, effects: Vec<Effect>)
        ensures
            final(self)@ == (SkillView { start: effects.deep_view(), ..old(self)@ }),
    {
        self.start = effects;
    }

    pub fn invariants(&self) -> (r: &Vec<Invariant>)
        ensures
            r.deep_view() == self@.invariants,
    {
        &self.invariants
    }

    /// Inserts `item` behind the invariants that are there, and gives it its
    /// identifier: this skill and its index.
    pub fn add_invariant(&mut self, item: Invariant) -> (id: InvariantId)
        ensures
            id == InvariantId(old(self)@.id, old(self)@.invariants.len() as usize),
            final(self)@ == (SkillView {
                invariants: old(self)@.invariants.push(InvariantView { id, ..item@ }),
                ..old(self)@
            }),
            old(self)@.wf() ==> final(self)@.wf(),
    {
        let id = InvariantId(self.id, self.invariants.len());
        let mut item = item;
        item.set_id(id);
        let ghost before = self.invariants;
        self.invariants.push(item);
        proof {
            lemma_deep_push(before, self.invariants, item);
            assert(self.invariants.deep_view().len() == self.invariants.len());
        }
        id
    }

    /// The invariant that `id` stands for, if `id` names this skill as the
    /// owner and an invariant stands at its index.
    pub fn get_invariant(&self, id: InvariantId) -> (r: Option<&Invariant>)
        ensures
            r.deep_view() == self@.get_invariant(id),
    {
        let InvariantId(skill_id, index) = id;
        if self.id != skill_id {
            None
        } else if index < self.invariants.len() {
            proof {
                lemma_deep_index(self.invariants, index as int);
            }
            Some(&self.invariants[index])
        } else {
            None
        }
    }

    pub fn progress(&self) -> (r: &Option<Progress>)
        ensures
            r.deep_view() == self@.progress,
    {
        &self.progress
    }

    pub fn set_progress(&mut self, progress: Progress)
        ensures
            final(self)@ == (SkillView { progress: Some(progress@), ..old(self)@ }),
    {
        self.progress = Some(progress);
    }

    pub fn interrupt(&self) -> (r: &Option<Interrupt>)
        ensures
            r.deep_view() == self@.interrupt,
    {
        &self.interrupt
    }

    pub fn set_interrupt(&mut self, interrupt: Interrupt)
        ensures
            final(self)@ == (SkillView { interrupt: Some(interrupt@), ..old(self)@ }),
    {
        self.interrupt = Some(interrupt);
    }

    pub fn successes(&self) -> (r: &Vec<Success>)
        ensures
            r.deep_view() == self@.successes,
    {
        &self.successes
    }

    /// Inserts `success` behind the successes that are there, and gives it its
    /// identifier: this skill and its index.
    pub fn add_success(&mut self, success: Success) -> (id: SuccessId)
        ensures
            id == SuccessId(old(self)@.id, old(self)@.successes.len() as usize),
            final(self)@ == (SkillView {
                successes: old(self)@.successes.push(TerminateView { id, ..success@ }),
                ..old(self)@
            }),
            old(self)@.wf() ==> final(self)@.wf(),
    {
        let id = SuccessId(self.id, self.successes.len());
        let mut success = success;
        success.set_id(id);
        let ghost before = self.successes;
        self.successes.push(success);
        proof {
            lemma_deep_push(before, self.successes, success);
            assert(self.successes.deep_view().len() == self.successes.len());
        }
        id
    }

    /// The success that `id` stands for, if `id` names this skill as the
    /// owner and a success stands at its index.
    pub fn get_success(&self, id: SuccessId) -> (r: Option<&Success>)
        ensures
            r.deep_view() == self@.get_success(id),
    {
        let SuccessId(skill_id, index) = id;
        if self.id != skill_id {
            None
        } else if index < self.successes.len() {
            proof {
                lemma_deep_index(self.successes, index as int);
            }
            Some(&self.successes[index])
        } else {
            None
        }
    }

    pub fn failures(&self) -> (r: &Vec<Failure>)
        ensures
            r.deep_view() == self@.failures,
    {
        &self.failures
    }

    /// Inserts `failure` behind the failures that are there, and gives it its
    /// identifier: this skill and its index.
    pub fn add_failure(&mut self, failure: Failure) -> (id: FailureId)
        ensures
            id == FailureId(old(self)@.id, old(self)@.failures.len() as usize),
            final(self)@ == (SkillView {
                failures: old(self)@.failures.push(TerminateView { id, ..failure@ }),
                ..old(self)@
            }),
            old(self)@.wf() ==> final(self)@.wf(),
    {
        let id = FailureId(self.id, self.failures.len());
        let mut failure = failure;
        failure.set_id(id);
        let ghost before = self.failures;
        self.failures.push(failure);
        proof {
            lemma_deep_push(before, self.failures, failure);
            assert(self.failures.deep_view().len() == self.failures.len());
        }
        id
    }

    /// The failure that `id` stands for, if `id` names this skill as the
    /// owner and a failure stands at its index.
    pub fn get_failure(&self, id: FailureId) -> (r: Option<&Failure>)
        ensures
            r.deep_view() == self@.get_failure(id),
    {
        let FailureId(skill_id, index) = id;
        if self.id != skill_id {
            None
        } else if index < self.failures.len() {
            proof {
                lemma_deep_index(self.failures, index as int);
            }
            Some(&self.failures[index])
        } else {
            None
        }
    }

    /// The names of the inputs with their positions, in order.
    pub fn input_naming(&self) -> (r: Vec<Naming>)
        ensures
            r.deep_view() == self@.input_naming(),
    {
        variable_naming(&self.inputs)
    }

    /// The names of the outputs with their positions, in order.
    pub fn output_naming(&self) -> (r: Vec<Naming>)
        ensures
            r.deep_view() == self@.output_naming(),
    {
        variable_naming(&self.outputs)
    }

    /// The names of the preconditions with their positions, in order.
    pub fn precondition_naming(&self) -> (r: Vec<Naming>)
        ensures
            r.deep_view() == self@.precondition_naming(),
    {
        let names = naming_all(&self.preconditions);
        proof {
            assert(namings::<PreconditionId, Precondition>(self.preconditions@)
                =~= self@.precondition_naming());
        }
        names
    }

    /// The names of the invariants with their positions, in order.
    pub fn invariant_naming(&self) -> (r: Vec<Naming>)
        ensures
            r.deep_view() == self@.invariant_naming(),
    {
        let names = naming_all(&self.invariants);
        proof {
            assert(namings::<InvariantId, Invariant>(self.invariants@)
                =~= self@.invariant_naming());
        }
        names
    }

    /// The names of the successes with their positions, in order.
    pub fn success_naming(&self) -> (r: Vec<Naming>)
        ensures
            r.deep_view() == self@.success_naming(),
    {
        let names = naming_all(&self.successes);
        proof {
            assert(namings::<SuccessId, Success>(self.successes@) =~= self@.success_naming());
        }
        names
    }

    /// The names of the failures with their positions, in order.
    pub fn failure_naming(&self) -> (r: Vec<Naming>)
        ensures
            r.deep_view() == self@.failure_naming(),
    {
        let names = naming_all(&self.failures);
        proof {
            assert(namings::<FailureId, Failure>(self.failures@) =~= self@.failure_naming());
        }
        names
    }

    /// Checks each local namespace of the skill for duplicates, behind the
    /// types that `skillset` declares, and stops at the first check that
    /// fails.
    pub fn duplicate(&self, skillset: &Skillset) -> (r: Result<(), RlError>)
        ensures
            checked(self@.duplicate_error(skillset@.type_naming()), r),
    {
        let types = skillset.type_naming();
        let ghost checks = self@.duplicate_checks(skillset@.type_naming());
        match check_duplicate(merge_naming(&types, self.input_naming())) {
            Ok(()) => {},
            Err(e) => {
                proof {
                    lemma_first_error(checks, 0);
                }
                return Err(e);
            },
        }
        match check_duplicate(merge_naming(&types, self.output_naming())) {
            Ok(()) => {},
            Err(e) => {
                proof {
                    lemma_first_error(checks, 1);
                }
                return Err(e);
            },
        }
        match check_duplicate(merge_naming(&types, self.precondition_naming())) {
            Ok(()) => {},
            Err(e) => {
                proof {
                    lemma_first_error(checks, 2);
                }
                return Err(e);
            },
        }
        match check_duplicate(merge_naming(&types, self.invariant_naming())) {
            Ok(()) => {},
            Err(e) => {
                proof {
                    lemma_first_error(checks, 3);
                }
                return Err(e);
            },
        }
        match check_duplicate(merge_naming(&types, self.success_naming())) {
            Ok(()) => {},
            Err(e) => {
                proof {
                    lemma_first_error(checks, 4);
                }
                return Err(e);
            },
        }
        match check_duplicate(merge_naming(&types, self.failure_naming())) {
            Ok(()) => {},
            Err(e) => {
                proof {
                    lemma_first_error(checks, 5);
                }
                return Err(e);
            },
        }
        Ok(())
    }

    /// Resolves the types of the inputs, of the outputs and of the progress
    /// report, in this order.
    /// Whatever the outcome, nothing has changed but that names of types may
    /// have been resolved.
    pub fn resolve_type(&mut self, map: &StringHashMap<TypeId>) -> (r: Result<(), RlError>)
        ensures
            in_place(old(self)@.resolve_type(map@), final(self)@, r),
            old(self)@.kept(final(self)@, Namespaces::only_types(map@)),
            final(self)@.preconditions == old(self)@.preconditions,
            final(self)@.start == old(self)@.start,
            final(self)@.invariants == old(self)@.invariants,
            final(self)@.interrupt == old(self)@.interrupt,
            final(self)@.successes == old(self)@.successes,
            final(self)@.failures == old(self)@.failures,
            old(self)@.wf() ==> final(self)@.wf(),
            r is Ok ==> final(self)@.types_resolved(),
    {
        proof {
            Skill::lemma_kept(
                old(self)@,
                old(self)@,
                old(self)@,
                Namespaces::only_types(map@),
                Namespaces::only_types(map@),
            );
            Skill::lemma_type_pass(old(self)@, map@);
            old(self)@.lemma_passes_apart(map@, Map::empty(), Map::empty());
        }
        match resolve_type_all(&mut self.inputs, map) {
            Ok(()) => {},
            Err(e) => {
                return Err(e);
            },
        }
        match resolve_type_all(&mut self.outputs, map) {
            Ok(()) => {},
            Err(e) => {
                return Err(e);
            },
        }
        resolve_type_opt(&mut self.progress, map)
    }

    /// Resolves the references to resources in the preconditions, the start
    /// effects, the invariants, the interrupt, the successes and the failures,
    /// in this order.
    /// Whatever the outcome, nothing has changed but that names of resources
    /// may have been resolved.
    pub fn resolve_resource(&mut self, map: &StringHashMap<ResourceId>) -> (r: Result<(), RlError>)
        ensures
            in_place(old(self)@.resolve_resource(map@), final(self)@, r),
            old(self)@.kept(final(self)@, Namespaces::only_resources(map@)),
            final(self)@.inputs == old(self)@.inputs,
            final(self)@.outputs == old(self)@.outputs,
            final(self)@.progress == old(self)@.progress,
            old(self)@.wf() ==> final(self)@.wf(),
            r is Ok ==> final(self)@.resources_resolved(),
    {
        proof {
            Skill::lemma_kept(
                old(self)@,
                old(self)@,
                old(self)@,
                Namespaces::only_resources(map@),
                Namespaces::only_resources(map@),
            );
            Skill::lemma_passes(old(self)@, map@, Map::empty());
            old(self)@.lemma_passes_apart(Map::empty(), map@, Map::empty());
        }
        match resolve_resource_all(&mut self.preconditions, map) {
            Ok(()) => {},
            Err(e) => {
                return Err(e);
            },
        }
        match resolve_resource_all(&mut self.start, map) {
            Ok(()) => {},
            Err(e) => {
                return Err(e);
            },
        }
        match resolve_resource_all(&mut self.invariants, map) {
            Ok(()) => {},
            Err(e) => {
                return Err(e);
            },
        }
        match resolve_resource_opt(&mut self.interrupt, map) {
            Ok(()) => {},
            Err(e) => {
                return Err(e);
            },
        }
        match resolve_resource_all(&mut self.successes, map) {
            Ok(()) => {},
            Err(e) => {
                return Err(e);
            },
        }
        resolve_resource_all(&mut self.failures, map)
    }

    /// Resolves the references to states in the preconditions, the start
    /// effects, the invariants, the interrupt, the successes and the failures,
    /// in this order.
    /// Whatever the outcome, nothing has changed but that names of states may
    /// have been resolved.
    pub fn resolve_state(&mut self, map: &StringHashMap<StateId>) -> (r: Result<(), RlError>)
        ensures
            in_place(old(self)@.resolve_state(map@), final(self)@, r),
            old(self)@.kept(final(self)@, Namespaces::only_states(map@)),
            final(self)@.inputs == old(self)@.inputs,
            final(self)@.outputs == old(self)@.outputs,
            final(self)@.progress == old(self)@.progress,
            old(self)@.wf() ==> final(self)@.wf(),
            r is Ok ==> final(self)@.states_resolved(),
    {
        proof {
            Skill::lemma_kept(
                old(self)@,
                old(self)@,
                old(self)@,
                Namespaces::only_states(map@),
                Namespaces::only_states(map@),
            );
            Skill::lemma_passes(old(self)@, Map::empty(), map@);
            old(self)@.lemma_passes_apart(Map::empty(), Map::empty(), map@);
        }
        match resolve_state_all(&mut self.preconditions, map) {
            Ok(()) => {},
            Err(e) => {
                return Err(e);
            },
        }
        match resolve_state_all(&mut self.start, map) {
            Ok(()) => {},
            Err(e) => {
                return Err(e);
            },
        }
        match resolve_state_all(&mut self.invariants, map) {
            Ok(()) => {},
            Err(e) => {
                return Err(e);
            },
        }
        match resolve_state_opt(&mut self.interrupt, map) {
            Ok(()) => {},
            Err(e) => {
                return Err(e);
            },
        }
        match resolve_state_all(&mut self.successes, map) {
            Ok(()) => {},
            Err(e) => {
                return Err(e);
            },
        }
        resolve_state_all(&mut self.failures, map)
    }
}

impl Named<SkillId> for Skill {
    open spec fn spec_id(&self) -> SkillId {
        self@.id
    }

    open spec fn spec_name(&self) -> Seq<char> {
        self@.name
    }

    open spec fn spec_position(&self) -> Option<PositionView> {
        self@.position
    }

    fn id(&self) -> (r: SkillId) {
        self.id
    }

    /// Assigns the identifier, and rewrites the identifier of every
    /// precondition, invariant, success and failure so that it names the new
    /// one as its owner.
    fn set_id(&mut self, id: SkillId)
        ensures
            final(self)@ == old(self)@.reparent(id),
            old(self)@.wf() ==> final(self)@.wf(),
    {
        self.id = id;
        let mut i: usize = 0;
        while i < self.preconditions.len()
            invariant
                0 <= i <= self.preconditions.len(),
                self.preconditions.len() == old(self)@.preconditions.len(),
                self.id == id,
                self.name == old(self).name,
                self.inputs == old(self).inputs,
                self.outputs == old(self).outputs,
                self.start == old(self).start,
                self.progress == old(self).progress,
                self.interrupt == old(self).interrupt,
                self.position == old(self).position,
                self.invariants == old(self).invariants,
                self.successes == old(self).successes,
                self.failures == old(self).failures,
                forall|k: int|
                    0 <= k < i ==> #[trigger] self.preconditions.deep_view()[k]
                        == (PreconditionView {
                        id: PreconditionId(id, old(self)@.preconditions[k].id.1),
                        ..old(self)@.preconditions[k]
                    }),
                forall|k: int|
                    i <= k < self.preconditions.len()
                        ==> #[trigger] self.preconditions.deep_view()[k] == old(
                        self,
                    )@.preconditions[k],
            decreases self.preconditions.len() - i,
        {
            let ghost previous = self.preconditions.deep_view();
            let PreconditionId(_, index) = self.preconditions[i].id();
            self.preconditions[i].set_id(PreconditionId(id, index));
            proof {
                assert(previous[i as int] == old(self)@.preconditions[i as int]);
                assert forall|k: int|
                    0 <= k < self.preconditions.len()
                        && k != i implies #[trigger] self.preconditions.deep_view()[k]
                    == previous[k] by {}
            }
            i = i + 1;
        }
        proof {
            assert(self.preconditions.deep_view() =~= old(self)@.reparent(id).preconditions);
        }
        let mut i: usize = 0;
        while i < self.invariants.len()
            invariant
                0 <= i <= self.invariants.len(),
                self.invariants.len() == old(self)@.invariants.len(),
                self.id == id,
                self.name == old(self).name,
                self.inputs == old(self).inputs,
                self.outputs == old(self).outputs,
                self.start == old(self).start,
                self.progress == old(self).progress,
                self.interrupt == old(self).interrupt,
                self.position == old(self).position,
                self.preconditions.deep_view() == old(self)@.reparent(id).preconditions,
                self.successes == old(self).successes,
                self.failures == old(self).failures,
                forall|k: int|
                    0 <= k < i ==> #[trigger] self.invariants.deep_view()[k] == (InvariantView {
                        id: InvariantId(id, old(self)@.invariants[k].id.1),
                        ..old(self)@.invariants[k]
                    }),
                forall|k: int|
                    i <= k < self.invariants.len()
                        ==> #[trigger] self.invariants.deep_view()[k] == old(
                        self,
                    )@.invariants[k],
            decreases self.invariants.len() - i,
        {
            let ghost previous = self.invariants.deep_view();
            let InvariantId(_, index) = self.invariants[i].id();
            self.invariants[i].set_id(InvariantId(id, index));
            proof {
                assert(previous[i as int] == old(self)@.invariants[i as int]);
                assert forall|k: int|
                    0 <= k < self.invariants.len()
                        && k != i implies #[trigger] self.invariants.deep_view()[k]
                    == previous[k] by {}
            }
            i = i + 1;
        }
        proof {
            assert(self.invariants.deep_view() =~= old(self)@.reparent(id).invariants);
        }
        let mut i: usize = 0;
        while i < self.successes.len()
            invariant
                0 <= i <= self.successes.len(),
                self.successes.len() == old(self)@.successes.len(),
                self.id == id,
                self.name == old(self).name,
                self.inputs == old(self).inputs,
                self.outputs == old(self).outputs,
                self.start == old(self).start,
                self.progress == old(self).progress,
                self.interrupt == old(self).interrupt,
                self.position == old(self).position,
                self.preconditions.deep_view() == old(self)@.reparent(id).preconditions,
                self.invariants.deep_view() == old(self)@.reparent(id).invariants,
                self.failures == old(self).failures,
                forall|k: int|
                    0 <= k < i ==> #[trigger] self.successes.deep_view()[k] == (TerminateView {
                        id: SuccessId(id, old(self)@.successes[k].id.1),
                        ..old(self)@.successes[k]
                    }),
                forall|k: int|
                    i <= k < self.successes.len()
                        ==> #[trigger] self.successes.deep_view()[k] == old(
                        self,
                    )@.successes[k],
            decreases self.successes.len() - i,
        {
            let ghost previous = self.successes.deep_view();
            let SuccessId(_, index) = self.successes[i].id();
            self.successes[i].set_id(SuccessId(id, index));
            proof {
                assert(previous[i as int] == old(self)@.successes[i as int]);
                assert forall|k: int|
                    0 <= k < self.successes.len()
                        && k != i implies #[trigger] self.successes.deep_view()[k]
                    == previous[k] by {}
            }
            i = i + 1;
        }
        proof {
            assert(self.successes.deep_view() =~= old(self)@.reparent(id).successes);
        }
        let mut i: usize = 0;
        while i < self.failures.len()
            invariant
                0 <= i <= self.failures.len(),
                self.failures.len() == old(self)@.failures.len(),
                self.id == id,
                self.name == old(self).name,
                self.inputs == old(self).inputs,
                self.outputs == old(self).outputs,
                self.start == old(self).start,
                self.progress == old(self).progress,
                self.interrupt == old(self).interrupt,
                self.position == old(self).position,
                self.preconditions.deep_view() == old(self)@.reparent(id).preconditions,
                self.invariants.deep_view() == old(self)@.reparent(id).invariants,
                self.successes.deep_view() == old(self)@.reparent(id).successes,
                forall|k: int|
                    0 <= k < i ==> #[trigger] self.failures.deep_view()[k] == (TerminateView {
                        id: FailureId(id, old(self)@.failures[k].id.1),
                        ..old(self)@.failures[k]
                    }),
                forall|k: int|
                    i <= k < self.failures.len() ==> #[trigger] self.failures.deep_view()[k] == old(
                        self,
                    )@.failures[k],
            decreases self.failures.len() - i,
        {
            let ghost previous = self.failures.deep_view();
            let FailureId(_, index) = self.failures[i].id();
            self.failures[i].set_id(FailureId(id, index));
            proof {
                assert(previous[i as int] == old(self)@.failures[i as int]);
                assert forall|k: int|
                    0 <= k < self.failures.len()
                        && k != i implies #[trigger] self.failures.deep_view()[k]
                    == previous[k] by {}
            }
            i = i + 1;
        }
        proof {
            assert(self.failures.deep_view() =~= old(self)@.reparent(id).failures);
        }
    }

    fn name(&self) -> (r: &str) {
        self.name.as_str()
    }

    fn position(&self) -> (r: Option<Position>) {
        self.position.clone()
    }
}

impl GetFromId<PreconditionId, Precondition> for Skill {
    open spec fn spec_get(&self, id: PreconditionId) -> Option<PreconditionView> {
        self@.get_precondition(id)
    }

    fn get(&self, id: PreconditionId) -> (r: Option<&Precondition>) {
        self.get_precondition(id)
    }
}

impl GetFromId<InvariantId, Invariant> for Skill {
    open spec fn spec_get(&self, id: InvariantId) -> Option<InvariantView> {
        self@.get_invariant(id)
    }

    fn get(&self, id: InvariantId) -> (r: Option<&Invariant>) {
        self.get_invariant(id)
    }
}

impl GetFromId<SuccessId, Success> for Skill {
    open spec fn spec_get(&self, id: SuccessId) -> Option<TerminateView<SuccessId>> {
        self@.get_success(id)
    }

    fn get(&self, id: SuccessId) -> (r: Option<&Success>) {
        self.get_success(id)
    }
}

impl GetFromId<FailureId, Failure> for Skill {
    open spec fn spec_get(&self, id: FailureId) -> Option<TerminateView<FailureId>> {
        self@.get_failure(id)
    }

    fn get(&self, id: FailureId) -> (r: Option<&Failure>) {
        self.get_failure(id)
    }
}

impl Kept for Skill {
    open spec fn kept(before: SkillView, after: SkillView, spaces: Namespaces) -> bool {
        before.kept(after, spaces)
    }

    proof fn lemma_kept(
        a: SkillView,
        b: SkillView,
        c: SkillView,
        spaces: Namespaces,
        wider: Namespaces,
    ) {
        lemma_all_kept::<Variable>(a.inputs, b.inputs, c.inputs, spaces, wider);
        lemma_all_kept::<Variable>(a.outputs, b.outputs, c.outputs, spaces, wider);
        lemma_all_kept::<Precondition>(
            a.preconditions,
            b.preconditions,
            c.preconditions,
            spaces,
            wider,
        );
        lemma_all_kept::<Effect>(a.start, b.start, c.start, spaces, wider);
        lemma_all_kept::<Invariant>(a.invariants, b.invariants, c.invariants, spaces, wider);
        lemma_opt_kept::<Progress>(a.progress, b.progress, c.progress, spaces, wider);
        lemma_opt_kept::<Interrupt>(a.interrupt, b.interrupt, c.interrupt, spaces, wider);
        lemma_all_kept::<Success>(a.successes, b.successes, c.successes, spaces, wider);
        lemma_all_kept::<Failure>(a.failures, b.failures, c.failures, spaces, wider);
    }
}

impl Resolvable for Skill {
    open spec fn resource_pass(v: SkillView, map: Map<Seq<char>, ResourceId>) -> Result<
        SkillView,
        RlErrorView,
    > {
        v.resolve_resource(map)
    }

    open spec fn state_pass(v: SkillView, map: Map<Seq<char>, StateId>) -> Result<
        SkillView,
        RlErrorView,
    > {
        v.resolve_state(map)
    }

    open spec fn resources_resolved(v: SkillView) -> bool {
        v.resources_resolved()
    }

    open spec fn states_resolved(v: SkillView) -> bool {
        v.states_resolved()
    }

    open spec fn resources_among(v: SkillView, ids: Set<ResourceId>) -> bool {
        v.resources_among(ids)
    }

    open spec fn states_among(v: SkillView, ids: Set<StateId>) -> bool {
        v.states_among(ids)
    }

    proof fn lemma_among(
        v: SkillView,
        resources: Map<Seq<char>, ResourceId>,
        states: Map<Seq<char>, StateId>,
        resource_ids: Set<ResourceId>,
        state_ids: Set<StateId>,
    ) {
        lemma_among_all::<Precondition>(
            v.preconditions,
            resources,
            states,
            resource_ids,
            state_ids,
        );
        lemma_among_all::<Effect>(v.start, resources, states, resource_ids, state_ids);
        lemma_among_all::<Invariant>(v.invariants, resources, states, resource_ids, state_ids);
        lemma_among_opt::<Interrupt>(v.interrupt, resources, states, resource_ids, state_ids);
        lemma_among_all::<Success>(v.successes, resources, states, resource_ids, state_ids);
        lemma_among_all::<Failure>(v.failures, resources, states, resource_ids, state_ids);
    }

    proof fn lemma_passes(
        v: SkillView,
        resources: Map<Seq<char>, ResourceId>,
        states: Map<Seq<char>, StateId>,
    ) {
        lemma_passes_all::<Precondition>(v.preconditions, resources, states);
        lemma_passes_all::<Effect>(v.start, resources, states);
        lemma_passes_all::<Invariant>(v.invariants, resources, states);
        lemma_passes_opt::<Interrupt>(v.interrupt, resources, states);
        lemma_passes_all::<Success>(v.successes, resources, states);
        lemma_passes_all::<Failure>(v.failures, resources, states);
    }

    proof fn lemma_pass_kept(
        v: SkillView,
        resources: Map<Seq<char>, ResourceId>,
        states: Map<Seq<char>, StateId>,
    ) {
        Skill::lemma_kept(
            v,
            v,
            v,
            Namespaces::only_resources(resources),
            Namespaces::only_resources(resources),
        );
        Skill::lemma_kept(
            v,
            v,
            v,
            Namespaces::only_states(states),
            Namespaces::only_states(states),
        );
        lemma_pass_kept_all::<Precondition>(v.preconditions, resources, states);
        lemma_pass_kept_all::<Effect>(v.start, resources, states);
        lemma_pass_kept_all::<Invariant>(v.invariants, resources, states);
        lemma_pass_kept_opt::<Interrupt>(v.interrupt, resources, states);
        lemma_pass_kept_all::<Success>(v.successes, resources, states);
        lemma_pass_kept_all::<Failure>(v.failures, resources, states);
    }

    open spec fn resource_uses(v: SkillView) -> Set<NamingView> {
        v.resource_uses()
    }

    open spec fn state_uses(v: SkillView) -> Set<NamingView> {
        v.state_uses()
    }

    proof fn lemma_uses(
        v: SkillView,
        resources: Map<Seq<char>, ResourceId>,
        states: Map<Seq<char>, StateId>,
    ) {
        lemma_uses_all::<Precondition>(v.preconditions, resources, states);
        lemma_uses_all::<Effect>(v.start, resources, states);
        lemma_uses_all::<Invariant>(v.invariants, resources, states);
        lemma_uses_opt::<Interrupt>(v.interrupt, resources, states);
        lemma_uses_all::<Success>(v.successes, resources, states);
        lemma_uses_all::<Failure>(v.failures, resources, states);
        if resource_pass_all::<Precondition>(v.preconditions, resources) is Err {
            lemma_unknown_among(
                all_resource_uses::<Precondition>(v.preconditions),
                v.resource_uses(),
                resources,
                resource_info(),
                resource_pass_all::<Precondition>(v.preconditions, resources)->Err_0,
            );
        } else if resource_pass_all::<Effect>(v.start, resources) is Err {
            lemma_unknown_among(
                all_resource_uses::<Effect>(v.start),
                v.resource_uses(),
                resources,
                resource_info(),
                resource_pass_all::<Effect>(v.start, resources)->Err_0,
            );
        } else if resource_pass_all::<Invariant>(v.invariants, resources) is Err {
            lemma_unknown_among(
                all_resource_uses::<Invariant>(v.invariants),
                v.resource_uses(),
                resources,
                resource_info(),
                resource_pass_all::<Invariant>(v.invariants, resources)->Err_0,
            );
        } else if resource_pass_opt::<Interrupt>(v.interrupt, resources) is Err {
            lemma_unknown_among(
                opt_resource_uses::<Interrupt>(v.interrupt),
                v.resource_uses(),
                resources,
                resource_info(),
                resource_pass_opt::<Interrupt>(v.interrupt, resources)->Err_0,
            );
        } else if resource_pass_all::<Success>(v.successes, resources) is Err {
            lemma_unknown_among(
                all_resource_uses::<Success>(v.successes),
                v.resource_uses(),
                resources,
                resource_info(),
                resource_pass_all::<Success>(v.successes, resources)->Err_0,
            );
        } else if resource_pass_all::<Failure>(v.failures, resources) is Err {
            lemma_unknown_among(
                all_resource_uses::<Failure>(v.failures),
                v.resource_uses(),
                resources,
                resource_info(),
                resource_pass_all::<Failure>(v.failures, resources)->Err_0,
            );
        }
        if state_pass_all::<Precondition>(v.preconditions, states) is Err {
            lemma_unknown_among(
                all_state_uses::<Precondition>(v.preconditions),
                v.state_uses(),
                states,
                state_info(),
                state_pass_all::<Precondition>(v.preconditions, states)->Err_0,
            );
        } else if state_pass_all::<Effect>(v.start, states) is Err {
            lemma_unknown_among(
                all_state_uses::<Effect>(v.start),
                v.state_uses(),
                states,
                state_info(),
                state_pass_all::<Effect>(v.start, states)->Err_0,
            );
        } else if state_pass_all::<Invariant>(v.invariants, states) is Err {
            lemma_unknown_among(
                all_state_uses::<Invariant>(v.invariants),
                v.state_uses(),
                states,
                state_info(),
                state_pass_all::<Invariant>(v.invariants, states)->Err_0,
            );
        } else if state_pass_opt::<Interrupt>(v.interrupt, states) is Err {
            lemma_unknown_among(
                opt_state_uses::<Interrupt>(v.interrupt),
                v.state_uses(),
                states,
                state_info(),
                state_pass_opt::<Interrupt>(v.interrupt, states)->Err_0,
            );
        } else if state_pass_all::<Success>(v.successes, states) is Err {
            lemma_unknown_among(
                all_state_uses::<Success>(v.successes),
                v.state_uses(),
                states,
                state_info(),
                state_pass_all::<Success>(v.successes, states)->Err_0,
            );
        } else if state_pass_all::<Failure>(v.failures, states) is Err {
            lemma_unknown_among(
                all_state_uses::<Failure>(v.failures),
                v.state_uses(),
                states,
                state_info(),
                state_pass_all::<Failure>(v.failures, states)->Err_0,
            );
        }
    }

    fn resolve_resource(&mut self, map: &StringHashMap<ResourceId>) -> (r: Result<(), RlError>) {
        Skill::resolve_resource(self, map)
    }

    fn resolve_state(&mut self, map: &StringHashMap<StateId>) -> (r: Result<(), RlError>) {
        Skill::resolve_state(self, map)
    }
}

impl Typed for Skill {
    open spec fn type_pass(v: SkillView, map: Map<Seq<char>, TypeId>) -> Result<
        SkillView,
        RlErrorView,
    > {
        v.resolve_type(map)
    }

    open spec fn types_resolved(v: SkillView) -> bool {
        v.types_resolved()
    }

    open spec fn types_among(v: SkillView, ids: Set<TypeId>) -> bool {
        v.types_among(ids)
    }

    proof fn lemma_types_among(v: SkillView, types: Map<Seq<char>, TypeId>, ids: Set<TypeId>) {
        lemma_types_among_all::<Variable>(v.inputs, types, ids);
        lemma_types_among_all::<Variable>(v.outputs, types, ids);
        lemma_types_among_opt::<Progress>(v.progress, types, ids);
    }

    proof fn lemma_type_pass(v: SkillView, types: Map<Seq<char>, TypeId>) {
        lemma_type_pass_all::<Variable>(v.inputs, types);
        lemma_type_pass_all::<Variable>(v.outputs, types);
        lemma_type_pass_opt::<Progress>(v.progress, types);
    }

    proof fn lemma_type_pass_kept(v: SkillView, types: Map<Seq<char>, TypeId>) {
        Skill::lemma_kept(v, v, v, Namespaces::only_types(types), Namespaces::only_types(types));
        lemma_type_pass_kept_all::<Variable>(v.inputs, types);
        lemma_type_pass_kept_all::<Variable>(v.outputs, types);
        lemma_type_pass_kept_opt::<Progress>(v.progress, types);
    }

    open spec fn type_uses(v: SkillView) -> Set<NamingView> {
        v.type_uses()
    }

    proof fn lemma_type_uses(v: SkillView, types: Map<Seq<char>, TypeId>) {
        lemma_type_uses_all::<Variable>(v.inputs, types);
        lemma_type_uses_all::<Variable>(v.outputs, types);
        lemma_type_uses_opt::<Progress>(v.progress, types);
        if type_pass_all::<Variable>(v.inputs, types) is Err {
            lemma_unknown_among(
                all_type_uses::<Variable>(v.inputs),
                v.type_uses(),
                types,
                type_info(),
                type_pass_all::<Variable>(v.inputs, types)->Err_0,
            );
        } else if type_pass_all::<Variable>(v.outputs, types) is Err {
            lemma_unknown_among(
                all_type_uses::<Variable>(v.outputs),
                v.type_uses(),
                types,
                type_info(),
                type_pass_all::<Variable>(v.outputs, types)->Err_0,
            );
        } else if type_pass_opt::<Progress>(v.progress, types) is Err {
            lemma_unknown_among(
                opt_type_uses::<Progress>(v.progress),
                v.type_uses(),
                types,
                type_info(),
                type_pass_opt::<Progress>(v.progress, types)->Err_0,
            );
        }
    }

    fn resolve_type(&mut self, map: &StringHashMap<TypeId>) -> (r: Result<(), RlError>) {
        Skill::resolve_type(self, map)
    }
}

} // verus!
