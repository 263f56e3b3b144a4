use skillset::model::{
    Effect, Expr, Failure, FailureId, GetFromId, Id, Interrupt, Invariant, InvariantId, NameMap,
    Named, Postcondition, Precondition, PreconditionId, Progress, Reference, ResourceId, RlType,
    Skill, SkillId, Skillset, StateId, Success, SuccessId, TypeId, Variable,
};
use skillset::parser::{Position, RlError};
use std::time::Duration;

fn at(line: usize, column: usize) -> Option<Position> {
    Some(Position { file: "robot.rl".to_string(), line, column })
}

fn name<I: Id>(text: &str, line: usize, column: usize) -> Reference<I> {
    Reference::Unresolved(text.to_string(), at(line, column))
}

fn guard(resource: &str, state: &str, line: usize) -> Expr {
    Expr::ResourceEq(name(resource, line, 5), name(state, line, 15))
}

fn effect(resource: &str, state: &str, line: usize) -> Effect {
    Effect::new(name(resource, line, 5), name(state, line, 15))
}

fn post(text: &str, resource: &str, state: &str, line: usize) -> Postcondition {
    Postcondition::new(text, guard(resource, state, line), at(line, 1))
}

fn types() -> Skillset {
    let mut skillset = Skillset::new("robot", None);
    skillset.add_type(RlType::new("Bool", at(2, 1)));
    skillset.add_type(RlType::new("Pose", at(3, 1)));
    skillset
}

fn resources() -> NameMap<ResourceId> {
    let mut map = NameMap::new();
    map.insert("Door".to_string(), ResourceId(0));
    map.insert("Arm".to_string(), ResourceId(1));
    map
}

fn states() -> NameMap<StateId> {
    let mut map = NameMap::new();
    map.insert("Open".to_string(), StateId(ResourceId(0), 0));
    map.insert("Closed".to_string(), StateId(ResourceId(0), 1));
    map.insert("Up".to_string(), StateId(ResourceId(1), 0));
    map
}

fn full() -> Skill {
    let mut skill = Skill::new("Fetch", at(10, 1));
    skill.add_input(Variable::new("target", name("Pose", 11, 13), at(11, 5)));
    skill.add_output(Variable::new("done", name("Bool", 12, 11), at(12, 5)));
    skill.add_precondition(Precondition::new("closed", guard("Door", "Closed", 13), at(13, 1)));
    skill.add_precondition(Precondition::new("up", guard("Arm", "Up", 14), at(14, 1)));
    skill.set_start(vec![effect("Door", "Open", 15)]);
    skill.add_invariant(Invariant::new(
        "stays_open",
        guard("Door", "Open", 16),
        vec![effect("Arm", "Up", 17)],
        at(16, 1),
    ));
    skill.set_progress(Progress::new(
        Duration::from_millis(500),
        vec![Variable::new("distance", name("Pose", 18, 15), at(18, 5))],
        at(18, 1),
    ));
    skill.set_interrupt(Interrupt::new(
        vec![post("halted", "Arm", "Up", 19)],
        vec![effect("Door", "Closed", 20)],
        at(19, 1),
    ));
    skill.add_success(Success::new(
        "fetched",
        vec![post("arm_up", "Arm", "Up", 21)],
        vec![effect("Door", "Closed", 22)],
        at(21, 1),
    ));
    skill.add_failure(Failure::new(
        "lost",
        vec![post("door_open", "Door", "Open", 23)],
        vec![effect("Arm", "Up", 24)],
        at(23, 1),
    ));
    skill
}

#[test]
fn a_new_skill_is_empty() {
    let skill = Skill::new("Fetch", at(10, 1));
    assert_eq!(skill.name(), "Fetch");
    assert_eq!(skill.id(), SkillId(0));
    assert_eq!(skill.position(), at(10, 1));
    assert!(skill.inputs().is_empty());
    assert!(skill.outputs().is_empty());
    assert!(skill.preconditions().is_empty());
    assert!(skill.start().is_empty());
    assert!(skill.invariants().is_empty());
    assert!(skill.progress().is_none());
    assert!(skill.interrupt().is_none());
    assert!(skill.successes().is_empty());
    assert!(skill.failures().is_empty());
}

#[test]
fn what_a_skill_owns_gets_the_skill_and_its_index() {
    let mut skill = Skill::new("Fetch", None);
    skill.set_id(SkillId(3));
    let first = skill.add_precondition(Precondition::new("a", Expr::True, None));
    let second = skill.add_precondition(Precondition::new("b", Expr::False, None));
    assert_eq!(first, PreconditionId(SkillId(3), 0));
    assert_eq!(second, PreconditionId(SkillId(3), 1));
    assert_eq!(second.skill(), SkillId(3));
    assert_eq!(second.index(), 1);
    assert_eq!(
        skill.add_invariant(Invariant::new("i", Expr::True, Vec::new(), None)),
        InvariantId(SkillId(3), 0)
    );
    assert_eq!(
        skill.add_success(Success::new("s", Vec::new(), Vec::new(), None)),
        SuccessId(SkillId(3), 0)
    );
    assert_eq!(
        skill.add_failure(Failure::new("f", Vec::new(), Vec::new(), None)),
        FailureId(SkillId(3), 0)
    );
    assert_eq!(
        skill.add_failure(Failure::new("g", Vec::new(), Vec::new(), None)),
        FailureId(SkillId(3), 1)
    );
    assert_eq!(skill.preconditions()[1].id(), second);
    assert_eq!(skill.failures()[1].id(), FailureId(SkillId(3), 1));
}

#[test]
fn lookup_in_a_skill_checks_the_owner() {
    let mut skill = full();
    skill.set_id(SkillId(2));
    assert_eq!(
        skill.get_precondition(PreconditionId(SkillId(2), 1)).map(|x| x.name()),
        Some("up")
    );
    assert!(skill.get_precondition(PreconditionId(SkillId(2), 2)).is_none());
    assert!(skill.get_precondition(PreconditionId(SkillId(0), 0)).is_none());
    assert_eq!(
        skill.get_invariant(InvariantId(SkillId(2), 0)).map(|x| x.name()),
        Some("stays_open")
    );
    assert!(skill.get_invariant(InvariantId(SkillId(1), 0)).is_none());
    assert_eq!(skill.get_success(SuccessId(SkillId(2), 0)).map(|x| x.name()), Some("fetched"));
    assert!(skill.get_success(SuccessId(SkillId(2), 1)).is_none());
    assert_eq!(skill.get_failure(FailureId(SkillId(2), 0)).map(|x| x.name()), Some("lost"));
    assert!(skill.get_failure(FailureId(SkillId(3), 0)).is_none());
    let found: Option<&Failure> = skill.get(FailureId(SkillId(2), 0));
    assert_eq!(found.map(|x| x.name()), Some("lost"));
}

#[test]
fn a_new_identifier_reaches_all_that_the_skill_owns() {
    let mut skill = full();
    skill.set_id(SkillId(7));
    assert_eq!(skill.id(), SkillId(7));
    for (index, x) in skill.preconditions().iter().enumerate() {
        assert_eq!(x.id(), PreconditionId(SkillId(7), index));
    }
    for (index, x) in skill.invariants().iter().enumerate() {
        assert_eq!(x.id(), InvariantId(SkillId(7), index));
    }
    for (index, x) in skill.successes().iter().enumerate() {
        assert_eq!(x.id(), SuccessId(SkillId(7), index));
    }
    for (index, x) in skill.failures().iter().enumerate() {
        assert_eq!(x.id(), FailureId(SkillId(7), index));
    }
    assert_eq!(skill.preconditions()[1].name(), "up");
    assert_eq!(skill.preconditions()[1].expr(), &guard("Arm", "Up", 14));
}

#[test]
fn the_local_namespaces_list_names_in_order() {
    let skill = full();
    assert_eq!(skill.input_naming(), vec![("target".to_string(), at(11, 5))]);
    assert_eq!(skill.output_naming(), vec![("done".to_string(), at(12, 5))]);
    assert_eq!(
        skill.precondition_naming(),
        vec![("closed".to_string(), at(13, 1)), ("up".to_string(), at(14, 1))]
    );
    assert_eq!(skill.invariant_naming(), vec![("stays_open".to_string(), at(16, 1))]);
    assert_eq!(skill.success_naming(), vec![("fetched".to_string(), at(21, 1))]);
    assert_eq!(skill.failure_naming(), vec![("lost".to_string(), at(23, 1))]);
}

#[test]
fn a_skill_without_clashes_passes() {
    assert_eq!(full().duplicate(&types()), Ok(()));
}

#[test]
fn the_same_name_may_stand_in_two_local_namespaces() {
    let mut skill = Skill::new("Fetch", None);
    skill.add_input(Variable::new("x", name("Bool", 1, 1), at(1, 1)));
    skill.add_output(Variable::new("x", name("Bool", 2, 1), at(2, 1)));
    skill.add_precondition(Precondition::new("x", Expr::True, at(3, 1)));
    skill.add_invariant(Invariant::new("x", Expr::True, Vec::new(), at(4, 1)));
    skill.add_success(Success::new("x", Vec::new(), Vec::new(), at(5, 1)));
    skill.add_failure(Failure::new("x", Vec::new(), Vec::new(), at(6, 1)));
    assert_eq!(skill.duplicate(&types()), Ok(()));
}

#[test]
fn each_local_namespace_is_checked_behind_the_types() {
    let clash = |first: Option<Position>, position: Option<Position>, text: &str| {
        Err(RlError::Duplicate { name: text.to_string(), first, position })
    };
    let mut skill = Skill::new("Fetch", None);
    skill.add_failure(Failure::new("f", Vec::new(), Vec::new(), at(60, 1)));
    skill.add_failure(Failure::new("f", Vec::new(), Vec::new(), at(61, 1)));
    assert_eq!(skill.duplicate(&types()), clash(at(60, 1), at(61, 1), "f"));
    skill.add_success(Success::new("Pose", Vec::new(), Vec::new(), at(50, 1)));
    assert_eq!(skill.duplicate(&types()), clash(at(3, 1), at(50, 1), "Pose"));
    skill.add_invariant(Invariant::new("i", Expr::True, Vec::new(), at(40, 1)));
    skill.add_invariant(Invariant::new("i", Expr::True, Vec::new(), at(41, 1)));
    assert_eq!(skill.duplicate(&types()), clash(at(40, 1), at(41, 1), "i"));
    skill.add_precondition(Precondition::new("Bool", Expr::True, at(30, 1)));
    assert_eq!(skill.duplicate(&types()), clash(at(2, 1), at(30, 1), "Bool"));
    skill.add_output(Variable::new("o", name("Bool", 20, 5), at(20, 1)));
    skill.add_output(Variable::new("o", name("Bool", 21, 5), at(21, 1)));
    assert_eq!(skill.duplicate(&types()), clash(at(20, 1), at(21, 1), "o"));
    skill.add_input(Variable::new("Pose", name("Bool", 10, 5), at(10, 1)));
    assert_eq!(skill.duplicate(&types()), clash(at(3, 1), at(10, 1), "Pose"));
}

#[test]
fn the_type_pass_touches_inputs_outputs_and_progress() {
    let mut skill = full();
    assert_eq!(skill.resolve_type(&types().type_map()), Ok(()));
    assert_eq!(skill.inputs()[0].rl_type(), &Reference::Resolved(TypeId(1)));
    assert_eq!(skill.outputs()[0].rl_type(), &Reference::Resolved(TypeId(0)));
    let progress = skill.progress().as_ref().unwrap();
    assert_eq!(progress.message()[0].rl_type(), &Reference::Resolved(TypeId(1)));
    assert_eq!(progress.period(), Duration::from_millis(500));
    assert_eq!(progress.position(), at(18, 1));
    assert_eq!(skill.preconditions()[0].expr(), &guard("Door", "Closed", 13));
}

#[test]
fn the_type_pass_reports_the_first_unknown_type() {
    let mut skill = full();
    skill.add_input(Variable::new("speed", name("Speed", 30, 12), at(30, 5)));
    skill.add_output(Variable::new("level", name("Level", 31, 12), at(31, 5)));
    assert_eq!(
        skill.resolve_type(&types().type_map()),
        Err(RlError::Resolve { element: "type 'Speed'".to_string(), position: at(30, 12) })
    );
}

fn half(resource: usize, state: &str, line: usize) -> Expr {
    Expr::ResourceEq(Reference::Resolved(ResourceId(resource)), name(state, line, 15))
}

fn whole(resource: usize, state: usize) -> Expr {
    Expr::ResourceEq(
        Reference::Resolved(ResourceId(resource)),
        Reference::Resolved(StateId(ResourceId(resource), state)),
    )
}

#[test]
fn the_resource_pass_touches_every_guard_and_effect() {
    let mut skill = full();
    assert_eq!(skill.resolve_resource(&resources()), Ok(()));
    assert_eq!(skill.preconditions()[0].expr(), &half(0, "Closed", 13));
    assert_eq!(skill.preconditions()[1].expr(), &half(1, "Up", 14));
    assert_eq!(skill.start()[0].resource(), &Reference::Resolved(ResourceId(0)));
    assert_eq!(skill.start()[0].state(), &name("Open", 15, 15));
    assert_eq!(skill.invariants()[0].guard(), &half(0, "Open", 16));
    assert_eq!(skill.invariants()[0].effects()[0].resource(), &Reference::Resolved(ResourceId(1)));
    let interrupt = skill.interrupt().as_ref().unwrap();
    assert_eq!(interrupt.postconditions()[0].expr(), &half(1, "Up", 19));
    assert_eq!(interrupt.effects()[0].resource(), &Reference::Resolved(ResourceId(0)));
    assert_eq!(interrupt.position(), at(19, 1));
    assert_eq!(skill.successes()[0].postconditions()[0].expr(), &half(1, "Up", 21));
    assert_eq!(skill.successes()[0].effects()[0].resource(), &Reference::Resolved(ResourceId(0)));
    assert_eq!(skill.failures()[0].postconditions()[0].expr(), &half(0, "Open", 23));
    assert_eq!(skill.failures()[0].effects()[0].resource(), &Reference::Resolved(ResourceId(1)));
    assert_eq!(skill.inputs()[0].rl_type(), &name("Pose", 11, 13));
}

#[test]
fn the_state_pass_touches_every_guard_and_effect() {
    let mut skill = full();
    assert_eq!(skill.resolve_resource(&resources()), Ok(()));
    assert_eq!(skill.resolve_state(&states()), Ok(()));
    assert_eq!(skill.preconditions()[0].expr(), &whole(0, 1));
    assert_eq!(skill.preconditions()[1].expr(), &whole(1, 0));
    assert_eq!(skill.start()[0].state(), &Reference::Resolved(StateId(ResourceId(0), 0)));
    assert_eq!(skill.invariants()[0].guard(), &whole(0, 0));
    assert_eq!(
        skill.invariants()[0].effects()[0].state(),
        &Reference::Resolved(StateId(ResourceId(1), 0))
    );
    let interrupt = skill.interrupt().as_ref().unwrap();
    assert_eq!(interrupt.postconditions()[0].expr(), &whole(1, 0));
    assert_eq!(interrupt.effects()[0].state(), &Reference::Resolved(StateId(ResourceId(0), 1)));
    assert_eq!(skill.successes()[0].postconditions()[0].expr(), &whole(1, 0));
    assert_eq!(skill.failures()[0].postconditions()[0].expr(), &whole(0, 0));
}

#[test]
fn the_passes_follow_the_order_of_the_parts() {
    let unknown = |text: &str, line: usize| {
        Err(RlError::Resolve { element: format!("resource '{}'", text), position: at(line, 5) })
    };
    let mut skill = Skill::new("Fetch", None);
    skill.add_failure(Failure::new(
        "f",
        vec![post("p", "F2", "Open", 71)],
        vec![effect("F1", "Open", 70)],
        None,
    ));
    assert_eq!(skill.clone().resolve_resource(&resources()), unknown("F1", 70));
    skill.add_success(Success::new(
        "s",
        vec![post("p", "S2", "Open", 61)],
        vec![effect("Door", "Open", 60)],
        None,
    ));
    assert_eq!(skill.clone().resolve_resource(&resources()), unknown("S2", 61));
    skill.set_interrupt(Interrupt::new(
        vec![post("p", "I2", "Open", 51)],
        vec![effect("I1", "Open", 50)],
        None,
    ));
    assert_eq!(skill.clone().resolve_resource(&resources()), unknown("I1", 50));
    skill.add_invariant(Invariant::new(
        "i",
        guard("Door", "Open", 40),
        vec![effect("V2", "Open", 41)],
        None,
    ));
    assert_eq!(skill.clone().resolve_resource(&resources()), unknown("V2", 41));
    skill.set_start(vec![effect("Arm", "Up", 30), effect("T2", "Up", 31)]);
    assert_eq!(skill.clone().resolve_resource(&resources()), unknown("T2", 31));
    skill.add_precondition(Precondition::new("p", guard("Gate", "Up", 20), None));
    assert_eq!(skill.clone().resolve_resource(&resources()), unknown("Gate", 20));
}

#[test]
fn a_copy_of_a_skill_holds_the_same() {
    let skill = full();
    let copy = skill.clone();
    assert_eq!(copy.name(), "Fetch");
    assert_eq!(copy.precondition_naming(), skill.precondition_naming());
    assert_eq!(copy.start(), skill.start());
    assert_eq!(copy.successes()[0].effects(), skill.successes()[0].effects());
    assert_eq!(copy.interrupt().as_ref().unwrap().position(), at(19, 1));
}

#[test]
fn a_failed_pass_keeps_every_part_of_the_skill() {
    let mut skill = full();
    skill.add_precondition(Precondition::new("far", guard("Door", "Far", 30), at(30, 1)));
    assert_eq!(skill.resolve_resource(&resources()), Ok(()));
    assert_eq!(
        skill.resolve_state(&states()),
        Err(RlError::Resolve { element: "state 'Far'".to_string(), position: at(30, 15) })
    );
    assert_eq!(skill.name(), "Fetch");
    assert_eq!(skill.inputs().len(), 1);
    assert_eq!(skill.outputs().len(), 1);
    assert_eq!(skill.preconditions().len(), 3);
    assert_eq!(skill.start().len(), 1);
    assert_eq!(skill.invariants().len(), 1);
    assert!(skill.progress().is_some());
    assert!(skill.interrupt().is_some());
    assert_eq!(skill.successes().len(), 1);
    assert_eq!(skill.failures().len(), 1);
    assert_eq!(skill.successes()[0].name(), "fetched");
    assert_eq!(skill.failures()[0].id(), FailureId(SkillId(0), 0));
    assert_eq!(skill.preconditions()[0].expr(), &whole(0, 1));
    assert_eq!(skill.preconditions()[2].expr(), &half(0, "Far", 30));
    assert_eq!(skill.start()[0].state(), &name("Open", 15, 15));
    assert_eq!(skill.inputs()[0].rl_type(), &name("Pose", 11, 13));
}

#[test]
fn a_failed_type_pass_leaves_the_rest_of_the_skill_alone() {
    let mut skill = full();
    skill.add_output(Variable::new("level", name("Level", 31, 12), at(31, 5)));
    assert!(skill.resolve_type(&types().type_map()).is_err());
    assert_eq!(skill.inputs()[0].rl_type(), &Reference::Resolved(TypeId(1)));
    assert_eq!(skill.outputs()[1].rl_type(), &name("Level", 31, 12));
    assert_eq!(skill.preconditions()[0].expr(), &guard("Door", "Closed", 13));
    assert_eq!(skill.start(), &vec![effect("Door", "Open", 15)]);
    assert_eq!(skill.successes()[0].effects(), &vec![effect("Door", "Closed", 22)]);
    assert!(skill.interrupt().is_some());
}
