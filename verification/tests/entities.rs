use skillset::model::{
    Data, DataId, Effect, Event, EventId, Expr, Id, Invariant, NameMap, Named, Parameter,
    Postcondition, PostconditionId, Precondition, Reference, Resolvable, ResourceId, RlType,
    SkillId, SkillParameter, SkillParameterId, SkillsetId, SkillsetParameter,
    SkillsetParameterId, State, StateId, Transition, Transitions, TypeId, Typed, Variable,
};
use skillset::parser::{Position, RlError};
use std::time::Duration;

fn at(line: usize, column: usize) -> Option<Position> {
    Some(Position { file: "robot.rl".to_string(), line, column })
}

fn name<I: Id>(text: &str, line: usize, column: usize) -> Reference<I> {
    Reference::Unresolved(text.to_string(), at(line, column))
}

fn resources() -> NameMap<ResourceId> {
    let mut map = NameMap::new();
    map.insert("Door".to_string(), ResourceId(0));
    map.insert("Arm".to_string(), ResourceId(1));
    map
}

fn states() -> NameMap<StateId> {
    let mut map = NameMap::new();
    map.insert("Open".to_string(), StateId(ResourceId(0), 0));
    map.insert("Up".to_string(), StateId(ResourceId(1), 0));
    map
}

fn types() -> NameMap<TypeId> {
    let mut map = NameMap::new();
    map.insert("Bool".to_string(), TypeId(0));
    map
}

fn unknown(kind: &str, text: &str, line: usize, column: usize) -> Result<(), RlError> {
    Err(RlError::Resolve { element: format!("{} '{}'", kind, text), position: at(line, column) })
}

#[test]
fn a_type_has_a_name_a_position_and_a_placeholder() {
    let mut rl_type = RlType::new("Bool", at(2, 1));
    assert_eq!(rl_type.id(), TypeId(0));
    assert_eq!(rl_type.name(), "Bool");
    assert_eq!(rl_type.position(), at(2, 1));
    assert_eq!(rl_type.naming(), ("Bool".to_string(), at(2, 1)));
    rl_type.set_id(TypeId(4));
    assert_eq!(rl_type.id(), TypeId(4));
    assert_eq!(rl_type.clone().name(), "Bool");
}

#[test]
fn a_state_has_a_name_a_position_and_a_placeholder() {
    let mut state = State::new("Open", None);
    assert_eq!(state.id(), StateId(ResourceId(0), 0));
    assert_eq!(state.naming(), ("Open".to_string(), None));
    assert!(state.has_name(&"Open".to_string()));
    assert!(!state.has_name(&"open".to_string()));
    state.set_id(StateId(ResourceId(2), 5));
    assert_eq!(state.id(), StateId(ResourceId(2), 5));
    assert_eq!(state.name(), "Open");
}

#[test]
fn a_data_item_resolves_its_type() {
    let mut data = Data::new("level", name("Bool", 5, 8), Some(Duration::from_secs(2)), at(5, 1));
    assert_eq!(data.id(), DataId(0));
    assert_eq!(data.name(), "level");
    assert_eq!(data.period(), Some(Duration::from_secs(2)));
    assert_eq!(data.rl_type(), &name("Bool", 5, 8));
    assert_eq!(data.resolve_type(&types()), Ok(()));
    assert_eq!(data.rl_type(), &Reference::Resolved(TypeId(0)));
    assert_eq!(data.resolve_type(&NameMap::new()), Ok(()));
    data.set_type(TypeId(3));
    assert_eq!(data.rl_type(), &Reference::Resolved(TypeId(3)));
    let mut other = Data::new("pose", name("Pose", 6, 8), None, at(6, 1));
    assert_eq!(other.resolve_type(&types()), unknown("type", "Pose", 6, 8));
    assert_eq!(other.rl_type(), &name("Pose", 6, 8));
    assert_eq!(other.period(), None);
}

#[test]
fn a_variable_resolves_its_type() {
    let mut variable = Variable::new("target", name("Bool", 11, 13), at(11, 5));
    assert_eq!(variable.name(), "target");
    assert_eq!(variable.position(), at(11, 5));
    assert_eq!(variable.naming(), ("target".to_string(), at(11, 5)));
    assert_eq!(variable.resolve_type(&types()), Ok(()));
    assert_eq!(variable.rl_type(), &Reference::Resolved(TypeId(0)));
    let mut variable = Variable::new("target", name("Pose", 11, 13), at(11, 5));
    assert_eq!(Typed::resolve_type(&mut variable, &types()), unknown("type", "Pose", 11, 13));
}

#[test]
fn a_parameter_is_a_variable_with_an_identifier() {
    let mut parameter: SkillParameter =
        Parameter::new(Variable::new("speed", name("Bool", 4, 9), at(4, 1)));
    assert_eq!(parameter.id(), SkillParameterId(SkillId(0), 0));
    assert_eq!(parameter.name(), "speed");
    assert_eq!(parameter.position(), at(4, 1));
    parameter.set_id(SkillParameterId(SkillId(2), 1));
    assert_eq!(parameter.id().skill(), SkillId(2));
    assert_eq!(parameter.resolve_type(&types()), Ok(()));
    assert_eq!(parameter.variable().rl_type(), &Reference::Resolved(TypeId(0)));
    let mut parameter: SkillsetParameter =
        Parameter::new(Variable::new("speed", name("Speed", 4, 9), at(4, 1)));
    assert_eq!(parameter.id(), SkillsetParameterId(SkillsetId(0), 0));
    assert_eq!(parameter.id().skillset(), SkillsetId(0));
    assert_eq!(parameter.resolve_type(&types()), unknown("type", "Speed", 4, 9));
}

#[test]
fn an_effect_resolves_its_resource_and_its_state() {
    let mut effect = Effect::new(name("Door", 3, 5), name("Open", 3, 13));
    assert_eq!(effect.resolve_state(&states()), Ok(()));
    assert_eq!(effect.resource(), &name("Door", 3, 5));
    assert_eq!(effect.state(), &Reference::Resolved(StateId(ResourceId(0), 0)));
    assert_eq!(effect.resolve_resource(&resources()), Ok(()));
    assert_eq!(effect.resource(), &Reference::Resolved(ResourceId(0)));
    let mut effect = Effect::new(name("Window", 3, 5), name("Ajar", 3, 13));
    assert_eq!(effect.resolve_resource(&resources()), unknown("resource", "Window", 3, 5));
    assert_eq!(effect.resolve_state(&states()), unknown("state", "Ajar", 3, 13));
}

#[test]
fn a_guard_is_resolved_from_left_to_right() {
    let leaf = |resource: &str, state: &str, line: usize| {
        Expr::ResourceEq(name(resource, line, 1), name(state, line, 9))
    };
    let mut guard = Expr::Implies(
        Box::new(Expr::And(
            Box::new(leaf("Door", "Open", 1)),
            Box::new(Expr::Not(Box::new(Expr::ResourceNe(name("Arm", 2, 1), name("Up", 2, 9))))),
        )),
        Box::new(Expr::Or(Box::new(Expr::True), Box::new(Expr::False))),
    );
    assert_eq!(guard.resolve_resource(&resources()), Ok(()));
    assert_eq!(guard.resolve_state(&states()), Ok(()));
    let open = Reference::Resolved(StateId(ResourceId(0), 0));
    let up = Reference::Resolved(StateId(ResourceId(1), 0));
    assert_eq!(
        guard,
        Expr::Implies(
            Box::new(Expr::And(
                Box::new(Expr::ResourceEq(Reference::Resolved(ResourceId(0)), open)),
                Box::new(Expr::Not(Box::new(Expr::ResourceNe(
                    Reference::Resolved(ResourceId(1)),
                    up
                )))),
            )),
            Box::new(Expr::Or(Box::new(Expr::True), Box::new(Expr::False))),
        )
    );
    let mut guard = Expr::Or(
        Box::new(Expr::And(Box::new(leaf("Door", "Open", 1)), Box::new(leaf("X", "P", 2)))),
        Box::new(leaf("Y", "Q", 3)),
    );
    assert_eq!(guard.resolve_resource(&resources()), unknown("resource", "X", 2, 1));
    assert_eq!(guard.resolve_state(&states()), unknown("state", "P", 2, 9));
    assert_eq!(guard.clone(), guard);
    assert_eq!(guard.copy(), guard);
}

#[test]
fn constant_guards_resolve_to_themselves() {
    let mut guard = Expr::True;
    assert_eq!(guard.resolve_resource(&NameMap::new()), Ok(()));
    assert_eq!(guard.resolve_state(&NameMap::new()), Ok(()));
    assert_eq!(guard, Expr::True);
    let mut guard = Expr::Not(Box::new(Expr::False));
    assert_eq!(Resolvable::resolve_resource(&mut guard, &NameMap::new()), Ok(()));
    assert_eq!(guard, Expr::Not(Box::new(Expr::False)));
}

#[test]
fn conditions_resolve_their_guards() {
    let guard = Expr::ResourceEq(name("Door", 1, 1), name("Open", 1, 9));
    let mut precondition = Precondition::new("open", guard.clone(), at(1, 1));
    assert_eq!(precondition.resolve_resource(&resources()), Ok(()));
    assert_eq!(precondition.resolve_state(&states()), Ok(()));
    assert_eq!(
        precondition.expr(),
        &Expr::ResourceEq(
            Reference::Resolved(ResourceId(0)),
            Reference::Resolved(StateId(ResourceId(0), 0))
        )
    );
    let mut postcondition = Postcondition::new("open", guard, at(1, 1));
    assert_eq!(postcondition.id(), PostconditionId(0));
    assert_eq!(postcondition.name(), "open");
    assert_eq!(postcondition.resolve_state(&NameMap::new()), unknown("state", "Open", 1, 9));
    assert_eq!(postcondition.resolve_resource(&NameMap::new()), unknown("resource", "Door", 1, 1));
    postcondition.set_id(PostconditionId(3));
    assert_eq!(postcondition.id().index(), 3);
}

#[test]
fn an_invariant_resolves_its_guard_before_its_effects() {
    let mut invariant = Invariant::new(
        "watch",
        Expr::ResourceEq(name("G", 1, 1), name("P", 1, 9)),
        vec![Effect::new(name("E", 2, 1), name("Q", 2, 9))],
        at(1, 1),
    );
    assert_eq!(invariant.resolve_resource(&resources()), unknown("resource", "G", 1, 1));
    assert_eq!(invariant.resolve_state(&states()), unknown("state", "P", 1, 9));
    let mut invariant = Invariant::new(
        "watch",
        Expr::ResourceEq(name("Door", 1, 1), name("Open", 1, 9)),
        vec![
            Effect::new(name("Arm", 2, 1), name("Up", 2, 9)),
            Effect::new(name("E", 3, 1), name("Q", 3, 9)),
        ],
        at(1, 1),
    );
    assert_eq!(invariant.resolve_resource(&resources()), unknown("resource", "E", 3, 1));
    assert_eq!(invariant.resolve_state(&states()), unknown("state", "Q", 3, 9));
}

#[test]
fn an_event_resolves_its_guard_before_its_effects() {
    let mut event = Event::new(
        "knock",
        Some(Expr::ResourceEq(name("G", 1, 1), name("P", 1, 9))),
        vec![Effect::new(name("E", 2, 1), name("Q", 2, 9))],
        at(1, 1),
    );
    assert_eq!(event.id(), EventId(0));
    assert_eq!(event.resolve_resource(&resources()), unknown("resource", "G", 1, 1));
    assert_eq!(event.resolve_state(&states()), unknown("state", "P", 1, 9));
    let mut event =
        Event::new("knock", None, vec![Effect::new(name("Door", 2, 1), name("Open", 2, 9))], None);
    assert_eq!(event.resolve_resource(&resources()), Ok(()));
    assert_eq!(event.resolve_state(&states()), Ok(()));
    assert_eq!(event.guard(), &None);
    assert_eq!(
        event.effects(),
        &vec![Effect::new(
            Reference::Resolved(ResourceId(0)),
            Reference::Resolved(StateId(ResourceId(0), 0))
        )]
    );
}

#[test]
fn a_transition_resolves_its_source_before_its_destination() {
    let mut transition = Transition::new(name("Open", 1, 1), name("Up", 1, 9));
    assert_eq!(transition.resolve(&states()), Ok(()));
    assert_eq!(transition.src(), &Reference::Resolved(StateId(ResourceId(0), 0)));
    assert_eq!(transition.dst(), &Reference::Resolved(StateId(ResourceId(1), 0)));
    let mut transition = Transition::new(name("A", 1, 1), name("B", 1, 9));
    assert_eq!(transition.resolve(&states()), unknown("state", "A", 1, 1));
    let mut transition = Transition::new(name("Open", 1, 1), name("B", 1, 9));
    assert_eq!(transition.resolve(&states()), unknown("state", "B", 1, 9));
    assert_eq!(transition.src(), &Reference::Resolved(StateId(ResourceId(0), 0)));
    assert_eq!(Resolvable::resolve_resource(&mut transition, &resources()), Ok(()));
}

#[test]
fn a_policy_resolves_what_it_lists() {
    let mut policy = Transitions::All;
    assert_eq!(policy.resolve(&NameMap::new()), Ok(()));
    assert_eq!(policy, Transitions::All);
    let mut policy = Transitions::List(vec![
        Transition::new(name("Open", 1, 1), name("Up", 1, 9)),
        Transition::new(name("Up", 2, 1), name("Down", 2, 9)),
        Transition::new(name("Left", 3, 1), name("Open", 3, 9)),
    ]);
    assert_eq!(policy.resolve(&states()), unknown("state", "Down", 2, 9));
    assert_eq!(policy.clone(), policy);
}

#[test]
fn a_failed_resolution_leaves_a_data_item_as_it_was() {
    let mut data = Data::new("x", Reference::Unresolved("T".to_string(), None), None, None);
    assert_eq!(
        data.resolve_type(&NameMap::new()),
        Err(RlError::Resolve { element: "type 'T'".to_string(), position: None })
    );
    assert_eq!(data.rl_type(), &Reference::Unresolved("T".to_string(), None));
    assert_eq!(data.name(), "x");
    assert_eq!(data.id(), DataId(0));
}
