use skillset::load_skillset;
use skillset::model::{
    Data, DataId, Effect, Event, EventId, Expr, GetFromId, Id, Invariant, InvariantId, Named,
    Precondition, PreconditionId, Reference, Resource, ResourceId, RlType, Skill, SkillId,
    Skillset, State, StateId, Success, SuccessId, TypeId, Variable,
};
use skillset::parser::{Position, RlError};

fn at(line: usize, column: usize) -> Option<Position> {
    Some(Position { file: "robot.rl".to_string(), line, column })
}

fn name<I: Id>(text: &str, line: usize, column: usize) -> Reference<I> {
    Reference::Unresolved(text.to_string(), at(line, column))
}

fn resource(text: &str, line: usize, states: &[&str], initial: &str) -> Resource {
    let mut resource = Resource::new(text, at(line, 1));
    for (index, state) in states.iter().enumerate() {
        resource.add_state(State::new(state, at(line + 1, 5 + index)));
    }
    resource.set_initial(name(initial, line + 2, 13));
    resource
}

fn door() -> Resource {
    resource("Door", 10, &["Open", "Closed"], "Closed")
}

fn door_is(state: &str, line: usize) -> Expr {
    Expr::ResourceEq(name("Door", line, 5), name(state, line, 13))
}

fn open_door() -> Skill {
    let mut skill = Skill::new("OpenDoor", at(20, 1));
    skill.add_precondition(Precondition::new("door_closed", door_is("Closed", 22), at(22, 1)));
    skill.set_start(vec![Effect::new(name("Door", 24, 5), name("Open", 24, 13))]);
    skill
}

fn door_model() -> Skillset {
    let mut skillset = Skillset::new("robot", at(1, 1));
    skillset.add_type(RlType::new("Bool", at(2, 1)));
    skillset.add_resource(door());
    skillset.add_skill(open_door());
    skillset
}

#[test]
fn a_new_skillset_is_empty() {
    let skillset = Skillset::new("robot", at(1, 1));
    assert_eq!(skillset.name(), "robot");
    assert_eq!(skillset.position(), at(1, 1));
    assert!(skillset.types().is_empty());
    assert!(skillset.data().is_empty());
    assert!(skillset.resources().is_empty());
    assert!(skillset.events().is_empty());
    assert!(skillset.skills().is_empty());
    assert_eq!(skillset.duplicate(), Ok(()));
    let mut skillset = skillset;
    assert_eq!(skillset.resolve(), Ok(()));
    assert_eq!(Skillset::default().name(), "");
}

#[test]
fn entities_get_their_index_as_identifier() {
    let mut skillset = Skillset::new("robot", None);
    assert_eq!(skillset.add_type(RlType::new("Bool", None)), TypeId(0));
    assert_eq!(skillset.add_type(RlType::new("Pose", None)), TypeId(1));
    assert_eq!(skillset.add_data(Data::new("battery", name("Bool", 1, 1), None, None)), DataId(0));
    assert_eq!(skillset.add_resource(door()), ResourceId(0));
    assert_eq!(skillset.add_resource(resource("Arm", 30, &["Up"], "Up")), ResourceId(1));
    assert_eq!(skillset.add_event(Event::new("alarm", None, Vec::new(), None)), EventId(0));
    assert_eq!(skillset.add_skill(open_door()), SkillId(0));
    assert_eq!(skillset.add_skill(Skill::new("Close", None)), SkillId(1));
    assert_eq!(skillset.types()[1].id(), TypeId(1));
    assert_eq!(skillset.resources()[1].id(), ResourceId(1));
    assert_eq!(skillset.skills()[1].id(), SkillId(1));
    assert_eq!(skillset.get_type(TypeId(1)).map(|x| x.name()), Some("Pose"));
    assert!(skillset.get_type(TypeId(2)).is_none());
    assert_eq!(skillset.get_data(DataId(0)).map(|x| x.name()), Some("battery"));
    assert!(skillset.get_data(DataId(1)).is_none());
    assert_eq!(skillset.get_resource(ResourceId(1)).map(|x| x.name()), Some("Arm"));
    assert!(skillset.get_resource(ResourceId(2)).is_none());
    assert_eq!(skillset.get_event(EventId(0)).map(|x| x.name()), Some("alarm"));
    assert!(skillset.get_event(EventId(1)).is_none());
    assert_eq!(skillset.get_skill(SkillId(0)).map(|x| x.name()), Some("OpenDoor"));
    assert!(skillset.get_skill(SkillId(2)).is_none());
}

#[test]
fn inserting_a_resource_gives_its_states_the_final_identifier() {
    let mut skillset = Skillset::new("robot", None);
    skillset.add_resource(resource("Door", 10, &["Open", "Closed"], "Closed"));
    let arm = resource("Arm", 30, &["Up", "Down", "Folded"], "Up");
    for state in arm.states().iter() {
        assert_eq!(state.id().resource(), ResourceId::default());
    }
    let id = skillset.add_resource(arm);
    assert_eq!(id, ResourceId(1));
    let inserted = skillset.get_resource(id).unwrap();
    assert_eq!(inserted.states().len(), 3);
    for (index, state) in inserted.states().iter().enumerate() {
        assert_eq!(state.id(), StateId(ResourceId(1), index));
    }
    assert_eq!(skillset.get_state(StateId(ResourceId(1), 2)).map(|x| x.name()), Some("Folded"));
    assert_eq!(skillset.get_state(StateId(ResourceId(0), 1)).map(|x| x.name()), Some("Closed"));
    assert!(skillset.get_state(StateId(ResourceId(0), 2)).is_none());
    assert!(skillset.get_state(StateId(ResourceId(2), 0)).is_none());
}

#[test]
fn inserting_a_skill_gives_what_it_owns_the_final_identifier() {
    let mut skillset = Skillset::new("robot", None);
    skillset.add_skill(Skill::new("Close", None));
    let mut skill = open_door();
    skill.add_invariant(Invariant::new("stays", door_is("Open", 26), Vec::new(), None));
    skill.add_success(Success::new("opened", Vec::new(), Vec::new(), None));
    let id = skillset.add_skill(skill);
    assert_eq!(id, SkillId(1));
    let inserted = skillset.get_skill(id).unwrap();
    assert_eq!(inserted.preconditions()[0].id(), PreconditionId(SkillId(1), 0));
    assert_eq!(inserted.invariants()[0].id(), InvariantId(SkillId(1), 0));
    assert_eq!(inserted.successes()[0].id(), SuccessId(SkillId(1), 0));
    let found: Option<&Precondition> = skillset.get(PreconditionId(SkillId(1), 0));
    assert_eq!(found.map(|x| x.name()), Some("door_closed"));
    let found: Option<&Precondition> = skillset.get(PreconditionId(SkillId(0), 0));
    assert!(found.is_none());
    let found: Option<&Invariant> = skillset.get(InvariantId(SkillId(1), 0));
    assert_eq!(found.map(|x| x.name()), Some("stays"));
    let found: Option<&Success> = skillset.get(SuccessId(SkillId(1), 0));
    assert_eq!(found.map(|x| x.name()), Some("opened"));
    let found: Option<&Success> = skillset.get(SuccessId(SkillId(3), 0));
    assert!(found.is_none());
}

#[test]
fn the_door_model_is_checked_and_resolved() {
    let mut skillset = door_model();
    assert_eq!(skillset.duplicate(), Ok(()));
    assert_eq!(skillset.resolve(), Ok(()));
    let door = &skillset.resources()[0];
    let closed = door.get_state_from_name("Closed").unwrap().id();
    let open = door.get_state_from_name("Open").unwrap().id();
    assert_eq!(closed, StateId(ResourceId(0), 1));
    assert_eq!(door.initial(), closed);
    let skill = &skillset.skills()[0];
    assert_eq!(
        skill.preconditions()[0].expr(),
        &Expr::ResourceEq(Reference::Resolved(ResourceId(0)), Reference::Resolved(closed))
    );
    assert_eq!(
        skill.start(),
        &vec![Effect::new(Reference::Resolved(ResourceId(0)), Reference::Resolved(open))]
    );
    assert!(skill.start()[0].resource().is_resolved());
    assert!(skill.start()[0].state().is_resolved());
}

#[test]
fn loading_checks_and_resolves() {
    let loaded = load_skillset(Ok(door_model())).unwrap();
    assert_eq!(loaded.resources()[0].initial(), StateId(ResourceId(0), 1));
    assert!(loaded.skills()[0].start()[0].state().is_resolved());
}

#[test]
fn loading_hands_a_parse_error_on() {
    let error = RlError::new_parse("robot.rl", at(3, 4), "unexpected token");
    assert_eq!(load_skillset(Err(error.clone())).err(), Some(error));
    let error = RlError::new_file("robot.rl", "not found");
    assert_eq!(load_skillset(Err(error.clone())).err(), Some(error));
}

#[test]
fn loading_reports_a_duplicate_before_it_resolves() {
    let mut skillset = door_model();
    skillset.add_resource(resource("Bool", 40, &["Up"], "Nowhere"));
    assert_eq!(
        load_skillset(Ok(skillset)).err(),
        Some(RlError::Duplicate { name: "Bool".to_string(), first: at(2, 1), position: at(40, 1) })
    );
}

#[test]
fn loading_reports_the_first_reference_that_does_not_resolve() {
    let mut skillset = door_model();
    skillset.add_data(Data::new("battery", name("Level", 5, 12), None, at(5, 1)));
    assert_eq!(
        load_skillset(Ok(skillset)).err(),
        Some(RlError::Resolve { element: "type 'Level'".to_string(), position: at(5, 12) })
    );
}

#[test]
fn a_state_of_a_later_resource_can_be_named() {
    let mut skillset = Skillset::new("robot", None);
    let mut skill = Skill::new("Watch", at(5, 1));
    skill.add_invariant(Invariant::new(
        "arm_up",
        Expr::ResourceEq(name("Arm", 7, 5), name("Up", 7, 12)),
        vec![Effect::new(name("Arm", 8, 5), name("Down", 8, 12))],
        at(7, 1),
    ));
    skillset.add_skill(skill);
    skillset.add_event(Event::new(
        "knock",
        Some(Expr::Not(Box::new(Expr::ResourceNe(name("Door", 3, 5), name("Closed", 3, 12))))),
        vec![Effect::new(name("Arm", 4, 5), name("Up", 4, 12))],
        at(3, 1),
    ));
    skillset.add_resource(door());
    skillset.add_resource(resource("Arm", 30, &["Up", "Down"], "Down"));
    assert_eq!(skillset.duplicate(), Ok(()));
    assert_eq!(skillset.resolve(), Ok(()));
    let arm = ResourceId(1);
    let invariant = &skillset.skills()[0].invariants()[0];
    assert_eq!(
        invariant.guard(),
        &Expr::ResourceEq(Reference::Resolved(arm), Reference::Resolved(StateId(arm, 0)))
    );
    assert_eq!(
        invariant.effects(),
        &vec![Effect::new(Reference::Resolved(arm), Reference::Resolved(StateId(arm, 1)))]
    );
    let event = &skillset.events()[0];
    assert_eq!(
        event.guard(),
        &Some(Expr::Not(Box::new(Expr::ResourceNe(
            Reference::Resolved(ResourceId(0)),
            Reference::Resolved(StateId(ResourceId(0), 1))
        ))))
    );
    assert_eq!(skillset.resources()[1].initial(), StateId(arm, 1));
}

#[test]
fn a_state_that_no_resource_declares_is_reported_where_it_is_used() {
    let mut skillset = door_model();
    let mut skill = Skill::new("Watch", at(40, 1));
    skill.add_invariant(Invariant::new(
        "door_ajar",
        Expr::ResourceEq(name("Door", 42, 5), name("Ajar", 42, 13)),
        Vec::new(),
        at(42, 1),
    ));
    skillset.add_skill(skill);
    assert_eq!(skillset.duplicate(), Ok(()));
    assert_eq!(
        skillset.resolve(),
        Err(RlError::Resolve { element: "state 'Ajar'".to_string(), position: at(42, 13) })
    );
}

#[test]
fn a_resource_that_is_not_declared_is_reported_where_it_is_used() {
    let mut skillset = door_model();
    skillset.add_event(Event::new(
        "knock",
        None,
        vec![Effect::new(name("Window", 50, 5), name("Open", 50, 15))],
        at(49, 1),
    ));
    assert_eq!(
        skillset.resolve(),
        Err(RlError::Resolve { element: "resource 'Window'".to_string(), position: at(50, 5) })
    );
}

#[test]
fn a_type_that_is_not_declared_is_reported_where_it_is_used() {
    let mut skillset = door_model();
    let mut skill = Skill::new("Move", None);
    skill.add_input(Variable::new("target", name("Bool", 60, 13), at(60, 5)));
    skill.add_output(Variable::new("reached", name("Pose", 61, 14), at(61, 5)));
    skillset.add_skill(skill);
    assert_eq!(
        skillset.resolve_type(),
        Err(RlError::Resolve { element: "type 'Pose'".to_string(), position: at(61, 14) })
    );
}

#[test]
fn a_resource_resolves_its_own_states_before_the_others_are_used() {
    let mut skillset = Skillset::new("robot", None);
    skillset.add_resource(resource("Door", 10, &["Open", "Closed"], "Up"));
    skillset.add_resource(resource("Arm", 30, &["Up", "Down"], "Down"));
    assert_eq!(skillset.duplicate(), Ok(()));
    assert_eq!(
        skillset.resolve_state(),
        Err(RlError::Resolve { element: "state 'Up'".to_string(), position: at(12, 13) })
    );
}

#[test]
fn the_passes_run_types_first_then_resources_then_states() {
    let mut skillset = door_model();
    skillset.add_data(Data::new("battery", name("Level", 5, 12), None, at(5, 1)));
    skillset.add_event(Event::new(
        "knock",
        None,
        vec![Effect::new(name("Window", 50, 5), name("Ajar", 50, 15))],
        None,
    ));
    assert_eq!(
        skillset.clone().resolve(),
        Err(RlError::Resolve { element: "type 'Level'".to_string(), position: at(5, 12) })
    );
    assert_eq!(
        skillset.clone().resolve_resource(),
        Err(RlError::Resolve { element: "resource 'Window'".to_string(), position: at(50, 5) })
    );
    assert_eq!(
        skillset.clone().resolve_state(),
        Err(RlError::Resolve { element: "state 'Ajar'".to_string(), position: at(50, 15) })
    );
}

#[test]
fn resolving_a_resolved_skillset_changes_nothing() {
    let mut skillset = door_model();
    assert_eq!(skillset.resolve(), Ok(()));
    let before = skillset.skills()[0].preconditions()[0].expr().clone();
    assert_eq!(skillset.resolve(), Ok(()));
    assert_eq!(skillset.skills()[0].preconditions()[0].expr(), &before);
    assert_eq!(skillset.resources()[0].initial(), StateId(ResourceId(0), 1));
}

#[test]
fn two_resources_cannot_declare_the_same_state() {
    let mut skillset = Skillset::new("robot", None);
    skillset.add_resource(resource("Door", 10, &["Idle", "Open"], "Idle"));
    skillset.add_resource(resource("Arm", 30, &["Up", "Idle"], "Up"));
    assert_eq!(
        skillset.duplicate(),
        Err(RlError::Duplicate { name: "Idle".to_string(), first: at(11, 5), position: at(31, 6) })
    );
}

#[test]
fn a_state_cannot_be_named_like_a_resource() {
    let mut skillset = Skillset::new("robot", None);
    skillset.add_resource(resource("Door", 10, &["Open", "Arm"], "Open"));
    skillset.add_resource(resource("Arm", 30, &["Up"], "Up"));
    assert_eq!(
        skillset.duplicate(),
        Err(RlError::Duplicate { name: "Arm".to_string(), first: at(11, 6), position: at(30, 1) })
    );
}

#[test]
fn an_input_cannot_be_named_like_a_type() {
    let mut skillset = Skillset::new("robot", None);
    skillset.add_type(RlType::new("Bool", at(2, 1)));
    let mut skill = Skill::new("Move", at(20, 1));
    skill.add_input(Variable::new("Bool", name("Bool", 21, 11), at(21, 5)));
    skillset.add_skill(skill);
    assert_eq!(
        skillset.duplicate(),
        Err(RlError::Duplicate { name: "Bool".to_string(), first: at(2, 1), position: at(21, 5) })
    );
}

#[test]
fn the_global_checks_come_in_order_and_before_the_skills() {
    let mut skillset = Skillset::new("robot", None);
    skillset.add_type(RlType::new("Bool", at(2, 1)));
    let mut skill = Skill::new("Move", at(20, 1));
    skill.add_input(Variable::new("Bool", name("Bool", 21, 11), at(21, 5)));
    skillset.add_skill(skill);
    skillset.add_skill(Skill::new("Move", at(30, 1)));
    assert_eq!(
        skillset.duplicate(),
        Err(RlError::Duplicate { name: "Move".to_string(), first: at(20, 1), position: at(30, 1) })
    );
    skillset.add_event(Event::new("tick", None, Vec::new(), at(15, 1)));
    skillset.add_event(Event::new("tick", None, Vec::new(), at(16, 1)));
    assert_eq!(
        skillset.duplicate(),
        Err(RlError::Duplicate { name: "tick".to_string(), first: at(15, 1), position: at(16, 1) })
    );
    skillset.add_resource(resource("Bool", 10, &[], "x"));
    assert_eq!(
        skillset.duplicate(),
        Err(RlError::Duplicate { name: "Bool".to_string(), first: at(2, 1), position: at(10, 1) })
    );
    skillset.add_data(Data::new("level", name("Bool", 5, 8), None, at(5, 1)));
    skillset.add_data(Data::new("level", name("Bool", 6, 8), None, at(6, 1)));
    assert_eq!(
        skillset.duplicate(),
        Err(RlError::Duplicate { name: "level".to_string(), first: at(5, 1), position: at(6, 1) })
    );
}

#[test]
fn two_types_of_one_name_fail_the_first_check() {
    let mut skillset = Skillset::new("robot", None);
    skillset.add_type(RlType::new("Bool", at(2, 1)));
    skillset.add_type(RlType::new("Bool", at(3, 1)));
    assert_eq!(
        skillset.duplicate(),
        Err(RlError::Duplicate { name: "Bool".to_string(), first: at(2, 1), position: at(3, 1) })
    );
}

#[test]
fn a_data_item_and_a_resource_may_share_a_name() {
    let mut skillset = Skillset::new("robot", None);
    skillset.add_data(Data::new("Door", name("Bool", 5, 8), None, at(5, 1)));
    skillset.add_resource(door());
    skillset.add_event(Event::new("Door", None, Vec::new(), None));
    skillset.add_skill(Skill::new("Door", None));
    assert_eq!(skillset.duplicate(), Ok(()));
}

#[test]
fn two_skills_may_use_the_same_local_names() {
    let mut skillset = door_model();
    let mut other = Skill::new("CloseDoor", at(40, 1));
    other.add_precondition(Precondition::new("door_closed", door_is("Open", 42), at(42, 1)));
    skillset.add_skill(other);
    assert_eq!(skillset.duplicate(), Ok(()));
}

#[test]
fn the_maps_give_each_name_its_identifier() {
    let mut skillset = door_model();
    skillset.add_type(RlType::new("Pose", None));
    skillset.add_resource(resource("Arm", 30, &["Up", "Open"], "Up"));
    let types = skillset.type_map();
    assert_eq!(types.len(), 2);
    assert_eq!(types.get("Pose"), Some(&TypeId(1)));
    let resources = skillset.resource_map();
    assert_eq!(resources.get("Door"), Some(&ResourceId(0)));
    assert_eq!(resources.get("Arm"), Some(&ResourceId(1)));
    assert_eq!(resources.get("Open"), None);
    let states = skillset.state_map();
    assert_eq!(states.len(), 3);
    assert_eq!(states.get("Closed"), Some(&StateId(ResourceId(0), 1)));
    assert_eq!(states.get("Up"), Some(&StateId(ResourceId(1), 0)));
    assert_eq!(states.get("Open"), Some(&StateId(ResourceId(1), 1)));
}

#[test]
fn the_namespaces_list_names_in_declaration_order() {
    let mut skillset = door_model();
    skillset.add_resource(resource("Arm", 30, &["Up"], "Up"));
    skillset.add_data(Data::new("level", name("Bool", 5, 8), None, at(5, 1)));
    skillset.add_event(Event::new("tick", None, Vec::new(), at(15, 1)));
    assert_eq!(skillset.type_naming(), vec![("Bool".to_string(), at(2, 1))]);
    assert_eq!(skillset.data_naming(), vec![("level".to_string(), at(5, 1))]);
    assert_eq!(skillset.event_naming(), vec![("tick".to_string(), at(15, 1))]);
    assert_eq!(skillset.skill_naming(), vec![("OpenDoor".to_string(), at(20, 1))]);
    assert_eq!(
        skillset.resource_naming(),
        vec![
            ("Door".to_string(), at(10, 1)),
            ("Open".to_string(), at(11, 5)),
            ("Closed".to_string(), at(11, 6)),
            ("Arm".to_string(), at(30, 1)),
            ("Up".to_string(), at(31, 5)),
        ]
    );
}

#[test]
fn data_types_are_resolved() {
    let mut skillset = door_model();
    skillset.add_data(Data::new("level", name("Bool", 5, 8), None, at(5, 1)));
    assert_eq!(skillset.resolve_type(), Ok(()));
    assert_eq!(skillset.data()[0].rl_type(), &Reference::Resolved(TypeId(0)));
}

#[test]
fn a_failed_resolution_changes_nothing_but_references() {
    let mut skillset = door_model();
    skillset.add_data(Data::new("level", name("Bool", 5, 8), None, at(5, 1)));
    let mut skill = Skill::new("Watch", at(40, 1));
    skill.add_invariant(Invariant::new(
        "door_ajar",
        Expr::And(
            Box::new(Expr::ResourceEq(name("Door", 42, 5), name("Open", 42, 13))),
            Box::new(Expr::ResourceEq(name("Door", 43, 5), name("Ajar", 43, 13))),
        ),
        Vec::new(),
        at(42, 1),
    ));
    skillset.add_skill(skill);
    skillset.resources()[0].initial_reference();
    assert!(skillset.resolve().is_err());
    assert_eq!(skillset.types().len(), 1);
    assert_eq!(skillset.data().len(), 1);
    assert_eq!(skillset.resources().len(), 1);
    assert_eq!(skillset.skills().len(), 2);
    assert_eq!(skillset.skills()[1].id(), SkillId(1));
    assert_eq!(skillset.skills()[1].name(), "Watch");
    assert_eq!(skillset.skills()[1].invariants()[0].id(), InvariantId(SkillId(1), 0));
    assert_eq!(skillset.resources()[0].states().len(), 2);
    assert_eq!(skillset.duplicate(), Ok(()));
    assert_eq!(skillset.data()[0].rl_type(), &Reference::Resolved(TypeId(0)));
    let door = Reference::Resolved(ResourceId(0));
    assert_eq!(
        skillset.skills()[1].invariants()[0].guard(),
        &Expr::And(
            Box::new(Expr::ResourceEq(
                door.clone(),
                Reference::Resolved(StateId(ResourceId(0), 0))
            )),
            Box::new(Expr::ResourceEq(door, name("Ajar", 43, 13))),
        )
    );
}
