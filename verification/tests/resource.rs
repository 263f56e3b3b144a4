use skillset::model::{
    Id, NameMap, Named, Reference, Resource, ResourceId, State, StateId, Transition, Transitions,
};
use skillset::parser::{Position, RlError};

fn at(line: usize, column: usize) -> Option<Position> {
    Some(Position { file: "robot.rl".to_string(), line, column })
}

fn abc() -> Resource {
    let mut resource = Resource::new("Arm", at(1, 1));
    resource.add_state(State::new("A", at(2, 5)));
    resource.add_state(State::new("B", at(2, 8)));
    resource.add_state(State::new("C", at(2, 11)));
    resource
}

fn resolved(resource: usize, index: usize) -> Reference<StateId> {
    Reference::Resolved(StateId(ResourceId(resource), index))
}

#[test]
fn a_new_resource_is_empty_and_allows_every_transition() {
    let resource = Resource::new("Arm", at(1, 1));
    assert_eq!(resource.name(), "Arm");
    assert_eq!(resource.id(), ResourceId::default());
    assert_eq!(resource.position(), at(1, 1));
    assert!(resource.states().is_empty());
    assert_eq!(resource.transitions(), &Transitions::All);
    assert_eq!(resource.initial_reference(), &Reference::Unresolved("?".to_string(), None));
    assert!(resource.transitions_list().is_empty());
}

#[test]
fn states_get_the_resource_and_their_index() {
    let mut resource = Resource::new("Arm", None);
    assert_eq!(resource.add_state(State::new("A", None)), StateId(ResourceId(0), 0));
    assert_eq!(resource.add_state(State::new("B", None)), StateId(ResourceId(0), 1));
    assert_eq!(resource.states()[1].id(), StateId(ResourceId(0), 1));
    assert_eq!(resource.states()[1].name(), "B");
}

#[test]
fn all_pairs_of_three_states_are_six_ordered_pairs_without_loops() {
    let list = abc().transitions_list();
    assert_eq!(list.len(), 6);
    for transition in list.iter() {
        assert_ne!(transition.src(), transition.dst());
    }
    let expected = vec![
        Transition::new(resolved(0, 0), resolved(0, 1)),
        Transition::new(resolved(0, 0), resolved(0, 2)),
        Transition::new(resolved(0, 1), resolved(0, 0)),
        Transition::new(resolved(0, 1), resolved(0, 2)),
        Transition::new(resolved(0, 2), resolved(0, 0)),
        Transition::new(resolved(0, 2), resolved(0, 1)),
    ];
    assert_eq!(list, expected);
}

#[test]
fn all_pairs_of_one_state_is_empty() {
    let mut resource = Resource::new("Arm", None);
    resource.add_state(State::new("A", None));
    assert!(resource.transitions_list().is_empty());
}

#[test]
fn all_pairs_of_four_states_are_twelve() {
    let mut resource = abc();
    resource.add_state(State::new("D", None));
    let list = resource.transitions_list();
    assert_eq!(list.len(), 12);
    assert_eq!(list[5], Transition::new(resolved(0, 1), resolved(0, 3)));
    assert_eq!(list[9], Transition::new(resolved(0, 3), resolved(0, 0)));
}

#[test]
fn listed_transitions_come_back_as_listed() {
    let mut resource = abc();
    let listed = vec![
        Transition::new(
            Reference::Unresolved("C".to_string(), at(4, 1)),
            Reference::Unresolved("A".to_string(), at(4, 6)),
        ),
        Transition::new(resolved(0, 0), resolved(0, 0)),
    ];
    resource.set_transitions(Transitions::List(listed.clone()));
    assert_eq!(resource.transitions_list(), listed);
}

#[test]
fn lookup_by_identifier_checks_the_owner() {
    let resource = abc();
    assert_eq!(resource.get_state(StateId(ResourceId(0), 2)).map(|s| s.name()), Some("C"));
    assert!(resource.get_state(StateId(ResourceId(0), 3)).is_none());
    assert!(resource.get_state(StateId(ResourceId(1), 0)).is_none());
}

#[test]
fn lookup_by_name_finds_the_first_state_of_that_name() {
    let mut resource = abc();
    resource.add_state(State::new("B", None));
    assert_eq!(
        resource.get_state_from_name("B").map(|s| s.id()),
        Some(StateId(ResourceId(0), 1))
    );
    assert!(resource.get_state_from_name("Z").is_none());
    assert!(resource.get_state_from_name("").is_none());
}

#[test]
fn the_state_map_gives_each_name_its_last_state() {
    let mut resource = abc();
    resource.add_state(State::new("B", None));
    let map = resource.state_map();
    assert_eq!(map.len(), 3);
    assert_eq!(map.get("A"), Some(&StateId(ResourceId(0), 0)));
    assert_eq!(map.get("B"), Some(&StateId(ResourceId(0), 3)));
    assert_eq!(map.get("C"), Some(&StateId(ResourceId(0), 2)));
    assert_eq!(map.get("D"), None);
}

#[test]
fn names_list_the_states_in_order() {
    assert_eq!(
        abc().names(),
        vec![
            ("A".to_string(), at(2, 5)),
            ("B".to_string(), at(2, 8)),
            ("C".to_string(), at(2, 11)),
        ]
    );
}

#[test]
fn a_new_identifier_reaches_every_state() {
    let mut resource = abc();
    resource.set_id(ResourceId(5));
    assert_eq!(resource.id(), ResourceId(5));
    for (index, state) in resource.states().iter().enumerate() {
        assert_eq!(state.id(), StateId(ResourceId(5), index));
    }
    assert_eq!(resource.states()[2].name(), "C");
    assert_eq!(resource.get_state(StateId(ResourceId(5), 0)).map(|s| s.name()), Some("A"));
    assert!(resource.get_state(StateId(ResourceId(0), 0)).is_none());
}

#[test]
fn the_initial_state_resolves_to_a_state_of_the_resource() {
    let mut resource = abc();
    resource.set_id(ResourceId(2));
    resource.set_initial(Reference::Unresolved("B".to_string(), at(3, 13)));
    assert_eq!(resource.resolve_state(), Ok(()));
    assert_eq!(resource.initial(), StateId(ResourceId(2), 1));
    assert_eq!(resource.initial_reference(), &resolved(2, 1));
}

#[test]
fn an_unknown_initial_state_is_reported() {
    let mut resource = abc();
    resource.set_initial(Reference::Unresolved("Idle".to_string(), at(3, 13)));
    assert_eq!(
        resource.resolve_state(),
        Err(RlError::Resolve { element: "state 'Idle'".to_string(), position: at(3, 13) })
    );
}

#[test]
fn a_new_resource_cannot_resolve_its_placeholder() {
    let mut resource = abc();
    assert_eq!(
        resource.resolve_state(),
        Err(RlError::Resolve { element: "state '?'".to_string(), position: None })
    );
}

#[test]
fn listed_transitions_are_resolved_against_the_states_of_the_resource() {
    let mut resource = abc();
    resource.set_initial(Reference::Unresolved("A".to_string(), None));
    resource.set_transitions(Transitions::List(vec![
        Transition::new(
            Reference::Unresolved("A".to_string(), None),
            Reference::Unresolved("B".to_string(), None),
        ),
        Transition::new(resolved(0, 2), Reference::Unresolved("A".to_string(), None)),
    ]));
    assert_eq!(resource.resolve_state(), Ok(()));
    assert_eq!(
        resource.transitions_list(),
        vec![
            Transition::new(resolved(0, 0), resolved(0, 1)),
            Transition::new(resolved(0, 2), resolved(0, 0)),
        ]
    );
}

#[test]
fn the_first_unknown_end_of_a_listed_transition_is_reported() {
    let mut resource = abc();
    resource.set_initial(Reference::Unresolved("A".to_string(), None));
    resource.set_transitions(Transitions::List(vec![
        Transition::new(
            Reference::Unresolved("A".to_string(), at(5, 1)),
            Reference::Unresolved("X".to_string(), at(5, 6)),
        ),
        Transition::new(
            Reference::Unresolved("Y".to_string(), at(6, 1)),
            Reference::Unresolved("B".to_string(), at(6, 6)),
        ),
    ]));
    assert_eq!(
        resource.resolve_state(),
        Err(RlError::Resolve { element: "state 'X'".to_string(), position: at(5, 6) })
    );
}

#[test]
fn the_initial_state_is_resolved_against_a_given_map() {
    let mut resource = abc();
    resource.set_initial(Reference::Unresolved("Far".to_string(), None));
    let mut map: NameMap<StateId> = NameMap::new();
    map.insert("Far".to_string(), StateId(ResourceId(9), 4));
    assert_eq!(resource.resolve_initial_state(&map), Ok(()));
    assert_eq!(resource.initial(), StateId(ResourceId(9), 4));
}

#[test]
fn a_copy_of_a_resource_holds_the_same() {
    let mut resource = abc();
    resource.set_initial(Reference::Unresolved("B".to_string(), None));
    let copy = resource.clone();
    assert_eq!(copy.name(), "Arm");
    assert_eq!(copy.names(), resource.names());
    assert_eq!(copy.initial_reference(), resource.initial_reference());
    assert_eq!(copy.transitions_list(), resource.transitions_list());
}
