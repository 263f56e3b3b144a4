use skillset::model::{Id, NameMap, Reference, ResourceId, StateId, TypeId};
use skillset::parser::{Position, RlError};

fn at(line: usize, column: usize) -> Option<Position> {
    Some(Position { file: "robot.rl".to_string(), line, column })
}

fn types() -> NameMap<TypeId> {
    let mut map = NameMap::new();
    map.insert("Bool".to_string(), TypeId(0));
    map.insert("Pose".to_string(), TypeId(1));
    map
}

#[test]
fn resolving_a_resolved_reference_returns_it_unchanged() {
    let reference = Reference::Resolved(TypeId(7));
    assert_eq!(reference.resolve(&types(), "type"), Ok(Reference::Resolved(TypeId(7))));
    let empty: NameMap<TypeId> = NameMap::new();
    assert_eq!(reference.resolve(&empty, "type"), Ok(Reference::Resolved(TypeId(7))));
}

#[test]
fn resolving_twice_is_the_same_as_resolving_once() {
    let reference: Reference<TypeId> = Reference::Unresolved("Pose".to_string(), at(3, 9));
    let once = reference.resolve(&types(), "type").unwrap();
    let empty: NameMap<TypeId> = NameMap::new();
    let twice = once.resolve(&empty, "type").unwrap();
    assert_eq!(once, Reference::Resolved(TypeId(1)));
    assert_eq!(twice, once);
}

#[test]
fn a_known_name_resolves_to_its_identifier() {
    let reference: Reference<TypeId> = Reference::Unresolved("Bool".to_string(), None);
    assert_eq!(reference.resolve(&types(), "type"), Ok(Reference::Resolved(TypeId(0))));
}

#[test]
fn an_unknown_name_is_reported_with_the_place_of_its_use() {
    let reference: Reference<TypeId> = Reference::Unresolved("Speed".to_string(), at(12, 4));
    assert_eq!(
        reference.resolve(&types(), "type"),
        Err(RlError::Resolve { element: "type 'Speed'".to_string(), position: at(12, 4) })
    );
}

#[test]
fn an_unknown_name_without_position_is_reported_without_one() {
    let reference: Reference<StateId> = Reference::Unresolved("Idle".to_string(), None);
    let empty: NameMap<StateId> = NameMap::new();
    assert_eq!(
        reference.resolve(&empty, "state"),
        Err(RlError::Resolve { element: "state 'Idle'".to_string(), position: None })
    );
}

#[test]
fn resolving_in_place_rewrites_the_reference() {
    let mut reference: Reference<TypeId> = Reference::Unresolved("Pose".to_string(), None);
    assert_eq!(reference.resolve_in_place(&types(), "type"), Ok(()));
    assert_eq!(reference, Reference::Resolved(TypeId(1)));
    assert!(reference.is_resolved());
    assert_eq!(reference.resolved(), TypeId(1));
}

#[test]
fn resolving_in_place_leaves_a_failed_reference_as_it_was() {
    let mut reference: Reference<TypeId> = Reference::Unresolved("Speed".to_string(), at(1, 1));
    assert!(reference.resolve_in_place(&types(), "type").is_err());
    assert_eq!(reference, Reference::Unresolved("Speed".to_string(), at(1, 1)));
    assert!(!reference.is_resolved());
}

#[test]
fn placeholders_are_zero() {
    assert_eq!(TypeId::default(), TypeId(0));
    assert_eq!(ResourceId::default(), ResourceId(0));
    assert_eq!(StateId::default(), StateId(ResourceId(0), 0));
    assert_eq!(StateId(ResourceId(4), 2).index(), 2);
    assert_eq!(StateId(ResourceId(4), 2).resource(), ResourceId(4));
    assert_eq!(ResourceId(4).index(), 4);
}
