use skillset::model::{check_duplicate, merge_naming, Naming};
use skillset::parser::{Position, RlError};

fn at(line: usize) -> Option<Position> {
    Some(Position { file: "robot.rl".to_string(), line, column: 1 })
}

fn names(list: &[(&str, usize)]) -> Vec<Naming> {
    list.iter().map(|(name, line)| (name.to_string(), at(*line))).collect()
}

#[test]
fn a_repeated_name_fails_and_cites_the_second_occurrence() {
    let result = check_duplicate(names(&[("A", 1), ("B", 2), ("A", 3)]));
    assert_eq!(
        result,
        Err(RlError::Duplicate { name: "A".to_string(), first: at(1), position: at(3) })
    );
}

#[test]
fn distinct_names_pass_in_every_order() {
    let orders: [[(&str, usize); 3]; 6] = [
        [("A", 1), ("B", 2), ("C", 3)],
        [("A", 1), ("C", 3), ("B", 2)],
        [("B", 2), ("A", 1), ("C", 3)],
        [("B", 2), ("C", 3), ("A", 1)],
        [("C", 3), ("A", 1), ("B", 2)],
        [("C", 3), ("B", 2), ("A", 1)],
    ];
    for order in orders.iter() {
        assert_eq!(check_duplicate(names(order)), Ok(()));
    }
}

#[test]
fn a_repeated_name_fails_in_every_order() {
    let orders: [[(&str, usize); 3]; 3] = [
        [("A", 1), ("B", 2), ("A", 3)],
        [("A", 1), ("A", 3), ("B", 2)],
        [("B", 2), ("A", 1), ("A", 3)],
    ];
    for order in orders.iter() {
        assert!(check_duplicate(names(order)).is_err());
    }
}

#[test]
fn the_order_decides_which_occurrence_is_the_first() {
    let result = check_duplicate(names(&[("A", 3), ("B", 2), ("A", 1)]));
    assert_eq!(
        result,
        Err(RlError::Duplicate { name: "A".to_string(), first: at(3), position: at(1) })
    );
}

#[test]
fn the_leftmost_clash_is_reported() {
    let result = check_duplicate(names(&[("A", 1), ("B", 2), ("B", 3), ("A", 4)]));
    assert_eq!(
        result,
        Err(RlError::Duplicate { name: "B".to_string(), first: at(2), position: at(3) })
    );
}

#[test]
fn a_name_seen_three_times_is_reported_at_its_second_occurrence() {
    let result = check_duplicate(names(&[("A", 1), ("A", 2), ("A", 3)]));
    assert_eq!(
        result,
        Err(RlError::Duplicate { name: "A".to_string(), first: at(1), position: at(2) })
    );
}

#[test]
fn an_empty_namespace_passes() {
    assert_eq!(check_duplicate(Vec::new()), Ok(()));
}

#[test]
fn names_differ_by_case() {
    assert_eq!(check_duplicate(names(&[("idle", 1), ("Idle", 2)])), Ok(()));
}

#[test]
fn merging_puts_the_globals_first() {
    let globals = names(&[("Bool", 1)]);
    let merged = merge_naming(&globals, names(&[("x", 2), ("y", 3)]));
    assert_eq!(merged, names(&[("Bool", 1), ("x", 2), ("y", 3)]));
    assert_eq!(globals, names(&[("Bool", 1)]));
}
