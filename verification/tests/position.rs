use line_col::LineColLookup;
use skillset::parser::{Identifier, Position, RlError};

#[test]
fn positions_count_lines_and_columns_from_one() {
    let text = "One\nTwo";
    let lookup = LineColLookup::new(text);
    let expected = [(1, 1), (1, 2), (1, 3), (1, 4), (2, 1), (2, 2), (2, 3), (2, 4)];
    for (offset, (line, column)) in expected.iter().enumerate() {
        let position = Position::new("robot.rl", &lookup, offset);
        assert_eq!(
            position,
            Position { file: "robot.rl".to_string(), line: *line, column: *column }
        );
    }
}

#[test]
fn the_start_of_an_empty_text_is_line_one_column_one() {
    let lookup = LineColLookup::new("");
    let position = Position::new("empty.rl", &lookup, 0);
    assert_eq!(position, Position { file: "empty.rl".to_string(), line: 1, column: 1 });
}

#[test]
fn columns_are_counted_in_bytes() {
    let text = "é = 1\nx";
    let lookup = LineColLookup::new(text);
    assert_eq!(Position::new("f", &lookup, 2).column, 3);
    assert_eq!(Position::new("f", &lookup, 7).line, 2);
    assert_eq!(Position::new("f", &lookup, 7).column, 1);
}

#[test]
fn a_position_behind_a_trailing_line_feed_is_on_the_next_line() {
    let lookup = LineColLookup::new("a\n\nb\n");
    let at = Position::new("f", &lookup, 2);
    assert_eq!((at.line, at.column), (2, 1));
    let at = Position::new("f", &lookup, 3);
    assert_eq!((at.line, at.column), (3, 1));
    let at = Position::new("f", &lookup, 5);
    assert_eq!((at.line, at.column), (4, 1));
}

#[test]
fn locating_checks_the_offset() {
    assert_eq!(
        Position::locate("robot.rl", "skillset robot {\n  data {}\n}", 19),
        Some(Position { file: "robot.rl".to_string(), line: 2, column: 3 })
    );
    assert_eq!(
        Position::locate("robot.rl", "abc", 3),
        Some(Position { file: "robot.rl".to_string(), line: 1, column: 4 })
    );
    assert_eq!(Position::locate("robot.rl", "abc", 4), None);
    assert_eq!(Position::locate("robot.rl", "é", 2).map(|p| p.column), Some(3));
    assert_eq!(Position::locate("robot.rl", "é", 3), None);
}

#[test]
fn an_identifier_carries_its_name_and_position() {
    let text = "resource {\n  Door\n}";
    let lookup = LineColLookup::new(text);
    let identifier = Identifier::new("robot.rl", &lookup, "Door", 13);
    assert_eq!(identifier.name, "Door");
    assert_eq!(
        identifier.position,
        Position { file: "robot.rl".to_string(), line: 2, column: 3 }
    );
}

#[test]
fn locating_an_identifier_checks_the_offset() {
    let text = "resource {\n  Door\n}";
    let found = Identifier::locate("robot.rl", text, "Door", 13).unwrap();
    assert_eq!(found.name, "Door");
    assert_eq!(found.position, Position { file: "robot.rl".to_string(), line: 2, column: 3 });
    assert!(Identifier::locate("robot.rl", text, "Door", text.len() + 1).is_none());
    assert!(Identifier::locate("robot.rl", text, "Door", text.len()).is_some());
}

#[test]
fn a_copy_of_a_position_is_equal_to_it() {
    let position = Position { file: "robot.rl".to_string(), line: 4, column: 2 };
    assert_eq!(position.clone(), position);
}

#[test]
fn errors_are_built_from_their_parts() {
    let at = Some(Position { file: "robot.rl".to_string(), line: 4, column: 2 });
    assert_eq!(
        RlError::new_file("robot.rl", "not found"),
        RlError::File { filename: "robot.rl".to_string(), message: "not found".to_string() }
    );
    assert_eq!(
        RlError::new_parse("robot.rl", at.clone(), "unexpected token"),
        RlError::Parse {
            file: "robot.rl".to_string(),
            position: at.clone(),
            message: "unexpected token".to_string(),
        }
    );
    assert_eq!(
        RlError::new_resolve("resource", "Door", at.clone()),
        RlError::Resolve { element: "resource 'Door'".to_string(), position: at.clone() }
    );
    assert_eq!(
        RlError::new_resolve("", "", None),
        RlError::Resolve { element: " ''".to_string(), position: None }
    );
    assert_eq!(
        RlError::new_duplicate("Door", None, at.clone()),
        RlError::Duplicate { name: "Door".to_string(), first: None, position: at.clone() }
    );
    let error = RlError::new_duplicate("Door", None, at);
    assert_eq!(error.clone(), error);
}
