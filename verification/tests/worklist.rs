use skillset::parser::Parser;

#[test]
fn a_new_worklist_holds_its_file() {
    let parser = Parser::new("main.rl");
    assert_eq!(parser.current(), &None);
    assert_eq!(parser.todo(), &vec!["main.rl".to_string()]);
    assert!(parser.done().is_empty());
    assert_eq!(parser.files(), vec!["main.rl".to_string()]);
    assert_eq!(parser.model.name(), "");
}

#[test]
fn the_default_worklist_is_empty() {
    let mut parser = Parser::default();
    assert!(parser.files().is_empty());
    assert_eq!(parser.next(), None);
    assert_eq!(parser.current(), &None);
}

#[test]
fn adding_a_known_path_does_nothing() {
    let mut parser = Parser::new("main.rl");
    assert!(!parser.add("main.rl"));
    assert!(parser.add("arm.rl"));
    assert!(!parser.add("arm.rl"));
    assert_eq!(parser.todo(), &vec!["main.rl".to_string(), "arm.rl".to_string()]);
}

#[test]
fn the_file_added_last_is_read_first() {
    let mut parser = Parser::new("main.rl");
    assert_eq!(parser.next(), Some("main.rl".to_string()));
    assert_eq!(parser.file(), "main.rl");
    assert!(parser.add("a.rl"));
    assert!(parser.add("b.rl"));
    assert_eq!(parser.next(), Some("b.rl".to_string()));
    assert_eq!(parser.done(), &vec!["main.rl".to_string()]);
    assert_eq!(parser.next(), Some("a.rl".to_string()));
    assert_eq!(parser.current(), &Some("a.rl".to_string()));
    assert_eq!(parser.done(), &vec!["main.rl".to_string(), "b.rl".to_string()]);
    assert_eq!(parser.next(), None);
}

#[test]
fn files_list_the_current_file_then_the_waiting_then_the_read() {
    let mut parser = Parser::new("main.rl");
    parser.next();
    parser.add("a.rl");
    parser.add("b.rl");
    parser.next();
    parser.add("c.rl");
    assert_eq!(
        parser.files(),
        vec!["b.rl".to_string(), "a.rl".to_string(), "c.rl".to_string(), "main.rl".to_string()]
    );
}

#[test]
fn a_path_is_read_once_when_files_mention_each_other() {
    let mut parser = Parser::new("a.rl");
    let mut read: Vec<String> = Vec::new();
    while let Some(file) = parser.next() {
        read.push(file.clone());
        let mentions: &[&str] = match file.as_str() {
            "a.rl" => &["b.rl", "c.rl"],
            "b.rl" => &["a.rl", "c.rl"],
            "c.rl" => &["a.rl", "b.rl", "c.rl"],
            _ => &[],
        };
        for path in mentions {
            parser.add(path);
        }
    }
    assert_eq!(read, vec!["a.rl".to_string(), "c.rl".to_string(), "b.rl".to_string()]);
}

#[test]
fn a_path_that_is_being_read_or_was_read_cannot_wait_again() {
    let mut parser = Parser::new("a.rl");
    parser.next();
    assert!(!parser.add("a.rl"));
    parser.add("b.rl");
    parser.next();
    assert!(!parser.add("a.rl"));
    assert!(!parser.add("b.rl"));
    assert!(parser.todo().is_empty());
}

#[test]
fn asking_again_at_the_end_keeps_the_current_file() {
    let mut parser = Parser::new("a.rl");
    assert_eq!(parser.next(), Some("a.rl".to_string()));
    assert_eq!(parser.next(), None);
    assert_eq!(parser.current(), &Some("a.rl".to_string()));
    assert_eq!(parser.done(), &vec!["a.rl".to_string()]);
    assert!(!parser.add("a.rl"));
}
