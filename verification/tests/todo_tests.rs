use piscine::todo::{parse_command, Command, TodoList};

#[test]
fn commands_parse_by_prefix() {
    assert!(matches!(parse_command(""), Some(Command::Quit)));
    assert!(matches!(parse_command(" QUIT \n"), Some(Command::Quit)));
    assert!(matches!(parse_command("PURGE"), Some(Command::Purge)));
    match parse_command("TODO  feed the cat ") {
        Some(Command::Todo(task)) => assert_eq!(task, "feed the cat"),
        other => panic!("unexpected command: {:?}", other.is_some()),
    }
    assert!(matches!(parse_command("DONE 2"), Some(Command::Done(2))));
    assert!(parse_command("DONE x").is_none());
    assert!(parse_command("something else").is_none());
}

#[test]
fn list_moves_tasks_when_done() {
    let mut list = TodoList::new();
    list.add("one".to_string());
    list.add("two".to_string());
    list.done(0);
    list.done(5);
    list.purge();
    list.done(0);
}
