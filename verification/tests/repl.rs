use six::repl::{input_is_complete, step, Command};

#[test]
fn completeness_of_typed_input() {
    assert!(input_is_complete("2 + 3\n"));
    assert!(input_is_complete("# just a comment\n"));
    assert!(input_is_complete(""));
    assert!(!input_is_complete("f(1\n"));
    assert!(!input_is_complete("x : [1 2\n"));
    assert!(!input_is_complete(":square(n)\n    n * n\n"));
    assert!(input_is_complete(":square(n)\n    n * n\n.\n"));
    assert!(!input_is_complete("if\n  a >> 1\n"));
    assert!(!input_is_complete("2 +\n"));
    assert!(!input_is_complete("x :\n"));
    assert!(!input_is_complete("10 >>\n"));
    assert!(!input_is_complete("\"open text\n"));
    assert!(input_is_complete("x.size\n"));
}

#[test]
fn meta_commands_at_the_start() {
    let mut buffer = String::new();
    assert!(matches!(step(&mut buffer, "exit\n"), Command::Quit));
    assert!(matches!(step(&mut buffer, "  quit  \n"), Command::Quit));
    assert!(matches!(step(&mut buffer, "help\n"), Command::Help));
    assert!(matches!(step(&mut buffer, "clear_all\n"), Command::ClearAll));
    assert!(matches!(step(&mut buffer, "clear\n"), Command::ClearUsage));
    match step(&mut buffer, "clear a  b\n") {
        Command::Clear(names) => assert_eq!(names, vec!["a".to_string(), "b".to_string()]),
        _ => panic!("expected clear"),
    }
    assert!(matches!(step(&mut buffer, "   \n"), Command::Skip));
    assert!(buffer.is_empty());
}

#[test]
fn gathering_until_complete() {
    let mut buffer = String::new();
    assert!(matches!(step(&mut buffer, ":square(n)\n"), Command::Gather));
    assert!(matches!(step(&mut buffer, "    n * n\n"), Command::Gather));
    // mid-construct, `exit` is ordinary input
    assert!(matches!(step(&mut buffer, "exit\n"), Command::Gather));
    match step(&mut buffer, ".\n") {
        Command::Evaluate(src) => assert_eq!(src, ":square(n)\n    n * n\nexit\n.\n"),
        _ => panic!("expected evaluation"),
    }
    assert!(buffer.is_empty());
}

#[test]
fn blank_line_force_submits() {
    let mut buffer = String::new();
    assert!(matches!(step(&mut buffer, "f(1\n"), Command::Gather));
    match step(&mut buffer, "\n") {
        Command::Evaluate(src) => assert_eq!(src, "f(1\n\n"),
        _ => panic!("expected evaluation"),
    }
    assert!(buffer.is_empty());
}

#[test]
fn complete_line_evaluates_at_once() {
    let mut buffer = String::new();
    match step(&mut buffer, "2 + 3\n") {
        Command::Evaluate(src) => assert_eq!(src, "2 + 3\n"),
        _ => panic!("expected evaluation"),
    }
}
