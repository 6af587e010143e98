//! The notebook's command language and whole sessions driven line by line.

use rusty_projects::command::{
    help_text, parse_command, Command, ParseError, USAGE_ADD, USAGE_DELETE, USAGE_EDIT, USAGE_GET,
};
use rusty_projects::repl::respond;
use rusty_projects::Notebook;

/// Feeds `input` to a session the way the program does and returns every
/// line it printed, each followed by a line break.
fn run_with(input: &str) -> String {
    let mut nb = Notebook::new();
    let mut out = String::new();
    for line in help_text() {
        out.push_str(&line);
        out.push('\n');
    }
    for line in input.lines() {
        let reply = respond(&mut nb, line);
        for text in &reply.lines {
            out.push_str(text);
            out.push('\n');
        }
        if reply.quit {
            break;
        }
    }
    out
}

#[test]
fn parses_add_with_body() {
    assert_eq!(
        parse_command("add hello World, hello!"),
        Ok(Command::Add("hello".to_string(), "World, hello!".to_string()))
    );
}

#[test]
fn parses_short_aliases() {
    assert_eq!(parse_command("ls"), Ok(Command::List));
    assert_eq!(parse_command("q"), Ok(Command::Quit));
    assert_eq!(parse_command("rm x"), Ok(Command::Delete("x".to_string())));
}

#[test]
fn rejects_unknown_or_empty() {
    assert_eq!(parse_command("sing"), Err(ParseError::UnknownCommand("sing".to_string())));
    assert_eq!(parse_command(""), Err(ParseError::UnknownCommand(String::new())));
}

#[test]
fn missing_argument_is_not_an_unknown_command() {
    assert_eq!(parse_command("add"), Err(ParseError::MissingArgument(USAGE_ADD)));
    assert_eq!(parse_command("add hello"), Err(ParseError::MissingArgument(USAGE_ADD)));
    assert_eq!(parse_command("get"), Err(ParseError::MissingArgument(USAGE_GET)));
    assert_eq!(parse_command("edit hello"), Err(ParseError::MissingArgument(USAGE_EDIT)));
    assert_eq!(parse_command("delete"), Err(ParseError::MissingArgument(USAGE_DELETE)));
}

#[test]
fn error_message_tells_you_what_to_type() {
    assert_eq!(
        ParseError::MissingArgument(USAGE_ADD).to_string(),
        "usage: add <title> <body...>"
    );
    assert!(ParseError::UnknownCommand("sing".to_string()).to_string().contains("sing"));
}

#[test]
fn add_then_list_then_get() {
    let out = run_with("add hello World, hello!\nlist\nget hello\nquit\n");
    assert!(out.contains("added: hello"), "{out}");
    assert!(out.contains("  - hello"), "{out}");
    assert!(out.contains("  World, hello!"), "{out}");
    assert!(out.ends_with("bye!\n"), "{out}");
}

#[test]
fn delete_reports_the_body_it_got_ownership_of() {
    let out = run_with("add hello World, hello!\ndelete hello\nlist\n");
    assert!(out.contains("deleted: hello (World, hello!)"), "{out}");
    assert!(out.contains("(empty notebook)"), "{out}");
}

#[test]
fn edit_replaces_the_body() {
    let out = run_with("add rust old\nedit rust new body\nget rust\n");
    assert!(out.contains("edited: rust"), "{out}");
    assert!(out.contains("  new body"), "{out}");
    assert!(!out.contains("  old"), "{out}");
}

#[test]
fn missing_and_unknown_commands_say_different_things() {
    let out = run_with("add\nsing\n");
    assert!(out.contains("usage: add <title> <body...>"), "{out}");
    assert!(out.contains("unknown command: sing"), "{out}");
}

#[test]
fn eof_ends_the_loop_without_quit() {
    let out = run_with("add hello World, hello!\n");
    assert!(out.contains("added: hello"), "{out}");
    assert!(!out.contains("bye!"), "{out}");
}

#[test]
fn blank_lines_are_skipped_silently() {
    let out = run_with("\n   \nlist\n");
    assert!(out.contains("(empty notebook)"), "{out}");
    assert!(!out.contains("unknown command"), "{out}");
}

// Beyond the original suite.

#[test]
fn help_is_laid_out_in_columns() {
    let expected: Vec<String> = std::iter::once("Commands:".to_string())
        .chain(
            [
                (USAGE_ADD, "add a note"),
                (USAGE_GET, "show one note"),
                (USAGE_EDIT, "replace the body"),
                (USAGE_DELETE, "remove a note"),
                ("list", "list all titles"),
                ("help / ?", "this help"),
                ("quit / exit", "leave"),
            ]
            .into_iter()
            .map(|(usage, what)| format!("  {usage:<22}  {what}")),
        )
        .collect();
    assert_eq!(help_text(), expected);
}

#[test]
fn command_names_ignore_ascii_case_and_spacing() {
    assert_eq!(
        parse_command("  ADD   Hello   World,\t\thello!  "),
        Ok(Command::Add("Hello".to_string(), "World, hello!".to_string()))
    );
    assert_eq!(parse_command("Edit x y"), Ok(Command::Edit("x".to_string(), "y".to_string())));
    assert_eq!(parse_command("GET x extra"), Ok(Command::Get("x".to_string())));
    assert_eq!(parse_command("Delete x"), Ok(Command::Delete("x".to_string())));
    assert_eq!(parse_command("LS"), Ok(Command::List));
    assert_eq!(parse_command("list"), Ok(Command::List));
    assert_eq!(parse_command("exit"), Ok(Command::Quit));
    assert_eq!(parse_command("QUIT"), Ok(Command::Quit));
    assert_eq!(parse_command("help"), Ok(Command::Help));
    assert_eq!(parse_command("?"), Ok(Command::Help));
    assert_eq!(parse_command("SING"), Err(ParseError::UnknownCommand("sing".to_string())));
    assert_eq!(parse_command("ÄDD x y"), Err(ParseError::UnknownCommand("Ädd".to_string())));
}

#[test]
fn parse_agrees_with_split_whitespace() {
    for line in ["add t a  b\u{3000}c", "edit  t\u{85}x", "get\u{2003}t", "rm\u{a0}t u"] {
        let words: Vec<&str> = line.split_whitespace().collect();
        let body = words[2..].join(" ");
        let parsed = parse_command(line).unwrap();
        match parsed {
            Command::Add(t, b) | Command::Edit(t, b) => {
                assert_eq!(t, words[1]);
                assert_eq!(b, body);
            }
            Command::Get(t) | Command::Delete(t) => assert_eq!(t, words[1]),
            other => panic!("unexpected {other:?}"),
        }
    }
}

#[test]
fn parse_error_messages_are_exact() {
    assert_eq!(
        ParseError::UnknownCommand("sing".to_string()).to_string(),
        "unknown command: sing - type 'help'"
    );
    assert_eq!(ParseError::MissingArgument(USAGE_GET).to_string(), "usage: get <title>");
}

#[test]
fn a_session_prints_what_the_original_prints() {
    let out = run_with(
        "add hello World, hello!\nadd rust Ownership is the core\nlist\nget hello\nedit rust Borrowing too\ndelete hello\nget hello\nedit hello x\ndelete hello\nquit\nlist\n",
    );
    let after_help: Vec<&str> = out.lines().skip(8).collect();
    assert_eq!(
        after_help,
        vec![
            "added: hello",
            "added: rust",
            "  - hello",
            "  - rust",
            "hello",
            "  World, hello!",
            "edited: rust",
            "deleted: hello (World, hello!)",
            "not found: hello",
            "not found: hello",
            "not found: hello",
            "bye!",
        ]
    );
}

#[test]
fn help_command_prints_the_help_and_rejected_lines_change_nothing() {
    let mut nb = Notebook::new();
    let reply = respond(&mut nb, " help ");
    assert_eq!(reply.lines, help_text());
    assert!(!reply.quit);
    let reply = respond(&mut nb, "add onlytitle");
    assert_eq!(reply.lines, vec!["usage: add <title> <body...>".to_string()]);
    assert!(nb.is_empty());
    let reply = respond(&mut nb, "\t \u{3000}");
    assert!(reply.lines.is_empty());
    let reply = respond(&mut nb, "exit");
    assert_eq!(reply.lines, vec!["bye!".to_string()]);
    assert!(reply.quit);
}
