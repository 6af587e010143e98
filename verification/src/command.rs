//! The notebook's command language: one line of input becomes one command.
//!
//! The title is the first word after the command name; the body is every
//! later word, joined by single spaces. Command names are matched without
//! regard to ASCII case.

use vstd::prelude::*;
use crate::text::{
    ascii_lowercase, is_word, join_from, join_words, law_words_of_join, lemma_words_are_words,
    lemma_words_cons, lemma_words_single, push_char, split_words, str_eq, string_views,
    to_ascii_lowercase, views, words,
};

verus! {

/// How to write `add`.
pub const USAGE_ADD: &'static str = "add <title> <body...>";

/// How to write `get`.
pub const USAGE_GET: &'static str = "get <title>";

/// How to write `edit`.
pub const USAGE_EDIT: &'static str = "edit <title> <body...>";

/// How to write `delete`.
pub const USAGE_DELETE: &'static str = "delete <title>";

/// One command of the notebook.
#[derive(Debug, PartialEq, Eq)]
pub enum Command {
    /// Add a note with this title and body.
    Add(String, String),
    /// List all titles.
    List,
    /// Show the note with this title.
    Get(String),
    /// Replace the body of the note with this title.
    Edit(String, String),
    /// Remove the note with this title.
    Delete(String),
    /// Leave.
    Quit,
    /// Show the help.
    Help,
}

/// The abstract value of a command.
pub enum CommandView {
    Add(Seq<char>, Seq<char>),
    List,
    Get(Seq<char>),
    Edit(Seq<char>, Seq<char>),
    Delete(Seq<char>),
    Quit,
    Help,
}

impl View for Command {
    type V = CommandView;

    open spec fn view(&self) -> CommandView {
        match self {
            Command::Add(t, b) => CommandView::Add(t@, b@),
            Command::List => CommandView::List,
            Command::Get(t) => CommandView::Get(t@),
            Command::Edit(t, b) => CommandView::Edit(t@, b@),
            Command::Delete(t) => CommandView::Delete(t@),
            Command::Quit => CommandView::Quit,
            Command::Help => CommandView::Help,
        }
    }
}

/// Why a line did not become a command.
#[derive(Debug, PartialEq, Eq)]
pub enum ParseError {
    /// The first word names no command (it is given in lower case).
    UnknownCommand(String),
    /// The command is known but lacks an argument; this is its usage.
    MissingArgument(&'static str),
}

/// The abstract value of a parse error.
pub enum ParseErrorView {
    UnknownCommand(Seq<char>),
    MissingArgument(Seq<char>),
}

impl View for ParseError {
    type V = ParseErrorView;

    open spec fn view(&self) -> ParseErrorView {
        match self {
            ParseError::UnknownCommand(w) => ParseErrorView::UnknownCommand(w@),
            ParseError::MissingArgument(u) => ParseErrorView::MissingArgument(u@),
        }
    }
}

/// The message for a parse error.
pub open spec fn parse_error_message(e: ParseErrorView) -> Seq<char> {
    match e {
        ParseErrorView::UnknownCommand(w) => "unknown command: "@ + w + " - type 'help'"@,
        ParseErrorView::MissingArgument(u) => "usage: "@ + u,
    }
}

impl ParseError {
    /// The message shown to the user.
    pub fn to_string(&self) -> (r: String)
        ensures
            r@ == parse_error_message(self@),
    {
        match self {
            ParseError::UnknownCommand(w) => {
                let mut r = String::from_str("unknown command: ");
                r.append(w.as_str());
                r.append(" - type 'help'");
                r
            },
            ParseError::MissingArgument(u) => {
                let mut r = String::from_str("usage: ");
                r.append(u);
                r
            },
        }
    }
}

/// A result of a string or a parse error, by views.
pub open spec fn text_result_view(r: Result<String, ParseError>) -> Result<Seq<char>, ParseErrorView> {
    match r {
        Ok(s) => Ok(s@),
        Err(e) => Err(e@),
    }
}

/// A result of a command or a parse error, by views.
pub open spec fn command_result_view(r: Result<Command, ParseError>) -> Result<
    CommandView,
    ParseErrorView,
> {
    match r {
        Ok(c) => Ok(c@),
        Err(e) => Err(e@),
    }
}

/// The title among the arguments: the first one.
pub open spec fn title_spec(rest: Seq<Seq<char>>, usage: Seq<char>) -> Result<Seq<char>, ParseErrorView> {
    if rest.len() > 0 {
        Ok(rest[0])
    } else {
        Err(ParseErrorView::MissingArgument(usage))
    }
}

/// The body among the arguments: all but the first, joined by spaces; an
/// empty body is missing.
pub open spec fn body_spec(rest: Seq<Seq<char>>, usage: Seq<char>) -> Result<Seq<char>, ParseErrorView> {
    let body = if rest.len() >= 1 {
        join_words(rest.skip(1))
    } else {
        Seq::empty()
    };
    if body.len() == 0 {
        Err(ParseErrorView::MissingArgument(usage))
    } else {
        Ok(body)
    }
}

/// Takes the title: the first argument.
pub fn title_of(rest: &[&str], usage: &'static str) -> (r: Result<String, ParseError>)
    ensures
        text_result_view(r) == title_spec(views(rest@), usage@),
{
    if rest.len() > 0 {
        Ok(String::from_str(rest[0]))
    } else {
        Err(ParseError::MissingArgument(usage))
    }
}

/// Takes the body: every argument after the title, joined by single spaces.
pub fn body_of(rest: &[&str], usage: &'static str) -> (r: Result<String, ParseError>)
    ensures
        text_result_view(r) == body_spec(views(rest@), usage@),
{
    let body = if rest.len() >= 1 {
        join_from(rest, 1)
    } else {
        String::new()
    };
    if body.unicode_len() == 0 {
        Err(ParseError::MissingArgument(usage))
    } else {
        Ok(body)
    }
}

/// A command with a title and a body, or the first error among the two.
pub open spec fn with_title_and_body(
    rest: Seq<Seq<char>>,
    usage: Seq<char>,
    add: bool,
) -> Result<CommandView, ParseErrorView> {
    match title_spec(rest, usage) {
        Err(e) => Err(e),
        Ok(t) => match body_spec(rest, usage) {
            Err(e) => Err(e),
            Ok(b) => if add {
                Ok(CommandView::Add(t, b))
            } else {
                Ok(CommandView::Edit(t, b))
            },
        },
    }
}

/// What `parse_command` gives for `line`.
pub open spec fn parse_command_spec(line: Seq<char>) -> Result<CommandView, ParseErrorView> {
    let ws = words(line);
    if ws.len() == 0 {
        Err(ParseErrorView::UnknownCommand(Seq::empty()))
    } else {
        let head = ascii_lowercase(ws[0]);
        let rest = ws.skip(1);
        if head == "add"@ {
            with_title_and_body(rest, USAGE_ADD@, true)
        } else if head == "edit"@ {
            with_title_and_body(rest, USAGE_EDIT@, false)
        } else if head == "get"@ {
            match title_spec(rest, USAGE_GET@) {
                Err(e) => Err(e),
                Ok(t) => Ok(CommandView::Get(t)),
            }
        } else if head == "delete"@ || head == "rm"@ {
            match title_spec(rest, USAGE_DELETE@) {
                Err(e) => Err(e),
                Ok(t) => Ok(CommandView::Delete(t)),
            }
        } else if head == "list"@ || head == "ls"@ {
            Ok(CommandView::List)
        } else if head == "quit"@ || head == "exit"@ || head == "q"@ {
            Ok(CommandView::Quit)
        } else if head == "help"@ || head == "?"@ {
            Ok(CommandView::Help)
        } else {
            Err(ParseErrorView::UnknownCommand(head))
        }
    }
}

/// Parses one line of input into a command.
pub fn parse_command(line: &str) -> (r: Result<Command, ParseError>)
    ensures
        command_result_view(r) == parse_command_spec(line@),
{
    let ws = split_words(line);
    if ws.len() == 0 {
        return Err(ParseError::UnknownCommand(String::new()));
    }
    let head = to_ascii_lowercase(ws[0]);
    let mut rest: Vec<&str> = Vec::new();
    let mut i: usize = 1;
    while i < ws.len()
        invariant
            1 <= i <= ws@.len(),
            rest@ == ws@.subrange(1, i as int),
        decreases ws@.len() - i,
    {
        rest.push(ws[i]);
        assert(rest@ =~= ws@.subrange(1, i + 1));
        i = i + 1;
    }
    assert(views(rest@) =~= views(ws@).skip(1));
    let h = head.as_str();
    if str_eq(h, "add") || str_eq(h, "edit") {
        let is_add = str_eq(h, "add");
        let usage = if is_add {
            USAGE_ADD
        } else {
            USAGE_EDIT
        };
        match title_of(rest.as_slice(), usage) {
            Err(e) => Err(e),
            Ok(t) => match body_of(rest.as_slice(), usage) {
                Err(e) => Err(e),
                Ok(b) => if is_add {
                    Ok(Command::Add(t, b))
                } else {
                    Ok(Command::Edit(t, b))
                },
            },
        }
    } else if str_eq(h, "get") {
        match title_of(rest.as_slice(), USAGE_GET) {
            Err(e) => Err(e),
            Ok(t) => Ok(Command::Get(t)),
        }
    } else if str_eq(h, "delete") || str_eq(h, "rm") {
        match title_of(rest.as_slice(), USAGE_DELETE) {
            Err(e) => Err(e),
            Ok(t) => Ok(Command::Delete(t)),
        }
    } else if str_eq(h, "list") || str_eq(h, "ls") {
        Ok(Command::List)
    } else if str_eq(h, "quit") || str_eq(h, "exit") || str_eq(h, "q") {
        Ok(Command::Quit)
    } else if str_eq(h, "help") || str_eq(h, "?") {
        Ok(Command::Help)
    } else {
        Err(ParseError::UnknownCommand(head))
    }
}


/// The names that `parse_command` knows, in lower case.
pub open spec fn is_command_name(h: Seq<char>) -> bool {
    ||| h == "add"@
    ||| h == "edit"@
    ||| h == "get"@
    ||| h == "delete"@
    ||| h == "rm"@
    ||| h == "list"@
    ||| h == "ls"@
    ||| h == "quit"@
    ||| h == "exit"@
    ||| h == "q"@
    ||| h == "help"@
    ||| h == "?"@
}

/// A line that starts with a known command name is never an unknown command:
/// it gives a command, or names the usage whose argument is missing.
pub proof fn law_known_command_is_never_unknown(line: Seq<char>)
    requires
        words(line).len() > 0,
        is_command_name(ascii_lowercase(words(line)[0])),
    ensures
        !(parse_command_spec(line) is Err && parse_command_spec(line)->Err_0 is UnknownCommand),
{
}

/// A title is always one word, and a body is never empty.
pub proof fn law_title_is_one_word(line: Seq<char>)
    ensures
        parse_command_spec(line) matches Ok(CommandView::Add(t, b)) ==> is_word(t) && b.len() > 0,
        parse_command_spec(line) matches Ok(CommandView::Edit(t, b)) ==> is_word(t) && b.len() > 0,
        parse_command_spec(line) matches Ok(CommandView::Get(t)) ==> is_word(t),
        parse_command_spec(line) matches Ok(CommandView::Delete(t)) ==> is_word(t),
{
    lemma_words_are_words(line);
    let ws = words(line);
    if ws.len() > 1 {
        assert(ws.skip(1)[0] == ws[1]);
    }
}

proof fn lemma_words_of_command(name: Seq<char>, title: Seq<char>, body_words: Seq<Seq<char>>)
    requires
        is_word(name),
        is_word(title),
        body_words.len() > 0,
        forall|k: int| 0 <= k < body_words.len() ==> is_word(#[trigger] body_words[k]),
    ensures
        words(name + seq![' '] + title + seq![' '] + join_words(body_words)) == seq![name, title]
            + body_words,
        join_words(body_words).len() > 0,
{
    let body = join_words(body_words);
    law_words_of_join(body_words);
    lemma_words_cons(title, body);
    lemma_words_cons(name, title + seq![' '] + body);
    assert(name + seq![' '] + title + seq![' '] + body =~= name + seq![' '] + (title + seq![' ']
        + body));
    assert(seq![name] + (seq![title] + body_words) =~= seq![name, title] + body_words);
}

/// `add`, a one-word title, and a body of words separated by single spaces
/// parse back to that title and body.
pub proof fn law_parse_add(title: Seq<char>, body_words: Seq<Seq<char>>)
    requires
        is_word(title),
        body_words.len() > 0,
        forall|k: int| 0 <= k < body_words.len() ==> is_word(#[trigger] body_words[k]),
    ensures
        parse_command_spec("add"@ + seq![' '] + title + seq![' '] + join_words(body_words)) == Ok::<
            CommandView,
            ParseErrorView,
        >(CommandView::Add(title, join_words(body_words))),
{
    reveal_strlit("add");
    let name = "add"@;
    assert(is_word(name));
    lemma_words_of_command(name, title, body_words);
    assert(ascii_lowercase(name) =~= name);
    let ws = seq![name, title] + body_words;
    assert(ws[0] == name);
    assert(ws.skip(1) =~= seq![title] + body_words);
    assert((seq![title] + body_words).skip(1) =~= body_words);
}

/// `edit`, a one-word title, and a body of words separated by single spaces
/// parse back to that title and body.
pub proof fn law_parse_edit(title: Seq<char>, body_words: Seq<Seq<char>>)
    requires
        is_word(title),
        body_words.len() > 0,
        forall|k: int| 0 <= k < body_words.len() ==> is_word(#[trigger] body_words[k]),
    ensures
        parse_command_spec("edit"@ + seq![' '] + title + seq![' '] + join_words(body_words)) == Ok::<
            CommandView,
            ParseErrorView,
        >(CommandView::Edit(title, join_words(body_words))),
{
    reveal_strlit("edit");
    reveal_strlit("add");
    let name = "edit"@;
    assert(is_word(name));
    lemma_words_of_command(name, title, body_words);
    assert(ascii_lowercase(name) =~= name);
    assert(name != "add"@) by {
        assert(name.len() != "add"@.len());
    }
    let ws = seq![name, title] + body_words;
    assert(ws[0] == name);
    assert(ws.skip(1) =~= seq![title] + body_words);
    assert((seq![title] + body_words).skip(1) =~= body_words);
}

/// `get` and a one-word title parse to that title.
pub proof fn law_parse_get(title: Seq<char>)
    requires
        is_word(title),
    ensures
        parse_command_spec("get"@ + seq![' '] + title) == Ok::<CommandView, ParseErrorView>(
            CommandView::Get(title),
        ),
{
    reveal_strlit("get");
    reveal_strlit("add");
    reveal_strlit("edit");
    let name = "get"@;
    assert(is_word(name));
    lemma_words_single(title);
    lemma_words_cons(name, title);
    assert(ascii_lowercase(name) =~= name);
    assert(name != "add"@);
    assert(name != "edit"@);
    let ws = seq![name] + seq![title];
    assert(ws[0] == name);
    assert(ws.skip(1) =~= seq![title]);
}

/// `delete` and a one-word title parse to that title, kept exactly as written.
pub proof fn law_parse_delete(title: Seq<char>)
    requires
        is_word(title),
    ensures
        parse_command_spec("delete"@ + seq![' '] + title) == Ok::<CommandView, ParseErrorView>(
            CommandView::Delete(title),
        ),
{
    reveal_strlit("delete");
    reveal_strlit("get");
    reveal_strlit("add");
    reveal_strlit("edit");
    let name = "delete"@;
    assert(is_word(name));
    lemma_words_single(title);
    lemma_words_cons(name, title);
    assert(ascii_lowercase(name) =~= name);
    assert(name != "add"@);
    assert(name != "edit"@);
    assert(name != "get"@);
    let ws = seq![name] + seq![title];
    assert(ws[0] == name);
    assert(ws.skip(1) =~= seq![title]);
}

/// `rm` and a one-word title parse to a delete of that title, kept exactly.
pub proof fn law_parse_rm(title: Seq<char>)
    requires
        is_word(title),
    ensures
        parse_command_spec("rm"@ + seq![' '] + title) == Ok::<CommandView, ParseErrorView>(
            CommandView::Delete(title),
        ),
{
    reveal_strlit("rm");
    reveal_strlit("delete");
    reveal_strlit("get");
    reveal_strlit("add");
    reveal_strlit("edit");
    let name = "rm"@;
    assert(is_word(name));
    lemma_words_single(title);
    lemma_words_cons(name, title);
    assert(ascii_lowercase(name) =~= name);
    assert(name != "add"@);
    assert(name != "edit"@);
    assert(name != "get"@);
    assert(name != "delete"@);
    let ws = seq![name] + seq![title];
    assert(ws[0] == name);
    assert(ws.skip(1) =~= seq![title]);
}

/// `s` padded with spaces on the right to `width` characters, as the format
/// `{:<width}` does.
pub open spec fn padded(s: Seq<char>, width: nat) -> Seq<char> {
    if s.len() < width {
        s + Seq::new((width - s.len()) as nat, |i: int| ' ')
    } else {
        s
    }
}

fn pad_right(s: &str, width: usize) -> (r: String)
    ensures
        r@ == padded(s@, width as nat),
{
    let mut r = String::from_str(s);
    let mut n = s.unicode_len();
    while n < width
        invariant
            s@.len() <= n,
            n <= width || n == s@.len(),
            r@.len() == n,
            r@ == s@ + Seq::new((n - s@.len()) as nat, |i: int| ' '),
        decreases width - n,
    {
        push_char(&mut r, ' ');
        assert(r@ =~= s@ + Seq::new((n + 1 - s@.len()) as nat, |i: int| ' '));
        n = n + 1;
    }
    proof {
        if s@.len() >= width {
            assert(r@ =~= s@);
        }
    }
    r
}

/// One line of the help: the usage, padded, and what it does.
pub open spec fn help_line(usage: Seq<char>, what: Seq<char>) -> Seq<char> {
    "  "@ + padded(usage, 22) + "  "@ + what
}

fn help_entry(usage: &str, what: &str) -> (r: String)
    ensures
        r@ == help_line(usage@, what@),
{
    let mut r = String::from_str("  ");
    r.append(pad_right(usage, 22).as_str());
    r.append("  ");
    r.append(what);
    r
}

/// The help: a heading, then one line per command.
pub open spec fn help_lines() -> Seq<Seq<char>> {
    seq![
        "Commands:"@,
        help_line(USAGE_ADD@, "add a note"@),
        help_line(USAGE_GET@, "show one note"@),
        help_line(USAGE_EDIT@, "replace the body"@),
        help_line(USAGE_DELETE@, "remove a note"@),
        help_line("list"@, "list all titles"@),
        help_line("help / ?"@, "this help"@),
        help_line("quit / exit"@, "leave"@),
    ]
}

/// The lines of the help.
pub fn help_text() -> (r: Vec<String>)
    ensures
        string_views(r@) == help_lines(),
{
    let mut r: Vec<String> = Vec::new();
    r.push(String::from_str("Commands:"));
    r.push(help_entry(USAGE_ADD, "add a note"));
    r.push(help_entry(USAGE_GET, "show one note"));
    r.push(help_entry(USAGE_EDIT, "replace the body"));
    r.push(help_entry(USAGE_DELETE, "remove a note"));
    r.push(help_entry("list", "list all titles"));
    r.push(help_entry("help / ?", "this help"));
    r.push(help_entry("quit / exit", "leave"));
    assert(string_views(r@) =~= help_lines());
    r
}

} // verus!
