//! The notebook's read-eval-print step: one line of input, applied to the
//! notebook, gives the lines to print and whether to stop.
//!
//! The caller reads the lines and prints the answers; this module decides.

use vstd::prelude::*;
use crate::command::{
    help_lines, help_text, law_parse_add, law_parse_delete, law_parse_edit, law_parse_get, parse_command, parse_command_spec,
    parse_error_message, Command, CommandView, ParseErrorView,
};
use crate::notebook::{
    first_with_title, law_lookup_after_add, lemma_first_with_title, lemma_first_with_title_unique, lookup, titles, NoteView, Notebook,
};
use crate::text::{
    concat_strs, is_word, join_words, law_words_of_join, lemma_trimmed_when_ends_are_not_ws,
    string_views, trim, trimmed,
};

verus! {

/// What one line of input produced.
pub struct Reply {
    /// The lines to print, in order.
    pub lines: Vec<String>,
    /// Whether the session ends here.
    pub quit: bool,
}

/// The lines that list the titles, one per note.
pub open spec fn listing(notes: Seq<NoteView>) -> Seq<Seq<char>> {
    if notes.len() == 0 {
        seq!["(empty notebook)"@]
    } else {
        titles(notes).map_values(|t: Seq<char>| "  - "@ + t)
    }
}

/// The answer to a title that no note has.
pub open spec fn not_found(title: Seq<char>) -> Seq<char> {
    "not found: "@ + title
}

/// The notes after one line, the lines to print, and whether to stop.
pub open spec fn respond_spec(notes: Seq<NoteView>, line: Seq<char>) -> (
    Seq<NoteView>,
    Seq<Seq<char>>,
    bool,
) {
    let t = trimmed(line);
    if t.len() == 0 {
        (notes, Seq::empty(), false)
    } else {
        match parse_command_spec(t) {
            Ok(CommandView::Add(title, body)) => (
                notes.push((title, body)),
                seq!["added: "@ + title],
                false,
            ),
            Ok(CommandView::List) => (notes, listing(notes), false),
            Ok(CommandView::Get(title)) => match lookup(notes, title) {
                Some(n) => (notes, seq![n.0, "  "@ + n.1], false),
                None => (notes, seq![not_found(title)], false),
            },
            Ok(CommandView::Edit(title, body)) => match first_with_title(notes, title) {
                Some(i) => (notes.update(i, (title, body)), seq!["edited: "@ + title], false),
                None => (notes, seq![not_found(title)], false),
            },
            Ok(CommandView::Delete(title)) => match first_with_title(notes, title) {
                Some(i) => (
                    notes.remove(i),
                    seq!["deleted: "@ + title + " ("@ + notes[i].1 + ")"@],
                    false,
                ),
                None => (notes, seq![not_found(title)], false),
            },
            Ok(CommandView::Quit) => (notes, seq!["bye!"@], true),
            Ok(CommandView::Help) => (notes, help_lines(), false),
            Err(e) => (notes, seq![parse_error_message(e)], false),
        }
    }
}

/// A line of nothing but whitespace is skipped silently.
pub proof fn law_blank_line_is_ignored(notes: Seq<NoteView>, line: Seq<char>)
    requires
        trimmed(line).len() == 0,
    ensures
        respond_spec(notes, line) == (notes, Seq::<Seq<char>>::empty(), false),
{
}

/// The session ends only on a quit command, which says goodbye and leaves the
/// notes alone.
pub proof fn law_only_quit_ends_the_session(notes: Seq<NoteView>, line: Seq<char>)
    ensures
        respond_spec(notes, line).2 ==> {
            &&& parse_command_spec(trimmed(line)) == Ok::<CommandView, ParseErrorView>(CommandView::Quit)
            &&& respond_spec(notes, line).0 == notes
            &&& respond_spec(notes, line).1 == seq!["bye!"@]
        },
{
}

/// A line that is not a command changes no note and answers with exactly
/// the error's message.
pub proof fn law_rejected_line_changes_nothing(notes: Seq<NoteView>, line: Seq<char>)
    requires
        trimmed(line).len() > 0,
        parse_command_spec(trimmed(line)) is Err,
    ensures
        respond_spec(notes, line).0 == notes,
        respond_spec(notes, line).1 == seq![
            parse_error_message(parse_command_spec(trimmed(line))->Err_0),
        ],
{
}

/// Only `add`, `edit` and `delete` change the notes.
pub proof fn law_only_writes_change_notes(notes: Seq<NoteView>, line: Seq<char>)
    ensures
        respond_spec(notes, line).0 != notes ==> (parse_command_spec(trimmed(line)) matches Ok(c) && (
        c is Add || c is Edit || c is Delete)),
{
}

/// Through the command language, `get` shows back what `add` stored under a
/// title that was not in use.
pub proof fn law_get_shows_what_add_stored(
    notes: Seq<NoteView>,
    title: Seq<char>,
    body_words: Seq<Seq<char>>,
)
    requires
        lookup(notes, title) is None,
        is_word(title),
        body_words.len() > 0,
        forall|k: int| 0 <= k < body_words.len() ==> is_word(#[trigger] body_words[k]),
    ensures
        ({
            let body = join_words(body_words);
            let (after_add, added, _) = respond_spec(
                notes,
                "add"@ + seq![' '] + title + seq![' '] + body,
            );
            &&& after_add == notes.push((title, body))
            &&& added == seq!["added: "@ + title]
            &&& respond_spec(after_add, "get"@ + seq![' '] + title).1 == seq![title, "  "@ + body]
        }),
{
    reveal_strlit("add");
    reveal_strlit("get");
    let body = join_words(body_words);
    law_words_of_join(body_words);
    let add_line = "add"@ + seq![' '] + title + seq![' '] + body;
    let get_line = "get"@ + seq![' '] + title;
    assert(add_line[0] == 'a');
    assert(add_line.last() == body.last());
    assert(body.last() == body[body.len() - 1]);
    lemma_trimmed_when_ends_are_not_ws(add_line);
    assert(get_line[0] == 'g');
    assert(get_line.last() == title[title.len() - 1]);
    lemma_trimmed_when_ends_are_not_ws(get_line);
    law_parse_add(title, body_words);
    law_parse_get(title);
    law_lookup_after_add(notes, title, body, title);
}

/// An `add` line appends the note at the end, whether or not its title is
/// already in use: earlier notes with the same title are kept, unchanged.
pub proof fn law_add_line_appends(notes: Seq<NoteView>, title: Seq<char>, body_words: Seq<Seq<char>>)
    requires
        is_word(title),
        body_words.len() > 0,
        forall|k: int| 0 <= k < body_words.len() ==> is_word(#[trigger] body_words[k]),
    ensures
        ({
            let body = join_words(body_words);
            let (after, printed, quit) = respond_spec(
                notes,
                "add"@ + seq![' '] + title + seq![' '] + body,
            );
            &&& after.len() == notes.len() + 1
            &&& forall|j: int| 0 <= j < notes.len() ==> after[j] == notes[j]
            &&& after[notes.len() as int] == (title, body)
            &&& printed == seq!["added: "@ + title]
            &&& !quit
        }),
{
    reveal_strlit("add");
    let body = join_words(body_words);
    law_words_of_join(body_words);
    let line = "add"@ + seq![' '] + title + seq![' '] + body;
    assert(line[0] == 'a');
    assert(line.last() == body[body.len() - 1]);
    lemma_trimmed_when_ends_are_not_ws(line);
    law_parse_add(title, body_words);
}

/// An `edit` line for a title in use replaces, in place, the body of the first
/// note with that title: every title stays where it was, and every other note
/// is unchanged.
pub proof fn law_edit_line_replaces_in_place(
    notes: Seq<NoteView>,
    title: Seq<char>,
    body_words: Seq<Seq<char>>,
    i: int,
)
    requires
        is_word(title),
        body_words.len() > 0,
        forall|k: int| 0 <= k < body_words.len() ==> is_word(#[trigger] body_words[k]),
        0 <= i < notes.len(),
        notes[i].0 == title,
        forall|j: int| 0 <= j < i ==> notes[j].0 != title,
    ensures
        ({
            let body = join_words(body_words);
            let (after, printed, quit) = respond_spec(
                notes,
                "edit"@ + seq![' '] + title + seq![' '] + body,
            );
            &&& after.len() == notes.len()
            &&& titles(after) == titles(notes)
            &&& after[i] == (title, body)
            &&& forall|j: int| 0 <= j < notes.len() && j != i ==> after[j] == notes[j]
            &&& printed == seq!["edited: "@ + title]
            &&& !quit
        }),
{
    reveal_strlit("edit");
    let body = join_words(body_words);
    law_words_of_join(body_words);
    let line = "edit"@ + seq![' '] + title + seq![' '] + body;
    assert(line[0] == 'e');
    assert(line.last() == body[body.len() - 1]);
    lemma_trimmed_when_ends_are_not_ws(line);
    law_parse_edit(title, body_words);
    lemma_first_with_title_unique(notes, title, i);
    let after = notes.update(i, (title, body));
    assert(titles(after) =~= titles(notes));
}

/// A `delete` line for a title in use removes exactly the first note with
/// that title, reports its body, and keeps every other note in order.
pub proof fn law_delete_line_removes_first_match(notes: Seq<NoteView>, title: Seq<char>, i: int)
    requires
        is_word(title),
        0 <= i < notes.len(),
        notes[i].0 == title,
        forall|j: int| 0 <= j < i ==> notes[j].0 != title,
    ensures
        ({
            let (after, printed, quit) = respond_spec(notes, "delete"@ + seq![' '] + title);
            &&& after.len() == notes.len() - 1
            &&& forall|j: int| 0 <= j < i ==> after[j] == notes[j]
            &&& forall|j: int| i <= j < after.len() ==> after[j] == notes[j + 1]
            &&& printed == seq!["deleted: "@ + title + " ("@ + notes[i].1 + ")"@]
            &&& !quit
        }),
{
    reveal_strlit("delete");
    let line = "delete"@ + seq![' '] + title;
    assert(line[0] == 'd');
    assert(line.last() == title[title.len() - 1]);
    lemma_trimmed_when_ends_are_not_ws(line);
    law_parse_delete(title);
    lemma_first_with_title_unique(notes, title, i);
}

/// Applies one line of input to the notebook.
pub fn respond(nb: &mut Notebook, line: &str) -> (r: Reply)
    ensures
        ({
            let (notes, lines, quit) = respond_spec(old(nb)@, line@);
            &&& final(nb)@ == notes
            &&& string_views(r.lines@) == lines
            &&& r.quit == quit
        }),
{
    let mut lines: Vec<String> = Vec::new();
    let t = trim(line);
    if t.unicode_len() == 0 {
        assert(string_views(lines@) =~= Seq::<Seq<char>>::empty());
        return Reply { lines, quit: false };
    }
    let ghost before = nb@;
    match parse_command(t) {
        Ok(Command::Add(title, body)) => {
            lines.push(concat_strs("added: ", title.as_str()));
            nb.add(title, body);
            assert(string_views(lines@) =~= seq!["added: "@ + title@]);
        },
        Ok(Command::List) => {
            if nb.is_empty() {
                lines.push(String::from_str("(empty notebook)"));
                assert(string_views(lines@) =~= listing(before));
            } else {
                let ts = nb.list();
                let mut i: usize = 0;
                while i < ts.len()
                    invariant
                        0 <= i <= ts@.len(),
                        ts@.map_values(|s: &str| s@) == titles(nb@),
                        string_views(lines@) == titles(nb@).take(i as int).map_values(
                            |t: Seq<char>| "  - "@ + t,
                        ),
                    decreases ts@.len() - i,
                {
                    assert(ts@[i as int]@ == titles(nb@)[i as int]);
                    let ghost prev = string_views(lines@);
                    lines.push(concat_strs("  - ", ts[i]));
                    assert(string_views(lines@) =~= prev.push("  - "@ + ts@[i as int]@));
                    assert(titles(nb@).take(i + 1) =~= titles(nb@).take(i as int).push(
                        titles(nb@)[i as int],
                    ));
                    assert(string_views(lines@) =~= titles(nb@).take(i + 1).map_values(
                        |t: Seq<char>| "  - "@ + t,
                    ));
                    i = i + 1;
                }
                assert(titles(nb@).take(ts@.len() as int) =~= titles(nb@));
            }
        },
        Ok(Command::Get(title)) => {
            match nb.get(title.as_str()) {
                Some(entry) => {
                    lines.push(String::from_str(entry.title.as_str()));
                    lines.push(concat_strs("  ", entry.body.as_str()));
                    assert(string_views(lines@) =~= seq![entry@.0, "  "@ + entry@.1]);
                },
                None => {
                    lines.push(concat_strs("not found: ", title.as_str()));
                    assert(string_views(lines@) =~= seq![not_found(title@)]);
                },
            }
        },
        Ok(Command::Edit(title, body)) => {
            proof {
                lemma_first_with_title(before, title@);
            }
            if nb.edit_body(title.as_str(), body) {
                lines.push(concat_strs("edited: ", title.as_str()));
                assert(string_views(lines@) =~= seq!["edited: "@ + title@]);
            } else {
                lines.push(concat_strs("not found: ", title.as_str()));
                assert(string_views(lines@) =~= seq![not_found(title@)]);
            }
        },
        Ok(Command::Delete(title)) => {
            proof {
                lemma_first_with_title(before, title@);
            }
            match nb.remove(title.as_str()) {
                Some(entry) => {
                    let mut m = concat_strs("deleted: ", title.as_str());
                    m.append(" (");
                    m.append(entry.body.as_str());
                    m.append(")");
                    lines.push(m);
                    assert(string_views(lines@) =~= seq![
                        "deleted: "@ + title@ + " ("@ + entry@.1 + ")"@,
                    ]);
                },
                None => {
                    lines.push(concat_strs("not found: ", title.as_str()));
                    assert(string_views(lines@) =~= seq![not_found(title@)]);
                },
            }
        },
        Ok(Command::Quit) => {
            lines.push(String::from_str("bye!"));
            assert(string_views(lines@) =~= seq!["bye!"@]);
            return Reply { lines, quit: true };
        },
        Ok(Command::Help) => {
            lines = help_text();
        },
        Err(e) => {
            lines.push(e.to_string());
            assert(string_views(lines@) =~= seq![parse_error_message(e@)]);
        },
    }
    Reply { lines, quit: false }
}

} // verus!
