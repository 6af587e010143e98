# rusty_projects

A notebook that owns its notes, the small command language that drives it
line by line, and the rules of a number-guessing game, written in Verus and
verified against their contracts.

- `src/notebook.rs` — `Notebook` and `Entry`; lookups by title act on the first
  matching note; laws relating `add`, `get`, `edit_body` and `remove`.
- `src/command.rs` — parsing a line into a `Command`, error messages, the help.
- `src/repl.rs` — `respond`: one line applied to a notebook gives the lines to
  print and whether to stop.
- `src/guess.rs` — reading a guess and the `Game` state machine.
- `src/text.rs` — trimming, splitting into words, case folding, decimal
  formatting and parsing, each tied to a spec over `Seq<char>`.
- `app/main.rs` — the command-line loops that read input and print answers
  (`guess` as first argument plays the game; otherwise the notebook REPL).
