# cplus_core

The front-end core of a compiler for C+, verified with Verus:

- `borrowck` checks ownership, borrows and the life of views in a parsed program, and reports
  what breaks the rules;
- `diagnostics` holds errors and warnings in one data model and renders them;
- `fmt` puts a source into canonical form;
- `doctest` makes tests of the examples in documentation comments;
- `docgen` makes a Markdown page of the documented items.

## Layout

- `src/` is the verified library. Every executable function has a contract, stated over
  mathematical models (`..V` types and spec functions) in the same module.
  - Text: `text`, `chars`, `lexer`, `cutting`.
  - Collections: `ordered`, `table`.
  - Programs: `ast`, `errors`.
  - The checker, in the order of its passes: `oracle` (what is copied), `elision` and `sigs` (what
    results borrow), `flow` and `rounds` (what bodies store), `addr`, `walks`, `infer`, `place`, `borrows`,
    `conflicts`, `analyzer` (ownership), `views`, `escapes`, `captures`, `viewwalk` (views),
    `messages`, `borrowck`.
  - What holds of whole runs: `stability` (formatting), `positions` (lines and columns),
    `ownership`, `following` and `guarantees` (the checker).
- `tests/` runs the library on small programs. `tests/checker.rs` brings a parser of its own.
- `app/` is ordinary Rust around the library: diagnostics that can be serialised, and files named
  by paths.
