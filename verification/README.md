# yu_core

Yu is a small teaching language whose keywords and built-ins have a Ukrainian and an English
name. This crate is its front end, verified with Verus:

- `src/` — the lexer and parser (each proved equal to a specification of the grammar), the
  diagnostics and their rendering in both languages, keywords, built-in names and arity, the
  colour words, typo suggestions, the library of words, the Studio's JSON and the decisions of
  the `yu` command (arguments, the REPL's buffer, colouring).
- `tests/` — ordinary Rust tests of the library.
- `app/` — the `yu` program around it: the tree-walking interpreter and the drawing, which
  compute with `f64`, the SVG output, the terminal and the WebAssembly entry points.
