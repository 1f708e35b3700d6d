# elo

The front end of the Elo compiler, verified with Verus: a lexer, a parser, two checkers,
a C back end, a lowering to LLVM steps, and the reports of errors.

## Layout

- `src/` — the library; every function is verified.
  - `lexer`, `token`, `keyword`, `span`, `text`: reading source text into lexems, with the
    lexing of a whole text stated as a specification (`lex_all`).
  - `ast`, `parser`: the syntax tree and the recursive-descent parser.
  - `cir`, `semcheck`, `typecheck`: the checked tree, the semantic checker used by
    `Validator`, and a strict type checker.
  - `errors`, `report`: the diagnostics of each error, and the lines of a printed report.
  - `c_backend`: the pieces of C text that the C back end writes.
  - `lowering`: the steps that build an LLVM module from a checked program; every step
    refers only to steps made before it.
  - `elo_lexer`: the simpler lexer of the Elo components, with `#` comments and integer
    literals in four radixes.
  - `syntax`, `evaluated`, `ir`, `framed`: operator reading, the types of the evaluated tree
    and the primitive types of the intermediate representation, and
    the framed error reports of the Elo components.
  - `oxido`, `oxido_lexer`, `oxido_error`: spans and words of Oxido, the Oxido lexer, and
    the error of the Oxido parser.
- `tests/` — tests run against the compiled library.
- `app/` — what talks to the outside: printing reports, reading files, and performing the
  lowering's steps with inkwell.

## What is not here

The original's `components/` directory holds older copies of a validator, a parser and an
inkwell code generator. They refer to types that no crate of the original defines (such
as `ValidatedNode` and `ValidatedProgram`) and contain unfinished branches, so they are not
carried over; the compiler's own lexer, parser, checkers and lowering stand in their place.
