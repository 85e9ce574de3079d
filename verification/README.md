# RusTiny

A compiler for RusTiny, a tiny Rust-like language, written in Verus. Each
phase is a verified function; what its contract states differs by phase:
most contracts say what a result is when the phase succeeds, and some also
say on which inputs it succeeds (the parser on expressions of operators,
on blocks of them and on programs of functions without parameters whose
bodies are such blocks; the semantic checks, the type checker, the
translation of programs of literal statics, constants and at most one
empty function; register allocation).

- `src/front`: lexer, parser (recursive descent with a Pratt parser for
  expressions), semantic checks (main present, lvalues, `break` only in
  loops, symbol and scope tables) and the type checker. `lexer::lexes` says
  which tokens a source is read as, `parser::spelling` which syntax tree
  a token sequence spells, and `parser::operators` which expressions the
  parser is sure to read back from their tokens.
- `src/middle`: the intermediate representation, its textual form and the
  code that builds it for a syntax tree (`ir::trans::code` states the
  instructions of expressions without control flow).
- `src/back`: instruction selection (x86-64, Intel syntax), the lifetime
  intervals of virtual registers, and the compiler of instruction selection
  rules (`instsel/rulecomp`, whose parser states the tokens each part of a
  rule was read from).
- `src/driver`: the interner, the codemap, the symbol table, the session and
  the compilation pipeline (`compile_input`: when it succeeds, the IR it
  gives is a translation of the type-checked syntax tree that the source
  spells, and the assembly is the text of the instructions selected for
  that same IR; on which sources it succeeds is not stated).
- `src/util`: characters, text output, the pretty printer and the AST
  visitor (`visit`: a walk shows a visitor a node's children in source
  order); `src/middle/ir/visit` is the visitor of the IR.
- `app/main.rs`: the command line programs (`rustiny`, `rustiny-rulecomp`,
  `pprint`, `test-lexer`): reading and writing files, error output.
