# compiler

The front end of a small interpreted language — tokens, a lexer, a Pratt
parser, a syntax tree that prints itself back as text — and the encoder of
bytecode instructions, written in Verus and proved against mathematical
models of what each part does.

## Layout

- `src/token.rs` — tokens, keywords and the literal each token prints as.
- `src/lexer.rs` — the lexer. `lex(input, p)` is the model of reading one
  token from index `p`; `Lexer::next_token` is proved to follow it, and the
  laws at the end of the file say how the token stream ends, when the lexer
  moves on and what a literal holds.
- `src/ast.rs` — the syntax tree, its mathematical value (`SpecExpression`,
  `SpecStatement`) and how it prints (`expr_text`, `stmt_text`).
- `src/parser.rs` — the parser. Each parse function has a model (`run_*`)
  that takes a fuel and ends in `Done`, `Panic` or `Stuck`; a parse function
  requires that some fuel lets its model finish and is proved to give what
  the model gives for every such fuel.
- `src/code.rs` — opcodes, their definitions and `make`, which encodes one
  instruction.
- `src/text.rs` — decimal text of integers, the reading of integer literals
  and the few calls into the standard library whose contracts are trusted.
- `tests/` — the scenarios, run against the compiled library.
