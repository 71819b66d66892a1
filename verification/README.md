# monkey

A lexer, a Pratt parser and the object model of an interpreter for the Monkey
language, written in Verus and proved against specifications.

## Layout

- `src/token.rs`: token kinds, tokens and the keyword table.
- `src/lexer.rs`: the lexer. `lex_step` states what one call of `next_token`
  does on the text; `TokenSource` describes the whole token stream of a text.
- `src/ast.rs`: the syntax tree, its mathematical model (`SExpr`, `SStmt`, ...)
  and how each node prints; keys and pairs of hash literals.
- `src/parser.rs`: the parser. The spec functions `parsed_*` state, over the
  token stream, what each parsing routine produces and which errors it
  records; every executable routine is proved to match them.
- `src/object.rs`: runtime values, hash keys, hashes and environments, with
  laws on lookups after updates.
- `src/tracing.rs`: the levels and lines of parser tracing. The parser
  records a `BEGIN` line when a parsing routine starts and an `END` line when
  it returns, except where a missing operand cuts the routine short; the spec
  functions `parsed_*` state exactly which lines a parse records.
- `src/user.rs`: the user the interpreter runs as.
- `src/text.rs`: small string helpers shared by the modules.
- `app/`: the parts that touch the outside world: the token-printing REPL,
  the process-wide trace level and the printing of the parser's trace, and
  the lookup of the current user through `libc`.
