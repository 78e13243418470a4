# tron_parser

The parser of the Tron scripting language: it turns the scanner's tokens into
the statements and expressions of a program.

- `src/token.rs`: token kinds and tokens.
- `src/ast.rs`: the syntax tree, and its mathematical view.
- `src/grammar.rs`: the grammar, written as spec functions over the token
  sequence; it fixes the syntax tree, the node ids and the error message for
  every input.
- `src/parser.rs`: the recursive-descent parser, proved to give exactly what
  the grammar gives, to terminate, and to hand out each node id once.
- `src/laws.rs`: laws of the grammar (how a program, a declaration, a
  statement and a "for" loop are read).
- `src/ids.rs`, `src/lemmas.rs`: node ids and facts about the views.
- Long parameter and argument lists are reported, not refused: each
  parameter from the 256th on is reported and the function is still read;
  each argument from the 255th on is reported with the line of the token
  after it, and the list then reads another argument with no comma before it,
  so a "," or the closing ")" there ends the parse as an unexpected token.
  The reports are kept in the parser.
- `app/`: running the parser the way the interpreter does, where a syntax
  error ends the process.
