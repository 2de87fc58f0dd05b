# flowql

Lexers for the FlowQL query language, verified with Verus.

- `src/lexer/`: the lexer of the language. `grammar.rs` states, as spec
  functions over the source text as a sequence of characters, what each read
  gives (token or error, and where reading goes on); `Lexer::next_token` is
  proved to give exactly that. `laws.rs` proves what holds of every read:
  progress, `Eof` at the end and again after it, spans that cover what was
  read, and values in their ranges. Dates go through `chrono`.
- `src/syntax/`: the parser front end: its own lexer (with `cursor.rs`, a
  lookahead over an iterator and a reader of characters with byte offsets),
  a simpler lexer in `basic_lexer.rs`, errors and spans, the AST and
  a parser skeleton.
- `src/text.rs`: characters, UTF-8 byte offsets, and decimal and hexadecimal
  formatting of integers.
- `app/`: what the library leaves to its callers: `miette` diagnostics and
  `thiserror` messages for lexical errors, `Display` of token kinds (a float
  by its value), and the parser's lexer as an `Iterator`.
- `tests/`: tests of the library on concrete inputs.
