# nlf

The front end of the nlf scripting language, verified with Verus: the lexer,
the parser (recursive descent for statements, precedence climbing for
expressions), the walk over the syntax tree and the visitors that ride it,
the symbol index behind editor features, the type arena and the collectors
of type names, the translator that turns names into slots, the module
resolver that reads modules from a list, and the bytecode assembler of the
compiler.

Each part states what it does in its contracts:

- `src/lexer.rs`: `lex` gives the tokens that `spec_lex` describes, or the
  unterminated-string error; the tokens are ordered and lie inside the text.
- `src/parser.rs`: every parsing function agrees with a spec function of the
  same name (prefix `sp_`) over the views of the tokens, including the errors
  it reports and the inputs on which it would panic (`try_parse` answers
  `None` there).
- `src/explorer.rs`: the `Visitor` trait and the walk; what a walk does to a
  visitor is the fold, in walk order, of the visitor's own transitions
  (`walk_stmts`, `walk_expr`).
- `src/analysis.rs`: scope and symbol queries over a symbol index, a scope
  builder whose definitions feed such an index (scopes, symbols, exports),
  the completion resolver, and the plan of what a completion offers.
- `src/type_checker.rs`, `src/type_resolver.rs`: type names collected scope
  by scope during a walk, and resolved from a position; a walk closes every
  scope it opens.
- `src/completion.rs`, `src/navigation.rs`: what an editor's completion
  request is answered with (members of a variable's type, or the visible
  names and the keywords) and where a used name is defined; imports and
  built-in prototypes are named for the caller to look up.
- `src/positions.rs`: byte offsets to editor positions (line, offset in the
  line) and back; a position inside a line survives the round trip, and so
  does an offset in a text without carriage returns.
- `src/translator.rs`: the translator's scopes and the translation of the
  syntax tree (`translate`, `translate_statement`, `translate_expression`),
  each equal to a spec function (`tr_stmts`, `tr_stmt`, `tr_expr`) over the
  views of the tree and of the scopes, errors included; a name just defined
  resolves to its slot, translation composes statement by statement, and a
  statement that translates closes every scope it opens.
- `src/compiler.rs`: the assembler; `build` lays out the main code and the
  functions and resolves each jump to the position of its label.
- `src/types.rs`, `src/resolvers.rs`, `src/numbers.rs`: the type arena and
  how types are written, the static module resolver and the splitting of
  number type names.

`app/main.rs` is the command-line front end: it reads a module from disk and
reports what the parser makes of it.
