# hulk_compiler

The front end of a compiler for HULK (Havana University Language for
Kompilers): an LALR(1) parser whose tables are built from the grammar at
start-up, and a two-pass semantic checker with type inference. Every
function under `src/` is verified with Verus.

## Layout

- `src/parser/grammar` — symbols, productions and the HULK grammar; the
  translation of lexer tokens into grammar terminals.
- `src/parser/lalr` — FIRST/FOLLOW sets (the least sets closed under the
  productions), the LR(1) automaton (closed item sets whose every item has a
  source), the merge into LALR(1) states, the ACTION/GOTO tables with their
  conflict rules, and text listings of all of these. The builder's contract
  (`lalr_table`) ties the table to the LR(1) automaton: states with the same
  cores are merged, each merged state holds exactly the items of its LR(1)
  states, its transitions are those of their edges, and ACTION/GOTO are what
  its items write.
- `src/parser/engine` — the LR driver loop, the semantic actions that build
  the syntax tree (`action_rules` states, rule by rule, what each reduction
  builds from the values on the stack), and parse errors. The parser's
  contract describes its result by the run of the table over the tokens
  (`run`, `step`): a program when the run accepts, the refused lookahead
  when it blocks (`refused`: the token, its text and exactly what the state
  on top of the stack accepts), an internal error only when it is stuck or
  out of steps.
- `src/parser/ast` — the syntax tree, and its equality by shape and
  position (node ids take no part in it).
- `src/semantic` — error kinds, the type hierarchy (subtyping, conformance,
  protocols, common ancestors; `hierarchy_rules` states what each of these
  questions answers as a bounded walk; `builtin_methods` the methods the
  built-in types start with), scoped symbol tables and the type
  checker. The checker keeps a ghost record of every expression it checked,
  with the type found and the errors before and after; its contract gives,
  form by form, a node's type and its own errors from the entries its parts
  left in that record. For plain expressions (literals, names, unary and
  binary operators, `if`-`else`) `pure_check` gives the type and the errors
  directly, and the checker's contract says its result equals it. Each entry
  also keeps the errors as they stood when its check ended; a program's
  errors (`program_checked`) are those that stood after its entry
  expression, and keep the errors of every declaration's bodies.
  `hierarchy_laws` proves what subtyping, circular inheritance, protocol
  conformance and common ancestors amount to.
- `app/` — what stays outside verification: the on-disk cache of the tables
  (serde and bincode), the process-wide shared driver, and printing.
- `tests/` — unit and scenario tests.
