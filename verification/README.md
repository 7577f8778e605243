# rlox

The front end of a tree-walk interpreter for the Lox language, verified with
Verus, and a command-line driver around it.

- `src/token.rs`: the scanner, with its lexical specification (`scan`).
- `src/grammar.rs`: the grammar of Lox and the parser's error recovery, as
  spec functions on token sequences.
- `src/parser.rs`: the recursive-descent parser, proved to produce exactly
  what the grammar prescribes.
- `src/expr.rs`, `src/stmt.rs`: the syntax trees and their models.
- `src/printers.rs`, `src/expr/`: printing expressions as trees and in
  reverse Polish notation.
- `src/resolver.rs`: static resolution of local variables and the errors it
  finds before running: unused locals, locals read before they are assigned,
  redefined native functions, reads in an initializer, duplicate
  declarations, top-level `return`; `this` and `super` resolve to the scopes
  a class opens.
- `src/class.rs`: what a class declaration decides (its members, their kinds,
  its initializer and arity) and how a method is found up a superclass chain.
- `src/operators.rs`: which kinds of operands each operator accepts, what it
  computes from them, and the error it refuses the others with.
- `src/runtime.rs`: the checks made before a call and a property access,
  and the error each refused access is answered with.
- `src/report.rs`: the text of error reports.
- `app/`: the driver and the evaluator, which computes with floating point
  and shared mutable objects and so is not part of the verified library.
