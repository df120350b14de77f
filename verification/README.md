# minion_adaptor

An adaptor between constraint models and the solver Minion, with dominance programming: after each
solution the search is told to find none that the solution dominates. The library is written in
Verus. Its functions have contracts that are proved, but for three that are named below.

## Layout

* `src/adaptor.rs` - the adaptor: loading a model, a search from solution to solution, its end.
* `src/dominance.rs` - the constraint that a solution puts on the solutions after it.
* `src/simplify.rs`, `src/rewrite.rs` - simplification of expressions, pass by pass.
* `src/injection.rs` - adding a dominance constraint to a running search.
* `src/represented.rs` - values of names that the solver knows by a representation only.
* `src/name.rs` - names, read back from the texts that Minion has for them.
* `src/expression.rs`, `src/model.rs`, `src/minion_ast.rs`, `src/solution.rs`, `src/error.rs`,
  `src/text.rs` - the data.
* `src/meaning.rs`, `src/termination.rs` and the modules named `*_laws` - what holds of all this:
  what expressions mean and that rewriting keeps it, when simplification ends, that a model only
  grows while it is searched, how a search ends, and that no solution is shown that an earlier one
  dominates, and none kept out but for that, given what the solver and the modelling layer are to
  do.
* `app/` - the search loop around a solver, and the writing of solver input.
* `tests/` - tests on concrete values, with a search by enumeration in place of the solver.

## What is not proved

The contracts of three small functions are believed: `intern` (the crate `ustr`), `captures` (the
crate `regex`) in `src/name.rs`, and `debug_text` (the standard library) in `src/text.rs`. The
evaluators, the rewriter and the solver are parameters. What is proved holds whatever they reply, as
long as an evaluator has one reply to one expression and simplification with it comes to an end;
`law_simplification_settles` in `src/termination.rs` says when it does.
