# acorn

The verified core of a small theorem prover. A module of source text is read into an environment of
types, constants and propositions; each goal in it is turned into clauses; and a saturation search
looks for a contradiction between these clauses and the negated goal.

## Layout

- `src/token.rs`, `src/expression.rs`, `src/statement.rs`: from text to statements.
- `src/acorn_type.rs`, `src/acorn_value.rs`: types and values, and what is done to them.
- `src/type_code.rs`: the code of a type reads back as the type.
- `src/binding_map.rs`, `src/operators.rs`, `src/numerals.rs`: names, the values of expressions, and
  how values are written as code.
- `src/declare.rs`, `src/typedef.rs`, `src/datatypes.rs`, `src/elaborate.rs`, `src/block.rs`,
  `src/environment.rs`: statements as part of an environment.
- `src/debug.rs`: types and values, written part by part for messages.
- `src/spelling.rs`, `src/written.rs`, `src/printed.rs`, `src/reread.rs`, `src/round_trip.rs`: what is
  written can be read again.
- `src/consistency.rs`: every line of a block is known to the environment of the block.
- `src/logic.rs`, `src/normalizer.rs`, `src/denormalize.rs`: between values and clauses.
- `src/term.rs`, `src/literal.rs`, `src/clause.rs`, `src/unifier.rs`, `src/term_graph.rs`: terms and
  clauses.
- `src/active_set.rs`, `src/passive_set.rs`, `src/prover.rs`: the search.
- `src/proof_step.rs`, `src/proof_info.rs`, `src/report.rs`: what the search has found.
- `src/meaning.rs`, `src/soundness.rs`, `src/refutation.rs`, `src/verdict.rs`: what clauses mean, and
  that each rule of inference and the search as a whole are sound.
- `src/build_cache.rs`, `src/command.rs`: what was verified before, and the command line.
- `app/`: reading files, the command line and the language server.

Proof functions whose names start with `law_` state what holds of the library as a whole.
