# nefor_mag

A verified library for MAG programs: typed programs whose value is an artifact, most often a
graph of actors that a runtime loads.

The library takes source texts and answers of a host as plain values and says, for every
input, what comes of them. What it says is stated in contracts and proved by Verus.

## Layout

- `src/tokens.rs`, `cursor.rs`, `type_syntax.rs`, `fixity.rs`, `expr_syntax.rs`,
  `expr_parser.rs`, `lowering.rs`, `surface.rs`: from source text to authored modules.
- `src/lexer.rs`, `parser.rs`, `ast.rs`: forms in parentheses.
- `src/types.rs`, `declare.rs`, `resolve.rs`, `compat.rs`, `infer.rs`, `calls.rs`,
  `overload.rs`, `rules.rs`, `equality.rs`, `block.rs`, `check.rs`, `compile.rs`: types and
  checking.
- `src/env.rs`, `frames.rs`, `fuel.rs`, `memo.rs`, `machine.rs`, `evaluate.rs`,
  `collections.rs`, `primitives.rs`, `descriptors.rs`, `asking.rs`, `files.rs`, `program.rs`:
  evaluation under a budget.
- `src/imports.rs`, `collisions.rs`, `loader.rs`, `session.rs`, `driver.rs`: modules and
  whole programs.
- `src/contract.rs`, `flow.rs`, `graph.rs`, `ir.rs`: graphs and the modifications that they
  are lowered to.
- `src/content.rs`, `json.rs`, `order.rs`, `registry.rs`, `foreign.rs`: documents.
- `src/combinators.rs`: composition of fallible steps.
- `src/invariance.rs`, `soundness.rs`, `typing.rs`, `comparison.rs`, `sameness.rs`,
  `constancy.rs`, `associativity.rs`, `roundtrip.rs`, `answers.rs`: laws that span several functions.
- `app/`: the `mag` command, which reads files, runs Lua registries and answers what a
  compilation asks of its host.

## The host

Evaluation never performs input or output. Where it needs something of its host, it stops
with a question; the host adds the answer to the table of answers and evaluates again.
