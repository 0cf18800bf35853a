# loom_core

Loom is a validating compiler for agent and human-in-the-loop workflows: a
`workflow.loom` file declares queues, actions, terminal and escape states, steps,
phases and profiles; markdown prompt files route each action's outcomes to states.
Loom parses the workflow, resolves every name, validates the state graph (and the
subgraph of every profile), and emits TOML, a Knots bundle, Mermaid or DOT.

This crate is the verified core, written in Verus. Every function in `src/` carries
a contract over mathematical models (sequences of entries for the ordered maps,
views of the syntax tree and the intermediate representation), and Verus proves it.

Layout:

- `src/parse/`: the lexer (with a proof that a text has at most one lexing) and the
  recursive-descent parser, whose success is proved to coincide with the grammar.
- `src/lower.rs`: from the syntax tree, the included profiles and the prompt files to
  the intermediate representation (`src/ir.rs`), with every error it reports stated.
- `src/graph/`: the state graph (petgraph), its validation, profile subgraphs and
  rendering.
- `src/codegen/`: TOML and Knots bundle output.
- `src/diff.rs`, `src/compat.rs`: structural diff and compatibility between versions.
- `src/sim.rs`: the decisions of the interactive simulator.
- `src/release.rs`, `src/version.rs`, `src/install.rs`, `src/doctor.rs`: the decisions
  behind `update`, `uninstall` and `doctor` (release targets and URLs, checksums,
  version comparison, install locations, shell completions).
- `src/maps.rs`, `src/text.rs`: the trusted wrappers around `indexmap` and the text
  helpers the rest uses.
- `app/`: the command-line program: argument handling, files, network, archives and
  serde, calling the library for every decision.
- `tests/`: tests of the library on concrete inputs.
