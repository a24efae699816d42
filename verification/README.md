# eventage

An event-driven framework for language-model agents, written in Verus.

Everything that happens in a session is an event on a branching log. Agents wake on
events, assemble a request from the log, call a model, run tools, and append what
came of it. A checkpoint can be rolled back; what is abandoned is kept as a rejected
branch.

## Layout

- `src/` is the verified library: the log and its branches, the conversion between
  events and the wire formats of four model services, streaming readers, context
  assembly and compression, tool planning, permissions, budgets, recovery,
  speculation, components, plugins, and the MCP client's protocol. Its functions take
  plain values and return plain values; contracts say what they return.
- `src/bus_laws.rs` and the functions named `law_*` state what holds of the library
  as a whole.
- `app/` is the runtime around it: locks, channels, HTTP, child processes, files. It
  makes no decision of its own.
- `tests/` runs the library on concrete values.

## What is not proved

The library believes what it states of a few outside functions: reading and printing
JSON (`serde_json`), UUIDs (`uuid`), the clock (`chrono`), URL parsing (`reqwest`),
and four functions on strings of the standard library. Each such function stands in
`src/` with a comment that says what is claimed of it.

Floating point stays outside: shares of a token budget and scores are worked out in
`app/`, and the library is handed integers.

Token counts are uncalibrated: they are those of the built-in estimator, and what a
service reports as used does not correct them.
