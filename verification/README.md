# zeroclaw

Building blocks of an agent runtime, verified with Verus.

- `src/` is the library. Every function states what it computes in `requires` and
  `ensures`, and Verus proves it. Statements that relate several functions stand
  beside them as proof functions whose names begin with `law_`.
- `tests/` runs the library on concrete values.
- `app/` is the runtime around the library: network, storage, waiting, and the
  types that carry derives of other crates. It performs the steps that the
  library decides on.

| Module | What it decides |
| --- | --- |
| `agent` | which hint a message gets, when a tool is retried, how a history is compacted, what a checkpoint store holds |
| `config` | which notes a TOML config gets, how legacy sections are lifted |
| `gateway`, `skills` | which skills are exported, found, refined |
| `hooks` | which tool output is scanned, what a hook's verdict means |
| `mcp_server` | what a JSON-RPC request is answered |
| `memory` | when to dream and what follows, what a customer model learns |
| `providers` | when a request may be sent, when a prompt cache broke |
| `tools` | which URL may be requested, how a browser action becomes a tool call, in which order a plan runs |
| `json`, `text`, `text_map`, `sorting`, `clock`, `ids` | foundations |

What the library takes on trust from other crates and from `std` is marked
`#[verifier::external_body]` or `assume_specification`, each with a comment that
says what is claimed of the outside function.
