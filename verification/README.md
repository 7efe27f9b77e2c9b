# recall_proxy

RecallProxy is a context-memory gateway: it stores what an assistant sees in
memory engines (episodic, semantic, temporal, structural, or an SQLite store),
and assembles prompt-ready context from what those engines answer.

This crate is the verified core, written in Verus:

- `src/` — the library, verified by Verus; every function that computes
  something has a contract (the hindsight worker's `process` does nothing):
  context assembly under a token budget, response chunk capture and handoff,
  event envelopes, configuration migration, read-route ordering and startup
  validation, the provider factory, the four in-memory engines and the MCP
  server's engines, and the MCP protocol decisions and replies (session
  state, parameter checks, error answers, results).
  Public `lemma_*` proof functions state the library's laws, such as what a
  query gives back of a write, or when startup validation passes.
- `tests/` — tests run against the compiled library.
- `app/` — the programs around it: HTTP and JSON-RPC front ends, async engine
  adapters, the SQLite engine, configuration files and serde forms of the
  library's types.
