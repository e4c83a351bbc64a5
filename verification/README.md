# adam

The verified core of ADAM, a persistent cognitive substrate for LLM-based
agents: an organism with a versioned genome, durable memory, skills,
beliefs, and a governed way of proposing and applying changes to itself.

`src/` is the library, verified with Verus:

- `trials` — running sandboxed trials of a proposal, tallying them, the
  baseline risk of each proposal kind, and the recommendation ladder.
- `proposal` — the kinds of evolution proposal.
- `amendment` — what accepting a proposal changes: genome field parsing,
  list amendments, the evaluation gate for identity-bearing fields, and
  the advisory notes of proposals that change nothing.
- `ledger` — the latest evaluation recorded for each proposal.
- `signals` — failing skills and repeatedly withdrawn beliefs, derived from
  the organism's state.
- `embedding` — bag-of-hashed-tokens counts of a text.
- `codec` — the byte format of stored embeddings.
- `framing` — what the server does with each newline-delimited input line.
- `memory` — the evidence column, stored timestamps, the not-found rule of
  updates, and conflict resolution between memories.
- `pool` — organisms keyed by id, created lazily.
- `text` — character-level string helpers and whitespace tokenization.

`app/` holds the MCP server binary and what the library cannot hold: the
SQLite store, floating-point scoring, and the composition with the genome,
skill, belief, evolution and governance subsystems.
