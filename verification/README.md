# Cedar policy engine

A policy engine for a gateway, written and verified in Verus. It takes an envelope (a decision
point, a JSON input, and who asks), turns it into a typed Cedar request, has Cedar decide under the
policies in force, and gives back a decision with obligations and redactions.

- `src/` is the engine: configuration, loading of policies, translation of requests, decisions,
  audit events, timestamps, and what the nodes of a cluster tell each other. Every function states
  what it does, and the functions named `law_` state what holds of the engine as a whole.
- `src/cedar.rs` and `src/json.rs` hold the calls into `cedar_policy` and `serde_json`. What Cedar
  makes of policies is Cedar's own; the engine is proved for every answer that Cedar can give.
- `app/` is the plugin around the engine: reading files and JSON configuration, metrics, logging,
  and the services of the gateway.
- `tests/` runs the engine on given policies and inputs.
