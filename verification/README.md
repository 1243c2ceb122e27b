# ai-guardrails

The rules of a guardrails filter for AI traffic, verified with Verus.

A guardrails filter sits in a proxy and asks an external provider about the
messages in Chat Completion requests and responses. The provider passes content,
blocks it, or returns a masked text. This library decides which bodies are
evaluated, finds the messages in them, and acts on what the provider answers:

- a passed body goes through unchanged;
- a blocked request is rejected with status 403 and the provider's reason;
- a blocked response keeps its length: its headers are committed, so its body
  becomes a JSON error, padded with spaces or cut between characters;
- in a redacted body the content of the last user message, or of the last
  choice's message, is replaced, and nothing else;
- a request that is not recognized is refused; a response that is not recognized
  is replaced with an error.

## Layout

- `src/` is the library. `json` is the document tree and its model, `wire` reads
  and writes it with `serde_json`, `extract` finds messages, `redact` rewrites
  documents, `framing` keeps lengths, `media` reads content types, `results`
  reports to the pipeline, `verdict` enforces verdicts, `filter` is the filter.
  Functions named `law_` state what holds of the library as a whole.
- `tests/` runs the library.
- `app/` puts the filter into a Praxis pipeline: configuration, the call of the
  provider, and conversions.
