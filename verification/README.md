# smista_router

The deterministic, LLM-free routing core of the smista router, verified with
Verus.

- `src/` is the verified library: task normalization (`normalizer`,
  `signals`, `fuzzy`), routing-policy matching (`policy_matcher`), model
  selection (`model_selector`), context selection (`context`, `estimator`),
  the resolver that runs those stages in order (`resolver`), usage reports
  (`usage`), the request guards of the web layer (`authorization`,
  `credentials`, `streaming`, `listing`), the session and storage decisions
  (`sessions`, `storage`) and a mock provider (`mock`). `laws` states and
  proves the properties that hold across the stages.
- Calls into `rapidfuzz`, `globset`, `rust_decimal` and a few std functions
  are trusted wrappers whose contracts say what those crates return.
- `app/` is the HTTP layer around the library: axum middleware and the JSON
  forms of the library's reports.
- `tests/` exercises the library from outside.
