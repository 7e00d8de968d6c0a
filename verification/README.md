# cdl_core

The decision logic of a set of data-lake services (schema registry, data router,
command service, edge registry, object builder, partial update engine, API),
written in Verus and proved against its contracts.

- `src/` is the verified library, one module per service plus shared pieces:
  identifiers (`ids`), JSON documents (`json`), texts (`text`), keyed lists
  (`keyed`), semantic versions (`versions`) and message-queue settings
  (`messaging`). Calls into `uuid`, `semver` and `lru-cache` stand behind small
  trusted wrappers whose contracts say what those crates do.
- `tests/` runs the library on concrete values.
- `app/` holds what the verifier does not see: JSON (de)serialisation with
  `serde`, fresh identifiers, the clock, and the checks that the library's
  `requires` clauses leave to callers.
