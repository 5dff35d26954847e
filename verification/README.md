# progenitor_impl

The core of a generator of Rust clients for APIs that are described by OpenAPI
documents, written in Verus.

- `src/` is the library. Every function of it states what it does, and Verus
  proves it. Code is spoken of as a sequence of token trees (`tokens`), a
  document as plain data (`document`), settings as a record of maps and
  sequences (`settings`).
  - `validate` checks documents, `multipart` and `multipart_code` gather the
    multipart forms of a document and write the code for them, `tags` picks the
    tag of each name, `operations` goes through the operations, `client` writes
    the client, `spacing` puts blank lines between items, and `generator` ties
    these together.
  - `typespace`, `tokens`, `error` and `spacing` hold the calls into `typify`,
    `schemars`, `proc_macro2`, `serde_json` and `regex`, each with what is taken
    for granted of it.
  - Proof functions whose names begin with `law_` state what holds across
    functions.
- `tests/` runs the library with the real crates.
- `app/` takes documents of `openapiv3` and has a backend read and write the
  single operations.
