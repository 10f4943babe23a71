# proximadb

The logic of a multi-model database server, written in Verus: every function of
the library has a contract, and the contracts are proved.

- `src/text`: characters, numbers, ordering, splitting and ordered maps.
- `src/sql`: scanning of SQL and Cypher text, the clauses of SELECT statements,
  and the catalog objects that SQL names (over the syntax tree of `sqlparser`).
- `src/query`: lowering of parameters, unified queries and JSON requests to SQL.
- `src/scram`: the server side of SCRAM-SHA-256 (over `ring`, `sha2`, `base64`).
- `src/mlflow`: an MLflow-compatible tracking store, its filters, pages, wire
  forms, artifacts and model registry.
- `src/records`: a bounded memtable and a store that spills to segments (over
  `dashmap`).
- `src/queue`: the paths and URLs of the message queue.
- `src/storage`: segment discovery, native tables and the keys of artifacts in
  an object store.
- `app`: ordinary Rust around the library: HTTP handlers, services, the
  environment and floating point.
- `tests`: tests of the library.

Texts are modelled as sequences of characters. What comes from outside crates
stands behind small functions whose contracts are believed; each has a comment
that says what is believed of which function.
