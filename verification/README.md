# firestore_plugin

The verified core of a Firestore driver plugin for Tabularis. The plugin is
a binary the host spawns and talks to over JSON-RPC on stdio; everything it
decides without talking to Firestore lives in the library and is proved
with Verus against its contracts:

- `lexer`, `grammar`, `query_parser`: the SQL subset, as a grammar over
  tokens and a parser proved to follow it.
- `firestore_filter`: Firestore's compound-filter restrictions and the
  document-ID rewrite; `canonical`: order-independent cache keys.
- `cache`: the TTL / LRU cache with its laws (what a read finds after a
  write, and for how long; the capacity bound; eviction of the oldest
  entry).
- `schema_infer`, `schema_overrides`: column inference from a sample
  (including the collection each reference field points into, for the
  foreign keys of the schema snapshot) and the override file's rules.
- `firestore_error`, `query_plan`, `crud`, `coercion`, `client`, `admin`,
  `models`: the decisions of the RPC handlers.

`app/` holds the stdio loop, the JSON-RPC dispatch, the Firestore calls and
the conversions between JSON, Firestore values and the library's types.
