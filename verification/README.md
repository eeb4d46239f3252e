# express

A small HTTP/1.1 toolkit whose logic is verified with Verus.

- `src/` is the library. `http` holds the incremental request reader (a
  state machine that is handed pages of bytes and gives back events), the
  request builder those events fill, and the response writer. `router`
  holds the route-pattern reader, the trie of routes with path variables,
  and the per-method router. `server` holds the exact-match router and its
  request and response types. `http_parser` and `http_parser_old` are two
  line-oriented parsers (method line, header lines, query strings), built
  on `types`, `headers`, `fields`, `chars` and `scan`. `flow` holds the
  admission decisions of the worker pools; `client` the client's address.
  `bytemap` and `strmap` are small maps with distinct keys; `buffers`
  states what the `bytes` crate's calls do.
- `app/` is the program: sockets, threads and the console. It feeds the
  reader from a socket, runs the parsers over lines read from a socket,
  and turns Accept ranks into numbers.
- `tests/` exercises the library from outside.
