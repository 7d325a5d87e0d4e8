# kintoun

A small key-value store with a text command language (`set`, `get`, `del`,
`exists`, `incr`, `decr`), served either as a line-oriented REPL or over TCP
with length-prefixed frames.

## Layout

- `src/` — the library, verified with Verus:
  - `text` — whitespace and word splitting, ASCII case folding, decimal
    numerals and `u64` parsing;
  - `cmd` — the command grammar;
  - `storage` — typed values, the mutation funnel (`Storage::apply`) and the
    in-memory backend;
  - `executor` — running a command against a storage;
  - `format` — the Redis-like rendering of results and `ERR <msg>` errors;
  - `repl` — a whole session over input bytes, and the answer to one line;
  - `server::codec` — the `[len:u32 BE][payload]` frame codec over
    `bytes::BytesMut`;
  - `server::connection` — one request frame in, one response frame out.
- `app/` — the binary: argument handling, stdin/stdout, the tokio runtime,
  the accept loop and the per-connection task.
- `tests/` — tests run against the compiled library.

Each public operation states its behaviour over a mathematical model
(`Map<Seq<char>, ValueView>` for the store, `Seq<u8>` for wire bytes,
`Seq<char>` for text), and the library's cross-cutting properties — frame
round trips, read-after-write, counters that undo, whitespace and case
rules of the grammar, and sessions that never stop on valid UTF-8 — are
stated and proved as public proof functions beside the code they concern.
