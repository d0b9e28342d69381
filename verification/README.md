# context_engine_rs

The logic of a code-context engine: it splits source files into chunks, has them
embedded by a provider, stores symbols, edges and chunks in a database, and
searches the embeddings by similarity. The logic is written in Verus and its
contracts are proved.

- `src/` is the library. It computes: what to request next, what to make of a
  reply, which statements to run, what the index holds. It does no I/O.
- `app/` is ordinary Rust that does the rest: HTTP, the database, files, events,
  and the floating-point arithmetic of similarity.
- `tests/` runs the library on concrete values.

Embeddings are generic in `src/`: an index holds vectors of any `Copy` type, and a
score comes in as the bits of an IEEE 754 single, which order as integers do.

Where an operation waits for a service, `src/` holds it as a run that is told what
came back and answers what to do next (`QueryRun`, `RequestRun`, `CompletionRun`,
`EmbedRun`); `app/` performs the step and reports back.

Three items of the standard library are used without proof, each with a stated
contract in `src/text.rs`: `String::push`, `char::is_alphanumeric` and
`str::to_lowercase`. A source file is expected to have fewer than 2^32 - 50 lines.
