# exec_protocol

Bounded capture of subprocess output, and the message shapes of a session
daemon's protocol, written in Verus.

- `src/buffer.rs` — `HeadTailBuffer`: keeps the first half and the last half
  of a byte stream within a fixed budget and counts what it drops. Every
  operation is specified over `BufferView`; `after_push` states one push.
- `src/retention.rs` — what a buffer keeps of the whole stream it was fed
  (`kept_head`, `kept_tail`, `dropped`), proved for any sequence of pushes and
  independent of chunking.
- `src/chunks.rs` — facts about flattening lists of chunks.
- `src/subprocess.rs` — `CommandOptions`, the routing of output chunks to
  per-stream buffers, the decisions of the deadline loop (`RunState`), and
  exit-code normalization.
- `src/usage.rs` — token usage and its saturating sum, with its algebraic laws.
- `src/tool_use.rs` — tool calls and their one-line rendering.
- `src/msg.rs` — the protocol's plain data types.
- `app/` — process spawning, reader/writer tasks, process-group handling and
  the serde wire types, in ordinary Rust around the library.

The environment of a `CommandOptions` is a list of assignments applied in
order, so a later value for a name wins; its contracts speak of the `Map` it
describes. A list is used rather than a `HashMap<String, String>` because
vstd specifies `HashMap` operations only for key types that obey its key
model, which covers integer keys and not `String`.
