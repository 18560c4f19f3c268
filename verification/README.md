# dynamo

A verified library with two parts.

- `tool_calling` reads tool calls out of text in the Harmony format: whether a chunk
  of streamed text may begin a call, which calls a complete text holds, and which
  can still be recovered from a text that was cut off.
- `tcp` holds the state of a server on which workers call back to deliver response
  streams: who awaits which stream, which instance a stream belongs to, and which
  instances were removed shortly before. It also holds the protocol of one
  connection, as three state machines: setting the connection up, receiving and
  sending.

Layout:

- `src/` is the library. Contracts speak of mathematical models: `tcp/tracking.rs`
  is that of the server, and also holds the properties that its operations have
  together. Outside calls are trusted by their contracts; each says in its doc
  comment which function it calls.
- `app/` is what runs the library on sockets, channels and timers.
- `tests/` exercises the library on concrete values.
