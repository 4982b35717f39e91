# ct_shell_trace_writer

The verified core of the CodeTracer shell trace writer.  The bash and zsh
recorders instrument a script and send a line-oriented wire protocol
(`START`, `PATH`, `FUNC`, `STEP`, `CALL`, `ARG`, `VAR`, `WRITE`, `ERROR`,
`RETURN`, `EXIT`); this crate turns those lines into calls of the trace
writer's API and computes the JSON sidecar files.

Layout:

- `src/wire_protocol.rs` — the events and the line parser.
- `src/values.rs` — the `type=` flag of `VAR`/`ARG` values.
- `src/trace_bridge.rs` — `TraceBridge`: from events to writer calls
  (`WriterCall`), and the finishing plan with the sidecar files.
- `src/json.rs` — JSON string escaping and string arrays.
- `src/cli.rs` — the command line.
- `src/text.rs` — decimal text, string building, the order of strings.
- `src/bridge_laws.rs`, `src/protocol_laws.rs` — properties over whole
  event streams and of the protocol's quoting.
- `app/main.rs` — the program: reads stdin, drives the trace writer,
  writes the sidecar files.
