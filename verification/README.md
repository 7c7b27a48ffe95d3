# openmso

Bindings for the OpenMSO Capture Protocol, the protocol by which OpenMSO obtains
digital or analog samples from an out-of-process capture server. The library is
written in Verus: what each function returns is stated in its contract and
proved. What `serde_json`, `bytes` and two functions of std do is stated too, but
trusted: in `src/json.rs`, `src/payload.rs` and `src/text.rs`, each with the name
of the outside function.

- `src/` is the verified library. It owns no socket, file, thread or process: it
  decides and computes, on bytes and messages.
  - `encoding` — sample encodings, byte codecs and the negotiation of both.
  - `server` — the plugin's end: its arguments, the control loop's state machine
    and the event stream.
  - `client` — the frontend's end: requests, and what replies come to.
  - `transport` — socket options, and where a plugin's sockets live.
  - `manifest` — how a plugin is run.
  - `framing` and `json` — line-delimited JSON messages with raw payloads.
  - `proto`, `error`, `text`, `path`, `payload` — what the others are made of.
- `tests/` runs the library.
- `app/` is ordinary Rust around the library: nng sockets, protobuf on the wire,
  the runtime directory, the plugin process, `plugin.json`.

Licensed under Apache-2.0.
