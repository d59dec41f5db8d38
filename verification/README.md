# qdrop

A peer-to-peer clipboard, file and link bridge between one person's own
devices: devices pair once with a six-digit PIN (SPAKE2), then find each
other over mDNS and talk over mutually authenticated TLS 1.3 with pinned
keys. Clipboard text and images sync both ways, files and links can be
pushed to a peer, and a control socket lets the CLI drive the daemon.

## Layout

- `src/` is the library, written in Verus. Every decision the program takes
  lives here with a contract: framing and the wire vocabulary (`frame`,
  `proto`), the pairing exchange as a state machine (`pairing`), key
  pinning and the device identity (`tls`, `roster`, `identity`), the peer registry (`peers`), connection
  arbitration and the connection manager (`transport`), keepalive
  (`connection`), reconnect backoff (`backoff`), clipboard sync and echo
  suppression (`sync`, `clipboard`), file reception (`filexfer`), links
  (`weblink`), authorization (`auth`), history (`history`), the published
  state (`state`), configuration and paths (`config`, `paths`, `store`),
  and the `qdrop` subcommands' decisions (`cli`, `control`, `doctor`).
  Properties that relate several calls are stated as public `lemma_*`
  proof functions next to the code they are about.
- `app/` is the executable around it, in plain Rust: argument parsing,
  files, sockets, TLS configuration, mDNS, the clipboard, and the async
  loops that feed events to the library's state machines and carry out the
  actions they return.
- `tests/` exercise the library on concrete values.
