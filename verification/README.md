# slsk_protocol

The Soulseek peer-to-peer protocol and the logic of a terminal client for it,
written in Verus. The library's functions are proved against their
contracts; its few calls into std, `flate2` and `md5` go through small trusted
wrappers whose contracts are believed, not proved.

## Layout

- `src/` — the verified library
  - `wire.rs`: the byte layouts of the protocol as spec functions, the
    parsers that read them, and the laws that reading a written value gives
    it back.
  - `codec.rs`: the executable reader and writers, and message framing.
  - `types.rs`, `server.rs`, `peer.rs`, `peer_init.rs`, `distributed.rs`,
    `file.rs`, `shared_files.rs`: every message, with the layout that its
    encoder writes and the value that its decoder reads, and round-trip laws.
  - `zlib.rs`, `md5.rs`: the calls into `flate2` and `md5`.
  - `client.rs` and `client/laws.rs`: the client state (tabs, search results,
    downloads, log) as a model, each operation proved against it, and what
    every operation keeps.
  - `net.rs`: what the network actor decides for each command, server
    message, peer message and file transfer.
  - `labels.rs`: the texts shown in the lists.
- `tests/` — tests on concrete values.
- `app/` — the program: terminal input and drawing (`crossterm`,
  `ratatui`), TCP connections and tasks (`tokio`).

Run the client with `SOULSEEK_USERNAME` and `SOULSEEK_PASSWORD` set.
