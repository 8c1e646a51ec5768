# rust_forward

Tunnels for TCP connections. One end of a tunnel is a SOCKS5 server for its clients, the
other connects to their targets.

- The HTTP tunnel: `bridge` speaks HTTP/3, `forward` answers HTTP/2. A client's data goes
  up in numbered requests and comes down in the body of the first answer.
- The WebSocket multiplexer: both ends are `rust-forward`. One connection carries the
  streams of many clients.

`src/` is the verified library: what the ends decide and compute. `app/` holds the programs
around it, with sockets, timers and TLS. `tests/` runs the library.

| Module | What it holds |
| --- | --- |
| `text`, `header` | text, numbers and header values |
| `socks5` | the SOCKS5 handshake |
| `tunnel`, `sessions`, `inbox` | the server end of the HTTP tunnel |
| `h3_client` | its client end |
| `mux`, `mux_server`, `mux_bridge` | the multiplexer's messages and its two ends |
| `doh`, `ech` | finding the ECH configuration of a server |
| `endpoint`, `idle_read` | choosing addresses, reading until a peer is silent |
| `config`, `mux_config`, `identity`, `noop_verifier` | what the programs are told at start |

What is believed without proof stands in `text` (`String::push`), `header`, `socks5`,
`endpoint`, `ech` and `identity`, each with the outside function that it calls.
