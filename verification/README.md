# portmanager

A resilient port forwarder: local TCP ports, SOCKS5 proxies and reverse forwards to a
remote host, over QUIC with pinned certificates or over an `ssh -L` tunnel, with the
remote agent bootstrapped over SSH and kept alive through outages.

The logic is a library verified with Verus; what touches sockets, processes, files and
the terminal is a thin program around it.

## Layout

- `src/` — the verified library. Each module states its contracts over mathematical
  models (sequences of characters and bytes, integers, and records of these), and the
  properties that span several functions are public proof functions named `law_*`.
  - text and numbers: `text`, `hexcode`, `net`, `units`
  - the forward grammar and its errors: `forward`, `error`
  - wire formats: `handshake`, `proto`, `socks`, `conn`, `crypto`
  - the session: `client`, `reverse`, `supervisor`, `tunnel`, `netwatch`, `discovery`,
    `agent`
  - what is remembered and how a session starts: `config`, `cli`, `launch`, `bootstrap`,
    `firewall`, `doctor`
  - live control: `control`, `command`
  - the screen: `tui`, `keys`, `screen`, `logbuf`
- `tests/` — the library from outside, on concrete values.
- `app/` — the program: argument parsing, QUIC and TLS, SSH, listeners, the control
  socket, state files and drawing. It asks the library what to do and does it.

Decisions that alternate with outside work are functions from a state and an event to
the next state and an action (`supervisor::step`, `client::attach_step`,
`agent::grace_step`, `netwatch::coalesce_step`, `App::handle_key`); the program
performs the action and hands the event back.

Random numbers, self-signed certificates, SHA-256, hex and JSON coding and a few functions of
the standard library are called through small trusted functions. Each says in its doc
comment what it takes on trust.
