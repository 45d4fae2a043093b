# wiretally

Run any command behind an ephemeral counting proxy and get a per-domain byte report when it exits.

```bash
wiretally --domain-prefix amazonaws.com -- mcap info s3://my-bucket/dataset.mcap
```

A proxy binds a port on `127.0.0.1` and speaks three protocols on it, told apart by the first byte
of each connection: SOCKS5, HTTP `CONNECT`, and plain HTTP. The child's environment points it
there. Tunnels are spliced as raw TCP, so the counters see exactly what crossed the wire; plain
HTTP is counted on the upstream socket; datagrams of a SOCKS5 `UDP ASSOCIATE` are relayed and
counted by payload.

## Layout

- `src/` is the verified library. Its functions state what they return or change, and Verus proves
  it, except of the few that only make a call that leaves the library (see below).
  - `stats`, `io`, `session`, `udp`: the counters, and what a connection does to them.
  - `socks`, `proxy`, `address`, `literal`: the wire formats and what the proxy decides on them.
  - `dns`, `report`, `rounding`, `run`: names, the summary, and the end of a run.
  - `text`, `table`, `sums`: what the rest is written and stated in.
  - `accounting`, `conservation`, `filters`, `heads`, `naming`, `transfers`, `wire`: laws that
    relate several functions, such as that renaming a host loses no traffic, that whatever is wrapped for
    a client reads back unchanged, or that handshakes cost no bytes.
- `app/` is the program: sockets, the child process, the clock, the name system and JSON.
- `tests/` runs the library.

## What is taken on trust

A few calls leave the library, each behind one item. `String::push`, `str::from_utf8`,
`String::from_utf8_lossy`, `hyper`'s URI parser and `chrono`'s clock come with a statement of what
is relied on. The text of an `std::io::Error`, and the making of one, come with none: nothing is
relied on there.
