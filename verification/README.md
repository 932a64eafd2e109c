# network

A node of a small peer-to-peer network, with its logic verified by Verus.

- `src/` is the verified library:
  - `peer`, `peer_table`: peers, their states, and the table of known peers
    with what each piece of connection feedback does to it;
  - `controller`: the node's settings beside its table of peers;
  - `handshake`: what each side of the handshake does after each attempt to
    write or read;
  - `address`: `host:port` text, and port numbers written and read in decimal;
  - `kv_store`: the key/value store that answers the demo server's commands;
  - `client`: what the clients do after each attempt to connect or to ask;
  - `keyed`: association lists with text keys, read as maps.
- `app/` is the program around it: sockets, tasks, the clock, the peers file in JSON,
  and the key/value demo on top of `mini-redis`.
- `tests/` runs the library on concrete values.
