# tonel

A TCP stack in user space that carries datagrams over a Tun device, and a server that
passes them on as UDP.

`src/` is the library, written in Verus. It decides what happens next and waits for nothing:

- `addr`, `bytes`, `checksum`, `packet`: addresses, and TCP packets over IPv4 and IPv6;
- `socket`: one connection, as steps from an event to an action;
- `flows`, `table`, `stack`: the connections of a stack and the way of a packet to its
  connection;
- `laws`: what holds of connections and stacks as a whole;
- `encryption`, `server`: the datagrams of a client between its TCP connections and its
  UDP sockets;
- `text`, `rules`, `pf`: the commands that set up forwarding and the firewall, and those
  that take both back.

`app/` is the server program: it reads the command line, and holds the device, the
channels, the timers and the tasks that carry out what the library decides. `tests/` runs the library.

The library calls `pnet` to read TCP headers and keeps the shared tables of a stack in
`dashmap`. What it relies on there is stated at `packet::tcp_fields` and in `flows`.
