# remote_shutdown

An agent that a phone app drives over the local network: it listens for UDP
datagrams on port 8888, shuts the machine down, runs shell commands, names
itself, and moves or clicks the mouse, answering on port 8887 of the sender.

- `src/` is the verified library (Verus): `protocol` decides what a datagram
  asks of this host and what is answered where; `mouse` turns mouse requests
  into device operations; `virtual_mouse` holds back small pointer motion for
  an event device; `text` holds the character-level primitives (trimming,
  prefix tests, replacement, words, integer parsing) with their meaning
  stated.
- `app/` is the program around it: sockets, processes, the input devices,
  the tray icon and the registry.
- `tests/` runs the library on concrete requests.
