# rengarde

A multipath UDP relay for WireGuard. The client sends each packet over every
usable network interface; the server forwards what it receives to WireGuard
and sends WireGuard's replies to every client address heard from recently.

- `src/` is the verified library (Verus): address classification and the
  choice of an interface's sending address (`interfaces`, `net`), the
  completion of settings with their defaults (`client::settings`,
  `server::settings`), the client's table of sending routines and the
  decisions of its loops (`client::routines`, `client::service`), the
  server's table of client addresses (`server::clients`), and the start-up
  banner (`header`).
- `app/` is the program around it: sockets, tasks, timers, settings files
  and logging. Run `rengarde server [config]` or
  `rengarde client [config | list-interfaces]`.
- `tests/` exercises the library on concrete values.
