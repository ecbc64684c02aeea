# projects-rs

A small process manager: a daemon that starts project commands under
`script`, keeps track of them, and lets a client list, start, stop, kill and
attach to them over a Unix socket.

- `src/` is the verified library: the framing of messages on the socket
  (`socket`), the daemon's table of running projects (`procs`), the daemon's
  and the client's decisions (`daemon`, `commands`, `util`), and the string
  and path handling they rest on (`text`, `paths`). The message and command
  line types are in `data` and `cli`.
- `app/` is the program around it: argument parsing, the socket, files,
  processes and the terminal.
- `tests/` exercises the library on concrete values.
