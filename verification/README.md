# unp_sockets

Small UNIX network programming examples (daytime, echo and summing servers and clients over
TCP and UDP, with `select` and `poll` multiplexing), built around a Verus-verified library.

- `src/` is the library, verified with Verus:
  - `sockets`: address families, protocols, the arguments of the `socket(2)` call and the
    reading of its result;
  - `decimal`: reading and writing `i32` decimal text;
  - `sum_service`: the summing echo service (tokens, parsing, overflow-checked sum, reply);
  - `utf8_text`: a UTF-8 well-formedness decision;
  - `datagram`, `stream_echo`, `daytime`, `relay`: the per-turn decisions of the datagram
    and stream echo programs, the daytime programs and the select-driven echo client;
  - `client_table`: the connection bookkeeping of the select- and poll-driven servers.
- `app/` holds the programs themselves (argument parsing, sockets, system calls), one
  subcommand each: `unp <program> <arguments>`.
- `tests/` exercises the library.
