# nntpbench

A mock news server and the client workloads that measure it, as a verified library with a small
program around it.

- `src/` is the library. Every function of it is verified by Verus: the grammar of commands, what a
  session answers and remembers, the synthetic articles, the framing of requests and responses, the
  workloads of a client and the layout of an article store. What holds of several functions together
  stands in public proof functions whose names begin with `law_`.
- `app/` is the program: the command line, sockets, files, clocks and what is printed. It hands bytes
  to the library and performs what the library decides.
- `tests/` runs the library on concrete input.

The contracts that are believed without proof are those of the functions marked `external_body` in
`src/bytes.rs`, `src/text.rs` and `src/commands.rs`. Each of them calls `memchr`, `arrayvec` or
`std`, and says what it claims of the call.
