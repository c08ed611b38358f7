# peaboard

A private bulletin board for the terminal. A node discovers its peers through
`peaveil`, gossips sealed posts through `peasub`, and keeps the boards in
memory. This is a demonstration: the encryption key is part of the source.

- `src/` is the library. It is written in Verus, and its contracts are proved.
  - `proto` — the post, its wire format, and sealing it into a frame
  - `cipher` — ChaCha20-Poly1305, through the `chacha20poly1305` crate
  - `board` — the boards of a node: filing, joining, listing
  - `feed` — what the gossip layer delivers
  - `repl` — what a typed line means and how it is answered
  - `net` — which peers are dialled, and when
  - `args` — the command line
  - `text`, `numeral`, `big_endian`, `clock` — what the others are written with
- `tests/` runs the library against concrete values.
- `app/` is the program around it: sockets, terminal and timers.

The functions named `law_*` state what holds of the library as a whole.

What is trusted rather than proved is marked `external_body` and says so in its
comment: the two calls into the cipher, drawing a nonce, reading the clock, the
length of a message id, and reading UTF-8.
