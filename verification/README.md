# rust_io

Fast byte-oriented input and output, verified with Verus.

- `src/scanner.rs`: `Scanner` splits an in-memory input into tokens delimited by
  ASCII whitespace and parses them (`Readable` for the integer types, `bool`,
  `String` and `Vec<u8>`). Its contracts are stated over the unread input.
- `src/output.rs`: `OutputBuffer` formats integers in decimal and writes tokens,
  with an optional delimiter between tokens (`Writable`). Its contracts are stated
  over `OutputState`: the bytes written, the delimiter, and whether one is due.
- `src/round_trip.rs`: laws on what the scanner reads back of what the buffer writes.
- `app/lib.rs`: the I/O edges (standard input, readers, writers) and `f64` tokens.
