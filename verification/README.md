# event_store

An append-only store of byte payloads kept in one file, read back newest first,
and a second file format for typed records (a `u32` or a string).

- `src/filedb/`: the payload frame `[len][payload][len]` (lengths as big-endian
  `u64`), the `DB` handle, and `StoreIterator`, which walks a file back from its
  end by asking its caller for the byte ranges to read. `log.rs` models a file as
  a byte sequence and proves that reading it back gives every payload put, newest
  first.
- `src/custom_db/`: `Record`, its frame `[type][len][value][len]`, and the `FileDB`
  reader, with the same laws in `log.rs`.
- `src/codec.rs`: big-endian integer encodings.
- `src/bench.rs`: a named millisecond stopwatch.
- `app/`: the file handling (open, append, seek, read) around the readers, and the
  write/read benchmarks.
