# path_editor_core

A Windows PATH and environment-variable editor whose logic is verified with
Verus.

- `src/` is the library. Its functions are verified against their
  contracts, except three small trusted wrappers of the standard library
  (`String::push`, `str::to_lowercase`, `char::from_u32`) whose contracts
  are taken on trust. It covers splitting, checking and joining the `Path` value; the generic
  environment-variable operations (read, create, update, delete, reveal,
  list) over a model of a registry hive, with optimistic concurrency by
  revision; disabled entries and their merge with the registry; import and
  export in CSV, TXT and JSON form; conflict and tool scans over directory
  listings; profiles; backups; and the rules of the command line.
  Laws that span several operations are public proof functions, mostly in
  `src/registry/env_laws.rs`, `src/disabled.rs`, `src/path_value.rs` and
  `src/store.rs` (saving, loading and renaming over a model of the
  versioned files).
- `tests/` runs the library on concrete values.
- `app/` is the command-line program around it: argument parsing, the
  registry, files, time and the serialised forms of the library's types.
