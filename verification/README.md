# hellforge

A file synchronisation tool: it watches a directory, uploads the files whose
contents changed since their last upload, and polls a server for archives of
updates to unpack into the watched directory.

- `src/` is the verified library: configuration and modes (`config`), the
  record of uploaded content hashes (`sync_state`), SHA-256 hashing and hex
  text (`digest`), paths as component sequences (`path`), server events and
  poll decisions (`event`), archive unpacking (`archive`), the per-event
  decisions of the watcher (`watcher`) and string helpers (`text`).
- `app/` is the command-line program around it: argument parsing, files,
  HTTP, the file-system watcher and threads.
- `tests/` runs the library on concrete values.
