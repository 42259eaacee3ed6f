# repository-ledger

A typed record of what was pushed to a Git server.

A Gitolite receive hook reports every push. The ledger gives each report a
sequence number and keeps it, together with the commits and file changes that
came with it. Readers ask which repositories were pushed to recently, which files
changed in a window of time, and which commit messages mention a text. A second
contract registers repositories and sets spool and mirror policy.

## Layout

- `src/` is the library, and is verified but for the trusted calls named below.
  - `text`, `path`, `order`, `model`: texts and their order, paths, stable sorting,
    models of values.
  - `contract`, `meta_contract`: the two contracts, as types with models.
  - `records`, `table`, `ledger`: what is stored under which key, tables in the
    order of their keys, and the ledger as a value with the writes that change it.
  - `queries`: what each query selects, and in which order.
  - `store`: the tables, and the writes that a record engine has still to make.
  - `nexus`, `service`, `frame`, `error`: which storage step a request needs, and
    how a batch is answered.
  - `notation`, `spool`: notifications that a hook left in files.
  - `client`, `daemon`, `daemon_command`, `configuration`: the decisions of the
    programs, and the archive of the daemon's configuration.
- `app/` holds the programs: sockets, files, actors, and the record engine.
- `tests/` runs the library.

## What is trusted

Two functions of `rkyv` and `str::to_lowercase` are called through wrappers whose
contracts are believed: see `configuration.rs` and `text.rs`.
