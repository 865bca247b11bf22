# messi

A small git, written in Verus: the formats and rules of the repository are
verified, and a thin program around them does the reading, writing and
networking.

## Layout

- `src/` — the verified library.
  - `packfile/` — object headers, deltas (size and offset encodings, delta
    commands, the line-based delta of two objects) and packfiles (writing
    them, and reading their objects back, deltas included; `roundtrip.rs`
    proves that what is written reads back).
  - `hash_object.rs` — object data, hashes, object paths and trees.
  - `index.rs` — the staging area and its file.
  - `fetch.rs` — the FETCH_HEAD file.
  - `log.rs` — commits read into logs, and the text of `git log`.
  - `diff.rs` — line diffs from the longest common subsequence.
  - `branch.rs`, `parse_commands.rs`, `init.rs`, `add.rs`, `ls_files.rs`, `ls_tree.rs`,
    `check_ignore.rs`, `rebase.rs` — the decisions of the commands.
  - `pull_request.rs` — the pull requests of a repository.
  - `gui/` — the texts of the repository window and where the branches of
    the commit graph are drawn.
  - `api/` — HTTP requests and responses, and the routing of the pull
    request API.
  - `text.rs`, `codec.rs` — text handling, compression, SHA-1, hexadecimal
    and JSON strings.
- `app/` — the command line, the files of the repository, and the API
  server.
- `tests/` — tests of the library.
