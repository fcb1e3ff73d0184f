# slab_core

A verified library behind `slab`, a command line tool that keeps Slab posts
as Markdown files in a local vault.

- `src/` is the library, verified with Verus: the Delta ⇄ Markdown
  converters (`from_delta`, `to_delta`, `markdown`), the vault's file format
  and status (`vault`, `status`, `paths`), configuration resolution
  (`config`, `context`), the GraphQL request and reply handling (`api`),
  and the decisions of each command (`sync`, `posts`, `comments`, `topics`,
  `search`, `links`, `tree`, `auth`, `vault_cmd`). Laws that relate several
  functions stand as public proof functions (`round_trip`, `tree_order`,
  `delta_shape`, and the `lemma_*` items of `vault`, `status`, `sync`,
  `to_delta`, `api`, `config`).
- `tests/` runs the library on concrete values.
- `app/` is the program: argument parsing, HTTP, SQLite, files, the
  clipboard and printing. It hands the library plain values and prints what
  comes back.
