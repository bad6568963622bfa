# mdbx

A verified core for a Rust wrapper of [libmdbx](https://github.com/erthink/libmdbx).

`src/` is the library, with its contracts and proofs:

- `schema` — the `mdbx!` declaration language: reading the sub-database
  declarations from positioned tokens and expanding each into an
  `mdbx::Db!` declaration with its flags (the written ones plus those the key
  and value types call for, sorted and without repeats).
- `types` — how keys and values are stored: booleans, integers in a given
  byte order (two's complement for signed ones), binary and text values; with
  round-trip laws for every type.
- `walk` — the decisions of cursor walks (all items, reversed, duplicates of
  a key, and the five kinds of key range).
- `err` — what libmdbx result codes mean; `env` — environment settings and
  the order of the opening steps; `val` — copying or borrowing read values;
  `text` — string order, split, join, sorting, decimal text.

`app/` makes the libmdbx calls (environments, transactions, cursors,
sub-database handles, iterators) and hands the results to the library.
