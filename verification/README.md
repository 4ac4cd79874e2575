# parqcat

A command-line viewer for local Parquet files (`cat`, `head`, `tail`,
`schema`), with JSONL and table output, whose logic is a library verified
with Verus.

- `src/` is the verified library:
  - `cli` parses the command line against a grammar stated as spec
    functions, with laws on help flags, format flags and the default row count;
  - `entry` decides what the program answers (standard output, standard
    error, exit status) and what a command reads;
  - `input` recognises refused paths and outer `.gz`/`.zst`/`.zstd` wrappers,
    and unwraps them with flate2 and zstd;
  - `plan` chooses the row groups, offset and limit of a read, and writes
    batches one after the other;
  - `model` is the library's own picture of Arrow fields and values;
  - `json`, `table` and `schema` render rows as JSON lines, rows as a table,
    and the schema as a table;
  - `format` and `text` hold the value and character-level text (dates and
    times through chrono, decimals through arrow, binary through base64).
- `tests/` runs the library on the values of the Parquet fixtures and on
  edge cases.
- `app/` is the program: arguments, files, the Parquet reader, and the
  conversion of Arrow arrays (known only by runtime downcasting, floats
  included) into the library's model.

## Schema output

Schema output is a compact table. The name and type columns are as wide as
their header and their widest cell, so the excerpt

```text
name      type     nullable
--------  -------  --------
id        Int32    no
name      Utf8     yes
```

is the beginning of the output for a schema whose further fields include a
name of eight characters (such as `category`) and a type of seven (such as
`Boolean`); for a schema of these two fields alone the columns are narrower.
