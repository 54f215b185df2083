# config_patch

Deep merge of configuration documents (JSON, YAML and TOML), verified with
Verus.

- `src/value.rs`: the document type `Value`, its model `Json`, and
  well-formedness (no object repeats a key).
- `src/merge.rs`: the merge specification (`merge`, `merge_entries`,
  `merge_items`, `merge_all_spec`) and the verified implementation
  (`deep_merge`, `merge_all`, `array_key_value`, `is_null_removal`).
- `src/nulls.rs`: removal of null-valued keys from overlay content, nulls
  written as text for TOML, and null-free documents.
- `src/numbers.rs`: documents whose number texts serde_json reads back as
  numbers, which merging keeps so and JSON printing relies on.
- `src/laws.rs`: properties of the merge, proved: object merge and null
  removal at every depth, type conflicts, array replacement and smart array
  merge, priority order, preservation of well-formedness.
- `src/format.rs`: file formats, their detection from a path, and `parse` /
  `serialize`.
- `src/codec.rs`: the calls into serde_json, serde_yaml and toml, with names
  for what they read and print.
- `src/error.rs`, `src/run.rs`: errors and the input-count check.
- `app/`: the command line: argument parsing, logging and file I/O.
