# ores_cli

Repository-shape audits for independently authored contract sources
(TypeSpec and Draft 2020-12 JSON Schema), verified with Verus.

- `authority_write`: rejects automation under `.github/workflows`, `scripts`
  and `tools` that writes directly to an authored TypeSpec or JSON Schema
  source (shell transfers, redirects, output flags, file-writing APIs),
  while reads and writes to other destinations pass.
- `contract_config`: checks the `contracts.config.json` declarations of a
  TypeSpec / JSON Schema peer pair: present, safe, distinct, readable,
  free of conflict markers, and the schema on the 2020-12 dialect.

## Layout

- `src/`: the verified library. Each audit is a function from a snapshot of
  the repository (walk entries, file metadata, file texts, resolved paths)
  to a report, with a contract that states the exact findings and metadata
  over spec functions. `laws.rs` in each audit holds the properties proved of
  every input. JSON parsing goes through `serde_json` behind one trusted
  wrapper (`json.rs`).
- `app/`: the file-system side: it walks the tree with `walkdir`, reads
  files, canonicalizes paths, hands the snapshot to the library and presents
  the report with JSON metadata.
- `tests/`: the audits' scenarios on in-memory repositories.
