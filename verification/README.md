# memctl

Hygiene for a directory of Markdown memory files, each with YAML front matter
(`name`, `description`, `type`, optional `superseded_by`, `valid_until`, `tags`).

- `src/` is the verified library:
  - `text` — code point order, trimming, searching, joining, UTF-8 lengths;
  - `date` — calendar days (chrono's `NaiveDate` as year, month and day);
  - `order` — the stable sort of a selection by rank, then text;
  - `schema` — memory types, front matter, splitting a document (gray_matter),
    which directory entries are memory files, and writing a file back;
  - `index`, `validate`, `stale`, `gc`, `supersede`, `migrate`, `show`, `dedupe` —
    one module per command;
  - `laws` — properties across the commands.
- `app/main.rs` is the command line: file system work, YAML (de)serialisation
  with serde, printing, and the Jaro-Winkler similarity of `dedupe`.
- `tests/` exercises the library on concrete memories.
