# metaparse

Metadata and template extraction for data and document files, written in
Verus: the parsing, counting and grouping logic is proved against its
contracts, and the few calls into other crates (zip, quick-xml, lopdf, csv,
serde_json, toml, serde_yaml, regex) go through small trusted wrappers whose
contracts say what those crates document.

## Layout

- `src/` — the verified library, one module per format or analysis:
  - tabular and array data: `csv`, `column_tallies`, `npy`, `npy_sample`,
    `npz`, `array_dtypes`, `tensor3d`, `columnar`, `mat`, `netcdf`;
  - documents and archives: `office`, `pdf`, `pdfdate`, `epub`, `archive`,
    `xml`, `settings_xml`, `markdown`, `video`;
  - settings and structured text: `ini`, `settings_toml`, `settings_yaml`,
    `json`, `json_templates`, `sqlite`, `sqlite_schema`, `pickle`;
  - text analysis: `text`, `text_patterns`, `templates`,
    `sentence_templates`, `pivots`, `writing`, `logs`, `log_templates`;
  - shared pieces: `results`, `regexp`, `sorted_map`.
- `tests/` — tests on concrete inputs, one file per area.
- `app/` — the unverified edge: memory-mapped file access, the spreadsheet
  reader, SQLite queries, serializable records, and the floating-point
  ratios and thresholds computed from the library's integer results.

## Checking

Each public function states its result in `ensures` over spec functions and
views; properties that relate several calls are public proof functions whose
names start with `law_`.
