# vtest

The model types, canonical content hashing and scan-time integrity checks of
the vtest tool, written in Verus: each function states what it returns in its
contract, and the library's laws (what the hashes depend on, which document
ids resolve, how test ids are chosen, ...) are proved as public proof
functions.

- `src/` is the verified library. The hashing core lives in `encoding`,
  `hash`, `digest`, `normalize` and `subject_hash`, with its laws in
  `hash_laws` and `subject_laws`; the checks a scan runs over records live in
  the `scan_*` modules; `annotations`, `discovery`, `forms`, `queries`,
  `editing`, `test_ids` and `test_edits` hold the logic of source discovery
  and of the test operations.
- `app/` is the I/O around it: reading document files from a project,
  reading doc comments out of `syn` syntax trees, and serializable copies of
  the library's records.
- `tests/` exercises the library on concrete values.
