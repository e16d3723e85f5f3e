# qingjian_core punctuation

Full-width punctuation for a Chinese input method, verified with Verus.

- `src/punctuation.rs`: the built-in table of full-width marks, quote pairing,
  the "period after a digit stays ASCII" rule, the user map laid over the
  table, and the shared validation of that map (`validate_map`).
- `src/editor.rs`: the rules of the punctuation-map editor: the rows it opens
  with, adding and removing rows, and reading a draft map out of the rows.
- `src/chars.rs`: character classes (ASCII punctuation, digits, Unicode white
  space), trimming, and decimal numerals.

Each function states its behaviour over spec functions (`spec_convert`,
`spec_draft`, ...); the laws that relate several functions are the `lemma_*`
proof functions. The tests under `tests/` run the library on concrete values.
