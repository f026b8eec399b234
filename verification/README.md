# codepage

Localized releases of some visual novels store their script text as Shift-JIS
code points of substitute kanji, and ship a table of `(substitute, real)` UTF-16
pairs that a patched engine rewrites the decoded text through. This library
finds such a table and rewrites strings with it.

A table comes from one of two places: a run of 4-byte records inside a DLL or
EXE of the game directory, or a `replace_chars` rule of a `uif_config.json`.
Either way it is used only when the characters of the release's own scripts
confirm it.

- `src/chars.rs`: sets of characters.
- `src/codepage.rs`: the table and the rewriting of strings.
- `src/shift_jis.rs`: what Shift-JIS can represent, from `encoding_rs`.
- `src/scan.rs`, `src/scan_laws.rs`: finding tables in the bytes of a binary.
- `src/script.rs`: the characters that a raw script stores.
- `src/select.rs`: which candidate belongs to the release.
- `src/uif.rs`, `src/uif_laws.rs`: mappings stated by a config.
- `src/game_dir.rs`: the search of a directory and what is kept of it.
- `app/`: the file access around the library.

Everything in `src/` is verified with Verus. What is taken on trust about
`encoding_rs`, `serde_json` and std stands in the contracts of the few functions
that call them.
