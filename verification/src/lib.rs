//! Character remap tables of localized releases.
//!
//! A localized release can store its script text as Shift-JIS substitute
//! kanji, and ship a table of `(substitute, real)` UTF-16 pairs beside it. This
//! crate finds such a table in the bytes of an engine binary or of a
//! `uif_config.json`, decides which candidate belongs to the release, and
//! rewrites decoded strings through it.
pub mod chars;
pub mod codepage;
pub mod game_dir;
pub mod scan;
pub mod scan_laws;
pub mod script;
pub mod select;
pub mod shift_jis;
pub mod uif;
pub mod uif_laws;
