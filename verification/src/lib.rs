//! Hygiene rules for a directory of Markdown memory files with YAML front matter:
//! parsing the front matter, validating it, building the index, and choosing
//! which memories are stale, archivable, duplicated candidates or shown.

pub mod text;
pub mod date;
pub mod order;
pub mod schema;
pub mod index;
pub mod stale;
pub mod gc;
pub mod validate;
pub mod supersede;
pub mod migrate;
pub mod dedupe;
pub mod show;
pub mod laws;
