//! Copyright statements with year ranges, their containment relation,
//! coalescing of year ranges, and aggregation of per-file copyright and
//! license facts over a path tree into Debian copyright-file paragraphs.
//!
//! - Year model: `century`, `raw_year`, `years`.
//! - Statements: `grammar` (the parser), `copyright` (containment),
//!   `render`, `summary` (restating statements per holder).
//! - Aggregation: `atom_table`, `tree`, `cleanup`, `license`, `selection`.
//! - Output and input text: `control_file`, `dep5`, `key_value`, `text`.

pub mod atom_table;
pub mod century;
pub mod cleanup;
pub mod control_file;
pub mod copyright;
pub mod dep5;
pub mod grammar;
pub mod key_value;
pub mod license;
pub mod raw_year;
pub mod render;
pub mod selection;
pub mod summary;
pub mod text;
pub mod tree;
pub mod years;
