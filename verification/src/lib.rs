//! A verified parser for the TBE format: a line-oriented, section-tagged,
//! comma-separated tabular text format. Input lines are classified by the
//! markers `TBL`, `BGN`, `EOT`, `ATT` and `CMT`; data rows between a `BGN`
//! and the next `EOT` are zipped with the column headers most recently
//! declared by a `TBL` line and collected per table, together with named
//! attribute and comment metadata.

pub mod laws;
pub mod model;
pub mod parser;
pub mod site;
pub mod tables;
pub mod text;

pub use parser::{parse_tbe, ParseContext};
pub use site::Site;
pub use tables::{Table, TableMap};
