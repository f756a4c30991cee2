//! Readers for the text output of a molecular-dynamics simulator: the
//! thermodynamic run log and the per-timestep atom dump, turned into typed
//! column tables, with the id join used to pair atoms across frames.

mod analysis;
mod dump;
mod log;
mod numeric;
mod table;
mod text;

pub use analysis::{column_index, join_ids, msd_pairs, ColumnError};
pub use dump::{BoxState, DumpError, DumpLammpsReader, DumpMarkers};
pub use log::{LogError, LogLammpsReader, LogMarkers};
pub use numeric::is_float_word;
pub use table::{Column, ColumnData, ColumnKind, Table, TableError};
pub use text::{line_chars, split_words};
