//! Line-oriented text diffing: aligned side-by-side rows, per-kind
//! statistics and in-line highlight spans for replaced lines.

pub mod diff;
pub mod inline;
pub mod laws;
pub mod report;
pub mod rows;
pub mod text;

pub use diff::compute_text_diff;
pub use inline::InlineSpan;
pub use report::{compute_diff_files, DiffError, DiffResult, MAX_BYTES, WARN_BYTES};
pub use rows::{DiffRow, DiffStats, RowKind};
