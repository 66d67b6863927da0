//! Filtering of build diagnostics down to those on lines that a diff changed.

pub mod diagnostics;
pub mod diff;
pub mod filter;
pub mod intervals;
pub mod reporters;
pub mod text;

pub use diagnostics::{Diagnostic, Level, Message, Span};
pub use diff::{parse_diff, DiffError, FileChanges};
pub use filter::should_report_diagnostic;
pub use intervals::intersect_intervals;
pub use reporters::{annotation_kind, escape_github_message, render_diagnostic, OutputKind};
