//! Run options that the library itself reads.
use vstd::prelude::*;

verus! {

/// Output format of a report.
#[derive(Debug, Clone, Copy, PartialEq, Eq, Structural)]
pub enum OutputFormat {
    Table,
    Json,
    Csv,
    Html,
}

} // verus!
