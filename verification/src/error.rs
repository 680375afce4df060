use vstd::prelude::*;

verus! {

/// The four figures of a report line.
#[derive(Debug, Clone, Copy, PartialEq, Eq, Structural)]
pub enum NumericField {
    PayloadSize,
    Mean,
    Variance,
    Throughput,
}

/// Why one matched line gives no record.
#[derive(Debug, Clone, Copy, PartialEq, Eq, Structural)]
pub enum EntryError {
    /// The match does not hold the seven groups of a report line.
    MissingCapture,
    /// The named figure is no unsigned 64-bit number.
    MalformedNumber(NumericField),
}

/// Why a run produces no tables.
#[derive(Debug, Clone, Copy, PartialEq, Eq, Structural)]
pub enum ReportError {
    /// The captured output is not valid UTF-8.
    InvalidUtf8,
    /// The report pattern was rejected by the pattern compiler.
    Grammar,
    /// The matched line at `index`, counted from zero, gives no record.
    MalformedEntry { index: usize, cause: EntryError },
    /// In the family at `family`, the series at `series` is shorter than
    /// the first one.
    LengthMismatch { family: usize, series: usize },
}

} // verus!
