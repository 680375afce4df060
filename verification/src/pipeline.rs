use vstd::prelude::*;
use vstd::utf8::{decode_utf8, valid_utf8};
use crate::error::ReportError;
use crate::grammar::{
    entry_of, lemma_one_record_per_match, parse_report, parsed, pattern_captures, Groups,
    REPORT_PATTERN,
};
use crate::matrix::{render_table, rendered, written, FileView, OutputFile};
use crate::record::{views, BenchmarkRecord, RecordView};
use crate::table::{aggregate, table_of};
use crate::text::utf8_text;

verus! {

/// The text that a captured output holds.
pub open spec fn decoded(bytes: Seq<u8>) -> Result<Seq<char>, ReportError> {
    if valid_utf8(bytes) {
        Ok(decode_utf8(bytes))
    } else {
        Err(ReportError::InvalidUtf8)
    }
}

/// The tables of a run of records.
pub open spec fn tables_of(records: Seq<RecordView>) -> Result<Seq<FileView>, ReportError> {
    rendered(table_of(records))
}

/// The tables of a report text, given what the report pattern matched in it.
pub open spec fn tables_from(found: Option<Seq<Groups>>) -> Result<Seq<FileView>, ReportError> {
    match parsed(found) {
        Err(e) => Err(e),
        Ok(records) => tables_of(records),
    }
}

/// The tables of a captured output.
pub open spec fn tables_from_bytes(bytes: Seq<u8>) -> Result<Seq<FileView>, ReportError> {
    match decoded(bytes) {
        Err(e) => Err(e),
        Ok(text) => tables_from(pattern_captures(REPORT_PATTERN@, text)),
    }
}

/// Decodes the captured output of the benchmark suite as text.
pub fn decode_report(bytes: Vec<u8>) -> (r: Result<String, ReportError>)
    ensures
        match r {
            Ok(text) => decoded(bytes@) == Ok::<Seq<char>, ReportError>(text@),
            Err(e) => decoded(bytes@) == Err::<Seq<char>, ReportError>(e),
        },
{
    match utf8_text(bytes) {
        Some(text) => Ok(text),
        None => Err(ReportError::InvalidUtf8),
    }
}

/// Groups the records and writes the two tables of every family.
pub fn tables_from_records(records: Vec<BenchmarkRecord>) -> (r: Result<
    Vec<OutputFile>,
    ReportError,
>)
    ensures
        written(r) == tables_of(views(records@)),
{
    let table = aggregate(records);
    render_table(&table)
}

/// Parses a report text and writes the tables of what it holds.
pub fn tables_from_text(text: &str) -> (r: Result<Vec<OutputFile>, ReportError>)
    ensures
        written(r) == tables_from(pattern_captures(REPORT_PATTERN@, text@)),
{
    match parse_report(text) {
        Ok(records) => tables_from_records(records),
        Err(e) => Err(e),
    }
}

/// The whole run on the captured output of the benchmark suite: decode,
/// parse, group, and write the tables. Any fault ends the run with no table.
pub fn tables_from_output(bytes: Vec<u8>) -> (r: Result<Vec<OutputFile>, ReportError>)
    ensures
        written(r) == tables_from_bytes(bytes@),
{
    match decode_report(bytes) {
        Ok(text) => tables_from_text(text.as_str()),
        Err(e) => Err(e),
    }
}

/// One matched line that gives no record leaves the whole run without
/// tables, whatever the other lines hold.
pub proof fn lemma_malformed_line_is_fatal(matches: Seq<Groups>, i: int)
    requires
        matches.len() <= usize::MAX,
        0 <= i < matches.len(),
        entry_of(matches[i]) is Err,
    ensures
        tables_from(Some(matches)) is Err,
{
    lemma_one_record_per_match(matches);
}

} // verus!
