use vstd::prelude::*;
use crate::error::{EntryError, NumericField, ReportError};
use crate::number::{number_of, parse_number};
use crate::record::{views, BenchmarkRecord, RecordView};

verus! {

/// The pattern of one report line: the marker, then the implementation, the
/// family and the payload size that make up the case's name, and later on
/// the same line the mean time, the variance and the throughput.
pub const REPORT_PATTERN: &'static str =
    r#"test (.*)::(.*)_(\d*) .*bench:\s*(.*) ns/iter \(\+/- (.*)\) = (\d*) MB/s.*"#;

/// The number of groups in one match of the report pattern, the whole match
/// counted as the first.
pub const GROUPS_PER_LINE: usize = 7;

/// The captured groups of one match: the whole match first, then each group
/// of the pattern, `None` where a group took no part in the match.
pub type Groups = Seq<Option<Seq<char>>>;

/// Every non-overlapping match of `pattern` in `haystack`, from left to
/// right, each with its groups; `None` where `pattern` is no valid regular
/// expression.
pub uninterp spec fn pattern_captures(pattern: Seq<char>, haystack: Seq<char>) -> Option<
    Seq<Groups>,
>;

/// Compiles `pattern` with `regex::Regex::new` and walks `haystack` with
/// `Regex::captures_iter`, copying out the text of every group of every
/// match. The result is taken to depend on the two strings alone.
#[verifier::external_body]
fn find_captures(pattern: &str, haystack: &str) -> (r: Option<Vec<Vec<Option<String>>>>)
    ensures
        r.deep_view() == pattern_captures(pattern@, haystack@),
{
    match regex::Regex::new(pattern) {
        Ok(re) => Some(
            re.captures_iter(haystack).map(
                |caps| caps.iter().map(|group| group.map(|m| m.as_str().to_owned())).collect(),
            ).collect(),
        ),
        Err(_) => None,
    }
}

/// The groups are those of a report line, and each took part in the match.
pub open spec fn complete(groups: Groups) -> bool {
    &&& groups.len() == GROUPS_PER_LINE
    &&& forall|i: int| 0 <= i < groups.len() ==> (#[trigger] groups[i]) is Some
}

/// The record that the groups of one matched line stand for. The figures
/// are read in the order in which the line gives them, and the first one
/// that fails is reported.
pub open spec fn entry_of(groups: Groups) -> Result<RecordView, EntryError> {
    if !complete(groups) {
        Err(EntryError::MissingCapture)
    } else if number_of(groups[3]->0) is None {
        Err(EntryError::MalformedNumber(NumericField::PayloadSize))
    } else if number_of(groups[4]->0) is None {
        Err(EntryError::MalformedNumber(NumericField::Mean))
    } else if number_of(groups[5]->0) is None {
        Err(EntryError::MalformedNumber(NumericField::Variance))
    } else if number_of(groups[6]->0) is None {
        Err(EntryError::MalformedNumber(NumericField::Throughput))
    } else {
        Ok(
            RecordView {
                implementation: groups[1]->0,
                family: groups[2]->0,
                payload_size: number_of(groups[3]->0)->0,
                mean_ns: number_of(groups[4]->0)->0,
                variance_ns: number_of(groups[5]->0)->0,
                throughput_mb_s: number_of(groups[6]->0)->0,
            },
        )
    }
}

/// The records of a run of matched lines: one per line, in order, or the
/// fault of the first line that gives none.
pub open spec fn records_of(matches: Seq<Groups>) -> Result<Seq<RecordView>, ReportError>
    decreases matches.len(),
{
    if matches.len() == 0 {
        Ok(Seq::empty())
    } else {
        match records_of(matches.drop_last()) {
            Err(e) => Err(e),
            Ok(earlier) => match entry_of(matches.last()) {
                Err(cause) => Err(
                    ReportError::MalformedEntry { index: (matches.len() - 1) as usize, cause },
                ),
                Ok(record) => Ok(earlier.push(record)),
            },
        }
    }
}

/// What parsing a report text yields, given what the pattern matched in it.
pub open spec fn parsed(found: Option<Seq<Groups>>) -> Result<Seq<RecordView>, ReportError> {
    match found {
        None => Err(ReportError::Grammar),
        Some(matches) => records_of(matches),
    }
}

/// The value of a parser's result.
pub open spec fn outcome(r: Result<Vec<BenchmarkRecord>, ReportError>) -> Result<
    Seq<RecordView>,
    ReportError,
> {
    match r {
        Ok(records) => Ok(views(records@)),
        Err(e) => Err(e),
    }
}

/// There is exactly one record per matched line when every line is well
/// formed, and otherwise the run fails on the first line that is not.
pub proof fn lemma_one_record_per_match(matches: Seq<Groups>)
    requires
        matches.len() <= usize::MAX,
    ensures
        match records_of(matches) {
            Ok(records) => {
                &&& records.len() == matches.len()
                &&& forall|i: int|
                    0 <= i < matches.len() ==> entry_of(#[trigger] matches[i]) == Ok::<
                        RecordView,
                        EntryError,
                    >(records[i])
            },
            Err(e) => {
                &&& e matches ReportError::MalformedEntry { index, cause }
                &&& index < matches.len()
                &&& entry_of(matches[index as int]) == Err::<RecordView, EntryError>(cause)
                &&& forall|i: int| 0 <= i < index ==> entry_of(#[trigger] matches[i]) is Ok
            },
        },
    decreases matches.len(),
{
    if matches.len() > 0 {
        let earlier = matches.drop_last();
        lemma_one_record_per_match(earlier);
        assert forall|i: int| 0 <= i < earlier.len() implies #[trigger] matches[i]
            == earlier[i] by {}
        match records_of(earlier) {
            Ok(records) => {
                assert forall|i: int| 0 <= i < earlier.len() implies entry_of(
                    #[trigger] matches[i],
                ) == Ok::<RecordView, EntryError>(records[i]) by {
                    assert(matches[i] == earlier[i]);
                }
            },
            Err(e) => {
                let index = e->index;
                assert(matches[index as int] == earlier[index as int]);
                assert forall|i: int| 0 <= i < index implies entry_of(
                    #[trigger] matches[i],
                ) is Ok by {
                    assert(matches[i] == earlier[i]);
                }
            },
        }
    }
}

fn group_text(groups: &Vec<Option<String>>, i: usize) -> (r: &String)
    requires
        i < groups.len(),
        groups[i as int] is Some,
    ensures
        r@ == groups.deep_view()[i as int]->0,
{
    groups[i].as_ref().unwrap()
}

fn is_complete(groups: &Vec<Option<String>>) -> (r: bool)
    ensures
        r == complete(groups.deep_view()),
{
    if groups.len() != GROUPS_PER_LINE {
        return false;
    }
    let mut i: usize = 0;
    while i < groups.len()
        invariant
            i <= groups.len(),
            groups.len() == GROUPS_PER_LINE,
            forall|j: int| 0 <= j < i ==> (#[trigger] groups.deep_view()[j]) is Some,
        decreases groups.len() - i,
    {
        if groups[i].is_none() {
            assert(groups.deep_view()[i as int] is None);
            return false;
        }
        assert(groups.deep_view()[i as int] is Some);
        i += 1;
    }
    true
}

/// Builds the record of one matched line from its captured groups.
pub fn parse_entry(groups: &Vec<Option<String>>) -> (r: Result<BenchmarkRecord, EntryError>)
    ensures
        match r {
            Ok(record) => entry_of(groups.deep_view()) == Ok::<RecordView, EntryError>(record@),
            Err(e) => entry_of(groups.deep_view()) == Err::<RecordView, EntryError>(e),
        },
{
    if !is_complete(groups) {
        return Err(EntryError::MissingCapture);
    }
    let payload_size = match parse_number(group_text(groups, 3).as_str()) {
        Some(n) => n,
        None => {
            return Err(EntryError::MalformedNumber(NumericField::PayloadSize));
        },
    };
    let mean_ns = match parse_number(group_text(groups, 4).as_str()) {
        Some(n) => n,
        None => {
            return Err(EntryError::MalformedNumber(NumericField::Mean));
        },
    };
    let variance_ns = match parse_number(group_text(groups, 5).as_str()) {
        Some(n) => n,
        None => {
            return Err(EntryError::MalformedNumber(NumericField::Variance));
        },
    };
    let throughput_mb_s = match parse_number(group_text(groups, 6).as_str()) {
        Some(n) => n,
        None => {
            return Err(EntryError::MalformedNumber(NumericField::Throughput));
        },
    };
    Ok(
        BenchmarkRecord {
            implementation: group_text(groups, 1).clone(),
            family: group_text(groups, 2).clone(),
            payload_size,
            mean_ns,
            variance_ns,
            throughput_mb_s,
        },
    )
}

/// Builds the records of a run of matched lines, in order.
pub fn records_from_matches(matches: &Vec<Vec<Option<String>>>) -> (r: Result<
    Vec<BenchmarkRecord>,
    ReportError,
>)
    ensures
        outcome(r) == records_of(matches.deep_view()),
        r is Ok ==> r->Ok_0.len() == matches.len(),
{
    let ghost all = matches.deep_view();
    proof {
        lemma_one_record_per_match(all);
    }
    let mut records: Vec<BenchmarkRecord> = Vec::new();
    let mut i: usize = 0;
    assert(views(records@) == Seq::<RecordView>::empty());
    while i < matches.len()
        invariant
            i <= matches.len(),
            all == matches.deep_view(),
            records_of(all.take(i as int)) == Ok::<Seq<RecordView>, ReportError>(
                views(records@),
            ),
        decreases matches.len() - i,
    {
        proof {
            assert(all.take(i + 1).drop_last() == all.take(i as int));
            assert(all.take(i + 1).last() == matches[i as int].deep_view());
        }
        match parse_entry(&matches[i]) {
            Ok(record) => {
                proof {
                    assert(views(records@.push(record)) == views(records@).push(record@));
                }
                records.push(record);
            },
            Err(cause) => {
                proof {
                    lemma_fault_stays(all, i + 1);
                }
                return Err(ReportError::MalformedEntry { index: i, cause });
            },
        }
        i += 1;
    }
    assert(all.take(matches.len() as int) == all);
    Ok(records)
}

/// A fault among the first `k` matched lines is the fault of the whole run.
proof fn lemma_fault_stays(matches: Seq<Groups>, k: int)
    requires
        0 <= k <= matches.len(),
        records_of(matches.take(k)) is Err,
    ensures
        records_of(matches) == records_of(matches.take(k)),
    decreases matches.len(),
{
    if k == matches.len() {
        assert(matches.take(k) == matches);
    } else {
        assert(matches.drop_last().take(k) == matches.take(k));
        lemma_fault_stays(matches.drop_last(), k);
    }
}

/// Finds every match of `pattern` in `text` and builds one record for each.
/// The pattern must capture what the report pattern captures: the
/// implementation, the family, and the four figures, in that order.
pub fn parse_with_pattern(pattern: &str, text: &str) -> (r: Result<
    Vec<BenchmarkRecord>,
    ReportError,
>)
    ensures
        outcome(r) == parsed(pattern_captures(pattern@, text@)),
        r is Ok ==> pattern_captures(pattern@, text@) is Some && r->Ok_0.len()
            == pattern_captures(pattern@, text@)->0.len(),
{
    match find_captures(pattern, text) {
        None => Err(ReportError::Grammar),
        Some(matches) => records_from_matches(&matches),
    }
}

/// Finds the report lines of `text` and builds one record for each. Lines
/// that do not match are passed over; a line that matches and gives no
/// record ends the parsing.
pub fn parse_report(text: &str) -> (r: Result<Vec<BenchmarkRecord>, ReportError>)
    ensures
        outcome(r) == parsed(pattern_captures(REPORT_PATTERN@, text@)),
        r is Ok ==> pattern_captures(REPORT_PATTERN@, text@) is Some && r->Ok_0.len()
            == pattern_captures(REPORT_PATTERN@, text@)->0.len(),
{
    parse_with_pattern(REPORT_PATTERN, text)
}

} // verus!
