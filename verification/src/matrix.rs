use vstd::prelude::*;
use vstd::string::StringExecFns;
use crate::error::ReportError;
use crate::number::{decimal, push_decimal};
use crate::order::{is_least, least, lemma_least};
use crate::record::{BenchmarkRecord, RecordView};
use crate::table::{group_views, AggregationTable, FamilyGroup, GroupView};

verus! {

/// The two figures that the tables show.
#[derive(Debug, Clone, Copy, PartialEq, Eq, Structural)]
pub enum Metric {
    Time,
    Throughput,
}

/// One table, ready to be written out under its name.
#[derive(Debug, Clone, PartialEq, Eq)]
pub struct OutputFile {
    pub name: String,
    pub contents: String,
}

pub struct FileView {
    pub name: Seq<char>,
    pub contents: Seq<char>,
}

impl View for OutputFile {
    type V = FileView;

    open spec fn view(&self) -> FileView {
        FileView { name: self.name@, contents: self.contents@ }
    }
}

pub open spec fn file_views(files: Seq<OutputFile>) -> Seq<FileView> {
    Seq::new(files.len(), |n: int| files[n]@)
}

/// The figure of a record that a metric shows.
pub open spec fn figure(metric: Metric, r: RecordView) -> u64 {
    match metric {
        Metric::Time => r.mean_ns,
        Metric::Throughput => r.throughput_mb_s,
    }
}

/// What follows the family in the name of a table's file.
pub open spec fn suffix(metric: Metric) -> Seq<char> {
    match metric {
        Metric::Time => "-time.csv"@,
        Metric::Throughput => "-throughput.csv"@,
    }
}

/// The number of rows below the header: the length of the first series.
pub open spec fn row_count(group: GroupView) -> nat {
    if group.series.len() == 0 {
        0
    } else {
        group.series[0].records.len()
    }
}

/// The series at `j` ends before the first series does.
pub open spec fn short_series(group: GroupView) -> spec_fn(int) -> bool {
    |j: int| j < group.series.len() && group.series[j].records.len() < row_count(group)
}

/// No series is shorter than the first one.
pub open spec fn aligned(group: GroupView) -> bool {
    forall|j: int| 0 <= j < group.series.len() ==> !(#[trigger] short_series(group)(j))
}

/// The group at `g` has a series that is shorter than its first one.
pub open spec fn misaligned_group(table: Seq<GroupView>) -> spec_fn(int) -> bool {
    |g: int| g < table.len() && !aligned(table[g])
}

/// Every group of the table is aligned.
pub open spec fn all_aligned(table: Seq<GroupView>) -> bool {
    forall|g: int| 0 <= g < table.len() ==> !(#[trigger] misaligned_group(table)(g))
}

/// The cells of the header after the first, each with the comma before it.
pub open spec fn header_cells(group: GroupView) -> Seq<Seq<char>> {
    Seq::new(group.series.len(), |j: int| seq![','] + group.series[j].implementation)
}

/// The header row: the label of the size column, then one column per
/// implementation.
pub open spec fn header_of(group: GroupView) -> Seq<char> {
    "bytes"@ + header_cells(group).flatten() + seq!['\n']
}

/// The cells of the row at `i` after the first, each with the comma before it.
pub open spec fn row_cells(group: GroupView, metric: Metric, i: int) -> Seq<Seq<char>> {
    Seq::new(
        group.series.len(),
        |j: int| seq![','] + decimal(figure(metric, group.series[j].records[i]) as nat),
    )
}

/// The row at `i`: the payload size that the first series records there,
/// then the figure of every series at that place.
pub open spec fn row_of(group: GroupView, metric: Metric, i: int) -> Seq<char> {
    decimal(group.series[0].records[i].payload_size as nat) + row_cells(group, metric, i).flatten()
        + seq!['\n']
}

/// The rows below the header, in order.
pub open spec fn rows_of(group: GroupView, metric: Metric) -> Seq<Seq<char>> {
    Seq::new(row_count(group), |i: int| row_of(group, metric, i))
}

/// The whole table of a family for one metric.
pub open spec fn matrix_of(group: GroupView, metric: Metric) -> Seq<char> {
    header_of(group) + rows_of(group, metric).flatten()
}

/// The table of a family for one metric, under its file name.
pub open spec fn file_of(group: GroupView, metric: Metric) -> FileView {
    FileView { name: group.family + suffix(metric), contents: matrix_of(group, metric) }
}

/// The two tables of a family: latency first, then throughput.
pub open spec fn files_of(group: GroupView) -> Seq<FileView> {
    seq![file_of(group, Metric::Time), file_of(group, Metric::Throughput)]
}

/// What the writer makes of a table: two files per family, in the order of
/// the families, or the place of the first series that is too short.
pub open spec fn rendered(table: Seq<GroupView>) -> Result<Seq<FileView>, ReportError> {
    if all_aligned(table) {
        Ok(Seq::new(table.len(), |g: int| files_of(table[g])).flatten())
    } else {
        let g = least(misaligned_group(table));
        Err(
            ReportError::LengthMismatch {
                family: g as usize,
                series: least(short_series(table[g])) as usize,
            },
        )
    }
}

/// The value of a writer's result.
pub open spec fn written(r: Result<Vec<OutputFile>, ReportError>) -> Result<
    Seq<FileView>,
    ReportError,
> {
    match r {
        Ok(files) => Ok(file_views(files@)),
        Err(e) => Err(e),
    }
}

/// The place of the first series that is shorter than the first one.
pub fn first_short_series(group: &FamilyGroup) -> (r: Option<usize>)
    ensures
        match r {
            Some(j) => is_least(short_series(group@), j as int),
            None => aligned(group@),
        },
{
    if group.series.len() == 0 {
        return None;
    }
    let rows = group.series[0].records.len();
    let mut j: usize = 0;
    while j < group.series.len()
        invariant
            j <= group.series.len(),
            group.series.len() > 0,
            rows == row_count(group@),
            forall|k: int| 0 <= k < j ==> !(#[trigger] short_series(group@)(k)),
        decreases group.series.len() - j,
    {
        if group.series[j].records.len() < rows {
            assert(short_series(group@)(j as int));
            return Some(j);
        }
        assert(!short_series(group@)(j as int));
        j += 1;
    }
    None
}

fn write_header(out: &mut String, group: &FamilyGroup)
    ensures
        final(out)@ == old(out)@ + header_of(group@),
{
    let ghost cells = header_cells(group@);
    out.append("bytes");
    let mut j: usize = 0;
    assert(cells.take(0).flatten() == Seq::<char>::empty());
    while j < group.series.len()
        invariant
            j <= group.series.len(),
            cells == header_cells(group@),
            out@ == old(out)@ + "bytes"@ + cells.take(j as int).flatten(),
        decreases group.series.len() - j,
    {
        proof {
            assert(cells.take(j + 1) == cells.take(j as int).push(cells[j as int]));
            cells.take(j as int).lemma_flatten_push(cells[j as int]);
        }
        out.push(',');
        out.append(group.series[j].implementation.as_str());
        j += 1;
    }
    assert(cells.take(group.series.len() as int) == cells);
    out.push('\n');
}

fn metric_figure(metric: Metric, record: &BenchmarkRecord) -> (n: u64)
    ensures
        n == figure(metric, record@),
{
    match metric {
        Metric::Time => record.mean_ns,
        Metric::Throughput => record.throughput_mb_s,
    }
}

fn write_row(out: &mut String, group: &FamilyGroup, metric: Metric, i: usize)
    requires
        aligned(group@),
        i < row_count(group@),
    ensures
        final(out)@ == old(out)@ + row_of(group@, metric, i as int),
{
    let ghost cells = row_cells(group@, metric, i as int);
    let ghost size = decimal(group@.series[0].records[i as int].payload_size as nat);
    push_decimal(out, group.series[0].records[i].payload_size);
    let mut j: usize = 0;
    assert(cells.take(0).flatten() == Seq::<char>::empty());
    while j < group.series.len()
        invariant
            j <= group.series.len(),
            aligned(group@),
            i < row_count(group@),
            cells == row_cells(group@, metric, i as int),
            out@ == old(out)@ + size + cells.take(j as int).flatten(),
        decreases group.series.len() - j,
    {
        proof {
            assert(!short_series(group@)(j as int));
            assert(cells.take(j + 1) == cells.take(j as int).push(cells[j as int]));
            cells.take(j as int).lemma_flatten_push(cells[j as int]);
        }
        out.push(',');
        push_decimal(out, metric_figure(metric, &group.series[j].records[i]));
        j += 1;
    }
    assert(cells.take(group.series.len() as int) == cells);
    out.push('\n');
}

fn write_rows(group: &FamilyGroup, metric: Metric) -> (out: String)
    requires
        aligned(group@),
    ensures
        out@ == matrix_of(group@, metric),
{
    let mut out = String::new();
    write_header(&mut out, group);
    let count: usize = if group.series.len() == 0 {
        0
    } else {
        group.series[0].records.len()
    };
    let ghost rows = rows_of(group@, metric);
    let mut i: usize = 0;
    assert(rows.take(0).flatten() == Seq::<char>::empty());
    while i < count
        invariant
            i <= count,
            count == row_count(group@),
            aligned(group@),
            rows == rows_of(group@, metric),
            out@ == header_of(group@) + rows.take(i as int).flatten(),
        decreases count - i,
    {
        proof {
            assert(rows.take(i + 1) == rows.take(i as int).push(rows[i as int]));
            rows.take(i as int).lemma_flatten_push(rows[i as int]);
        }
        write_row(&mut out, group, metric, i);
        i += 1;
    }
    assert(rows.take(count as int) == rows);
    out
}

/// Writes the table of one family for one metric, unless a series of the
/// family is shorter than the first one.
pub fn write_matrix(group: &FamilyGroup, metric: Metric) -> (r: Option<String>)
    ensures
        r is Some <==> aligned(group@),
        r is Some ==> r->0@ == matrix_of(group@, metric),
{
    match first_short_series(group) {
        Some(_) => None,
        None => Some(write_rows(group, metric)),
    }
}

fn file_name(family: &String, metric: Metric) -> (name: String)
    ensures
        name@ == family@ + suffix(metric),
{
    let mut name = family.clone();
    match metric {
        Metric::Time => name.append("-time.csv"),
        Metric::Throughput => name.append("-throughput.csv"),
    }
    name
}

/// Writes the two tables of every family of `table`.
pub fn render_table(table: &AggregationTable) -> (r: Result<Vec<OutputFile>, ReportError>)
    ensures
        written(r) == rendered(table@),
{
    let groups = table.groups();
    let ghost all = table@;
    let ghost pairs = Seq::new(all.len(), |g: int| files_of(all[g]));
    let mut files: Vec<OutputFile> = Vec::new();
    let mut g: usize = 0;
    assert(pairs.take(0).flatten() == Seq::<FileView>::empty());
    assert(file_views(files@) == Seq::<FileView>::empty());
    while g < groups.len()
        invariant
            g <= groups.len(),
            all == table@,
            all == group_views(groups@),
            pairs == Seq::new(all.len(), |g: int| files_of(all[g])),
            forall|k: int| 0 <= k < g ==> !(#[trigger] misaligned_group(all)(k)),
            file_views(files@) == pairs.take(g as int).flatten(),
        decreases groups.len() - g,
    {
        let group = &groups[g];
        assert(group@ == all[g as int]);
        match first_short_series(group) {
            Some(j) => {
                proof {
                    assert(!aligned(all[g as int]));
                    assert(misaligned_group(all)(g as int));
                    lemma_least(misaligned_group(all), g as int);
                    lemma_least(short_series(all[g as int]), j as int);
                }
                return Err(ReportError::LengthMismatch { family: g, series: j });
            },
            None => {},
        }
        let time = OutputFile {
            name: file_name(&group.family, Metric::Time),
            contents: write_rows(group, Metric::Time),
        };
        let throughput = OutputFile {
            name: file_name(&group.family, Metric::Throughput),
            contents: write_rows(group, Metric::Throughput),
        };
        proof {
            assert(pairs.take(g + 1) == pairs.take(g as int).push(pairs[g as int]));
            pairs.take(g as int).lemma_flatten_push(pairs[g as int]);
            assert(file_views(files@.push(time).push(throughput)) == file_views(files@)
                + files_of(all[g as int]));
        }
        files.push(time);
        files.push(throughput);
        g += 1;
    }
    assert(pairs.take(groups.len() as int) == pairs);
    Ok(files)
}

/// The tables are a function of the grouping alone: writing the same
/// aggregation table a second time gives the same files, byte for byte.
pub proof fn lemma_rendering_repeats(first: AggregationTable, second: AggregationTable)
    requires
        first@ == second@,
    ensures
        rendered(first@) == rendered(second@),
{
}

/// A family with a single implementation always has its table, and the
/// table has two columns: the payload size and that implementation.
pub proof fn lemma_single_implementation(group: GroupView, metric: Metric)
    requires
        group.series.len() == 1,
    ensures
        aligned(group),
        header_of(group) == "bytes"@ + seq![','] + group.series[0].implementation + seq!['\n'],
        forall|i: int|
            0 <= i < row_count(group) ==> #[trigger] row_of(group, metric, i) == decimal(
                group.series[0].records[i].payload_size as nat,
            ) + seq![','] + decimal(figure(metric, group.series[0].records[i]) as nat)
                + seq!['\n'],
{
    header_cells(group).lemma_flatten_singleton();
    assert forall|i: int| 0 <= i < row_count(group) implies #[trigger] row_of(group, metric, i)
        == decimal(group.series[0].records[i].payload_size as nat) + seq![','] + decimal(
        figure(metric, group.series[0].records[i]) as nat,
    ) + seq!['\n'] by {
        row_cells(group, metric, i).lemma_flatten_singleton();
    }
}

} // verus!
