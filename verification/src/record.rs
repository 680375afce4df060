use vstd::prelude::*;

verus! {

/// One measured benchmark case, as one report line gives it.
#[derive(Debug, Clone, PartialEq, Eq)]
pub struct BenchmarkRecord {
    pub implementation: String,
    pub family: String,
    pub payload_size: u64,
    pub mean_ns: u64,
    pub variance_ns: u64,
    pub throughput_mb_s: u64,
}

/// The mathematical value of a `BenchmarkRecord`.
pub struct RecordView {
    pub implementation: Seq<char>,
    pub family: Seq<char>,
    pub payload_size: u64,
    pub mean_ns: u64,
    pub variance_ns: u64,
    pub throughput_mb_s: u64,
}

impl View for BenchmarkRecord {
    type V = RecordView;

    open spec fn view(&self) -> RecordView {
        RecordView {
            implementation: self.implementation@,
            family: self.family@,
            payload_size: self.payload_size,
            mean_ns: self.mean_ns,
            variance_ns: self.variance_ns,
            throughput_mb_s: self.throughput_mb_s,
        }
    }
}

/// The values of a run of records, in order.
pub open spec fn views(records: Seq<BenchmarkRecord>) -> Seq<RecordView> {
    Seq::new(records.len(), |i: int| records[i]@)
}

} // verus!
