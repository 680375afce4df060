use vstd::prelude::*;
use vstd::arithmetic::power2::{lemma2_to64, lemma_pow2_unfold, pow2};
use vstd::string::StringExecFns;
use crate::number::{decimal, push_decimal};

verus! {

/// The period of the byte cycle that the hashing benchmark is fed.
pub const HASH_PERIOD: u8 = 100;

/// The period of the byte cycle that the dense map benchmark is fed. It is
/// odd, so that it divides no power of two and the chunks do not all agree.
pub const DENSE_PERIOD: u8 = 93;

/// The number of chunks that a map-counting workload is split into.
pub const CHUNKS_PER_WORKLOAD: usize = 1000;

/// The number of payload sizes: 1, 2, 4 and so on up to 2048.
pub const PAYLOAD_SIZES: usize = 12;

/// The width to which a case name pads its payload size with zeros.
pub const SIZE_WIDTH: usize = 9;

/// The three benchmark families, in the order in which a suite runs them.
#[derive(Debug, Clone, Copy, PartialEq, Eq, Structural)]
pub enum Family {
    Bytes,
    MapCountSparse,
    MapCountDense,
}

/// One benchmark case of an implementation.
#[derive(Debug, Clone, Copy, PartialEq, Eq, Structural)]
pub struct BenchmarkCase {
    pub family: Family,
    pub payload_size: usize,
}

/// The bytes 0, 1, .. `period - 1`, repeated up to `len` bytes; nothing
/// where the period is zero.
pub open spec fn cyclic(len: nat, period: nat) -> Seq<u8> {
    if period == 0 {
        Seq::empty()
    } else {
        Seq::new(len, |i: int| (i % period as int) as u8)
    }
}

/// The name under which a family is reported.
pub open spec fn family_name(family: Family) -> Seq<char> {
    match family {
        Family::Bytes => "bytes"@,
        Family::MapCountSparse => "mapcountsparse"@,
        Family::MapCountDense => "mapcountdense"@,
    }
}

/// The bytes that one measured run of a case works through.
pub open spec fn workload_size(case: BenchmarkCase) -> nat {
    match case.family {
        Family::Bytes => case.payload_size as nat,
        _ => (case.payload_size * CHUNKS_PER_WORKLOAD) as nat,
    }
}

/// A run of `count` zeros.
pub open spec fn zeros(count: nat) -> Seq<char> {
    Seq::new(count, |i: int| '0')
}

/// The decimal writing of `n`, with zeros in front up to `width` characters.
pub open spec fn padded(n: nat, width: nat) -> Seq<char> {
    if decimal(n).len() < width {
        zeros((width - decimal(n).len()) as nat) + decimal(n)
    } else {
        decimal(n)
    }
}

/// The name under which a case is reported: the implementation, the family
/// and the payload size, in the shape that the report pattern takes apart.
pub open spec fn case_name_of(implementation: Seq<char>, case: BenchmarkCase) -> Seq<char> {
    implementation + "::"@ + family_name(case.family) + seq!['_'] + padded(
        case.payload_size as nat,
        SIZE_WIDTH as nat,
    )
}

/// The family at place `k` of the suite.
pub open spec fn family_at(k: int) -> Family {
    if k <= 0 {
        Family::Bytes
    } else if k == 1 {
        Family::MapCountSparse
    } else {
        Family::MapCountDense
    }
}

/// The cases of one implementation: every family at every payload size,
/// family by family, the sizes doubling from one.
pub open spec fn suite() -> Seq<BenchmarkCase> {
    Seq::new(
        3 * PAYLOAD_SIZES as nat,
        |n: int|
            BenchmarkCase {
                family: family_at(n / PAYLOAD_SIZES as int),
                payload_size: pow2((n % PAYLOAD_SIZES as int) as nat) as usize,
            },
    )
}

/// A deterministic payload: a short cycle of bytes, repeated.
pub fn cyclic_payload(len: usize, period: u8) -> (v: Vec<u8>)
    ensures
        v@ == cyclic(len as nat, period as nat),
{
    let mut v: Vec<u8> = Vec::new();
    if period == 0 {
        return v;
    }
    let mut i: usize = 0;
    while i < len
        invariant
            i <= len,
            period > 0,
            v@ == cyclic(i as nat, period as nat),
        decreases len - i,
    {
        v.push((i % (period as usize)) as u8);
        i += 1;
    }
    v
}

/// Draws `len` bytes from the thread's generator, `rand::thread_rng`, with
/// the `Standard` distribution. Nothing is claimed of the bytes but their
/// number.
#[verifier::external_body]
fn random_bytes(len: usize) -> (v: Vec<u8>)
    ensures
        v.len() == len,
{
    rand::Rng::sample_iter(rand::thread_rng(), rand::distributions::Standard).take(len).collect()
}

/// The number of bytes of a case's workload, where it fits.
pub fn workload_len(case: BenchmarkCase) -> (r: Option<usize>)
    ensures
        r is Some <==> workload_size(case) <= usize::MAX,
        r is Some ==> r->0 == workload_size(case),
{
    match case.family {
        Family::Bytes => Some(case.payload_size),
        _ => case.payload_size.checked_mul(CHUNKS_PER_WORKLOAD),
    }
}

/// What a workload must be for a case: the right number of bytes, and for
/// the two deterministic families the right cycle.
pub open spec fn fits_case(data: Seq<u8>, case: BenchmarkCase) -> bool {
    match case.family {
        Family::Bytes => data == cyclic(workload_size(case), HASH_PERIOD as nat),
        Family::MapCountDense => data == cyclic(workload_size(case), DENSE_PERIOD as nat),
        Family::MapCountSparse => data.len() == workload_size(case),
    }
}

/// Builds the input of a case: a repeating pattern for the hashing and the
/// dense map benchmarks, fresh random bytes for the sparse one. There is
/// none where the input would not fit in memory at all.
pub fn workload(case: BenchmarkCase) -> (r: Option<Vec<u8>>)
    ensures
        r is Some <==> workload_size(case) <= usize::MAX,
        r is Some ==> fits_case(r->0@, case),
{
    match workload_len(case) {
        None => None,
        Some(len) => Some(
            match case.family {
                Family::Bytes => cyclic_payload(len, HASH_PERIOD),
                Family::MapCountDense => cyclic_payload(len, DENSE_PERIOD),
                Family::MapCountSparse => random_bytes(len),
            },
        ),
    }
}

fn nth_family(k: usize) -> (family: Family)
    ensures
        family == family_at(k as int),
{
    if k == 0 {
        Family::Bytes
    } else if k == 1 {
        Family::MapCountSparse
    } else {
        Family::MapCountDense
    }
}

/// The cases of one implementation.
pub fn suite_cases() -> (cases: Vec<BenchmarkCase>)
    ensures
        cases@ == suite(),
{
    let mut cases: Vec<BenchmarkCase> = Vec::new();
    let mut k: usize = 0;
    while k < 3
        invariant
            k <= 3,
            cases@ == suite().take(k * PAYLOAD_SIZES),
        decreases 3 - k,
    {
        let family = nth_family(k);
        let mut e: usize = 0;
        let mut size: usize = 1;
        proof {
            lemma2_to64();
        }
        while e < PAYLOAD_SIZES
            invariant
                k < 3,
                e <= PAYLOAD_SIZES,
                family == family_at(k as int),
                size == pow2(e as nat),
                size <= 4096,
                cases@ == suite().take(k * PAYLOAD_SIZES + e),
            decreases PAYLOAD_SIZES - e,
        {
            let ghost n = k * PAYLOAD_SIZES + e;
            proof {
                assert(suite().take(n + 1) == suite().take(n).push(suite()[n]));
                lemma2_to64();
                lemma_pow2_unfold((e + 1) as nat);
            }
            cases.push(BenchmarkCase { family, payload_size: size });
            e += 1;
            size = size * 2;
        }
        k += 1;
    }
    assert(suite().take(3 * PAYLOAD_SIZES as int) == suite());
    cases
}

fn family_label(family: Family) -> (name: &'static str)
    ensures
        name@ == family_name(family),
{
    match family {
        Family::Bytes => "bytes",
        Family::MapCountSparse => "mapcountsparse",
        Family::MapCountDense => "mapcountdense",
    }
}

/// The number of digits in the decimal writing of `n`.
fn decimal_len(n: u64) -> (len: u64)
    ensures
        len == decimal(n as nat).len(),
        len <= n + 1,
    decreases n,
{
    if n < 10 {
        1
    } else {
        decimal_len(n / 10) + 1
    }
}

/// The name under which a case of `implementation` is reported.
pub fn case_name(implementation: &str, case: BenchmarkCase) -> (name: String)
    ensures
        name@ == case_name_of(implementation@, case),
{
    let mut name = String::new();
    name.append(implementation);
    name.append("::");
    name.append(family_label(case.family));
    name.push('_');
    let size = case.payload_size as u64;
    let digits = decimal_len(size);
    let ghost before = name@;
    let count: usize = if digits < SIZE_WIDTH as u64 {
        SIZE_WIDTH - digits as usize
    } else {
        0
    };
    let mut i: usize = 0;
    assert(name@ == before + zeros(0));
    while i < count
        invariant
            i <= count,
            name@ == before + zeros(i as nat),
        decreases count - i,
    {
        name.push('0');
        assert(zeros((i + 1) as nat) == zeros(i as nat).push('0'));
        i += 1;
    }
    push_decimal(&mut name, size);
    assert(name@ == case_name_of(implementation@, case));
    name
}

/// The period of the dense cycle divides none of the payload sizes, so the
/// chunks of a dense workload do not all hold the same bytes.
pub proof fn lemma_period_divides_no_size(e: nat)
    requires
        e < PAYLOAD_SIZES,
    ensures
        pow2(e) % (DENSE_PERIOD as nat) != 0,
{
    lemma2_to64();
}

} // verus!
