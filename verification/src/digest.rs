use vstd::prelude::*;

verus! {

/// `blake3::Hasher`, the state of an incremental hash; nothing inside it is
/// looked at here.
#[verifier::external_type_specification]
#[verifier::external_body]
pub struct ExHasher(blake3::Hasher);

/// The bytes that a hashing state has been fed, in order.
pub uninterp spec fn absorbed(state: blake3::Hasher) -> Seq<u8>;

/// The 32-byte BLAKE3 hash of an input.
pub uninterp spec fn blake3_hash(input: Seq<u8>) -> Seq<u8>;

/// `blake3::Hasher::new` makes a state that has been fed nothing.
#[verifier::external_body]
fn fresh_state() -> (state: blake3::Hasher)
    ensures
        absorbed(state) == Seq::<u8>::empty(),
{
    blake3::Hasher::new()
}

/// `blake3::Hasher::update` adds the input to what the state has been fed.
#[verifier::external_body]
fn feed(state: &mut blake3::Hasher, input: &[u8])
    ensures
        absorbed(*final(state)) == absorbed(*old(state)) + input@,
{
    state.update(input);
}

/// `blake3::Hasher::finalize` gives the hash of everything that the state
/// has been fed, 32 bytes, and leaves the state as it was.
#[verifier::external_body]
fn digest(state: &blake3::Hasher) -> (out: [u8; 32])
    ensures
        out@ == blake3_hash(absorbed(*state)),
{
    *state.finalize().as_bytes()
}

/// The number that eight bytes write, least significant byte first.
pub open spec fn le_value(bytes: Seq<u8>) -> nat
    decreases bytes.len(),
{
    if bytes.len() == 0 {
        0
    } else {
        bytes[0] as nat + 256 * le_value(bytes.drop_first())
    }
}

/// A streaming hasher that reduces the BLAKE3 hash of what it was fed to 64
/// bits, so that it can stand where a map or a benchmark wants a hasher.
pub struct Blake3 {
    state: blake3::Hasher,
}

impl View for Blake3 {
    type V = Seq<u8>;

    /// Everything written so far.
    closed spec fn view(&self) -> Seq<u8> {
        absorbed(self.state)
    }
}

impl Default for Blake3 {
    fn default() -> (hasher: Blake3)
        ensures
            hasher@ == Seq::<u8>::empty(),
    {
        Blake3::new()
    }
}

impl Blake3 {
    /// A hasher that has been fed nothing.
    pub fn new() -> (hasher: Blake3)
        ensures
            hasher@ == Seq::<u8>::empty(),
    {
        Blake3 { state: fresh_state() }
    }

    /// Feeds more bytes to the hasher.
    pub fn write(&mut self, bytes: &[u8])
        ensures
            final(self)@ == old(self)@ + bytes@,
    {
        feed(&mut self.state, bytes);
    }

    /// The first eight bytes of the hash of what was written, read as a
    /// little-endian number.
    pub fn finish(&self) -> (value: u64)
        ensures
            value == le_value(blake3_hash(self@).take(8)),
    {
        let out = digest(&self.state);
        let ghost head = out@.take(8);
        proof {
            reveal_with_fuel(le_value, 9);
            let t1 = head.drop_first();
            let t2 = t1.drop_first();
            let t3 = t2.drop_first();
            let t4 = t3.drop_first();
            let t5 = t4.drop_first();
            let t6 = t5.drop_first();
            let t7 = t6.drop_first();
            assert(t7.drop_first().len() == 0);
            assert(t7[0] == out[7] && t6[0] == out[6] && t5[0] == out[5] && t4[0] == out[4]);
            assert(t3[0] == out[3] && t2[0] == out[2] && t1[0] == out[1] && head[0] == out[0]);
        }
        let b7 = out[7] as u64;
        let b6 = out[6] as u64 + 256 * b7;
        let b5 = out[5] as u64 + 256 * b6;
        let b4 = out[4] as u64 + 256 * b5;
        let b3 = out[3] as u64 + 256 * b4;
        let b2 = out[2] as u64 + 256 * b3;
        let b1 = out[1] as u64 + 256 * b2;
        out[0] as u64 + 256 * b1
    }
}

} // verus!
