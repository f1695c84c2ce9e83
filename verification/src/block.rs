//! Block bodies: the accumulator before a block and the increment it adds.

use vstd::prelude::*;
use vstd::bytes::{spec_u64_from_le_bytes, spec_u64_to_le_bytes, u64_from_le_bytes, u64_to_le_bytes};
use vstd::bytes::lemma_auto_spec_u64_to_from_le_bytes;
use vstd::slice::slice_subrange;
use crate::digest::{keccak256, keccak256_of, Digest};
use crate::head::DecodeError;

verus! {

/// The number of bytes in an encoded body: eight for each integer.
pub const BLOCK_ENCODED_LEN: usize = 16;

/// The input of one transition: the accumulator before the block, and the
/// amount the block adds to it.
#[derive(Clone, Copy, Debug, PartialEq, Eq, Structural, Hash)]
pub struct BlockData {
    pub state: u64,
    pub add: u64,
}

/// The sum of two accumulator values in the ring of 64-bit integers.
pub open spec fn wrapping_sum(state: u64, add: u64) -> u64 {
    ((state as int + add as int) % 0x1_0000_0000_0000_0000) as u64
}

/// The commitment to an accumulator value: the keccak-256 digest of its
/// eight little-endian bytes.
pub open spec fn state_commitment(state: u64) -> Seq<u8> {
    keccak256_of(spec_u64_to_le_bytes(state))
}

/// Computes the commitment to an accumulator value.
pub fn hash_state(state: u64) -> (out: Digest)
    ensures
        out@ == state_commitment(state),
{
    let bytes = u64_to_le_bytes(state);
    keccak256(bytes.as_slice())
}

impl BlockData {
    /// The body that goes with the first header: state zero, nothing added.
    pub open spec fn genesis_body() -> BlockData {
        BlockData { state: 0, add: 0 }
    }

    /// The accumulator after the block: state plus increment, wrapping round
    /// at two to the sixty-fourth.
    pub open spec fn next_state(self) -> u64 {
        wrapping_sum(self.state, self.add)
    }

    /// The canonical encoding: state, then increment, each as eight
    /// little-endian bytes.
    pub open spec fn encoding(self) -> Seq<u8> {
        spec_u64_to_le_bytes(self.state) + spec_u64_to_le_bytes(self.add)
    }

    /// The body that the first sixteen bytes of `bytes` encode.
    pub open spec fn parse(bytes: Seq<u8>) -> BlockData
        recommends
            bytes.len() >= BLOCK_ENCODED_LEN,
    {
        BlockData {
            state: spec_u64_from_le_bytes(bytes.subrange(0, 8)),
            add: spec_u64_from_le_bytes(bytes.subrange(8, 16)),
        }
    }

    /// The body that goes with the first header.
    pub fn genesis() -> (body: BlockData)
        ensures
            body == BlockData::genesis_body(),
    {
        BlockData { state: 0, add: 0 }
    }

    /// The accumulator after the block. Overflow wraps and is no error.
    pub fn post_state(&self) -> (next: u64)
        ensures
            next == self.next_state(),
            self.state as int + self.add as int <= u64::MAX ==> next == self.state + self.add,
            self.state as int + self.add as int > u64::MAX ==> next == self.state + self.add
                - 0x1_0000_0000_0000_0000,
    {
        self.state.wrapping_add(self.add)
    }

    /// Writes the body in its canonical encoding.
    pub fn encode(&self) -> (out: Vec<u8>)
        ensures
            out@ == self.encoding(),
            out@.len() == BLOCK_ENCODED_LEN,
    {
        let mut out = u64_to_le_bytes(self.state);
        let add = u64_to_le_bytes(self.add);
        out.extend_from_slice(add.as_slice());
        out
    }

    /// Reads a body from the front of `bytes`. Bytes after the body are left
    /// unread.
    pub fn decode(bytes: &[u8]) -> (res: Result<BlockData, DecodeError>)
        ensures
            res is Ok <==> bytes@.len() >= BLOCK_ENCODED_LEN,
            res is Err ==> res == Err::<BlockData, DecodeError>(DecodeError::TooShort),
            res is Ok ==> res->Ok_0 == BlockData::parse(bytes@),
    {
        if bytes.len() < BLOCK_ENCODED_LEN {
            return Err(DecodeError::TooShort);
        }
        let state = u64_from_le_bytes(slice_subrange(bytes, 0, 8));
        let add = u64_from_le_bytes(slice_subrange(bytes, 8, 16));
        Ok(BlockData { state, add })
    }
}

/// At the largest state an increment of at least one wraps round: the sum
/// is the increment less one, and adding is never an error.
pub proof fn law_wraparound(increment: u64)
    requires
        increment >= 1,
    ensures
        wrapping_sum(u64::MAX, increment) == increment - 1,
        (BlockData { state: u64::MAX, add: increment }).next_state() == increment - 1,
{
}

/// The wrapped sum is the sum modulo two to the sixty-fourth, for every
/// state and increment.
pub proof fn law_sum_is_modular(state: u64, add: u64)
    ensures
        wrapping_sum(state, add) as int == (state as int + add as int) % 0x1_0000_0000_0000_0000,
        state as int + add as int <= u64::MAX ==> wrapping_sum(state, add) == state + add,
        state as int + add as int > u64::MAX ==> wrapping_sum(state, add) == state + add
            - 0x1_0000_0000_0000_0000,
{
}

/// Encoding a body and parsing the bytes gives the body back.
pub proof fn lemma_block_round_trip(body: BlockData)
    ensures
        body.encoding().len() == BLOCK_ENCODED_LEN,
        BlockData::parse(body.encoding()) == body,
{
    lemma_auto_spec_u64_to_from_le_bytes();
    let enc = body.encoding();
    assert(enc.subrange(0, 8) =~= spec_u64_to_le_bytes(body.state));
    assert(enc.subrange(8, 16) =~= spec_u64_to_le_bytes(body.add));
}

} // verus!
