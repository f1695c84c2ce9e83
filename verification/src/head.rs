//! Block headers and their canonical byte encoding.

use vstd::prelude::*;
use vstd::bytes::{spec_u64_from_le_bytes, spec_u64_to_le_bytes, u64_from_le_bytes, u64_to_le_bytes};
use vstd::bytes::lemma_auto_spec_u64_to_from_le_bytes;
use vstd::slice::slice_subrange;
use vstd::std_specs::cmp::PartialEqSpecImpl;
use crate::digest::{digest_eq, keccak256, keccak256_of, Digest};

verus! {

/// The number of bytes in an encoded header: eight for the sequence number
/// and thirty-two for each digest.
pub const HEAD_ENCODED_LEN: usize = 72;

/// The identity of one block: its position in the chain, the digest of its
/// predecessor and the commitment to the state reached after it.
#[derive(Clone, Copy, Debug, Eq, Hash)]
pub struct HeadData {
    pub number: u64,
    pub parent_hash: Digest,
    pub post_state: Digest,
}

/// A header as a mathematical value: the digests are sequences of bytes.
pub struct HeadView {
    pub number: u64,
    pub parent_hash: Seq<u8>,
    pub post_state: Seq<u8>,
}

/// Why a byte string is not a header.
#[derive(Clone, Copy, Debug, PartialEq, Eq, Structural)]
pub enum DecodeError {
    /// The input ends before the header does.
    TooShort,
}

impl View for HeadData {
    type V = HeadView;

    open spec fn view(&self) -> HeadView {
        HeadView {
            number: self.number,
            parent_hash: self.parent_hash@,
            post_state: self.post_state@,
        }
    }
}

impl PartialEq for HeadData {
    fn eq(&self, other: &HeadData) -> (same: bool) {
        self.number == other.number && digest_eq(&self.parent_hash, &other.parent_hash)
            && digest_eq(&self.post_state, &other.post_state)
    }
}

impl PartialEqSpecImpl for HeadData {
    open spec fn obeys_eq_spec() -> bool {
        true
    }

    open spec fn eq_spec(&self, other: &HeadData) -> bool {
        self.number == other.number && self.parent_hash == other.parent_hash && self.post_state
            == other.post_state
    }
}

/// The state commitment of the first header: the keccak-256 digest of the
/// encoding of state zero.
pub open spec fn genesis_commitment() -> Seq<u8> {
    seq![
        1u8, 27u8, 77u8, 3u8, 221u8, 140u8, 1u8, 241u8, 4u8, 145u8, 67u8, 207u8, 156u8, 76u8,
        129u8, 126u8, 75u8, 22u8, 127u8, 29u8, 27u8, 131u8, 229u8, 198u8, 240u8, 241u8, 13u8,
        137u8, 186u8, 30u8, 123u8, 206u8,
    ]
}

impl HeadView {
    /// Both digests are thirty-two bytes long, as they are in every header
    /// held in memory.
    pub open spec fn well_formed(self) -> bool {
        self.parent_hash.len() == 32 && self.post_state.len() == 32
    }

    /// The canonical encoding: the sequence number as eight little-endian
    /// bytes, then the parent digest, then the state commitment.
    pub open spec fn encoding(self) -> Seq<u8> {
        spec_u64_to_le_bytes(self.number) + self.parent_hash + self.post_state
    }

    /// The digest that identifies the header.
    pub open spec fn digest(self) -> Seq<u8> {
        keccak256_of(self.encoding())
    }

    /// The header that the first seventy-two bytes of `bytes` encode.
    pub open spec fn parse(bytes: Seq<u8>) -> HeadView
        recommends
            bytes.len() >= HEAD_ENCODED_LEN,
    {
        HeadView {
            number: spec_u64_from_le_bytes(bytes.subrange(0, 8)),
            parent_hash: bytes.subrange(8, 40),
            post_state: bytes.subrange(40, 72),
        }
    }

    /// The first header of every chain: sequence number zero, an all-zero
    /// parent digest and the fixed commitment to state zero.
    pub open spec fn genesis() -> HeadView {
        HeadView {
            number: 0,
            parent_hash: Seq::new(32, |i: int| 0u8),
            post_state: genesis_commitment(),
        }
    }
}

/// Two headers in memory are the same header exactly when their views are.
pub proof fn lemma_head_view_injective(a: HeadData, b: HeadData)
    ensures
        (a@ == b@) <==> (a == b),
        a@.well_formed(),
{
    if a@ == b@ {
        assert(a.parent_hash =~= b.parent_hash);
        assert(a.post_state =~= b.post_state);
    }
}

/// Encoding then parsing gives the header back, and the encoding of what was
/// parsed is the seventy-two bytes that were read.
pub proof fn lemma_encoding_round_trip(head: HeadView, bytes: Seq<u8>)
    ensures
        head.well_formed() ==> head.encoding().len() == HEAD_ENCODED_LEN,
        head.well_formed() ==> HeadView::parse(head.encoding()) == head,
        bytes.len() >= HEAD_ENCODED_LEN ==> HeadView::parse(bytes).encoding() == bytes.subrange(
            0,
            HEAD_ENCODED_LEN as int,
        ),
        bytes.len() >= HEAD_ENCODED_LEN ==> HeadView::parse(bytes).well_formed(),
{
    lemma_auto_spec_u64_to_from_le_bytes();
    if head.well_formed() {
        let enc = head.encoding();
        assert(enc.subrange(0, 8) =~= spec_u64_to_le_bytes(head.number));
        assert(enc.subrange(8, 40) =~= head.parent_hash);
        assert(enc.subrange(40, 72) =~= head.post_state);
    }
    if bytes.len() >= HEAD_ENCODED_LEN {
        assert(bytes.subrange(0, 8).len() == 8);
        assert(HeadView::parse(bytes).encoding() =~= bytes.subrange(0, HEAD_ENCODED_LEN as int));
    }
}

/// Encoding the first header and parsing the bytes gives the first header
/// back, and its digest is a function of those seventy-two bytes alone.
pub proof fn law_genesis_round_trip()
    ensures
        HeadView::genesis().well_formed(),
        HeadView::genesis().encoding().len() == HEAD_ENCODED_LEN,
        HeadView::parse(HeadView::genesis().encoding()) == HeadView::genesis(),
        HeadView::parse(HeadView::genesis().encoding()).digest() == HeadView::genesis().digest(),
{
    lemma_encoding_round_trip(HeadView::genesis(), Seq::empty());
}

/// Copies thirty-two bytes of a slice, from `start` on, into a digest.
fn digest_at(bytes: &[u8], start: usize) -> (out: Digest)
    requires
        start + 32 <= bytes@.len(),
    ensures
        out@ == bytes@.subrange(start as int, start + 32),
{
    let len: usize = bytes.len();
    let mut out: Digest = [0u8; 32];
    let mut i: usize = 0;
    while i < 32
        invariant
            i <= 32,
            start + 32 <= len == bytes@.len(),
            forall|k: int| 0 <= k < i ==> out@[k] == bytes@[start + k],
        decreases 32 - i,
    {
        out[i] = bytes[start + i];
        i += 1;
    }
    assert(out@ =~= bytes@.subrange(start as int, start + 32));
    out
}

impl HeadData {
    /// The first header of every chain.
    pub fn genesis() -> (head: HeadData)
        ensures
            head@ == HeadView::genesis(),
    {
        let head = HeadData {
            number: 0,
            parent_hash: [0u8; 32],
            post_state: [
                1u8, 27u8, 77u8, 3u8, 221u8, 140u8, 1u8, 241u8, 4u8, 145u8, 67u8, 207u8, 156u8,
                76u8, 129u8, 126u8, 75u8, 22u8, 127u8, 29u8, 27u8, 131u8, 229u8, 198u8, 240u8,
                241u8, 13u8, 137u8, 186u8, 30u8, 123u8, 206u8,
            ],
        };
        assert(head.parent_hash@ =~= Seq::new(32, |i: int| 0u8));
        assert(head.post_state@ =~= genesis_commitment());
        head
    }

    /// Whether this is the first header of every chain.
    pub fn is_genesis(&self) -> (yes: bool)
        ensures
            yes == (self@ == HeadView::genesis()),
    {
        let g = HeadData::genesis();
        proof {
            lemma_head_view_injective(*self, g);
        }
        *self == g
    }

    /// Writes the header in its canonical encoding.
    pub fn encode(&self) -> (out: Vec<u8>)
        ensures
            out@ == self@.encoding(),
            out@.len() == HEAD_ENCODED_LEN,
    {
        let mut out = u64_to_le_bytes(self.number);
        out.extend_from_slice(self.parent_hash.as_slice());
        out.extend_from_slice(self.post_state.as_slice());
        out
    }

    /// Reads a header from the front of `bytes`. Bytes after the header are
    /// left unread.
    pub fn decode(bytes: &[u8]) -> (res: Result<HeadData, DecodeError>)
        ensures
            res is Ok <==> bytes@.len() >= HEAD_ENCODED_LEN,
            res is Err ==> res == Err::<HeadData, DecodeError>(DecodeError::TooShort),
            res is Ok ==> res->Ok_0@ == HeadView::parse(bytes@),
    {
        if bytes.len() < HEAD_ENCODED_LEN {
            return Err(DecodeError::TooShort);
        }
        let number = u64_from_le_bytes(slice_subrange(bytes, 0, 8));
        let parent_hash = digest_at(bytes, 8);
        let post_state = digest_at(bytes, 40);
        Ok(HeadData { number, parent_hash, post_state })
    }

    /// The keccak-256 digest of the canonical encoding.
    pub fn hash(&self) -> (out: Digest)
        ensures
            out@ == self@.digest(),
    {
        let bytes = self.encode();
        keccak256(bytes.as_slice())
    }
}

} // verus!
