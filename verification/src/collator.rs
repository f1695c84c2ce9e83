//! Candidate production: from the encoded header of a parent block to the
//! encoded body and header of the next block, recorded in the history.

use vstd::prelude::*;
use crate::block::{state_commitment, BlockData};
use crate::head::{lemma_encoding_round_trip, HeadData, HeadView, HEAD_ENCODED_LEN};
use crate::history::HistoryStore;
use crate::transition::{body_fits, child_head, execute};

verus! {

/// Why no candidate was produced.
#[derive(Clone, Copy, Debug, PartialEq, Eq, Structural)]
pub enum ProduceError {
    /// The bytes are not a header, or the header cannot be extended: the
    /// state it commits to is not the one the history leads to, or its
    /// sequence number is the largest there is.
    InvalidHead,
    /// The header is neither the first of the chain nor in the history:
    /// this instance did not produce it.
    MissingHistory,
}

/// The increment of the block that follows a header with this sequence
/// number.
pub open spec fn increment_after(number: u64) -> u64 {
    number % 100
}

/// The body that made `parent`: the fixed first body for the first header,
/// else what the history records, if anything.
pub open spec fn predecessor(history: Map<HeadView, BlockData>, parent: HeadView) -> Option<
    BlockData,
> {
    if parent == HeadView::genesis() {
        Some(BlockData::genesis_body())
    } else if history.contains_key(parent) {
        Some(history[parent])
    } else {
        None
    }
}

/// The body of the block after `parent`, where `last` made `parent`: it
/// starts from the state that `last` reached.
pub open spec fn candidate_body(last: BlockData, parent: HeadView) -> BlockData {
    BlockData { state: last.next_state(), add: increment_after(parent.number) }
}

/// What producing a candidate on top of the header encoded in `bytes`
/// gives, with `history` recorded so far: the new body and header, or the
/// reason why there is none.
pub open spec fn produced(history: Map<HeadView, BlockData>, bytes: Seq<u8>) -> Result<
    (BlockData, HeadView),
    ProduceError,
> {
    if bytes.len() < HEAD_ENCODED_LEN {
        Err(ProduceError::InvalidHead)
    } else {
        let parent = HeadView::parse(bytes);
        match predecessor(history, parent) {
            None => Err(ProduceError::MissingHistory),
            Some(last) => {
                let body = candidate_body(last, parent);
                if parent.number == u64::MAX || !body_fits(parent, body) {
                    Err(ProduceError::InvalidHead)
                } else {
                    Ok((body, child_head(parent.digest(), parent, body)))
                }
            },
        }
    }
}

/// The history after producing a candidate: one entry more on success, the
/// same history on failure.
pub open spec fn history_after(history: Map<HeadView, BlockData>, bytes: Seq<u8>) -> Map<
    HeadView,
    BlockData,
> {
    match produced(history, bytes) {
        Ok((body, head)) => history.insert(head, body),
        Err(_) => history,
    }
}

/// The increment of the block that follows a header with this sequence
/// number: the number modulo one hundred.
pub fn next_increment(number: u64) -> (add: u64)
    ensures
        add == increment_after(number),
        add < 100,
{
    number % 100
}

/// The body of the block after `parent`, where `last` is the body that made
/// `parent`.
pub fn next_body(last: &BlockData, parent: &HeadData) -> (body: BlockData)
    ensures
        body == candidate_body(*last, parent@),
{
    BlockData { state: last.post_state(), add: next_increment(parent.number) }
}

/// The body that made `parent`, if this instance knows it.
pub fn find_predecessor(store: &HistoryStore, parent: &HeadData) -> (last: Option<BlockData>)
    requires
        store.well_formed(),
    ensures
        last == predecessor(store@, parent@),
{
    if parent.is_genesis() {
        Some(BlockData::genesis())
    } else {
        store.get(parent)
    }
}

/// Produces the block after the header encoded in `parent_head_bytes` and
/// records it. On success the encoded body and the encoded header are
/// returned and the history holds one entry more, the new body under the new
/// header. On failure the history is left as it was.
pub fn produce_candidate(store: &mut HistoryStore, parent_head_bytes: &[u8]) -> (res: Result<
    (Vec<u8>, Vec<u8>),
    ProduceError,
>)
    requires
        old(store).well_formed(),
    ensures
        final(store).well_formed(),
        final(store)@ == history_after(old(store)@, parent_head_bytes@),
        match produced(old(store)@, parent_head_bytes@) {
            Ok((body, head)) => res is Ok && res->Ok_0.0@ == body.encoding() && res->Ok_0.1@
                == head.encoding(),
            Err(e) => res == Err::<(Vec<u8>, Vec<u8>), ProduceError>(e),
        },
{
    let parent = match HeadData::decode(parent_head_bytes) {
        Ok(parent) => parent,
        Err(_) => {
            return Err(ProduceError::InvalidHead);
        },
    };
    let last = match find_predecessor(store, &parent) {
        Some(last) => last,
        None => {
            return Err(ProduceError::MissingHistory);
        },
    };
    let body = next_body(&last, &parent);
    if parent.number == u64::MAX {
        return Err(ProduceError::InvalidHead);
    }
    let head = match execute(parent.hash(), parent, &body) {
        Ok(head) => head,
        Err(_) => {
            return Err(ProduceError::InvalidHead);
        },
    };
    let encoded_head = head.encode();
    let encoded_body = body.encode();
    store.insert(head, body);
    Ok((encoded_body, encoded_head))
}

/// Every recorded header commits to the state that its body reaches. This
/// holds of a history that only candidate production has written to.
pub open spec fn committed(history: Map<HeadView, BlockData>) -> bool {
    forall|head: HeadView| #[trigger]
        history.contains_key(head) ==> head.post_state == state_commitment(
            history[head].next_state(),
        )
}

/// Candidate production keeps the history committed, whatever the input.
pub proof fn law_committed_preserved(history: Map<HeadView, BlockData>, bytes: Seq<u8>)
    requires
        committed(history),
    ensures
        committed(history_after(history, bytes)),
{
}

/// A failure leaves the history as it was; a success adds the new body under
/// the new header and changes no other entry.
pub proof fn law_one_entry_on_success(history: Map<HeadView, BlockData>, bytes: Seq<u8>)
    ensures
        produced(history, bytes) is Err ==> history_after(history, bytes) == history,
        produced(history, bytes) is Ok ==> history_after(history, bytes) == history.insert(
            produced(history, bytes)->Ok_0.1,
            produced(history, bytes)->Ok_0.0,
        ),
        produced(history, bytes) is Ok ==> forall|other: HeadView|
            other != produced(history, bytes)->Ok_0.1 && history.contains_key(other)
                ==> #[trigger] history_after(history, bytes)[other] == history[other],
{
}

/// Bytes too short to hold a header are refused as an invalid head.
pub proof fn law_malformed_head(history: Map<HeadView, BlockData>, bytes: Seq<u8>)
    requires
        bytes.len() < HEAD_ENCODED_LEN,
    ensures
        produced(history, bytes) == Err::<(BlockData, HeadView), ProduceError>(
            ProduceError::InvalidHead,
        ),
{
}

/// A well-formed header that is neither the first header nor in the history
/// gives the missing-history fault: no body is made up for it, and nothing
/// is recorded.
pub proof fn law_unknown_parent(history: Map<HeadView, BlockData>, bytes: Seq<u8>)
    requires
        bytes.len() >= HEAD_ENCODED_LEN,
        HeadView::parse(bytes) != HeadView::genesis(),
        !history.contains_key(HeadView::parse(bytes)),
    ensures
        produced(history, bytes) == Err::<(BlockData, HeadView), ProduceError>(
            ProduceError::MissingHistory,
        ),
        history_after(history, bytes) == history,
{
}

/// In a committed history, a recorded parent below the largest sequence
/// number is always extended: the child is one further along, carries the
/// parent's digest, and its body starts where the parent's body ended.
pub proof fn law_recorded_parent_extends(history: Map<HeadView, BlockData>, bytes: Seq<u8>)
    requires
        committed(history),
        bytes.len() >= HEAD_ENCODED_LEN,
        HeadView::parse(bytes) != HeadView::genesis(),
        history.contains_key(HeadView::parse(bytes)),
        HeadView::parse(bytes).number < u64::MAX,
    ensures
        produced(history, bytes) is Ok,
        produced(history, bytes)->Ok_0.0.state == history[HeadView::parse(bytes)].next_state(),
        produced(history, bytes)->Ok_0.0.add == HeadView::parse(bytes).number % 100,
        produced(history, bytes)->Ok_0.1.number == HeadView::parse(bytes).number + 1,
        produced(history, bytes)->Ok_0.1.parent_hash == HeadView::parse(bytes).digest(),
        produced(history, bytes)->Ok_0.1.post_state == state_commitment(
            produced(history, bytes)->Ok_0.0.next_state(),
        ),
{
}

/// The first header is extended exactly when its fixed commitment is the
/// commitment to state zero; the child then has sequence number one and a
/// body that starts from zero and adds nothing.
pub proof fn law_genesis_extends(history: Map<HeadView, BlockData>)
    ensures
        produced(history, HeadView::genesis().encoding()) is Ok <==> state_commitment(0)
            == HeadView::genesis().post_state,
        produced(history, HeadView::genesis().encoding()) is Ok ==> {
            let (body, head) = produced(history, HeadView::genesis().encoding())->Ok_0;
            &&& body == BlockData { state: 0, add: 0 }
            &&& head.number == 1
            &&& head.parent_hash == HeadView::genesis().digest()
            &&& head.post_state == state_commitment(0)
        },
{
    lemma_encoding_round_trip(HeadView::genesis(), Seq::empty());
}

/// Two candidates produced one after the other on two different recorded
/// parents of a committed history both succeed. Each child is linked to its
/// own parent, and the two children differ wherever the parents' sequence
/// numbers or digests do.
pub proof fn law_distinct_parents(history: Map<HeadView, BlockData>, first: Seq<u8>, second: Seq<u8>)
    requires
        committed(history),
        first.len() >= HEAD_ENCODED_LEN,
        second.len() >= HEAD_ENCODED_LEN,
        HeadView::parse(first) != HeadView::parse(second),
        HeadView::parse(first) != HeadView::genesis(),
        HeadView::parse(second) != HeadView::genesis(),
        history.contains_key(HeadView::parse(first)),
        history.contains_key(HeadView::parse(second)),
        HeadView::parse(first).number < u64::MAX,
        HeadView::parse(second).number < u64::MAX,
    ensures
        produced(history, first) is Ok,
        produced(history_after(history, first), second) is Ok,
        ({
            let one = produced(history, first)->Ok_0.1;
            let two = produced(history_after(history, first), second)->Ok_0.1;
            let after = history_after(history_after(history, first), second);
            &&& one.number == HeadView::parse(first).number + 1
            &&& one.parent_hash == HeadView::parse(first).digest()
            &&& two.number == HeadView::parse(second).number + 1
            &&& two.parent_hash == HeadView::parse(second).digest()
            &&& after.contains_key(one)
            &&& after.contains_key(two)
            &&& committed(after)
            &&& (HeadView::parse(first).number != HeadView::parse(second).number
                || HeadView::parse(first).digest() != HeadView::parse(second).digest()) ==> one
                != two
        }),
{
    law_recorded_parent_extends(history, first);
    law_committed_preserved(history, first);
    law_recorded_parent_extends(history_after(history, first), second);
}

} // verus!
