//! The state transition: a body is checked against its parent header, and
//! the header of the next block is computed.

use vstd::prelude::*;
use crate::block::{hash_state, state_commitment, wrapping_sum, BlockData};
use crate::digest::{digest_eq, Digest};
use crate::head::{lemma_head_view_injective, HeadData, HeadView};

verus! {

/// The body starts from a state other than the one its parent committed to.
#[derive(Clone, Copy, Debug, PartialEq, Eq, Structural)]
pub struct StateMismatch;

/// Whether a body starts from the state that the parent header commits to.
pub open spec fn body_fits(parent: HeadView, body: BlockData) -> bool {
    state_commitment(body.state) == parent.post_state
}

/// The header of the block that `body` makes on top of `parent`: one
/// further along the chain, linked to the parent by `parent_hash`, and
/// committed to the state that the body reaches.
pub open spec fn child_head(parent_hash: Seq<u8>, parent: HeadView, body: BlockData) -> HeadView {
    HeadView {
        number: (parent.number + 1) as u64,
        parent_hash: parent_hash,
        post_state: state_commitment(body.next_state()),
    }
}

/// What the transition returns: the child header where the body fits the
/// parent, a mismatch where it does not.
pub open spec fn transition(parent_hash: Seq<u8>, parent: HeadView, body: BlockData) -> Result<
    HeadView,
    StateMismatch,
> {
    if body_fits(parent, body) {
        Ok(child_head(parent_hash, parent, body))
    } else {
        Err(StateMismatch)
    }
}

/// The view of a transition's result.
pub open spec fn result_view(res: Result<HeadData, StateMismatch>) -> Result<
    HeadView,
    StateMismatch,
> {
    match res {
        Ok(head) => Ok(head@),
        Err(e) => Err(e),
    }
}

/// The decision of the transition, given the two commitments it needs:
/// `committed` for the state that the body starts from, `reached` for the
/// state that it reaches. The child header is built where `committed` is
/// the parent's commitment.
pub fn seal(parent_hash: Digest, parent_head: &HeadData, committed: &Digest, reached: Digest) -> (res:
    Result<HeadData, StateMismatch>)
    requires
        parent_head.number < u64::MAX,
    ensures
        res is Ok <==> committed@ == parent_head.post_state@,
        res is Ok ==> res->Ok_0@ == (HeadView {
            number: (parent_head.number + 1) as u64,
            parent_hash: parent_hash@,
            post_state: reached@,
        }),
{
    if !digest_eq(committed, &parent_head.post_state) {
        return Err(StateMismatch);
    }
    Ok(HeadData { number: parent_head.number + 1, parent_hash, post_state: reached })
}

/// Validates `block_data` against `parent_head` and computes the header of
/// the next block. `parent_hash` must be the digest of `parent_head`, and
/// the parent's sequence number must leave room for one more.
pub fn execute(parent_hash: Digest, parent_head: HeadData, block_data: &BlockData) -> (res: Result<
    HeadData,
    StateMismatch,
>)
    requires
        parent_hash@ == parent_head@.digest(),
        parent_head.number < u64::MAX,
    ensures
        result_view(res) == transition(parent_hash@, parent_head@, *block_data),
        res is Ok <==> body_fits(parent_head@, *block_data),
        res is Ok ==> res->Ok_0.number == parent_head.number + 1,
{
    let committed = hash_state(block_data.state);
    let reached = hash_state(block_data.post_state());
    seal(parent_hash, &parent_head, &committed, reached)
}

/// The transition is a function of its inputs: two results for the same
/// parent digest, parent header and body are the same result, byte for byte.
pub proof fn law_execute_deterministic(
    first: Result<HeadData, StateMismatch>,
    second: Result<HeadData, StateMismatch>,
    parent_hash: Seq<u8>,
    parent: HeadView,
    body: BlockData,
)
    requires
        result_view(first) == transition(parent_hash, parent, body),
        result_view(second) == transition(parent_hash, parent, body),
    ensures
        first == second,
{
    if first is Ok {
        lemma_head_view_injective(first->Ok_0, second->Ok_0);
    }
}

/// A mismatch is returned exactly when the body's starting state is not the
/// one the parent commits to; nothing else makes the transition fail.
pub proof fn law_mismatch_only(parent_hash: Seq<u8>, parent: HeadView, body: BlockData)
    ensures
        transition(parent_hash, parent, body) is Err <==> state_commitment(body.state)
            != parent.post_state,
{
}

/// A successful transition moves one step along the chain, links the child
/// to the parent digest it was given, and commits to the wrapped sum of
/// state and increment.
pub proof fn law_child_links(parent_hash: Seq<u8>, parent: HeadView, body: BlockData)
    requires
        parent.number < u64::MAX,
        body_fits(parent, body),
    ensures
        transition(parent_hash, parent, body) is Ok,
        transition(parent_hash, parent, body)->Ok_0.number == parent.number + 1,
        transition(parent_hash, parent, body)->Ok_0.parent_hash == parent_hash,
        transition(parent_hash, parent, body)->Ok_0.post_state == state_commitment(
            wrapping_sum(body.state, body.add),
        ),
{
}

} // verus!
