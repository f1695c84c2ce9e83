//! Cross-chain requests: sorting bytes by splitting the work and merging
//! the sorted halves, and the requests for accounts, transfers and status
//! messages that the host chain carries out.

use vstd::prelude::*;
use vstd::multiset::Multiset;
use vstd::seq_lib::lemma_multiset_commutative;
use vstd::slice::slice_subrange;

verus! {

/// The custom type that is stored on-chain.
#[derive(Clone, Copy, Debug, Default, PartialEq, Eq, Structural)]
pub struct CrossChain {}

/// One action on an account of the host chain.
#[derive(Clone, Copy, Debug, PartialEq, Eq, Structural)]
pub enum Action {
    /// Create the account.
    CreateAccount,
    /// Move this many tokens to the account.
    Transfer(u128),
    /// Give the signer's key full access to the account.
    AddFullAccessKey,
    /// Deploy the cross-chain code to the account.
    DeployCrossChain,
}

/// Actions that the host chain is asked to carry out on one account, in
/// order.
#[derive(Clone, Debug)]
pub struct Promise {
    pub account_id: String,
    pub actions: Vec<Action>,
}

/// A request to an account that keeps status messages: a status to set and,
/// where `get` is there, the account whose status is read afterwards.
#[derive(Clone, Debug)]
pub struct StatusCall {
    pub account_id: String,
    pub set: String,
    pub get: Option<String>,
}

/// The result of one sorting step: the sorted bytes, or the two halves that
/// remain to be sorted and then merged.
#[derive(Clone, Debug)]
pub enum PromiseOrValue {
    Value(Vec<u8>),
    Promise { left: Vec<u8>, right: Vec<u8> },
}

/// Something that can run the cross-chain sort.
pub trait BuildCrossChain {
    /// One step of sorting `arr`.
    fn build_sort(&self, arr: Vec<u8>) -> PromiseOrValue;

    /// Merges two sorted halves.
    fn build(&self, data0: Vec<u8>, data1: Vec<u8>) -> Vec<u8>;
}

/// Something that keeps one status message per account.
pub trait ChainStatusMessage {
    fn set_status(&mut self, message: String);

    fn get_status(&self, id: String) -> Option<String>;
}

/// The merge of two byte strings: the smaller of the two first bytes comes
/// first, the first of the second string where they are equal, and a string
/// that is left over when the other ends is appended whole.
pub open spec fn merged(a: Seq<u8>, b: Seq<u8>) -> Seq<u8>
    decreases a.len() + b.len(),
{
    if a.len() == 0 {
        b
    } else if b.len() == 0 {
        a
    } else if a[0] < b[0] {
        seq![a[0]] + merged(a.drop_first(), b)
    } else {
        seq![b[0]] + merged(a, b.drop_first())
    }
}

/// The first half of a string: the bytes before the middle, one fewer than
/// the rest where the length is odd.
pub open spec fn left_half(arr: Seq<u8>) -> Seq<u8> {
    arr.subrange(0, arr.len() as int / 2)
}

/// The second half of a string: the bytes from the middle on.
pub open spec fn right_half(arr: Seq<u8>) -> Seq<u8> {
    arr.subrange(arr.len() as int / 2, arr.len() as int)
}

/// No byte is larger than one that comes after it.
pub open spec fn sorted(s: Seq<u8>) -> bool {
    forall|i: int, j: int| 0 <= i <= j < s.len() ==> s[i] <= s[j]
}

/// A merge is as long as its two inputs together.
pub proof fn lemma_merged_len(a: Seq<u8>, b: Seq<u8>)
    ensures
        merged(a, b).len() == a.len() + b.len(),
    decreases a.len() + b.len(),
{
    if a.len() == 0 || b.len() == 0 {
    } else if a[0] < b[0] {
        lemma_merged_len(a.drop_first(), b);
    } else {
        lemma_merged_len(a, b.drop_first());
    }
}

/// A merge holds the bytes of its two inputs, each as often as they do.
pub proof fn lemma_merged_multiset(a: Seq<u8>, b: Seq<u8>)
    ensures
        merged(a, b).to_multiset() == a.to_multiset().add(b.to_multiset()),
    decreases a.len() + b.len(),
{
    if a.len() == 0 {
        assert(a.to_multiset() =~= Multiset::<u8>::empty()) by {
            a.to_multiset_ensures();
        }
        assert(merged(a, b).to_multiset() =~= a.to_multiset().add(b.to_multiset()));
    } else if b.len() == 0 {
        assert(b.to_multiset() =~= Multiset::<u8>::empty()) by {
            b.to_multiset_ensures();
        }
        assert(merged(a, b).to_multiset() =~= a.to_multiset().add(b.to_multiset()));
    } else if a[0] < b[0] {
        let rest = a.drop_first();
        lemma_merged_multiset(rest, b);
        lemma_multiset_commutative(seq![a[0]], merged(rest, b));
        lemma_multiset_commutative(seq![a[0]], rest);
        assert(a =~= seq![a[0]] + rest);
        assert(merged(a, b).to_multiset() =~= a.to_multiset().add(b.to_multiset()));
    } else {
        let rest = b.drop_first();
        lemma_merged_multiset(a, rest);
        lemma_multiset_commutative(seq![b[0]], merged(a, rest));
        lemma_multiset_commutative(seq![b[0]], rest);
        assert(b =~= seq![b[0]] + rest);
        assert(merged(a, b).to_multiset() =~= a.to_multiset().add(b.to_multiset()));
    }
}

/// A bound below every byte of both inputs is below every byte of the merge.
proof fn lemma_merged_lower_bound(a: Seq<u8>, b: Seq<u8>, low: u8)
    requires
        forall|i: int| 0 <= i < a.len() ==> low <= a[i],
        forall|i: int| 0 <= i < b.len() ==> low <= b[i],
    ensures
        forall|i: int| 0 <= i < merged(a, b).len() ==> low <= #[trigger] merged(a, b)[i],
    decreases a.len() + b.len(),
{
    if a.len() == 0 || b.len() == 0 {
    } else if a[0] < b[0] {
        let rest = a.drop_first();
        assert(forall|i: int| 0 <= i < rest.len() ==> rest[i] == a[i + 1]);
        lemma_merged_lower_bound(rest, b, low);
        assert forall|i: int| 0 <= i < merged(a, b).len() implies low <= #[trigger] merged(
            a,
            b,
        )[i] by {
            if i > 0 {
                assert(merged(a, b)[i] == merged(rest, b)[i - 1]);
            }
        }
    } else {
        let rest = b.drop_first();
        assert(forall|i: int| 0 <= i < rest.len() ==> rest[i] == b[i + 1]);
        lemma_merged_lower_bound(a, rest, low);
        assert forall|i: int| 0 <= i < merged(a, b).len() implies low <= #[trigger] merged(
            a,
            b,
        )[i] by {
            if i > 0 {
                assert(merged(a, b)[i] == merged(a, rest)[i - 1]);
            }
        }
    }
}

/// The merge of two sorted strings is sorted.
pub proof fn lemma_merged_sorted(a: Seq<u8>, b: Seq<u8>)
    requires
        sorted(a),
        sorted(b),
    ensures
        sorted(merged(a, b)),
    decreases a.len() + b.len(),
{
    if a.len() == 0 || b.len() == 0 {
    } else if a[0] < b[0] {
        let rest = a.drop_first();
        assert(forall|i: int| 0 <= i < rest.len() ==> rest[i] == a[i + 1]);
        lemma_merged_sorted(rest, b);
        lemma_merged_lower_bound(rest, b, a[0]);
    } else {
        let rest = b.drop_first();
        assert(forall|i: int| 0 <= i < rest.len() ==> rest[i] == b[i + 1]);
        lemma_merged_sorted(a, rest);
        lemma_merged_lower_bound(a, rest, b[0]);
    }
}

/// Sorting the two halves of a string and merging them sorts the string:
/// the merge is sorted and holds the bytes of the whole, each as often.
pub proof fn law_halves_then_merge(arr: Seq<u8>, left: Seq<u8>, right: Seq<u8>)
    requires
        sorted(left),
        sorted(right),
        left.to_multiset() == left_half(arr).to_multiset(),
        right.to_multiset() == right_half(arr).to_multiset(),
    ensures
        sorted(merged(left, right)),
        merged(left, right).to_multiset() == arr.to_multiset(),
        merged(left, right).len() == arr.len(),
{
    lemma_merged_sorted(left, right);
    lemma_merged_multiset(left, right);
    lemma_multiset_commutative(left_half(arr), right_half(arr));
    assert(arr =~= left_half(arr) + right_half(arr));
    merged(left, right).to_multiset_ensures();
    arr.to_multiset_ensures();
}

impl CrossChain {
    /// Merges two byte strings into one. Where both are sorted, so is the
    /// result.
    pub fn internal_build(&self, arr0: Vec<u8>, arr1: Vec<u8>) -> (result: Vec<u8>)
        ensures
            result@ == merged(arr0@, arr1@),
            result@.len() == arr0@.len() + arr1@.len(),
            result@.to_multiset() == arr0@.to_multiset().add(arr1@.to_multiset()),
            sorted(arr0@) && sorted(arr1@) ==> sorted(result@),
    {
        let mut i: usize = 0;
        let mut j: usize = 0;
        let mut result: Vec<u8> = Vec::new();
        assert(arr0@.skip(0) =~= arr0@ && arr1@.skip(0) =~= arr1@);
        assert(result@ + merged(arr0@, arr1@) =~= merged(arr0@, arr1@));
        while i < arr0.len() && j < arr1.len()
            invariant
                i <= arr0@.len(),
                j <= arr1@.len(),
                result@ + merged(arr0@.skip(i as int), arr1@.skip(j as int)) == merged(arr0@, arr1@),
            decreases arr0@.len() - i + arr1@.len() - j,
        {
            let ghost rest0 = arr0@.skip(i as int);
            let ghost rest1 = arr1@.skip(j as int);
            let ghost before = result@;
            if arr0[i] < arr1[j] {
                result.push(arr0[i]);
                i += 1;
                assert(rest0.drop_first() =~= arr0@.skip(i as int));
            } else {
                result.push(arr1[j]);
                j += 1;
                assert(rest1.drop_first() =~= arr1@.skip(j as int));
            }
            assert(result@ + merged(arr0@.skip(i as int), arr1@.skip(j as int)) =~= before
                + merged(rest0, rest1));
        }
        let ghost before = result@;
        if i == arr0.len() {
            result.extend_from_slice(slice_subrange(arr1.as_slice(), j, arr1.len()));
            assert(result@ =~= before + arr1@.skip(j as int));
        } else {
            result.extend_from_slice(slice_subrange(arr0.as_slice(), i, arr0.len()));
            assert(result@ =~= before + arr0@.skip(i as int));
        }
        proof {
            lemma_merged_len(arr0@, arr1@);
            lemma_merged_multiset(arr0@, arr1@);
            if sorted(arr0@) && sorted(arr1@) {
                lemma_merged_sorted(arr0@, arr1@);
            }
        }
        result
    }

    /// Merges the two sorted halves that the sorting steps hand back. Only
    /// the account itself may hand them back: the caller's account must be
    /// the current one.
    pub fn build(
        &self,
        current_account_id: &String,
        predecessor_account_id: &String,
        data0: Vec<u8>,
        data1: Vec<u8>,
    ) -> (result: Vec<u8>)
        requires
            current_account_id@ == predecessor_account_id@,
        ensures
            result@ == merged(data0@, data1@),
            result@.to_multiset() == data0@.to_multiset().add(data1@.to_multiset()),
            sorted(data0@) && sorted(data1@) ==> sorted(result@),
    {
        self.internal_build(data0, data1)
    }

    /// One step of sorting: a string of at most one byte is sorted as it is;
    /// a longer one is cut at the middle into two halves, to be sorted each
    /// and then merged.
    pub fn build_sort(&self, arr: Vec<u8>) -> (step: PromiseOrValue)
        ensures
            match step {
                PromiseOrValue::Value(value) => arr@.len() <= 1 && value@ == arr@,
                PromiseOrValue::Promise { left, right } => {
                    &&& arr@.len() > 1
                    &&& left@ == left_half(arr@)
                    &&& right@ == right_half(arr@)
                },
            },
    {
        if arr.len() <= 1 {
            return PromiseOrValue::Value(arr);
        }
        let pivot: usize = arr.len() / 2;
        let mut left: Vec<u8> = Vec::new();
        left.extend_from_slice(slice_subrange(arr.as_slice(), 0, pivot));
        let mut right: Vec<u8> = Vec::new();
        right.extend_from_slice(slice_subrange(arr.as_slice(), pivot, arr.len()));
        assert(left@ =~= left_half(arr@));
        assert(right@ =~= right_half(arr@));
        PromiseOrValue::Promise { left, right }
    }

    /// The request to create the account `id`, fund it with `amount`, give
    /// the signer full access and deploy the cross-chain code to it.
    pub fn deploy_status_message(&self, id: String, amount: u64) -> (promise: Promise)
        ensures
            promise.account_id@ == id@,
            promise.actions@ == seq![
                Action::CreateAccount,
                Action::Transfer(amount as u128),
                Action::AddFullAccessKey,
                Action::DeployCrossChain,
            ],
    {
        let mut actions: Vec<Action> = Vec::new();
        actions.push(Action::CreateAccount);
        actions.push(Action::Transfer(amount as u128));
        actions.push(Action::AddFullAccessKey);
        actions.push(Action::DeployCrossChain);
        assert(actions@ =~= seq![
            Action::CreateAccount,
            Action::Transfer(amount as u128),
            Action::AddFullAccessKey,
            Action::DeployCrossChain,
        ]);
        Promise { account_id: id, actions }
    }

    /// The request to set `message` as the status kept by `account_id`.
    pub fn simple_call(&mut self, account_id: String, message: String) -> (call: StatusCall)
        ensures
            call.account_id@ == account_id@,
            call.set@ == message@,
            call.get is None,
            *final(self) == *old(self),
    {
        StatusCall { account_id, set: message, get: None }
    }

    /// The request to set `message` as the status kept by `account_id` and
    /// then to read the status of the signer there.
    pub fn complex_call(&mut self, signer_account_id: String, account_id: String, message: String) -> (call:
        StatusCall)
        ensures
            call.account_id@ == account_id@,
            call.set@ == message@,
            call.get is Some,
            call.get->Some_0@ == signer_account_id@,
            *final(self) == *old(self),
    {
        StatusCall { account_id, set: message, get: Some(signer_account_id) }
    }

    /// The request to move `amount` tokens to `account_id`.
    pub fn transfer_money(&mut self, account_id: String, amount: u64) -> (promise: Promise)
        ensures
            promise.account_id@ == account_id@,
            promise.actions@ == seq![Action::Transfer(amount as u128)],
            *final(self) == *old(self),
    {
        let mut actions: Vec<Action> = Vec::new();
        actions.push(Action::Transfer(amount as u128));
        assert(actions@ =~= seq![Action::Transfer(amount as u128)]);
        Promise { account_id, actions }
    }
}

} // verus!
