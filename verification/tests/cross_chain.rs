use powerplay::cross_chain::{Action, CrossChain, PromiseOrValue};

fn sort_by_steps(chain: &CrossChain, arr: Vec<u8>) -> Vec<u8> {
    match chain.build_sort(arr) {
        PromiseOrValue::Value(value) => value,
        PromiseOrValue::Promise { left, right } => {
            let left = sort_by_steps(chain, left);
            let right = sort_by_steps(chain, right);
            let me = String::from("sorter");
            chain.build(&me, &me, left, right)
        }
    }
}

#[test]
fn internal_build_merges_sorted_inputs() {
    let chain = CrossChain {};
    assert_eq!(chain.internal_build(vec![1, 3, 5], vec![2, 4, 6]), vec![1, 2, 3, 4, 5, 6]);
    assert_eq!(chain.internal_build(vec![1, 2], vec![3, 4, 5]), vec![1, 2, 3, 4, 5]);
    assert_eq!(chain.internal_build(vec![7, 8, 9], vec![1]), vec![1, 7, 8, 9]);
    assert_eq!(chain.internal_build(vec![2, 2], vec![2, 3]), vec![2, 2, 2, 3]);
}

#[test]
fn internal_build_with_an_empty_input() {
    let chain = CrossChain {};
    assert_eq!(chain.internal_build(vec![], vec![]), Vec::<u8>::new());
    assert_eq!(chain.internal_build(vec![], vec![4, 1]), vec![4, 1]);
    assert_eq!(chain.internal_build(vec![9, 3], vec![]), vec![9, 3]);
}

#[test]
fn internal_build_takes_the_smaller_head_first() {
    let chain = CrossChain {};
    assert_eq!(chain.internal_build(vec![5, 1], vec![3, 9]), vec![3, 5, 1, 9]);
    assert_eq!(chain.internal_build(vec![0, 255], vec![255, 0]), vec![0, 255, 0, 255]);
}

#[test]
fn build_sort_returns_short_input_as_it_is() {
    let chain = CrossChain {};
    assert!(matches!(chain.build_sort(vec![]), PromiseOrValue::Value(v) if v.is_empty()));
    assert!(matches!(chain.build_sort(vec![7]), PromiseOrValue::Value(v) if v == vec![7]));
}

#[test]
fn build_sort_cuts_at_the_middle() {
    let chain = CrossChain {};
    match chain.build_sort(vec![3, 1, 2]) {
        PromiseOrValue::Promise { left, right } => {
            assert_eq!(left, vec![3]);
            assert_eq!(right, vec![1, 2]);
        }
        PromiseOrValue::Value(_) => panic!("three bytes are cut in two"),
    }
    match chain.build_sort(vec![4, 3, 2, 1]) {
        PromiseOrValue::Promise { left, right } => {
            assert_eq!(left, vec![4, 3]);
            assert_eq!(right, vec![2, 1]);
        }
        PromiseOrValue::Value(_) => panic!("four bytes are cut in two"),
    }
}

#[test]
fn build_merges_for_the_account_itself() {
    let chain = CrossChain {};
    let me = String::from("alice");
    assert_eq!(chain.build(&me, &me, vec![1, 4], vec![2, 3]), vec![1, 2, 3, 4]);
}

#[test]
fn steps_and_merges_sort_the_bytes() {
    let chain = CrossChain {};
    assert_eq!(sort_by_steps(&chain, vec![5, 3, 9, 1, 1, 200, 0]), vec![0, 1, 1, 3, 5, 9, 200]);
    assert_eq!(sort_by_steps(&chain, vec![2, 1]), vec![1, 2]);
    assert_eq!(sort_by_steps(&chain, vec![]), Vec::<u8>::new());
}

#[test]
fn deploy_status_message_lists_four_actions() {
    let chain = CrossChain {};
    let promise = chain.deploy_status_message(String::from("status"), 500);
    assert_eq!(promise.account_id, "status");
    assert_eq!(
        promise.actions,
        vec![
            Action::CreateAccount,
            Action::Transfer(500),
            Action::AddFullAccessKey,
            Action::DeployCrossChain
        ]
    );
}

#[test]
fn transfer_money_widens_the_amount() {
    let mut chain = CrossChain {};
    let promise = chain.transfer_money(String::from("bob"), u64::MAX);
    assert_eq!(promise.account_id, "bob");
    assert_eq!(promise.actions, vec![Action::Transfer(18_446_744_073_709_551_615u128)]);
    let none = chain.transfer_money(String::from("carol"), 0);
    assert_eq!(none.actions, vec![Action::Transfer(0)]);
}

#[test]
fn simple_call_only_sets_the_status() {
    let mut chain = CrossChain {};
    let call = chain.simple_call(String::from("status"), String::from("hello"));
    assert_eq!(call.account_id, "status");
    assert_eq!(call.set, "hello");
    assert_eq!(call.get, None);
}

#[test]
fn complex_call_sets_then_reads_the_signer() {
    let mut chain = CrossChain {};
    let call =
        chain.complex_call(String::from("signer"), String::from("status"), String::from("hello"));
    assert_eq!(call.account_id, "status");
    assert_eq!(call.set, "hello");
    assert_eq!(call.get, Some(String::from("signer")));
}
