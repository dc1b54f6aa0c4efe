use paystream::accrual::accrue;
use paystream::accrual::times_capped;
use paystream::LedgerParts;
use paystream::Paystream;
use paystream::PaystreamParts;
use paystream::Subscription;
use paystream::SubscriptionError;

fn account(name: &str) -> String {
    name.to_string()
}

fn funded(balances: &[(&str, u128)]) -> Paystream {
    let mut contract = Paystream::new(account("owner"), account("wrap.testnet"));
    for (name, amount) in balances {
        contract.wrap_callback(account(name), *amount, true);
    }
    contract
}

#[test]
fn accrual_formula() {
    assert_eq!(accrue(100, 10, 50), 4000);
    assert_eq!(accrue(200, 50, 80), 6000);
    assert_eq!(accrue(1, 0, u64::MAX), u64::MAX as u128);
    assert_eq!(accrue(5, 7, 7), 0);
    assert_eq!(accrue(5, 8, 7), 0);
    assert_eq!(accrue(0, 0, 1000), 0);
}

#[test]
fn accrual_is_capped_not_wrapped() {
    assert_eq!(accrue(u128::MAX, 0, 2), u128::MAX);
    assert_eq!(accrue(u128::MAX, 0, 1), u128::MAX);
    assert_eq!(accrue(u128::MAX / 2 + 1, 0, 2), u128::MAX);
    assert_eq!(accrue(u128::MAX / 2, 0, 2), u128::MAX - 1);
    assert_eq!(times_capped(1 << 64, 1 << 64), u128::MAX);
    assert_eq!(times_capped(1 << 64, 1 << 63), 1 << 127);
}

#[test]
fn settle_returns_accrual_and_advances_the_record() {
    let mut subscription = Subscription::new(3, account("a"), account("b"), 100, 10);
    assert_eq!(subscription.settle(50), 4000);
    assert_eq!(subscription, Subscription::new(3, account("a"), account("b"), 100, 50));
    // Settled again at the same instant, nothing is left.
    assert_eq!(subscription.settle(50), 0);
    assert_eq!(subscription.timestamp(), 50);
}

#[test]
fn deposit_credits_only_when_it_went_through() {
    let mut contract = Paystream::new(account("owner"), account("wrap.testnet"));
    contract.wrap_callback(account("a"), 500, true);
    assert_eq!(contract.persisted_balance(&account("a")), 500);
    contract.wrap_callback(account("a"), 250, true);
    assert_eq!(contract.persisted_balance(&account("a")), 750);
    contract.wrap_callback(account("a"), 1000, false);
    assert_eq!(contract.persisted_balance(&account("a")), 750);
    assert_eq!(contract.persisted_balance(&account("b")), 0);
}

#[test]
fn deposit_is_capped() {
    let mut contract = Paystream::new(account("owner"), account("wrap.testnet"));
    contract.wrap_callback(account("a"), u128::MAX - 1, true);
    contract.wrap_callback(account("a"), 5, true);
    assert_eq!(contract.persisted_balance(&account("a")), u128::MAX);
}

#[test]
fn reserve_must_be_strictly_exceeded() {
    // Four hours at 100 per second come to 1_440_000.
    let at_reserve = funded(&[("a", 1_440_000)]);
    assert_eq!(at_reserve.reserve(), 14_400);
    assert_eq!(
        at_reserve.sufficient_reserve(100, &account("a")),
        Err(SubscriptionError::InsufficientReserve)
    );
    let above = funded(&[("a", 1_440_001)]);
    assert_eq!(above.sufficient_reserve(100, &account("a")), Ok(()));
    // An account without a balance holds nothing.
    assert_eq!(
        above.sufficient_reserve(1, &account("b")),
        Err(SubscriptionError::InsufficientReserve)
    );
}

#[test]
fn reserve_product_is_capped() {
    let contract = funded(&[("a", u128::MAX)]);
    // The capped product is u128::MAX, which no balance exceeds.
    assert_eq!(
        contract.sufficient_reserve(u128::MAX, &account("a")),
        Err(SubscriptionError::InsufficientReserve)
    );
}

#[test]
fn create_checks_the_reserve() {
    let mut contract = funded(&[("a", 1_440_000)]);
    let before = contract.to_parts();
    assert_eq!(
        contract.create_subscription(account("a"), account("b"), 100, &account("a"), 0),
        Err(SubscriptionError::InsufficientReserve)
    );
    assert_eq!(contract.to_parts(), before);
    contract.wrap_callback(account("a"), 1, true);
    assert!(contract
        .create_subscription(account("a"), account("b"), 100, &account("a"), 0)
        .is_ok());
}

#[test]
fn reserve_window_is_set_by_the_owner_only() {
    let mut contract = funded(&[("a", 1000)]);
    assert_eq!(
        contract.update_reserve(1, &account("a")),
        Err(SubscriptionError::PermissionDenied)
    );
    assert_eq!(contract.reserve(), 14_400);
    assert_eq!(contract.update_reserve(9, &account("owner")), Ok(()));
    assert_eq!(contract.reserve(), 9);
    // 9 seconds at 100 per second come to 900, which 1000 exceeds.
    assert!(contract
        .create_subscription(account("a"), account("b"), 100, &account("a"), 0)
        .is_ok());
}

#[test]
fn reserve_is_not_looked_at_again_while_the_stream_runs() {
    let mut contract = funded(&[("a", 1000)]);
    contract.update_reserve(5, &account("owner")).unwrap();
    contract
        .create_subscription(account("a"), account("b"), 100, &account("a"), 0)
        .unwrap();
    // After 8 seconds 800 are owed: more than the reserve of 500 covered.
    assert_eq!(contract.update_subscription(1, 50, 8).unwrap().flow(), 50);
    assert_eq!(contract.persisted_balance(&account("a")), 200);
    assert_eq!(contract.persisted_balance(&account("b")), 800);
}

#[test]
fn create_is_for_the_source_to_call() {
    let mut contract = funded(&[("a", 1_000_000_000)]);
    assert_eq!(
        contract.create_subscription(account("a"), account("b"), 100, &account("b"), 0),
        Err(SubscriptionError::PermissionDenied)
    );
    assert_eq!(contract.subscriptions_by_account(&account("a")), Vec::<u64>::new());
}

#[test]
fn remove_is_for_source_or_destination_to_call() {
    let mut contract = funded(&[("a", 1_000_000_000)]);
    contract
        .create_subscription(account("a"), account("b"), 100, &account("a"), 0)
        .unwrap();
    let before = contract.to_parts();
    assert_eq!(
        contract.remove_subscription(1, &account("c"), 10),
        Err(SubscriptionError::PermissionDenied)
    );
    assert_eq!(contract.to_parts(), before);
    assert!(contract.remove_subscription(1, &account("b"), 10).is_ok());
    assert_eq!(contract.persisted_balance(&account("b")), 1000);
}

#[test]
fn remove_of_absent_subscription_fails() {
    let mut contract = funded(&[("a", 1_000_000_000)]);
    assert_eq!(
        contract.remove_subscription(4, &account("a"), 10),
        Err(SubscriptionError::NotPresent(4))
    );
}

#[test]
fn update_rejects_absent_zero_and_unchanged_flow() {
    let mut contract = funded(&[("a", 1_000_000_000)]);
    contract
        .create_subscription(account("a"), account("b"), 100, &account("a"), 0)
        .unwrap();
    let before = contract.to_parts();
    assert_eq!(
        contract.update_subscription(2, 5, 10),
        Err(SubscriptionError::NotPresent(2))
    );
    assert_eq!(
        contract.update_subscription(1, 100, 10),
        Err(SubscriptionError::InvalidFlow(100))
    );
    assert_eq!(
        contract.update_subscription(1, 0, 10),
        Err(SubscriptionError::InvalidFlow(0))
    );
    // Nothing was settled by the rejected calls.
    assert_eq!(contract.to_parts(), before);
}

#[test]
fn settlement_fails_closed_when_the_source_cannot_pay() {
    let mut contract = funded(&[("a", 1000)]);
    contract.update_reserve(1, &account("owner")).unwrap();
    contract
        .create_subscription(account("a"), account("b"), 100, &account("a"), 0)
        .unwrap();
    let before = contract.to_parts();
    // After 11 seconds 1100 are owed and only 1000 are held.
    assert_eq!(
        contract.update_subscription(1, 50, 11),
        Err(SubscriptionError::InsufficientBalance)
    );
    assert_eq!(
        contract.remove_subscription(1, &account("a"), 11),
        Err(SubscriptionError::InsufficientBalance)
    );
    assert_eq!(contract.to_parts(), before);
    // At 10 seconds the balance just covers it.
    assert!(contract.remove_subscription(1, &account("a"), 10).is_ok());
    assert_eq!(contract.persisted_balance(&account("a")), 0);
    assert_eq!(contract.persisted_balance(&account("b")), 1000);
}

#[test]
fn projection_adds_inputs_and_takes_outputs() {
    let mut contract = funded(&[("a", 1_000_000_000), ("b", 1_000_000_000), ("c", 5)]);
    contract
        .create_subscription(account("a"), account("c"), 10, &account("a"), 0)
        .unwrap();
    contract
        .create_subscription(account("b"), account("c"), 20, &account("b"), 100)
        .unwrap();
    contract.update_reserve(0, &account("owner")).unwrap();
    contract
        .create_subscription(account("c"), account("a"), 3, &account("c"), 200)
        .unwrap();
    // c at 300: 5 + 300*10 + 200*20 - 100*3.
    assert_eq!(contract.current_balance(account("c"), 300), 5 + 3000 + 4000 - 300);
    // a at 300: 1_000_000_000 + 100*3 - 300*10.
    assert_eq!(contract.current_balance(account("a"), 300), 1_000_000_000 + 300 - 3000);
    assert_eq!(contract.current_balance(account("b"), 300), 1_000_000_000 - 4000);
    assert_eq!(contract.current_balance(account("d"), 300), 0);
}

#[test]
fn projection_stops_at_zero() {
    let mut contract = funded(&[("a", 1000)]);
    contract.update_reserve(1, &account("owner")).unwrap();
    contract
        .create_subscription(account("a"), account("b"), 100, &account("a"), 0)
        .unwrap();
    assert_eq!(contract.current_balance(account("a"), 10), 0);
    assert_eq!(contract.current_balance(account("a"), 11), 0);
    assert_eq!(contract.current_balance(account("b"), 11), 1100);
}

#[test]
fn projection_stops_at_the_maximum() {
    let mut contract = funded(&[("a", u128::MAX), ("b", u128::MAX - 10)]);
    contract
        .create_subscription(account("a"), account("b"), 1, &account("a"), 0)
        .unwrap();
    assert_eq!(contract.current_balance(account("b"), 10), u128::MAX);
    assert_eq!(contract.current_balance(account("b"), 500), u128::MAX);
}

#[test]
fn projection_skips_ids_without_a_record() {
    let parts = PaystreamParts {
        wrap_contract: account("wrap.testnet"),
        balances: vec![(account("a"), 100), (account("b"), 40)],
        owner: account("owner"),
        treasurer: account("owner"),
        subscriptions: LedgerParts {
            subscription_index: 2,
            subscriptions: vec![(2, Subscription::new(2, account("a"), account("b"), 3, 0))],
            outputs: vec![(account("a"), vec![1, 2])],
            inputs: vec![(account("b"), vec![1, 2])],
        },
        reserve: 0,
    };
    let contract = Paystream::from_parts(&parts);
    assert_eq!(contract.current_balance(account("b"), 10), 40 + 30);
    assert_eq!(contract.current_balance(account("a"), 10), 100 - 30);
}

#[test]
fn value_is_conserved_across_operations() {
    let mut contract = funded(&[("a", 1_000_000), ("b", 2_000_000), ("c", 0)]);
    contract.update_reserve(1, &account("owner")).unwrap();
    let names = ["a", "b", "c"];
    let total = |contract: &Paystream, now: u64| -> u128 {
        names.iter().map(|name| contract.current_balance(account(name), now)).sum()
    };
    let persisted = |contract: &Paystream| -> u128 {
        names.iter().map(|name| contract.persisted_balance(&account(name))).sum()
    };
    assert_eq!(total(&contract, 0), 3_000_000);

    contract.create_subscription(account("a"), account("b"), 10, &account("a"), 5).unwrap();
    assert_eq!(total(&contract, 5), 3_000_000);
    contract.create_subscription(account("b"), account("c"), 7, &account("b"), 20).unwrap();
    assert_eq!(total(&contract, 20), 3_000_000);
    assert_eq!(total(&contract, 1000), 3_000_000);

    let before: Vec<u128> = names.iter().map(|n| contract.current_balance(account(n), 50)).collect();
    contract.update_subscription(1, 3, 50).unwrap();
    let after: Vec<u128> = names.iter().map(|n| contract.current_balance(account(n), 50)).collect();
    assert_eq!(before, after);
    assert_eq!(persisted(&contract), 3_000_000);

    let before: Vec<u128> = names.iter().map(|n| contract.current_balance(account(n), 90)).collect();
    contract.remove_subscription(2, &account("c"), 90).unwrap();
    let after: Vec<u128> = names.iter().map(|n| contract.current_balance(account(n), 90)).collect();
    assert_eq!(before, after);
    assert_eq!(persisted(&contract), 3_000_000);
    assert_eq!(total(&contract, 5000), 3_000_000);

    // A deposit is where value comes in.
    contract.wrap_callback(account("c"), 11, true);
    assert_eq!(persisted(&contract), 3_000_011);
    assert_eq!(total(&contract, 5000), 3_000_011);
}

#[test]
fn state_survives_being_taken_apart() {
    let mut contract = funded(&[("a", 1_000_000_000), ("b", 17)]);
    contract
        .create_subscription(account("a"), account("b"), 100, &account("a"), 10)
        .unwrap();
    contract.set_treasurer(account("t"), &account("owner")).unwrap();
    let parts = contract.to_parts();
    assert_eq!(parts.owner, "owner");
    assert_eq!(parts.treasurer, "t");
    assert_eq!(parts.wrap_contract, "wrap.testnet");
    assert_eq!(parts.reserve, 14_400);
    assert_eq!(parts.balances, vec![(account("a"), 1_000_000_000), (account("b"), 17)]);
    let again = Paystream::from_parts(&parts);
    assert_eq!(again.to_parts(), parts);
    assert_eq!(again.current_balance(account("b"), 50), 4017);
    assert_eq!(again.get_subscription(1), contract.get_subscription(1));
}

#[test]
fn contract_reports_whether_its_ledger_is_consistent() {
    let mut contract = funded(&[("a", 1_000_000_000)]);
    assert_eq!(contract.check(), Ok(()));
    contract
        .create_subscription(account("a"), account("b"), 100, &account("a"), 10)
        .unwrap();
    assert_eq!(contract.check(), Ok(()));
    let mut parts = contract.to_parts();
    parts.subscriptions.inputs.clear();
    assert_eq!(
        Paystream::from_parts(&parts).check(),
        Err(SubscriptionError::InternalError)
    );
}
