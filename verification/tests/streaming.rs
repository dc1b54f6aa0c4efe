use paystream::Paystream;
use paystream::SubscriptionError;

fn account(name: &str) -> String {
    name.to_string()
}

/// A contract in which A holds 1_000_000_000 and has streamed 100 per
/// second to B since t=10.
fn streaming() -> Paystream {
    let mut contract = Paystream::new(account("owner"), account("wrap.testnet"));
    contract.wrap_callback(account("a"), 1_000_000_000, true);
    contract
        .create_subscription(account("a"), account("b"), 100, &account("a"), 10)
        .unwrap();
    contract
}

#[test]
fn create_gives_first_id_and_creation_time() {
    let mut contract = Paystream::new(account("owner"), account("wrap.testnet"));
    contract.wrap_callback(account("a"), 1_000_000_000, true);
    let subscription = contract
        .create_subscription(account("a"), account("b"), 100, &account("a"), 10)
        .unwrap();
    assert_eq!(subscription.id(), 1);
    assert_eq!(subscription.source(), "a");
    assert_eq!(subscription.destination(), "b");
    assert_eq!(subscription.flow(), 100);
    assert_eq!(subscription.timestamp(), 10);
    assert_eq!(contract.get_subscription(1), Ok(subscription));
}

#[test]
fn balance_at_creation_is_persisted_balance() {
    let contract = streaming();
    assert_eq!(contract.current_balance(account("a"), 10), 1_000_000_000);
    assert_eq!(contract.current_balance(account("b"), 10), 0);
    assert_eq!(contract.persisted_balance(&account("a")), 1_000_000_000);
    assert_eq!(contract.persisted_balance(&account("b")), 0);
}

#[test]
fn balance_at_fifty_includes_four_thousand() {
    let contract = streaming();
    assert_eq!(contract.current_balance(account("b"), 50), 4000);
    assert_eq!(contract.current_balance(account("a"), 50), 1_000_000_000 - 4000);
    // Nothing was settled by asking.
    assert_eq!(contract.persisted_balance(&account("b")), 0);
    assert_eq!(contract.persisted_balance(&account("a")), 1_000_000_000);
    assert_eq!(contract.get_subscription(1).unwrap().timestamp(), 10);
    // Asking again gives the same.
    assert_eq!(contract.current_balance(account("b"), 50), 4000);
}

#[test]
fn update_at_fifty_transfers_four_thousand() {
    let mut contract = streaming();
    let updated = contract.update_subscription(1, 200, 50).unwrap();
    assert_eq!(updated.id(), 1);
    assert_eq!(updated.source(), "a");
    assert_eq!(updated.destination(), "b");
    assert_eq!(updated.flow(), 200);
    assert_eq!(updated.timestamp(), 50);
    assert_eq!(contract.persisted_balance(&account("a")), 1_000_000_000 - 4000);
    assert_eq!(contract.persisted_balance(&account("b")), 4000);
    assert_eq!(contract.get_subscription(1), Ok(updated));
    // The projection at the instant of the update is what it was.
    assert_eq!(contract.current_balance(account("b"), 50), 4000);
    assert_eq!(contract.current_balance(account("a"), 50), 1_000_000_000 - 4000);
}

#[test]
fn remove_at_eighty_settles_six_thousand() {
    let mut contract = streaming();
    contract.update_subscription(1, 200, 50).unwrap();
    let removed = contract.remove_subscription(1, &account("a"), 80).unwrap();
    assert_eq!(removed.id(), 1);
    assert_eq!(removed.flow(), 200);
    assert_eq!(removed.timestamp(), 80);
    assert_eq!(contract.persisted_balance(&account("a")), 1_000_000_000 - 4000 - 6000);
    assert_eq!(contract.persisted_balance(&account("b")), 4000 + 6000);
    assert_eq!(
        contract.get_subscription(1),
        Err(SubscriptionError::NotPresent(1))
    );
    assert_eq!(contract.subscriptions_by_account(&account("a")), Vec::<u64>::new());
    assert_eq!(contract.subscriptions_by_account(&account("b")), Vec::<u64>::new());
    // Once removed, the stream accrues no more.
    assert_eq!(contract.current_balance(account("b"), 1000), 10_000);
}

#[test]
fn create_to_oneself_is_rejected_and_changes_nothing() {
    let mut contract = Paystream::new(account("owner"), account("wrap.testnet"));
    contract.wrap_callback(account("a"), 1_000_000_000, true);
    let before = contract.to_parts();
    assert_eq!(
        contract.create_subscription(account("a"), account("a"), 100, &account("a"), 10),
        Err(SubscriptionError::SourceIsDestination)
    );
    assert_eq!(contract.to_parts(), before);
    assert_eq!(contract.to_parts().subscriptions.subscription_index, 0);
    assert_eq!(contract.subscriptions_by_account(&account("a")), Vec::<u64>::new());
    // The next subscription still gets the first id.
    let next = contract
        .create_subscription(account("a"), account("b"), 100, &account("a"), 10)
        .unwrap();
    assert_eq!(next.id(), 1);
}
