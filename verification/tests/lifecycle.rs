use paystream::Paystream;
use paystream::SubscriptionError;

fn account(name: &str) -> String {
    name.to_string()
}

fn contract() -> Paystream {
    Paystream::new(account("alice"), account("wrap.testnet"))
}

#[test]
fn test_new() {
    let contract = contract();
    assert_eq!(contract.current_balance(account("bob"), 0), 0);
    assert_eq!(contract.owner(), &account("alice"));
}

#[test]
fn test_signer_is_owner() {
    assert_eq!(Paystream::required(&account("alice"), &account("alice")), Ok(()));
    assert_eq!(
        Paystream::required(&account("bob"), &account("alice")),
        Err(SubscriptionError::PermissionDenied)
    );
}

#[test]
fn test_should_be_new_owner() {
    let mut paystream = contract();
    assert_eq!(paystream.set_owner(account("bob"), &account("alice")), Ok(()));
    assert_eq!(paystream.owner(), &account("bob"));
    assert_eq!(
        paystream.set_owner(account("bob"), &account("bob")),
        Err(SubscriptionError::OwnerUnchanged)
    );
    assert_eq!(paystream.owner(), &account("bob"));
}

#[test]
fn test_should_be_new_treasurer() {
    let mut paystream = contract();
    assert_eq!(paystream.set_treasurer(account("bob"), &account("alice")), Ok(()));
    assert_eq!(paystream.treasurer(), &account("bob"));
    assert_eq!(
        paystream.set_treasurer(account("bob"), &account("alice")),
        Err(SubscriptionError::TreasurerUnchanged)
    );
}

#[test]
fn test_livecycle_of_subscription() {
    let block_timestamp = 10;
    let flow = 100;
    let mut contract = contract();
    contract.wrap_callback(account("bob"), 1_000_000_000, true);
    let subscription = contract
        .create_subscription(account("bob"), account("charlie"), flow, &account("bob"), block_timestamp)
        .unwrap();
    assert_eq!(subscription.source(), &account("bob"));
    assert_eq!(subscription.destination(), &account("charlie"));
    assert_eq!(subscription.flow(), flow);
    assert_eq!(subscription.timestamp(), block_timestamp);

    let subscriptions = contract.subscriptions_by_account(&account("bob"));
    let new_subscription = contract.get_subscription(subscriptions[0]).unwrap();
    assert_eq!(
        new_subscription, subscription,
        "what is created isn't what is stored"
    );

    let updated_subscription = contract
        .update_subscription(subscriptions[0], 200, block_timestamp)
        .unwrap();
    assert_eq!(
        updated_subscription.flow(),
        200,
        "rate should have been updated"
    );

    contract
        .remove_subscription(subscriptions[0], &account("bob"), block_timestamp)
        .unwrap();
    assert_eq!(
        contract.get_subscription(subscriptions[0]),
        Err(SubscriptionError::NotPresent(subscriptions[0]))
    );
}

#[test]
fn test_should_fail_source_must_not_be_destination() {
    let mut contract = contract();
    contract.wrap_callback(account("bob"), 1_000_000_000, true);
    assert_eq!(
        contract.create_subscription(account("bob"), account("bob"), 100, &account("bob"), 0),
        Err(SubscriptionError::SourceIsDestination)
    );
}

#[test]
fn test_rate_needs_to_be_greater_than_zero() {
    let mut contract = contract();
    assert_eq!(
        contract.create_subscription(account("bob"), account("charlie"), 0, &account("bob"), 0),
        Err(SubscriptionError::InvalidFlow(0))
    );
}
