use paystream::LedgerParts;
use paystream::Subscription;
use paystream::SubscriptionError;
use paystream::Subscriptions;

fn account(name: &str) -> String {
    name.to_string()
}

#[test]
fn created_is_found_unchanged() {
    let mut ledger = Subscriptions::new();
    let created = ledger.create(account("a"), account("b"), 7, 100).unwrap();
    assert_eq!(created, Subscription::new(1, account("a"), account("b"), 7, 100));
    assert_eq!(ledger.get(1), Some(created.clone()));
    assert_eq!(ledger.try_get(1), Ok(created));
    assert!(ledger.is_present(1));
    assert_eq!(ledger.subscription_index(), 1);
}

#[test]
fn absent_id_is_not_found() {
    let ledger = Subscriptions::new();
    assert_eq!(ledger.get(1), None);
    assert_eq!(ledger.try_get(1), Err(SubscriptionError::NotPresent(1)));
    assert!(!ledger.is_present(1));
    assert_eq!(ledger.accrual_of(1, 50), None);
}

#[test]
fn zero_flow_is_rejected_and_changes_nothing() {
    let mut ledger = Subscriptions::new();
    ledger.create(account("a"), account("b"), 7, 100).unwrap();
    let before = ledger.to_parts();
    assert_eq!(
        ledger.create(account("a"), account("b"), 0, 100),
        Err(SubscriptionError::InvalidFlow(0))
    );
    assert_eq!(ledger.to_parts(), before);
}

#[test]
fn same_accounts_are_rejected_and_change_nothing() {
    let mut ledger = Subscriptions::new();
    ledger.create(account("a"), account("b"), 7, 100).unwrap();
    let before = ledger.to_parts();
    assert_eq!(
        ledger.create(account("a"), account("a"), 5, 100),
        Err(SubscriptionError::SourceIsDestination)
    );
    assert_eq!(ledger.to_parts(), before);
}

#[test]
fn zero_flow_is_reported_before_same_accounts() {
    let mut ledger = Subscriptions::new();
    assert_eq!(
        ledger.create(account("a"), account("a"), 0, 100),
        Err(SubscriptionError::InvalidFlow(0))
    );
}

#[test]
fn ids_count_up_from_one() {
    let mut ledger = Subscriptions::new();
    assert_eq!(ledger.create(account("a"), account("b"), 1, 0).unwrap().id(), 1);
    assert_eq!(ledger.create(account("a"), account("c"), 1, 0).unwrap().id(), 2);
    assert_eq!(ledger.create(account("b"), account("a"), 1, 0).unwrap().id(), 3);
    assert_eq!(ledger.subscription_index(), 3);
}

#[test]
fn id_wraps_to_zero_after_the_last() {
    let parts = LedgerParts {
        subscription_index: u64::MAX,
        subscriptions: Vec::new(),
        outputs: Vec::new(),
        inputs: Vec::new(),
    };
    let mut ledger = Subscriptions::from_parts(&parts);
    let created = ledger.create(account("a"), account("b"), 1, 0).unwrap();
    assert_eq!(created.id(), 0);
    assert_eq!(ledger.subscription_index(), 0);
    assert_eq!(ledger.create(account("a"), account("b"), 1, 0).unwrap().id(), 1);
}

#[test]
fn index_lists_inputs_under_destination_and_outputs_under_source() {
    let mut ledger = Subscriptions::new();
    ledger.create(account("a"), account("b"), 1, 0).unwrap();
    ledger.create(account("a"), account("c"), 1, 0).unwrap();
    ledger.create(account("b"), account("a"), 1, 0).unwrap();
    assert_eq!(ledger.outputs_of(&account("a")), vec![1, 2]);
    assert_eq!(ledger.inputs_of(&account("a")), vec![3]);
    assert_eq!(ledger.inputs_of(&account("b")), vec![1]);
    assert_eq!(ledger.outputs_of(&account("b")), vec![3]);
    assert_eq!(ledger.inputs_of(&account("c")), vec![2]);
    assert_eq!(ledger.outputs_of(&account("c")), Vec::<u64>::new());
    // Inputs first, then outputs.
    assert_eq!(ledger.subscriptions_for_account(account("a")), vec![3, 1, 2]);
    assert_eq!(ledger.subscriptions_for_account(account("b")), vec![1, 3]);
    assert_eq!(ledger.subscriptions_for_account(account("nobody")), Vec::<u64>::new());
}

#[test]
fn remove_strikes_the_id_from_both_lists_and_keeps_the_rest_in_order() {
    let mut ledger = Subscriptions::new();
    ledger.create(account("a"), account("b"), 1, 0).unwrap();
    let second = ledger.create(account("a"), account("b"), 2, 5).unwrap();
    ledger.create(account("a"), account("b"), 3, 0).unwrap();
    ledger.create(account("c"), account("b"), 4, 0).unwrap();

    assert_eq!(ledger.try_remove(2), Ok(second));

    assert_eq!(ledger.try_get(2), Err(SubscriptionError::NotPresent(2)));
    assert_eq!(ledger.outputs_of(&account("a")), vec![1, 3]);
    assert_eq!(ledger.inputs_of(&account("b")), vec![1, 3, 4]);
    assert_eq!(ledger.outputs_of(&account("c")), vec![4]);
    assert!(ledger.is_present(1) && ledger.is_present(3) && ledger.is_present(4));
    // The id counter does not go back.
    assert_eq!(ledger.subscription_index(), 4);
    assert_eq!(ledger.create(account("b"), account("a"), 1, 0).unwrap().id(), 5);
}

#[test]
fn remove_of_absent_id_fails_and_changes_nothing() {
    let mut ledger = Subscriptions::new();
    ledger.create(account("a"), account("b"), 1, 0).unwrap();
    let before = ledger.to_parts();
    assert_eq!(ledger.try_remove(9), Err(SubscriptionError::NotPresent(9)));
    assert_eq!(ledger.to_parts(), before);
    // A second removal of the same id fails as well.
    ledger.try_remove(1).unwrap();
    assert_eq!(ledger.try_remove(1), Err(SubscriptionError::NotPresent(1)));
}

#[test]
fn list_has_no_duplicates_and_counts_the_active_subscriptions() {
    let mut ledger = Subscriptions::new();
    ledger.create(account("a"), account("b"), 1, 0).unwrap();
    ledger.create(account("b"), account("a"), 1, 0).unwrap();
    ledger.create(account("a"), account("c"), 1, 0).unwrap();
    ledger.create(account("c"), account("d"), 1, 0).unwrap();
    ledger.try_remove(3).unwrap();
    ledger.create(account("d"), account("a"), 1, 0).unwrap();

    let listed = ledger.subscriptions_for_account(account("a"));
    let mut sorted = listed.clone();
    sorted.sort();
    sorted.dedup();
    assert_eq!(sorted.len(), listed.len());

    let mut touching = 0;
    for id in 0..=ledger.subscription_index() {
        if let Some(subscription) = ledger.get(id) {
            if subscription.source() == "a" || subscription.destination() == "a" {
                touching += 1;
            }
        }
    }
    assert_eq!(listed.len(), touching);
    assert_eq!(listed, vec![2, 5, 1]);
}

#[test]
fn indexes_can_be_rebuilt_from_the_records() {
    let mut ledger = Subscriptions::new();
    ledger.create(account("a"), account("b"), 1, 0).unwrap();
    ledger.create(account("b"), account("c"), 1, 0).unwrap();
    ledger.create(account("a"), account("c"), 1, 0).unwrap();
    ledger.try_remove(1).unwrap();
    ledger.create(account("c"), account("a"), 1, 0).unwrap();

    let parts = ledger.to_parts();
    for name in ["a", "b", "c"] {
        let mut inputs = Vec::new();
        let mut outputs = Vec::new();
        for (id, subscription) in parts.subscriptions.iter() {
            assert_eq!(*id, subscription.id());
            if subscription.destination() == name {
                inputs.push(*id);
            }
            if subscription.source() == name {
                outputs.push(*id);
            }
        }
        assert_eq!(ledger.inputs_of(&account(name)), inputs);
        assert_eq!(ledger.outputs_of(&account(name)), outputs);
    }
}

#[test]
fn accrual_is_elapsed_seconds_times_flow() {
    let mut ledger = Subscriptions::new();
    ledger.create(account("a"), account("b"), 7, 100).unwrap();
    assert_eq!(ledger.accrual_of(1, 100), Some(0));
    assert_eq!(ledger.accrual_of(1, 101), Some(7));
    assert_eq!(ledger.accrual_of(1, 160), Some(420));
    // A clock that reads earlier than the last settlement gives nothing.
    assert_eq!(ledger.accrual_of(1, 99), Some(0));
}

#[test]
fn ledger_survives_being_taken_apart() {
    let mut ledger = Subscriptions::new();
    ledger.create(account("a"), account("b"), 1, 0).unwrap();
    ledger.create(account("b"), account("c"), 2, 3).unwrap();
    ledger.try_remove(1).unwrap();
    let parts = ledger.to_parts();
    let again = Subscriptions::from_parts(&parts);
    assert_eq!(again.to_parts(), parts);
    assert_eq!(again.try_get(2), ledger.try_get(2));
    assert_eq!(again.subscription_index(), 2);
    assert_eq!(again.inputs_of(&account("c")), vec![2]);
}

#[test]
fn last_entry_of_a_repeated_key_counts() {
    let parts = LedgerParts {
        subscription_index: 5,
        subscriptions: vec![
            (1, Subscription::new(1, account("a"), account("b"), 1, 0)),
            (1, Subscription::new(1, account("a"), account("b"), 9, 4)),
        ],
        outputs: vec![(account("a"), vec![7]), (account("a"), vec![1])],
        inputs: vec![(account("b"), vec![1])],
    };
    let ledger = Subscriptions::from_parts(&parts);
    assert_eq!(ledger.get(1).unwrap().flow(), 9);
    assert_eq!(ledger.outputs_of(&account("a")), vec![1]);
}

#[test]
fn ledger_built_by_its_operations_is_consistent() {
    let mut ledger = Subscriptions::new();
    assert_eq!(ledger.check(), Ok(()));
    ledger.create(account("a"), account("b"), 1, 0).unwrap();
    ledger.create(account("b"), account("a"), 2, 0).unwrap();
    ledger.create(account("a"), account("c"), 3, 0).unwrap();
    assert_eq!(ledger.check(), Ok(()));
    ledger.try_remove(2).unwrap();
    assert_eq!(ledger.check(), Ok(()));
    assert_eq!(Subscriptions::from_parts(&ledger.to_parts()).check(), Ok(()));
}

fn one_record(outputs: Vec<(String, Vec<u64>)>, inputs: Vec<(String, Vec<u64>)>) -> LedgerParts {
    LedgerParts {
        subscription_index: 1,
        subscriptions: vec![(1, Subscription::new(1, account("a"), account("b"), 5, 0))],
        outputs,
        inputs,
    }
}

#[test]
fn inconsistent_ledgers_are_detected() {
    let sound = one_record(vec![(account("a"), vec![1])], vec![(account("b"), vec![1])]);
    assert_eq!(Subscriptions::from_parts(&sound).check(), Ok(()));

    // The id is missing from the inputs of the destination.
    let unlisted = one_record(vec![(account("a"), vec![1])], vec![]);
    assert_eq!(
        Subscriptions::from_parts(&unlisted).check(),
        Err(SubscriptionError::InternalError)
    );
    // The id is filed under the wrong account.
    let misfiled = one_record(vec![(account("b"), vec![1])], vec![(account("a"), vec![1])]);
    assert_eq!(
        Subscriptions::from_parts(&misfiled).check(),
        Err(SubscriptionError::InternalError)
    );
    // The id is listed twice.
    let doubled = one_record(vec![(account("a"), vec![1, 1])], vec![(account("b"), vec![1])]);
    assert_eq!(
        Subscriptions::from_parts(&doubled).check(),
        Err(SubscriptionError::InternalError)
    );
    // A list names an id without a record.
    let stale = one_record(vec![(account("a"), vec![1, 2])], vec![(account("b"), vec![1])]);
    assert_eq!(
        Subscriptions::from_parts(&stale).check(),
        Err(SubscriptionError::InternalError)
    );
    // An account lists an id that belongs to another account as well.
    let shared = one_record(
        vec![(account("a"), vec![1]), (account("c"), vec![1])],
        vec![(account("b"), vec![1])],
    );
    assert_eq!(
        Subscriptions::from_parts(&shared).check(),
        Err(SubscriptionError::InternalError)
    );
}

#[test]
fn invalid_records_are_detected() {
    let mut parts = one_record(vec![(account("a"), vec![1])], vec![(account("b"), vec![1])]);
    parts.subscriptions = vec![(1, Subscription::new(1, account("a"), account("b"), 0, 0))];
    assert_eq!(
        Subscriptions::from_parts(&parts).check(),
        Err(SubscriptionError::InternalError)
    );
    parts.subscriptions = vec![(1, Subscription::new(2, account("a"), account("b"), 5, 0))];
    assert_eq!(
        Subscriptions::from_parts(&parts).check(),
        Err(SubscriptionError::InternalError)
    );
    let to_itself = LedgerParts {
        subscription_index: 1,
        subscriptions: vec![(1, Subscription::new(1, account("a"), account("a"), 5, 0))],
        outputs: vec![(account("a"), vec![1])],
        inputs: vec![(account("a"), vec![1])],
    };
    assert_eq!(
        Subscriptions::from_parts(&to_itself).check(),
        Err(SubscriptionError::InternalError)
    );
}

#[test]
fn an_id_that_comes_round_to_one_in_use_breaks_the_agreement() {
    let parts = LedgerParts {
        subscription_index: 0,
        subscriptions: vec![(1, Subscription::new(1, account("a"), account("b"), 5, 0))],
        outputs: vec![(account("a"), vec![1])],
        inputs: vec![(account("b"), vec![1])],
    };
    let mut ledger = Subscriptions::from_parts(&parts);
    assert_eq!(ledger.check(), Ok(()));
    let created = ledger.create(account("a"), account("b"), 9, 7).unwrap();
    assert_eq!(created.id(), 1);
    // The new record took the place of the old one, and the id is listed twice.
    assert_eq!(ledger.get(1), Some(created));
    assert_eq!(ledger.outputs_of(&account("a")), vec![1, 1]);
    assert_eq!(ledger.check(), Err(SubscriptionError::InternalError));
}
