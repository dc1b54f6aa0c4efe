use paystream::error::to_decimal;
use paystream::Paystream;
use paystream::SubscriptionError;
use paystream::WrapRequest;

#[test]
fn messages() {
    assert_eq!(
        SubscriptionError::NotPresent(1).message(),
        "Subscription [1] not present"
    );
    assert_eq!(
        SubscriptionError::NotPresent(u64::MAX).message(),
        "Subscription [18446744073709551615] not present"
    );
    assert_eq!(SubscriptionError::InvalidFlow(0).message(), "InvalidFlow 0");
    assert_eq!(
        SubscriptionError::InvalidFlow(u128::MAX).message(),
        "InvalidFlow 340282366920938463463374607431768211455"
    );
    assert_eq!(
        SubscriptionError::InternalError.message(),
        "An internal error has occurred"
    );
    assert_eq!(
        SubscriptionError::SourceIsDestination.message(),
        "source must not be destination"
    );
    assert_eq!(
        SubscriptionError::InsufficientBalance.message(),
        "insufficient balance"
    );
    assert_eq!(
        SubscriptionError::InsufficientReserve.message(),
        "sufficient reserve is required"
    );
    assert_eq!(
        SubscriptionError::PermissionDenied.message(),
        "Permission required"
    );
    assert_eq!(SubscriptionError::OwnerUnchanged.message(), "should be new owner");
    assert_eq!(
        SubscriptionError::TreasurerUnchanged.message(),
        "should be new treasurer"
    );
}

#[test]
fn decimal_digits() {
    assert_eq!(to_decimal(0), "0");
    assert_eq!(to_decimal(9), "9");
    assert_eq!(to_decimal(10), "10");
    assert_eq!(to_decimal(1234567890), "1234567890");
    assert_eq!(to_decimal(100200), "100200");
    for number in [7u128, 42, 999, 1000, 65536, u64::MAX as u128 + 1] {
        assert_eq!(to_decimal(number), format!("{}", number));
    }
}

#[test]
fn owner_and_treasurer_are_set_by_the_owner_only() {
    let mut contract = Paystream::new("alice".to_string(), "wrap.testnet".to_string());
    assert_eq!(contract.owner(), "alice");
    assert_eq!(contract.treasurer(), "alice");
    assert_eq!(
        contract.set_owner("bob".to_string(), &"bob".to_string()),
        Err(SubscriptionError::PermissionDenied)
    );
    assert_eq!(
        contract.set_treasurer("bob".to_string(), &"bob".to_string()),
        Err(SubscriptionError::PermissionDenied)
    );
    assert_eq!(
        contract.set_owner("alice".to_string(), &"alice".to_string()),
        Err(SubscriptionError::OwnerUnchanged)
    );
    assert_eq!(
        contract.set_treasurer("alice".to_string(), &"alice".to_string()),
        Err(SubscriptionError::TreasurerUnchanged)
    );
    assert_eq!(contract.owner(), "alice");
    assert_eq!(contract.treasurer(), "alice");
    assert_eq!(contract.set_treasurer("carol".to_string(), &"alice".to_string()), Ok(()));
    assert_eq!(contract.set_owner("bob".to_string(), &"alice".to_string()), Ok(()));
    assert_eq!(contract.owner(), "bob");
    assert_eq!(contract.treasurer(), "carol");
    // The treasurer is still set by the owner, who is bob now.
    assert_eq!(
        contract.set_treasurer("dave".to_string(), &"alice".to_string()),
        Err(SubscriptionError::PermissionDenied)
    );
    assert_eq!(contract.set_treasurer("dave".to_string(), &"bob".to_string()), Ok(()));
}

#[test]
fn wrap_request_carries_the_deposit_both_ways() {
    let contract = Paystream::new("alice".to_string(), "other.testnet".to_string());
    assert_eq!(
        contract.wrap_near("bob".to_string(), 77),
        WrapRequest {
            wrap_contract: "wrap.testnet".to_string(),
            deposit: 77,
            gas: 5_000_000_000_000,
            account_id: "bob".to_string(),
            amount: 77,
            callback_gas: 5_000_000_000_000,
        }
    );
}
