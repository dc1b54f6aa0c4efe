//! Why an operation on the ledger was rejected.

use vstd::prelude::*;
use vstd::string::StringExecFns;

verus! {

/// The ways an operation can be turned down. A rejected operation changes
/// nothing.
#[derive(Clone, Copy, Debug, PartialEq, Eq, Structural)]
pub enum SubscriptionError {
    /// No active subscription has this id.
    NotPresent(u64),
    /// The flow is zero, or it equals the flow the subscription already has.
    InvalidFlow(u128),
    /// A subscription must pay from one account to a different one.
    SourceIsDestination,
    /// The source's persisted balance does not cover the amount to move.
    InsufficientBalance,
    /// The source's persisted balance does not exceed the reserve that the
    /// new stream calls for.
    InsufficientReserve,
    /// The caller is not the account that may perform the operation.
    PermissionDenied,
    /// The account to make owner is the owner already.
    OwnerUnchanged,
    /// The account to make treasurer is the treasurer already.
    TreasurerUnchanged,
    /// The ledger and its indexes disagree.
    InternalError,
}

/// The character for a digit below ten.
pub open spec fn digit_char(digit: nat) -> char {
    if digit == 0 {
        '0'
    } else if digit == 1 {
        '1'
    } else if digit == 2 {
        '2'
    } else if digit == 3 {
        '3'
    } else if digit == 4 {
        '4'
    } else if digit == 5 {
        '5'
    } else if digit == 6 {
        '6'
    } else if digit == 7 {
        '7'
    } else if digit == 8 {
        '8'
    } else {
        '9'
    }
}

/// A number in decimal, without leading zeros.
pub open spec fn decimal(number: nat) -> Seq<char>
    decreases number,
{
    if number < 10 {
        seq![digit_char(number)]
    } else {
        decimal(number / 10).push(digit_char(number % 10))
    }
}

fn digit_text(value: u8) -> (text: &'static str)
    requires
        value < 10,
    ensures
        text@ == seq![digit_char(value as nat)],
{
    proof {
        reveal_strlit("0");
        reveal_strlit("1");
        reveal_strlit("2");
        reveal_strlit("3");
        reveal_strlit("4");
        reveal_strlit("5");
        reveal_strlit("6");
        reveal_strlit("7");
        reveal_strlit("8");
        reveal_strlit("9");
    }
    let text = match value {
        0 => "0",
        1 => "1",
        2 => "2",
        3 => "3",
        4 => "4",
        5 => "5",
        6 => "6",
        7 => "7",
        8 => "8",
        _ => "9",
    };
    assert(text@ =~= seq![digit_char(value as nat)]);
    text
}

/// Writes a number in decimal.
pub fn to_decimal(number: u128) -> (text: String)
    ensures
        text@ == decimal(number as nat),
    decreases number,
{
    if number < 10 {
        String::from_str(digit_text(number as u8))
    } else {
        let mut text = to_decimal(number / 10);
        text.append(digit_text((number % 10) as u8));
        assert(text@ =~= decimal(number as nat));
        text
    }
}

impl SubscriptionError {
    /// What [`SubscriptionError::message`] says.
    pub open spec fn message_text(self) -> Seq<char> {
        match self {
            SubscriptionError::NotPresent(subscription_index) => "Subscription ["@ + decimal(
                subscription_index as nat,
            ) + "] not present"@,
            SubscriptionError::InvalidFlow(flow) => "InvalidFlow "@ + decimal(flow as nat),
            SubscriptionError::SourceIsDestination => "source must not be destination"@,
            SubscriptionError::InsufficientBalance => "insufficient balance"@,
            SubscriptionError::InsufficientReserve => "sufficient reserve is required"@,
            SubscriptionError::PermissionDenied => "Permission required"@,
            SubscriptionError::OwnerUnchanged => "should be new owner"@,
            SubscriptionError::TreasurerUnchanged => "should be new treasurer"@,
            SubscriptionError::InternalError => "An internal error has occurred"@,
        }
    }

    /// The error in words.
    pub fn message(&self) -> (text: String)
        ensures
            text@ == self.message_text(),
    {
        match self {
            SubscriptionError::NotPresent(subscription_index) => {
                let mut text = String::from_str("Subscription [");
                text.append(to_decimal(*subscription_index as u128).as_str());
                text.append("] not present");
                text
            },
            SubscriptionError::InvalidFlow(flow) => {
                let mut text = String::from_str("InvalidFlow ");
                text.append(to_decimal(*flow).as_str());
                text
            },
            SubscriptionError::SourceIsDestination => String::from_str(
                "source must not be destination",
            ),
            SubscriptionError::InsufficientBalance => String::from_str("insufficient balance"),
            SubscriptionError::InsufficientReserve => String::from_str(
                "sufficient reserve is required",
            ),
            SubscriptionError::PermissionDenied => String::from_str("Permission required"),
            SubscriptionError::OwnerUnchanged => String::from_str("should be new owner"),
            SubscriptionError::TreasurerUnchanged => String::from_str("should be new treasurer"),
            SubscriptionError::InternalError => String::from_str("An internal error has occurred"),
        }
    }
}

} // verus!
