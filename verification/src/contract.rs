//! The contract state: balances, the ledger of subscriptions, and who may
//! change what.

use vstd::prelude::*;

use crate::accrual::capped_mul;
use crate::accrual::times_capped;
use crate::error::SubscriptionError;
use crate::keyed_map::assoc;
use crate::keyed_map::KeyedMap;
use crate::ledger::LedgerParts;
use crate::ledger::Subscriptions;
use crate::ledger_view::LedgerView;
use crate::projection::balance_of;
use crate::projection::clamped;
use crate::projection::credited;
use crate::projection::net;
use crate::projection::projected;
use crate::projection::sum_over;
use crate::projection::total_accrued;
use crate::projection::transferred;
use crate::subscription::Subscription;

verus! {

/// The number of seconds a new stream must be covered for: four hours.
pub const DEFAULT_RESERVE: u64 = 14400;

/// The contract that wraps the base token.
pub const WRAP_CONTRACT: &'static str = "wrap.testnet";

/// The gas handed to the deposit and to the call that reports its outcome.
pub const WRAP_GAS: u64 = 5_000_000_000_000;

/// A deposit to make into the wrap contract, and what to report back once
/// its outcome is known. The host makes the call and hands the outcome to
/// [`Paystream::wrap_callback`] together with `account_id` and `amount`.
#[derive(Debug, PartialEq, Eq)]
pub struct WrapRequest {
    /// The contract to call.
    pub wrap_contract: String,
    /// The amount to attach to the call.
    pub deposit: u128,
    /// The gas for the call.
    pub gas: u64,
    /// The account to credit when the deposit went through.
    pub account_id: String,
    /// The amount to credit.
    pub amount: u128,
    /// The gas for the report.
    pub callback_gas: u64,
}

/// The state as plain values.
#[verifier::ext_equal]
pub struct PaystreamView {
    /// The contract that wraps the base token.
    pub wrap_contract: Seq<char>,
    /// The persisted balance of each account that has one.
    pub balances: Map<Seq<char>, u128>,
    /// The account that may change owner, treasurer and reserve.
    pub owner: Seq<char>,
    /// The account that controls the treasury.
    pub treasurer: Seq<char>,
    /// The subscriptions and their indexes.
    pub ledger: LedgerView,
    /// The number of seconds a new stream must be covered for.
    pub reserve: u64,
}

impl PaystreamView {
    /// The persisted balance of `account`.
    pub open spec fn balance_of(self, account: Seq<char>) -> u128 {
        balance_of(self.balances, account)
    }

    /// The balance of `account` at `now` with its streams taken into
    /// account.
    pub open spec fn projected(self, account: Seq<char>, now: u64) -> u128 {
        projected(
            self.ledger.records,
            self.ledger.inputs_of(account),
            self.ledger.outputs_of(account),
            self.balance_of(account),
            now,
        )
    }

    /// The balance of `account` at `now` with its streams taken into
    /// account and without the limits of `u128`.
    pub open spec fn net(self, account: Seq<char>, now: u64) -> int {
        net(
            self.ledger.records,
            self.ledger.inputs_of(account),
            self.ledger.outputs_of(account),
            self.balance_of(account),
            now,
        )
    }

    /// The persisted balance as a function of the account.
    pub open spec fn persisted(self) -> spec_fn(Seq<char>) -> int {
        |account: Seq<char>| self.balance_of(account) as int
    }

    /// [`PaystreamView::net`] at `now` as a function of the account.
    pub open spec fn nets(self, now: u64) -> spec_fn(Seq<char>) -> int {
        |account: Seq<char>| self.net(account, now)
    }

    /// What the accounts of a list hold together in persisted balance.
    pub open spec fn total_persisted(self, accounts: Seq<Seq<char>>) -> int {
        sum_over(accounts, self.persisted())
    }

    /// What the accounts of a list hold together at `now` with their
    /// streams taken into account.
    pub open spec fn total_net(self, accounts: Seq<Seq<char>>, now: u64) -> int {
        sum_over(accounts, self.nets(now))
    }

    /// Whether `account` holds more than a stream of `rate` units per
    /// second takes during the reserve window.
    pub open spec fn covers(self, account: Seq<char>, rate: u128) -> bool {
        self.balance_of(account) > capped_mul(rate, self.reserve as u128)
    }
}

impl PaystreamView {
    /// Why `caller` may not create a subscription from `source` to
    /// `destination` at `rate`, if anything stands against it. The flow is
    /// looked at first, then the caller, then the two accounts, then the
    /// reserve.
    pub open spec fn create_error(
        self,
        source: Seq<char>,
        destination: Seq<char>,
        rate: u128,
        caller: Seq<char>,
    ) -> Option<SubscriptionError> {
        if rate == 0 {
            Some(SubscriptionError::InvalidFlow(rate))
        } else if source != caller {
            Some(SubscriptionError::PermissionDenied)
        } else if source == destination {
            Some(SubscriptionError::SourceIsDestination)
        } else if !self.covers(source, rate) {
            Some(SubscriptionError::InsufficientReserve)
        } else {
            None
        }
    }

    /// The state after a subscription was created. No balance moves.
    pub open spec fn created(
        self,
        source: Seq<char>,
        destination: Seq<char>,
        rate: u128,
        now: u64,
    ) -> PaystreamView {
        PaystreamView { ledger: self.ledger.create(source, destination, rate, now), ..self }
    }

    /// Why `caller` may not remove the subscription `id` at `now`, if
    /// anything stands against it: there is none, or the caller is neither
    /// its source nor its destination, or the source does not hold what the
    /// subscription has accrued.
    pub open spec fn remove_error(self, id: u64, caller: Seq<char>, now: u64) -> Option<
        SubscriptionError,
    > {
        if !self.ledger.records.contains_key(id) {
            Some(SubscriptionError::NotPresent(id))
        } else if caller != self.ledger.records[id].source && caller
            != self.ledger.records[id].destination {
            Some(SubscriptionError::PermissionDenied)
        } else if self.balance_of(self.ledger.records[id].source)
            < self.ledger.records[id].accrual(now) {
            Some(SubscriptionError::InsufficientBalance)
        } else {
            None
        }
    }

    /// The state after the subscription `id` was settled at `now` and
    /// removed: what it had accrued has moved from its source to its
    /// destination, and the ledger no longer holds it.
    pub open spec fn removed(self, id: u64, now: u64) -> PaystreamView {
        let record = self.ledger.records[id];
        PaystreamView {
            balances: transferred(
                self.balances,
                record.source,
                record.destination,
                record.accrual(now),
            ),
            ledger: self.ledger.remove(id),
            ..self
        }
    }

    /// Why the subscription `id` cannot go over to `new_flow` at `now`, if
    /// anything stands against it: there is none, or the flow is zero or
    /// the one it has, or the source does not hold what the subscription
    /// has accrued.
    pub open spec fn update_error(self, id: u64, new_flow: u128, now: u64) -> Option<
        SubscriptionError,
    > {
        if !self.ledger.records.contains_key(id) {
            Some(SubscriptionError::NotPresent(id))
        } else if new_flow == 0 || new_flow == self.ledger.records[id].flow {
            Some(SubscriptionError::InvalidFlow(new_flow))
        } else if self.balance_of(self.ledger.records[id].source)
            < self.ledger.records[id].accrual(now) {
            Some(SubscriptionError::InsufficientBalance)
        } else {
            None
        }
    }

    /// The state after the subscription `id` was settled at `now` and went
    /// over to `new_flow`: what it had accrued at its old flow has moved
    /// from its source to its destination, and its record shows the new
    /// flow and `now` as the time of settlement.
    pub open spec fn updated(self, id: u64, new_flow: u128, now: u64) -> PaystreamView {
        let record = self.ledger.records[id];
        PaystreamView {
            balances: transferred(
                self.balances,
                record.source,
                record.destination,
                record.accrual(now),
            ),
            ledger: self.ledger.store(id, record.settled(now).with_flow(new_flow)),
            ..self
        }
    }
}

/// One call that can change the state, with what the host supplies to it.
pub enum Operation {
    /// [`Paystream::create_subscription`]
    Create { source: Seq<char>, destination: Seq<char>, rate: u128, caller: Seq<char>, now: u64 },
    /// [`Paystream::update_subscription`]
    Update { id: u64, new_flow: u128, now: u64 },
    /// [`Paystream::remove_subscription`]
    Remove { id: u64, caller: Seq<char>, now: u64 },
    /// [`Paystream::wrap_callback`]
    Deposit { account: Seq<char>, amount: u128, wrapped: bool },
    /// [`Paystream::set_owner`]
    SetOwner { new_owner: Seq<char>, caller: Seq<char> },
    /// [`Paystream::set_treasurer`]
    SetTreasurer { new_treasurer: Seq<char>, caller: Seq<char> },
    /// [`Paystream::update_reserve`]
    UpdateReserve { reserve: u64, caller: Seq<char> },
}

impl Operation {
    /// What the operation brings in from outside: the amount of a deposit
    /// that went through, and nothing otherwise.
    pub open spec fn brings_in(self) -> int {
        match self {
            Operation::Deposit { amount, wrapped, .. } => if wrapped {
                amount as int
            } else {
                0
            },
            _ => 0,
        }
    }
}

impl PaystreamView {
    /// The state after one operation. A call that is rejected changes
    /// nothing.
    pub open spec fn apply(self, operation: Operation) -> PaystreamView {
        match operation {
            Operation::Create { source, destination, rate, caller, now } => if self.create_error(
                source,
                destination,
                rate,
                caller,
            ) is None {
                self.created(source, destination, rate, now)
            } else {
                self
            },
            Operation::Update { id, new_flow, now } => if self.update_error(id, new_flow, now)
                is None {
                self.updated(id, new_flow, now)
            } else {
                self
            },
            Operation::Remove { id, caller, now } => if self.remove_error(id, caller, now)
                is None {
                self.removed(id, now)
            } else {
                self
            },
            Operation::Deposit { account, amount, wrapped } => if wrapped {
                PaystreamView { balances: credited(self.balances, account, amount), ..self }
            } else {
                self
            },
            Operation::SetOwner { new_owner, caller } => if caller == self.owner && new_owner
                != self.owner {
                PaystreamView { owner: new_owner, ..self }
            } else {
                self
            },
            Operation::SetTreasurer { new_treasurer, caller } => if caller == self.owner
                && new_treasurer != self.treasurer {
                PaystreamView { treasurer: new_treasurer, ..self }
            } else {
                self
            },
            Operation::UpdateReserve { reserve, caller } => if caller == self.owner {
                PaystreamView { reserve, ..self }
            } else {
                self
            },
        }
    }
}

/// The state taken apart into plain values, as it is kept between calls.
/// Where the list of balances names an account more than once, the last
/// entry counts.
#[derive(Debug, PartialEq, Eq)]
pub struct PaystreamParts {
    pub wrap_contract: String,
    pub balances: Vec<(String, u128)>,
    pub owner: String,
    pub treasurer: String,
    pub subscriptions: LedgerParts,
    pub reserve: u64,
}

impl PaystreamParts {
    /// The state that these values stand for.
    pub open spec fn state(&self) -> PaystreamView {
        PaystreamView {
            wrap_contract: self.wrap_contract@,
            balances: assoc(self.balances@),
            owner: self.owner@,
            treasurer: self.treasurer@,
            ledger: self.subscriptions.state(),
            reserve: self.reserve,
        }
    }
}

/// A copy of a list of balances.
fn copy_balances(entries: &Vec<(String, u128)>) -> (copy: Vec<(String, u128)>)
    ensures
        assoc(copy@) == assoc(entries@),
{
    let mut copy: Vec<(String, u128)> = Vec::new();
    let mut i: usize = 0;
    proof {
        assert(entries@.take(0) =~= copy@);
    }
    while i < entries.len()
        invariant
            i <= entries.len(),
            assoc(copy@) == assoc(entries@.take(i as int)),
        decreases entries.len() - i,
    {
        let ghost before = copy@;
        copy.push((entries[i].0.clone(), entries[i].1));
        proof {
            assert(copy@.drop_last() =~= before);
            assert(entries@.take(i + 1).drop_last() =~= entries@.take(i as int));
        }
        i += 1;
    }
    proof {
        assert(entries@.take(entries.len() as int) =~= entries@);
    }
    copy
}

/// The balances that a list of entries stands for.
fn balances_from(entries: &Vec<(String, u128)>) -> (balances: KeyedMap<String, u128>)
    ensures
        balances@ == assoc(entries@),
{
    let mut balances: KeyedMap<String, u128> = KeyedMap::new();
    let mut i: usize = 0;
    proof {
        assert(entries@.take(0) =~= Seq::<(String, u128)>::empty());
    }
    while i < entries.len()
        invariant
            i <= entries.len(),
            balances@ == assoc(entries@.take(i as int)),
        decreases entries.len() - i,
    {
        balances.insert(entries[i].0.clone(), entries[i].1);
        proof {
            assert(entries@.take(i + 1).drop_last() =~= entries@.take(i as int));
        }
        i += 1;
    }
    proof {
        assert(entries@.take(entries.len() as int) =~= entries@);
    }
    balances
}

/// Payment streams over a ledger of balances. Accounts deposit the wrapped
/// base token to hold a balance here, and a subscription streams that
/// balance from one account to another by the second.
pub struct Paystream {
    wrap_contract: String,
    balances: KeyedMap<String, u128>,
    owner: String,
    treasurer: String,
    subscriptions: Subscriptions,
    reserve: u64,
}

impl View for Paystream {
    type V = PaystreamView;

    closed spec fn view(&self) -> PaystreamView {
        PaystreamView {
            wrap_contract: self.wrap_contract@,
            balances: self.balances@,
            owner: self.owner@,
            treasurer: self.treasurer@,
            ledger: self.subscriptions@,
            reserve: self.reserve,
        }
    }
}

impl Paystream {
    /// The state with which the contract starts: `owner` is owner and
    /// treasurer, nobody holds a balance, there are no subscriptions, and
    /// the reserve window is four hours.
    pub fn new(owner: String, wrap_contract: String) -> (this: Self)
        ensures
            this@ == (PaystreamView {
                wrap_contract: wrap_contract@,
                balances: Map::empty(),
                owner: owner@,
                treasurer: owner@,
                ledger: LedgerView::empty(),
                reserve: DEFAULT_RESERVE,
            }),
            this@.ledger.wf(),
    {
        let treasurer = owner.clone();
        Paystream {
            wrap_contract,
            balances: KeyedMap::new(),
            owner,
            treasurer,
            subscriptions: Subscriptions::new(),
            reserve: DEFAULT_RESERVE,
        }
    }

    /// The state that `parts` stands for.
    pub fn from_parts(parts: &PaystreamParts) -> (this: Self)
        ensures
            this@ == parts.state(),
    {
        Paystream {
            wrap_contract: parts.wrap_contract.clone(),
            balances: balances_from(&parts.balances),
            owner: parts.owner.clone(),
            treasurer: parts.treasurer.clone(),
            subscriptions: Subscriptions::from_parts(&parts.subscriptions),
            reserve: parts.reserve,
        }
    }

    /// The state as plain values.
    pub fn to_parts(&self) -> (parts: PaystreamParts)
        ensures
            parts.state() == self@,
    {
        PaystreamParts {
            wrap_contract: self.wrap_contract.clone(),
            balances: copy_balances(self.balances.entries()),
            owner: self.owner.clone(),
            treasurer: self.treasurer.clone(),
            subscriptions: self.subscriptions.to_parts(),
            reserve: self.reserve,
        }
    }

    /// Looks whether the ledger and its indexes agree, and fails with
    /// `InternalError` when they do not.
    pub fn check(&self) -> (checked: Result<(), SubscriptionError>)
        ensures
            self@.ledger.wf() ==> checked == Ok::<(), SubscriptionError>(()),
            !self@.ledger.wf() ==> checked == Err::<(), SubscriptionError>(
                SubscriptionError::InternalError,
            ),
    {
        self.subscriptions.check()
    }

    /// Passes when `caller` is `account_id`, and fails with
    /// `PermissionDenied` otherwise.
    pub fn required(account_id: &String, caller: &String) -> (allowed: Result<
        (),
        SubscriptionError,
    >)
        ensures
            caller@ == account_id@ ==> allowed == Ok::<(), SubscriptionError>(()),
            caller@ != account_id@ ==> allowed == Err::<(), SubscriptionError>(
                SubscriptionError::PermissionDenied,
            ),
    {
        if *caller == *account_id {
            Ok(())
        } else {
            Err(SubscriptionError::PermissionDenied)
        }
    }

    /// Return who the owner of the contract is
    pub fn owner(&self) -> (owner: &String)
        ensures
            owner@ == self@.owner,
    {
        &self.owner
    }

    /// Makes `new_owner` the owner. Only the owner may do so
    /// (`PermissionDenied`), and only for an account other than itself
    /// (`OwnerUnchanged`).
    pub fn set_owner(&mut self, new_owner: String, caller: &String) -> (set: Result<
        (),
        SubscriptionError,
    >)
        ensures
            final(self)@ == old(self)@.apply(
                Operation::SetOwner { new_owner: new_owner@, caller: caller@ },
            ),
            caller@ != old(self)@.owner ==> set == Err::<(), SubscriptionError>(
                SubscriptionError::PermissionDenied,
            ),
            caller@ == old(self)@.owner && new_owner@ == old(self)@.owner ==> set == Err::<
                (),
                SubscriptionError,
            >(SubscriptionError::OwnerUnchanged),
            caller@ == old(self)@.owner && new_owner@ != old(self)@.owner ==> set is Ok,
            match set {
                Ok(_) => final(self)@ == (PaystreamView { owner: new_owner@, ..old(self)@ }),
                Err(_) => final(self)@ == old(self)@,
            },
    {
        Self::required(&self.owner, caller)?;
        if new_owner == self.owner {
            return Err(SubscriptionError::OwnerUnchanged);
        }
        self.owner = new_owner;
        Ok(())
    }

    /// Return who the treasurer of the contract is
    pub fn treasurer(&self) -> (treasurer: &String)
        ensures
            treasurer@ == self@.treasurer,
    {
        &self.treasurer
    }

    /// Makes `new_treasurer` the treasurer. Only the owner may do so
    /// (`PermissionDenied`), and only for an account other than the present
    /// treasurer (`TreasurerUnchanged`).
    pub fn set_treasurer(&mut self, new_treasurer: String, caller: &String) -> (set: Result<
        (),
        SubscriptionError,
    >)
        ensures
            final(self)@ == old(self)@.apply(
                Operation::SetTreasurer { new_treasurer: new_treasurer@, caller: caller@ },
            ),
            caller@ != old(self)@.owner ==> set == Err::<(), SubscriptionError>(
                SubscriptionError::PermissionDenied,
            ),
            caller@ == old(self)@.owner && new_treasurer@ == old(self)@.treasurer ==> set == Err::<
                (),
                SubscriptionError,
            >(SubscriptionError::TreasurerUnchanged),
            caller@ == old(self)@.owner && new_treasurer@ != old(self)@.treasurer ==> set is Ok,
            match set {
                Ok(_) => final(self)@ == (PaystreamView {
                    treasurer: new_treasurer@,
                    ..old(self)@
                }),
                Err(_) => final(self)@ == old(self)@,
            },
    {
        Self::required(&self.owner, caller)?;
        if new_treasurer == self.treasurer {
            return Err(SubscriptionError::TreasurerUnchanged);
        }
        self.treasurer = new_treasurer;
        Ok(())
    }

    /// The number of seconds a new stream must be covered for.
    pub fn reserve(&self) -> (reserve: u64)
        ensures
            reserve == self@.reserve,
    {
        self.reserve
    }

    /// The persisted balance of an account: what it was credited and what
    /// settlements moved, without what its streams have accrued since.
    pub fn persisted_balance(&self, account_id: &String) -> (balance: u128)
        ensures
            balance == self@.balance_of(account_id@),
    {
        match self.balances.get(account_id) {
            Some(balance) => *balance,
            None => 0,
        }
    }

    /// Passes when the account holds more than `rate` times the reserve
    /// window (the product capped at `u128::MAX`), and fails with
    /// `InsufficientReserve` otherwise.
    pub fn sufficient_reserve(&self, rate: u128, account_id: &String) -> (checked: Result<
        (),
        SubscriptionError,
    >)
        ensures
            self@.covers(account_id@, rate) ==> checked == Ok::<(), SubscriptionError>(()),
            !self@.covers(account_id@, rate) ==> checked == Err::<(), SubscriptionError>(
                SubscriptionError::InsufficientReserve,
            ),
    {
        let minimum_balance = times_capped(rate, self.reserve as u128);
        let current_balance = self.persisted_balance(account_id);
        if current_balance > minimum_balance {
            Ok(())
        } else {
            Err(SubscriptionError::InsufficientReserve)
        }
    }

    /// Sets the reserve window. Only the owner may do so
    /// (`PermissionDenied`).
    pub fn update_reserve(&mut self, reserve: u64, caller: &String) -> (set: Result<
        (),
        SubscriptionError,
    >)
        ensures
            final(self)@ == old(self)@.apply(Operation::UpdateReserve { reserve, caller: caller@ }),
            caller@ == old(self)@.owner ==> set == Ok::<(), SubscriptionError>(()) && final(self)@
                == (PaystreamView { reserve, ..old(self)@ }),
            caller@ != old(self)@.owner ==> set == Err::<(), SubscriptionError>(
                SubscriptionError::PermissionDenied,
            ) && final(self)@ == old(self)@,
    {
        Self::required(&self.owner, caller)?;
        self.reserve = reserve;
        Ok(())
    }

    /// Wrap the base token for the caller: asks for the deposit attached to
    /// the call to be made into the wrap contract, and for the same amount
    /// to be credited to the caller once that has gone through.
    pub fn wrap_near(&self, caller: String, attached_deposit: u128) -> (request: WrapRequest)
        ensures
            request.wrap_contract@ == WRAP_CONTRACT@,
            request.deposit == attached_deposit,
            request.gas == WRAP_GAS,
            request.account_id@ == caller@,
            request.amount == attached_deposit,
            request.callback_gas == WRAP_GAS,
    {
        WrapRequest {
            wrap_contract: WRAP_CONTRACT.to_owned(),
            deposit: attached_deposit,
            gas: WRAP_GAS,
            account_id: caller,
            amount: attached_deposit,
            callback_gas: WRAP_GAS,
        }
    }

    /// Takes in the outcome of a deposit into the wrap contract. When the
    /// deposit went through, `amount` is added to the persisted balance of
    /// `account_id`, capped at `u128::MAX`. When it failed, nothing
    /// changes.
    pub fn wrap_callback(&mut self, account_id: String, amount: u128, wrapped: bool)
        ensures
            final(self)@ == old(self)@.apply(
                Operation::Deposit { account: account_id@, amount, wrapped },
            ),
            wrapped ==> final(self)@ == (PaystreamView {
                balances: credited(old(self)@.balances, account_id@, amount),
                ..old(self)@
            }),
            !wrapped ==> final(self)@ == old(self)@,
    {
        if wrapped {
            let balance = self.persisted_balance(&account_id).saturating_add(amount);
            self.balances.insert(account_id, balance);
        }
    }

    /// Moves `amount` of persisted balance from `source` to `destination`.
    /// Fails with `InsufficientBalance`, and moves nothing, when `source`
    /// holds less than `amount`. What `destination` receives is capped at
    /// `u128::MAX`.
    pub(crate) fn try_transfer(&mut self, source: String, destination: String, amount: u128) -> (moved:
        Result<(), SubscriptionError>)
        ensures
            old(self)@.balance_of(source@) >= amount ==> moved == Ok::<(), SubscriptionError>(())
                && final(self)@ == (PaystreamView {
                balances: transferred(old(self)@.balances, source@, destination@, amount),
                ..old(self)@
            }),
            old(self)@.balance_of(source@) < amount ==> moved == Err::<(), SubscriptionError>(
                SubscriptionError::InsufficientBalance,
            ) && final(self)@ == old(self)@,
    {
        let balance_of_source = self.persisted_balance(&source);
        let new_balance_of_source = match balance_of_source.checked_sub(amount) {
            Some(balance) => balance,
            None => {
                return Err(SubscriptionError::InsufficientBalance);
            },
        };
        self.balances.insert(source, new_balance_of_source);
        let new_balance_of_destination = self.persisted_balance(&destination).saturating_add(
            amount,
        );
        self.balances.insert(destination, new_balance_of_destination);
        Ok(())
    }

    /// Calculate the current balance for the account: its persisted
    /// balance, plus what each subscription in its inputs has accrued at
    /// `now`, minus what each subscription in its outputs has accrued. The
    /// sum stops at `u128::MAX` and the difference at zero. An id in a list
    /// that has no record counts for nothing. Nothing is settled and
    /// nothing changes.
    pub fn current_balance(&self, account_id: String, now: u64) -> (balance: u128)
        ensures
            balance == self@.projected(account_id@, now),
    {
        let mut balance = self.persisted_balance(&account_id);
        let ghost persisted = balance;
        let ghost records = self@.ledger.records;

        let inputs = self.subscriptions.inputs_of(&account_id);
        let mut i: usize = 0;
        proof {
            assert(inputs@.take(0) =~= Seq::<u64>::empty());
        }
        while i < inputs.len()
            invariant
                i <= inputs.len(),
                records == self@.ledger.records,
                balance == clamped(persisted + total_accrued(records, inputs@.take(i as int), now)),
            decreases inputs.len() - i,
        {
            proof {
                assert(inputs@.take(i + 1).drop_last() =~= inputs@.take(i as int));
            }
            match self.subscriptions.accrual_of(inputs[i], now) {
                Some(amount) => {
                    balance = balance.saturating_add(amount);
                },
                None => {},
            }
            i += 1;
        }
        proof {
            assert(inputs@.take(inputs.len() as int) =~= inputs@);
        }
        let ghost with_inputs = balance;

        let outputs = self.subscriptions.outputs_of(&account_id);
        let mut j: usize = 0;
        proof {
            assert(outputs@.take(0) =~= Seq::<u64>::empty());
        }
        while j < outputs.len()
            invariant
                j <= outputs.len(),
                records == self@.ledger.records,
                balance == clamped(with_inputs - total_accrued(records, outputs@.take(j as int), now)),
            decreases outputs.len() - j,
        {
            proof {
                assert(outputs@.take(j + 1).drop_last() =~= outputs@.take(j as int));
            }
            match self.subscriptions.accrual_of(outputs[j], now) {
                Some(amount) => {
                    balance = balance.saturating_sub(amount);
                },
                None => {},
            }
            j += 1;
        }
        proof {
            assert(outputs@.take(outputs.len() as int) =~= outputs@);
        }
        balance
    }

    /// Create a subscription. The caller must be the source, and the source
    /// must hold more than the reserve that the rate calls for. The stream
    /// starts to accrue at `now`; nothing is paid yet. A rejected call
    /// changes nothing.
    pub fn create_subscription(
        &mut self,
        source: String,
        destination: String,
        rate: u128,
        caller: &String,
        now: u64,
    ) -> (created: Result<Subscription, SubscriptionError>)
        ensures
            final(self)@ == old(self)@.apply(
                Operation::Create {
                    source: source@,
                    destination: destination@,
                    rate,
                    caller: caller@,
                    now,
                },
            ),
            match old(self)@.create_error(source@, destination@, rate, caller@) {
                Some(error) => {
                    &&& created == Err::<Subscription, SubscriptionError>(error)
                    &&& final(self)@ == old(self)@
                },
                None => {
                    &&& created is Ok
                    &&& created->Ok_0@ == old(self)@.ledger.fresh_record(
                        source@,
                        destination@,
                        rate,
                        now,
                    )
                    &&& final(self)@ == old(self)@.created(source@, destination@, rate, now)
                },
            },
            old(self)@.ledger.wf() && old(self)@.ledger.next_is_free() ==> final(self)@.ledger.wf(),
    {
        if rate == 0 {
            return Err(SubscriptionError::InvalidFlow(rate));
        }
        Self::required(&source, caller)?;
        if source == destination {
            return Err(SubscriptionError::SourceIsDestination);
        }
        self.sufficient_reserve(rate, &source)?;
        self.subscriptions.create(source, destination, rate, now)
    }

    /// Remove subscription. The caller may be the source or the destination
    /// of the subscription. The stream is settled at `now`: what it has
    /// accrued moves from the source to the destination, and the
    /// subscription is gone. Returns the record as settled. A rejected call
    /// changes nothing.
    pub fn remove_subscription(&mut self, subscription_index: u64, caller: &String, now: u64) -> (removed:
        Result<Subscription, SubscriptionError>)
        ensures
            final(self)@ == old(self)@.apply(
                Operation::Remove { id: subscription_index, caller: caller@, now },
            ),
            match old(self)@.remove_error(subscription_index, caller@, now) {
                Some(error) => {
                    &&& removed == Err::<Subscription, SubscriptionError>(error)
                    &&& final(self)@ == old(self)@
                },
                None => {
                    &&& removed is Ok
                    &&& removed->Ok_0@ == old(self)@.ledger.records[subscription_index].settled(
                        now,
                    )
                    &&& final(self)@ == old(self)@.removed(subscription_index, now)
                },
            },
            old(self)@.ledger.wf() ==> final(self)@.ledger.wf(),
    {
        let mut subscription = self.subscriptions.try_get(subscription_index)?;
        if *subscription.source() != *caller && *subscription.destination() != *caller {
            return Err(SubscriptionError::PermissionDenied);
        }
        let amount = subscription.settle(now);
        self.try_transfer(
            subscription.source().clone(),
            subscription.destination().clone(),
            amount,
        )?;
        match self.subscriptions.try_remove(subscription_index) {
            Ok(_) => Ok(subscription),
            Err(error) => Err(error),
        }
    }

    /// Subscriptions for the calling account: the ids that pay into it,
    /// then the ids that pay out of it.
    pub fn subscriptions_by_account(&self, caller: &String) -> (ids: Vec<u64>)
        ensures
            ids@ == self@.ledger.listed_for(caller@),
    {
        self.subscriptions.subscriptions_for_account(caller.clone())
    }

    /// A subscription by index, or `NotPresent` when none is active under
    /// it.
    pub fn get_subscription(&self, subscription_index: u64) -> (found: Result<
        Subscription,
        SubscriptionError,
    >)
        ensures
            match found {
                Ok(subscription) => self@.ledger.records.contains_key(subscription_index)
                    && subscription@ == self@.ledger.records[subscription_index],
                Err(error) => !self@.ledger.records.contains_key(subscription_index) && error
                    == SubscriptionError::NotPresent(subscription_index),
            },
    {
        self.subscriptions.try_get(subscription_index)
    }

    /// Update the flow of the subscription. The stream is settled at `now`
    /// at its old flow: what it has accrued moves from the source to the
    /// destination. From then on the new flow applies. Returns the record
    /// with the new flow, settled at `now`. A rejected call changes
    /// nothing.
    pub fn update_subscription(&mut self, subscription_index: u64, new_flow: u128, now: u64) -> (updated:
        Result<Subscription, SubscriptionError>)
        ensures
            final(self)@ == old(self)@.apply(
                Operation::Update { id: subscription_index, new_flow, now },
            ),
            match old(self)@.update_error(subscription_index, new_flow, now) {
                Some(error) => {
                    &&& updated == Err::<Subscription, SubscriptionError>(error)
                    &&& final(self)@ == old(self)@
                },
                None => {
                    &&& updated is Ok
                    &&& updated->Ok_0@ == old(self)@.ledger.records[subscription_index].settled(
                        now,
                    ).with_flow(new_flow)
                    &&& final(self)@ == old(self)@.updated(subscription_index, new_flow, now)
                },
            },
            old(self)@.ledger.wf() ==> final(self)@.ledger.wf(),
    {
        let mut subscription = self.subscriptions.try_get(subscription_index)?;
        if new_flow == 0 || subscription.flow() == new_flow {
            return Err(SubscriptionError::InvalidFlow(new_flow));
        }
        let amount = subscription.settle(now);
        self.try_transfer(
            subscription.source().clone(),
            subscription.destination().clone(),
            amount,
        )?;
        self.subscriptions.try_update(subscription_index, new_flow, now)
    }
}

} // verus!
