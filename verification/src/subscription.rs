//! One payment stream and its settlement.

use vstd::prelude::*;

use crate::accrual::accrue;
use crate::accrual::accrued;

verus! {

/// What a subscription is, as plain values: who pays whom, how fast, and
/// up to which second the stream has been paid out.
pub struct SubscriptionView {
    pub id: u64,
    pub source: Seq<char>,
    pub destination: Seq<char>,
    pub flow: u128,
    pub timestamp: u64,
}

impl SubscriptionView {
    /// The amount this subscription has accrued at `now` and not yet paid.
    pub open spec fn accrual(self, now: u64) -> u128 {
        accrued(self.flow, self.timestamp, now)
    }

    /// The same subscription, paid out up to `now`.
    pub open spec fn settled(self, now: u64) -> SubscriptionView {
        SubscriptionView { timestamp: now, ..self }
    }

    /// The same subscription, streaming at `flow` from now on.
    pub open spec fn with_flow(self, flow: u128) -> SubscriptionView {
        SubscriptionView { flow, ..self }
    }

    /// What every stored subscription satisfies: it streams something, and
    /// not from an account to itself.
    pub open spec fn valid(self) -> bool {
        self.flow > 0 && self.source != self.destination
    }
}

/// A stream from a source account to a destination account at a fixed
/// number of units per second.
#[derive(Debug, PartialEq, Eq)]
pub struct Subscription {
    id: u64,
    source: String,
    destination: String,
    flow: u128,
    timestamp: u64,
}

impl View for Subscription {
    type V = SubscriptionView;

    closed spec fn view(&self) -> SubscriptionView {
        SubscriptionView {
            id: self.id,
            source: self.source@,
            destination: self.destination@,
            flow: self.flow,
            timestamp: self.timestamp,
        }
    }
}

impl Clone for Subscription {
    fn clone(&self) -> (copy: Self)
        ensures
            copy@ == self@,
    {
        Subscription {
            id: self.id,
            source: self.source.clone(),
            destination: self.destination.clone(),
            flow: self.flow,
            timestamp: self.timestamp,
        }
    }
}

impl Subscription {
    /// A record with these values, as read back from where it was kept.
    /// New subscriptions come from the ledger's `create`.
    pub fn new(
        id: u64,
        source: String,
        destination: String,
        flow: u128,
        timestamp: u64,
    ) -> (subscription: Self)
        ensures
            subscription@ == (SubscriptionView {
                id,
                source: source@,
                destination: destination@,
                flow,
                timestamp,
            }),
    {
        Subscription { id, source, destination, flow, timestamp }
    }

    /// The id under which the ledger holds this subscription.
    pub fn id(&self) -> (id: u64)
        ensures
            id == self@.id,
    {
        self.id
    }

    /// The account that pays.
    pub fn source(&self) -> (source: &String)
        ensures
            source@ == self@.source,
    {
        &self.source
    }

    /// The account that is paid.
    pub fn destination(&self) -> (destination: &String)
        ensures
            destination@ == self@.destination,
    {
        &self.destination
    }

    /// Units per second.
    pub fn flow(&self) -> (flow: u128)
        ensures
            flow == self@.flow,
    {
        self.flow
    }

    /// The second up to which the stream has been paid out.
    pub fn timestamp(&self) -> (timestamp: u64)
        ensures
            timestamp == self@.timestamp,
    {
        self.timestamp
    }

    pub(crate) fn set_flow(&mut self, flow: u128)
        ensures
            final(self)@ == old(self)@.with_flow(flow),
    {
        self.flow = flow;
    }

    /// Settles the subscription at `now`: returns what it has accrued since
    /// it was last settled and marks it as paid up to `now`. Balances are
    /// not touched; the caller moves the amount.
    pub fn settle(&mut self, now: u64) -> (amount: u128)
        ensures
            amount == old(self)@.accrual(now),
            final(self)@ == old(self)@.settled(now),
    {
        let amount = accrue(self.flow, self.timestamp, now);
        self.timestamp = now;
        amount
    }
}

} // verus!
