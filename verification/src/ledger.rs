//! The ledger of subscriptions and its per-account indexes.

use vstd::prelude::*;

use crate::accrual::accrue;
use crate::error::SubscriptionError;
use crate::keyed_map::assoc;
use crate::keyed_map::lemma_assoc_alike;
use crate::keyed_map::lemma_assoc_of_distinct;
use crate::keyed_map::KeyedMap;
use crate::ledger_view::ids_of;
use crate::ledger_view::list_sound;
use crate::ledger_view::other_than;
use crate::ledger_view::LedgerView;
use crate::subscription::Subscription;
use crate::subscription::SubscriptionView;

verus! {

/// The lists of an index as sequences.
pub open spec fn lists(index: Map<Seq<char>, Vec<u64>>) -> Map<Seq<char>, Seq<u64>> {
    index.map_values(|ids: Vec<u64>| ids@)
}

/// The records of a table as plain values.
pub open spec fn plain(table: Map<u64, Subscription>) -> Map<u64, SubscriptionView> {
    table.map_values(|subscription: Subscription| subscription@)
}

/// A ledger taken apart into plain lists, as it is kept between calls: the
/// id handed out last, the records by id, and the two indexes by account.
/// Where a list names a key more than once, the last entry counts.
#[derive(Debug, PartialEq, Eq)]
pub struct LedgerParts {
    pub subscription_index: u64,
    pub subscriptions: Vec<(u64, Subscription)>,
    pub outputs: Vec<(String, Vec<u64>)>,
    pub inputs: Vec<(String, Vec<u64>)>,
}

impl LedgerParts {
    /// The ledger that these lists stand for.
    pub open spec fn state(&self) -> LedgerView {
        LedgerView {
            index: self.subscription_index,
            records: plain(assoc(self.subscriptions@)),
            inputs: lists(assoc(self.inputs@)),
            outputs: lists(assoc(self.outputs@)),
        }
    }
}

/// A copy of the entries of an index.
fn copy_index(entries: &Vec<(String, Vec<u64>)>) -> (copy: Vec<(String, Vec<u64>)>)
    ensures
        lists(assoc(copy@)) == lists(assoc(entries@)),
{
    let mut copy: Vec<(String, Vec<u64>)> = Vec::new();
    let mut i: usize = 0;
    while i < entries.len()
        invariant
            i <= entries.len(),
            copy@.len() == i,
            forall|k: int|
                0 <= k < i ==> (#[trigger] copy@[k]).0@ == entries@[k].0@ && copy@[k].1@
                    == entries@[k].1@,
        decreases entries.len() - i,
    {
        let ids = entries[i].1.clone();
        assert(ids@ =~= entries@[i as int].1@);
        copy.push((entries[i].0.clone(), ids));
        i += 1;
    }
    proof {
        lemma_assoc_alike(copy@, entries@, |ids: Vec<u64>| ids@);
    }
    copy
}

/// A copy of the entries of a table of records.
fn copy_records(entries: &Vec<(u64, Subscription)>) -> (copy: Vec<(u64, Subscription)>)
    ensures
        plain(assoc(copy@)) == plain(assoc(entries@)),
{
    let mut copy: Vec<(u64, Subscription)> = Vec::new();
    let mut i: usize = 0;
    while i < entries.len()
        invariant
            i <= entries.len(),
            copy@.len() == i,
            forall|k: int|
                0 <= k < i ==> (#[trigger] copy@[k]).0@ == entries@[k].0@ && copy@[k].1@
                    == entries@[k].1@,
        decreases entries.len() - i,
    {
        copy.push((entries[i].0, entries[i].1.clone()));
        i += 1;
    }
    proof {
        lemma_assoc_alike(copy@, entries@, |subscription: Subscription| subscription@);
    }
    copy
}

/// The index that a list of entries stands for.
fn index_from(entries: &Vec<(String, Vec<u64>)>) -> (index: KeyedMap<String, Vec<u64>>)
    ensures
        lists(index@) == lists(assoc(entries@)),
{
    let mut index: KeyedMap<String, Vec<u64>> = KeyedMap::new();
    let mut i: usize = 0;
    proof {
        assert(entries@.take(0) =~= Seq::<(String, Vec<u64>)>::empty());
        assert(lists(index@) =~= lists(assoc(entries@.take(0))));
    }
    while i < entries.len()
        invariant
            i <= entries.len(),
            lists(index@) == lists(assoc(entries@.take(i as int))),
        decreases entries.len() - i,
    {
        let ids = entries[i].1.clone();
        assert(ids@ =~= entries@[i as int].1@);
        let ghost before = index@;
        index.insert(entries[i].0.clone(), ids);
        proof {
            let front = entries@.take(i as int);
            let next = entries@.take(i + 1);
            assert(next.drop_last() =~= front);
            assert(next.last() == entries@[i as int]);
            assert(lists(index@) =~= lists(before).insert(entries@[i as int].0@, ids@));
            assert(lists(assoc(next)) =~= lists(assoc(front)).insert(
                entries@[i as int].0@,
                entries@[i as int].1@,
            ));
        }
        i += 1;
    }
    proof {
        assert(entries@.take(entries.len() as int) =~= entries@);
    }
    index
}

/// The table that a list of records stands for.
fn table_from(entries: &Vec<(u64, Subscription)>) -> (table: KeyedMap<u64, Subscription>)
    ensures
        plain(table@) == plain(assoc(entries@)),
{
    let mut table: KeyedMap<u64, Subscription> = KeyedMap::new();
    let mut i: usize = 0;
    proof {
        assert(entries@.take(0) =~= Seq::<(u64, Subscription)>::empty());
        assert(plain(table@) =~= plain(assoc(entries@.take(0))));
    }
    while i < entries.len()
        invariant
            i <= entries.len(),
            plain(table@) == plain(assoc(entries@.take(i as int))),
        decreases entries.len() - i,
    {
        let record = entries[i].1.clone();
        let ghost before = table@;
        table.insert(entries[i].0, record);
        proof {
            let front = entries@.take(i as int);
            let next = entries@.take(i + 1);
            assert(next.drop_last() =~= front);
            assert(next.last() == entries@[i as int]);
            assert(plain(table@) =~= plain(before).insert(entries@[i as int].0, record@));
            assert(plain(assoc(next)) =~= plain(assoc(front)).insert(
                entries@[i as int].0,
                entries@[i as int].1@,
            ));
        }
        i += 1;
    }
    proof {
        assert(entries@.take(entries.len() as int) =~= entries@);
    }
    table
}

/// The active subscriptions, and which of them pay into and out of each
/// account.
pub struct Subscriptions {
    subscription_index: u64,
    subscriptions: KeyedMap<u64, Subscription>,
    outputs: KeyedMap<String, Vec<u64>>,
    inputs: KeyedMap<String, Vec<u64>>,
}

impl View for Subscriptions {
    type V = LedgerView;

    closed spec fn view(&self) -> LedgerView {
        LedgerView {
            index: self.subscription_index,
            records: plain(self.subscriptions@),
            inputs: lists(self.inputs@),
            outputs: lists(self.outputs@),
        }
    }
}

/// The ids that `index` holds for `account`, copied out.
fn listed(index: &KeyedMap<String, Vec<u64>>, account: &String) -> (ids: Vec<u64>)
    ensures
        ids@ == ids_of(lists(index@), account@),
{
    match index.get(account) {
        Some(found) => {
            let ids = found.clone();
            assert(ids@ =~= found@);
            ids
        },
        None => Vec::new(),
    }
}

/// `ids` without every occurrence of `id`, the rest in their order.
fn without(ids: &Vec<u64>, id: u64) -> (kept: Vec<u64>)
    ensures
        kept@ == ids@.filter(other_than(id)),
{
    let mut kept: Vec<u64> = Vec::new();
    let mut i: usize = 0;
    proof {
        reveal(Seq::filter);
        assert(ids@.take(0) =~= Seq::<u64>::empty());
    }
    while i < ids.len()
        invariant
            i <= ids.len(),
            kept@ == ids@.take(i as int).filter(other_than(id)),
        decreases ids.len() - i,
    {
        proof {
            reveal(Seq::filter);
            assert(ids@.take(i + 1).drop_last() =~= ids@.take(i as int));
        }
        if ids[i] != id {
            kept.push(ids[i]);
        }
        i += 1;
    }
    proof {
        assert(ids@.take(ids.len() as int) =~= ids@);
    }
    kept
}

/// Whether `ids` names `id`.
fn names(ids: &Vec<u64>, id: u64) -> (found: bool)
    ensures
        found == ids@.contains(id),
{
    let mut i: usize = 0;
    while i < ids.len()
        invariant
            i <= ids.len(),
            forall|k: int| 0 <= k < i ==> ids@[k] != id,
        decreases ids.len() - i,
    {
        if ids[i] == id {
            return true;
        }
        i += 1;
    }
    false
}

/// Whether `ids` names no id twice.
fn all_distinct(ids: &Vec<u64>) -> (distinct: bool)
    ensures
        distinct == ids@.no_duplicates(),
{
    let mut j: usize = 0;
    while j < ids.len()
        invariant
            j <= ids.len(),
            forall|a: int, b: int| 0 <= a < b < j ==> ids@[a] != ids@[b],
        decreases ids.len() - j,
    {
        let mut i: usize = 0;
        while i < j
            invariant
                i <= j < ids.len(),
                forall|a: int| 0 <= a < i ==> ids@[a] != ids@[j as int],
            decreases j - i,
        {
            if ids[i] == ids[j] {
                return false;
            }
            i += 1;
        }
        j += 1;
    }
    true
}

impl Subscriptions {
    /// A ledger without subscriptions.
    pub fn new() -> (ledger: Self)
        ensures
            ledger@ == LedgerView::empty(),
            ledger@.wf(),
    {
        let ledger = Subscriptions {
            subscription_index: 0,
            subscriptions: KeyedMap::new(),
            outputs: KeyedMap::new(),
            inputs: KeyedMap::new(),
        };
        assert(ledger@ =~= LedgerView::empty());
        ledger
    }

    /// The ledger that `parts` stands for.
    pub fn from_parts(parts: &LedgerParts) -> (ledger: Self)
        ensures
            ledger@ == parts.state(),
    {
        let ledger = Subscriptions {
            subscription_index: parts.subscription_index,
            subscriptions: table_from(&parts.subscriptions),
            outputs: index_from(&parts.outputs),
            inputs: index_from(&parts.inputs),
        };
        assert(ledger@ =~= parts.state());
        ledger
    }

    /// The ledger as plain lists.
    pub fn to_parts(&self) -> (parts: LedgerParts)
        ensures
            parts.state() == self@,
    {
        let parts = LedgerParts {
            subscription_index: self.subscription_index,
            subscriptions: copy_records(self.subscriptions.entries()),
            outputs: copy_index(self.outputs.entries()),
            inputs: copy_index(self.inputs.entries()),
        };
        assert(parts.state() =~= self@);
        parts
    }

    /// Whether every record is stored under its own id, is valid, and is
    /// listed on both sides.
    fn records_agree(&self) -> (agree: bool)
        ensures
            agree == (forall|id: u64| #[trigger]
                self@.records.contains_key(id) ==> self@.record_sound(id)),
    {
        let entries = self.subscriptions.entries();
        proof {
            lemma_assoc_of_distinct(entries@);
        }
        let mut i: usize = 0;
        while i < entries.len()
            invariant
                i <= entries.len(),
                assoc(entries@) == self.subscriptions@,
                forall|k: int|
                    0 <= k < entries@.len() ==> assoc(entries@).contains_key(
                        (#[trigger] entries@[k]).0@,
                    ) && assoc(entries@)[entries@[k].0@] == entries@[k].1,
                forall|k: int| 0 <= k < i ==> self@.record_sound((#[trigger] entries@[k]).0),
            decreases entries.len() - i,
        {
            let id = entries[i].0;
            let subscription = &entries[i].1;
            assert(self@.records.contains_key(id) && self@.records[id] == subscription@) by {
                assert(entries@[i as int].0@ == id);
            }
            let sound = subscription.id() == id && subscription.flow() > 0
                && *subscription.source() != *subscription.destination() && names(
                &listed(&self.inputs, subscription.destination()),
                id,
            ) && names(&listed(&self.outputs, subscription.source()), id);
            if !sound {
                assert(!self@.record_sound(id));
                return false;
            }
            i += 1;
        }
        proof {
            assert forall|id: u64| #[trigger] self@.records.contains_key(id) implies self@.record_sound(
                id,
            ) by {
                assert(assoc(entries@).contains_key(id));
                let k = choose|k: int| 0 <= k < entries@.len() && (#[trigger] entries@[k]).0@ == id;
                assert(self@.record_sound(entries@[k].0));
            }
        }
        true
    }

    /// Whether the list that an index holds for `account` has no repeated
    /// id and names only subscriptions with `account` on that side.
    fn list_agrees(&self, account: &String, ids: &Vec<u64>, by_destination: bool) -> (agrees: bool)
        ensures
            agrees == list_sound(self@.records, account@, ids@, by_destination),
    {
        if !all_distinct(ids) {
            return false;
        }
        let mut i: usize = 0;
        while i < ids.len()
            invariant
                i <= ids.len(),
                ids@.no_duplicates(),
                forall|k: int|
                    0 <= k < i ==> {
                        let id = #[trigger] ids@[k];
                        &&& self@.records.contains_key(id)
                        &&& by_destination ==> self@.records[id].destination == account@
                        &&& !by_destination ==> self@.records[id].source == account@
                    },
            decreases ids.len() - i,
        {
            let sound = match self.subscriptions.get(&ids[i]) {
                Some(subscription) => if by_destination {
                    *subscription.destination() == *account
                } else {
                    *subscription.source() == *account
                },
                None => false,
            };
            if !sound {
                assert(!list_sound(self@.records, account@, ids@, by_destination)) by {
                    let id = ids@[i as int];
                    assert(!(self@.records.contains_key(id) && (by_destination
                        ==> self@.records[id].destination == account@) && (!by_destination
                        ==> self@.records[id].source == account@)));
                }
                return false;
            }
            i += 1;
        }
        true
    }

    /// Whether an index lists, for every account, only subscriptions with
    /// that account on its side, each once.
    fn index_agrees(&self, by_destination: bool) -> (agrees: bool)
        ensures
            agrees == self@.index_sound(
                if by_destination {
                    self@.inputs
                } else {
                    self@.outputs
                },
                by_destination,
            ),
    {
        let index = if by_destination {
            &self.inputs
        } else {
            &self.outputs
        };
        let ghost held = lists(index@);
        let entries = index.entries();
        proof {
            lemma_assoc_of_distinct(entries@);
            assert(held == if by_destination {
                self@.inputs
            } else {
                self@.outputs
            });
        }
        let mut i: usize = 0;
        while i < entries.len()
            invariant
                i <= entries.len(),
                held == lists(assoc(entries@)),
                held == if by_destination {
                    self@.inputs
                } else {
                    self@.outputs
                },
                forall|k: int|
                    0 <= k < entries@.len() ==> assoc(entries@).contains_key(
                        (#[trigger] entries@[k]).0@,
                    ) && assoc(entries@)[entries@[k].0@] == entries@[k].1,
                forall|k: int|
                    0 <= k < i ==> list_sound(
                        self@.records,
                        (#[trigger] entries@[k]).0@,
                        entries@[k].1@,
                        by_destination,
                    ),
            decreases entries.len() - i,
        {
            if !self.list_agrees(&entries[i].0, &entries[i].1, by_destination) {
                proof {
                    let account = entries@[i as int].0@;
                    assert(ids_of(held, account) == entries@[i as int].1@);
                    let ids = ids_of(held, account);
                    if self@.index_sound(held, by_destination) {
                        assert(ids.no_duplicates());
                        assert forall|k: int| 0 <= k < ids.len() implies {
                            let id = #[trigger] ids[k];
                            &&& self@.records.contains_key(id)
                            &&& by_destination ==> self@.records[id].destination == account
                            &&& !by_destination ==> self@.records[id].source == account
                        } by {
                            assert(ids_of(held, account)[k] == ids[k]);
                        }
                        assert(false);
                    }
                }
                return false;
            }
            i += 1;
        }
        proof {
            assert forall|account: Seq<char>| (#[trigger] ids_of(held, account)).no_duplicates() by {
                if held.contains_key(account) {
                    assert(assoc(entries@).contains_key(account));
                    let k = choose|k: int|
                        0 <= k < entries@.len() && (#[trigger] entries@[k]).0@ == account;
                    assert(list_sound(self@.records, entries@[k].0@, entries@[k].1@, by_destination));
                }
            }
            assert forall|account: Seq<char>, j: int| 0 <= j < ids_of(held, account).len() implies {
                let id = #[trigger] ids_of(held, account)[j];
                &&& self@.records.contains_key(id)
                &&& by_destination ==> self@.records[id].destination == account
                &&& !by_destination ==> self@.records[id].source == account
            } by {
                assert(assoc(entries@).contains_key(account));
                let k = choose|k: int|
                    0 <= k < entries@.len() && (#[trigger] entries@[k]).0@ == account;
                assert(list_sound(self@.records, entries@[k].0@, entries@[k].1@, by_destination));
                assert(entries@[k].1@[j] == ids_of(held, account)[j]);
            }
        }
        true
    }

    /// Looks whether the ledger and its indexes agree, and fails with
    /// `InternalError` when they do not.
    pub fn check(&self) -> (checked: Result<(), SubscriptionError>)
        ensures
            self@.wf() ==> checked == Ok::<(), SubscriptionError>(()),
            !self@.wf() ==> checked == Err::<(), SubscriptionError>(SubscriptionError::InternalError),
    {
        let _ = self.subscriptions.entries();
        proof {
            assert(self@.records.dom() =~= self.subscriptions@.dom());
        }
        if self.records_agree() && self.index_agrees(true) && self.index_agrees(false) {
            Ok(())
        } else {
            Err(SubscriptionError::InternalError)
        }
    }

    /// The id handed out last.
    pub fn subscription_index(&self) -> (index: u64)
        ensures
            index == self@.index,
    {
        self.subscription_index
    }

    /// Whether a subscription is active under this id.
    pub fn is_present(&self, subscription_index: u64) -> (found: bool)
        ensures
            found == self@.records.contains_key(subscription_index),
    {
        self.subscriptions.contains_key(&subscription_index)
    }

    /// The subscription with this id, if it is active.
    pub fn get(&self, subscription_index: u64) -> (found: Option<Subscription>)
        ensures
            match found {
                Some(subscription) => self@.records.contains_key(subscription_index)
                    && subscription@ == self@.records[subscription_index],
                None => !self@.records.contains_key(subscription_index),
            },
    {
        match self.subscriptions.get(&subscription_index) {
            Some(subscription) => Some(subscription.clone()),
            None => None,
        }
    }

    /// The subscription with this id, or `NotPresent` with the id when none
    /// is active under it.
    pub fn try_get(&self, subscription_index: u64) -> (found: Result<
        Subscription,
        SubscriptionError,
    >)
        ensures
            match found {
                Ok(subscription) => self@.records.contains_key(subscription_index)
                    && subscription@ == self@.records[subscription_index],
                Err(error) => !self@.records.contains_key(subscription_index) && error
                    == SubscriptionError::NotPresent(subscription_index),
            },
    {
        match self.get(subscription_index) {
            Some(subscription) => Ok(subscription),
            None => Err(SubscriptionError::NotPresent(subscription_index)),
        }
    }

    /// Creates a subscription that streams `flow` units per second from
    /// `source` to `destination`, starting at `now`. A zero flow is turned
    /// down with `InvalidFlow`, equal accounts with `SourceIsDestination`;
    /// the ledger is then unchanged. Otherwise the subscription gets the
    /// next id and is listed in the inputs of `destination` and the outputs
    /// of `source`. Nothing is paid yet.
    pub fn create(&mut self, source: String, destination: String, flow: u128, now: u64) -> (created:
        Result<Subscription, SubscriptionError>)
        ensures
            flow == 0 ==> created == Err::<Subscription, SubscriptionError>(
                SubscriptionError::InvalidFlow(flow),
            ),
            flow > 0 && source@ == destination@ ==> created == Err::<
                Subscription,
                SubscriptionError,
            >(SubscriptionError::SourceIsDestination),
            flow > 0 && source@ != destination@ ==> created is Ok,
            match created {
                Ok(subscription) => {
                    &&& subscription@ == old(self)@.fresh_record(
                        source@,
                        destination@,
                        flow,
                        now,
                    )
                    &&& final(self)@ == old(self)@.create(source@, destination@, flow, now)
                    &&& old(self)@.wf() && old(self)@.next_is_free() ==> final(self)@.wf()
                },
                Err(_) => final(self)@ == old(self)@,
            },
    {
        if flow == 0 {
            return Err(SubscriptionError::InvalidFlow(flow));
        }
        if source == destination {
            return Err(SubscriptionError::SourceIsDestination);
        }
        let id = self.subscription_index.wrapping_add(1);
        let subscription = Subscription::new(id, source.clone(), destination.clone(), flow, now);

        let mut inputs = listed(&self.inputs, &destination);
        inputs.push(id);
        self.inputs.insert(destination, inputs);

        let mut outputs = listed(&self.outputs, &source);
        outputs.push(id);
        self.outputs.insert(source, outputs);

        self.subscriptions.insert(id, subscription.clone());
        self.subscription_index = id;
        proof {
            let before = old(self)@;
            let after = before.create(source@, destination@, flow, now);
            assert(self@.records =~= after.records);
            assert(self@.inputs =~= after.inputs);
            assert(self@.outputs =~= after.outputs);
            assert(self@ =~= after);
            if before.wf() && before.next_is_free() {
                before.lemma_create_keeps_wf(source@, destination@, flow, now);
            }
        }
        Ok(subscription)
    }

    /// Removes the subscription `subscription_index` and returns its
    /// record, or fails with `NotPresent` and changes nothing. The id is
    /// struck from the inputs of the record's destination and from the
    /// outputs of its source; all other ids stay, in their order.
    pub fn try_remove(&mut self, subscription_index: u64) -> (removed: Result<
        Subscription,
        SubscriptionError,
    >)
        ensures
            match removed {
                Ok(subscription) => {
                    &&& old(self)@.records.contains_key(subscription_index)
                    &&& subscription@ == old(self)@.records[subscription_index]
                    &&& final(self)@ == old(self)@.remove(subscription_index)
                    &&& old(self)@.wf() ==> final(self)@.wf()
                },
                Err(error) => {
                    &&& !old(self)@.records.contains_key(subscription_index)
                    &&& error == SubscriptionError::NotPresent(subscription_index)
                    &&& final(self)@ == old(self)@
                },
            },
    {
        let subscription = match self.subscriptions.remove(&subscription_index) {
            Some(subscription) => subscription,
            None => {
                assert(self@ =~= old(self)@);
                return Err(SubscriptionError::NotPresent(subscription_index));
            },
        };

        let inputs = without(&listed(&self.inputs, subscription.destination()), subscription_index);
        self.inputs.insert(subscription.destination().clone(), inputs);

        let outputs = without(&listed(&self.outputs, subscription.source()), subscription_index);
        self.outputs.insert(subscription.source().clone(), outputs);

        proof {
            let before = old(self)@;
            let after = before.remove(subscription_index);
            assert(self@.records =~= after.records);
            assert(self@.inputs =~= after.inputs);
            assert(self@.outputs =~= after.outputs);
            assert(self@ =~= after);
            if before.wf() {
                before.lemma_remove_keeps_wf(subscription_index);
            }
        }
        Ok(subscription)
    }

    /// What the subscription `subscription_index` has accrued at `now`
    /// since it was last settled, if it is active.
    pub fn accrual_of(&self, subscription_index: u64, now: u64) -> (amount: Option<u128>)
        ensures
            match amount {
                Some(value) => self@.records.contains_key(subscription_index) && value
                    == self@.records[subscription_index].accrual(now),
                None => !self@.records.contains_key(subscription_index),
            },
    {
        match self.subscriptions.get(&subscription_index) {
            Some(subscription) => Some(accrue(subscription.flow(), subscription.timestamp(), now)),
            None => None,
        }
    }

    /// The ids of the subscriptions listed as paying into an account,
    /// oldest first.
    pub fn inputs_of(&self, account_id: &String) -> (ids: Vec<u64>)
        ensures
            ids@ == self@.inputs_of(account_id@),
    {
        listed(&self.inputs, account_id)
    }

    /// The ids of the subscriptions listed as paying out of an account,
    /// oldest first.
    pub fn outputs_of(&self, account_id: &String) -> (ids: Vec<u64>)
        ensures
            ids@ == self@.outputs_of(account_id@),
    {
        listed(&self.outputs, account_id)
    }

    /// The ids listed for an account: those that pay into it, then those
    /// that pay out of it.
    pub fn subscriptions_for_account(&self, account_id: String) -> (ids: Vec<u64>)
        ensures
            ids@ == self@.listed_for(account_id@),
    {
        let mut inputs = listed(&self.inputs, &account_id);
        let mut outputs = listed(&self.outputs, &account_id);
        inputs.append(&mut outputs);
        inputs
    }

    /// Marks the subscription `subscription_index` as settled at `now` and
    /// gives it the flow `new_flow`. Fails with `NotPresent` when no such
    /// subscription is active, and with `InvalidFlow` when `new_flow` is
    /// zero or the flow it already has; the ledger is then unchanged.
    pub(crate) fn try_update(&mut self, subscription_index: u64, new_flow: u128, now: u64) -> (updated:
        Result<Subscription, SubscriptionError>)
        ensures
            !old(self)@.records.contains_key(subscription_index) ==> updated == Err::<
                Subscription,
                SubscriptionError,
            >(SubscriptionError::NotPresent(subscription_index)),
            old(self)@.records.contains_key(subscription_index) && (new_flow == 0 || new_flow
                == old(self)@.records[subscription_index].flow) ==> updated == Err::<
                Subscription,
                SubscriptionError,
            >(SubscriptionError::InvalidFlow(new_flow)),
            old(self)@.records.contains_key(subscription_index) && new_flow != 0 && new_flow
                != old(self)@.records[subscription_index].flow ==> updated is Ok,
            match updated {
                Ok(subscription) => {
                    &&& subscription@ == old(self)@.records[subscription_index].settled(
                        now,
                    ).with_flow(new_flow)
                    &&& final(self)@ == old(self)@.store(subscription_index, subscription@)
                    &&& old(self)@.wf() ==> final(self)@.wf()
                },
                Err(_) => final(self)@ == old(self)@,
            },
    {
        let mut subscription = self.try_get(subscription_index)?;
        if new_flow == 0 || subscription.flow() == new_flow {
            return Err(SubscriptionError::InvalidFlow(new_flow));
        }
        subscription.settle(now);
        subscription.set_flow(new_flow);
        self.subscriptions.insert(subscription_index, subscription.clone());
        proof {
            let before = old(self)@;
            let after = before.store(subscription_index, subscription@);
            assert(self@.records =~= after.records);
            assert(self@ =~= after);
            if before.wf() {
                before.lemma_store_keeps_wf(subscription_index, subscription@);
            }
        }
        Ok(subscription)
    }
}

} // verus!
