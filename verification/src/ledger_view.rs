//! The ledger of subscriptions as plain values: what each operation makes
//! of it, and when it agrees with its indexes.

use vstd::prelude::*;

use crate::projection::total_accrued;
use crate::subscription::SubscriptionView;

verus! {

/// The ids that `index` lists for `account`: none when the account has no
/// entry.
pub open spec fn ids_of(index: Map<Seq<char>, Seq<u64>>, account: Seq<char>) -> Seq<u64> {
    if index.contains_key(account) {
        index[account]
    } else {
        Seq::empty()
    }
}

/// The test that keeps every id but `id`.
pub open spec fn other_than(id: u64) -> spec_fn(u64) -> bool {
    |x: u64| x != id
}

/// The ledger as plain values: the id handed out last, the active
/// subscriptions by id, and for each account the ids of the subscriptions
/// that pay into it (`inputs`) and out of it (`outputs`), oldest first.
#[verifier::ext_equal]
pub struct LedgerView {
    pub index: u64,
    pub records: Map<u64, SubscriptionView>,
    pub inputs: Map<Seq<char>, Seq<u64>>,
    pub outputs: Map<Seq<char>, Seq<u64>>,
}

impl LedgerView {
    /// A ledger without subscriptions that has handed out no id yet.
    pub open spec fn empty() -> LedgerView {
        LedgerView {
            index: 0,
            records: Map::empty(),
            inputs: Map::empty(),
            outputs: Map::empty(),
        }
    }

    /// The ids of the subscriptions listed as paying into `account`.
    pub open spec fn inputs_of(self, account: Seq<char>) -> Seq<u64> {
        ids_of(self.inputs, account)
    }

    /// The ids of the subscriptions listed as paying out of `account`.
    pub open spec fn outputs_of(self, account: Seq<char>) -> Seq<u64> {
        ids_of(self.outputs, account)
    }

    /// All ids listed for `account`: inputs, then outputs.
    pub open spec fn listed_for(self, account: Seq<char>) -> Seq<u64> {
        self.inputs_of(account) + self.outputs_of(account)
    }

    /// What the subscriptions that pay into `account` have accrued at
    /// `now`, in sum.
    pub open spec fn inflow(self, account: Seq<char>, now: u64) -> nat {
        total_accrued(self.records, self.inputs_of(account), now)
    }

    /// What the subscriptions that pay out of `account` have accrued at
    /// `now`, in sum.
    pub open spec fn outflow(self, account: Seq<char>, now: u64) -> nat {
        total_accrued(self.records, self.outputs_of(account), now)
    }

    /// [`LedgerView::inflow`] at `now` as a function of the account.
    pub open spec fn inflows(self, now: u64) -> spec_fn(Seq<char>) -> int {
        |account: Seq<char>| self.inflow(account, now) as int
    }

    /// [`LedgerView::outflow`] at `now` as a function of the account.
    pub open spec fn outflows(self, now: u64) -> spec_fn(Seq<char>) -> int {
        |account: Seq<char>| self.outflow(account, now) as int
    }

    /// Whether a list of accounts names the source and the destination of
    /// every active subscription.
    pub open spec fn within(self, accounts: Seq<Seq<char>>) -> bool {
        forall|id: u64| #[trigger]
            self.records.contains_key(id) ==> accounts.contains(self.records[id].source)
                && accounts.contains(self.records[id].destination)
    }

    /// The id that the next subscription gets: one more than the last,
    /// starting again at zero after `u64::MAX`.
    pub open spec fn next_index(self) -> u64 {
        if self.index == u64::MAX {
            0
        } else {
            (self.index + 1) as u64
        }
    }

    /// The record that `create` stores.
    pub open spec fn fresh_record(
        self,
        source: Seq<char>,
        destination: Seq<char>,
        flow: u128,
        now: u64,
    ) -> SubscriptionView {
        SubscriptionView { id: self.next_index(), source, destination, flow, timestamp: now }
    }

    /// The ledger after a subscription from `source` to `destination` was
    /// created at `now`.
    pub open spec fn create(
        self,
        source: Seq<char>,
        destination: Seq<char>,
        flow: u128,
        now: u64,
    ) -> LedgerView {
        let id = self.next_index();
        LedgerView {
            index: id,
            records: self.records.insert(id, self.fresh_record(source, destination, flow, now)),
            inputs: self.inputs.insert(destination, self.inputs_of(destination).push(id)),
            outputs: self.outputs.insert(source, self.outputs_of(source).push(id)),
        }
    }

    /// The ledger after the subscription `id` was removed: its record is
    /// gone, and `id` is struck from the inputs of its destination and from
    /// the outputs of its source. The ids that stay keep their order.
    pub open spec fn remove(self, id: u64) -> LedgerView {
        let record = self.records[id];
        LedgerView {
            index: self.index,
            records: self.records.remove(id),
            inputs: self.inputs.insert(
                record.destination,
                self.inputs_of(record.destination).filter(other_than(id)),
            ),
            outputs: self.outputs.insert(
                record.source,
                self.outputs_of(record.source).filter(other_than(id)),
            ),
        }
    }

    /// The ledger with `record` stored under `id`.
    pub open spec fn store(self, id: u64, record: SubscriptionView) -> LedgerView {
        LedgerView { records: self.records.insert(id, record), ..self }
    }

    /// Whether the next id to hand out is free. It is, unless the ids have
    /// gone round and come back to one still in use.
    pub open spec fn next_is_free(self) -> bool {
        !self.records.contains_key(self.next_index())
    }

    /// Every id that `index` lists for an account is an active subscription
    /// whose account on that side (`destination` for inputs, `source` for
    /// outputs) is that account, and no list names an id twice.
    pub open spec fn index_sound(self, index: Map<Seq<char>, Seq<u64>>, by_destination: bool) -> bool {
        &&& forall|account: Seq<char>| (#[trigger] ids_of(index, account)).no_duplicates()
        &&& forall|account: Seq<char>, k: int|
            0 <= k < ids_of(index, account).len() ==> {
                let id = #[trigger] ids_of(index, account)[k];
                &&& self.records.contains_key(id)
                &&& by_destination ==> self.records[id].destination == account
                &&& !by_destination ==> self.records[id].source == account
            }
    }

    /// The ledger and its indexes agree. There are finitely many active
    /// subscriptions. Each is stored under its own id, streams something
    /// between two different accounts, and is listed exactly once in the
    /// inputs of its destination and exactly once in the outputs of its
    /// source; the indexes list nothing else.
    pub open spec fn wf(self) -> bool {
        &&& self.records.dom().finite()
        &&& forall|id: u64| #[trigger] self.records.contains_key(id) ==> self.record_sound(id)
        &&& self.index_sound(self.inputs, true)
        &&& self.index_sound(self.outputs, false)
    }

    /// The record under `id` carries that id, streams something between two
    /// different accounts, and is listed in the inputs of its destination
    /// and in the outputs of its source.
    pub open spec fn record_sound(self, id: u64) -> bool {
        &&& self.records[id].id == id
        &&& self.records[id].valid()
        &&& self.inputs_of(self.records[id].destination).contains(id)
        &&& self.outputs_of(self.records[id].source).contains(id)
    }
}

/// What striking `id` from a list leaves: the other ids, each as often as
/// before.
pub proof fn lemma_strike(ids: Seq<u64>, id: u64)
    ensures
        forall|x: u64|
            #[trigger] ids.filter(other_than(id)).contains(x) <==> (ids.contains(x) && x != id),
        ids.no_duplicates() ==> ids.filter(other_than(id)).no_duplicates(),
        !ids.contains(id) ==> ids.filter(other_than(id)) == ids,
        ids.filter(other_than(id)).len() <= ids.len(),
    decreases ids.len(),
{
    reveal(Seq::filter);
    let kept = ids.filter(other_than(id));
    if ids.len() > 0 {
        let front = ids.drop_last();
        let last = ids.last();
        let front_kept = front.filter(other_than(id));
        lemma_strike(front, id);
        assert forall|x: u64| #[trigger] kept.contains(x) <==> (ids.contains(x) && x != id) by {
            if kept.contains(x) {
                let i = choose|i: int| 0 <= i < kept.len() && kept[i] == x;
                if last != id && i == kept.len() - 1 {
                    assert(ids[ids.len() - 1] == x);
                } else {
                    assert(front_kept[i] == x);
                    assert(front_kept.contains(x));
                    let j = choose|j: int| 0 <= j < front.len() && front[j] == x;
                    assert(ids[j] == x);
                }
            }
            if ids.contains(x) && x != id {
                let j = choose|j: int| 0 <= j < ids.len() && ids[j] == x;
                if j == ids.len() - 1 {
                    assert(kept[kept.len() - 1] == x);
                } else {
                    assert(front[j] == x);
                    assert(front_kept.contains(x));
                    let i = choose|i: int| 0 <= i < front_kept.len() && front_kept[i] == x;
                    assert(kept[i] == x);
                }
            }
        }
        if ids.no_duplicates() {
            assert forall|i: int, j: int| 0 <= i < j < front.len() implies front[i] != front[j] by {
                assert(ids[i] != ids[j]);
            }
            assert(front.no_duplicates());
            if last != id {
                if front_kept.contains(last) {
                    let j = choose|j: int| 0 <= j < front.len() && front[j] == last;
                    assert(ids[j] == ids[ids.len() - 1]);
                }
                assert forall|i: int, j: int| 0 <= i < j < kept.len() implies kept[i]
                    != kept[j] by {
                    if j == kept.len() - 1 {
                        assert(front_kept[i] == kept[i]);
                        assert(front_kept.contains(kept[i]));
                    } else {
                        assert(front_kept[i] != front_kept[j]);
                    }
                }
            }
        }
        if !ids.contains(id) {
            assert(ids[ids.len() - 1] != id);
            assert forall|j: int| 0 <= j < front.len() implies front[j] != id by {
                assert(ids[j] != id);
            }
            assert(!front.contains(id));
            assert(kept =~= ids);
        }
    }
}

impl LedgerView {
    /// Creating a valid subscription under a free id keeps the ledger and
    /// its indexes in agreement.
    pub proof fn lemma_create_keeps_wf(
        self,
        source: Seq<char>,
        destination: Seq<char>,
        flow: u128,
        now: u64,
    )
        requires
            self.wf(),
            flow > 0,
            source != destination,
            self.next_is_free(),
        ensures
            self.create(source, destination, flow, now).wf(),
    {
        let after = self.create(source, destination, flow, now);
        let id = self.next_index();
        assert(after.inputs_of(destination) == self.inputs_of(destination).push(id));
        assert(after.outputs_of(source) == self.outputs_of(source).push(id));
        assert forall|other: u64| #[trigger] after.records.contains_key(other) implies {
            &&& after.records[other].id == other
            &&& after.records[other].valid()
            &&& after.inputs_of(after.records[other].destination).contains(other)
            &&& after.outputs_of(after.records[other].source).contains(other)
        } by {
            if other == id {
                let ins = after.inputs_of(destination);
                assert(ins[ins.len() - 1] == id);
                let outs = after.outputs_of(source);
                assert(outs[outs.len() - 1] == id);
            } else {
                assert(self.records.contains_key(other));
                let record = self.records[other];
                let ins = self.inputs_of(record.destination);
                let k = choose|k: int| 0 <= k < ins.len() && ins[k] == other;
                assert(after.inputs_of(record.destination)[k] == other);
                let outs = self.outputs_of(record.source);
                let m = choose|m: int| 0 <= m < outs.len() && outs[m] == other;
                assert(after.outputs_of(record.source)[m] == other);
            }
        }
        self.lemma_push_keeps_index_sound(after, self.inputs, destination, true);
        self.lemma_push_keeps_index_sound(after, self.outputs, source, false);
    }

    /// Listing a new record's id under its account keeps an index sound.
    proof fn lemma_push_keeps_index_sound(
        self,
        after: LedgerView,
        index: Map<Seq<char>, Seq<u64>>,
        account: Seq<char>,
        by_destination: bool,
    )
        requires
            self.index_sound(index, by_destination),
            self.next_is_free(),
            after.records == self.records.insert(self.next_index(), after.records[self.next_index()]),
            by_destination ==> after.records[self.next_index()].destination == account,
            !by_destination ==> after.records[self.next_index()].source == account,
        ensures
            after.index_sound(
                index.insert(account, ids_of(index, account).push(self.next_index())),
                by_destination,
            ),
    {
        let id = self.next_index();
        let grown = index.insert(account, ids_of(index, account).push(id));
        assert forall|a: Seq<char>, k: int| 0 <= k < ids_of(grown, a).len() implies {
            let listed = #[trigger] ids_of(grown, a)[k];
            &&& after.records.contains_key(listed)
            &&& by_destination ==> after.records[listed].destination == a
            &&& !by_destination ==> after.records[listed].source == a
        } by {
            if a == account && k == ids_of(index, account).len() {
            } else {
                let listed = ids_of(index, a)[k];
                assert(self.records.contains_key(listed));
            }
        }
        assert forall|a: Seq<char>| (#[trigger] ids_of(grown, a)).no_duplicates() by {
            assert(ids_of(index, a).no_duplicates());
            if a == account {
                let before = ids_of(index, account);
                let now = ids_of(grown, account);
                assert forall|i: int, j: int| 0 <= i < j < now.len() implies now[i] != now[j] by {
                    if j == before.len() {
                        let listed = before[i];
                        assert(self.records.contains_key(listed));
                    } else {
                        assert(before[i] != before[j]);
                    }
                }
            }
        }
    }

    /// Removing an active subscription keeps the ledger and its indexes in
    /// agreement, and leaves its id in no list of any account.
    pub proof fn lemma_remove_keeps_wf(self, id: u64)
        requires
            self.wf(),
            self.records.contains_key(id),
        ensures
            self.remove(id).wf(),
            forall|account: Seq<char>|
                !(#[trigger] self.remove(id).inputs_of(account)).contains(id),
            forall|account: Seq<char>|
                !(#[trigger] self.remove(id).outputs_of(account)).contains(id),
    {
        let after = self.remove(id);
        let gone = self.records[id];
        lemma_strike(self.inputs_of(gone.destination), id);
        lemma_strike(self.outputs_of(gone.source), id);
        assert(after.inputs_of(gone.destination) == self.inputs_of(gone.destination).filter(
            other_than(id),
        ));
        assert(after.outputs_of(gone.source) == self.outputs_of(gone.source).filter(
            other_than(id),
        ));
        assert forall|other: u64| #[trigger] after.records.contains_key(other) implies {
            &&& after.records[other].id == other
            &&& after.records[other].valid()
            &&& after.inputs_of(after.records[other].destination).contains(other)
            &&& after.outputs_of(after.records[other].source).contains(other)
        } by {
            assert(self.records.contains_key(other));
            assert(self.inputs_of(self.records[other].destination).contains(other));
            assert(self.outputs_of(self.records[other].source).contains(other));
        }
        self.lemma_strike_keeps_index_sound(after, self.inputs, id, gone.destination, true);
        self.lemma_strike_keeps_index_sound(after, self.outputs, id, gone.source, false);
    }

    /// Striking a removed record's id from the list of its account keeps an
    /// index sound and leaves the id in none of its lists.
    proof fn lemma_strike_keeps_index_sound(
        self,
        after: LedgerView,
        index: Map<Seq<char>, Seq<u64>>,
        id: u64,
        account: Seq<char>,
        by_destination: bool,
    )
        requires
            self.index_sound(index, by_destination),
            self.records.contains_key(id),
            by_destination ==> self.records[id].destination == account,
            !by_destination ==> self.records[id].source == account,
            after.records == self.records.remove(id),
        ensures
            after.index_sound(
                index.insert(account, ids_of(index, account).filter(other_than(id))),
                by_destination,
            ),
            forall|a: Seq<char>|
                !(#[trigger] ids_of(
                    index.insert(account, ids_of(index, account).filter(other_than(id))),
                    a,
                )).contains(id),
    {
        let struck = index.insert(account, ids_of(index, account).filter(other_than(id)));
        lemma_strike(ids_of(index, account), id);
        assert forall|a: Seq<char>| !(#[trigger] ids_of(struck, a)).contains(id) by {
            if a != account {
                if ids_of(index, a).contains(id) {
                    let k = choose|k: int| 0 <= k < ids_of(index, a).len() && ids_of(index, a)[k]
                        == id;
                    assert(ids_of(index, a)[k] == id);
                }
            }
        }
        assert forall|a: Seq<char>| (#[trigger] ids_of(struck, a)).no_duplicates() by {
            assert(ids_of(index, a).no_duplicates());
        }
        assert forall|a: Seq<char>, k: int| 0 <= k < ids_of(struck, a).len() implies {
            let listed = #[trigger] ids_of(struck, a)[k];
            &&& after.records.contains_key(listed)
            &&& by_destination ==> after.records[listed].destination == a
            &&& !by_destination ==> after.records[listed].source == a
        } by {
            let listed = ids_of(struck, a)[k];
            assert(ids_of(struck, a).contains(listed));
            assert(listed != id);
            assert(ids_of(index, a).contains(listed));
            let j = choose|j: int| 0 <= j < ids_of(index, a).len() && ids_of(index, a)[j]
                == listed;
            assert(ids_of(index, a)[j] == listed);
        }
    }

    /// Storing, under the id of an active subscription, a valid record
    /// between the same two accounts keeps the ledger and its indexes in
    /// agreement.
    pub proof fn lemma_store_keeps_wf(self, id: u64, record: SubscriptionView)
        requires
            self.wf(),
            self.records.contains_key(id),
            record.id == id,
            record.valid(),
            record.source == self.records[id].source,
            record.destination == self.records[id].destination,
        ensures
            self.store(id, record).wf(),
    {
        let after = self.store(id, record);
        assert forall|other: u64| #[trigger] after.records.contains_key(other) implies {
            &&& after.records[other].id == other
            &&& after.records[other].valid()
            &&& after.inputs_of(after.records[other].destination).contains(other)
            &&& after.outputs_of(after.records[other].source).contains(other)
        } by {
            assert(self.records.contains_key(other));
        }
        assert forall|a: Seq<char>, k: int| 0 <= k < ids_of(after.inputs, a).len() implies {
            let listed = #[trigger] ids_of(after.inputs, a)[k];
            &&& after.records.contains_key(listed)
            &&& after.records[listed].destination == a
        } by {
            let listed = ids_of(self.inputs, a)[k];
            assert(self.records.contains_key(listed));
        }
        assert forall|a: Seq<char>, k: int| 0 <= k < ids_of(after.outputs, a).len() implies {
            let listed = #[trigger] ids_of(after.outputs, a)[k];
            &&& after.records.contains_key(listed)
            &&& after.records[listed].source == a
        } by {
            let listed = ids_of(self.outputs, a)[k];
            assert(self.records.contains_key(listed));
        }
    }
}

/// What [`LedgerView::index_sound`] asks of the list of one account.
pub open spec fn list_sound(
    records: Map<u64, SubscriptionView>,
    account: Seq<char>,
    ids: Seq<u64>,
    by_destination: bool,
) -> bool {
    &&& ids.no_duplicates()
    &&& forall|k: int|
        0 <= k < ids.len() ==> {
            let id = #[trigger] ids[k];
            &&& records.contains_key(id)
            &&& by_destination ==> records[id].destination == account
            &&& !by_destination ==> records[id].source == account
        }
}

} // verus!
