//! What holds of the ledger and the balances across operations.

use vstd::prelude::*;

use crate::accrual::accrued;
use crate::accrual::capped_add;
use crate::accrual::lemma_nothing_accrues_in_no_time;
use crate::contract::Operation;
use crate::contract::PaystreamView;
use crate::ledger_view::LedgerView;
use crate::projection::accrual_of;
use crate::projection::balance_of;
use crate::projection::credited;
use crate::projection::debited;
use crate::projection::lemma_sum_of_parts;
use crate::projection::lemma_sum_raised_at;
use crate::projection::lemma_total_agrees;
use crate::projection::lemma_total_nothing;
use crate::projection::lemma_total_one_changed;
use crate::projection::lemma_total_push;
use crate::projection::lemma_total_struck;
use crate::projection::sum_over;
use crate::projection::total_accrued;
use crate::projection::transferred;
use crate::subscription::SubscriptionView;

verus! {

/// A subscription that was just created is found under its id, as the
/// record that was returned: between the given accounts, at the given flow,
/// settled at the time of creation.
pub proof fn law_created_is_stored(
    ledger: LedgerView,
    source: Seq<char>,
    destination: Seq<char>,
    flow: u128,
    now: u64,
)
    ensures
        ({
            let after = ledger.create(source, destination, flow, now);
            &&& after.records.contains_key(after.index)
            &&& after.records[after.index] == ledger.fresh_record(source, destination, flow, now)
            &&& after.records[after.index] == (SubscriptionView {
                id: after.index,
                source,
                destination,
                flow,
                timestamp: now,
            })
        }),
{
}

/// A subscription that was removed is no longer found, and its id is
/// neither in the inputs of its destination nor in the outputs of its
/// source. In a ledger whose indexes agree with it, the id is in no list
/// at all afterwards.
pub proof fn law_removed_is_gone(ledger: LedgerView, id: u64)
    requires
        ledger.records.contains_key(id),
    ensures
        !ledger.remove(id).records.contains_key(id),
        !ledger.remove(id).inputs_of(ledger.records[id].destination).contains(id),
        !ledger.remove(id).outputs_of(ledger.records[id].source).contains(id),
        ledger.wf() ==> forall|account: Seq<char>|
            !(#[trigger] ledger.remove(id).listed_for(account)).contains(id),
{
    let gone = ledger.records[id];
    crate::ledger_view::lemma_strike(ledger.inputs_of(gone.destination), id);
    crate::ledger_view::lemma_strike(ledger.outputs_of(gone.source), id);
    if ledger.wf() {
        ledger.lemma_remove_keeps_wf(id);
        let after = ledger.remove(id);
        assert forall|account: Seq<char>| !(#[trigger] after.listed_for(account)).contains(
            id,
        ) by {
            vstd::seq_lib::lemma_seq_concat_contains_all_elements(
                after.inputs_of(account),
                after.outputs_of(account),
                id,
            );
        }
    }
}

/// In a ledger whose indexes agree with it, the list for an account names
/// no id twice, and it has as many ids as there are active subscriptions
/// with that account as source or destination.
pub proof fn law_listing_is_exact(ledger: LedgerView, account: Seq<char>)
    requires
        ledger.wf(),
    ensures
        ledger.listed_for(account).no_duplicates(),
        ledger.listed_for(account).len() == Set::new(
            |id: u64|
                ledger.records.contains_key(id) && (ledger.records[id].source == account
                    || ledger.records[id].destination == account),
        ).len(),
{
    let inputs = ledger.inputs_of(account);
    let outputs = ledger.outputs_of(account);
    let listed = ledger.listed_for(account);
    let touching = Set::new(
        |id: u64|
            ledger.records.contains_key(id) && (ledger.records[id].source == account
                || ledger.records[id].destination == account),
    );
    assert(inputs.no_duplicates());
    assert(outputs.no_duplicates());
    assert forall|i: int, j: int| 0 <= i < inputs.len() && 0 <= j < outputs.len() implies inputs[i]
        != outputs[j] by {
        let a = inputs[i];
        let b = outputs[j];
        assert(ledger.records.contains_key(a) && ledger.records[a].destination == account);
        assert(ledger.records.contains_key(b) && ledger.records[b].source == account);
    }
    vstd::seq_lib::lemma_no_dup_in_concat(inputs, outputs);
    assert forall|id: u64| listed.to_set().contains(id) <==> touching.contains(id) by {
        vstd::seq_lib::lemma_seq_concat_contains_all_elements(inputs, outputs, id);
        if inputs.contains(id) {
            let k = choose|k: int| 0 <= k < inputs.len() && inputs[k] == id;
            assert(ledger.records.contains_key(inputs[k]));
        }
        if outputs.contains(id) {
            let k = choose|k: int| 0 <= k < outputs.len() && outputs[k] == id;
            assert(ledger.records.contains_key(outputs[k]));
        }
    }
    assert(listed.to_set() =~= touching);
    listed.unique_seq_to_set();
}

/// Where the balance plus the inputs fits in `u128` and the outputs do not
/// exceed it, the projected balance is the persisted balance plus what has
/// accrued in, minus what has accrued out: neither limit is met.
pub proof fn law_projection_within_limits(state: PaystreamView, account: Seq<char>, now: u64)
    requires
        state.balance_of(account) + total_accrued(
            state.ledger.records,
            state.ledger.inputs_of(account),
            now,
        ) <= u128::MAX,
        state.net(account, now) >= 0,
    ensures
        state.projected(account, now) == state.net(account, now),
{
}

/// Whether every subscription listed for `account` was created or last
/// settled at `now` or later, so that no time has elapsed for it at `now`.
pub open spec fn all_settled(ledger: LedgerView, account: Seq<char>, now: u64) -> bool {
    forall|k: int|
        0 <= k < ledger.listed_for(account).len() && ledger.records.contains_key(
            #[trigger] ledger.listed_for(account)[k],
        ) ==> ledger.records[ledger.listed_for(account)[k]].timestamp >= now
}

/// An account whose subscriptions have all been settled at `now` or later
/// projects its persisted balance at `now`, exactly: no time has elapsed,
/// so nothing has accrued.
pub proof fn law_unelapsed_streams_add_nothing(state: PaystreamView, account: Seq<char>, now: u64)
    requires
        all_settled(state.ledger, account, now),
    ensures
        state.projected(account, now) == state.balance_of(account),
        state.net(account, now) == state.balance_of(account),
{
    let inputs = state.ledger.inputs_of(account);
    let outputs = state.ledger.outputs_of(account);
    let listed = state.ledger.listed_for(account);
    assert forall|k: int| 0 <= k < listed.len() implies accrual_of(
        state.ledger.records,
        #[trigger] listed[k],
        now,
    ) == 0 by {
        if state.ledger.records.contains_key(listed[k]) {
            let record = state.ledger.records[listed[k]];
            lemma_nothing_accrues_in_no_time(record.flow, record.timestamp, now);
        }
    }
    assert forall|k: int| 0 <= k < inputs.len() implies accrual_of(
        state.ledger.records,
        #[trigger] inputs[k],
        now,
    ) == 0 by {
        assert(listed[k] == inputs[k]);
    }
    assert forall|k: int| 0 <= k < outputs.len() implies accrual_of(
        state.ledger.records,
        #[trigger] outputs[k],
        now,
    ) == 0 by {
        assert(listed[inputs.len() + k] == outputs[k]);
    }
    lemma_total_nothing(state.ledger.records, inputs, now);
    lemma_total_nothing(state.ledger.records, outputs, now);
}

/// Settlement leaves nothing behind. A record settled at `now` shows `now`
/// as its time of settlement and has accrued nothing at `now`, so that
/// settling it again at the same instant moves nothing; and where the clock
/// has not gone back, the time of settlement has not either.
pub proof fn law_settlement_leaves_nothing(record: SubscriptionView, now: u64)
    ensures
        record.settled(now).timestamp == now,
        record.settled(now).accrual(now) == 0,
        now >= record.timestamp ==> record.settled(now).timestamp >= record.timestamp,
        record.settled(now).flow == record.flow,
        record.settled(now).source == record.source,
        record.settled(now).destination == record.destination,
{
    lemma_nothing_accrues_in_no_time(record.flow, now, now);
}

/// How creating a subscription at `created_at` shows in the sums at a later
/// `now`: the new subscription adds what it has accrued since to the inputs
/// of its destination and to the outputs of its source, and nothing else
/// changes.
pub proof fn lemma_creation_in_sums(
    ledger: LedgerView,
    source: Seq<char>,
    destination: Seq<char>,
    rate: u128,
    created_at: u64,
    account: Seq<char>,
    now: u64,
)
    requires
        ledger.wf(),
        ledger.next_is_free(),
    ensures
        ({
            let after = ledger.create(source, destination, rate, created_at);
            let grown = if created_at <= now {
                accrued(rate, created_at, now) as nat
            } else {
                0
            };
            &&& total_accrued(after.records, after.inputs_of(account), now) == total_accrued(
                ledger.records,
                ledger.inputs_of(account),
                now,
            ) + if account == destination {
                grown
            } else {
                0
            }
            &&& total_accrued(after.records, after.outputs_of(account), now) == total_accrued(
                ledger.records,
                ledger.outputs_of(account),
                now,
            ) + if account == source {
                grown
            } else {
                0
            }
        }),
{
    let after = ledger.create(source, destination, rate, created_at);
    let id = ledger.next_index();
    let inputs = ledger.inputs_of(account);
    let outputs = ledger.outputs_of(account);
    assert forall|k: int| 0 <= k < inputs.len() implies accrual_of(
        ledger.records,
        #[trigger] inputs[k],
        now,
    ) == accrual_of(after.records, inputs[k], now) by {
        assert(ledger.records.contains_key(inputs[k]));
    }
    assert forall|k: int| 0 <= k < outputs.len() implies accrual_of(
        ledger.records,
        #[trigger] outputs[k],
        now,
    ) == accrual_of(after.records, outputs[k], now) by {
        assert(ledger.records.contains_key(outputs[k]));
    }
    lemma_total_agrees(ledger.records, after.records, inputs, now);
    lemma_total_agrees(ledger.records, after.records, outputs, now);
    assert(after.records.contains_key(id));
    assert(after.records[id].accrual(now) == accrued(rate, created_at, now));
    if created_at > now {
        lemma_nothing_accrues_in_no_time(rate, created_at, now);
    }
    if account == destination {
        assert(after.inputs_of(account) == inputs.push(id));
        lemma_total_push(after.records, inputs, id, now);
    } else {
        assert(after.inputs_of(account) == inputs);
    }
    if account == source {
        assert(after.outputs_of(account) == outputs.push(id));
        lemma_total_push(after.records, outputs, id, now);
    } else {
        assert(after.outputs_of(account) == outputs);
    }
}

/// Creating a subscription at `now` changes no account's balance at `now`,
/// persisted or projected: the new stream has accrued nothing yet.
pub proof fn law_creation_adds_nothing(
    state: PaystreamView,
    source: Seq<char>,
    destination: Seq<char>,
    rate: u128,
    now: u64,
    account: Seq<char>,
)
    requires
        state.ledger.wf(),
        state.ledger.next_is_free(),
    ensures
        state.created(source, destination, rate, now).balance_of(account) == state.balance_of(
            account,
        ),
        state.created(source, destination, rate, now).net(account, now) == state.net(account, now),
        state.created(source, destination, rate, now).projected(account, now) == state.projected(
            account,
            now,
        ),
{
    lemma_nothing_accrues_in_no_time(rate, now, now);
    lemma_creation_in_sums(state.ledger, source, destination, rate, now, account, now);
}

/// Right after a subscription is created, an account that had no other
/// subscription, or only ones settled at that instant, projects its
/// persisted balance exactly.
pub proof fn law_balance_at_creation(
    state: PaystreamView,
    source: Seq<char>,
    destination: Seq<char>,
    rate: u128,
    now: u64,
    account: Seq<char>,
)
    requires
        state.ledger.wf(),
        state.ledger.next_is_free(),
        all_settled(state.ledger, account, now),
    ensures
        state.created(source, destination, rate, now).projected(account, now) == state.balance_of(
            account,
        ),
        state.created(source, destination, rate, now).projected(account, now) == state.created(
            source,
            destination,
            rate,
            now,
        ).balance_of(account),
{
    law_creation_adds_nothing(state, source, destination, rate, now, account);
    law_unelapsed_streams_add_nothing(state, account, now);
}

/// A subscription with flow `rate` created at `created_at` shows at a later
/// `now` as exactly `(now - created_at) * rate` more in the balance of its
/// destination and as much less in that of its source, before the limits
/// of `u128` are applied; the product itself is capped at `u128::MAX`. A
/// destination without other subscriptions projects its persisted balance
/// plus that amount, capped.
pub proof fn law_stream_accrues(
    state: PaystreamView,
    source: Seq<char>,
    destination: Seq<char>,
    rate: u128,
    created_at: u64,
    now: u64,
)
    requires
        state.ledger.wf(),
        state.ledger.next_is_free(),
        source != destination,
        created_at <= now,
    ensures
        ({
            let after = state.created(source, destination, rate, created_at);
            let amount = accrued(rate, created_at, now);
            &&& (now - created_at) * rate <= u128::MAX ==> amount == (now - created_at) * rate
            &&& (now - created_at) * rate > u128::MAX ==> amount == u128::MAX
            &&& after.net(destination, now) == state.net(destination, now) + amount
            &&& after.net(source, now) == state.net(source, now) - amount
            &&& state.ledger.listed_for(destination).len() == 0 ==> after.projected(
                destination,
                now,
            ) == capped_add(state.balance_of(destination), amount)
        }),
{
    lemma_creation_in_sums(state.ledger, source, destination, rate, created_at, destination, now);
    lemma_creation_in_sums(state.ledger, source, destination, rate, created_at, source, now);
    if state.ledger.listed_for(destination).len() == 0 {
        assert(state.ledger.inputs_of(destination).len() == 0);
        assert(state.ledger.outputs_of(destination).len() == 0);
    }
}

/// A change of flow settles first: what the subscription has accrued at its
/// old flow moves from its source to its destination, and only then does
/// the record take the new flow, with `now` as its time of settlement, so
/// that nothing is left to settle at `now`.
pub proof fn law_update_settles_first(state: PaystreamView, id: u64, new_flow: u128, now: u64)
    requires
        state.ledger.wf(),
        state.update_error(id, new_flow, now) is None,
    ensures
        ({
            let record = state.ledger.records[id];
            let amount = accrued(record.flow, record.timestamp, now);
            let after = state.updated(id, new_flow, now);
            &&& after.balance_of(record.source) == state.balance_of(record.source) - amount
            &&& after.balance_of(record.destination) == capped_add(
                state.balance_of(record.destination),
                amount,
            )
            &&& after.ledger.records[id] == (SubscriptionView {
                flow: new_flow,
                timestamp: now,
                ..record
            })
            &&& after.ledger.records[id].accrual(now) == 0
            &&& after.ledger.wf()
        }),
{
    let record = state.ledger.records[id];
    assert(state.ledger.records.contains_key(id));
    assert(record.valid());
    lemma_nothing_accrues_in_no_time(new_flow, now, now);
    state.ledger.lemma_store_keeps_wf(id, record.settled(now).with_flow(new_flow));
}

/// A transfer neither makes nor loses value: unless the destination's
/// balance meets `u128::MAX`, the two accounts hold together what they
/// held before, and every other account holds what it held.
pub proof fn law_transfer_conserves(
    balances: Map<Seq<char>, u128>,
    source: Seq<char>,
    destination: Seq<char>,
    amount: u128,
    other: Seq<char>,
)
    requires
        balance_of(balances, source) >= amount,
        source != destination ==> balance_of(balances, destination) + amount <= u128::MAX,
    ensures
        ({
            let after = transferred(balances, source, destination, amount);
            &&& source != destination ==> balance_of(after, source) + balance_of(
                after,
                destination,
            ) == balance_of(balances, source) + balance_of(balances, destination)
            &&& source == destination ==> balance_of(after, source) == balance_of(
                balances,
                source,
            )
            &&& other != source && other != destination ==> balance_of(after, other)
                == balance_of(balances, other)
        }),
{
}

/// In a ledger whose indexes agree with it, every active subscription
/// counts once towards its destination and once against its source, and
/// towards or against no other account.
pub proof fn law_each_stream_counts_once(ledger: LedgerView, id: u64, account: Seq<char>)
    requires
        ledger.wf(),
        ledger.records.contains_key(id),
    ensures
        ledger.inputs_of(account).contains(id) <==> account == ledger.records[id].destination,
        ledger.outputs_of(account).contains(id) <==> account == ledger.records[id].source,
        ledger.inputs_of(account).no_duplicates(),
        ledger.outputs_of(account).no_duplicates(),
{
    let inputs = ledger.inputs_of(account);
    let outputs = ledger.outputs_of(account);
    assert(inputs.no_duplicates());
    assert(outputs.no_duplicates());
    if inputs.contains(id) {
        let k = choose|k: int| 0 <= k < inputs.len() && inputs[k] == id;
        assert(ledger.records[inputs[k]].destination == account);
    }
    if outputs.contains(id) {
        let k = choose|k: int| 0 <= k < outputs.len() && outputs[k] == id;
        assert(ledger.records[outputs[k]].source == account);
    }
}

/// How settling the subscription `id` at `now` shows in the sums at `now`:
/// what it had accrued leaves the inputs of its destination and the
/// outputs of its source, and no other sum changes. `settled` is the
/// ledger with the same lists in which the record of `id` has accrued
/// nothing at `now`.
proof fn lemma_settlement_in_sums(
    ledger: LedgerView,
    settled: LedgerView,
    id: u64,
    account: Seq<char>,
    now: u64,
)
    requires
        ledger.wf(),
        ledger.records.contains_key(id),
        settled.inputs == ledger.inputs,
        settled.outputs == ledger.outputs,
        accrual_of(settled.records, id, now) == 0,
        forall|other: u64|
            other != id ==> accrual_of(settled.records, other, now) == accrual_of(
                ledger.records,
                other,
                now,
            ),
    ensures
        total_accrued(settled.records, settled.inputs_of(account), now) == total_accrued(
            ledger.records,
            ledger.inputs_of(account),
            now,
        ) - if account == ledger.records[id].destination {
            ledger.records[id].accrual(now) as int
        } else {
            0
        },
        total_accrued(settled.records, settled.outputs_of(account), now) == total_accrued(
            ledger.records,
            ledger.outputs_of(account),
            now,
        ) - if account == ledger.records[id].source {
            ledger.records[id].accrual(now) as int
        } else {
            0
        },
{
    law_each_stream_counts_once(ledger, id, account);
    lemma_total_one_changed(ledger.records, settled.records, ledger.inputs_of(account), id, now);
    lemma_total_one_changed(ledger.records, settled.records, ledger.outputs_of(account), id, now);
}

/// A change of flow at `now` changes no account's balance at `now` as it
/// stands with its streams counted in: what the source loses in persisted
/// balance it no longer owes, and what the destination gains it is no
/// longer owed. This holds unless the destination's persisted balance
/// meets `u128::MAX`.
pub proof fn law_update_conserves(
    state: PaystreamView,
    id: u64,
    new_flow: u128,
    now: u64,
    account: Seq<char>,
)
    requires
        state.ledger.wf(),
        state.update_error(id, new_flow, now) is None,
        state.balance_of(state.ledger.records[id].destination) + state.ledger.records[id].accrual(
            now,
        ) <= u128::MAX,
    ensures
        state.updated(id, new_flow, now).net(account, now) == state.net(account, now),
{
    let record = state.ledger.records[id];
    let after = state.updated(id, new_flow, now);
    assert(state.ledger.records.contains_key(id));
    assert(record.valid());
    lemma_nothing_accrues_in_no_time(new_flow, now, now);
    lemma_settlement_in_sums(state.ledger, after.ledger, id, account, now);
}

/// How removing the subscription `id` shows in the sums at `now`: what it
/// had accrued leaves the inputs of its destination and the outputs of its
/// source, and no other sum changes.
pub proof fn lemma_removal_in_sums(ledger: LedgerView, id: u64, account: Seq<char>, now: u64)
    requires
        ledger.wf(),
        ledger.records.contains_key(id),
    ensures
        ledger.remove(id).inflow(account, now) == ledger.inflow(account, now) - if account
            == ledger.records[id].destination {
            ledger.records[id].accrual(now) as int
        } else {
            0
        },
        ledger.remove(id).outflow(account, now) == ledger.outflow(account, now) - if account
            == ledger.records[id].source {
            ledger.records[id].accrual(now) as int
        } else {
            0
        },
{
    let record = ledger.records[id];
    let after = ledger.remove(id);
    let inputs = ledger.inputs_of(account);
    let outputs = ledger.outputs_of(account);
    law_each_stream_counts_once(ledger, id, account);
    lemma_total_struck(ledger.records, inputs, id, now);
    lemma_total_struck(ledger.records, outputs, id, now);
    crate::ledger_view::lemma_strike(inputs, id);
    crate::ledger_view::lemma_strike(outputs, id);
    let kept_inputs = inputs.filter(crate::ledger_view::other_than(id));
    let kept_outputs = outputs.filter(crate::ledger_view::other_than(id));
    assert forall|k: int| 0 <= k < kept_inputs.len() implies accrual_of(
        ledger.records,
        #[trigger] kept_inputs[k],
        now,
    ) == accrual_of(after.records, kept_inputs[k], now) by {
        assert(kept_inputs.contains(kept_inputs[k]));
    }
    assert forall|k: int| 0 <= k < kept_outputs.len() implies accrual_of(
        ledger.records,
        #[trigger] kept_outputs[k],
        now,
    ) == accrual_of(after.records, kept_outputs[k], now) by {
        assert(kept_outputs.contains(kept_outputs[k]));
    }
    lemma_total_agrees(ledger.records, after.records, kept_inputs, now);
    lemma_total_agrees(ledger.records, after.records, kept_outputs, now);
    if account == record.destination {
        assert(after.inputs_of(account) == kept_inputs);
    } else {
        assert(kept_inputs == inputs);
        assert(after.inputs_of(account) == inputs);
    }
    if account == record.source {
        assert(after.outputs_of(account) == kept_outputs);
    } else {
        assert(kept_outputs == outputs);
        assert(after.outputs_of(account) == outputs);
    }
}

/// Removing a subscription at `now` changes no account's balance at `now`
/// as it stands with its streams counted in: what the subscription had
/// accrued has moved, and the subscription no longer counts. This holds
/// unless the destination's persisted balance meets `u128::MAX`.
pub proof fn law_removal_conserves(
    state: PaystreamView,
    id: u64,
    caller: Seq<char>,
    now: u64,
    account: Seq<char>,
)
    requires
        state.ledger.wf(),
        state.remove_error(id, caller, now) is None,
        state.balance_of(state.ledger.records[id].destination) + state.ledger.records[id].accrual(
            now,
        ) <= u128::MAX,
    ensures
        state.removed(id, now).net(account, now) == state.net(account, now),
{
    assert(state.ledger.records.contains_key(id));
    assert(state.ledger.records[id].valid());
    lemma_removal_in_sums(state.ledger, id, account, now);
}

/// A deposit is the one place where value comes in: it adds `amount` to
/// the balance of the account it is for, persisted and with its streams
/// counted in, unless that meets `u128::MAX`, and changes no other
/// account's.
pub proof fn law_deposit_adds(
    state: PaystreamView,
    account: Seq<char>,
    amount: u128,
    other: Seq<char>,
    now: u64,
)
    ensures
        ({
            let after = PaystreamView {
                balances: credited(state.balances, account, amount),
                ..state
            };
            &&& after.balance_of(account) == capped_add(state.balance_of(account), amount)
            &&& state.balance_of(account) + amount <= u128::MAX ==> after.net(account, now)
                == state.net(account, now) + amount
            &&& other != account ==> after.balance_of(other) == state.balance_of(other)
            &&& other != account ==> after.net(other, now) == state.net(other, now)
        }),
{
}

/// In a ledger whose indexes agree with it, what streams into the accounts
/// of a list is what streams out of them, if the list names each account
/// once and leaves out no account that a subscription pays from or to.
proof fn lemma_inflow_is_outflow(ledger: LedgerView, accounts: Seq<Seq<char>>, now: u64)
    requires
        ledger.wf(),
        accounts.no_duplicates(),
        ledger.within(accounts),
    ensures
        sum_over(accounts, ledger.inflows(now)) == sum_over(accounts, ledger.outflows(now)),
    decreases ledger.records.dom().len(),
{
    if ledger.records.dom().len() == 0 {
        assert forall|k: int| 0 <= k < accounts.len() implies (ledger.inflows(now))(
            #[trigger] accounts[k],
        ) == (ledger.outflows(now))(accounts[k]) + 0 by {
            let inputs = ledger.inputs_of(accounts[k]);
            let outputs = ledger.outputs_of(accounts[k]);
            if inputs.len() > 0 {
                assert(ledger.records.dom().contains(inputs[0]));
            }
            if outputs.len() > 0 {
                assert(ledger.records.dom().contains(outputs[0]));
            }
        }
        lemma_sum_raised_at(accounts, ledger.inflows(now), ledger.outflows(now), seq![], 0);
    } else {
        let id = ledger.records.dom().choose();
        assert(ledger.records.contains_key(id));
        let record = ledger.records[id];
        let amount = record.accrual(now) as int;
        let rest = ledger.remove(id);
        ledger.lemma_remove_keeps_wf(id);
        assert(rest.within(accounts)) by {
            assert forall|other: u64| #[trigger] rest.records.contains_key(other) implies (
            accounts.contains(rest.records[other].source) && accounts.contains(
                rest.records[other].destination,
            )) by {
                assert(ledger.records.contains_key(other));
            }
        }
        lemma_inflow_is_outflow(rest, accounts, now);
        assert forall|k: int| 0 <= k < accounts.len() implies (ledger.inflows(now))(
            #[trigger] accounts[k],
        ) == (rest.inflows(now))(accounts[k]) + if accounts[k] == record.destination {
            amount
        } else {
            0
        } by {
            lemma_removal_in_sums(ledger, id, accounts[k], now);
        }
        assert forall|k: int| 0 <= k < accounts.len() implies (ledger.outflows(now))(
            #[trigger] accounts[k],
        ) == (rest.outflows(now))(accounts[k]) + if accounts[k] == record.source {
            amount
        } else {
            0
        } by {
            lemma_removal_in_sums(ledger, id, accounts[k], now);
        }
        lemma_sum_raised_at(
            accounts,
            ledger.inflows(now),
            rest.inflows(now),
            record.destination,
            amount,
        );
        lemma_sum_raised_at(accounts, ledger.outflows(now), rest.outflows(now), record.source, amount);
    }
}

/// Streams make no value and lose none. At any time, the accounts hold
/// together, with their streams counted in, exactly what they hold in
/// persisted balance: what has accrued to one account has accrued against
/// another. This is said of a list that names each account once and leaves
/// out no account that a subscription pays from or to, and of balances
/// before the limits of `u128` are applied.
pub proof fn law_streams_only_move_value(
    state: PaystreamView,
    accounts: Seq<Seq<char>>,
    now: u64,
)
    requires
        state.ledger.wf(),
        accounts.no_duplicates(),
        state.ledger.within(accounts),
    ensures
        state.total_net(accounts, now) == state.total_persisted(accounts),
{
    lemma_inflow_is_outflow(state.ledger, accounts, now);
    lemma_sum_of_parts(
        accounts,
        state.nets(now),
        state.persisted(),
        state.ledger.inflows(now),
        state.ledger.outflows(now),
    );
}

/// A transfer between two accounts of a list that names each account once
/// leaves what the accounts of the list hold together in persisted balance
/// as it was, unless the destination's balance meets `u128::MAX`. `after`
/// is any state whose balances are those of `state` after the transfer.
pub proof fn law_transfer_keeps_total(
    state: PaystreamView,
    after: PaystreamView,
    source: Seq<char>,
    destination: Seq<char>,
    amount: u128,
    accounts: Seq<Seq<char>>,
)
    requires
        accounts.no_duplicates(),
        accounts.contains(source),
        accounts.contains(destination),
        state.balance_of(source) >= amount,
        source != destination ==> state.balance_of(destination) + amount <= u128::MAX,
        after.balances == transferred(state.balances, source, destination, amount),
    ensures
        after.total_persisted(accounts) == state.total_persisted(accounts),
{
    let between = PaystreamView { balances: debited(state.balances, source, amount), ..state };
    assert forall|k: int| 0 <= k < accounts.len() implies (state.persisted())(
        #[trigger] accounts[k],
    ) == (between.persisted())(accounts[k]) + if accounts[k] == source {
        amount as int
    } else {
        0
    } by {}
    lemma_sum_raised_at(accounts, state.persisted(), between.persisted(), source, amount as int);
    assert forall|k: int| 0 <= k < accounts.len() implies (after.persisted())(
        #[trigger] accounts[k],
    ) == (between.persisted())(accounts[k]) + if accounts[k] == destination {
        amount as int
    } else {
        0
    } by {}
    lemma_sum_raised_at(
        accounts,
        after.persisted(),
        between.persisted(),
        destination,
        amount as int,
    );
}

/// The list of accounts still leaves out no account that a subscription
/// pays from or to when the records are those of `ledger` with one record
/// between two accounts of the list stored or one record taken out.
proof fn lemma_still_within(
    ledger: LedgerView,
    after: LedgerView,
    accounts: Seq<Seq<char>>,
    id: u64,
)
    requires
        ledger.within(accounts),
        forall|other: u64|
            other != id && #[trigger] after.records.contains_key(other)
                ==> ledger.records.contains_key(other) && after.records[other]
                == ledger.records[other],
        after.records.contains_key(id) ==> accounts.contains(after.records[id].source)
            && accounts.contains(after.records[id].destination),
    ensures
        after.within(accounts),
{
    assert forall|other: u64| #[trigger] after.records.contains_key(other) implies (
    accounts.contains(after.records[other].source) && accounts.contains(
        after.records[other].destination,
    )) by {
        if other != id {
            assert(ledger.records.contains_key(other));
        }
    }
}

/// Conservation, for creation. Creating a subscription between two accounts
/// of the list leaves what the accounts hold together as it was, in
/// persisted balance and, at any time, with their streams counted in.
pub proof fn law_creation_keeps_total(
    state: PaystreamView,
    accounts: Seq<Seq<char>>,
    source: Seq<char>,
    destination: Seq<char>,
    rate: u128,
    now: u64,
    later: u64,
)
    requires
        state.ledger.wf(),
        state.ledger.next_is_free(),
        rate > 0,
        source != destination,
        accounts.no_duplicates(),
        state.ledger.within(accounts),
        accounts.contains(source),
        accounts.contains(destination),
    ensures
        state.created(source, destination, rate, now).total_persisted(accounts)
            == state.total_persisted(accounts),
        state.created(source, destination, rate, now).total_net(accounts, later) == state.total_net(
            accounts,
            later,
        ),
{
    let after = state.created(source, destination, rate, now);
    state.ledger.lemma_create_keeps_wf(source, destination, rate, now);
    lemma_still_within(state.ledger, after.ledger, accounts, state.ledger.next_index());
    law_streams_only_move_value(state, accounts, later);
    law_streams_only_move_value(after, accounts, later);
    assert forall|k: int| 0 <= k < accounts.len() implies (after.persisted())(
        #[trigger] accounts[k],
    ) == (state.persisted())(accounts[k]) + 0 by {}
    lemma_sum_raised_at(accounts, after.persisted(), state.persisted(), seq![], 0);
}

/// Conservation, for a change of flow. It leaves what the accounts hold
/// together as it was, in persisted balance and, at any time, with their
/// streams counted in, unless the destination's persisted balance meets
/// `u128::MAX`.
pub proof fn law_update_keeps_total(
    state: PaystreamView,
    accounts: Seq<Seq<char>>,
    id: u64,
    new_flow: u128,
    now: u64,
    later: u64,
)
    requires
        state.ledger.wf(),
        accounts.no_duplicates(),
        state.ledger.within(accounts),
        state.update_error(id, new_flow, now) is None,
        state.balance_of(state.ledger.records[id].destination) + state.ledger.records[id].accrual(
            now,
        ) <= u128::MAX,
    ensures
        state.updated(id, new_flow, now).total_persisted(accounts) == state.total_persisted(
            accounts,
        ),
        state.updated(id, new_flow, now).total_net(accounts, later) == state.total_net(
            accounts,
            later,
        ),
{
    let record = state.ledger.records[id];
    let after = state.updated(id, new_flow, now);
    assert(state.ledger.records.contains_key(id));
    assert(record.valid());
    state.ledger.lemma_store_keeps_wf(id, record.settled(now).with_flow(new_flow));
    lemma_still_within(state.ledger, after.ledger, accounts, id);
    law_streams_only_move_value(state, accounts, later);
    law_streams_only_move_value(after, accounts, later);
    law_transfer_keeps_total(
        state,
        after,
        record.source,
        record.destination,
        record.accrual(now),
        accounts,
    );
}

/// Conservation, for removal. It leaves what the accounts hold together as
/// it was, in persisted balance and, at any time, with their streams
/// counted in, unless the destination's persisted balance meets
/// `u128::MAX`.
pub proof fn law_removal_keeps_total(
    state: PaystreamView,
    accounts: Seq<Seq<char>>,
    id: u64,
    caller: Seq<char>,
    now: u64,
    later: u64,
)
    requires
        state.ledger.wf(),
        accounts.no_duplicates(),
        state.ledger.within(accounts),
        state.remove_error(id, caller, now) is None,
        state.balance_of(state.ledger.records[id].destination) + state.ledger.records[id].accrual(
            now,
        ) <= u128::MAX,
    ensures
        state.removed(id, now).total_persisted(accounts) == state.total_persisted(accounts),
        state.removed(id, now).total_net(accounts, later) == state.total_net(accounts, later),
{
    let record = state.ledger.records[id];
    let after = state.removed(id, now);
    assert(state.ledger.records.contains_key(id));
    assert(record.valid());
    state.ledger.lemma_remove_keeps_wf(id);
    lemma_still_within(state.ledger, after.ledger, accounts, id);
    law_streams_only_move_value(state, accounts, later);
    law_streams_only_move_value(after, accounts, later);
    law_transfer_keeps_total(
        state,
        after,
        record.source,
        record.destination,
        record.accrual(now),
        accounts,
    );
}

/// Conservation, for a deposit: the one place where value comes in. A
/// deposit for an account of the list adds its amount to what the accounts
/// hold together, in persisted balance and, at any time, with their streams
/// counted in, unless that account's persisted balance meets `u128::MAX`.
pub proof fn law_deposit_raises_total(
    state: PaystreamView,
    accounts: Seq<Seq<char>>,
    account: Seq<char>,
    amount: u128,
    later: u64,
)
    requires
        state.ledger.wf(),
        accounts.no_duplicates(),
        state.ledger.within(accounts),
        accounts.contains(account),
        state.balance_of(account) + amount <= u128::MAX,
    ensures
        ({
            let after = PaystreamView {
                balances: credited(state.balances, account, amount),
                ..state
            };
            &&& after.total_persisted(accounts) == state.total_persisted(accounts) + amount
            &&& after.total_net(accounts, later) == state.total_net(accounts, later) + amount
        }),
{
    let after = PaystreamView { balances: credited(state.balances, account, amount), ..state };
    law_streams_only_move_value(state, accounts, later);
    law_streams_only_move_value(after, accounts, later);
    assert forall|k: int| 0 <= k < accounts.len() implies (after.persisted())(
        #[trigger] accounts[k],
    ) == (state.persisted())(accounts[k]) + if accounts[k] == account {
        amount as int
    } else {
        0
    } by {}
    lemma_sum_raised_at(accounts, after.persisted(), state.persisted(), account, amount as int);
}

/// What a run of operations brings in from outside.
pub open spec fn brought_in(operations: Seq<Operation>) -> int
    decreases operations.len(),
{
    if operations.len() == 0 {
        0
    } else {
        brought_in(operations.drop_last()) + operations.last().brings_in()
    }
}

impl PaystreamView {
    /// The state after a run of operations, first to last.
    pub open spec fn run(self, operations: Seq<Operation>) -> PaystreamView
        decreases operations.len(),
    {
        if operations.len() == 0 {
            self
        } else {
            self.run(operations.drop_last()).apply(operations.last())
        }
    }

    /// Whether an operation stays within what conservation is said of: a
    /// new subscription gets a free id and runs between accounts of the
    /// list, a deposit is for an account of the list, and no balance that
    /// receives meets `u128::MAX`.
    pub open spec fn admits(self, operation: Operation, accounts: Seq<Seq<char>>) -> bool {
        match operation {
            Operation::Create { source, destination, rate, caller, now } => self.create_error(
                source,
                destination,
                rate,
                caller,
            ) is None ==> self.ledger.next_is_free() && accounts.contains(source)
                && accounts.contains(destination),
            Operation::Update { id, new_flow, now } => self.update_error(id, new_flow, now)
                is None ==> self.balance_of(self.ledger.records[id].destination)
                + self.ledger.records[id].accrual(now) <= u128::MAX,
            Operation::Remove { id, caller, now } => self.remove_error(id, caller, now)
                is None ==> self.balance_of(self.ledger.records[id].destination)
                + self.ledger.records[id].accrual(now) <= u128::MAX,
            Operation::Deposit { account, amount, wrapped } => wrapped ==> accounts.contains(
                account,
            ) && self.balance_of(account) + amount <= u128::MAX,
            Operation::SetOwner { .. } => true,
            Operation::SetTreasurer { .. } => true,
            Operation::UpdateReserve { .. } => true,
        }
    }

    /// Whether every operation of a run is admitted by the state it meets.
    pub open spec fn admits_all(self, operations: Seq<Operation>, accounts: Seq<Seq<char>>) -> bool
        decreases operations.len(),
    {
        if operations.len() == 0 {
            true
        } else {
            self.admits_all(operations.drop_last(), accounts) && self.run(
                operations.drop_last(),
            ).admits(operations.last(), accounts)
        }
    }
}

/// Two states with the same balances and the same ledger hold the same.
proof fn lemma_same_money(
    first: PaystreamView,
    second: PaystreamView,
    accounts: Seq<Seq<char>>,
    now: u64,
)
    requires
        first.balances == second.balances,
        first.ledger == second.ledger,
    ensures
        first.total_persisted(accounts) == second.total_persisted(accounts),
        first.total_net(accounts, now) == second.total_net(accounts, now),
    decreases accounts.len(),
{
    if accounts.len() > 0 {
        lemma_same_money(first, second, accounts.drop_last(), now);
    }
}

/// Conservation. Over any run of operations, what the accounts hold
/// together changes by what deposits bring in and by nothing else, in
/// persisted balance and, at any time, with their streams counted in; and
/// the ledger and its indexes stay in agreement. The list of accounts
/// names each account once and leaves out no account involved; balances
/// are taken before the limits of `u128`, which no operation of the run
/// meets.
pub proof fn law_value_is_conserved(
    state: PaystreamView,
    operations: Seq<Operation>,
    accounts: Seq<Seq<char>>,
    later: u64,
)
    requires
        state.ledger.wf(),
        accounts.no_duplicates(),
        state.ledger.within(accounts),
        state.admits_all(operations, accounts),
    ensures
        state.run(operations).ledger.wf(),
        state.run(operations).ledger.within(accounts),
        state.run(operations).total_persisted(accounts) == state.total_persisted(accounts)
            + brought_in(operations),
        state.run(operations).total_net(accounts, later) == state.total_net(accounts, later)
            + brought_in(operations),
    decreases operations.len(),
{
    if operations.len() > 0 {
        let earlier = operations.drop_last();
        let before = state.run(earlier);
        let after = state.run(operations);
        law_value_is_conserved(state, earlier, accounts, later);
        match operations.last() {
            Operation::Create { source, destination, rate, caller, now } => {
                if before.create_error(source, destination, rate, caller) is None {
                    before.ledger.lemma_create_keeps_wf(source, destination, rate, now);
                    lemma_still_within(
                        before.ledger,
                        after.ledger,
                        accounts,
                        before.ledger.next_index(),
                    );
                    law_creation_keeps_total(
                        before,
                        accounts,
                        source,
                        destination,
                        rate,
                        now,
                        later,
                    );
                }
            },
            Operation::Update { id, new_flow, now } => {
                if before.update_error(id, new_flow, now) is None {
                    let record = before.ledger.records[id];
                    assert(before.ledger.records.contains_key(id));
                    assert(record.valid());
                    before.ledger.lemma_store_keeps_wf(
                        id,
                        record.settled(now).with_flow(new_flow),
                    );
                    lemma_still_within(before.ledger, after.ledger, accounts, id);
                    law_update_keeps_total(before, accounts, id, new_flow, now, later);
                }
            },
            Operation::Remove { id, caller, now } => {
                if before.remove_error(id, caller, now) is None {
                    assert(before.ledger.records.contains_key(id));
                    before.ledger.lemma_remove_keeps_wf(id);
                    lemma_still_within(before.ledger, after.ledger, accounts, id);
                    law_removal_keeps_total(before, accounts, id, caller, now, later);
                }
            },
            Operation::Deposit { account, amount, wrapped } => {
                if wrapped {
                    law_deposit_raises_total(before, accounts, account, amount, later);
                }
            },
            _ => {
                lemma_same_money(before, after, accounts, later);
            },
        }
    }
}

} // verus!
