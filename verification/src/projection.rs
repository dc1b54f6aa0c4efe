//! Persisted balances, and the balance an account would have if every
//! stream that touches it were settled now.

use vstd::prelude::*;

use crate::accrual::capped_add;
use crate::ledger_view::other_than;
use crate::subscription::SubscriptionView;

verus! {

/// The persisted balance of `account`. An account that was never credited
/// has a balance of zero.
pub open spec fn balance_of(balances: Map<Seq<char>, u128>, account: Seq<char>) -> u128 {
    if balances.contains_key(account) {
        balances[account]
    } else {
        0
    }
}

/// The balances after `amount` was added to `account`, capped at
/// `u128::MAX`.
pub open spec fn credited(balances: Map<Seq<char>, u128>, account: Seq<char>, amount: u128) -> Map<
    Seq<char>,
    u128,
> {
    balances.insert(account, capped_add(balance_of(balances, account), amount))
}

/// The balances after `amount` was taken from `source`. Meant for a source
/// that holds at least `amount`.
pub open spec fn debited(balances: Map<Seq<char>, u128>, source: Seq<char>, amount: u128) -> Map<
    Seq<char>,
    u128,
> {
    balances.insert(source, (balance_of(balances, source) - amount) as u128)
}

/// The balances after `amount` moved from `source` to `destination`: taken
/// from the one, then added to the other.
pub open spec fn transferred(
    balances: Map<Seq<char>, u128>,
    source: Seq<char>,
    destination: Seq<char>,
    amount: u128,
) -> Map<Seq<char>, u128> {
    credited(debited(balances, source, amount), destination, amount)
}

/// What the subscription `id` has accrued at `now`; nothing when no record
/// is held under `id`.
pub open spec fn accrual_of(records: Map<u64, SubscriptionView>, id: u64, now: u64) -> nat {
    if records.contains_key(id) {
        records[id].accrual(now) as nat
    } else {
        0
    }
}

/// The sum of what the subscriptions in `ids` have accrued at `now`.
pub open spec fn total_accrued(records: Map<u64, SubscriptionView>, ids: Seq<u64>, now: u64) -> nat
    decreases ids.len(),
{
    if ids.len() == 0 {
        0
    } else {
        total_accrued(records, ids.drop_last(), now) + accrual_of(records, ids.last(), now)
    }
}

/// `value`, held to the range of `u128`.
pub open spec fn clamped(value: int) -> u128 {
    if value < 0 {
        0
    } else if value > u128::MAX {
        u128::MAX
    } else {
        value as u128
    }
}

/// The balance of an account at `now` with its streams taken into account:
/// the persisted balance plus what its inputs have accrued, held to
/// `u128::MAX`, and from that what its outputs have accrued, held to zero.
pub open spec fn projected(
    records: Map<u64, SubscriptionView>,
    inputs: Seq<u64>,
    outputs: Seq<u64>,
    persisted: u128,
    now: u64,
) -> u128 {
    let with_inputs = clamped(persisted + total_accrued(records, inputs, now));
    clamped(with_inputs - total_accrued(records, outputs, now))
}

/// The same balance without the two limits: persisted balance plus inputs
/// minus outputs.
pub open spec fn net(
    records: Map<u64, SubscriptionView>,
    inputs: Seq<u64>,
    outputs: Seq<u64>,
    persisted: u128,
    now: u64,
) -> int {
    persisted + total_accrued(records, inputs, now) - total_accrued(records, outputs, now)
}

/// Listing one more id adds what that subscription has accrued.
pub proof fn lemma_total_push(records: Map<u64, SubscriptionView>, ids: Seq<u64>, id: u64, now: u64)
    ensures
        total_accrued(records, ids.push(id), now) == total_accrued(records, ids, now) + accrual_of(
            records,
            id,
            now,
        ),
{
    assert(ids.push(id).drop_last() =~= ids);
}

/// Two tables that agree on what each id of a list has accrued give the
/// same sum.
pub proof fn lemma_total_agrees(
    first: Map<u64, SubscriptionView>,
    second: Map<u64, SubscriptionView>,
    ids: Seq<u64>,
    now: u64,
)
    requires
        forall|k: int|
            0 <= k < ids.len() ==> accrual_of(first, #[trigger] ids[k], now) == accrual_of(
                second,
                ids[k],
                now,
            ),
    ensures
        total_accrued(first, ids, now) == total_accrued(second, ids, now),
    decreases ids.len(),
{
    if ids.len() > 0 {
        let front = ids.drop_last();
        assert forall|k: int| 0 <= k < front.len() implies accrual_of(
            first,
            #[trigger] front[k],
            now,
        ) == accrual_of(second, front[k], now) by {
            assert(front[k] == ids[k]);
        }
        lemma_total_agrees(first, second, front, now);
        assert(ids.last() == ids[ids.len() - 1]);
    }
}

/// Where nothing in a list has accrued anything, the sum is zero.
pub proof fn lemma_total_nothing(records: Map<u64, SubscriptionView>, ids: Seq<u64>, now: u64)
    requires
        forall|k: int| 0 <= k < ids.len() ==> accrual_of(records, #[trigger] ids[k], now) == 0,
    ensures
        total_accrued(records, ids, now) == 0,
    decreases ids.len(),
{
    if ids.len() > 0 {
        let front = ids.drop_last();
        assert forall|k: int| 0 <= k < front.len() implies accrual_of(
            records,
            #[trigger] front[k],
            now,
        ) == 0 by {
            assert(front[k] == ids[k]);
        }
        lemma_total_nothing(records, front, now);
        assert(ids.last() == ids[ids.len() - 1]);
    }
}

/// Where two tables differ in what one id has accrued and in nothing else,
/// the sums over a list that names the id once differ by as much; over a
/// list that does not name it they are equal.
pub proof fn lemma_total_one_changed(
    first: Map<u64, SubscriptionView>,
    second: Map<u64, SubscriptionView>,
    ids: Seq<u64>,
    id: u64,
    now: u64,
)
    requires
        ids.no_duplicates(),
        forall|k: int|
            0 <= k < ids.len() && ids[k] != id ==> accrual_of(first, #[trigger] ids[k], now)
                == accrual_of(second, ids[k], now),
    ensures
        ids.contains(id) ==> total_accrued(second, ids, now) == total_accrued(first, ids, now)
            - accrual_of(first, id, now) + accrual_of(second, id, now),
        !ids.contains(id) ==> total_accrued(second, ids, now) == total_accrued(first, ids, now),
    decreases ids.len(),
{
    if ids.len() > 0 {
        let front = ids.drop_last();
        let last = ids.last();
        assert(last == ids[ids.len() - 1]);
        assert forall|i: int, j: int| 0 <= i < j < front.len() implies front[i] != front[j] by {
            assert(front[i] == ids[i] && front[j] == ids[j]);
        }
        assert forall|k: int| 0 <= k < front.len() && front[k] != id implies accrual_of(
            first,
            #[trigger] front[k],
            now,
        ) == accrual_of(second, front[k], now) by {
            assert(front[k] == ids[k]);
        }
        lemma_total_one_changed(first, second, front, id, now);
        if front.contains(id) {
            let k = choose|k: int| 0 <= k < front.len() && front[k] == id;
            assert(ids[k] == id);
            assert(last != id);
        } else if ids.contains(id) {
            let k = choose|k: int| 0 <= k < ids.len() && ids[k] == id;
            if k < front.len() {
                assert(front[k] == id);
            }
            assert(last == id);
        } else {
            assert(last != id);
        }
    }
}

/// Striking an id from a list that names it once takes what that
/// subscription has accrued from the sum; striking one that the list does
/// not name changes nothing.
pub proof fn lemma_total_struck(
    records: Map<u64, SubscriptionView>,
    ids: Seq<u64>,
    id: u64,
    now: u64,
)
    requires
        ids.no_duplicates(),
    ensures
        ids.contains(id) ==> total_accrued(records, ids.filter(other_than(id)), now)
            == total_accrued(records, ids, now) - accrual_of(records, id, now),
        !ids.contains(id) ==> total_accrued(records, ids.filter(other_than(id)), now)
            == total_accrued(records, ids, now),
    decreases ids.len(),
{
    reveal(Seq::filter);
    let keep = other_than(id);
    if ids.len() > 0 {
        let front = ids.drop_last();
        let last = ids.last();
        assert(last == ids[ids.len() - 1]);
        assert forall|i: int, j: int| 0 <= i < j < front.len() implies front[i] != front[j] by {
            assert(front[i] == ids[i] && front[j] == ids[j]);
        }
        lemma_total_struck(records, front, id, now);
        if keep(last) {
            lemma_total_push(records, front.filter(keep), last, now);
        }
        if front.contains(id) {
            let k = choose|k: int| 0 <= k < front.len() && front[k] == id;
            assert(ids[k] == id);
            assert(last != id);
        } else if ids.contains(id) {
            let k = choose|k: int| 0 <= k < ids.len() && ids[k] == id;
            if k < front.len() {
                assert(front[k] == id);
            }
            assert(last == id);
        } else {
            assert(last != id);
        }
    }
}

/// The sum of `value` over a list of accounts.
pub open spec fn sum_over(accounts: Seq<Seq<char>>, value: spec_fn(Seq<char>) -> int) -> int
    decreases accounts.len(),
{
    if accounts.len() == 0 {
        0
    } else {
        sum_over(accounts.drop_last(), value) + value(accounts.last())
    }
}

/// Where one value exceeds another by `extra` at the account `at` and
/// equals it at every other account, its sum over a list of distinct
/// accounts exceeds the other's by `extra` if the list names `at`, and
/// equals it if not.
pub proof fn lemma_sum_raised_at(
    accounts: Seq<Seq<char>>,
    higher: spec_fn(Seq<char>) -> int,
    lower: spec_fn(Seq<char>) -> int,
    at: Seq<char>,
    extra: int,
)
    requires
        accounts.no_duplicates(),
        forall|k: int|
            0 <= k < accounts.len() ==> higher(#[trigger] accounts[k]) == lower(accounts[k]) + if
                accounts[k] == at {
                extra
            } else {
                0
            },
    ensures
        sum_over(accounts, higher) == sum_over(accounts, lower) + if accounts.contains(at) {
            extra
        } else {
            0
        },
    decreases accounts.len(),
{
    if accounts.len() > 0 {
        let front = accounts.drop_last();
        let last = accounts.last();
        assert(last == accounts[accounts.len() - 1]);
        assert forall|i: int, j: int| 0 <= i < j < front.len() implies front[i] != front[j] by {
            assert(front[i] == accounts[i] && front[j] == accounts[j]);
        }
        assert forall|k: int| 0 <= k < front.len() implies higher(#[trigger] front[k]) == lower(
            front[k],
        ) + if front[k] == at {
            extra
        } else {
            0
        } by {
            assert(front[k] == accounts[k]);
        }
        lemma_sum_raised_at(front, higher, lower, at, extra);
        if front.contains(at) {
            let k = choose|k: int| 0 <= k < front.len() && front[k] == at;
            assert(accounts[k] == at);
            assert(last != at);
        } else if accounts.contains(at) {
            let k = choose|k: int| 0 <= k < accounts.len() && accounts[k] == at;
            if k < front.len() {
                assert(front[k] == at);
            }
            assert(last == at);
        } else {
            assert(last != at);
        }
    }
}

/// Where a value is, at each account of a list, one value plus a second
/// minus a third, so are the sums.
pub proof fn lemma_sum_of_parts(
    accounts: Seq<Seq<char>>,
    whole: spec_fn(Seq<char>) -> int,
    base: spec_fn(Seq<char>) -> int,
    plus: spec_fn(Seq<char>) -> int,
    minus: spec_fn(Seq<char>) -> int,
)
    requires
        forall|k: int|
            0 <= k < accounts.len() ==> whole(#[trigger] accounts[k]) == base(accounts[k]) + plus(
                accounts[k],
            ) - minus(accounts[k]),
    ensures
        sum_over(accounts, whole) == sum_over(accounts, base) + sum_over(accounts, plus) - sum_over(
            accounts,
            minus,
        ),
    decreases accounts.len(),
{
    if accounts.len() > 0 {
        let front = accounts.drop_last();
        assert(accounts.last() == accounts[accounts.len() - 1]);
        assert forall|k: int| 0 <= k < front.len() implies whole(#[trigger] front[k]) == base(
            front[k],
        ) + plus(front[k]) - minus(front[k]) by {
            assert(front[k] == accounts[k]);
        }
        lemma_sum_of_parts(front, whole, base, plus, minus);
    }
}

} // verus!
