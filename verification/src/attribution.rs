//! Reward shares: each member of a drained epoch is owed the floor of its
//! proportional share of the reservoir; what flooring leaves over stays in the
//! reservoir.

use vstd::prelude::*;
use vstd::arithmetic::div_mod::lemma_fundamental_div_mod;
use crate::address::Address;
use crate::aggregator::{lemma_score_bounded, total_score, Entry, EpochSnapshot};

verus! {

/// The reward owed to one member for one epoch.
#[derive(Clone, Copy, Debug, PartialEq, Eq)]
pub struct AttributionRecord {
    pub member: Address,
    pub amount: u64,
}

/// The ledger transaction that settles one epoch: every credit is added to its
/// member's balance and `debit`, the sum of the credits, leaves the reservoir.
#[derive(Clone, Debug, PartialEq, Eq)]
pub struct Settlement {
    pub epoch: u64,
    pub credits: Vec<AttributionRecord>,
    pub debit: u64,
}

/// `floor(reservoir * score / total)`; nothing where no score was recorded.
pub open spec fn reward(reservoir: nat, score: nat, total: nat) -> nat {
    if total == 0 {
        0
    } else {
        (reservoir * score) / total
    }
}

/// What flooring cuts off one member's exact share, in units of `1 / total`.
pub open spec fn shortfall(reservoir: nat, score: nat, total: nat) -> nat {
    if total == 0 {
        0
    } else {
        (reservoir * score) % total
    }
}

/// Sum of the rewards of all entries.
pub open spec fn reward_sum(entries: Seq<Entry>, reservoir: nat, total: nat) -> nat
    decreases entries.len(),
{
    if entries.len() == 0 {
        0
    } else {
        reward_sum(entries.drop_last(), reservoir, total) + reward(
            reservoir,
            entries.last().score as nat,
            total,
        )
    }
}

/// Sum of the shortfalls of all entries.
pub open spec fn shortfall_sum(entries: Seq<Entry>, reservoir: nat, total: nat) -> nat
    decreases entries.len(),
{
    if entries.len() == 0 {
        0
    } else {
        shortfall_sum(entries.drop_last(), reservoir, total) + shortfall(
            reservoir,
            entries.last().score as nat,
            total,
        )
    }
}

/// Every share of the reservoir is a whole number.
pub open spec fn divides_evenly(entries: Seq<Entry>, reservoir: nat, total: nat) -> bool {
    forall|i: int|
        0 <= i < entries.len() ==> shortfall(reservoir, (#[trigger] entries[i]).score as nat, total)
            == 0
}

/// Sum of the credited amounts.
pub open spec fn credited(records: Seq<AttributionRecord>) -> nat
    decreases records.len(),
{
    if records.len() == 0 {
        0
    } else {
        credited(records.drop_last()) + records.last().amount as nat
    }
}

/// `records` credits each entry's member, in the same order, with exactly its reward.
pub open spec fn is_attribution_of(
    records: Seq<AttributionRecord>,
    entries: Seq<Entry>,
    reservoir: nat,
    total: nat,
) -> bool {
    &&& records.len() == entries.len()
    &&& forall|i: int|
        0 <= i < entries.len() ==> (#[trigger] records[i]).member == entries[i].member
            && records[i].amount == reward(reservoir, entries[i].score as nat, total)
}

impl Settlement {
    /// The debit is the sum of the credits.
    pub open spec fn wf(&self) -> bool {
        self.debit == credited(self.credits@)
    }
}

/// A reward never exceeds the reservoir as long as the score is part of the total.
pub proof fn lemma_reward_le_reservoir(reservoir: nat, score: nat, total: nat)
    requires
        score <= total,
    ensures
        reward(reservoir, score, total) <= reservoir,
{
    if total > 0 {
        assert((reservoir * score) / total <= reservoir) by (nonlinear_arith)
            requires
                score <= total,
                total > 0,
        {
            assert(reservoir * score <= reservoir * total);
            assert((reservoir * total) / total == reservoir);
        }
    }
}

/// Rewards and shortfalls together account for the whole product of reservoir and scores.
pub proof fn lemma_share_identity(entries: Seq<Entry>, reservoir: nat, total: nat)
    requires
        total > 0,
    ensures
        total * reward_sum(entries, reservoir, total) + shortfall_sum(entries, reservoir, total)
            == reservoir * total_score(entries),
    decreases entries.len(),
{
    if entries.len() == 0 {
        assert(total * 0 == 0) by (nonlinear_arith);
        assert(reservoir * 0 == 0) by (nonlinear_arith);
    } else {
        let front = entries.drop_last();
        let s = entries.last().score as nat;
        lemma_share_identity(front, reservoir, total);
        let x = (reservoir * s) as int;
        lemma_fundamental_div_mod(x, total as int);
        let r = reward(reservoir, s, total);
        let m = shortfall(reservoir, s, total);
        assert(reservoir * s == total * r + m);
        let rs = reward_sum(front, reservoir, total);
        let ts = total_score(front);
        assert(total * (rs + r) == total * rs + total * r) by (nonlinear_arith);
        assert(reservoir * (ts + s) == reservoir * ts + reservoir * s) by (nonlinear_arith);
    }
}

/// Shortfalls vanish together exactly when each one vanishes.
pub proof fn lemma_shortfall_sum_zero(entries: Seq<Entry>, reservoir: nat, total: nat)
    ensures
        shortfall_sum(entries, reservoir, total) == 0 <==> divides_evenly(entries, reservoir, total),
    decreases entries.len(),
{
    if entries.len() > 0 {
        let front = entries.drop_last();
        lemma_shortfall_sum_zero(front, reservoir, total);
        if shortfall_sum(entries, reservoir, total) == 0 {
            assert forall|i: int| 0 <= i < entries.len() implies shortfall(
                reservoir,
                (#[trigger] entries[i]).score as nat,
                total,
            ) == 0 by {
                if i < front.len() {
                    assert(front[i] == entries[i]);
                }
            }
        }
        if divides_evenly(entries, reservoir, total) {
            assert forall|i: int| 0 <= i < front.len() implies shortfall(
                reservoir,
                (#[trigger] front[i]).score as nat,
                total,
            ) == 0 by {
                assert(front[i] == entries[i]);
            }
            assert(entries.last() == entries[entries.len() - 1]);
        }
    }
}

/// Reward bound: the rewards of an epoch never add up to more than the
/// reservoir, and they exhaust it exactly when every share is a whole number.
pub proof fn lemma_reward_bound(entries: Seq<Entry>, reservoir: nat)
    ensures
        reward_sum(entries, reservoir, total_score(entries)) <= reservoir,
        total_score(entries) > 0 ==> (reward_sum(entries, reservoir, total_score(entries))
            == reservoir <==> divides_evenly(entries, reservoir, total_score(entries))),
{
    let total = total_score(entries);
    if total == 0 {
        lemma_reward_sum_without_total(entries, reservoir);
    } else {
        lemma_share_identity(entries, reservoir, total);
        lemma_shortfall_sum_zero(entries, reservoir, total);
        let rs = reward_sum(entries, reservoir, total);
        let ss = shortfall_sum(entries, reservoir, total);
        assert(rs <= reservoir && (rs == reservoir <==> ss == 0)) by (nonlinear_arith)
            requires
                total > 0,
                total * rs + ss == reservoir * total,
        {
            assert(total * rs <= total * reservoir);
            if rs == reservoir {
                assert(total * rs == reservoir * total);
            }
            if ss == 0 {
                assert(total * (reservoir - rs) == 0);
            }
        }
    }
}

/// Where no score was recorded, nothing is rewarded.
pub proof fn lemma_reward_sum_without_total(entries: Seq<Entry>, reservoir: nat)
    ensures
        reward_sum(entries, reservoir, 0) == 0,
    decreases entries.len(),
{
    if entries.len() > 0 {
        lemma_reward_sum_without_total(entries.drop_last(), reservoir);
    }
}

/// Computes every member's reward for the snapshot's epoch.
pub fn compute_attribution(snapshot: &EpochSnapshot) -> (records: Vec<AttributionRecord>)
    requires
        snapshot.wf(),
    ensures
        is_attribution_of(
            records@,
            snapshot.entries@,
            snapshot.reservoir as nat,
            snapshot.total_score as nat,
        ),
        credited(records@) == reward_sum(
            snapshot.entries@,
            snapshot.reservoir as nat,
            snapshot.total_score as nat,
        ),
        credited(records@) <= snapshot.reservoir,
        snapshot.total_score > 0 ==> (credited(records@) == snapshot.reservoir <==> divides_evenly(
            snapshot.entries@,
            snapshot.reservoir as nat,
            snapshot.total_score as nat,
        )),
{
    let ghost entries = snapshot.entries@;
    let ghost pot = snapshot.reservoir as nat;
    let ghost total = snapshot.total_score as nat;
    proof {
        lemma_reward_bound(entries, pot);
    }
    let mut records: Vec<AttributionRecord> = Vec::new();
    let n = snapshot.entries.len();
    let mut i: usize = 0;
    while i < n
        invariant
            i <= n,
            n == entries.len(),
            entries == snapshot.entries@,
            pot == snapshot.reservoir,
            total == snapshot.total_score,
            total == total_score(entries),
            is_attribution_of(records@, entries.take(i as int), pot, total),
            credited(records@) == reward_sum(entries.take(i as int), pot, total),
        decreases n - i,
    {
        let entry = snapshot.entries[i];
        let amount = share(snapshot.reservoir, entry.score, snapshot.total_score);
        let ghost prev = records@;
        records.push(AttributionRecord { member: entry.member, amount });
        proof {
            let next = entries.take(i + 1);
            assert(next.drop_last() =~= entries.take(i as int));
            assert(next.last() == entries[i as int]);
            assert(records@.drop_last() =~= prev);
            lemma_score_bounded(entries, i as int);
            lemma_reward_le_reservoir(pot, entry.score as nat, total);
            assert forall|j: int| 0 <= j < next.len() implies (#[trigger] records@[j]).member
                == next[j].member && records@[j].amount == reward(
                pot,
                next[j].score as nat,
                total,
            ) by {
                if j < i {
                    assert(records@[j] == prev[j]);
                    assert(entries.take(i as int)[j] == next[j]);
                }
            }
        }
        i += 1;
    }
    proof {
        assert(entries.take(n as int) =~= entries);
    }
    records
}

/// One member's reward, computed without overflow.
pub fn share(reservoir: u64, score: u64, total: u64) -> (amount: u64)
    ensures
        amount == if score <= total {
            reward(reservoir as nat, score as nat, total as nat)
        } else {
            0
        },
{
    if total == 0 || score > total {
        return 0;
    }
    proof {
        lemma_reward_le_reservoir(reservoir as nat, score as nat, total as nat);
        assert(reservoir * score <= u64::MAX * u64::MAX) by (nonlinear_arith)
            requires
                reservoir <= u64::MAX,
                score <= u64::MAX,
        ;
    }
    let product: u128 = (reservoir as u128) * (score as u128);
    let quotient: u128 = product / (total as u128);
    quotient as u64
}

/// Builds the settlement of a drained epoch; an epoch without any score needs none.
pub fn build_settlement(snapshot: &EpochSnapshot) -> (settlement: Option<Settlement>)
    requires
        snapshot.wf(),
    ensures
        settlement is None <==> snapshot.total_score == 0,
        settlement matches Some(s) ==> {
            &&& s.wf()
            &&& s.epoch == snapshot.epoch
            &&& is_attribution_of(
                s.credits@,
                snapshot.entries@,
                snapshot.reservoir as nat,
                snapshot.total_score as nat,
            )
            &&& s.debit == reward_sum(
                snapshot.entries@,
                snapshot.reservoir as nat,
                snapshot.total_score as nat,
            )
            &&& s.debit <= snapshot.reservoir
            &&& (s.debit == snapshot.reservoir <==> divides_evenly(
                snapshot.entries@,
                snapshot.reservoir as nat,
                snapshot.total_score as nat,
            ))
        },
{
    if snapshot.total_score == 0 {
        return None;
    }
    let credits = compute_attribution(snapshot);
    let debit = sum_credits(&credits, snapshot.reservoir);
    Some(Settlement { epoch: snapshot.epoch, credits, debit })
}

/// The credits of the first records are part of the credits of all.
pub proof fn lemma_credited_prefix(records: Seq<AttributionRecord>, n: int)
    requires
        0 <= n <= records.len(),
    ensures
        credited(records.take(n)) <= credited(records),
    decreases records.len(),
{
    if n == records.len() {
        assert(records.take(n) =~= records);
    } else {
        lemma_credited_prefix(records.drop_last(), n);
        assert(records.drop_last().take(n) =~= records.take(n));
    }
}

/// Adds up credits that are known to stay within `bound`.
pub fn sum_credits(records: &Vec<AttributionRecord>, bound: u64) -> (sum: u64)
    requires
        credited(records@) <= bound,
    ensures
        sum == credited(records@),
{
    let n = records.len();
    let mut sum: u64 = 0;
    let mut i: usize = 0;
    while i < n
        invariant
            i <= n,
            n == records@.len(),
            credited(records@) <= bound,
            sum == credited(records@.take(i as int)),
        decreases n - i,
    {
        proof {
            let next = records@.take(i + 1);
            assert(next.drop_last() =~= records@.take(i as int));
            assert(next.last() == records@[i as int]);
            lemma_credited_prefix(records@, i + 1);
        }
        sum = sum + records[i].amount;
        i += 1;
    }
    proof {
        assert(records@.take(n as int) =~= records@);
    }
    sum
}

} // verus!
