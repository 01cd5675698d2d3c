//! The effect of a settlement on the ledger: member balances grow by their
//! credits, the reservoir shrinks by the debit, and the pool remembers which
//! epochs are settled, so that a settlement that arrives twice counts once.

use vstd::prelude::*;
use crate::attribution::{credited, lemma_credited_prefix, AttributionRecord, Settlement};
use crate::error::{OreError, ProgramError};
use crate::state::{Member, Pool};

verus! {

/// The accounts that a settlement touches.
#[derive(Debug, PartialEq, Eq)]
pub struct Ledger {
    pub pool: Pool,
    pub members: Vec<Member>,
}

/// The ledger as a value.
pub struct LedgerState {
    pub pool: Pool,
    pub members: Seq<Member>,
}

impl View for Ledger {
    type V = LedgerState;

    open spec fn view(&self) -> LedgerState {
        LedgerState { pool: self.pool, members: self.members@ }
    }
}

/// How the ledger answered an accepted settlement.
#[derive(Clone, Copy, Debug, PartialEq, Eq, Structural)]
pub enum Applied {
    /// The credits were booked.
    Settled,
    /// The epoch had been settled before; nothing was booked.
    Duplicate,
}

/// Index of the first member account of `who`; the number of members where there is none.
pub open spec fn position(members: Seq<Member>, who: Seq<u8>) -> int
    decreases members.len(),
{
    if members.len() == 0 {
        0
    } else if position(members.drop_last(), who) < members.len() - 1 {
        position(members.drop_last(), who)
    } else if members.last().authority@ == who {
        members.len() - 1
    } else {
        members.len() as int
    }
}

/// The settled balance of `who`; zero for a party without a member account.
pub open spec fn balance_of(members: Seq<Member>, who: Seq<u8>) -> nat {
    if 0 <= position(members, who) < members.len() {
        members[position(members, who)].balance as nat
    } else {
        0
    }
}

/// Sum of the amounts that `credits` holds for `who`.
pub open spec fn amount_for(credits: Seq<AttributionRecord>, who: Seq<u8>) -> nat
    decreases credits.len(),
{
    if credits.len() == 0 {
        0
    } else {
        amount_for(credits.drop_last(), who) + if credits.last().member@ == who {
            credits.last().amount as nat
        } else {
            0
        }
    }
}

/// Books one credit.
pub open spec fn credit_one(members: Seq<Member>, c: AttributionRecord) -> Result<
    Seq<Member>,
    ProgramError,
> {
    let i = position(members, c.member@);
    if !(0 <= i < members.len()) {
        Err(ProgramError::InvalidAccountData)
    } else if members[i].balance + c.amount > u64::MAX {
        Err(ProgramError::ArithmeticOverflow)
    } else {
        Ok(
            members.update(
                i,
                Member {
                    authority: members[i].authority,
                    pool: members[i].pool,
                    balance: (members[i].balance + c.amount) as u64,
                },
            ),
        )
    }
}

/// Books the credits in order; the first one that cannot be booked decides the error.
pub open spec fn credit_all(members: Seq<Member>, credits: Seq<AttributionRecord>) -> Result<
    Seq<Member>,
    ProgramError,
>
    decreases credits.len(),
{
    if credits.len() == 0 {
        Ok(members)
    } else {
        match credit_all(members, credits.drop_last()) {
            Err(e) => Err(e),
            Ok(m) => credit_one(m, credits.last()),
        }
    }
}

/// The answer to a settlement and the ledger it leaves behind.
///
/// A settlement is booked whole or not at all. It is refused when its debit
/// is not the sum of its credits, when the reservoir cannot cover the debit,
/// when a credited party has no member account, or when a balance would
/// overflow. A settlement for an epoch that is already settled is accepted
/// and changes nothing.
pub open spec fn settle(l: LedgerState, s: Settlement) -> (Result<Applied, ProgramError>, LedgerState) {
    if s.epoch == u64::MAX || credited(s.credits@) != s.debit {
        (Err(ProgramError::InvalidInstructionData), l)
    } else if s.epoch < l.pool.next_epoch {
        (Ok(Applied::Duplicate), l)
    } else if s.debit > l.pool.reservoir {
        (Err(ProgramError::Custom(OreError::BusRewardsInsufficient.spec_code())), l)
    } else {
        match credit_all(l.members, s.credits@) {
            Err(e) => (Err(e), l),
            Ok(members) => (
                Ok(Applied::Settled),
                LedgerState {
                    pool: Pool {
                        authority: l.pool.authority,
                        total_members: l.pool.total_members,
                        reservoir: (l.pool.reservoir - s.debit) as u64,
                        next_epoch: (s.epoch + 1) as u64,
                    },
                    members,
                },
            ),
        }
    }
}

/// The ledger after the same settlement has been submitted `times` times.
pub open spec fn resubmitted(l: LedgerState, s: Settlement, times: nat) -> LedgerState
    decreases times,
{
    if times == 0 {
        l
    } else {
        settle(resubmitted(l, s, (times - 1) as nat), s).1
    }
}

/// Same owners in the same places.
pub open spec fn same_owners(a: Seq<Member>, b: Seq<Member>) -> bool {
    &&& a.len() == b.len()
    &&& forall|i: int| 0 <= i < a.len() ==> (#[trigger] a[i]).authority@ == b[i].authority@
}

/// The position lies within the list or right behind it; where it lies within, the
/// account there is the party's, and no account before it is.
pub proof fn lemma_position_range(members: Seq<Member>, who: Seq<u8>)
    ensures
        0 <= position(members, who) <= members.len(),
        position(members, who) < members.len() ==> members[position(members, who)].authority@
            == who,
        forall|j: int| 0 <= j < position(members, who) ==> (#[trigger] members[j]).authority@ != who,
    decreases members.len(),
{
    if members.len() > 0 {
        let front = members.drop_last();
        lemma_position_range(front, who);
        assert forall|j: int| 0 <= j < position(members, who) implies (#[trigger] members[j]).authority@
            != who by {
            if j < front.len() {
                assert(front[j] == members[j]);
            }
        }
    }
}

/// The first account of `who` is where a scan from the front finds it.
pub proof fn lemma_position_found(members: Seq<Member>, who: Seq<u8>, i: int)
    requires
        0 <= i <= members.len(),
        forall|j: int| 0 <= j < i ==> (#[trigger] members[j]).authority@ != who,
        i < members.len() ==> members[i].authority@ == who,
    ensures
        position(members, who) == i,
{
    lemma_position_range(members, who);
    let p = position(members, who);
    if p < i {
        assert(members[p].authority@ == who);
    } else if p > i {
        assert(members[i].authority@ == who);
    }
}

/// Positions depend on the owners alone.
pub proof fn lemma_position_same_owners(a: Seq<Member>, b: Seq<Member>, who: Seq<u8>)
    requires
        same_owners(a, b),
    ensures
        position(a, who) == position(b, who),
{
    lemma_position_range(a, who);
    let p = position(a, who);
    assert forall|j: int| 0 <= j < p implies (#[trigger] b[j]).authority@ != who by {
        assert(a[j].authority@ != who);
    }
    if p < a.len() {
        assert(a[p].authority@ == b[p].authority@);
    }
    lemma_position_found(b, who, p);
}

/// One credit raises the balance of its party by its amount and leaves all other balances.
pub proof fn lemma_credit_one(members: Seq<Member>, c: AttributionRecord)
    requires
        credit_one(members, c) is Ok,
    ensures
        same_owners(members, credit_one(members, c)->Ok_0),
        forall|who: Seq<u8>|
            #[trigger] balance_of(credit_one(members, c)->Ok_0, who) == balance_of(members, who) + (
            if who == c.member@ {
                c.amount as nat
            } else {
                0
            }),
{
    let after = credit_one(members, c)->Ok_0;
    let i = position(members, c.member@);
    lemma_position_range(members, c.member@);
    assert(same_owners(members, after));
    assert forall|who: Seq<u8>|
        #[trigger] balance_of(after, who) == balance_of(members, who) + (if who == c.member@ {
            c.amount as nat
        } else {
            0
        }) by {
        lemma_position_same_owners(members, after, who);
        lemma_position_range(members, who);
    }
}

/// Booked credits raise each balance by exactly what the credits hold for its party.
pub proof fn lemma_credit_all(members: Seq<Member>, credits: Seq<AttributionRecord>)
    requires
        credit_all(members, credits) is Ok,
    ensures
        same_owners(members, credit_all(members, credits)->Ok_0),
        forall|who: Seq<u8>|
            #[trigger] balance_of(credit_all(members, credits)->Ok_0, who) == balance_of(
                members,
                who,
            ) + amount_for(credits, who),
    decreases credits.len(),
{
    if credits.len() > 0 {
        let front = credits.drop_last();
        let mid = credit_all(members, front)->Ok_0;
        lemma_credit_all(members, front);
        lemma_credit_one(mid, credits.last());
        let after = credit_all(members, credits)->Ok_0;
        assert forall|who: Seq<u8>|
            #[trigger] balance_of(after, who) == balance_of(members, who) + amount_for(
                credits,
                who,
            ) by {
            assert(balance_of(mid, who) == balance_of(members, who) + amount_for(front, who));
        }
        assert(same_owners(members, after)) by {
            assert forall|i: int| 0 <= i < members.len() implies (#[trigger] members[i]).authority@
                == after[i].authority@ by {
                assert(mid[i].authority@ == after[i].authority@);
            }
        }
    }
}

/// Once a credit cannot be booked, the whole list cannot.
pub proof fn lemma_credit_all_fails(members: Seq<Member>, credits: Seq<AttributionRecord>, n: int)
    requires
        0 <= n <= credits.len(),
        credit_all(members, credits.take(n)) is Err,
    ensures
        credit_all(members, credits) == credit_all(members, credits.take(n)),
    decreases credits.len(),
{
    if n == credits.len() {
        assert(credits.take(n) =~= credits);
    } else {
        assert(credits.drop_last().take(n) =~= credits.take(n));
        lemma_credit_all_fails(members, credits.drop_last(), n);
    }
}

/// A settlement that was booked books every party exactly its credits, takes
/// exactly the debit from the reservoir, and marks its epoch as settled.
pub proof fn lemma_settled_once(l: LedgerState, s: Settlement)
    requires
        settle(l, s).0 == Ok::<Applied, ProgramError>(Applied::Settled),
    ensures
        same_owners(l.members, settle(l, s).1.members),
        forall|who: Seq<u8>|
            #[trigger] balance_of(settle(l, s).1.members, who) == balance_of(l.members, who)
                + amount_for(s.credits@, who),
        settle(l, s).1.pool.reservoir + credited(s.credits@) == l.pool.reservoir,
        settle(l, s).1.pool.next_epoch == s.epoch + 1,
{
    lemma_credit_all(l.members, s.credits@);
}

/// Idempotent retry: however often the same settlement is submitted, the
/// ledger is the one that the first submission left. In particular no
/// balance grows by more than the single attribution.
pub proof fn lemma_resubmission(l: LedgerState, s: Settlement, times: nat)
    requires
        times >= 1,
    ensures
        resubmitted(l, s, times) == settle(l, s).1,
        settle(l, s).0 is Ok ==> forall|who: Seq<u8>|
            #[trigger] balance_of(resubmitted(l, s, times).members, who) <= balance_of(
                l.members,
                who,
            ) + amount_for(s.credits@, who),
        settle(l, s).0 == Ok::<Applied, ProgramError>(Applied::Settled) ==> forall|who: Seq<u8>|
            #[trigger] balance_of(resubmitted(l, s, times).members, who) == balance_of(
                l.members,
                who,
            ) + amount_for(s.credits@, who),
    decreases times,
{
    let first = settle(l, s);
    if times == 1 {
        assert(resubmitted(l, s, 0) == l);
    } else {
        lemma_resubmission(l, s, (times - 1) as nat);
        // the second submission meets the ledger that the first one left
        assert(settle(first.1, s).1 == first.1);
    }
    if first.0 == Ok::<Applied, ProgramError>(Applied::Settled) {
        lemma_settled_once(l, s);
    }
}

/// Sum of all settled balances.
pub open spec fn total_balance(members: Seq<Member>) -> nat
    decreases members.len(),
{
    if members.len() == 0 {
        0
    } else {
        total_balance(members.drop_last()) + members.last().balance as nat
    }
}

/// Replacing a member account changes the sum of balances by the difference of the two balances.
pub proof fn lemma_total_balance_update(members: Seq<Member>, i: int, m: Member)
    requires
        0 <= i < members.len(),
    ensures
        total_balance(members.update(i, m)) + members[i].balance == total_balance(members)
            + m.balance,
    decreases members.len(),
{
    let u = members.update(i, m);
    if i == members.len() - 1 {
        assert(u.drop_last() =~= members.drop_last());
    } else {
        lemma_total_balance_update(members.drop_last(), i, m);
        assert(u.drop_last() =~= members.drop_last().update(i, m));
    }
}

/// Booked credits raise the sum of all balances by exactly their sum.
pub proof fn lemma_credit_all_total(members: Seq<Member>, credits: Seq<AttributionRecord>)
    requires
        credit_all(members, credits) is Ok,
    ensures
        total_balance(credit_all(members, credits)->Ok_0) == total_balance(members) + credited(
            credits,
        ),
    decreases credits.len(),
{
    if credits.len() > 0 {
        let front = credits.drop_last();
        let mid = credit_all(members, front)->Ok_0;
        lemma_credit_all_total(members, front);
        let c = credits.last();
        let i = position(mid, c.member@);
        lemma_total_balance_update(
            mid,
            i,
            Member {
                authority: mid[i].authority,
                pool: mid[i].pool,
                balance: (mid[i].balance + c.amount) as u64,
            },
        );
    }
}

/// No value is made or lost: whatever becomes of a settlement, balances and
/// reservoir together hold afterwards what they held before, and no balance
/// is lower than it was.
pub proof fn lemma_settlement_conserves_value(l: LedgerState, s: Settlement)
    ensures
        total_balance(settle(l, s).1.members) + settle(l, s).1.pool.reservoir == total_balance(
            l.members,
        ) + l.pool.reservoir,
        forall|who: Seq<u8>| #[trigger]
            balance_of(settle(l, s).1.members, who) >= balance_of(l.members, who),
{
    if settle(l, s).0 == Ok::<Applied, ProgramError>(Applied::Settled) {
        lemma_credit_all_total(l.members, s.credits@);
        lemma_settled_once(l, s);
    }
}

/// A party that no credit names is credited nothing.
pub proof fn lemma_amount_for_absent(credits: Seq<AttributionRecord>, who: Seq<u8>)
    requires
        forall|i: int| 0 <= i < credits.len() ==> (#[trigger] credits[i]).member@ != who,
    ensures
        amount_for(credits, who) == 0,
    decreases credits.len(),
{
    if credits.len() > 0 {
        let front = credits.drop_last();
        assert forall|i: int| 0 <= i < front.len() implies (#[trigger] front[i]).member@ != who by {
            assert(front[i] == credits[i]);
        }
        lemma_amount_for_absent(front, who);
        assert(credits.last() == credits[credits.len() - 1]);
    }
}

/// Where every party is credited once, it is credited the amount of its one credit.
pub proof fn lemma_amount_for_credit(credits: Seq<AttributionRecord>, i: int)
    requires
        0 <= i < credits.len(),
        forall|a: int, b: int|
            0 <= a < credits.len() && 0 <= b < credits.len() && a != b ==> (
            #[trigger] credits[a]).member@ != (#[trigger] credits[b]).member@,
    ensures
        amount_for(credits, credits[i].member@) == credits[i].amount,
    decreases credits.len(),
{
    let who = credits[i].member@;
    let front = credits.drop_last();
    if i == credits.len() - 1 {
        assert forall|j: int| 0 <= j < front.len() implies (#[trigger] front[j]).member@ != who by {
            assert(front[j] == credits[j]);
            assert(credits[j].member@ != credits[i].member@);
        }
        lemma_amount_for_absent(front, who);
    } else {
        assert(credits[credits.len() - 1].member@ != credits[i].member@);
        assert forall|a: int, b: int|
            0 <= a < front.len() && 0 <= b < front.len() && a != b implies (
        #[trigger] front[a]).member@ != (#[trigger] front[b]).member@ by {
            assert(front[a] == credits[a]);
            assert(front[b] == credits[b]);
        }
        assert(front[i] == credits[i]);
        lemma_amount_for_credit(front, i);
    }
}

/// Adds up the credits, or reports that they exceed what a balance can hold.
pub fn checked_credit_sum(credits: &Vec<AttributionRecord>) -> (sum: Option<u64>)
    ensures
        match sum {
            Some(v) => v == credited(credits@),
            None => credited(credits@) > u64::MAX,
        },
{
    let n = credits.len();
    let mut sum: u64 = 0;
    let mut i: usize = 0;
    while i < n
        invariant
            i <= n,
            n == credits@.len(),
            sum == credited(credits@.take(i as int)),
        decreases n - i,
    {
        proof {
            let next = credits@.take(i + 1);
            assert(next.drop_last() =~= credits@.take(i as int));
            assert(next.last() == credits@[i as int]);
            lemma_credited_prefix(credits@, i + 1);
        }
        match sum.checked_add(credits[i].amount) {
            Some(v) => {
                sum = v;
            },
            None => {
                return None;
            },
        }
        i += 1;
    }
    proof {
        assert(credits@.take(n as int) =~= credits@);
    }
    Some(sum)
}

/// Finds the first member account of `who`.
pub fn find_member(members: &Vec<Member>, who: &crate::address::Address) -> (i: usize)
    ensures
        i == position(members@, who@),
{
    let n = members.len();
    let mut i: usize = 0;
    while i < n
        invariant
            i <= n,
            n == members@.len(),
            forall|j: int| 0 <= j < i ==> (#[trigger] members@[j]).authority@ != who@,
        decreases n - i,
    {
        if members[i].authority.same(who) {
            proof {
                lemma_position_found(members@, who@, i as int);
            }
            return i;
        }
        i += 1;
    }
    proof {
        lemma_position_found(members@, who@, n as int);
    }
    n
}

impl Ledger {
    /// The settled balance of `who`.
    pub fn balance(&self, who: &crate::address::Address) -> (b: u64)
        ensures
            b == balance_of(self@.members, who@),
    {
        let i = find_member(&self.members, who);
        if i < self.members.len() {
            self.members[i].balance
        } else {
            0
        }
    }

    /// Books a settlement, whole or not at all.
    #[verifier::loop_isolation(false)]
    pub fn apply_settlement(&mut self, s: &Settlement) -> (r: Result<Applied, ProgramError>)
        ensures
            r == settle(old(self)@, *s).0,
            final(self)@ == settle(old(self)@, *s).1,
    {
        if s.epoch == u64::MAX {
            return Err(ProgramError::InvalidInstructionData);
        }
        match checked_credit_sum(&s.credits) {
            Some(sum) => {
                if sum != s.debit {
                    return Err(ProgramError::InvalidInstructionData);
                }
            },
            None => {
                return Err(ProgramError::InvalidInstructionData);
            },
        }
        if s.epoch < self.pool.next_epoch {
            return Ok(Applied::Duplicate);
        }
        if s.debit > self.pool.reservoir {
            return Err(ProgramError::Custom(OreError::BusRewardsInsufficient.code()));
        }
        let mut members: Vec<Member> = Vec::new();
        let count = self.members.len();
        let mut k: usize = 0;
        while k < count
            invariant
                k <= count,
                *self == *old(self),
                count == self.members@.len(),
                members@ == self.members@.take(k as int),
            decreases count - k,
        {
            members.push(self.members[k]);
            assert(members@ =~= self.members@.take(k + 1));
            k += 1;
        }
        assert(members@ =~= self.members@);

        let n = s.credits.len();
        let mut i: usize = 0;
        while i < n
            invariant
                i <= n,
                *self == *old(self),
                n == s.credits@.len(),
                credit_all(self.members@, s.credits@.take(i as int)) == Ok::<
                    Seq<Member>,
                    ProgramError,
                >(members@),
            decreases n - i,
        {
            let credit = s.credits[i];
            proof {
                let next = s.credits@.take(i + 1);
                assert(next.drop_last() =~= s.credits@.take(i as int));
                assert(next.last() == credit);
                if credit_one(members@, credit) is Err {
                    lemma_credit_all_fails(self.members@, s.credits@, i + 1);
                }
            }
            let at = find_member(&members, &credit.member);
            if at >= members.len() {
                return Err(ProgramError::InvalidAccountData);
            }
            let member = members[at];
            match member.balance.checked_add(credit.amount) {
                Some(balance) => {
                    members.set(
                        at,
                        Member { authority: member.authority, pool: member.pool, balance },
                    );
                },
                None => {
                    return Err(ProgramError::ArithmeticOverflow);
                },
            }
            i += 1;
        }
        proof {
            assert(s.credits@.take(n as int) =~= s.credits@);
        }
        self.members = members;
        self.pool = Pool {
            authority: self.pool.authority,
            total_members: self.pool.total_members,
            reservoir: self.pool.reservoir - s.debit,
            next_epoch: s.epoch + 1,
        };
        Ok(Applied::Settled)
    }
}

} // verus!
