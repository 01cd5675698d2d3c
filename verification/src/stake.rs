//! Stake commitment: every configured boost gets its own commit transaction,
//! and the fate of one never touches another.

use vstd::prelude::*;
use crate::address::Address;
use crate::submit::SubmitOutcome;

verus! {

/// Where the commit of one boost stands.
#[derive(Clone, Copy, Debug, PartialEq, Eq, Structural)]
pub enum BoostStatus {
    /// To be submitted in the current round.
    Due,
    Committed,
    /// Failed transiently; comes up again with the next round.
    RetryPending,
    /// Refused by the ledger; reported to the operator.
    Failed,
}

/// The status that a submission's outcome leaves.
pub open spec fn status_after(outcome: SubmitOutcome) -> BoostStatus {
    match outcome {
        SubmitOutcome::Confirmed => BoostStatus::Committed,
        SubmitOutcome::TransientError => BoostStatus::RetryPending,
        SubmitOutcome::PermanentError => BoostStatus::Failed,
    }
}

/// The statuses after the outcome for boost `index` has come in.
pub open spec fn reported(status: Seq<BoostStatus>, index: int, outcome: SubmitOutcome) -> Seq<
    BoostStatus,
> {
    status.update(index, status_after(outcome))
}

/// Independent boost failure: when boost `a` is refused for good and boost
/// `b` is confirmed, `b` stands as committed and `a` as failed, whichever
/// outcome comes in first, and no other boost is touched.
pub proof fn lemma_independent_boosts(status: Seq<BoostStatus>, a: int, b: int)
    requires
        0 <= a < status.len(),
        0 <= b < status.len(),
        a != b,
    ensures
        reported(reported(status, a, SubmitOutcome::PermanentError), b, SubmitOutcome::Confirmed)
            == reported(
            reported(status, b, SubmitOutcome::Confirmed),
            a,
            SubmitOutcome::PermanentError,
        ),
        reported(
            reported(status, a, SubmitOutcome::PermanentError),
            b,
            SubmitOutcome::Confirmed,
        )[b] == BoostStatus::Committed,
        reported(
            reported(status, a, SubmitOutcome::PermanentError),
            b,
            SubmitOutcome::Confirmed,
        )[a] == BoostStatus::Failed,
        forall|k: int|
            0 <= k < status.len() && k != a && k != b ==> reported(
                reported(status, a, SubmitOutcome::PermanentError),
                b,
                SubmitOutcome::Confirmed,
            )[k] == status[k],
{
    assert(reported(reported(status, a, SubmitOutcome::PermanentError), b, SubmitOutcome::Confirmed)
        =~= reported(
        reported(status, b, SubmitOutcome::Confirmed),
        a,
        SubmitOutcome::PermanentError,
    ));
}

/// The stake-commitment loop.
pub struct StakeCommitter {
    boosts: Vec<Address>,
    status: Vec<BoostStatus>,
}

impl StakeCommitter {
    /// The configured boosts, in the order of configuration.
    pub closed spec fn boosts(&self) -> Seq<Address> {
        self.boosts@
    }

    /// The status of each boost, by position.
    pub closed spec fn statuses(&self) -> Seq<BoostStatus> {
        self.status@
    }

    /// Every boost has a status.
    pub closed spec fn wf(&self) -> bool {
        self.boosts@.len() == self.status@.len()
    }

    /// A committer for the given boosts, each of them due.
    pub fn new(boosts: Vec<Address>) -> (c: StakeCommitter)
        ensures
            c.wf(),
            c.boosts() == boosts@,
            c.statuses().len() == boosts@.len(),
            forall|i: int| 0 <= i < boosts@.len() ==> c.statuses()[i] == BoostStatus::Due,
    {
        let n = boosts.len();
        let mut status: Vec<BoostStatus> = Vec::new();
        let mut i: usize = 0;
        while i < n
            invariant
                i <= n,
                status@.len() == i,
                forall|j: int| 0 <= j < i ==> status@[j] == BoostStatus::Due,
            decreases n - i,
        {
            status.push(BoostStatus::Due);
            i += 1;
        }
        StakeCommitter { boosts, status }
    }

    /// The loop runs only where at least one boost is configured.
    pub fn is_active(&self) -> (active: bool)
        ensures
            active == (self.boosts().len() > 0),
    {
        self.boosts.len() > 0
    }

    /// Number of configured boosts.
    pub fn len(&self) -> (n: usize)
        ensures
            n == self.boosts().len(),
    {
        self.boosts.len()
    }

    /// The boost at `index`.
    pub fn boost(&self, index: usize) -> (b: Address)
        requires
            index < self.boosts().len(),
        ensures
            b == self.boosts()[index as int],
    {
        self.boosts[index]
    }

    /// The status of the boost at `index`.
    pub fn status(&self, index: usize) -> (s: BoostStatus)
        requires
            self.wf(),
            index < self.boosts().len(),
        ensures
            s == self.statuses()[index as int],
    {
        self.status[index]
    }

    /// Starts a round: every boost is due again, whatever became of it before.
    pub fn on_tick(&mut self)
        requires
            old(self).wf(),
        ensures
            final(self).wf(),
            final(self).boosts() == old(self).boosts(),
            final(self).statuses().len() == old(self).statuses().len(),
            forall|i: int|
                0 <= i < final(self).statuses().len() ==> final(self).statuses()[i]
                    == BoostStatus::Due,
    {
        let n = self.status.len();
        let mut i: usize = 0;
        while i < n
            invariant
                i <= n,
                n == self.status@.len(),
                self.boosts@ == old(self).boosts@,
                forall|j: int| 0 <= j < i ==> self.status@[j] == BoostStatus::Due,
            decreases n - i,
        {
            self.status.set(i, BoostStatus::Due);
            i += 1;
        }
    }

    /// Takes in the outcome of one boost's submission. No other boost is touched.
    pub fn on_outcome(&mut self, index: usize, outcome: SubmitOutcome)
        requires
            old(self).wf(),
            index < old(self).boosts().len(),
        ensures
            final(self).wf(),
            final(self).boosts() == old(self).boosts(),
            final(self).statuses() == reported(old(self).statuses(), index as int, outcome),
    {
        let status = match outcome {
            SubmitOutcome::Confirmed => BoostStatus::Committed,
            SubmitOutcome::TransientError => BoostStatus::RetryPending,
            SubmitOutcome::PermanentError => BoostStatus::Failed,
        };
        self.status.set(index, status);
    }

    /// The boosts whose commit was refused for good, in the order of configuration.
    pub fn failures(&self) -> (failed: Vec<Address>)
        requires
            self.wf(),
        ensures
            failed@ == failed_boosts(self.boosts(), self.statuses()),
    {
        let n = self.boosts.len();
        let mut failed: Vec<Address> = Vec::new();
        let mut i: usize = 0;
        while i < n
            invariant
                i <= n,
                n == self.boosts@.len(),
                n == self.status@.len(),
                failed@ == failed_boosts(self.boosts@.take(i as int), self.status@.take(i as int)),
            decreases n - i,
        {
            proof {
                assert(self.boosts@.take(i + 1).drop_last() =~= self.boosts@.take(i as int));
                assert(self.status@.take(i + 1).drop_last() =~= self.status@.take(i as int));
            }
            if self.status[i] == BoostStatus::Failed {
                failed.push(self.boosts[i]);
            }
            i += 1;
        }
        proof {
            assert(self.boosts@.take(n as int) =~= self.boosts@);
            assert(self.status@.take(n as int) =~= self.status@);
        }
        failed
    }
}

/// The boosts that stand as failed, in order.
pub open spec fn failed_boosts(boosts: Seq<Address>, status: Seq<BoostStatus>) -> Seq<Address>
    decreases boosts.len(),
{
    if boosts.len() == 0 || status.len() != boosts.len() {
        Seq::empty()
    } else if status.last() == BoostStatus::Failed {
        failed_boosts(boosts.drop_last(), status.drop_last()).push(boosts.last())
    } else {
        failed_boosts(boosts.drop_last(), status.drop_last())
    }
}

} // verus!
