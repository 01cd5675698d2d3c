//! The attribution loop: on every tick an idle loop drains the live epoch and
//! builds its settlement; a settlement that is not confirmed is kept and sent
//! again as it is, never built anew.

use vstd::prelude::*;
use crate::aggregator::{holds_member, lemma_conservation, lemma_score_of_absent, lemma_score_of_entry, replay, score_of, weight_of, weight_sum, Aggregator, Contribution, Entry, Event};
use crate::attribution::{build_settlement, divides_evenly, is_attribution_of, reward, reward_sum, Settlement};
use crate::error::ProgramError;
use crate::ledger::{amount_for, balance_of, lemma_amount_for_absent, lemma_amount_for_credit, lemma_resubmission, resubmitted, settle, Applied, LedgerState};
use crate::submit::SubmitOutcome;

verus! {

/// Where the loop stands.
#[derive(Clone, Copy, Debug, PartialEq, Eq, Structural)]
pub enum Phase {
    /// Nothing is kept; the next tick drains.
    Idle,
    /// The kept settlement is on its way to the ledger.
    Submitting,
    /// The kept settlement failed transiently and goes out again with the next tick.
    RetryPending,
    /// The ledger refused the kept settlement; it is held for the operator.
    Failed,
}

/// What the caller has to do next.
#[derive(Clone, Copy, Debug, PartialEq, Eq, Structural)]
pub enum Action {
    /// Nothing.
    Rest,
    /// Submit the kept settlement.
    Submit,
    /// Tell the operator that the kept settlement was refused.
    Alert,
}

/// The attribution loop of the operator.
pub struct AttributionLoop {
    phase: Phase,
    kept: Option<Settlement>,
}

impl AttributionLoop {
    /// Where the loop stands.
    pub closed spec fn phase(&self) -> Phase {
        self.phase
    }

    /// The settlement that is kept until the ledger has confirmed it.
    pub closed spec fn kept(&self) -> Option<Settlement> {
        self.kept
    }

    /// A settlement is kept in every phase but the idle one.
    pub closed spec fn wf(&self) -> bool {
        (self.phase == Phase::Idle) <==> (self.kept is None)
    }

    /// An idle loop.
    pub fn new() -> (l: AttributionLoop)
        ensures
            l.wf(),
            l.phase() == Phase::Idle,
            l.kept() is None,
    {
        AttributionLoop { phase: Phase::Idle, kept: None }
    }

    /// Where the loop stands.
    pub fn current_phase(&self) -> (p: Phase)
        ensures
            p == self.phase(),
    {
        self.phase
    }

    /// The settlement to submit, or the one that is held.
    pub fn pending(&self) -> (s: &Option<Settlement>)
        ensures
            *s == self.kept(),
    {
        &self.kept
    }

    /// A tick of the attribution timer.
    ///
    /// An idle loop drains the live epoch. Where no score was recorded it
    /// stays idle; otherwise it keeps the epoch's settlement and asks for its
    /// submission. A loop that waits for a retry asks for the kept settlement
    /// to be submitted again. In every phase but the idle one the aggregator
    /// is left alone and the kept settlement stays what it is.
    pub fn on_tick(&mut self, aggregator: &mut Aggregator, reservoir: u64) -> (action: Action)
        requires
            old(self).wf(),
            old(aggregator).wf(),
            old(self).phase() == Phase::Idle ==> old(aggregator).epoch() < u64::MAX,
        ensures
            final(self).wf(),
            final(aggregator).wf(),
            old(self).phase() == Phase::Idle ==> {
                &&& final(aggregator).epoch() == old(aggregator).epoch() + 1
                &&& final(aggregator).scores() == Seq::<Entry>::empty()
                &&& final(aggregator).history() == old(aggregator).history().push(Event::Drained)
                &&& (final(self).kept() is None <==> weight_sum(old(aggregator).log()) == 0)
                &&& (final(self).kept() matches Some(s) ==> settles(
                    s,
                    old(aggregator).epoch(),
                    old(aggregator).log(),
                    reservoir,
                ))
                &&& final(self).phase() == (if final(self).kept() is None {
                    Phase::Idle
                } else {
                    Phase::Submitting
                })
                &&& action == (if final(self).kept() is None {
                    Action::Rest
                } else {
                    Action::Submit
                })
            },
            old(self).phase() != Phase::Idle ==> {
                &&& *final(aggregator) == *old(aggregator)
                &&& final(self).kept() == old(self).kept()
            },
            old(self).phase() == Phase::RetryPending ==> final(self).phase() == Phase::Submitting
                && action == Action::Submit,
            old(self).phase() == Phase::Submitting ==> final(self).phase() == Phase::Submitting
                && action == Action::Rest,
            old(self).phase() == Phase::Failed ==> final(self).phase() == Phase::Failed && action
                == Action::Alert,
    {
        match self.phase {
            Phase::Idle => {
                let snapshot = aggregator.drain_and_reset(reservoir);
                let settlement = build_settlement(&snapshot);
                match settlement {
                    None => Action::Rest,
                    Some(s) => {
                        self.kept = Some(s);
                        self.phase = Phase::Submitting;
                        Action::Submit
                    },
                }
            },
            Phase::RetryPending => {
                self.phase = Phase::Submitting;
                Action::Submit
            },
            Phase::Submitting => Action::Rest,
            Phase::Failed => Action::Alert,
        }
    }

    /// The ledger client's judgement on the submission of the kept settlement.
    ///
    /// Confirmation lets the settlement go and returns the loop to idle. A
    /// transient failure keeps it for the next tick, a permanent one holds it
    /// and raises an alert. A judgement that meets no submission under way
    /// changes nothing.
    pub fn on_outcome(&mut self, outcome: SubmitOutcome) -> (action: Action)
        requires
            old(self).wf(),
        ensures
            final(self).wf(),
            final(self).phase() == phase_after(old(self).phase(), outcome),
            final(self).kept() == (if final(self).phase() == Phase::Idle {
                None
            } else {
                old(self).kept()
            }),
            action == (if old(self).phase() == Phase::Submitting && outcome
                == SubmitOutcome::PermanentError {
                Action::Alert
            } else {
                Action::Rest
            }),
    {
        match self.phase {
            Phase::Submitting => match outcome {
                SubmitOutcome::Confirmed => {
                    self.kept = None;
                    self.phase = Phase::Idle;
                    Action::Rest
                },
                SubmitOutcome::TransientError => {
                    self.phase = Phase::RetryPending;
                    Action::Rest
                },
                SubmitOutcome::PermanentError => {
                    self.phase = Phase::Failed;
                    Action::Alert
                },
            },
            _ => Action::Rest,
        }
    }

    /// Hands a refused settlement over to the operator and returns the loop
    /// to idle. In every other phase nothing is handed over and nothing changes.
    pub fn release(&mut self) -> (held: Option<Settlement>)
        requires
            old(self).wf(),
        ensures
            final(self).wf(),
            old(self).phase() == Phase::Failed ==> held == old(self).kept() && final(self).phase()
                == Phase::Idle && final(self).kept() is None,
            old(self).phase() != Phase::Failed ==> held is None && final(self).phase() == old(
                self,
            ).phase() && final(self).kept() == old(self).kept(),
    {
        match self.phase {
            Phase::Failed => {
                self.phase = Phase::Idle;
                self.kept.take()
            },
            _ => None,
        }
    }
}

/// The phase that a judgement leads to.
pub open spec fn phase_after(phase: Phase, outcome: SubmitOutcome) -> Phase {
    match phase {
        Phase::Submitting => match outcome {
            SubmitOutcome::Confirmed => Phase::Idle,
            SubmitOutcome::TransientError => Phase::RetryPending,
            SubmitOutcome::PermanentError => Phase::Failed,
        },
        _ => phase,
    }
}

/// `s` settles the epoch `epoch` that the contributions `log` made up, out of `reservoir`.
pub open spec fn settles(s: Settlement, epoch: u64, log: Seq<Contribution>, reservoir: u64) -> bool {
    &&& s.wf()
    &&& s.epoch == epoch
    &&& is_attribution_of(s.credits@, replay(log), reservoir as nat, weight_sum(log))
    &&& s.debit == reward_sum(replay(log), reservoir as nat, weight_sum(log))
    &&& s.debit <= reservoir
    &&& (s.debit == reservoir <==> divides_evenly(replay(log), reservoir as nat, weight_sum(log)))
}

/// What the settlement of an epoch holds for a party is the floor of the
/// party's share of the reservoir, by the weight it contributed in the epoch.
pub proof fn lemma_settlement_amounts(
    s: Settlement,
    epoch: u64,
    log: Seq<Contribution>,
    reservoir: u64,
    who: Seq<u8>,
)
    requires
        settles(s, epoch, log, reservoir),
        weight_sum(log) <= u64::MAX,
    ensures
        amount_for(s.credits@, who) == reward(reservoir as nat, weight_of(log, who), weight_sum(log)),
{
    let entries = replay(log);
    let credits = s.credits@;
    let total = weight_sum(log);
    lemma_conservation(log);
    assert(score_of(entries, who) == weight_of(log, who));
    if holds_member(entries, who) {
        let i = choose|i: int| 0 <= i < entries.len() && #[trigger] entries[i].member@ == who;
        assert(credits[i].member == entries[i].member);
        assert forall|a: int, b: int|
            0 <= a < credits.len() && 0 <= b < credits.len() && a != b implies (
        #[trigger] credits[a]).member@ != (#[trigger] credits[b]).member@ by {
            assert(credits[a].member == entries[a].member);
            assert(credits[b].member == entries[b].member);
            assert(entries[a].member@ != entries[b].member@);
        }
        lemma_amount_for_credit(credits, i);
        lemma_score_of_entry(entries, i);
    } else {
        assert forall|i: int| 0 <= i < credits.len() implies (#[trigger] credits[i]).member@
            != who by {
            assert(credits[i].member == entries[i].member);
            assert(entries[i].member@ != who);
        }
        lemma_amount_for_absent(credits, who);
        lemma_score_of_absent(entries, who);
        if total > 0 {
            assert((reservoir as nat * 0nat) / total == 0) by (nonlinear_arith)
                requires
                    total > 0,
            ;
        }
    }
}

/// From contributions to balances: once the settlement of an epoch is booked,
/// however often it was submitted, every party's balance has grown by exactly
/// the floor of its share of the reservoir, and by nothing else.
pub proof fn lemma_epoch_settled_once(
    l: LedgerState,
    s: Settlement,
    epoch: u64,
    log: Seq<Contribution>,
    reservoir: u64,
    times: nat,
)
    requires
        settles(s, epoch, log, reservoir),
        weight_sum(log) <= u64::MAX,
        settle(l, s).0 == Ok::<Applied, ProgramError>(Applied::Settled),
        times >= 1,
    ensures
        forall|who: Seq<u8>|
            #[trigger] balance_of(resubmitted(l, s, times).members, who) == balance_of(
                l.members,
                who,
            ) + reward(reservoir as nat, weight_of(log, who), weight_sum(log)),
{
    lemma_resubmission(l, s, times);
    assert forall|who: Seq<u8>|
        #[trigger] balance_of(resubmitted(l, s, times).members, who) == balance_of(l.members, who)
            + reward(reservoir as nat, weight_of(log, who), weight_sum(log)) by {
        lemma_settlement_amounts(s, epoch, log, reservoir, who);
    }
}

} // verus!
