//! Submission discipline of the ledger client: how one attempt is judged, when
//! it is tried again, and how long to wait before that.

use vstd::prelude::*;
use vstd::bytes::{spec_u32_from_le_bytes, spec_u32_to_le_bytes, spec_u64_from_le_bytes, u32_from_le_bytes, u32_to_le_bytes, u64_from_le_bytes};
use vstd::slice::slice_subrange;
use crate::error::ProgramError;

verus! {

/// What went wrong in one attempt to get a transaction confirmed.
#[derive(Clone, Copy, Debug, PartialEq, Eq, Structural)]
pub enum LedgerFault {
    /// The ledger could not be reached.
    Network,
    /// No confirmation arrived in time; the transaction may or may not have been applied.
    Timeout,
    /// The reference point the transaction was built against is too old.
    StaleReference,
    /// The ledger ran the transaction and refused it.
    Rejected(ProgramError),
}

/// The judgement on a submission.
#[derive(Clone, Copy, Debug, PartialEq, Eq, Structural)]
pub enum SubmitOutcome {
    Confirmed,
    /// Worth another attempt with the same transaction.
    TransientError,
    /// The same transaction will always fail.
    PermanentError,
}

/// What the client does after an attempt.
#[derive(Clone, Copy, Debug, PartialEq, Eq, Structural)]
pub enum Step {
    /// Wait, then send the same transaction again.
    Retry { delay_ms: u64 },
    /// Stop and report.
    Done(SubmitOutcome),
}

/// How a run of attempts ended.
#[derive(Clone, Copy, Debug, PartialEq, Eq, Structural)]
pub struct Resolution {
    pub outcome: SubmitOutcome,
    /// Number of attempts made.
    pub attempts: u32,
}

/// Bounds on retrying.
#[derive(Clone, Copy, Debug, PartialEq, Eq, Structural)]
pub struct RetryPolicy {
    /// Attempts per submission, the first one included.
    pub max_attempts: u32,
    /// Wait after the first failed attempt.
    pub base_delay_ms: u64,
    /// No wait is longer than this.
    pub max_delay_ms: u64,
}

/// Faults of the network and of timing pass; a refusal by the ledger does not.
pub open spec fn judged(result: Result<(), LedgerFault>) -> SubmitOutcome {
    match result {
        Ok(()) => SubmitOutcome::Confirmed,
        Err(LedgerFault::Network) => SubmitOutcome::TransientError,
        Err(LedgerFault::Timeout) => SubmitOutcome::TransientError,
        Err(LedgerFault::StaleReference) => SubmitOutcome::TransientError,
        Err(LedgerFault::Rejected(_)) => SubmitOutcome::PermanentError,
    }
}

/// `base` doubled `times` times.
pub open spec fn doubled(base: nat, times: nat) -> nat
    decreases times,
{
    if times == 0 {
        base
    } else {
        2 * doubled(base, (times - 1) as nat)
    }
}

/// More doublings never give less.
pub proof fn lemma_doubled_grows(base: nat, a: nat, b: nat)
    requires
        a <= b,
    ensures
        doubled(base, a) <= doubled(base, b),
    decreases b,
{
    if a < b {
        lemma_doubled_grows(base, a, (b - 1) as nat);
    }
}

impl RetryPolicy {
    /// The wait after failed attempt number `attempt` (counted from 1): the
    /// base delay, doubled with every further attempt, capped at the maximum.
    pub open spec fn backoff(self, attempt: nat) -> nat {
        let raw = doubled(self.base_delay_ms as nat, (attempt - 1) as nat);
        if raw < self.max_delay_ms {
            raw
        } else {
            self.max_delay_ms as nat
        }
    }

    /// What follows an attempt, `made` attempts having been made so far.
    pub open spec fn step_after(self, made: u32, report: SubmitOutcome) -> Step {
        if report == SubmitOutcome::TransientError && made < self.max_attempts {
            Step::Retry { delay_ms: self.backoff(made as nat) as u64 }
        } else {
            Step::Done(report)
        }
    }

    /// Attempt number `n` is the one at which the run over `reports` stops:
    /// all attempts before it failed transiently, and it either did not, or
    /// was the last one allowed, or the last one reported.
    pub open spec fn stops_at(self, reports: Seq<SubmitOutcome>, n: int) -> bool {
        &&& 1 <= n <= reports.len()
        &&& n <= self.max_attempts
        &&& forall|j: int| 0 <= j < n - 1 ==> reports[j] == SubmitOutcome::TransientError
        &&& (reports[n - 1] != SubmitOutcome::TransientError || n == self.max_attempts || n
            == reports.len())
    }

    /// The wait before the next attempt.
    pub fn backoff_delay(&self, attempt: u32) -> (delay_ms: u64)
        requires
            attempt >= 1,
        ensures
            delay_ms == self.backoff(attempt as nat),
            delay_ms <= self.max_delay_ms,
    {
        let base = self.base_delay_ms;
        let cap = self.max_delay_ms;
        let mut delay = base;
        let mut k: u32 = 1;
        while k < attempt
            invariant
                1 <= k <= attempt,
                base == self.base_delay_ms,
                cap == self.max_delay_ms,
                delay == doubled(base as nat, (k - 1) as nat),
            decreases attempt - k,
        {
            if delay >= cap || delay >= cap - delay {
                proof {
                    lemma_doubled_grows(base as nat, k as nat, (attempt - 1) as nat);
                    lemma_doubled_grows(base as nat, (k - 1) as nat, (attempt - 1) as nat);
                }
                return cap;
            }
            delay = 2 * delay;
            k += 1;
        }
        if delay < cap {
            delay
        } else {
            cap
        }
    }

    /// Decides what follows an attempt.
    pub fn next_step(&self, made: u32, report: SubmitOutcome) -> (step: Step)
        requires
            made >= 1,
        ensures
            step == self.step_after(made, report),
    {
        if report == SubmitOutcome::TransientError && made < self.max_attempts {
            Step::Retry { delay_ms: self.backoff_delay(made) }
        } else {
            Step::Done(report)
        }
    }

    /// Runs a submission over the reports of its attempts, in the order in
    /// which they come in, and says where it stops and how it ends.
    pub fn resolve(&self, reports: &Vec<SubmitOutcome>) -> (r: Resolution)
        requires
            self.max_attempts >= 1,
            reports@.len() >= 1,
        ensures
            self.stops_at(reports@, r.attempts as int),
            r.outcome == reports@[r.attempts - 1],
    {
        let n = reports.len();
        let mut made: u32 = 1;
        loop
            invariant
                n == reports@.len(),
                1 <= made <= n,
                made <= self.max_attempts,
                forall|j: int| 0 <= j < made - 1 ==> reports@[j] == SubmitOutcome::TransientError,
            decreases n - made,
        {
            let report = reports[(made - 1) as usize];
            match self.next_step(made, report) {
                Step::Done(outcome) => {
                    return Resolution { outcome, attempts: made };
                },
                Step::Retry { delay_ms: _ } => {
                    if (made as usize) == n {
                        return Resolution { outcome: report, attempts: made };
                    }
                    made += 1;
                },
            }
        }
    }
}

/// Request to run an instruction.
pub const REQUEST_SUBMIT: u8 = 0;

/// Request for the pool's reservoir.
pub const REQUEST_RESERVOIR: u8 = 1;

/// The ledger confirmed the instruction.
pub const REPLY_CONFIRMED: u8 = 0;

/// The ledger found the instruction's reference point too old.
pub const REPLY_STALE: u8 = 1;

/// The ledger ran the instruction and refused it.
pub const REPLY_REJECTED: u8 = 2;

/// A request to the ledger gateway: its kind, the length of its body as a
/// little-endian 32-bit integer, and the body.
pub open spec fn request_bytes(kind: u8, body: Seq<u8>) -> Seq<u8> {
    seq![kind] + spec_u32_to_le_bytes(body.len() as u32) + body
}

/// What the reply to a submission says. A reply starts with the ledger's
/// word; after a refusal follows the program's error code as a little-endian
/// 32-bit integer. A reply that cannot be read counts as a fault of the network.
pub open spec fn reply_verdict(reply: Seq<u8>) -> Result<(), LedgerFault> {
    if reply.len() == 0 {
        Err(LedgerFault::Network)
    } else if reply[0] == REPLY_CONFIRMED {
        Ok(())
    } else if reply[0] == REPLY_STALE {
        Err(LedgerFault::StaleReference)
    } else if reply[0] == REPLY_REJECTED {
        if reply.len() == 5 {
            Err(LedgerFault::Rejected(ProgramError::Custom(spec_u32_from_le_bytes(reply.subrange(1, 5)))))
        } else {
            Err(LedgerFault::Rejected(ProgramError::InvalidInstructionData))
        }
    } else {
        Err(LedgerFault::Network)
    }
}

/// The amount that a reply of eight bytes carries.
pub open spec fn reply_amount(reply: Seq<u8>) -> Result<u64, LedgerFault> {
    if reply.len() == 8 {
        Ok(spec_u64_from_le_bytes(reply))
    } else {
        Err(LedgerFault::Network)
    }
}

/// Writes a request. A body too long for its length field is refused.
pub fn write_request(kind: u8, body: &[u8]) -> (r: Option<Vec<u8>>)
    ensures
        r is Some <==> body@.len() <= u32::MAX,
        r matches Some(out) ==> out@ == request_bytes(kind, body@),
{
    let n = body.len();
    if n > u32::MAX as usize {
        return None;
    }
    let length = u32_to_le_bytes(n as u32);
    let mut out: Vec<u8> = Vec::new();
    out.push(kind);
    let mut i: usize = 0;
    while i < 4
        invariant
            i <= 4,
            length@.len() == 4,
            out@ == seq![kind] + length@.take(i as int),
        decreases 4 - i,
    {
        out.push(length[i]);
        assert(out@ =~= seq![kind] + length@.take(i + 1));
        i += 1;
    }
    assert(length@.take(4) =~= length@);
    let ghost head = out@;
    let mut k: usize = 0;
    while k < n
        invariant
            k <= n,
            n == body@.len(),
            out@ == head + body@.take(k as int),
        decreases n - k,
    {
        out.push(body[k]);
        assert(out@ =~= head + body@.take(k + 1));
        k += 1;
    }
    assert(body@.take(n as int) =~= body@);
    Some(out)
}

/// Reads the reply to a submission.
pub fn read_reply(reply: &[u8]) -> (r: Result<(), LedgerFault>)
    ensures
        r == reply_verdict(reply@),
{
    if reply.len() == 0 {
        return Err(LedgerFault::Network);
    }
    let word = reply[0];
    if word == REPLY_CONFIRMED {
        Ok(())
    } else if word == REPLY_STALE {
        Err(LedgerFault::StaleReference)
    } else if word == REPLY_REJECTED {
        if reply.len() == 5 {
            let code = u32_from_le_bytes(slice_subrange(reply, 1, 5));
            Err(LedgerFault::Rejected(ProgramError::Custom(code)))
        } else {
            Err(LedgerFault::Rejected(ProgramError::InvalidInstructionData))
        }
    } else {
        Err(LedgerFault::Network)
    }
}

/// Reads the reply to a request for an amount.
pub fn read_amount(reply: &[u8]) -> (r: Result<u64, LedgerFault>)
    ensures
        r == reply_amount(reply@),
{
    if reply.len() == 8 {
        Ok(u64_from_le_bytes(reply))
    } else {
        Err(LedgerFault::Network)
    }
}

/// Judges one attempt.
pub fn classify(result: Result<(), LedgerFault>) -> (outcome: SubmitOutcome)
    ensures
        outcome == judged(result),
{
    match result {
        Ok(()) => SubmitOutcome::Confirmed,
        Err(LedgerFault::Network) => SubmitOutcome::TransientError,
        Err(LedgerFault::Timeout) => SubmitOutcome::TransientError,
        Err(LedgerFault::StaleReference) => SubmitOutcome::TransientError,
        Err(LedgerFault::Rejected(_)) => SubmitOutcome::PermanentError,
    }
}

/// A run of attempts stops at one attempt only.
pub proof fn lemma_stop_unique(policy: RetryPolicy, reports: Seq<SubmitOutcome>, a: int, b: int)
    requires
        policy.stops_at(reports, a),
        policy.stops_at(reports, b),
    ensures
        a == b,
{
    if a < b {
        assert(reports[a - 1] == SubmitOutcome::TransientError);
    } else if b < a {
        assert(reports[b - 1] == SubmitOutcome::TransientError);
    }
}

} // verus!
