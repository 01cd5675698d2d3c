//! Instruction data: one byte that tells the instruction, then its payload.
//! The payload of an attribution is the settlement: epoch, debit and number
//! of credits as little-endian integers, then every credit as the member's
//! address followed by the amount.

use vstd::prelude::*;
use vstd::bytes::{spec_u64_from_le_bytes, spec_u64_to_le_bytes, lemma_auto_spec_u64_to_from_le_bytes};
use vstd::slice::slice_subrange;
use crate::attribution::{AttributionRecord, Settlement};
use crate::error::ProgramError;
use crate::state::{read_address, read_u64, write_address, write_u64};

verus! {

/// Opens a member account.
pub const OPEN: u8 = 0;

/// Settles an epoch.
pub const ATTRIBUTE: u8 = 1;

/// Commits stake for a boost.
pub const COMMIT: u8 = 2;

/// Length of the fixed part of a settlement payload.
pub const SETTLEMENT_HEAD_LEN: usize = 24;

/// Length of one credit in a settlement payload.
pub const CREDIT_LEN: usize = 40;

/// The bytes of one credit: member, then amount.
pub open spec fn credit_bytes(c: AttributionRecord) -> Seq<u8> {
    c.member@ + spec_u64_to_le_bytes(c.amount)
}

/// The bytes of the credits, one behind the other.
pub open spec fn credits_bytes(credits: Seq<AttributionRecord>) -> Seq<u8>
    decreases credits.len(),
{
    if credits.len() == 0 {
        Seq::empty()
    } else {
        credits_bytes(credits.drop_last()) + credit_bytes(credits.last())
    }
}

/// The payload that carries a settlement.
pub open spec fn settlement_bytes(s: Settlement) -> Seq<u8> {
    spec_u64_to_le_bytes(s.epoch) + spec_u64_to_le_bytes(s.debit) + spec_u64_to_le_bytes(
        s.credits@.len() as u64,
    ) + credits_bytes(s.credits@)
}

/// `data` has the length that its own count of credits asks for.
pub open spec fn holds_settlement(data: Seq<u8>) -> bool {
    &&& data.len() >= SETTLEMENT_HEAD_LEN
    &&& data.len() == SETTLEMENT_HEAD_LEN + CREDIT_LEN * spec_u64_from_le_bytes(
        data.subrange(16, 24),
    )
}

/// Every credit takes the same room.
pub proof fn lemma_credits_bytes_len(credits: Seq<AttributionRecord>)
    ensures
        credits_bytes(credits).len() == CREDIT_LEN * credits.len(),
    decreases credits.len(),
{
    lemma_auto_spec_u64_to_from_le_bytes();
    if credits.len() > 0 {
        lemma_credits_bytes_len(credits.drop_last());
        assert(spec_u64_to_le_bytes(credits.last().amount).len() == 8);
    }
}

/// A settlement that has been written can be read back.
pub proof fn lemma_settlement_round_trip(s: Settlement)
    requires
        s.credits@.len() <= u64::MAX,
    ensures
        holds_settlement(settlement_bytes(s)),
{
    lemma_auto_spec_u64_to_from_le_bytes();
    lemma_credits_bytes_len(s.credits@);
    let data = settlement_bytes(s);
    let count = spec_u64_to_le_bytes(s.credits@.len() as u64);
    assert(spec_u64_to_le_bytes(s.epoch).len() == 8);
    assert(spec_u64_to_le_bytes(s.debit).len() == 8);
    assert(count.len() == 8);
    assert(data.subrange(16, 24) =~= count);
}

/// Puts the instruction's tag in front of its payload.
pub fn frame(tag: u8, payload: &[u8]) -> (data: Vec<u8>)
    ensures
        data@ == seq![tag] + payload@,
{
    let mut data: Vec<u8> = Vec::new();
    data.push(tag);
    let n = payload.len();
    let mut i: usize = 0;
    while i < n
        invariant
            i <= n,
            n == payload@.len(),
            data@ == seq![tag] + payload@.take(i as int),
        decreases n - i,
    {
        data.push(payload[i]);
        assert(data@ =~= seq![tag] + payload@.take(i + 1));
        i += 1;
    }
    assert(payload@.take(n as int) =~= payload@);
    data
}

/// Splits instruction data into tag and payload. Empty data is refused.
pub fn unframe(data: &[u8]) -> (r: Result<(u8, &[u8]), ProgramError>)
    ensures
        r is Ok <==> data@.len() > 0,
        r matches Ok(parts) ==> parts.0 == data@[0] && parts.1@ == data@.subrange(
            1,
            data@.len() as int,
        ),
        r matches Err(e) ==> e == ProgramError::InvalidInstructionData,
{
    if data.len() == 0 {
        return Err(ProgramError::InvalidInstructionData);
    }
    Ok((data[0], slice_subrange(data, 1, data.len())))
}

impl Settlement {
    /// Writes the settlement as an instruction payload.
    pub fn to_bytes(&self) -> (out: Vec<u8>)
        ensures
            out@ == settlement_bytes(*self),
    {
        let mut out: Vec<u8> = Vec::new();
        write_u64(&mut out, self.epoch);
        write_u64(&mut out, self.debit);
        let n = self.credits.len();
        write_u64(&mut out, n as u64);
        let ghost head = out@;
        assert(head =~= spec_u64_to_le_bytes(self.epoch) + spec_u64_to_le_bytes(self.debit)
            + spec_u64_to_le_bytes(self.credits@.len() as u64));
        let mut i: usize = 0;
        while i < n
            invariant
                i <= n,
                n == self.credits@.len(),
                out@ == head + credits_bytes(self.credits@.take(i as int)),
            decreases n - i,
        {
            let credit = self.credits[i];
            let ghost before = out@;
            write_address(&mut out, &credit.member);
            write_u64(&mut out, credit.amount);
            proof {
                let next = self.credits@.take(i + 1);
                assert(next.drop_last() =~= self.credits@.take(i as int));
                assert(next.last() == credit);
                assert(out@ =~= before + credit_bytes(credit));
                assert(out@ =~= head + credits_bytes(next));
            }
            i += 1;
        }
        proof {
            assert(self.credits@.take(n as int) =~= self.credits@);
        }
        out
    }

    /// Reads a settlement from an instruction payload. A payload whose length
    /// does not fit its count of credits is refused.
    pub fn try_from_bytes(data: &[u8]) -> (r: Result<Settlement, ProgramError>)
        ensures
            r is Ok <==> holds_settlement(data@),
            r matches Ok(s) ==> settlement_bytes(s) == data@,
            r matches Err(e) ==> e == ProgramError::InvalidInstructionData,
    {
        let len = data.len();
        if len < SETTLEMENT_HEAD_LEN {
            return Err(ProgramError::InvalidInstructionData);
        }
        let epoch = read_u64(data, 0);
        let debit = read_u64(data, 8);
        let count = read_u64(data, 16);
        let room = len - SETTLEMENT_HEAD_LEN;
        if room % CREDIT_LEN != 0 || (room / CREDIT_LEN) as u64 != count {
            return Err(ProgramError::InvalidInstructionData);
        }
        let n = room / CREDIT_LEN;
        let mut credits: Vec<AttributionRecord> = Vec::new();
        let mut i: usize = 0;
        while i < n
            invariant
                i <= n,
                len == data@.len(),
                len == SETTLEMENT_HEAD_LEN + CREDIT_LEN * n,
                credits@.len() == i,
                credits_bytes(credits@) == data@.subrange(24, 24 + 40 * i),
            decreases n - i,
        {
            let at = SETTLEMENT_HEAD_LEN + CREDIT_LEN * i;
            let member = read_address(data, at);
            let amount = read_u64(data, at + 32);
            let ghost before = credits@;
            credits.push(AttributionRecord { member, amount });
            proof {
                lemma_auto_spec_u64_to_from_le_bytes();
                assert(credits@.drop_last() =~= before);
                assert(data@.subrange(at + 32, at + 40).len() == 8);
                assert(spec_u64_to_le_bytes(amount) == data@.subrange(at + 32, at + 40));
                assert(credits_bytes(credits@) =~= data@.subrange(24, 24 + 40 * (i + 1)));
            }
            i += 1;
        }
        let s = Settlement { epoch, credits, debit };
        proof {
            lemma_auto_spec_u64_to_from_le_bytes();
            assert(data@.subrange(0, 8).len() == 8);
            assert(data@.subrange(8, 16).len() == 8);
            assert(data@.subrange(16, 24).len() == 8);
            assert(spec_u64_to_le_bytes(epoch) == data@.subrange(0, 8));
            assert(spec_u64_to_le_bytes(debit) == data@.subrange(8, 16));
            assert(spec_u64_to_le_bytes(count) == data@.subrange(16, 24));
            assert(s.credits@.len() as u64 == count);
            assert(settlement_bytes(s) =~= data@);
        }
        Ok(s)
    }
}

} // verus!
