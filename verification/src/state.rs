//! The two account records of the pool program and their byte layout.
//!
//! A record starts with an 8-byte header whose first byte tells the kind of
//! record; the fields follow without padding, integers in little-endian order.

use vstd::prelude::*;
use vstd::bytes::{spec_u64_from_le_bytes, spec_u64_to_le_bytes, u64_from_le_bytes, u64_to_le_bytes, lemma_auto_spec_u64_to_from_le_bytes};
use vstd::slice::slice_subrange;
use crate::address::{lemma_address_ext, Address};
use crate::error::ProgramError;

verus! {

pub const MEMBER_DISCRIMINATOR: u8 = 100;

pub const POOL_DISCRIMINATOR: u8 = 101;

/// Length of the header in front of every record.
pub const HEADER_LEN: usize = 8;

/// Length of a member account: header, authority, pool, balance.
pub const MEMBER_ACCOUNT_LEN: usize = 80;

/// Length of a pool account: header, authority, member count, reservoir, next epoch.
pub const POOL_ACCOUNT_LEN: usize = 64;

/// A registered participant of a pool.
#[derive(Clone, Copy, Debug, PartialEq, Eq)]
pub struct Member {
    /// The party allowed to claim the balance.
    pub authority: Address,
    /// The pool the member belongs to.
    pub pool: Address,
    /// Rewards settled so far and not yet claimed.
    pub balance: u64,
}

/// A pool.
#[derive(Clone, Copy, Debug, PartialEq, Eq)]
pub struct Pool {
    /// The operator of the pool.
    pub authority: Address,
    /// Number of registered members.
    pub total_members: u64,
    /// Rewards available for attribution.
    pub reservoir: u64,
    /// The first epoch that has not been settled yet.
    pub next_epoch: u64,
}

/// The header of a record of the given kind.
pub open spec fn header(discriminator: u8) -> Seq<u8> {
    seq![discriminator, 0u8, 0u8, 0u8, 0u8, 0u8, 0u8, 0u8]
}

/// The bytes of a member account.
pub open spec fn member_bytes(m: Member) -> Seq<u8> {
    header(MEMBER_DISCRIMINATOR) + m.authority@ + m.pool@ + spec_u64_to_le_bytes(m.balance)
}

/// The bytes of a pool account.
pub open spec fn pool_bytes(p: Pool) -> Seq<u8> {
    header(POOL_DISCRIMINATOR) + p.authority@ + spec_u64_to_le_bytes(p.total_members)
        + spec_u64_to_le_bytes(p.reservoir) + spec_u64_to_le_bytes(p.next_epoch)
}

/// `data` has the length and the kind of a member account.
pub open spec fn holds_member_record(data: Seq<u8>) -> bool {
    data.len() == MEMBER_ACCOUNT_LEN && data[0] == MEMBER_DISCRIMINATOR
}

/// `data` has the length and the kind of a pool account.
pub open spec fn holds_pool_record(data: Seq<u8>) -> bool {
    data.len() == POOL_ACCOUNT_LEN && data[0] == POOL_DISCRIMINATOR
}

/// `m` is the member that `data` holds.
pub open spec fn is_member_record(data: Seq<u8>, m: Member) -> bool {
    &&& m.authority@ == data.subrange(8, 40)
    &&& m.pool@ == data.subrange(40, 72)
    &&& m.balance == spec_u64_from_le_bytes(data.subrange(72, 80))
}

/// `p` is the pool that `data` holds.
pub open spec fn is_pool_record(data: Seq<u8>, p: Pool) -> bool {
    &&& p.authority@ == data.subrange(8, 40)
    &&& p.total_members == spec_u64_from_le_bytes(data.subrange(40, 48))
    &&& p.reservoir == spec_u64_from_le_bytes(data.subrange(48, 56))
    &&& p.next_epoch == spec_u64_from_le_bytes(data.subrange(56, 64))
}

/// Account data holds one member at most.
pub proof fn lemma_member_record_unique(data: Seq<u8>, a: Member, b: Member)
    requires
        is_member_record(data, a),
        is_member_record(data, b),
    ensures
        a == b,
{
    lemma_address_ext(a.authority, b.authority);
    lemma_address_ext(a.pool, b.pool);
}

/// Account data holds one pool at most.
pub proof fn lemma_pool_record_unique(data: Seq<u8>, a: Pool, b: Pool)
    requires
        is_pool_record(data, a),
        is_pool_record(data, b),
    ensures
        a == b,
{
    lemma_address_ext(a.authority, b.authority);
}

/// Writing a member and reading it back gives the same member.
pub proof fn lemma_member_round_trip(m: Member)
    ensures
        holds_member_record(member_bytes(m)),
        is_member_record(member_bytes(m), m),
{
    lemma_auto_spec_u64_to_from_le_bytes();
    let data = member_bytes(m);
    assert(spec_u64_to_le_bytes(m.balance).len() == 8);
    assert(data.len() == 80);
    assert(data[0] == MEMBER_DISCRIMINATOR);
    assert(data.subrange(8, 40) =~= m.authority@);
    assert(data.subrange(40, 72) =~= m.pool@);
    assert(data.subrange(72, 80) =~= spec_u64_to_le_bytes(m.balance));
}

/// Writing a pool and reading it back gives the same pool.
pub proof fn lemma_pool_round_trip(p: Pool)
    ensures
        holds_pool_record(pool_bytes(p)),
        is_pool_record(pool_bytes(p), p),
{
    lemma_auto_spec_u64_to_from_le_bytes();
    let data = pool_bytes(p);
    assert(spec_u64_to_le_bytes(p.total_members).len() == 8);
    assert(spec_u64_to_le_bytes(p.reservoir).len() == 8);
    assert(spec_u64_to_le_bytes(p.next_epoch).len() == 8);
    assert(data.len() == 64);
    assert(data[0] == POOL_DISCRIMINATOR);
    assert(data.subrange(8, 40) =~= p.authority@);
    assert(data.subrange(40, 48) =~= spec_u64_to_le_bytes(p.total_members));
    assert(data.subrange(48, 56) =~= spec_u64_to_le_bytes(p.reservoir));
    assert(data.subrange(56, 64) =~= spec_u64_to_le_bytes(p.next_epoch));
}

/// Reads the 32 bytes of an address.
pub fn read_address(data: &[u8], at: usize) -> (a: Address)
    requires
        at + 32 <= data@.len(),
    ensures
        a@ == data@.subrange(at as int, at + 32),
{
    let n = data.len();
    let mut bytes = [0u8; 32];
    let mut i: usize = 0;
    while i < 32
        invariant
            i <= 32,
            at + 32 <= n,
            n == data@.len(),
            forall|j: int| 0 <= j < i ==> bytes@[j] == data@[at + j],
        decreases 32 - i,
    {
        bytes[i] = data[at + i];
        i += 1;
    }
    assert(bytes@ =~= data@.subrange(at as int, at + 32));
    Address { bytes }
}

/// Reads a little-endian integer.
pub fn read_u64(data: &[u8], at: usize) -> (x: u64)
    requires
        at + 8 <= data@.len(),
    ensures
        x == spec_u64_from_le_bytes(data@.subrange(at as int, at + 8)),
{
    let n = data.len();
    assert(at + 8 <= n);
    u64_from_le_bytes(slice_subrange(data, at, at + 8))
}

/// Appends the bytes of an address.
pub fn write_address(out: &mut Vec<u8>, a: &Address)
    ensures
        final(out)@ == old(out)@ + a@,
{
    let ghost before = out@;
    let mut i: usize = 0;
    while i < 32
        invariant
            i <= 32,
            out@ == before + a@.take(i as int),
        decreases 32 - i,
    {
        out.push(a.bytes[i]);
        assert(a@.take(i + 1) =~= a@.take(i as int).push(a@[i as int]));
        assert(out@ =~= before + a@.take(i + 1));
        i += 1;
    }
    assert(a@.take(32) =~= a@);
}

/// Appends a little-endian integer.
pub fn write_u64(out: &mut Vec<u8>, x: u64)
    ensures
        final(out)@ == old(out)@ + spec_u64_to_le_bytes(x),
{
    let ghost before = out@;
    let bytes = u64_to_le_bytes(x);
    let mut i: usize = 0;
    while i < 8
        invariant
            i <= 8,
            bytes@.len() == 8,
            out@ == before + bytes@.take(i as int),
        decreases 8 - i,
    {
        out.push(bytes[i]);
        assert(bytes@.take(i + 1) =~= bytes@.take(i as int).push(bytes@[i as int]));
        assert(out@ =~= before + bytes@.take(i + 1));
        i += 1;
    }
    assert(bytes@.take(8) =~= bytes@);
}

/// Starts a record with its header.
fn write_header(discriminator: u8) -> (out: Vec<u8>)
    ensures
        out@ == header(discriminator),
{
    let mut out: Vec<u8> = Vec::new();
    out.push(discriminator);
    out.push(0);
    out.push(0);
    out.push(0);
    out.push(0);
    out.push(0);
    out.push(0);
    out.push(0);
    assert(out@ =~= header(discriminator));
    out
}

impl Member {
    /// Reads a member account. Data of another length or kind is refused.
    pub fn try_from_bytes(data: &[u8]) -> (r: Result<Member, ProgramError>)
        ensures
            r is Ok <==> holds_member_record(data@),
            r matches Ok(m) ==> is_member_record(data@, m),
            r matches Err(e) ==> e == ProgramError::InvalidAccountData,
    {
        if data.len() != MEMBER_ACCOUNT_LEN || data[0] != MEMBER_DISCRIMINATOR {
            return Err(ProgramError::InvalidAccountData);
        }
        Ok(
            Member {
                authority: read_address(data, 8),
                pool: read_address(data, 40),
                balance: read_u64(data, 72),
            },
        )
    }

    /// Writes the member as account data.
    pub fn to_bytes(&self) -> (out: Vec<u8>)
        ensures
            out@ == member_bytes(*self),
    {
        let mut out = write_header(MEMBER_DISCRIMINATOR);
        write_address(&mut out, &self.authority);
        write_address(&mut out, &self.pool);
        write_u64(&mut out, self.balance);
        out
    }
}

impl Pool {
    /// Reads a pool account. Data of another length or kind is refused.
    pub fn try_from_bytes(data: &[u8]) -> (r: Result<Pool, ProgramError>)
        ensures
            r is Ok <==> holds_pool_record(data@),
            r matches Ok(p) ==> is_pool_record(data@, p),
            r matches Err(e) ==> e == ProgramError::InvalidAccountData,
    {
        if data.len() != POOL_ACCOUNT_LEN || data[0] != POOL_DISCRIMINATOR {
            return Err(ProgramError::InvalidAccountData);
        }
        Ok(
            Pool {
                authority: read_address(data, 8),
                total_members: read_u64(data, 40),
                reservoir: read_u64(data, 48),
                next_epoch: read_u64(data, 56),
            },
        )
    }

    /// Writes the pool as account data.
    pub fn to_bytes(&self) -> (out: Vec<u8>)
        ensures
            out@ == pool_bytes(*self),
    {
        let mut out = write_header(POOL_DISCRIMINATOR);
        write_address(&mut out, &self.authority);
        write_u64(&mut out, self.total_members);
        write_u64(&mut out, self.reservoir);
        write_u64(&mut out, self.next_epoch);
        out
    }
}

} // verus!
