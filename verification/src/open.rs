//! Opening a member account: what the program decides before the account is
//! created, and what it writes once the account exists.

use vstd::prelude::*;
use vstd::bytes::{spec_u64_from_le_bytes, spec_u64_to_le_bytes, u64_to_le_bytes};
use crate::address::Address;
use crate::error::ProgramError;
use crate::loaders::{load_program, program_verdict, Account};
use crate::state::{holds_pool_record, read_u64, MEMBER_ACCOUNT_LEN, MEMBER_DISCRIMINATOR, POOL_ACCOUNT_LEN, POOL_DISCRIMINATOR};

verus! {

/// The account that an accepted open instruction asks to have created.
#[derive(Clone, Copy, Debug, PartialEq, Eq)]
pub struct CreateMember {
    /// Who pays for the new account.
    pub payer: Address,
    /// The party the member account will belong to.
    pub authority: Address,
    /// Address of the account to create.
    pub member: Address,
    /// Address of the pool that the member joins.
    pub pool: Address,
    /// Size of the account data.
    pub space: usize,
    /// Bump seed of the account's address.
    pub bump: u8,
}

/// The account data after a member has been opened.
#[derive(Debug, PartialEq, Eq)]
pub struct OpenedRecords {
    pub member: Vec<u8>,
    pub pool: Vec<u8>,
}

/// What an open instruction leads to. The accounts are payer, authority,
/// member, pool and system program, in this order; the instruction data is
/// the one-byte bump seed. The number of accounts is looked at first, then the
/// system program, and the instruction data last.
pub open spec fn open_verdict(accounts: Seq<Account>, data: Seq<u8>, system_program: Seq<u8>) -> Result<
    CreateMember,
    ProgramError,
> {
    if accounts.len() != 5 {
        Err(ProgramError::NotEnoughAccountKeys)
    } else if program_verdict(accounts[4], system_program) is Err {
        Err(program_verdict(accounts[4], system_program)->Err_0)
    } else if data.len() != 1 {
        Err(ProgramError::InvalidInstructionData)
    } else {
        Ok(
            CreateMember {
                payer: accounts[0].key,
                authority: accounts[1].key,
                member: accounts[2].key,
                pool: accounts[3].key,
                space: MEMBER_ACCOUNT_LEN,
                bump: data[0],
            },
        )
    }
}

/// The data of a freshly created member account once it holds its record:
/// kind, authority and pool are filled in, the balance is zero.
pub open spec fn opened_member_bytes(before: Seq<u8>, authority: Seq<u8>, pool: Seq<u8>) -> Seq<u8> {
    seq![MEMBER_DISCRIMINATOR] + before.subrange(1, 8) + authority + pool + spec_u64_to_le_bytes(0)
}

/// The data of a pool account after one more member has been counted.
pub open spec fn grown_pool_bytes(before: Seq<u8>) -> Seq<u8> {
    before.subrange(0, 40) + spec_u64_to_le_bytes(
        (spec_u64_from_le_bytes(before.subrange(40, 48)) + 1) as u64,
    ) + before.subrange(48, 64)
}

/// Checks an open instruction and says which account has to be created for it.
pub fn process_open(accounts: &[Account], data: &[u8], system_program: &Address) -> (r: Result<
    CreateMember,
    ProgramError,
>)
    ensures
        r == open_verdict(accounts@, data@, system_program@),
{
    if accounts.len() != 5 {
        return Err(ProgramError::NotEnoughAccountKeys);
    }
    match load_program(&accounts[4], system_program) {
        Ok(()) => {},
        Err(e) => {
            return Err(e);
        },
    }
    if data.len() != 1 {
        return Err(ProgramError::InvalidInstructionData);
    }
    Ok(
        CreateMember {
            payer: accounts[0].key,
            authority: accounts[1].key,
            member: accounts[2].key,
            pool: accounts[3].key,
            space: MEMBER_ACCOUNT_LEN,
            bump: data[0],
        },
    )
}

/// Appends `data[from..to]`.
fn copy_range(out: &mut Vec<u8>, data: &[u8], from: usize, to: usize)
    requires
        from <= to <= data@.len(),
    ensures
        final(out)@ == old(out)@ + data@.subrange(from as int, to as int),
{
    let ghost before = out@;
    let mut i: usize = from;
    while i < to
        invariant
            from <= i <= to,
            to <= data@.len(),
            out@ == before + data@.subrange(from as int, i as int),
        decreases to - i,
    {
        out.push(data[i]);
        assert(data@.subrange(from as int, i + 1) =~= data@.subrange(from as int, i as int).push(
            data@[i as int],
        ));
        assert(out@ =~= before + data@.subrange(from as int, i + 1));
        i += 1;
    }
}

/// Fills in the new member account and counts the member in its pool.
///
/// The member account must have the size that `process_open` asked for, and
/// the pool account must hold a pool record; otherwise nothing is written.
/// A pool whose member count cannot grow any more is not accepted.
pub fn complete_open(member_data: &[u8], pool_data: &[u8], authority: &Address, pool: &Address) -> (r:
    Result<OpenedRecords, ProgramError>)
    requires
        holds_pool_record(pool_data@) ==> spec_u64_from_le_bytes(pool_data@.subrange(40, 48))
            < u64::MAX,
    ensures
        r is Ok <==> member_data@.len() == MEMBER_ACCOUNT_LEN && holds_pool_record(pool_data@),
        r matches Ok(records) ==> records.member@ == opened_member_bytes(
            member_data@,
            authority@,
            pool@,
        ) && records.pool@ == grown_pool_bytes(pool_data@),
        r matches Err(e) ==> e == ProgramError::InvalidAccountData,
{
    if member_data.len() != MEMBER_ACCOUNT_LEN {
        return Err(ProgramError::InvalidAccountData);
    }
    if pool_data.len() != POOL_ACCOUNT_LEN || pool_data[0] != POOL_DISCRIMINATOR {
        return Err(ProgramError::InvalidAccountData);
    }
    let mut member: Vec<u8> = Vec::new();
    member.push(MEMBER_DISCRIMINATOR);
    assert(member@ =~= seq![MEMBER_DISCRIMINATOR]);
    copy_range(&mut member, member_data, 1, 8);
    copy_range(&mut member, authority.bytes.as_slice(), 0, 32);
    assert(authority.bytes@.subrange(0, 32) =~= authority@);
    copy_range(&mut member, pool.bytes.as_slice(), 0, 32);
    assert(pool.bytes@.subrange(0, 32) =~= pool@);
    let zero = u64_to_le_bytes(0);
    copy_range(&mut member, zero.as_slice(), 0, 8);
    assert(zero@.subrange(0, 8) =~= zero@);

    let count = read_u64(pool_data, 40);
    let grown = u64_to_le_bytes(count + 1);
    let mut record: Vec<u8> = Vec::new();
    copy_range(&mut record, pool_data, 0, 40);
    copy_range(&mut record, grown.as_slice(), 0, 8);
    assert(grown@.subrange(0, 8) =~= grown@);
    copy_range(&mut record, pool_data, 48, 64);
    assert(record@ =~= grown_pool_bytes(pool_data@));
    Ok(OpenedRecords { member, pool: record })
}

} // verus!
