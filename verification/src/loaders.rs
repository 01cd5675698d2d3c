//! Account checks: before an instruction touches an account, the account must
//! belong to the program, hold a record of the right kind, and match the
//! parties the instruction names.

use vstd::prelude::*;
use crate::address::Address;
use crate::error::ProgramError;
use crate::state::{holds_member_record, holds_pool_record, Member, Pool, POOL_DISCRIMINATOR};

verus! {

/// What the program sees of an account.
#[derive(Clone, Debug)]
pub struct Account {
    pub key: Address,
    pub owner: Address,
    pub data: Vec<u8>,
    pub is_signer: bool,
    pub is_writable: bool,
    pub executable: bool,
}

/// The verdict on a member account that must belong to `authority` and `pool`.
pub open spec fn member_verdict(
    info: Account,
    program_id: Seq<u8>,
    authority: Seq<u8>,
    pool: Seq<u8>,
    is_writable: bool,
) -> Result<(), ProgramError> {
    if info.owner@ != program_id {
        Err(ProgramError::InvalidAccountOwner)
    } else if info.data@.len() == 0 {
        Err(ProgramError::UninitializedAccount)
    } else if !holds_member_record(info.data@) {
        Err(ProgramError::InvalidAccountData)
    } else if info.data@.subrange(8, 40) != authority {
        Err(ProgramError::InvalidAccountData)
    } else if info.data@.subrange(40, 72) != pool {
        Err(ProgramError::InvalidAccountData)
    } else if is_writable && !info.is_writable {
        Err(ProgramError::InvalidAccountData)
    } else {
        Ok(())
    }
}

/// The verdict on a member account that must belong to `pool`, whoever its authority is.
pub open spec fn pool_member_verdict(
    info: Account,
    program_id: Seq<u8>,
    pool: Seq<u8>,
    is_writable: bool,
) -> Result<(), ProgramError> {
    if info.owner@ != program_id {
        Err(ProgramError::InvalidAccountOwner)
    } else if info.data@.len() == 0 {
        Err(ProgramError::UninitializedAccount)
    } else if !holds_member_record(info.data@) {
        Err(ProgramError::InvalidAccountData)
    } else if info.data@.subrange(40, 72) != pool {
        Err(ProgramError::InvalidAccountData)
    } else if is_writable && !info.is_writable {
        Err(ProgramError::InvalidAccountData)
    } else {
        Ok(())
    }
}

/// The verdict on a pool account that must be run by `authority`.
pub open spec fn pool_verdict(
    info: Account,
    program_id: Seq<u8>,
    authority: Seq<u8>,
    is_writable: bool,
) -> Result<(), ProgramError> {
    if info.owner@ != program_id {
        Err(ProgramError::InvalidAccountOwner)
    } else if info.data@.len() == 0 {
        Err(ProgramError::UninitializedAccount)
    } else if !holds_pool_record(info.data@) {
        Err(ProgramError::InvalidAccountData)
    } else if info.data@.subrange(8, 40) != authority {
        Err(ProgramError::InvalidAccountData)
    } else if is_writable && !info.is_writable {
        Err(ProgramError::InvalidAccountData)
    } else {
        Ok(())
    }
}

/// The verdict on an account that must be of the pool kind; only its first byte is looked at.
pub open spec fn any_pool_verdict(info: Account, program_id: Seq<u8>, is_writable: bool) -> Result<
    (),
    ProgramError,
> {
    if info.owner@ != program_id {
        Err(ProgramError::InvalidAccountOwner)
    } else if info.data@.len() == 0 {
        Err(ProgramError::UninitializedAccount)
    } else if info.data@[0] != POOL_DISCRIMINATOR {
        Err(ProgramError::InvalidAccountData)
    } else if is_writable && !info.is_writable {
        Err(ProgramError::InvalidAccountData)
    } else {
        Ok(())
    }
}

/// The verdict on an account that must be the program `key`.
pub open spec fn program_verdict(info: Account, key: Seq<u8>) -> Result<(), ProgramError> {
    if info.key@ != key {
        Err(ProgramError::IncorrectProgramId)
    } else if !info.executable {
        Err(ProgramError::InvalidAccountData)
    } else {
        Ok(())
    }
}

/// Errors if:
/// - Owner is not the pool program.
/// - Data is empty.
/// - Data does not hold a member record.
/// - Member authority is not the expected value.
/// - Member pool is not the expected value.
/// - Expected to be writable, but is not.
pub fn load_member(
    info: &Account,
    program_id: &Address,
    authority: &Address,
    pool: &Address,
    is_writable: bool,
) -> (r: Result<(), ProgramError>)
    ensures
        r == member_verdict(*info, program_id@, authority@, pool@, is_writable),
{
    if !info.owner.same(program_id) {
        return Err(ProgramError::InvalidAccountOwner);
    }
    if info.data.len() == 0 {
        return Err(ProgramError::UninitializedAccount);
    }
    let member = match Member::try_from_bytes(info.data.as_slice()) {
        Ok(member) => member,
        Err(e) => {
            return Err(e);
        },
    };
    if !member.authority.same(authority) {
        return Err(ProgramError::InvalidAccountData);
    }
    if !member.pool.same(pool) {
        return Err(ProgramError::InvalidAccountData);
    }
    if is_writable && !info.is_writable {
        return Err(ProgramError::InvalidAccountData);
    }
    Ok(())
}

/// Errors if:
/// - Owner is not the pool program.
/// - Data is empty.
/// - Data does not hold a member record.
/// - Member pool is not the expected value.
/// - Expected to be writable, but is not.
pub fn load_pool_member(info: &Account, program_id: &Address, pool: &Address, is_writable: bool) -> (r:
    Result<(), ProgramError>)
    ensures
        r == pool_member_verdict(*info, program_id@, pool@, is_writable),
{
    if !info.owner.same(program_id) {
        return Err(ProgramError::InvalidAccountOwner);
    }
    if info.data.len() == 0 {
        return Err(ProgramError::UninitializedAccount);
    }
    let member = match Member::try_from_bytes(info.data.as_slice()) {
        Ok(member) => member,
        Err(e) => {
            return Err(e);
        },
    };
    if !member.pool.same(pool) {
        return Err(ProgramError::InvalidAccountData);
    }
    if is_writable && !info.is_writable {
        return Err(ProgramError::InvalidAccountData);
    }
    Ok(())
}

/// Errors if:
/// - Owner is not the pool program.
/// - Data is empty.
/// - Data does not hold a pool record.
/// - Pool authority is not the expected value.
/// - Expected to be writable, but is not.
pub fn load_pool(info: &Account, program_id: &Address, authority: &Address, is_writable: bool) -> (r:
    Result<(), ProgramError>)
    ensures
        r == pool_verdict(*info, program_id@, authority@, is_writable),
{
    if !info.owner.same(program_id) {
        return Err(ProgramError::InvalidAccountOwner);
    }
    if info.data.len() == 0 {
        return Err(ProgramError::UninitializedAccount);
    }
    let pool = match Pool::try_from_bytes(info.data.as_slice()) {
        Ok(pool) => pool,
        Err(e) => {
            return Err(e);
        },
    };
    if !pool.authority.same(authority) {
        return Err(ProgramError::InvalidAccountData);
    }
    if is_writable && !info.is_writable {
        return Err(ProgramError::InvalidAccountData);
    }
    Ok(())
}

/// Errors if:
/// - Owner is not the pool program.
/// - Data is empty.
/// - Account discriminator does not match the pool's.
/// - Expected to be writable, but is not.
pub fn load_any_pool(info: &Account, program_id: &Address, is_writable: bool) -> (r: Result<
    (),
    ProgramError,
>)
    ensures
        r == any_pool_verdict(*info, program_id@, is_writable),
{
    if !info.owner.same(program_id) {
        return Err(ProgramError::InvalidAccountOwner);
    }
    if info.data.len() == 0 {
        return Err(ProgramError::UninitializedAccount);
    }
    if info.data[0] != POOL_DISCRIMINATOR {
        return Err(ProgramError::InvalidAccountData);
    }
    if is_writable && !info.is_writable {
        return Err(ProgramError::InvalidAccountData);
    }
    Ok(())
}

/// Errors if:
/// - Address does not match the expected value.
/// - Account is not executable.
pub fn load_program(info: &Account, key: &Address) -> (r: Result<(), ProgramError>)
    ensures
        r == program_verdict(*info, key@),
{
    if !info.key.same(key) {
        return Err(ProgramError::IncorrectProgramId);
    }
    if !info.executable {
        return Err(ProgramError::InvalidAccountData);
    }
    Ok(())
}

} // verus!
