use ore_pool::address::Address;
use ore_pool::error::{OreError, ProgramError};
use ore_pool::loaders::{load_any_pool, load_member, load_pool, load_pool_member, load_program, Account};
use ore_pool::open::{complete_open, process_open, CreateMember};
use ore_pool::state::{read_address, read_u64, Member, Pool, MEMBER_ACCOUNT_LEN, MEMBER_DISCRIMINATOR, POOL_ACCOUNT_LEN, POOL_DISCRIMINATOR};

fn key(n: u8) -> Address {
    Address::new([n; 32])
}

fn program() -> Address {
    key(77)
}

fn account(owner: Address, data: Vec<u8>, is_writable: bool) -> Account {
    Account { key: key(50), owner, data, is_signer: false, is_writable, executable: false }
}

fn member_account() -> Account {
    let m = Member { authority: key(1), pool: key(2), balance: 9 };
    account(program(), m.to_bytes(), true)
}

fn pool_account() -> Account {
    let p = Pool { authority: key(3), total_members: 4, reservoir: 500, next_epoch: 6 };
    account(program(), p.to_bytes(), true)
}

#[test]
fn ore_error_codes() {
    let all = [
        (OreError::IsPaused, 0u32),
        (OreError::NeedsReset, 1),
        (OreError::ResetTooEarly, 2),
        (OreError::DifficultyInsufficient, 3),
        (OreError::BusRewardsInsufficient, 4),
        (OreError::ClaimTooLarge, 5),
        (OreError::ClockInvalid, 6),
    ];
    for (e, code) in all {
        assert_eq!(e.code(), code);
        assert_eq!(u32::from(e), code);
        assert_eq!(ProgramError::from(e), ProgramError::Custom(code));
        assert_eq!(OreError::from_code(code), Some(e));
    }
    assert_eq!(OreError::from_code(7), None);
    assert_eq!(OreError::from_code(u32::MAX), None);
}

#[test]
fn ore_error_messages() {
    assert_eq!(OreError::IsPaused.message(), "Mining is paused");
    assert_eq!(OreError::NeedsReset.message(), "The epoch has ended and needs reset");
    assert_eq!(OreError::ResetTooEarly.message(), "The epoch is active and cannot be reset at this time");
    assert_eq!(
        OreError::DifficultyInsufficient.message(),
        "The provided hash did not satisfy the minimum required difficulty"
    );
    assert_eq!(
        OreError::BusRewardsInsufficient.message(),
        "The bus does not have enough rewards to issue at this time"
    );
    assert_eq!(OreError::ClaimTooLarge.message(), "The claim amount cannot be greater than the claimable rewards");
    assert_eq!(OreError::ClockInvalid.message(), "The clock time is invalid");
}

#[test]
fn member_record_layout() {
    let m = Member { authority: key(1), pool: key(2), balance: 0x0102030405060708 };
    let bytes = m.to_bytes();
    assert_eq!(bytes.len(), MEMBER_ACCOUNT_LEN);
    assert_eq!(bytes.len(), 80);
    assert_eq!(bytes[0], MEMBER_DISCRIMINATOR);
    assert_eq!(bytes[0], 100);
    assert_eq!(&bytes[1..8], &[0u8; 7]);
    assert_eq!(&bytes[8..40], &[1u8; 32]);
    assert_eq!(&bytes[40..72], &[2u8; 32]);
    assert_eq!(&bytes[72..80], &[8u8, 7, 6, 5, 4, 3, 2, 1]);
    assert_eq!(Member::try_from_bytes(&bytes), Ok(m));
    assert_eq!(read_address(&bytes, 40), key(2));
    assert_eq!(read_u64(&bytes, 72), 0x0102030405060708);
}

#[test]
fn pool_record_layout() {
    let p = Pool { authority: key(3), total_members: 4, reservoir: 500, next_epoch: 6 };
    let bytes = p.to_bytes();
    assert_eq!(bytes.len(), POOL_ACCOUNT_LEN);
    assert_eq!(bytes.len(), 64);
    assert_eq!(bytes[0], POOL_DISCRIMINATOR);
    assert_eq!(bytes[0], 101);
    assert_eq!(&bytes[8..40], &[3u8; 32]);
    assert_eq!(&bytes[40..48], &4u64.to_le_bytes());
    assert_eq!(&bytes[48..56], &500u64.to_le_bytes());
    assert_eq!(&bytes[56..64], &6u64.to_le_bytes());
    assert_eq!(Pool::try_from_bytes(&bytes), Ok(p));
}

#[test]
fn records_of_wrong_kind_or_length_are_refused() {
    let m = Member { authority: key(1), pool: key(2), balance: 9 }.to_bytes();
    let p = Pool { authority: key(3), total_members: 4, reservoir: 500, next_epoch: 6 }.to_bytes();
    assert_eq!(Pool::try_from_bytes(&m), Err(ProgramError::InvalidAccountData));
    assert_eq!(Member::try_from_bytes(&p), Err(ProgramError::InvalidAccountData));
    assert_eq!(Member::try_from_bytes(&m[..79]), Err(ProgramError::InvalidAccountData));
    assert_eq!(Member::try_from_bytes(&[]), Err(ProgramError::InvalidAccountData));
    let mut wrong = m.clone();
    wrong[0] = 101;
    assert_eq!(Member::try_from_bytes(&wrong), Err(ProgramError::InvalidAccountData));
    let mut header = m.clone();
    header[3] = 9;
    assert!(Member::try_from_bytes(&header).is_ok());
}

#[test]
fn load_member_accepts_matching_account() {
    assert_eq!(load_member(&member_account(), &program(), &key(1), &key(2), true), Ok(()));
    assert_eq!(load_member(&member_account(), &program(), &key(1), &key(2), false), Ok(()));
}

#[test]
fn load_member_errors() {
    let good = member_account();
    assert_eq!(load_member(&good, &key(78), &key(1), &key(2), false), Err(ProgramError::InvalidAccountOwner));
    let empty = account(program(), Vec::new(), true);
    assert_eq!(load_member(&empty, &program(), &key(1), &key(2), false), Err(ProgramError::UninitializedAccount));
    let foreign_empty = account(key(78), Vec::new(), true);
    assert_eq!(
        load_member(&foreign_empty, &program(), &key(1), &key(2), false),
        Err(ProgramError::InvalidAccountOwner)
    );
    assert_eq!(load_member(&pool_account(), &program(), &key(1), &key(2), false), Err(ProgramError::InvalidAccountData));
    assert_eq!(load_member(&good, &program(), &key(9), &key(2), false), Err(ProgramError::InvalidAccountData));
    assert_eq!(load_member(&good, &program(), &key(1), &key(9), false), Err(ProgramError::InvalidAccountData));
    let read_only = account(program(), good.data.clone(), false);
    assert_eq!(load_member(&read_only, &program(), &key(1), &key(2), true), Err(ProgramError::InvalidAccountData));
    assert_eq!(load_member(&read_only, &program(), &key(1), &key(2), false), Ok(()));
}

#[test]
fn load_pool_member_checks_pool_only() {
    let good = member_account();
    assert_eq!(load_pool_member(&good, &program(), &key(2), true), Ok(()));
    assert_eq!(load_pool_member(&good, &program(), &key(9), true), Err(ProgramError::InvalidAccountData));
    assert_eq!(load_pool_member(&good, &key(78), &key(2), true), Err(ProgramError::InvalidAccountOwner));
    let empty = account(program(), Vec::new(), true);
    assert_eq!(load_pool_member(&empty, &program(), &key(2), true), Err(ProgramError::UninitializedAccount));
    assert_eq!(load_pool_member(&pool_account(), &program(), &key(2), true), Err(ProgramError::InvalidAccountData));
    let read_only = account(program(), good.data.clone(), false);
    assert_eq!(load_pool_member(&read_only, &program(), &key(2), true), Err(ProgramError::InvalidAccountData));
}

#[test]
fn load_pool_checks_authority() {
    let good = pool_account();
    assert_eq!(load_pool(&good, &program(), &key(3), true), Ok(()));
    assert_eq!(load_pool(&good, &program(), &key(4), true), Err(ProgramError::InvalidAccountData));
    assert_eq!(load_pool(&good, &key(78), &key(3), true), Err(ProgramError::InvalidAccountOwner));
    let empty = account(program(), Vec::new(), true);
    assert_eq!(load_pool(&empty, &program(), &key(3), true), Err(ProgramError::UninitializedAccount));
    assert_eq!(load_pool(&member_account(), &program(), &key(3), true), Err(ProgramError::InvalidAccountData));
    let read_only = account(program(), good.data.clone(), false);
    assert_eq!(load_pool(&read_only, &program(), &key(3), true), Err(ProgramError::InvalidAccountData));
    assert_eq!(load_pool(&read_only, &program(), &key(3), false), Ok(()));
}

#[test]
fn load_any_pool_looks_at_the_first_byte() {
    assert_eq!(load_any_pool(&pool_account(), &program(), true), Ok(()));
    let short = account(program(), vec![101], false);
    assert_eq!(load_any_pool(&short, &program(), false), Ok(()));
    assert_eq!(load_any_pool(&short, &program(), true), Err(ProgramError::InvalidAccountData));
    assert_eq!(load_any_pool(&member_account(), &program(), false), Err(ProgramError::InvalidAccountData));
    assert_eq!(load_any_pool(&pool_account(), &key(78), false), Err(ProgramError::InvalidAccountOwner));
    let empty = account(program(), Vec::new(), true);
    assert_eq!(load_any_pool(&empty, &program(), false), Err(ProgramError::UninitializedAccount));
}

#[test]
fn load_program_checks_key_and_executable() {
    let mut system = account(key(0), Vec::new(), false);
    system.key = key(0);
    system.executable = true;
    assert_eq!(load_program(&system, &key(0)), Ok(()));
    assert_eq!(load_program(&system, &key(1)), Err(ProgramError::IncorrectProgramId));
    system.executable = false;
    assert_eq!(load_program(&system, &key(0)), Err(ProgramError::InvalidAccountData));
    assert_eq!(load_program(&system, &key(1)), Err(ProgramError::IncorrectProgramId));
}

fn open_accounts() -> Vec<Account> {
    let mut accounts = Vec::new();
    for n in [10u8, 11, 12, 13, 0] {
        let mut a = account(key(0), Vec::new(), true);
        a.key = key(n);
        accounts.push(a);
    }
    accounts[0].is_signer = true;
    accounts[3] = pool_account();
    accounts[3].key = key(13);
    accounts[4].executable = true;
    accounts
}

#[test]
fn process_open_plans_the_member_account() {
    let accounts = open_accounts();
    assert_eq!(
        process_open(&accounts, &[254], &key(0)),
        Ok(CreateMember {
            payer: key(10),
            authority: key(11),
            member: key(12),
            pool: key(13),
            space: 80,
            bump: 254,
        })
    );
}

#[test]
fn process_open_looks_at_accounts_before_data() {
    let blank = account(key(0), Vec::new(), false);
    let six = vec![blank.clone(), blank.clone(), blank.clone(), blank.clone(), blank.clone(), blank.clone()];
    assert_eq!(process_open(&six, &[], &key(0)), Err(ProgramError::NotEnoughAccountKeys));
    assert_eq!(process_open(&six, &[1, 2], &key(0)), Err(ProgramError::NotEnoughAccountKeys));
    assert_eq!(process_open(&six[..4], &[], &key(0)), Err(ProgramError::NotEnoughAccountKeys));
    assert_eq!(process_open(&[], &[], &key(0)), Err(ProgramError::NotEnoughAccountKeys));
    let accounts = open_accounts();
    assert_eq!(process_open(&accounts, &[], &key(1)), Err(ProgramError::IncorrectProgramId));
    assert_eq!(process_open(&accounts, &[1, 2], &key(1)), Err(ProgramError::IncorrectProgramId));
    let mut plain = open_accounts();
    plain[4].executable = false;
    assert_eq!(process_open(&plain, &[], &key(0)), Err(ProgramError::InvalidAccountData));
    assert_eq!(process_open(&accounts, &[], &key(0)), Err(ProgramError::InvalidInstructionData));
}

#[test]
fn process_open_errors() {
    let accounts = open_accounts();
    assert_eq!(process_open(&accounts, &[], &key(0)), Err(ProgramError::InvalidInstructionData));
    assert_eq!(process_open(&accounts, &[1, 2], &key(0)), Err(ProgramError::InvalidInstructionData));
    assert_eq!(process_open(&accounts[..4], &[1], &key(0)), Err(ProgramError::NotEnoughAccountKeys));
    assert_eq!(process_open(&[], &[1], &key(0)), Err(ProgramError::NotEnoughAccountKeys));
    let mut six = open_accounts();
    six.push(account(key(0), Vec::new(), false));
    assert_eq!(process_open(&six, &[1], &key(0)), Err(ProgramError::NotEnoughAccountKeys));
    assert_eq!(process_open(&accounts, &[1], &key(1)), Err(ProgramError::IncorrectProgramId));
    let mut plain = open_accounts();
    plain[4].executable = false;
    assert_eq!(process_open(&plain, &[1], &key(0)), Err(ProgramError::InvalidAccountData));
}

#[test]
fn complete_open_writes_member_and_counts_it() {
    let pool = pool_account();
    let records = complete_open(&[0u8; 80], &pool.data, &key(11), &key(13)).unwrap();
    assert_eq!(
        Member::try_from_bytes(&records.member),
        Ok(Member { authority: key(11), pool: key(13), balance: 0 })
    );
    assert_eq!(
        Pool::try_from_bytes(&records.pool),
        Ok(Pool { authority: key(3), total_members: 5, reservoir: 500, next_epoch: 6 })
    );
    let opened = Account {
        key: key(12),
        owner: program(),
        data: records.member,
        is_signer: false,
        is_writable: true,
        executable: false,
    };
    assert_eq!(load_member(&opened, &program(), &key(11), &key(13), true), Ok(()));
}

#[test]
fn complete_open_errors() {
    let pool = pool_account();
    assert_eq!(complete_open(&[0u8; 79], &pool.data, &key(11), &key(13)), Err(ProgramError::InvalidAccountData));
    assert_eq!(complete_open(&[], &pool.data, &key(11), &key(13)), Err(ProgramError::InvalidAccountData));
    assert_eq!(
        complete_open(&[0u8; 80], &member_account().data, &key(11), &key(13)),
        Err(ProgramError::InvalidAccountData)
    );
    assert_eq!(complete_open(&[0u8; 80], &[], &key(11), &key(13)), Err(ProgramError::InvalidAccountData));
}
