use ore_pool::address::Address;
use ore_pool::attribution::{AttributionRecord, Settlement};
use ore_pool::error::ProgramError;
use ore_pool::instruction::{frame, unframe, ATTRIBUTE, COMMIT, CREDIT_LEN, OPEN, SETTLEMENT_HEAD_LEN};
use ore_pool::ledger::{Applied, Ledger};
use ore_pool::state::{Member, Pool};

fn key(n: u8) -> Address {
    Address::new([n; 32])
}

fn sample() -> Settlement {
    Settlement {
        epoch: 7,
        credits: vec![
            AttributionRecord { member: key(1), amount: 20 },
            AttributionRecord { member: key(2), amount: 0x0102030405060708 },
        ],
        debit: 0x0102030405060708 + 20,
    }
}

#[test]
fn tags_are_distinct() {
    assert_eq!(OPEN, 0);
    assert_eq!(ATTRIBUTE, 1);
    assert_eq!(COMMIT, 2);
}

#[test]
fn frame_puts_the_tag_in_front() {
    assert_eq!(frame(ATTRIBUTE, &[9, 8, 7]), vec![1, 9, 8, 7]);
    assert_eq!(frame(COMMIT, &[]), vec![2]);
    assert_eq!(unframe(&[1, 9, 8, 7]), Ok((1u8, &[9u8, 8, 7][..])));
    assert_eq!(unframe(&[2]), Ok((2u8, &[][..])));
    assert_eq!(unframe(&[]), Err(ProgramError::InvalidInstructionData));
    let framed = frame(COMMIT, &key(5).to_bytes());
    assert_eq!(unframe(&framed), Ok((COMMIT, &[5u8; 32][..])));
}

#[test]
fn settlement_payload_layout() {
    let bytes = sample().to_bytes();
    assert_eq!(bytes.len(), SETTLEMENT_HEAD_LEN + 2 * CREDIT_LEN);
    assert_eq!(bytes.len(), 104);
    assert_eq!(&bytes[0..8], &7u64.to_le_bytes());
    assert_eq!(&bytes[8..16], &(0x0102030405060708u64 + 20).to_le_bytes());
    assert_eq!(&bytes[16..24], &2u64.to_le_bytes());
    assert_eq!(&bytes[24..56], &[1u8; 32]);
    assert_eq!(&bytes[56..64], &20u64.to_le_bytes());
    assert_eq!(&bytes[64..96], &[2u8; 32]);
    assert_eq!(&bytes[96..104], &[8u8, 7, 6, 5, 4, 3, 2, 1]);
}

#[test]
fn settlement_payload_round_trip() {
    let s = sample();
    assert_eq!(Settlement::try_from_bytes(&s.to_bytes()), Ok(s));
    let empty = Settlement { epoch: u64::MAX, credits: Vec::new(), debit: 0 };
    assert_eq!(empty.to_bytes().len(), 24);
    assert_eq!(Settlement::try_from_bytes(&empty.to_bytes()), Ok(empty));
}

#[test]
fn settlement_payload_errors() {
    let bytes = sample().to_bytes();
    assert_eq!(Settlement::try_from_bytes(&[]), Err(ProgramError::InvalidInstructionData));
    assert_eq!(Settlement::try_from_bytes(&bytes[..23]), Err(ProgramError::InvalidInstructionData));
    assert_eq!(Settlement::try_from_bytes(&bytes[..103]), Err(ProgramError::InvalidInstructionData));
    assert_eq!(Settlement::try_from_bytes(&bytes[..64]), Err(ProgramError::InvalidInstructionData));
    let mut longer = bytes.clone();
    longer.extend_from_slice(&[0u8; 40]);
    assert_eq!(Settlement::try_from_bytes(&longer), Err(ProgramError::InvalidInstructionData));
    let mut huge = bytes.clone();
    huge[16..24].copy_from_slice(&u64::MAX.to_le_bytes());
    assert_eq!(Settlement::try_from_bytes(&huge), Err(ProgramError::InvalidInstructionData));
}

#[test]
fn settlement_moves_value_without_making_any() {
    let mut l = Ledger {
        pool: Pool { authority: key(9), total_members: 2, reservoir: 1000, next_epoch: 0 },
        members: vec![
            Member { authority: key(1), pool: key(8), balance: 5 },
            Member { authority: key(2), pool: key(8), balance: 6 },
        ],
    };
    let s = Settlement {
        epoch: 0,
        credits: vec![
            AttributionRecord { member: key(1), amount: 300 },
            AttributionRecord { member: key(2), amount: 33 },
        ],
        debit: 333,
    };
    let carried = Settlement::try_from_bytes(&s.to_bytes()).unwrap();
    assert_eq!(l.apply_settlement(&carried), Ok(Applied::Settled));
    let held: u64 = l.members.iter().map(|m| m.balance).sum::<u64>() + l.pool.reservoir;
    assert_eq!(held, 1011);
    assert_eq!(l.balance(&key(1)), 305);
    assert_eq!(l.balance(&key(2)), 39);
    assert_eq!(l.pool.reservoir, 667);
}
