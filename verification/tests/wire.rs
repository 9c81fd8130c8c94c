use stake_pool::accounts::{AccountMeta, Initialize, Stake};
use stake_pool::cards::{CardEntry, CardInfo, CardStatus};
use stake_pool::errors::StakePoolError;
use stake_pool::guard::find_stake_pool_address;
use stake_pool::ids::Identity;
use stake_pool::instruction::{decode_instruction, StakePoolInstruction};
use stake_pool::pool::{StakePool, UserStake, POOL_RECORD_LEN};
use stake_pool::processor::{process_initialize, process_instruction, EngineOutcome,
    InstructionAccounts, PoolEffect};

fn ident(b: u8) -> Identity {
    Identity::from_bytes(vec![b; 32]).unwrap()
}

fn program_id() -> Identity {
    ident(7)
}

fn pool_meta() -> AccountMeta {
    let (pda, _) = find_stake_pool_address(&program_id()).unwrap();
    AccountMeta { key: pda, owner: program_id(), is_signer: false }
}

fn signer(b: u8) -> AccountMeta {
    AccountMeta { key: ident(b), owner: ident(0), is_signer: true }
}

fn sample_pool() -> StakePool {
    let mut cards = Vec::new();
    cards.push(CardEntry {
        key: ident(1),
        info: CardInfo { card_id: b"visa-0001".to_vec(), status: CardStatus::Linked,
            linked_at: 1111 },
    });
    cards.push(CardEntry {
        key: ident(4),
        info: CardInfo { card_id: Vec::new(), status: CardStatus::Unlinked, linked_at: -5 },
    });
    cards.push(CardEntry {
        key: ident(200),
        info: CardInfo { card_id: b"m".to_vec(), status: CardStatus::Linked,
            linked_at: i64::MIN },
    });
    StakePool {
        total_staked: 123_456_789,
        total_msol: 987,
        reward_rate: 5,
        last_update_time: -42,
        authority: ident(9),
        msol_mint: ident(3),
        linked_cards: cards,
    }
}

#[test]
fn codec_round_trip() {
    let pool = sample_pool();
    let mut buffer = vec![0xAAu8; POOL_RECORD_LEN];
    pool.serialize(&mut buffer).unwrap();
    assert_eq!(buffer.len(), POOL_RECORD_LEN);
    let back = StakePool::deserialize(&buffer).unwrap();
    assert_eq!(back, pool);
}

#[test]
fn codec_round_trip_empty_registry() {
    let accounts = Initialize { stake_pool: pool_meta(), authority: signer(9) };
    let pool = process_initialize(&program_id(), &accounts, ident(3), false).unwrap();
    let mut buffer = vec![0u8; POOL_RECORD_LEN + 37];
    pool.serialize(&mut buffer).unwrap();
    let back = StakePool::deserialize(&buffer).unwrap();
    assert_eq!(back, pool);
}

#[test]
fn codec_layout_is_fixed_offset_little_endian() {
    let pool = sample_pool();
    let mut buffer = vec![0u8; POOL_RECORD_LEN];
    pool.serialize(&mut buffer).unwrap();
    assert_eq!(&buffer[0..8], &123_456_789u64.to_le_bytes());
    assert_eq!(&buffer[8..16], &987u64.to_le_bytes());
    assert_eq!(&buffer[16..24], &5u64.to_le_bytes());
    assert_eq!(&buffer[24..32], &(-42i64).to_le_bytes());
    assert_eq!(&buffer[32..64], &[9u8; 32]);
    assert_eq!(&buffer[64..96], &[3u8; 32]);
    assert_eq!(&buffer[96..100], &3u32.to_le_bytes());
    // First entry: key, identifier length, identifier, status, timestamp.
    assert_eq!(&buffer[100..132], &[1u8; 32]);
    assert_eq!(&buffer[132..136], &9u32.to_le_bytes());
    assert_eq!(&buffer[136..145], b"visa-0001");
    assert_eq!(buffer[145], 0);
    assert_eq!(&buffer[146..154], &1111i64.to_le_bytes());
}

#[test]
fn decode_rejects_garbage_status_byte() {
    let pool = sample_pool();
    let mut buffer = vec![0u8; POOL_RECORD_LEN];
    pool.serialize(&mut buffer).unwrap();
    buffer[145] = 2;
    assert_eq!(StakePool::deserialize(&buffer).unwrap_err(), StakePoolError::BufferTooSmall);
}

#[test]
fn decode_rejects_out_of_order_keys() {
    let pool = sample_pool();
    let mut buffer = vec![0u8; POOL_RECORD_LEN];
    pool.serialize(&mut buffer).unwrap();
    // Overwrite the first entry's key so that it no longer precedes the
    // second entry's key: the record is rejected on the way back in.
    buffer[100..132].copy_from_slice(&[5u8; 32]);
    assert_eq!(StakePool::deserialize(&buffer).unwrap_err(), StakePoolError::BufferTooSmall);
}

#[test]
fn decode_instruction_opcodes() {
    let mut stake = vec![1u8];
    stake.extend_from_slice(&700u64.to_le_bytes());
    match decode_instruction(&stake).unwrap() {
        StakePoolInstruction::Stake { amount } => assert_eq!(amount, 700),
        other => panic!("wrong decode: {:?}", other),
    }
    let mut unstake = vec![2u8];
    unstake.extend_from_slice(&41u64.to_le_bytes());
    assert!(matches!(decode_instruction(&unstake).unwrap(),
        StakePoolInstruction::Unstake { amount: 41 }));
    assert!(matches!(decode_instruction(&[3u8]).unwrap(),
        StakePoolInstruction::ClaimRewards));
    let link = [4u8, b'c', b'1'];
    match decode_instruction(&link).unwrap() {
        StakePoolInstruction::LinkCard { card_id } => assert_eq!(card_id, b"c1".to_vec()),
        other => panic!("wrong decode: {:?}", other),
    }
    assert!(matches!(decode_instruction(&[5u8]).unwrap(), StakePoolInstruction::UnlinkCard));
    let mut init = vec![0u8];
    init.extend_from_slice(&[6u8; 32]);
    match decode_instruction(&init).unwrap() {
        StakePoolInstruction::Initialize { msol_mint } => assert_eq!(msol_mint, ident(6)),
        other => panic!("wrong decode: {:?}", other),
    }
}

#[test]
fn decode_instruction_rejects_bad_input() {
    assert_eq!(decode_instruction(&[]).unwrap_err(), StakePoolError::InvalidInstructionData);
    assert_eq!(decode_instruction(&[42u8]).unwrap_err(),
        StakePoolError::InvalidInstructionData);
    // A numeric argument must be present in full at its fixed offset.
    assert_eq!(decode_instruction(&[1u8, 1, 2, 3]).unwrap_err(),
        StakePoolError::InvalidInstructionData);
    // The Initialize identity must be present in full.
    assert_eq!(decode_instruction(&[0u8, 1, 2]).unwrap_err(),
        StakePoolError::InvalidInstructionData);
}

#[test]
fn dispatch_initialize_then_stake() {
    let mut buffer = vec![0u8; POOL_RECORD_LEN];
    let init_accounts = InstructionAccounts::ForInitialize(Initialize {
        stake_pool: pool_meta(),
        authority: signer(9),
    });
    let mut init = vec![0u8];
    init.extend_from_slice(&[3u8; 32]);
    let out = process_instruction(&program_id(), &init_accounts, &mut buffer, None, &init, 0)
        .unwrap();
    assert!(out.user_stake.is_none());
    assert!(out.effects.is_empty());

    let stake_accounts = InstructionAccounts::ForStake(Stake {
        stake_pool: pool_meta(),
        user: signer(2),
        msol_mint: AccountMeta { key: ident(3), owner: ident(0), is_signer: false },
        user_msol: AccountMeta { key: ident(4), owner: ident(0), is_signer: false },
        pool_msol: AccountMeta { key: ident(5), owner: ident(0), is_signer: false },
    });
    let mut stake = vec![1u8];
    stake.extend_from_slice(&700u64.to_le_bytes());
    let out = process_instruction(&program_id(), &stake_accounts, &mut buffer, None, &stake, 0)
        .unwrap();
    let record = out.user_stake.expect("a stake leaves a depositor record");
    assert_eq!(record.amount, 700);
    assert_eq!(out.effects.len(), 2);
    let pool = StakePool::deserialize(&buffer).unwrap();
    assert_eq!(pool.total_staked, 700);
    assert_eq!(pool.total_msol, 700);
}

#[test]
fn reinitialize_is_rejected_and_buffer_kept() {
    let mut buffer = vec![0u8; POOL_RECORD_LEN];
    let init_accounts = InstructionAccounts::ForInitialize(Initialize {
        stake_pool: pool_meta(),
        authority: signer(9),
    });
    let mut init = vec![0u8];
    init.extend_from_slice(&[3u8; 32]);
    process_instruction(&program_id(), &init_accounts, &mut buffer, None, &init, 0).unwrap();
    let after_first = buffer.clone();
    // A second creation, even by another authority with another mint,
    // leaves the singleton exactly as it was.
    let second_accounts = InstructionAccounts::ForInitialize(Initialize {
        stake_pool: pool_meta(),
        authority: signer(8),
    });
    let mut second = vec![0u8];
    second.extend_from_slice(&[6u8; 32]);
    let r = process_instruction(&program_id(), &second_accounts, &mut buffer, None, &second, 0);
    assert_eq!(r.unwrap_err(), StakePoolError::AlreadyInitialized);
    assert_eq!(buffer, after_first);
    let pool = StakePool::deserialize(&buffer).unwrap();
    assert_eq!(pool.authority, ident(9));
    assert_eq!(pool.msol_mint, ident(3));
}

#[test]
fn dispatch_rejects_mismatched_accounts() {
    let mut buffer = vec![0u8; POOL_RECORD_LEN];
    let init_accounts = InstructionAccounts::ForInitialize(Initialize {
        stake_pool: pool_meta(),
        authority: signer(9),
    });
    let mut stake = vec![1u8];
    stake.extend_from_slice(&700u64.to_le_bytes());
    let r = process_instruction(&program_id(), &init_accounts, &mut buffer, None, &stake, 0);
    assert_eq!(r.unwrap_err(), StakePoolError::InvalidInstructionData);
}

#[test]
fn dispatch_error_leaves_buffer_unchanged() {
    let mut buffer = vec![0u8; POOL_RECORD_LEN];
    let before = buffer.clone();
    let stake_accounts = InstructionAccounts::ForStake(Stake {
        stake_pool: pool_meta(),
        user: signer(2),
        msol_mint: AccountMeta { key: ident(3), owner: ident(0), is_signer: false },
        user_msol: AccountMeta { key: ident(4), owner: ident(0), is_signer: false },
        pool_msol: AccountMeta { key: ident(5), owner: ident(0), is_signer: false },
    });
    // An all-zero buffer decodes to a pool whose mint is the zero identity,
    // so the mint account check fails and nothing is written.
    let mut stake = vec![1u8];
    stake.extend_from_slice(&700u64.to_le_bytes());
    let r = process_instruction(&program_id(), &stake_accounts, &mut buffer, None, &stake, 0);
    assert_eq!(r.unwrap_err(), StakePoolError::AddressMismatch);
    assert_eq!(buffer, before);
}

#[test]
fn derived_address_matches_host_derivation() {
    let (pda, bump) = find_stake_pool_address(&program_id()).unwrap();
    let host_program = solana_program::pubkey::Pubkey::new_from_array([7u8; 32]);
    let (host_pda, host_bump) =
        solana_program::pubkey::Pubkey::find_program_address(&[b"stake_pool"], &host_program);
    assert_eq!(pda.bytes, host_pda.to_bytes().to_vec());
    assert_eq!(bump, host_bump);
    // Distinct programs derive distinct pool addresses.
    let (other, _) = find_stake_pool_address(&ident(8)).unwrap();
    assert_ne!(other.bytes, pda.bytes);
    assert_ne!(pda.bytes, vec![7u8; 32]);
}

#[test]
fn user_stake_new_is_empty() {
    let record = UserStake::new(ident(2));
    assert_eq!(record.user, ident(2));
    assert_eq!(record.amount, 0);
    assert_eq!(record.debt, 0);
}

#[test]
fn engine_outcome_carries_effects_through() {
    let mut buffer = vec![0u8; POOL_RECORD_LEN];
    let init_accounts = InstructionAccounts::ForInitialize(Initialize {
        stake_pool: pool_meta(),
        authority: signer(9),
    });
    let mut init = vec![0u8];
    init.extend_from_slice(&[3u8; 32]);
    let EngineOutcome { user_stake, effects } =
        process_instruction(&program_id(), &init_accounts, &mut buffer, None, &init, 0)
            .unwrap();
    assert!(user_stake.is_none());
    let no_effects: Vec<PoolEffect> = effects;
    assert!(no_effects.is_empty());
}
