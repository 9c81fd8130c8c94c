use stake_pool::accounts::{AccountMeta, ClaimRewards, Initialize, LinkCard, ProcessBNPL, Stake,
    Unstake, UnlinkCard};
use stake_pool::errors::StakePoolError;
use stake_pool::cards::CardStatus;
use stake_pool::guard::{find_stake_pool_address, verify_pool_account, verify_signer};
use stake_pool::ids::Identity;
use stake_pool::pool::{StakePool, UserStake, POOL_RECORD_LEN};
use stake_pool::processor::{process_bnpl_transaction, process_claim_rewards, process_initialize,
    process_link_card, process_stake, process_unlink_card, process_unstake, PoolEffect};
use stake_pool::rewards::calculate_rewards;

fn ident(b: u8) -> Identity {
    Identity::from_bytes(vec![b; 32]).unwrap()
}

fn program_id() -> Identity {
    ident(7)
}

fn pool_meta() -> AccountMeta {
    let (pda, _) = find_stake_pool_address(&program_id()).unwrap();
    AccountMeta { key: pda, owner: program_id(), is_signer: false }
}

fn signer(b: u8) -> AccountMeta {
    AccountMeta { key: ident(b), owner: ident(0), is_signer: true }
}

fn fresh_pool(msol_mint: Identity) -> StakePool {
    let accounts = Initialize { stake_pool: pool_meta(), authority: signer(9) };
    process_initialize(&program_id(), &accounts, msol_mint, false).unwrap()
}

fn stake_accounts(user: u8) -> Stake {
    Stake {
        stake_pool: pool_meta(),
        user: signer(user),
        msol_mint: AccountMeta { key: ident(3), owner: ident(0), is_signer: false },
        user_msol: AccountMeta { key: ident(4), owner: ident(0), is_signer: false },
        pool_msol: AccountMeta { key: ident(5), owner: ident(0), is_signer: false },
    }
}

fn unstake_accounts(user: u8) -> Unstake {
    Unstake {
        stake_pool: pool_meta(),
        user: signer(user),
        msol_mint: AccountMeta { key: ident(3), owner: ident(0), is_signer: false },
        user_msol: AccountMeta { key: ident(4), owner: ident(0), is_signer: false },
    }
}

#[test]
fn initialize_sets_authority_and_mint() {
    let pool = fresh_pool(ident(3));
    assert_eq!(pool.total_staked, 0);
    assert_eq!(pool.total_msol, 0);
    assert_eq!(pool.reward_rate, 5);
    assert_eq!(pool.last_update_time, 0);
    assert_eq!(pool.authority, ident(9));
    assert_eq!(pool.msol_mint, ident(3));
    assert!(pool.linked_cards.is_empty());
}

#[test]
fn initialize_requires_signature() {
    let accounts = Initialize {
        stake_pool: pool_meta(),
        authority: AccountMeta { key: ident(9), owner: ident(0), is_signer: false },
    };
    let r = process_initialize(&program_id(), &accounts, ident(3), false);
    assert_eq!(r.unwrap_err(), StakePoolError::MissingSignature);
}

#[test]
fn initialize_rejects_wrong_pool_address() {
    let accounts = Initialize {
        stake_pool: AccountMeta { key: ident(1), owner: program_id(), is_signer: false },
        authority: signer(9),
    };
    let r = process_initialize(&program_id(), &accounts, ident(3), false);
    assert_eq!(r.unwrap_err(), StakePoolError::AddressMismatch);
}

#[test]
fn initialize_rejects_wrong_owner() {
    let (pda, _) = find_stake_pool_address(&program_id()).unwrap();
    let accounts = Initialize {
        stake_pool: AccountMeta { key: pda, owner: ident(1), is_signer: false },
        authority: signer(9),
    };
    let r = process_initialize(&program_id(), &accounts, ident(3), false);
    assert_eq!(r.unwrap_err(), StakePoolError::OwnershipMismatch);
}

#[test]
fn initialize_rejects_created_singleton() {
    let accounts = Initialize { stake_pool: pool_meta(), authority: signer(9) };
    let r = process_initialize(&program_id(), &accounts, ident(3), true);
    assert_eq!(r.unwrap_err(), StakePoolError::AlreadyInitialized);
}

#[test]
fn bnpl_with_zero_stake_fails() {
    let pool = fresh_pool(ident(3));
    let out = process_stake(&program_id(), &stake_accounts(2), pool, None, 500).unwrap();
    let link = LinkCard { stake_pool: pool_meta(), user: signer(2) };
    let p1 = process_link_card(&program_id(), &link, out.pool, Some(&out.user_stake),
        b"card-1".to_vec(), 60).unwrap();
    // A record whose stake has gone to zero no longer collateralizes the
    // linked card, even for a zero-amount draw-down.
    let drained = UserStake { user: ident(2), amount: 0, debt: 0 };
    let r = process_bnpl_transaction(&program_id(), &bnpl_accounts(), &p1, Some(drained), 0);
    assert_eq!(r.unwrap_err(), StakePoolError::NoStakeFound);
}

fn bnpl_accounts() -> ProcessBNPL {
    ProcessBNPL { stake_pool: pool_meta(), user: signer(2) }
}

#[test]
fn stake_twice_accumulates_totals() {
    let pool = fresh_pool(ident(3));
    let accounts = stake_accounts(2);
    let out1 = process_stake(&program_id(), &accounts, pool, None, 700).unwrap();
    let out2 = process_stake(&program_id(), &accounts, out1.pool, Some(out1.user_stake), 42)
        .unwrap();
    assert_eq!(out2.pool.total_staked, 742);
    assert_eq!(out2.pool.total_msol, 742);
    assert_eq!(out2.user_stake.amount, 742);
    assert_eq!(out2.user_stake.user, ident(2));
}

#[test]
fn stake_requests_transfer_then_mint() {
    let pool = fresh_pool(ident(3));
    let accounts = stake_accounts(2);
    let out = process_stake(&program_id(), &accounts, pool, None, 10).unwrap();
    assert_eq!(out.effects.len(), 2);
    match &out.effects[0] {
        PoolEffect::TransferLamports { from, to, amount } => {
            assert_eq!(*from, ident(2));
            assert_eq!(*to, pool_meta().key);
            assert_eq!(*amount, 10);
        }
        other => panic!("expected a transfer first, got {:?}", other),
    }
    match &out.effects[1] {
        PoolEffect::MintReceipt { mint, to, authority, amount } => {
            assert_eq!(*mint, ident(3));
            assert_eq!(*to, ident(4));
            assert_eq!(*authority, pool_meta().key);
            assert_eq!(*amount, 10);
        }
        other => panic!("expected a mint second, got {:?}", other),
    }
}

#[test]
fn stake_rejects_zero_amount() {
    let pool = fresh_pool(ident(3));
    let r = process_stake(&program_id(), &stake_accounts(2), pool, None, 0);
    assert_eq!(r.unwrap_err(), StakePoolError::InvalidInstructionData);
}

#[test]
fn stake_rejects_wrong_mint() {
    let pool = fresh_pool(ident(3));
    let mut accounts = stake_accounts(2);
    accounts.msol_mint.key = ident(8);
    let r = process_stake(&program_id(), &accounts, pool, None, 5);
    assert_eq!(r.unwrap_err(), StakePoolError::AddressMismatch);
}

#[test]
fn stake_overflow_fails_and_leaves_record_unchanged() {
    let pool = fresh_pool(ident(3));
    let accounts = stake_accounts(2);
    let out = process_stake(&program_id(), &accounts, pool, None, u64::MAX).unwrap();
    let snapshot = out.pool.total_staked;
    let r = process_stake(&program_id(), &accounts, out.pool, Some(out.user_stake), 1);
    assert_eq!(r.unwrap_err(), StakePoolError::ArithmeticOverflow);
    // The failed operation produced no new record; re-reading the pool from
    // scratch shows the totals only the successful deposit left behind.
    assert_eq!(snapshot, u64::MAX);
}

#[test]
fn unstake_more_than_staked_fails() {
    let pool = fresh_pool(ident(3));
    let accounts = stake_accounts(2);
    let out = process_stake(&program_id(), &accounts, pool, None, 100).unwrap();
    let r = process_unstake(&program_id(), &unstake_accounts(2), out.pool, 101);
    assert_eq!(r.unwrap_err(), StakePoolError::InsufficientFunds);
}

#[test]
fn unstake_burns_before_transfer() {
    let pool = fresh_pool(ident(3));
    let out = process_stake(&program_id(), &stake_accounts(2), pool, None, 100).unwrap();
    let (new_pool, effects) = process_unstake(&program_id(), &unstake_accounts(2), out.pool, 40)
        .unwrap();
    assert_eq!(new_pool.total_staked, 60);
    assert_eq!(new_pool.total_msol, 60);
    assert_eq!(effects.len(), 2);
    assert!(matches!(effects[0], PoolEffect::BurnReceipt { .. }));
    assert!(matches!(effects[1], PoolEffect::TransferLamports { .. }));
}

#[test]
fn rewards_one_year_at_five_percent() {
    assert_eq!(calculate_rewards(1_000_000, 31_536_000, 5).unwrap(), 50_000);
}

#[test]
fn rewards_zero_elapsed_is_zero() {
    assert_eq!(calculate_rewards(1_000_000, 0, 5).unwrap(), 0);
}

#[test]
fn rewards_negative_elapsed_is_clock_regression() {
    assert_eq!(calculate_rewards(1_000_000, -1, 5).unwrap_err(),
        StakePoolError::ClockRegression);
}

#[test]
fn rewards_half_year() {
    assert_eq!(calculate_rewards(1_000_000, 15_768_000, 5).unwrap(), 25_000);
}

#[test]
fn claim_twice_same_time_is_idempotent() {
    let pool = fresh_pool(ident(3));
    let out = process_stake(&program_id(), &stake_accounts(2), pool, None, 1_000_000).unwrap();
    let accounts = ClaimRewards { stake_pool: pool_meta(), user: signer(2) };
    let (p1, reward1, effects1) = process_claim_rewards(&program_id(), &accounts, out.pool,
        31_536_000).unwrap();
    assert_eq!(reward1, 50_000);
    assert_eq!(effects1.len(), 1);
    assert_eq!(p1.last_update_time, 31_536_000);
    let (p2, reward2, effects2) = process_claim_rewards(&program_id(), &accounts, p1,
        31_536_000).unwrap();
    assert_eq!(reward2, 0);
    assert_eq!(p2.last_update_time, 31_536_000);
    assert!(effects2.is_empty());
}

#[test]
fn claim_rejects_clock_regression() {
    let pool = fresh_pool(ident(3));
    let accounts = ClaimRewards { stake_pool: pool_meta(), user: signer(2) };
    let (p1, _, _) = process_claim_rewards(&program_id(), &accounts, pool, 100).unwrap();
    let r = process_claim_rewards(&program_id(), &accounts, p1, 99);
    assert_eq!(r.unwrap_err(), StakePoolError::ClockRegression);
}

#[test]
fn link_requires_stake() {
    let pool = fresh_pool(ident(3));
    let accounts = LinkCard { stake_pool: pool_meta(), user: signer(2) };
    let r = process_link_card(&program_id(), &accounts, pool, None, b"card-1".to_vec(), 50);
    assert_eq!(r.unwrap_err(), StakePoolError::NoStakeFound);
}

#[test]
fn link_requires_nonzero_stake() {
    let pool = fresh_pool(ident(3));
    let accounts = LinkCard { stake_pool: pool_meta(), user: signer(2) };
    let empty = UserStake { user: ident(2), amount: 0, debt: 0 };
    let r = process_link_card(&program_id(), &accounts, pool, Some(&empty), b"card-1".to_vec(),
        50);
    assert_eq!(r.unwrap_err(), StakePoolError::NoStakeFound);
}

#[test]
fn link_then_unlink_then_bnpl_fails() {
    let pool = fresh_pool(ident(3));
    let out = process_stake(&program_id(), &stake_accounts(2), pool, None, 500).unwrap();
    let link = LinkCard { stake_pool: pool_meta(), user: signer(2) };
    let p1 = process_link_card(&program_id(), &link, out.pool, Some(&out.user_stake),
        b"card-1".to_vec(), 60).unwrap();
    assert_eq!(p1.linked_cards.len(), 1);
    assert_eq!(p1.linked_cards[0].info.status, CardStatus::Linked);
    let unlink = UnlinkCard { stake_pool: pool_meta(), user: signer(2) };
    let p2 = process_unlink_card(&program_id(), &unlink, p1, 70).unwrap();
    assert_eq!(p2.linked_cards.len(), 1);
    assert_eq!(p2.linked_cards[0].info.status, CardStatus::Unlinked);
    assert_eq!(p2.linked_cards[0].info.linked_at, 70);
    let bnpl = ProcessBNPL { stake_pool: pool_meta(), user: signer(2) };
    let r = process_bnpl_transaction(&program_id(), &bnpl, &p2, Some(out.user_stake), 10);
    assert_eq!(r.unwrap_err(), StakePoolError::NoLinkedCard);
}

#[test]
fn unlink_without_card_fails() {
    let pool = fresh_pool(ident(3));
    let unlink = UnlinkCard { stake_pool: pool_meta(), user: signer(2) };
    let r = process_unlink_card(&program_id(), &unlink, pool, 70);
    assert_eq!(r.unwrap_err(), StakePoolError::NoLinkedCard);
}

#[test]
fn bnpl_credit_limit_is_staked_amount() {
    let pool = fresh_pool(ident(3));
    let out = process_stake(&program_id(), &stake_accounts(2), pool, None, 500).unwrap();
    let link = LinkCard { stake_pool: pool_meta(), user: signer(2) };
    let p1 = process_link_card(&program_id(), &link, out.pool, Some(&out.user_stake),
        b"card-1".to_vec(), 60).unwrap();
    let bnpl = ProcessBNPL { stake_pool: pool_meta(), user: signer(2) };
    let over = process_bnpl_transaction(&program_id(), &bnpl, &p1,
        Some(out.user_stake.clone()), 501);
    assert_eq!(over.unwrap_err(), StakePoolError::ExceedsCreditLimit);
    let exact = process_bnpl_transaction(&program_id(), &bnpl, &p1, Some(out.user_stake), 500)
        .unwrap();
    assert_eq!(exact.debt, 500);
    assert_eq!(exact.amount, 500);
}

#[test]
fn bnpl_without_stake_record_fails() {
    let pool = fresh_pool(ident(3));
    let out = process_stake(&program_id(), &stake_accounts(2), pool, None, 500).unwrap();
    let link = LinkCard { stake_pool: pool_meta(), user: signer(2) };
    let p1 = process_link_card(&program_id(), &link, out.pool, Some(&out.user_stake),
        b"card-1".to_vec(), 60).unwrap();
    let bnpl = ProcessBNPL { stake_pool: pool_meta(), user: signer(2) };
    let r = process_bnpl_transaction(&program_id(), &bnpl, &p1, None, 10);
    assert_eq!(r.unwrap_err(), StakePoolError::NoStakeFound);
}

#[test]
fn relink_reuses_the_slot() {
    let pool = fresh_pool(ident(3));
    let out = process_stake(&program_id(), &stake_accounts(2), pool, None, 500).unwrap();
    let link = LinkCard { stake_pool: pool_meta(), user: signer(2) };
    let p1 = process_link_card(&program_id(), &link, out.pool, Some(&out.user_stake),
        b"card-1".to_vec(), 60).unwrap();
    let p2 = process_link_card(&program_id(), &link, p1, Some(&out.user_stake),
        b"card-2".to_vec(), 61).unwrap();
    assert_eq!(p2.linked_cards.len(), 1);
    assert_eq!(p2.linked_cards[0].info.card_id, b"card-2".to_vec());
    assert_eq!(p2.linked_cards[0].info.status, CardStatus::Linked);
    assert_eq!(p2.linked_cards[0].info.linked_at, 61);
}

#[test]
fn link_rejects_card_id_beyond_reserved_region() {
    let pool = fresh_pool(ident(3));
    let out = process_stake(&program_id(), &stake_accounts(2), pool, None, 500).unwrap();
    let link = LinkCard { stake_pool: pool_meta(), user: signer(2) };
    let r = process_link_card(&program_id(), &link, out.pool, Some(&out.user_stake),
        vec![b'x'; 1000], 60);
    assert_eq!(r.unwrap_err(), StakePoolError::BufferTooSmall);
}

#[test]
fn cards_iterate_in_key_order() {
    let pool = fresh_pool(ident(3));
    let mut pool = pool;
    for user in [9u8, 1, 5] {
        let accounts = stake_accounts(user);
        let out = process_stake(&program_id(), &accounts, pool, None, 500).unwrap();
        let link = LinkCard { stake_pool: pool_meta(), user: signer(user) };
        pool = process_link_card(&program_id(), &link, out.pool, Some(&out.user_stake),
            vec![user], 60).unwrap();
    }
    let keys: Vec<Identity> = pool.linked_cards.iter().map(|e| e.key.clone()).collect();
    assert_eq!(keys, vec![ident(1), ident(5), ident(9)]);
}

#[test]
fn verify_signer_rejects_unsigned() {
    let meta = AccountMeta { key: ident(2), owner: ident(0), is_signer: false };
    assert_eq!(verify_signer(&meta).unwrap_err(), StakePoolError::MissingSignature);
    assert!(verify_signer(&signer(2)).is_ok());
}

#[test]
fn verify_pool_account_checks_address_then_owner() {
    let wrong_addr = AccountMeta { key: ident(1), owner: program_id(), is_signer: false };
    assert_eq!(verify_pool_account(&wrong_addr, &program_id()).unwrap_err(),
        StakePoolError::AddressMismatch);
    let (pda, _) = find_stake_pool_address(&program_id()).unwrap();
    let wrong_owner = AccountMeta { key: pda, owner: ident(1), is_signer: false };
    assert_eq!(verify_pool_account(&wrong_owner, &program_id()).unwrap_err(),
        StakePoolError::OwnershipMismatch);
    assert!(verify_pool_account(&pool_meta(), &program_id()).is_ok());
}

#[test]
fn unstake_underflow_on_receipt_total() {
    // A record whose receipt total lags the staked total: the checked
    // subtraction on the receipt side is the one that trips.
    let mut pool = fresh_pool(ident(3));
    pool.total_staked = 100;
    pool.total_msol = 50;
    let r = process_unstake(&program_id(), &unstake_accounts(2), pool, 80);
    assert_eq!(r.unwrap_err(), StakePoolError::ArithmeticUnderflow);
}

#[test]
fn serialize_needs_full_record_length() {
    let pool = fresh_pool(ident(3));
    let mut small = vec![0u8; POOL_RECORD_LEN - 1];
    assert_eq!(pool.serialize(&mut small).unwrap_err(), StakePoolError::BufferTooSmall);
    assert_eq!(small.len(), POOL_RECORD_LEN - 1);
}

#[test]
fn deserialize_needs_full_record_length() {
    let short = vec![0u8; POOL_RECORD_LEN - 1];
    assert_eq!(StakePool::deserialize(&short).unwrap_err(), StakePoolError::BufferTooSmall);
}
