//! The ledger state machine: initialization, payments, replay
//! protection over the transaction window, notification flags, the
//! send rules, and the archive index search.

use token_ledger::{
    find_block_in_archive, make_send_operation, AccountIdentifier, CanisterId, Ledger, Memo,
    NotifyError, Operation, PaymentError, SendError, TimeStamp, TOKENs, MIN_BURN_AMOUNT_E8S,
    TRANSACTION_FEE_E8S,
};

const HOUR: u64 = 3_600_000_000_000;
const DAY: u64 = 24 * HOUR;

fn fresh_ledger(now: u64) -> Ledger {
    let mut ledger = Ledger::default();
    ledger
        .from_init(
            vec![
                (AccountIdentifier(1), TOKENs::from_e8s(1_000_000)),
                (AccountIdentifier(2), TOKENs::from_e8s(500_000)),
            ],
            AccountIdentifier(0),
            TimeStamp::from_nanos(now),
            None,
            vec![CanisterId(42)],
        )
        .unwrap();
    ledger
}

fn transfer(amount: u64) -> Operation {
    Operation::Transfer {
        from: AccountIdentifier(1),
        to: AccountIdentifier(2),
        amount: TOKENs::from_e8s(amount),
        fee: TOKENs::from_e8s(10),
    }
}

#[test]
fn from_init_mints_the_initial_balances() {
    let ledger = fresh_ledger(HOUR);
    assert_eq!(
        ledger.balances.account_balance(&AccountIdentifier(1)).get_e8s(),
        1_000_000
    );
    assert_eq!(
        ledger.balances.account_balance(&AccountIdentifier(2)).get_e8s(),
        500_000
    );
    assert_eq!(ledger.balances.total_supply().get_e8s(), 1_500_000);
    assert_eq!(ledger.blockchain.chain_length(), 2);
    assert_eq!(ledger.minting_account_id, Some(AccountIdentifier(0)));
}

#[test]
fn payments_get_consecutive_heights() {
    let mut ledger = fresh_ledger(HOUR);
    for i in 0..5u64 {
        let now = TimeStamp::from_nanos(HOUR + i);
        let (height, tip) = ledger
            .add_payment_with_timestamp(Memo(i), transfer(100), None, now)
            .unwrap();
        assert_eq!(height, 2 + i);
        // the returned hash is the chain tip
        assert!(ledger.blockchain.last_hash().unwrap().same_hash(&tip));
    }
    assert_eq!(ledger.blockchain.chain_length(), 7);
}

#[test]
fn duplicate_within_window_is_rejected() {
    let mut ledger = fresh_ledger(HOUR);
    let created_at = Some(TimeStamp::from_nanos(HOUR));
    let first = ledger.add_payment_with_timestamp(
        Memo(7),
        transfer(100),
        created_at,
        TimeStamp::from_nanos(HOUR),
    );
    assert!(first.is_ok());
    // identical (operation, memo, created_at_time) inside the window
    let second = ledger.add_payment_with_timestamp(
        Memo(7),
        transfer(100),
        created_at,
        TimeStamp::from_nanos(HOUR + 1),
    );
    assert_eq!(second, Err(PaymentError::DuplicateTransaction));
    // a different memo is a different transaction
    let third = ledger.add_payment_with_timestamp(
        Memo(8),
        transfer(100),
        created_at,
        TimeStamp::from_nanos(HOUR + 2),
    );
    assert!(third.is_ok());
}

#[test]
fn resubmission_succeeds_after_the_window() {
    let mut ledger = fresh_ledger(HOUR);
    let created_at = Some(TimeStamp::from_nanos(HOUR));
    ledger
        .add_payment_with_timestamp(Memo(7), transfer(100), created_at, TimeStamp::from_nanos(HOUR))
        .unwrap();
    assert_eq!(ledger.transactions_by_hash_len(), 3);
    // advance `now` to the instant the window has fully elapsed: the
    // old entry is purged, and the same tuple is not yet expired
    let later = TimeStamp::from_nanos(HOUR + DAY);
    let again = ledger.add_payment_with_timestamp(Memo(7), transfer(100), created_at, later);
    assert!(again.is_ok());
    // the purge also dropped the two mint entries
    assert_eq!(ledger.transactions_by_height_len(), 1);
}

#[test]
fn expired_and_future_timestamps_are_rejected() {
    let mut ledger = fresh_ledger(HOUR);
    let now = TimeStamp::from_nanos(10 * DAY);
    // a creation time a full window before `now` has expired
    let stale = Some(TimeStamp::from_nanos(9 * DAY - 1));
    assert_eq!(
        ledger.add_payment_with_timestamp(Memo(1), transfer(100), stale, now),
        Err(PaymentError::ExpiredTransaction)
    );
    // a creation time past the permitted drift lies in the future
    let early = Some(TimeStamp::from_nanos(10 * DAY + 61_000_000_000));
    assert_eq!(
        ledger.add_payment_with_timestamp(Memo(1), transfer(100), early, now),
        Err(PaymentError::FutureTimestamp)
    );
    // rejected payments change no balances
    assert_eq!(
        ledger.balances.account_balance(&AccountIdentifier(1)).get_e8s(),
        1_000_000
    );
}

#[test]
fn notification_flags_flip_once() {
    let mut ledger = fresh_ledger(HOUR);
    let block_ts = TimeStamp::from_nanos(HOUR);
    let now = TimeStamp::from_nanos(2 * HOUR);
    assert_eq!(ledger.change_notification_state(1, block_ts, true, now), Ok(()));
    assert!(ledger.is_notified(1));
    assert_eq!(
        ledger.change_notification_state(1, block_ts, true, now),
        Err(NotifyError::StateAlreadySet)
    );
    assert_eq!(ledger.change_notification_state(1, block_ts, false, now), Ok(()));
    assert!(!ledger.is_notified(1));
    assert_eq!(
        ledger.change_notification_state(1, block_ts, false, now),
        Err(NotifyError::StateAlreadySet)
    );
    // a block older than the window cannot be notified
    let late = TimeStamp::from_nanos(HOUR + DAY);
    assert_eq!(
        ledger.change_notification_state(1, block_ts, true, late),
        Err(NotifyError::TransactionTooOld)
    );
}

#[test]
fn whitelist_gates_sending_and_notifying() {
    let ledger = fresh_ledger(HOUR);
    assert!(ledger.can_send(true, &CanisterId(7)));
    assert!(ledger.can_send(false, &CanisterId(42)));
    assert!(!ledger.can_send(false, &CanisterId(7)));
    assert!(ledger.can_be_notified(&CanisterId(42)));
    assert!(!ledger.can_be_notified(&CanisterId(7)));
}

#[test]
fn send_rules_classify_operations() {
    let minting = AccountIdentifier(0);
    let user = AccountIdentifier(1);
    let other = AccountIdentifier(2);
    let amount = TOKENs::from_e8s(MIN_BURN_AMOUNT_E8S);
    let zero = TOKENs::zero();
    let fee = TOKENs::from_e8s(TRANSACTION_FEE_E8S);

    // a send from the minting account is a mint
    assert_eq!(
        make_send_operation(minting, user, minting, amount, zero),
        Ok(Operation::Mint { to: user, amount })
    );
    assert_eq!(
        make_send_operation(minting, user, minting, amount, fee),
        Err(SendError::NonZeroFee)
    );
    assert_eq!(
        make_send_operation(minting, minting, minting, amount, zero),
        Err(SendError::MintToMintingAccount)
    );
    // a send to the minting account is a burn
    assert_eq!(
        make_send_operation(user, minting, minting, amount, zero),
        Ok(Operation::Burn { from: user, amount })
    );
    assert_eq!(
        make_send_operation(user, minting, minting, amount, fee),
        Err(SendError::NonZeroFee)
    );
    assert_eq!(
        make_send_operation(user, minting, minting, TOKENs::from_e8s(MIN_BURN_AMOUNT_E8S - 1), zero),
        Err(SendError::BurnTooSmall)
    );
    // anything else is a transfer at exactly the fixed fee
    assert_eq!(
        make_send_operation(user, other, minting, amount, fee),
        Ok(Operation::Transfer { from: user, to: other, amount, fee })
    );
    assert_eq!(
        make_send_operation(user, other, minting, amount, zero),
        Err(SendError::WrongFee)
    );
}

#[test]
fn archive_index_search_finds_the_range() {
    let index = vec![
        ((0u64, 9u64), CanisterId(1)),
        ((10, 19), CanisterId(2)),
        ((30, 39), CanisterId(3)),
    ];
    assert_eq!(find_block_in_archive(&index, 0), Some(CanisterId(1)));
    assert_eq!(find_block_in_archive(&index, 9), Some(CanisterId(1)));
    assert_eq!(find_block_in_archive(&index, 15), Some(CanisterId(2)));
    assert_eq!(find_block_in_archive(&index, 35), Some(CanisterId(3)));
    assert_eq!(find_block_in_archive(&index, 25), None);
    assert_eq!(find_block_in_archive(&index, 40), None);
    assert_eq!(find_block_in_archive(&vec![], 5), None);
}

#[test]
fn ledger_archiving_handoff() {
    let mut ledger = fresh_ledger(HOUR);
    for i in 0..8u64 {
        ledger
            .add_payment_with_timestamp(
                Memo(i),
                transfer(10),
                None,
                TimeStamp::from_nanos(HOUR + i),
            )
            .unwrap();
    }
    // 10 blocks live: 2 mints + 8 transfers
    let batch = ledger.get_blocks_for_archiving(5, 4);
    assert_eq!(batch.len(), 4);
    ledger.remove_archived_blocks(4);
    assert_eq!(ledger.blockchain.num_archived_blocks(), 4);
    assert_eq!(ledger.blockchain.chain_length(), 10);
    assert!(ledger.blockchain.get(3).is_none());
    assert!(ledger.blockchain.get(4).is_some());
}

#[test]
fn migration_add_block_applies_balances() {
    let mut ledger = fresh_ledger(HOUR);
    let tx = token_ledger::Transaction {
        operation: Operation::Burn { from: AccountIdentifier(2), amount: TOKENs::from_e8s(100) },
        memo: Memo(0),
        created_at_time: TimeStamp::from_nanos(HOUR),
    };
    let block = token_ledger::Block::new_from_transaction(
        ledger.blockchain.last_hash(),
        tx,
        TimeStamp::from_nanos(2 * HOUR),
    );
    let height = ledger.add_block(block).unwrap();
    assert_eq!(height, 2);
    assert_eq!(
        ledger.balances.account_balance(&AccountIdentifier(2)).get_e8s(),
        499_900
    );
}
