//! Balance accounting: supply conservation across operation sequences,
//! zero entries never stored, and trim selection of the lowest
//! balances.

use token_ledger::{AccountIdentifier, BalancesStore, LedgerBalances, Operation, TOKENs};

fn assert_conserved(b: &LedgerBalances, accounts: &[u64]) {
    // total supply plus the unminted pool is the whole supply
    let supply = b.total_supply().get_e8s();
    assert_eq!(supply as u128 + b.icpt_pool.get_e8s() as u128, u64::MAX as u128);
    // and the total supply is the sum of all balances
    let sum: u128 = accounts
        .iter()
        .map(|a| b.account_balance(&AccountIdentifier(*a)).get_e8s() as u128)
        .sum();
    assert_eq!(sum, supply as u128);
}

#[test]
fn conservation_across_operations() {
    let mut b = LedgerBalances::new();
    let accounts = [1u64, 2, 3];
    assert_conserved(&b, &accounts);

    b.add_payment(&Operation::Mint {
        to: AccountIdentifier(1),
        amount: TOKENs::from_e8s(1_000),
    });
    assert_conserved(&b, &accounts);
    assert_eq!(b.account_balance(&AccountIdentifier(1)).get_e8s(), 1_000);

    b.add_payment(&Operation::Transfer {
        from: AccountIdentifier(1),
        to: AccountIdentifier(2),
        amount: TOKENs::from_e8s(300),
        fee: TOKENs::from_e8s(10),
    });
    assert_conserved(&b, &accounts);
    assert_eq!(b.account_balance(&AccountIdentifier(1)).get_e8s(), 690);
    assert_eq!(b.account_balance(&AccountIdentifier(2)).get_e8s(), 300);
    // the fee left circulation
    assert_eq!(b.total_supply().get_e8s(), 990);

    b.add_payment(&Operation::Burn {
        from: AccountIdentifier(2),
        amount: TOKENs::from_e8s(200),
    });
    assert_conserved(&b, &accounts);
    assert_eq!(b.total_supply().get_e8s(), 790);
}

#[test]
fn zero_balances_are_not_stored() {
    let mut b = LedgerBalances::new();
    b.add_payment(&Operation::Mint { to: AccountIdentifier(1), amount: TOKENs::from_e8s(50) });
    b.add_payment(&Operation::Mint { to: AccountIdentifier(2), amount: TOKENs::from_e8s(60) });
    assert_eq!(b.store.num_accounts(), 2);
    // burning everything removes the entry
    b.add_payment(&Operation::Burn { from: AccountIdentifier(1), amount: TOKENs::from_e8s(50) });
    assert_eq!(b.store.num_accounts(), 1);
    assert_eq!(b.account_balance(&AccountIdentifier(1)).get_e8s(), 0);
}

#[test]
fn can_apply_payment_checks_funds_and_pool() {
    let mut b = LedgerBalances::new();
    b.add_payment(&Operation::Mint { to: AccountIdentifier(1), amount: TOKENs::from_e8s(100) });
    assert!(b.can_apply_payment(&Operation::Burn {
        from: AccountIdentifier(1),
        amount: TOKENs::from_e8s(100),
    }));
    assert!(!b.can_apply_payment(&Operation::Burn {
        from: AccountIdentifier(1),
        amount: TOKENs::from_e8s(101),
    }));
    // a transfer needs amount plus fee
    assert!(!b.can_apply_payment(&Operation::Transfer {
        from: AccountIdentifier(1),
        to: AccountIdentifier(2),
        amount: TOKENs::from_e8s(95),
        fee: TOKENs::from_e8s(10),
    }));
    // an absent account cannot pay at all
    assert!(!b.can_apply_payment(&Operation::Transfer {
        from: AccountIdentifier(9),
        to: AccountIdentifier(2),
        amount: TOKENs::from_e8s(0),
        fee: TOKENs::from_e8s(0),
    }));
    // a mint is capped by the pool
    assert!(b.can_apply_payment(&Operation::Mint {
        to: AccountIdentifier(2),
        amount: b.icpt_pool,
    }));
}

#[test]
fn trim_selects_the_two_lowest_balances() {
    let mut b = LedgerBalances::new();
    for (account, balance) in [(1u64, 1u64), (2, 5), (3, 3), (4, 9), (5, 2)] {
        b.add_payment(&Operation::Mint {
            to: AccountIdentifier(account),
            amount: TOKENs::from_e8s(balance),
        });
    }
    let trimmed = b.select_accounts_to_trim(2);
    let mut balances: Vec<u64> = trimmed.iter().map(|(amount, _)| amount.get_e8s()).collect();
    balances.sort();
    assert_eq!(balances, vec![1, 2]);
    let mut accounts: Vec<u64> = trimmed.iter().map(|(_, account)| account.0).collect();
    accounts.sort();
    assert_eq!(accounts, vec![1, 5]);
}

#[test]
fn trim_returns_fewer_when_the_store_is_small() {
    let mut b = LedgerBalances::new();
    b.add_payment(&Operation::Mint { to: AccountIdentifier(1), amount: TOKENs::from_e8s(4) });
    assert_eq!(b.select_accounts_to_trim(3).len(), 1);
    assert_eq!(b.select_accounts_to_trim(0).len(), 0);
    let empty = LedgerBalances::new();
    assert_eq!(empty.select_accounts_to_trim(2).len(), 0);
}

#[test]
fn trim_ties_are_broken_consistently() {
    let mut b = LedgerBalances::new();
    for account in [10u64, 20, 30] {
        b.add_payment(&Operation::Mint {
            to: AccountIdentifier(account),
            amount: TOKENs::from_e8s(7),
        });
    }
    // all balances equal: the two smallest pairs under the
    // (balance, account) order are the two smallest account keys
    let trimmed = b.select_accounts_to_trim(2);
    let mut accounts: Vec<u64> = trimmed.iter().map(|(_, account)| account.0).collect();
    accounts.sort();
    assert_eq!(accounts, vec![10, 20]);
}

#[test]
fn debit_and_credit_move_exact_amounts() {
    let mut b = LedgerBalances::new();
    b.credit(&AccountIdentifier(1), TOKENs::from_e8s(10));
    b.credit(&AccountIdentifier(1), TOKENs::from_e8s(5));
    assert_eq!(b.account_balance(&AccountIdentifier(1)).get_e8s(), 15);
    b.debit(&AccountIdentifier(1), TOKENs::from_e8s(6));
    assert_eq!(b.account_balance(&AccountIdentifier(1)).get_e8s(), 9);
}
