use lending_core::amount::Amount;
use lending_core::custody::{
    deposit_collateral, liquidate_collateral, lock_collateral, query_borrower, query_borrowers,
    read_borrower_info, read_borrowers, read_config, remove_borrower_info, store_borrower_info,
    store_config, unlock_collateral, withdraw_collateral, Action, BAssetInfo, BorrowerInfo, Config,
    ContractError, CustodyStorage, TokenMessage,
};
use lending_core::store::{bytes_eq, calc_range_start, clamp_limit, join_bytes, starts_with};

fn config() -> Config {
    Config {
        owner: b"owner".to_vec(),
        collateral_token: b"token".to_vec(),
        overseer_contract: b"overseer".to_vec(),
        market_contract: b"market".to_vec(),
        reward_contract: b"reward".to_vec(),
        liquidation_contract: b"liquidation".to_vec(),
        stable_denom: String::from("uusd"),
        basset_info: BAssetInfo {
            name: String::from("bluna"),
            symbol: String::from("BLUNA"),
            decimals: 6,
        },
    }
}

fn amt(x: u128) -> Amount {
    Amount::from_u128(x)
}

fn name(i: u32) -> Vec<u8> {
    format!("addr{:04}", i).into_bytes()
}

fn filled(n: u32) -> CustodyStorage {
    let mut s = CustodyStorage::new(config());
    // inserted out of order, to see the table order them
    for i in (0..n).rev() {
        deposit_collateral(&mut s, &name(i), amt(u128::from(i) + 1));
    }
    s
}

#[test]
fn deposit_lock_liquidate_unlock() {
    let mut s = CustodyStorage::new(config());
    let r = deposit_collateral(&mut s, b"A", amt(100));
    assert_eq!(r.action, Action::DepositCollateral);
    assert_eq!(r.amount, amt(100));
    assert_eq!(r.message, None);
    assert_eq!(
        read_borrower_info(&s, b"A"),
        BorrowerInfo { balance: amt(100), spendable: amt(100) }
    );

    let r = lock_collateral(&mut s, b"overseer", b"A", amt(40)).unwrap();
    assert_eq!(r.action, Action::LockCollateral);
    assert_eq!(r.message, None);
    assert_eq!(
        read_borrower_info(&s, b"A"),
        BorrowerInfo { balance: amt(100), spendable: amt(60) }
    );

    let r = liquidate_collateral(&mut s, b"overseer", b"L", b"A", amt(30)).unwrap();
    assert_eq!(r.action, Action::LiquidateCollateral);
    assert_eq!(
        r.message,
        Some(TokenMessage::ExecuteBid {
            token: b"token".to_vec(),
            contract: b"liquidation".to_vec(),
            amount: amt(30),
            liquidator: b"L".to_vec(),
            fee_address: Some(b"overseer".to_vec()),
            repay_address: Some(b"market".to_vec()),
        })
    );
    assert_eq!(
        read_borrower_info(&s, b"A"),
        BorrowerInfo { balance: amt(70), spendable: amt(60) }
    );

    // exactly what is locked may be unlocked
    let r = unlock_collateral(&mut s, b"overseer", b"A", amt(10)).unwrap();
    assert_eq!(r.action, Action::UnlockCollateral);
    assert_eq!(
        read_borrower_info(&s, b"A"),
        BorrowerInfo { balance: amt(70), spendable: amt(70) }
    );
}

#[test]
fn unlock_more_than_locked_is_refused() {
    let mut s = CustodyStorage::new(config());
    deposit_collateral(&mut s, b"A", amt(100));
    lock_collateral(&mut s, b"overseer", b"A", amt(40)).unwrap();
    assert_eq!(
        unlock_collateral(&mut s, b"overseer", b"A", amt(41)),
        Err(ContractError::UnlockAmountExceedsLocked(amt(40)))
    );
    assert_eq!(
        read_borrower_info(&s, b"A"),
        BorrowerInfo { balance: amt(100), spendable: amt(60) }
    );
}

#[test]
fn liquidate_more_than_locked_is_refused() {
    let mut s = CustodyStorage::new(config());
    deposit_collateral(&mut s, b"A", amt(100));
    lock_collateral(&mut s, b"overseer", b"A", amt(40)).unwrap();
    assert_eq!(
        liquidate_collateral(&mut s, b"overseer", b"L", b"A", amt(41)),
        Err(ContractError::LiquidationAmountExceedsLocked(amt(40)))
    );
    assert!(liquidate_collateral(&mut s, b"overseer", b"L", b"A", amt(40)).is_ok());
    assert_eq!(
        read_borrower_info(&s, b"A"),
        BorrowerInfo { balance: amt(60), spendable: amt(60) }
    );
}

#[test]
fn lock_more_than_spendable_is_refused() {
    let mut s = CustodyStorage::new(config());
    deposit_collateral(&mut s, b"A", amt(100));
    assert_eq!(
        lock_collateral(&mut s, b"overseer", b"A", amt(101)),
        Err(ContractError::LockAmountExceedsSpendable(amt(100)))
    );
    assert!(lock_collateral(&mut s, b"overseer", b"A", amt(100)).is_ok());
    assert_eq!(
        read_borrower_info(&s, b"A"),
        BorrowerInfo { balance: amt(100), spendable: amt(0) }
    );
}

#[test]
fn only_the_overseer_locks_unlocks_and_liquidates() {
    let mut s = CustodyStorage::new(config());
    deposit_collateral(&mut s, b"A", amt(100));
    assert_eq!(lock_collateral(&mut s, b"A", b"A", amt(1)), Err(ContractError::Unauthorized));
    assert_eq!(
        unlock_collateral(&mut s, b"overseer2", b"A", amt(0)),
        Err(ContractError::Unauthorized)
    );
    assert_eq!(
        liquidate_collateral(&mut s, b"oversee", b"L", b"A", amt(0)),
        Err(ContractError::Unauthorized)
    );
    assert_eq!(
        read_borrower_info(&s, b"A"),
        BorrowerInfo { balance: amt(100), spendable: amt(100) }
    );
}

#[test]
fn withdraw_all_spendable_keeps_a_locked_record() {
    let mut s = CustodyStorage::new(config());
    deposit_collateral(&mut s, b"A", amt(100));
    lock_collateral(&mut s, b"overseer", b"A", amt(40)).unwrap();
    let r = withdraw_collateral(&mut s, b"A", Some(amt(60))).unwrap();
    assert_eq!(r.action, Action::WithdrawCollateral);
    assert_eq!(
        r.message,
        Some(TokenMessage::Transfer {
            token: b"token".to_vec(),
            recipient: b"A".to_vec(),
            amount: amt(60),
        })
    );
    assert_eq!(
        read_borrower_info(&s, b"A"),
        BorrowerInfo { balance: amt(40), spendable: amt(0) }
    );
    assert_eq!(read_borrowers(&s, None, None).len(), 1);
}

#[test]
fn withdraw_to_zero_drops_the_record() {
    let mut s = CustodyStorage::new(config());
    deposit_collateral(&mut s, b"A", amt(100));
    let r = withdraw_collateral(&mut s, b"A", None).unwrap();
    assert_eq!(r.amount, amt(100));
    assert_eq!(read_borrowers(&s, None, None).len(), 0);
    let q = query_borrower(&s, b"A");
    assert_eq!(q.borrower, b"A".to_vec());
    assert_eq!(q.balance, amt(0));
    assert_eq!(q.spendable, amt(0));
}

#[test]
fn withdraw_more_than_spendable_is_refused() {
    let mut s = CustodyStorage::new(config());
    deposit_collateral(&mut s, b"A", amt(100));
    lock_collateral(&mut s, b"overseer", b"A", amt(40)).unwrap();
    assert_eq!(
        withdraw_collateral(&mut s, b"A", Some(amt(61))),
        Err(ContractError::WithdrawAmountExceedsSpendable(amt(60)))
    );
    assert_eq!(
        withdraw_collateral(&mut s, b"B", Some(amt(1))),
        Err(ContractError::WithdrawAmountExceedsSpendable(amt(0)))
    );
    assert_eq!(
        read_borrower_info(&s, b"A"),
        BorrowerInfo { balance: amt(100), spendable: amt(60) }
    );
}

#[test]
fn spendable_never_exceeds_balance() {
    let mut s = CustodyStorage::new(config());
    deposit_collateral(&mut s, b"A", amt(50));
    let _ = lock_collateral(&mut s, b"overseer", b"A", amt(20));
    let _ = liquidate_collateral(&mut s, b"overseer", b"L", b"A", amt(20));
    let _ = unlock_collateral(&mut s, b"overseer", b"A", amt(5));
    let _ = withdraw_collateral(&mut s, b"A", Some(amt(7)));
    let info = read_borrower_info(&s, b"A");
    assert_eq!(info, BorrowerInfo { balance: amt(23), spendable: amt(23) });
    assert!(!info.balance.lt(&info.spendable));
}

#[test]
fn pages_of_thirty_five_borrowers() {
    let s = filled(35);
    let page = read_borrowers(&s, None, None);
    assert_eq!(page.len(), 10);
    for (i, r) in page.iter().enumerate() {
        assert_eq!(r.borrower, name(i as u32));
        assert_eq!(r.balance, amt(i as u128 + 1));
        assert_eq!(r.spendable, amt(i as u128 + 1));
    }
    let page = read_borrowers(&s, None, Some(100));
    assert_eq!(page.len(), 30);
    assert_eq!(page[29].borrower, name(29));
    let page = read_borrowers(&s, Some(name(9)), None);
    assert_eq!(page.len(), 10);
    assert_eq!(page[0].borrower, name(10));
    assert_eq!(page[9].borrower, name(19));
    let page = query_borrowers(&s, Some(name(29)), Some(30));
    assert_eq!(page.borrowers.len(), 5);
    assert_eq!(page.borrowers[4].borrower, name(34));
    assert_eq!(read_borrowers(&s, None, Some(0)).len(), 0);
}

#[test]
fn records_are_kept_and_dropped() {
    let mut s = CustodyStorage::new(config());
    let info = BorrowerInfo { balance: Amount { hi: 7, lo: 9 }, spendable: Amount { hi: 7, lo: 8 } };
    store_borrower_info(&mut s, b"A", &info);
    assert_eq!(read_borrower_info(&s, b"A"), info);
    assert_eq!(read_borrower_info(&s, b"B"), BorrowerInfo { balance: amt(0), spendable: amt(0) });
    remove_borrower_info(&mut s, b"A");
    assert_eq!(read_borrower_info(&s, b"A"), BorrowerInfo { balance: amt(0), spendable: amt(0) });
    remove_borrower_info(&mut s, b"A");
    assert_eq!(read_borrowers(&s, None, None).len(), 0);
}

#[test]
fn config_is_replaced() {
    let mut s = CustodyStorage::new(config());
    assert_eq!(read_config(&s), &config());
    let mut c = config();
    c.overseer_contract = b"other".to_vec();
    store_config(&mut s, c.clone());
    assert_eq!(read_config(&s), &c);
    deposit_collateral(&mut s, b"A", amt(5));
    assert_eq!(lock_collateral(&mut s, b"overseer", b"A", amt(1)), Err(ContractError::Unauthorized));
    assert!(lock_collateral(&mut s, b"other", b"A", amt(1)).is_ok());
}

#[test]
fn amounts_carry_and_borrow() {
    let a = Amount { hi: 0, lo: u128::MAX };
    let one = amt(1);
    assert_eq!(a.checked_add(&one), Some(Amount { hi: 1, lo: 0 }));
    assert_eq!(a.add(&one), Amount { hi: 1, lo: 0 });
    assert_eq!(Amount { hi: 1, lo: 0 }.sub(&one), a);
    assert_eq!(Amount { hi: 3, lo: 5 }.sub(&Amount { hi: 1, lo: 7 }), Amount { hi: 1, lo: u128::MAX - 1 });
    let top = Amount { hi: u128::MAX, lo: u128::MAX };
    assert_eq!(top.checked_add(&one), None);
    assert_eq!(top.checked_add(&amt(0)), Some(top));
    assert!(a.lt(&Amount { hi: 1, lo: 0 }));
    assert!(!Amount { hi: 1, lo: 0 }.lt(&a));
    assert!(!a.lt(&a));
    assert!(Amount::zero().is_zero());
    assert!(!Amount { hi: 1, lo: 0 }.is_zero());
}

#[test]
fn amounts_are_read_back_from_their_bytes() {
    let a = Amount { hi: 0x0102, lo: 0x0304 };
    let b = a.to_bytes();
    assert_eq!(b.len(), 32);
    assert_eq!(b[0], 4);
    assert_eq!(b[1], 3);
    assert_eq!(b[16], 2);
    assert_eq!(b[17], 1);
    assert_eq!(Amount::from_bytes(&b), a);
}

#[test]
fn page_limits_and_start_keys() {
    assert_eq!(clamp_limit(None), 10);
    assert_eq!(clamp_limit(Some(0)), 0);
    assert_eq!(clamp_limit(Some(29)), 29);
    assert_eq!(clamp_limit(Some(30)), 30);
    assert_eq!(clamp_limit(Some(31)), 30);
    assert_eq!(clamp_limit(Some(u32::MAX)), 30);
    assert_eq!(calc_range_start(None), None);
    assert_eq!(calc_range_start(Some(b"ab".to_vec())), Some(vec![97, 98, 1]));
}

#[test]
fn byte_string_helpers() {
    assert!(bytes_eq(b"abc", b"abc"));
    assert!(!bytes_eq(b"abc", b"abd"));
    assert!(!bytes_eq(b"abc", b"ab"));
    assert!(bytes_eq(b"", b""));
    assert_eq!(join_bytes(b"ab", b"c"), b"abc".to_vec());
    assert!(starts_with(b"abc", b"ab"));
    assert!(starts_with(b"abc", b""));
    assert!(!starts_with(b"ab", b"abc"));
    assert!(!starts_with(b"abc", b"ac"));
}

#[test]
fn liquidating_the_whole_balance_drops_the_record() {
    let mut s = CustodyStorage::new(config());
    deposit_collateral(&mut s, b"A", amt(100));
    deposit_collateral(&mut s, b"B", amt(5));
    lock_collateral(&mut s, b"overseer", b"A", amt(100)).unwrap();
    let r = liquidate_collateral(&mut s, b"overseer", b"L", b"A", amt(100)).unwrap();
    assert_eq!(r.amount, amt(100));
    let page = read_borrowers(&s, None, None);
    assert_eq!(page.len(), 1);
    assert_eq!(page[0].borrower, b"B".to_vec());
    let q = query_borrower(&s, b"A");
    assert_eq!(q.balance, amt(0));
    assert_eq!(q.spendable, amt(0));
}

#[test]
fn liquidating_part_of_the_balance_keeps_the_record() {
    let mut s = CustodyStorage::new(config());
    deposit_collateral(&mut s, b"A", amt(100));
    lock_collateral(&mut s, b"overseer", b"A", amt(100)).unwrap();
    liquidate_collateral(&mut s, b"overseer", b"L", b"A", amt(99)).unwrap();
    let page = read_borrowers(&s, None, None);
    assert_eq!(page.len(), 1);
    assert_eq!(page[0].balance, amt(1));
    assert_eq!(page[0].spendable, amt(0));
}

#[test]
fn no_record_is_kept_for_a_balance_of_zero() {
    let mut s = CustodyStorage::new(config());
    assert!(lock_collateral(&mut s, b"overseer", b"A", amt(0)).is_ok());
    assert_eq!(read_borrowers(&s, None, None).len(), 0);
    assert!(unlock_collateral(&mut s, b"overseer", b"A", amt(0)).is_ok());
    assert_eq!(read_borrowers(&s, None, None).len(), 0);
    assert!(liquidate_collateral(&mut s, b"overseer", b"L", b"A", amt(0)).is_ok());
    assert_eq!(read_borrowers(&s, None, None).len(), 0);
    deposit_collateral(&mut s, b"A", amt(0));
    assert_eq!(read_borrowers(&s, None, None).len(), 0);
    store_borrower_info(&mut s, b"A", &BorrowerInfo { balance: amt(0), spendable: amt(0) });
    assert_eq!(read_borrowers(&s, None, None).len(), 0);
    store_borrower_info(&mut s, b"A", &BorrowerInfo { balance: amt(3), spendable: amt(0) });
    assert_eq!(read_borrowers(&s, None, None).len(), 1);
    store_borrower_info(&mut s, b"A", &BorrowerInfo { balance: amt(0), spendable: amt(0) });
    assert_eq!(read_borrowers(&s, None, None).len(), 0);
}

#[test]
fn consecutive_pages_make_one_page() {
    let s = filled(35);
    let first = read_borrowers(&s, None, Some(12));
    assert_eq!(first.len(), 12);
    let next = read_borrowers(&s, Some(first[11].borrower.clone()), Some(15));
    assert_eq!(next.len(), 15);
    let both = read_borrowers(&s, None, Some(27));
    let mut joined = first;
    joined.extend(next);
    assert_eq!(joined, both);
    let rest = read_borrowers(&s, Some(both[26].borrower.clone()), Some(30));
    assert_eq!(rest.len(), 8);
    assert_eq!(rest[7].borrower, name(34));
}
